use bif_viewport::node_graph::eval::EvalCtx;
use bif_viewport::node_graph::status::{
    display_menu_label, header_badge, is_scene_output, node_status, StatusLine, StatusTone,
};
use bif_viewport::node_graph::{
    GraphNodeId, PointSource, PrimitiveKind, ScatterMode, ScatterSettings, SceneNode, UsdKind,
    UsdPrimType, UsdSpecifier,
};

fn lines(v: Vec<StatusLine>) -> Vec<(String, StatusTone)> {
    v.into_iter().map(|l| (l.text, l.tone)).collect()
}

fn instancer() -> SceneNode {
    SceneNode::PointInstancer {
        instance_count: 0,
        is_instanced: false,
        is_computing: false,
        compute_failed: false,
        prim_path: "/PointInstancer_1".to_string(),
    }
}

#[test]
fn status_instancer_lists_missing_inputs() {
    let none = EvalCtx::new(vec![None, None]);
    assert_eq!(
        lines(node_status(&instancer(), false, false, &none)),
        vec![("Need: points, proto".to_string(), StatusTone::Warning)]
    );
    let points_only = EvalCtx::new(vec![Some(GraphNodeId(3)), None]);
    assert_eq!(
        lines(node_status(&instancer(), false, false, &points_only)),
        vec![("Need: proto".to_string(), StatusTone::Warning)]
    );
    let proto_only = EvalCtx::new(vec![None, Some(GraphNodeId(4))]);
    assert_eq!(
        lines(node_status(&instancer(), false, false, &proto_only)),
        vec![("Need: points".to_string(), StatusTone::Warning)]
    );
}

#[test]
fn status_instancer_dirty_and_done() {
    let ctx = EvalCtx::new(vec![]);
    assert_eq!(
        lines(node_status(&instancer(), true, false, &ctx)),
        vec![("Dirty".to_string(), StatusTone::Warning)]
    );
    let done = SceneNode::PointInstancer {
        instance_count: 250,
        is_instanced: true,
        is_computing: false,
        compute_failed: false,
        prim_path: "/PointInstancer_1".to_string(),
    };
    assert_eq!(
        lines(node_status(&done, true, false, &ctx)),
        vec![("250 instances".to_string(), StatusTone::Success)]
    );
    let failed = SceneNode::PointInstancer {
        instance_count: 0,
        is_instanced: false,
        is_computing: false,
        compute_failed: true,
        prim_path: "/PointInstancer_1".to_string(),
    };
    assert_eq!(
        lines(node_status(&failed, true, false, &ctx)),
        vec![("Compute failed".to_string(), StatusTone::Failure)]
    );
}

#[test]
fn status_scatter_counts_and_waits() {
    let computed = SceneNode::ScatterPoints {
        source: PointSource::Grid,
        count: 1000,
        max_point_limit: 1_000_000,
        seed: 42,
        settings: ScatterSettings {
            scatter_mode: ScatterMode::Random,
            align_to_normal: false,
            sphere_on_surface: true,
            relax_iterations: 0,
        },
        target_proto_id: None,
        is_computed: true,
    };
    let ctx = EvalCtx::new(vec![]);
    assert_eq!(
        lines(node_status(&computed, false, false, &ctx)),
        vec![("1000 pts".to_string(), StatusTone::Success)]
    );
    let surface = SceneNode::ScatterPoints {
        source: PointSource::Surface,
        count: 10,
        max_point_limit: 1_000_000,
        seed: 42,
        settings: ScatterSettings {
            scatter_mode: ScatterMode::Random,
            align_to_normal: false,
            sphere_on_surface: true,
            relax_iterations: 0,
        },
        target_proto_id: None,
        is_computed: false,
    };
    assert_eq!(
        lines(node_status(&surface, false, false, &ctx)),
        vec![("Waiting for input".to_string(), StatusTone::Warning)]
    );
    let fed = EvalCtx::new(vec![Some(GraphNodeId(1))]);
    assert!(node_status(&surface, false, false, &fed).is_empty());
}

#[test]
fn status_graft_counts_connected_branches() {
    let node = SceneNode::GraftBranches { destination_path: "/shot".to_string() };
    let ctx = EvalCtx::new(vec![Some(GraphNodeId(1)), None, Some(GraphNodeId(2)), None]);
    assert_eq!(
        lines(node_status(&node, false, false, &ctx)),
        vec![
            ("2/4 branches".to_string(), StatusTone::Plain),
            ("/shot".to_string(), StatusTone::Scene),
        ]
    );
}

#[test]
fn status_read_prim_and_hdri() {
    let ctx = EvalCtx::new(vec![]);
    let read = SceneNode::UsdRead {
        file_path: "a.usda".to_string(),
        is_loaded: false,
        error: Some("missing".to_string()),
    };
    assert_eq!(
        lines(node_status(&read, false, false, &ctx)),
        vec![("\u{2717} missing".to_string(), StatusTone::Failure)]
    );
    let prim = SceneNode::UsdPrim {
        prim_path: "/World".to_string(),
        prim_type: UsdPrimType::Scope,
        kind: UsdKind::Kindless,
        specifier: UsdSpecifier::Define,
        is_created: true,
    };
    assert_eq!(
        lines(node_status(&prim, false, false, &ctx)),
        vec![
            ("/World".to_string(), StatusTone::Scene),
            ("Created".to_string(), StatusTone::Success),
        ]
    );
    let hdri = SceneNode::HdriEnvironment {
        file_path: "sky.hdr".to_string(),
        is_loaded: false,
        is_loading: true,
        show_background: true,
        error: None,
    };
    assert_eq!(
        lines(node_status(&hdri, false, false, &ctx)),
        vec![("Generating IBL...".to_string(), StatusTone::Warning)]
    );
    let cube = SceneNode::Primitive {
        kind: PrimitiveKind::Cube,
        is_created: false,
        prim_path: "/Cube_1".to_string(),
    };
    assert_eq!(
        lines(node_status(&cube, true, false, &ctx)),
        vec![("Dirty".to_string(), StatusTone::Warning)]
    );
}

#[test]
fn status_display_flag_comes_first() {
    let prim = SceneNode::UsdPrim {
        prim_path: "/World".to_string(),
        prim_type: UsdPrimType::Scope,
        kind: UsdKind::Kindless,
        specifier: UsdSpecifier::Define,
        is_created: false,
    };
    let ctx = EvalCtx::new(vec![]);
    assert_eq!(
        lines(node_status(&prim, false, true, &ctx)),
        vec![
            ("Display".to_string(), StatusTone::Accent),
            ("/World".to_string(), StatusTone::Scene),
        ]
    );
}

#[test]
fn node_menu_display_entry() {
    let prim = SceneNode::UsdPrim {
        prim_path: "/World".to_string(),
        prim_type: UsdPrimType::Scope,
        kind: UsdKind::Kindless,
        specifier: UsdSpecifier::Define,
        is_created: false,
    };
    assert!(is_scene_output(&prim));
    assert_eq!(display_menu_label(&prim, false), Some("Set Display".to_string()));
    assert_eq!(display_menu_label(&prim, true), Some("Clear Display".to_string()));
    let export = SceneNode::UsdExport {
        output_path: String::new(),
        as_sublayer: false,
        export_root: "/".to_string(),
        is_exported: false,
        last_result: None,
    };
    assert!(!is_scene_output(&export));
    assert_eq!(display_menu_label(&export, true), None);
}

#[test]
fn header_badge_shows_nonzero_counts() {
    assert_eq!(header_badge(Some(12)), Some("[12]".to_string()));
    assert_eq!(header_badge(Some(0)), None);
    assert_eq!(header_badge(None), None);
}
