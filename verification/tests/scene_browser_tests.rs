use bif_viewport::node_graph::GraphNodeId;
use bif_viewport::scene_browser::{
    build_scene_graph_cache, is_direct_child, prim_type_icon, CachedSceneGraph, CompositeProvider,
    EmptyPrimProvider, IconColor, NodeFilteredProvider, PrimDataProvider, PrimDisplayInfo,
    ProceduralPrimKind, ScenePointCloud, ScenePrototype, SceneBrowserState,
};

fn proto(name: &str) -> ScenePrototype {
    ScenePrototype { name: name.to_string(), vertex_count: 8, index_count: 36 }
}

fn no_clouds() -> Vec<ScenePointCloud> {
    Vec::new()
}

fn no_cloud_map() -> Vec<(GraphNodeId, usize)> {
    Vec::new()
}

#[test]
fn test_scene_browser_state() {
    let mut state = SceneBrowserState::new();
    assert!(!state.is_expanded("/World"));
    state.expand("/World");
    assert!(state.is_expanded("/World"));
    state.collapse("/World");
    assert!(!state.is_expanded("/World"));
    state.toggle_expanded("/World");
    assert!(state.is_expanded("/World"));
    state.toggle_expanded("/World");
    assert!(!state.is_expanded("/World"));
}

#[test]
fn test_expand_to_path() {
    let mut state = SceneBrowserState::new();
    state.expand_to_path("/World/Geo/Mesh/SubMesh");
    assert!(state.is_expanded("/World"));
    assert!(state.is_expanded("/World/Geo"));
    assert!(state.is_expanded("/World/Geo/Mesh"));
    assert!(!state.is_expanded("/World/Geo/Mesh/SubMesh"));
}

#[test]
fn test_prim_type_icon() {
    assert_eq!(prim_type_icon("Mesh").0, "◆");
    assert_eq!(prim_type_icon("Mesh").1, IconColor::PinScene);
    assert_eq!(prim_type_icon("Xform").0, "✦");
    assert_eq!(prim_type_icon("Xform").1, IconColor::StatusWarning);
    assert_eq!(prim_type_icon("PointInstancer").0, "⊕");
    assert_eq!(prim_type_icon("PointInstancer").1, IconColor::AccentPrimary);
    assert_eq!(prim_type_icon("UnknownType").0, "○");
    assert_eq!(prim_type_icon("UnknownType").1, IconColor::TextSecondary);
}

#[test]
fn test_prim_display_info() {
    let info = PrimDisplayInfo::new(
        "/World/Geo/MyMesh".to_string(),
        "Mesh".to_string(),
        true,
        false,
        0,
    );
    assert_eq!(info.name, "MyMesh");
    assert_eq!(info.icon().0, "◆");
    assert_eq!(info.icon().1, IconColor::PinScene);
}

#[test]
fn test_filter_matching() {
    let mut state = SceneBrowserState::new();
    state.search_filter = "mesh".to_string();
    assert!(state.matches_filter("/World/MyMesh", "Mesh"));
    assert!(state.matches_filter("/World/Geo", "Mesh"));
    assert!(!state.matches_filter("/World/Geo", "Xform"));
}

#[test]
fn test_is_direct_child() {
    assert!(is_direct_child("", "/World"));
    assert!(is_direct_child("", "/Foo"));
    assert!(!is_direct_child("", "/World/Geo"));
    assert!(!is_direct_child("", ""));
    assert!(is_direct_child("/World", "/World/Geo"));
    assert!(is_direct_child("/World", "/World/Cube1"));
    assert!(!is_direct_child("/World", "/World/Geo/Mesh"));
    assert!(!is_direct_child("/World", "/World"));
    assert!(!is_direct_child("/World", "/Other/Geo"));
    assert!(is_direct_child("/World/Geo", "/World/Geo/Mesh"));
    assert!(!is_direct_child("/World/Geo", "/World/Geo/Mesh/Sub"));
    assert!(!is_direct_child("/Wo", "/World"));
}

#[test]
fn test_procedural_prim_kind_type_name() {
    assert_eq!(
        ProceduralPrimKind::Mesh { vertex_count: 8, triangle_count: 12 }.usd_type_name(),
        "Mesh"
    );
    assert_eq!(
        ProceduralPrimKind::PointInstancer { point_count: 100, prototype_refs: vec![] }
            .usd_type_name(),
        "PointInstancer"
    );
    assert_eq!(ProceduralPrimKind::Scope.usd_type_name(), "Scope");
}

#[test]
fn test_build_scene_graph_cache_children_index() {
    let cache = build_scene_graph_cache(&Vec::new(), &no_clouds(), &Vec::new(), &no_cloud_map());
    assert!(cache.procedural_prims.is_empty());
    assert!(cache.children_index.is_empty());
}

#[test]
fn test_source_node_tagging() {
    let node_a = GraphNodeId(42);
    let cache = build_scene_graph_cache(
        &vec![proto("/World/Cube")],
        &no_clouds(),
        &vec![(node_a, vec![0])],
        &no_cloud_map(),
    );
    let prim = cache.get_prim("/World/Cube").unwrap();
    assert_eq!(prim.source_node, Some(node_a));
    let scope = cache.get_prim("/World").unwrap();
    assert_eq!(scope.source_node, None);
}

#[test]
fn test_prim_count_by_node() {
    let node_a = GraphNodeId(1);
    let node_b = GraphNodeId(2);
    let cache = build_scene_graph_cache(
        &vec![proto("/World/Cube"), proto("/World/Sphere")],
        &no_clouds(),
        &vec![(node_a, vec![0]), (node_b, vec![1])],
        &no_cloud_map(),
    );
    let counts = cache.prim_count_by_node();
    let count_of = |n: GraphNodeId| counts.iter().find(|(id, _)| *id == n).map(|(_, c)| *c);
    assert_eq!(count_of(node_a), Some(1));
    assert_eq!(count_of(node_b), Some(1));
}

#[test]
fn test_node_filtered_provider() {
    let node_a = GraphNodeId(1);
    let node_b = GraphNodeId(2);
    let cache = build_scene_graph_cache(
        &vec![proto("/World/Cube"), proto("/World/Sphere")],
        &no_clouds(),
        &vec![(node_a, vec![0]), (node_b, vec![1])],
        &no_cloud_map(),
    );
    let composite = CompositeProvider::<EmptyPrimProvider>::new(None, &cache);
    let upstream = vec![node_a];
    let filtered = NodeFilteredProvider::new(&composite, &cache, node_a, &upstream);
    let roots = filtered.root_paths();
    assert!(roots.contains(&"/World".to_string()));
    let children = filtered.get_children("/World");
    assert!(children.contains(&"/World/Cube".to_string()));
    assert!(!children.contains(&"/World/Sphere".to_string()));
    assert!(filtered.is_from_selected_node("/World/Cube"));
    assert!(!filtered.is_from_selected_node("/World"));
}

#[test]
fn cache_adds_leading_slash_and_scopes() {
    let cache = build_scene_graph_cache(
        &vec![proto("A/B/C")],
        &no_clouds(),
        &Vec::new(),
        &no_cloud_map(),
    );
    assert_eq!(cache.procedural_prims.len(), 3);
    let c = cache.get_prim("/A/B/C").unwrap();
    match &c.kind {
        ProceduralPrimKind::Mesh { vertex_count, triangle_count } => {
            assert_eq!(*vertex_count, 8);
            assert_eq!(*triangle_count, 12);
        }
        _ => panic!("expected a mesh"),
    }
    assert!(matches!(cache.get_prim("/A").unwrap().kind, ProceduralPrimKind::Scope));
    assert!(matches!(cache.get_prim("/A/B").unwrap().kind, ProceduralPrimKind::Scope));
    assert_eq!(cache.children_list("").unwrap(), &vec!["/A".to_string()]);
    assert_eq!(cache.children_list("/A").unwrap(), &vec!["/A/B".to_string()]);
    assert!(cache.children_list("/A/B/C").is_none());
}

#[test]
fn cache_lists_point_clouds_and_later_prim_wins() {
    let clouds = vec![
        ScenePointCloud { name: "World/Pts".to_string(), point_count: 5, prototype_ids: vec![1, 7, 0] },
        ScenePointCloud { name: "".to_string(), point_count: 5, prototype_ids: vec![] },
        ScenePointCloud { name: "/Empty".to_string(), point_count: 0, prototype_ids: vec![] },
        ScenePointCloud { name: "/World/Cube".to_string(), point_count: 2, prototype_ids: vec![] },
    ];
    let node_c = GraphNodeId(9);
    let cache = build_scene_graph_cache(
        &vec![proto("/World/Cube"), proto("Sphere")],
        &clouds,
        &Vec::new(),
        &vec![(node_c, 0)],
    );
    let pts = cache.get_prim("/World/Pts").unwrap();
    assert_eq!(pts.source_node, Some(node_c));
    match &pts.kind {
        ProceduralPrimKind::PointInstancer { point_count, prototype_refs } => {
            assert_eq!(*point_count, 5);
            assert_eq!(prototype_refs, &vec!["/Sphere".to_string(), "/World/Cube".to_string()]);
        }
        _ => panic!("expected a point instancer"),
    }
    assert!(cache.get_prim("/Empty").is_none());
    assert!(matches!(
        cache.get_prim("/World/Cube").unwrap().kind,
        ProceduralPrimKind::PointInstancer { point_count: 2, .. }
    ));
    assert_eq!(
        cache.children_list("/World").unwrap(),
        &vec!["/World/Cube".to_string(), "/World/Pts".to_string()]
    );
}

#[test]
fn composite_merges_and_reports_child_counts() {
    let cache = build_scene_graph_cache(
        &vec![proto("/World/B"), proto("/World/A"), proto("/Z")],
        &no_clouds(),
        &vec![(GraphNodeId(3), vec![1])],
        &no_cloud_map(),
    );
    let composite = CompositeProvider::<EmptyPrimProvider>::new(None, &cache);
    assert_eq!(composite.root_paths(), vec!["/World".to_string(), "/Z".to_string()]);
    assert_eq!(
        composite.get_children("/World"),
        vec!["/World/A".to_string(), "/World/B".to_string()]
    );
    let world = composite.get_prim_info("/World").unwrap();
    assert_eq!(world.prim_type, "Scope");
    assert_eq!(world.child_count, 2);
    assert!(world.has_children);
    assert_eq!(world.name, "World");
    let a = composite.get_prim_info("/World/A").unwrap();
    assert_eq!(a.prim_type, "Mesh");
    assert_eq!(a.source_node, Some(GraphNodeId(3)));
    assert!(!a.has_children);
    assert!(composite.get_prim_info("/Nope").is_none());
    assert!(composite.get_procedural_data("/Z").is_some());
}

#[test]
fn composite_over_stage_unions_children() {
    let stage_cache = build_scene_graph_cache(
        &vec![proto("/World/FromStage")],
        &no_clouds(),
        &Vec::new(),
        &no_cloud_map(),
    );
    let stage = CompositeProvider::<EmptyPrimProvider>::new(None, &stage_cache);
    let cache = build_scene_graph_cache(
        &vec![proto("/World/Procedural")],
        &no_clouds(),
        &Vec::new(),
        &no_cloud_map(),
    );
    let composite = CompositeProvider::new(Some(&stage), &cache);
    assert_eq!(composite.root_paths(), vec!["/World".to_string()]);
    assert_eq!(
        composite.get_children("/World"),
        vec!["/World/FromStage".to_string(), "/World/Procedural".to_string()]
    );
    let from_stage = composite.get_prim_info("/World/FromStage").unwrap();
    assert_eq!(from_stage.prim_type, "Mesh");
}

#[test]
fn empty_provider_has_nothing() {
    let p = EmptyPrimProvider;
    assert!(p.root_paths().is_empty());
    assert!(p.get_prim_info("/World").is_none());
    assert!(p.get_children("/World").is_empty());
}

#[test]
fn display_info_with_kind_keeps_fields() {
    let info = PrimDisplayInfo::with_kind(
        "Root".to_string(),
        "Xform".to_string(),
        false,
        true,
        4,
        "assembly".to_string(),
        false,
    );
    assert_eq!(info.name, "Root");
    assert_eq!(info.kind, "assembly");
    assert!(!info.is_visible);
    assert!(!info.is_active);
    assert_eq!(info.child_count, 4);
    assert_eq!(info.source_node, None);
    let trailing = PrimDisplayInfo::new("/World/".to_string(), "".to_string(), true, false, 0);
    assert_eq!(trailing.name, "");
    assert_eq!(trailing.icon().0, "◇");
}

#[test]
fn filter_empty_matches_everything_and_ignores_case() {
    let mut state = SceneBrowserState::new();
    assert!(state.matches_filter("/anything", ""));
    state.search_filter = "GEO".to_string();
    assert!(state.matches_filter("/World/geometry", "Xform"));
    assert!(!state.matches_filter("/World/Cube", "Mesh"));
}

#[test]
fn selection_and_expansion_are_independent() {
    let mut state = SceneBrowserState::new();
    state.select("/World/Cube");
    state.expand("/World");
    assert_eq!(state.selected_path.as_deref(), Some("/World/Cube"));
    state.clear_selection();
    assert!(state.selected_path.is_none());
    assert!(state.is_expanded("/World"));
    state.expand("/World");
    assert_eq!(state.expanded_paths.len(), 1);
}

#[test]
fn expand_to_path_skips_empty_segments() {
    let mut state = SceneBrowserState::new();
    state.expand_to_path("//A//B");
    assert!(state.is_expanded("/A"));
    assert!(state.is_expanded("/A/B"));
    assert!(!state.is_expanded("//A//B"));
}

#[test]
fn icon_colors_have_theme_values() {
    assert_eq!(IconColor::PinScene.rgb(), (100, 200, 100));
    assert_eq!(prim_type_icon("DomeLight").1, IconColor::KeyframeFill);
    assert_eq!(prim_type_icon("SkelRoot").0, "⊞");
    assert_eq!(prim_type_icon("").0, "◇");
}

#[test]
fn default_cache_is_empty() {
    let cache = CachedSceneGraph::default();
    assert!(cache.prim_count_by_node().is_empty());
    assert!(cache.get_prim("/World").is_none());
}

fn row_paths(rows: &[(PrimDisplayInfo, usize)]) -> Vec<(String, usize)> {
    rows.iter().map(|(i, d)| (i.path.clone(), *d)).collect()
}

#[test]
fn rows_follow_expansion_depth_first() {
    let cache = build_scene_graph_cache(
        &vec![proto("/World/Geo/Cube"), proto("/World/Light"), proto("/Z")],
        &no_clouds(),
        &Vec::new(),
        &no_cloud_map(),
    );
    let composite = CompositeProvider::<EmptyPrimProvider>::new(None, &cache);
    let mut state = SceneBrowserState::new();
    assert_eq!(
        row_paths(&state.visible_rows(&composite)),
        vec![("/World".to_string(), 0), ("/Z".to_string(), 0)]
    );
    state.expand("/World");
    assert_eq!(
        row_paths(&state.visible_rows(&composite)),
        vec![
            ("/World".to_string(), 0),
            ("/World/Geo".to_string(), 1),
            ("/World/Light".to_string(), 1),
            ("/Z".to_string(), 0),
        ]
    );
    state.expand("/World/Geo");
    assert_eq!(
        row_paths(&state.visible_rows(&composite)),
        vec![
            ("/World".to_string(), 0),
            ("/World/Geo".to_string(), 1),
            ("/World/Geo/Cube".to_string(), 2),
            ("/World/Light".to_string(), 1),
            ("/Z".to_string(), 0),
        ]
    );
    // Expanding a collapsed parent's child shows nothing new.
    state.collapse("/World");
    assert_eq!(
        row_paths(&state.visible_rows(&composite)),
        vec![("/World".to_string(), 0), ("/Z".to_string(), 0)]
    );
}

#[test]
fn rows_under_filter_keep_parents_and_matches() {
    let cache = build_scene_graph_cache(
        &vec![proto("/World/Cube"), proto("/World/Light"), proto("/Z")],
        &no_clouds(),
        &Vec::new(),
        &no_cloud_map(),
    );
    let composite = CompositeProvider::<EmptyPrimProvider>::new(None, &cache);
    let mut state = SceneBrowserState::new();
    state.expand("/World");
    state.search_filter = "cube".to_string();
    assert_eq!(
        row_paths(&state.visible_rows(&composite)),
        vec![("/World".to_string(), 0), ("/World/Cube".to_string(), 1)]
    );
    assert!(SceneBrowserState::new().visible_rows(&EmptyPrimProvider).is_empty());
}

#[test]
fn lowered_filter_matches_path_or_type() {
    assert!(bif_viewport::scene_browser::lowered_filter_match("cube", "/world/cube_1", "mesh"));
    assert!(bif_viewport::scene_browser::lowered_filter_match("mesh", "/world/a", "mesh"));
    assert!(!bif_viewport::scene_browser::lowered_filter_match("cube", "/world/sphere", "mesh"));
    assert!(bif_viewport::scene_browser::lowered_filter_match("", "/a", "b"));
    // The filter is taken as given: an uppercase filter does not match lowercased text.
    assert!(!bif_viewport::scene_browser::lowered_filter_match("Cube", "/world/cube", "mesh"));
}

#[test]
fn expanded_paths_hold_each_path_once() {
    let mut state = SceneBrowserState::new();
    state.expand_to_path("/World/Geo/Mesh/SubMesh");
    assert_eq!(state.expanded_paths.len(), 3);
    state.expand("/World");
    state.expand_to_path("/World/Geo/Other");
    assert_eq!(state.expanded_paths.len(), 3);
    state.toggle_expanded("/World/Geo");
    state.toggle_expanded("/World/Geo");
    assert_eq!(state.expanded_paths.len(), 3);
}
