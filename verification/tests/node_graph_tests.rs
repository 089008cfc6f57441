use bif_viewport::node_graph::eval::{EvalCtx, EvalEvent};
use bif_viewport::node_graph::node_outputs::NodeOutputs;
use bif_viewport::node_graph::ops::{SceneGraph, Wire};
use bif_viewport::node_graph::state::NodeGraphState;
use bif_viewport::node_graph::{
    EvalMode, GraphNodeId, PinType, PointSource, PrimitiveKind, ScatterMode, ScatterSettings,
    SceneNode, UsdKind, UsdPrimType, UsdSpecifier,
};

fn default_settings() -> ScatterSettings {
    ScatterSettings {
        scatter_mode: ScatterMode::Random,
        align_to_normal: false,
        sphere_on_surface: true,
        relax_iterations: 0,
    }
}

fn id(n: u64) -> GraphNodeId {
    GraphNodeId(n)
}

fn scatter(source: PointSource) -> SceneNode {
    SceneNode::ScatterPoints {
        source,
        count: 1000,
        max_point_limit: 1_000_000,
        seed: 42,
        settings: default_settings(),
        target_proto_id: None,
        is_computed: false,
    }
}

fn wire(graph: &mut SceneGraph, from: GraphNodeId, to: GraphNodeId, input: usize) {
    assert!(graph.connect(Wire { from, output: 0, to, input }));
}

fn node_of(graph: &SceneGraph, n: GraphNodeId) -> &SceneNode {
    &graph.nodes.iter().find(|g| g.id == n).unwrap().node
}

fn node_mut(graph: &mut SceneGraph, n: GraphNodeId) -> &mut SceneNode {
    &mut graph.nodes.iter_mut().find(|g| g.id == n).unwrap().node
}

fn instancer_events(events: &[EvalEvent]) -> usize {
    events.iter().filter(|e| matches!(e, EvalEvent::PointInstancerCompute { .. })).count()
}

#[test]
fn default_is_empty() {
    let o = NodeOutputs::default();
    assert!(o.is_empty());
    assert!(o.proto_ids.is_empty());
    assert_eq!(o.cloud_id, None);
}

#[test]
fn populated_is_not_empty() {
    let mut o = NodeOutputs::default();
    o.proto_ids.push(3);
    assert!(!o.is_empty());
    o.proto_ids.clear();
    o.cloud_id = Some(0);
    assert!(!o.is_empty());
}

#[test]
fn primitive_auto_creates_and_marks_created() {
    let mut node = SceneNode::primitive(PrimitiveKind::Cube, 1);
    let ctx = EvalCtx::new(vec![]);
    let out = node.evaluate(id(0), &ctx, EvalMode::Auto);
    assert_eq!(out.events.len(), 1);
    assert!(matches!(out.events[0], EvalEvent::CreatePrimitive { .. }));
    assert!(!out.dirty);
    assert!(matches!(node, SceneNode::Primitive { is_created: true, .. }));
}

#[test]
fn primitive_manual_marks_dirty_no_event() {
    let mut node = SceneNode::primitive(PrimitiveKind::Sphere, 1);
    let ctx = EvalCtx::new(vec![]);
    let out = node.evaluate(id(0), &ctx, EvalMode::Manual);
    assert!(out.events.is_empty());
    assert!(out.dirty);
    assert!(matches!(node, SceneNode::Primitive { is_created: false, .. }));
}

#[test]
fn primitive_already_created_is_noop() {
    let mut node = SceneNode::primitive(PrimitiveKind::Cube, 1);
    if let SceneNode::Primitive { is_created, .. } = &mut node {
        *is_created = true;
    }
    let ctx = EvalCtx::new(vec![]);
    let out = node.evaluate(id(0), &ctx, EvalMode::Auto);
    assert!(out.events.is_empty());
    assert!(!out.dirty);
}

#[test]
fn scatter_surface_needs_input() {
    let mut node = SceneNode::scatter_points();
    let out = node.evaluate(id(0), &EvalCtx::new(vec![None]), EvalMode::Auto);
    assert!(out.events.is_empty());
    assert!(!out.dirty);
    let out = node.evaluate(id(0), &EvalCtx::new(vec![Some(id(1))]), EvalMode::Auto);
    assert_eq!(out.events.len(), 1);
    assert!(matches!(out.events[0], EvalEvent::ScatterPointsCompute { .. }));
    assert!(matches!(node, SceneNode::ScatterPoints { is_computed: true, .. }));
}

#[test]
fn instancer_computes_when_both_inputs_connected() {
    let mut node = SceneNode::point_instancer(1);
    let ctx = EvalCtx::new(vec![Some(id(1)), Some(id(2))]);
    let out = node.evaluate(id(0), &ctx, EvalMode::Auto);
    assert!(matches!(
        out.events.first(),
        Some(EvalEvent::PointInstancerCompute { points_source_node, proto_source_node, .. })
            if *points_source_node == id(1) && *proto_source_node == id(2)
    ));
    assert!(matches!(node, SceneNode::PointInstancer { is_computing: true, .. }));
}

#[test]
fn xform_waits_for_input() {
    let mut node = SceneNode::xform();
    let out = node.evaluate(id(0), &EvalCtx::new(vec![None]), EvalMode::Auto);
    assert!(out.events.is_empty());
    let out = node.evaluate(id(0), &EvalCtx::new(vec![Some(id(1))]), EvalMode::Auto);
    assert!(matches!(out.events.first(), Some(EvalEvent::XformChanged { .. })));
}

#[test]
fn test_primitive_auto_creates() {
    let mut graph = SceneGraph::new();
    let n = graph.add_node(SceneNode::primitive(PrimitiveKind::Cube, 1));
    let mut dirty = Vec::new();
    let events = graph.collect_auto_compute_events(EvalMode::Auto, &mut dirty);
    assert_eq!(events.len(), 1);
    assert!(matches!(&events[0], EvalEvent::CreatePrimitive { kind: PrimitiveKind::Cube, .. }));
    assert!(matches!(node_of(&graph, n), SceneNode::Primitive { is_created: true, .. }));
    assert!(dirty.is_empty());
}

#[test]
fn test_primitive_manual_marks_dirty() {
    let mut graph = SceneGraph::new();
    let n = graph.add_node(SceneNode::primitive(PrimitiveKind::Sphere, 1));
    let mut dirty = Vec::new();
    let events = graph.collect_auto_compute_events(EvalMode::Manual, &mut dirty);
    assert!(events.is_empty());
    assert!(dirty.contains(&n));
}

#[test]
fn test_primitive_already_created_no_event() {
    let mut graph = SceneGraph::new();
    let n = graph.add_node(SceneNode::primitive(PrimitiveKind::Cube, 1));
    if let SceneNode::Primitive { is_created, .. } = node_mut(&mut graph, n) {
        *is_created = true;
    }
    let mut dirty = Vec::new();
    let events = graph.collect_auto_compute_events(EvalMode::Auto, &mut dirty);
    assert!(events.is_empty());
    assert!(dirty.is_empty());
}

#[test]
fn test_scatter_auto_computes_grid() {
    let mut graph = SceneGraph::new();
    let n = graph.add_node(scatter(PointSource::Grid));
    let mut dirty = Vec::new();
    let events = graph.collect_auto_compute_events(EvalMode::Auto, &mut dirty);
    assert_eq!(events.len(), 1);
    assert!(matches!(&events[0], EvalEvent::ScatterPointsCompute { .. }));
    assert!(matches!(node_of(&graph, n), SceneNode::ScatterPoints { is_computed: true, .. }));
}

#[test]
fn test_scatter_needs_input_surface() {
    let mut graph = SceneGraph::new();
    graph.add_node(scatter(PointSource::Surface));
    let mut dirty = Vec::new();
    let events = graph.collect_auto_compute_events(EvalMode::Auto, &mut dirty);
    assert!(events.is_empty());
}

#[test]
fn test_scatter_surface_with_input() {
    let mut graph = SceneGraph::new();
    let read = graph.add_node(SceneNode::usd_read());
    let sc = graph.add_node(scatter(PointSource::Surface));
    wire(&mut graph, read, sc, 0);
    let mut dirty = Vec::new();
    let events = graph.collect_auto_compute_events(EvalMode::Auto, &mut dirty);
    assert_eq!(events.len(), 1);
    assert!(matches!(&events[0], EvalEvent::ScatterPointsCompute { .. }));
}

#[test]
fn test_scatter_manual_marks_dirty() {
    let mut graph = SceneGraph::new();
    let n = graph.add_node(scatter(PointSource::Grid));
    let mut dirty = Vec::new();
    let events = graph.collect_auto_compute_events(EvalMode::Manual, &mut dirty);
    assert!(events.is_empty());
    assert!(dirty.contains(&n));
}

fn instancer_graph() -> (SceneGraph, GraphNodeId, GraphNodeId, GraphNodeId) {
    let mut graph = SceneGraph::new();
    let sc = graph.add_node(scatter(PointSource::Grid));
    let prim = graph.add_node(SceneNode::primitive(PrimitiveKind::Cube, 1));
    let inst = graph.add_node(SceneNode::point_instancer(1));
    wire(&mut graph, sc, inst, 0);
    wire(&mut graph, prim, inst, 1);
    (graph, sc, prim, inst)
}

#[test]
fn test_instancer_auto_computes() {
    let (mut graph, _, _, inst) = instancer_graph();
    let mut dirty = Vec::new();
    let events = graph.collect_auto_compute_events(EvalMode::Auto, &mut dirty);
    assert_eq!(instancer_events(&events), 1);
    assert!(matches!(node_of(&graph, inst), SceneNode::PointInstancer { is_computing: true, .. }));
}

#[test]
fn test_instancer_missing_points() {
    let mut graph = SceneGraph::new();
    let prim = graph.add_node(SceneNode::primitive(PrimitiveKind::Cube, 1));
    let inst = graph.add_node(SceneNode::point_instancer(1));
    wire(&mut graph, prim, inst, 1);
    let mut dirty = Vec::new();
    let events = graph.collect_auto_compute_events(EvalMode::Auto, &mut dirty);
    assert_eq!(instancer_events(&events), 0);
}

#[test]
fn test_instancer_missing_proto() {
    let mut graph = SceneGraph::new();
    let sc = graph.add_node(scatter(PointSource::Grid));
    let inst = graph.add_node(SceneNode::point_instancer(1));
    wire(&mut graph, sc, inst, 0);
    let mut dirty = Vec::new();
    let events = graph.collect_auto_compute_events(EvalMode::Auto, &mut dirty);
    assert_eq!(instancer_events(&events), 0);
}

#[test]
fn test_instancer_already_computing_no_duplicate() {
    let (mut graph, _, _, inst) = instancer_graph();
    if let SceneNode::PointInstancer { is_computing, .. } = node_mut(&mut graph, inst) {
        *is_computing = true;
    }
    let mut dirty = Vec::new();
    let events = graph.collect_auto_compute_events(EvalMode::Auto, &mut dirty);
    assert_eq!(instancer_events(&events), 0);
}

#[test]
fn test_instancer_compute_failed_no_retry() {
    let (mut graph, _, _, inst) = instancer_graph();
    if let SceneNode::PointInstancer { compute_failed, .. } = node_mut(&mut graph, inst) {
        *compute_failed = true;
    }
    let mut dirty = Vec::new();
    let events = graph.collect_auto_compute_events(EvalMode::Auto, &mut dirty);
    assert_eq!(instancer_events(&events), 0);
}

#[test]
fn test_instancer_invalidate_on_disconnect() {
    let mut graph = SceneGraph::new();
    let inst = graph.add_node(SceneNode::point_instancer(1));
    if let SceneNode::PointInstancer { is_instanced, instance_count, .. } = node_mut(&mut graph, inst)
    {
        *is_instanced = true;
        *instance_count = 500;
    }
    let mut dirty = Vec::new();
    let events = graph.collect_auto_compute_events(EvalMode::Auto, &mut dirty);
    assert_eq!(events.len(), 1);
    assert!(matches!(&events[0], EvalEvent::InstancerInvalidate { .. }));
    assert!(matches!(
        node_of(&graph, inst),
        SceneNode::PointInstancer {
            is_instanced: false,
            is_computing: false,
            compute_failed: false,
            instance_count: 0,
            ..
        }
    ));
}

#[test]
fn test_usd_read_no_auto_compute() {
    let mut graph = SceneGraph::new();
    graph.add_node(SceneNode::usd_read());
    let mut dirty = Vec::new();
    let events = graph.collect_auto_compute_events(EvalMode::Auto, &mut dirty);
    assert!(events.is_empty());
    assert!(dirty.is_empty());
}

#[test]
fn test_xform_auto_emits_when_connected() {
    let mut graph = SceneGraph::new();
    let read = graph.add_node(SceneNode::usd_read());
    let xf = graph.add_node(SceneNode::xform());
    wire(&mut graph, read, xf, 0);
    let mut dirty = Vec::new();
    let events = graph.collect_auto_compute_events(EvalMode::Auto, &mut dirty);
    assert_eq!(events.len(), 1);
    assert!(matches!(&events[0], EvalEvent::XformChanged { .. }));
    assert!(matches!(node_of(&graph, xf), SceneNode::Xform { is_applied: true, .. }));
}

#[test]
fn test_usd_prim_auto_registers() {
    let mut graph = SceneGraph::new();
    let p = graph.add_node(SceneNode::usd_prim());
    let mut dirty = Vec::new();
    let events = graph.collect_auto_compute_events(EvalMode::Auto, &mut dirty);
    assert_eq!(events.len(), 1);
    assert!(matches!(&events[0], EvalEvent::UsdPrimCreate { .. }));
    assert!(matches!(node_of(&graph, p), SceneNode::UsdPrim { is_created: true, .. }));
}

#[test]
fn test_graft_branches_has_no_auto_eval_while_held() {
    let mut graph = SceneGraph::new();
    let read = graph.add_node(SceneNode::usd_read());
    let graft = graph.add_node(SceneNode::graft_branches());
    let mut dirty = Vec::new();
    let events = graph.collect_auto_compute_events(EvalMode::Auto, &mut dirty);
    assert!(events.is_empty());
    wire(&mut graph, read, graft, 0);
    let events = graph.collect_auto_compute_events(EvalMode::Auto, &mut dirty);
    assert!(events.is_empty());
    assert!(dirty.is_empty());
}

#[test]
fn test_multiple_nodes_all_evaluated() {
    let mut graph = SceneGraph::new();
    graph.add_node(SceneNode::primitive(PrimitiveKind::Cube, 1));
    graph.add_node(scatter(PointSource::Grid));
    graph.add_node(SceneNode::usd_read());
    let mut dirty = Vec::new();
    let events = graph.collect_auto_compute_events(EvalMode::Auto, &mut dirty);
    assert_eq!(events.len(), 2);
    assert!(events.iter().any(|e| matches!(e, EvalEvent::CreatePrimitive { .. })));
    assert!(events.iter().any(|e| matches!(e, EvalEvent::ScatterPointsCompute { .. })));
}

#[test]
fn test_already_computed_nodes_skipped() {
    let mut graph = SceneGraph::new();
    let prim = graph.add_node(SceneNode::primitive(PrimitiveKind::Cube, 1));
    if let SceneNode::Primitive { is_created, .. } = node_mut(&mut graph, prim) {
        *is_created = true;
    }
    let sc = graph.add_node(scatter(PointSource::Grid));
    if let SceneNode::ScatterPoints { is_computed, .. } = node_mut(&mut graph, sc) {
        *is_computed = true;
    }
    let inst = graph.add_node(SceneNode::point_instancer(1));
    wire(&mut graph, sc, inst, 0);
    wire(&mut graph, prim, inst, 1);
    if let SceneNode::PointInstancer { is_instanced, .. } = node_mut(&mut graph, inst) {
        *is_instanced = true;
    }
    let mut dirty = Vec::new();
    let events = graph.collect_auto_compute_events(EvalMode::Auto, &mut dirty);
    assert!(events.is_empty());
    assert!(dirty.is_empty());
}

#[test]
fn test_is_input_connected_returns_none_when_unconnected() {
    let mut graph = SceneGraph::new();
    let inst = graph.add_node(SceneNode::point_instancer(1));
    assert!(graph.input_source(inst, 0).is_none());
    assert!(graph.input_source(inst, 1).is_none());
}

#[test]
fn test_is_input_connected_returns_upstream_node() {
    let mut graph = SceneGraph::new();
    let read = graph.add_node(SceneNode::usd_read());
    let sc = graph.add_node(scatter(PointSource::Surface));
    wire(&mut graph, read, sc, 0);
    assert_eq!(graph.input_source(sc, 0), Some(read));
}

#[test]
fn test_instancer_manual_marks_dirty() {
    let (mut graph, _, _, inst) = instancer_graph();
    let mut dirty = Vec::new();
    let events = graph.collect_auto_compute_events(EvalMode::Manual, &mut dirty);
    assert_eq!(instancer_events(&events), 0);
    assert!(dirty.contains(&inst));
}

#[test]
fn test_node_creation() {
    let read_node = SceneNode::usd_read();
    assert_eq!(read_node.name(), "USD Read");
    assert_eq!(read_node.input_count(), 0);
    assert_eq!(read_node.output_count(), 1);
    let render_node = SceneNode::ivar_render();
    assert_eq!(render_node.name(), "Ivar Render");
    assert_eq!(render_node.input_count(), 2);
    assert_eq!(render_node.output_count(), 1);
    let hdri_node = SceneNode::hdri_environment();
    assert_eq!(hdri_node.name(), "HDRI Environment");
    assert_eq!(hdri_node.input_count(), 0);
    assert_eq!(hdri_node.output_count(), 1);
}

#[test]
fn test_pin_types() {
    let read_node = SceneNode::usd_read();
    assert_eq!(read_node.output_pin(0), Some(("scene", PinType::Scene)));
    let render_node = SceneNode::ivar_render();
    assert_eq!(render_node.input_pin(0), Some(("scene", PinType::Scene)));
    assert_eq!(render_node.input_pin(1), Some(("env", PinType::Environment)));
    assert_eq!(render_node.output_pin(0), Some(("image", PinType::Image)));
    let hdri_node = SceneNode::hdri_environment();
    assert_eq!(hdri_node.output_pin(0), Some(("env", PinType::Environment)));
}

#[test]
fn test_node_graph_state() {
    let state = NodeGraphState::with_default_nodes();
    assert!(state.graph.nodes.len() >= 2);
}

#[test]
fn test_empty_node_graph() {
    let state = NodeGraphState::new();
    assert_eq!(state.graph.nodes.len(), 0);
}

#[test]
fn test_point_instancer_node() {
    let node = SceneNode::point_instancer(1);
    assert_eq!(node.name(), "Point Instancer");
    assert_eq!(node.input_count(), 2);
    assert_eq!(node.output_count(), 1);
    assert_eq!(node.input_pin(0), Some(("points", PinType::Scene)));
    assert_eq!(node.input_pin(1), Some(("proto", PinType::Scene)));
    assert_eq!(node.input_pin(2), None);
    assert_eq!(node.output_pin(0), Some(("scene", PinType::Scene)));
}

#[test]
fn node_ids_are_smallest_free() {
    let mut graph = SceneGraph::new();
    let a = graph.add_node(SceneNode::usd_read());
    let b = graph.add_node(SceneNode::xform());
    assert_eq!((a, b), (id(0), id(1)));
    graph.remove_node(a);
    let c = graph.add_node(SceneNode::usd_prim());
    assert_eq!(c, id(0));
}

#[test]
fn upstream_collection_and_dirty_propagation() {
    let (mut graph, sc, prim, inst) = instancer_graph();
    let up = graph.collect_upstream_nodes(inst);
    assert!(up.contains(&sc) && up.contains(&prim) && up.contains(&inst));
    assert_eq!(up.len(), 3);
    let mut dirty = Vec::new();
    graph.collect_auto_compute_events(EvalMode::Auto, &mut dirty);
    graph.propagate_dirty(prim);
    assert!(matches!(node_of(&graph, prim), SceneNode::Primitive { is_created: true, .. }));
    assert!(matches!(node_of(&graph, inst), SceneNode::PointInstancer { is_computing: false, .. }));
    assert!(matches!(node_of(&graph, sc), SceneNode::ScatterPoints { is_computed: true, .. }));
}

#[test]
fn connect_rejects_mismatched_pins() {
    let mut graph = SceneGraph::new();
    let hdri = graph.add_node(SceneNode::hdri_environment());
    let render = graph.add_node(SceneNode::ivar_render());
    assert!(!graph.connect(Wire { from: hdri, output: 0, to: render, input: 0 }));
    assert!(graph.connect(Wire { from: hdri, output: 0, to: render, input: 1 }));
    assert!(graph.has_wire(Wire { from: hdri, output: 0, to: render, input: 1 }));
}

#[test]
fn node_label_and_names() {
    assert_eq!(GraphNodeId(7).label(), "node:7");
    assert_eq!(SceneNode::primitive(PrimitiveKind::Camera, 3).name(), "Camera");
    assert_eq!(SceneNode::primitive(PrimitiveKind::Sphere, 12).prim_path_label(), Some("/World/Sphere12"));
}

#[test]
fn evaluation_settles_after_one_auto_pass() {
    let (mut graph, _, _, _) = instancer_graph();
    let mut dirty = Vec::new();
    let first = graph.collect_auto_compute_events(EvalMode::Auto, &mut dirty);
    assert_eq!(first.len(), 3);
    assert!(dirty.is_empty());
    let second = graph.collect_auto_compute_events(EvalMode::Auto, &mut dirty);
    assert!(second.is_empty());
}

#[test]
fn disconnect_undoes_connect() {
    let mut graph = SceneGraph::new();
    let read = graph.add_node(SceneNode::usd_read());
    let xf = graph.add_node(SceneNode::xform());
    let w = Wire { from: read, output: 0, to: xf, input: 0 };
    assert!(graph.wires.is_empty());
    assert!(graph.connect(w));
    assert_eq!(graph.wires, vec![w]);
    assert!(graph.connect(w));
    assert_eq!(graph.wires, vec![w]);
    let events = graph.disconnect(w);
    assert!(events.is_empty());
    assert!(graph.wires.is_empty());
}

#[test]
fn remove_undoes_add() {
    let mut graph = SceneGraph::new();
    let read = graph.add_node(SceneNode::usd_read());
    let xf = graph.add_node(SceneNode::xform());
    assert!(graph.connect(Wire { from: read, output: 0, to: xf, input: 0 }));
    let wires_before = graph.wires.clone();
    let extra = graph.add_node(SceneNode::usd_prim());
    assert!(graph.contains_node(extra));
    graph.remove_node(extra);
    assert!(!graph.contains_node(extra));
    assert!(graph.contains_node(read) && graph.contains_node(xf));
    assert_eq!(graph.nodes.len(), 2);
    assert_eq!(graph.wires, wires_before);
}

#[test]
fn disconnecting_a_computed_instancer_asks_for_invalidation() {
    let (mut graph, sc, _, inst) = instancer_graph();
    if let SceneNode::PointInstancer { is_instanced, .. } = node_mut(&mut graph, inst) {
        *is_instanced = true;
    }
    let events = graph.disconnect(Wire { from: sc, output: 0, to: inst, input: 0 });
    assert_eq!(events, vec![EvalEvent::InstancerInvalidate { node_id: inst }]);
    assert!(matches!(node_of(&graph, inst), SceneNode::PointInstancer { is_instanced: false, .. }));
}

#[test]
fn load_status_updates_reach_matching_nodes_only() {
    let mut state = NodeGraphState::new();
    let a = state.add_node(SceneNode::usd_read_with_path("/a.usda".to_string()));
    let b = state.add_node(SceneNode::usd_read_with_path("/b.usda".to_string()));
    state.mark_node_loaded("/a.usda");
    assert!(matches!(node_of(&state.graph, a), SceneNode::UsdRead { is_loaded: true, .. }));
    assert!(matches!(node_of(&state.graph, b), SceneNode::UsdRead { is_loaded: false, .. }));
    state.mark_node_error("/b.usda", "missing".to_string());
    match node_of(&state.graph, b) {
        SceneNode::UsdRead { error, is_loaded, .. } => {
            assert_eq!(error.as_deref(), Some("missing"));
            assert!(!is_loaded);
        }
        _ => panic!("expected a USD read node"),
    }
}

#[test]
fn hdri_status_cycle() {
    let mut state = NodeGraphState::new();
    let h = state.add_hdri_environment();
    if let SceneNode::HdriEnvironment { file_path, .. } = node_mut(&mut state.graph, h) {
        *file_path = "/sky.hdr".to_string();
    }
    state.mark_hdri_loading("/sky.hdr");
    assert!(matches!(node_of(&state.graph, h), SceneNode::HdriEnvironment { is_loading: true, .. }));
    state.mark_hdri_loaded("/sky.hdr");
    assert!(matches!(
        node_of(&state.graph, h),
        SceneNode::HdriEnvironment { is_loading: false, is_loaded: true, .. }
    ));
    state.mark_hdri_error("/sky.hdr", "bad".to_string());
    assert!(matches!(node_of(&state.graph, h), SceneNode::HdriEnvironment { is_loaded: false, .. }));
}

#[test]
fn deleting_a_node_clears_flags_and_wires() {
    let mut state = NodeGraphState::with_default_nodes();
    let read = GraphNodeId(0);
    state.selected_node = Some(read);
    state.display_node = Some(read);
    let events = state.delete_node(read);
    assert!(events.is_empty());
    assert_eq!(state.selected_node, None);
    assert_eq!(state.display_node, None);
    assert!(state.graph.wires.is_empty());
    assert_eq!(state.graph.nodes.len(), 1);
    assert_eq!(state.delete_selected(), None);
}

#[test]
fn added_nodes_get_fresh_ids() {
    let mut state = NodeGraphState::with_default_nodes();
    let p = state.add_primitive(PrimitiveKind::Sphere, 4);
    let i = state.add_point_instancer(2);
    assert_eq!((p, i), (GraphNodeId(2), GraphNodeId(3)));
    assert_eq!(node_of(&state.graph, i).prim_path_label(), Some("/World/instancer2"));
    let x = state.add_xform();
    let e = state.add_usd_export();
    let u = state.add_usd_prim();
    let g = state.add_graft_branches();
    let s = state.add_scatter_points();
    let r = state.add_ivar_render();
    let d = state.add_usd_read();
    assert_eq!(state.graph.nodes.len(), 11);
    for id in [x, e, u, g, s, r, d] {
        assert!(state.graph.contains_node(id));
    }
}

#[test]
fn test_resolve_input_connection() {
    let mut graph = SceneGraph::new();
    let scatter_id = graph.add_node(SceneNode::scatter_points());
    let cube_id = graph.add_node(SceneNode::primitive(PrimitiveKind::Cube, 1));
    let instancer_id = graph.add_node(SceneNode::point_instancer(1));
    let pos = graph.find_node(instancer_id).unwrap();

    // Before connecting: both inputs resolve to None
    let before = graph.eval_ctx(pos);
    assert!(before.input_source(0).is_none());
    assert!(before.input_source(1).is_none());

    // Connect scatter -> instancer input 0 (points), cube -> input 1 (proto)
    wire(&mut graph, scatter_id, instancer_id, 0);
    wire(&mut graph, cube_id, instancer_id, 1);

    let after = graph.eval_ctx(pos);
    assert_eq!(after.input_source(0), Some(scatter_id));
    assert_eq!(after.input_source(1), Some(cube_id));
    // Out of bounds returns None
    assert!(after.input_source(5).is_none());
}

#[test]
fn scatter_compute_event_carries_the_distribution_settings() {
    let settings = ScatterSettings {
        scatter_mode: ScatterMode::PoissonDisk,
        align_to_normal: true,
        sphere_on_surface: false,
        relax_iterations: 3,
    };
    let mut node = SceneNode::ScatterPoints {
        source: PointSource::Grid,
        count: 50,
        max_point_limit: 100,
        seed: 7,
        settings,
        target_proto_id: None,
        is_computed: false,
    };
    let out = node.evaluate(id(4), &EvalCtx::new(vec![]), EvalMode::Auto);
    assert_eq!(
        out.events,
        vec![EvalEvent::ScatterPointsCompute {
            node_id: id(4),
            source: PointSource::Grid,
            count: 50,
            max_point_limit: 100,
            seed: 7,
            settings,
        }]
    );
    assert!(matches!(node, SceneNode::ScatterPoints { is_computed: true, settings: s, .. } if s == settings));
}

#[test]
fn new_scatter_and_usd_prim_defaults() {
    assert!(matches!(
        SceneNode::scatter_points(),
        SceneNode::ScatterPoints { settings, .. } if settings == default_settings()
    ));
    assert!(matches!(
        SceneNode::usd_prim(),
        SceneNode::UsdPrim {
            prim_type: UsdPrimType::Scope,
            kind: UsdKind::Kindless,
            specifier: UsdSpecifier::Define,
            is_created: false,
            ..
        }
    ));
}

#[test]
fn second_pass_over_the_graph_emits_nothing_and_changes_nothing() {
    let (mut graph, _, _, _) = instancer_graph();
    let mut dirty = Vec::new();
    let first = graph.collect_auto_compute_events(EvalMode::Auto, &mut dirty);
    assert_eq!(first.len(), 3);
    assert!(dirty.is_empty());
    let settled: Vec<String> = graph.nodes.iter().map(|g| format!("{:?}", g.node)).collect();
    let second = graph.collect_auto_compute_events(EvalMode::Auto, &mut dirty);
    assert!(second.is_empty());
    let again: Vec<String> = graph.nodes.iter().map(|g| format!("{:?}", g.node)).collect();
    assert_eq!(settled, again);
}

#[test]
fn manual_pass_only_invalidates_disconnected_instancers() {
    let mut graph = SceneGraph::new();
    let prim = graph.add_node(SceneNode::primitive(PrimitiveKind::Cube, 1));
    let inst = graph.add_node(SceneNode::point_instancer(1));
    if let SceneNode::PointInstancer { is_instanced, instance_count, .. } = node_mut(&mut graph, inst)
    {
        *is_instanced = true;
        *instance_count = 12;
    }
    let mut dirty = Vec::new();
    let events = graph.collect_auto_compute_events(EvalMode::Manual, &mut dirty);
    assert_eq!(events.len(), 1);
    assert!(matches!(&events[0], EvalEvent::InstancerInvalidate { node_id } if *node_id == inst));
    assert!(dirty.contains(&prim));
}
