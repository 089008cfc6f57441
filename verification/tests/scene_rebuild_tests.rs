use bif_viewport::node_graph::ops::{SceneGraph, Wire};
use bif_viewport::node_graph::{GraphNodeId, PrimitiveKind, SceneNode};
use bif_viewport::scene_rebuild::{
    active_nodes, hidden_prototype_ids, layout_triangle_materials, xform_plan, ProtoTriangles,
    NO_TRIANGLE_MATERIAL,
};

fn wire(graph: &mut SceneGraph, from: GraphNodeId, to: GraphNodeId) {
    assert!(graph.connect(Wire { from, output: 0, to, input: 0 }));
}

fn sorted(mut v: Vec<GraphNodeId>) -> Vec<u64> {
    v.sort_by_key(|n| n.0);
    v.into_iter().map(|n| n.0).collect()
}

#[test]
fn active_nodes_follow_display_flag() {
    let mut graph = SceneGraph::new();
    let cube = graph.add_node(SceneNode::primitive(PrimitiveKind::Cube, 1));
    let xf = graph.add_node(SceneNode::xform());
    let other = graph.add_node(SceneNode::primitive(PrimitiveKind::Sphere, 1));
    wire(&mut graph, cube, xf);
    assert!(active_nodes(&graph, None).is_none());
    assert_eq!(sorted(active_nodes(&graph, Some(xf)).unwrap()), sorted(vec![cube, xf]));
    assert_eq!(sorted(active_nodes(&graph, Some(other)).unwrap()), vec![other.0]);
}

#[test]
fn hidden_prototypes_combine_instancers_surfaces_and_inactive_nodes() {
    let n1 = GraphNodeId(1);
    let n2 = GraphNodeId(2);
    let n3 = GraphNodeId(3);
    let active = Some(vec![n1]);
    let instancer_results = vec![(n1, vec![0, 2, 0]), (n2, vec![3])];
    let surfaces = vec![(n1, 4), (n2, 5)];
    let node_protos = vec![(n1, vec![6]), (n3, vec![7, 8, 2])];
    let mut hidden = hidden_prototype_ids(&active, &instancer_results, &surfaces, &node_protos);
    hidden.sort();
    assert_eq!(hidden, vec![0, 2, 4, 7, 8]);
    // Without a display node every node is active: nothing is hidden for being inactive.
    let mut all = hidden_prototype_ids(&None, &instancer_results, &surfaces, &node_protos);
    all.sort();
    assert_eq!(all, vec![0, 2, 3, 4, 5]);
}

#[test]
fn triangle_material_table_layout() {
    let protos = vec![
        ProtoTriangles { triangle_materials: Some(vec![5, 5, 6]), has_display_color: true, triangle_count: 3 },
        ProtoTriangles { triangle_materials: None, has_display_color: true, triangle_count: 2 },
        ProtoTriangles { triangle_materials: None, has_display_color: false, triangle_count: 1 },
        ProtoTriangles { triangle_materials: None, has_display_color: true, triangle_count: 1 },
    ];
    let layout = layout_triangle_materials(&protos, 3, 1 << 20);
    assert_eq!(layout.offsets, vec![0, 3, 5, 6]);
    assert_eq!(layout.table, vec![5, 5, 6, 4, 4, NO_TRIANGLE_MATERIAL, 5]);
    assert_eq!(layout.display_color_protos, vec![1, 3]);
    assert!(layout.has_triangle_materials);
    // Cut to what fits in 16 bytes.
    let small = layout_triangle_materials(&protos, 3, 16);
    assert_eq!(small.table, vec![5, 5, 6, 4]);
    assert_eq!(small.offsets, vec![0, 3, 5, 6]);
}

#[test]
fn triangle_material_table_never_empty() {
    let layout = layout_triangle_materials(&Vec::new(), 0, 1024);
    assert_eq!(layout.table, vec![NO_TRIANGLE_MATERIAL]);
    assert!(layout.offsets.is_empty());
    assert!(!layout.has_triangle_materials);
    let plain = vec![ProtoTriangles { triangle_materials: None, has_display_color: false, triangle_count: 2 }];
    let layout = layout_triangle_materials(&plain, 0, 1024);
    assert_eq!(layout.table, vec![NO_TRIANGLE_MATERIAL, NO_TRIANGLE_MATERIAL]);
    assert!(!layout.has_triangle_materials);
}

#[test]
fn xform_plan_applies_upstream_first() {
    let mut graph = SceneGraph::new();
    // The downstream transform is added first, so node order alone would put it first.
    let outer = graph.add_node(SceneNode::xform());
    let cube = graph.add_node(SceneNode::primitive(PrimitiveKind::Cube, 1));
    let inner = graph.add_node(SceneNode::xform());
    let loose = graph.add_node(SceneNode::xform());
    wire(&mut graph, cube, inner);
    wire(&mut graph, inner, outer);
    let node_protos = vec![(cube, vec![0])];
    let instance_protos = vec![0, 1, 0];
    let plan = xform_plan(&graph, &None, &node_protos, &instance_protos);
    let steps: Vec<(GraphNodeId, Vec<usize>)> =
        plan.into_iter().map(|s| (s.node, s.instances)).collect();
    assert_eq!(steps, vec![(inner, vec![0, 2]), (outer, vec![0, 2])]);
    assert!(steps.iter().all(|(n, _)| *n != loose));
    // A display flag on the inner transform leaves the outer one inactive.
    let active = active_nodes(&graph, Some(inner));
    let plan = xform_plan(&graph, &active, &node_protos, &instance_protos);
    assert_eq!(plan.len(), 1);
    assert_eq!(plan[0].node, inner);
}
