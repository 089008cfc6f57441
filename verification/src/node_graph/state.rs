//! State of the node graph panel: the graph, the selected node and the node
//! carrying the display flag, with the status updates that asynchronous
//! work reports back.

use vstd::prelude::*;

use super::eval::EvalEvent;
use super::ops::{GraphNode, SceneGraph, Wire};
use super::{
    spec_output_count, GraphNodeId, PointSource, PrimitiveKind, ScatterMode, ScatterSettings, SceneNode,
    UsdKind, UsdPrimType, UsdSpecifier,
};
use crate::text::decimal;
use crate::text::same_text;

verus! {

/// State of the node graph panel.
pub struct NodeGraphState {
    /// The node graph.
    pub graph: SceneGraph,
    /// Currently selected node, if any.
    pub selected_node: Option<GraphNodeId>,
    /// Node whose output feeds the viewport and export, if any.
    pub display_node: Option<GraphNodeId>,
}

/// A USD Read node after the file `path` finished loading.
pub open spec fn spec_loaded(n: SceneNode, path: Seq<char>) -> SceneNode {
    match n {
        SceneNode::UsdRead { file_path, .. } => if file_path@ == path {
            SceneNode::UsdRead { file_path, is_loaded: true, error: None }
        } else {
            n
        },
        _ => n,
    }
}

/// A USD Read node after loading the file `path` failed with `msg`.
pub open spec fn spec_load_failed(n: SceneNode, path: Seq<char>, msg: String) -> SceneNode {
    match n {
        SceneNode::UsdRead { file_path, .. } => if file_path@ == path {
            SceneNode::UsdRead { file_path, is_loaded: false, error: Some(msg) }
        } else {
            n
        },
        _ => n,
    }
}

/// A render node after its render finished.
pub open spec fn spec_render_done(n: SceneNode) -> SceneNode {
    match n {
        SceneNode::IvarRender { spp, is_converting_tx, tx_status, .. } => SceneNode::IvarRender {
            spp,
            is_rendering: false,
            is_converting_tx,
            tx_status,
        },
        _ => n,
    }
}

/// A render node after its texture conversion finished with `status`.
pub open spec fn spec_tx_done(n: SceneNode, status: String) -> SceneNode {
    match n {
        SceneNode::IvarRender { spp, is_rendering, .. } => SceneNode::IvarRender {
            spp,
            is_rendering,
            is_converting_tx: false,
            tx_status: Some(status),
        },
        _ => n,
    }
}

/// An HDRI node whose file is `path`, once lighting generation started.
pub open spec fn spec_hdri_loading(n: SceneNode, path: Seq<char>) -> SceneNode {
    match n {
        SceneNode::HdriEnvironment { file_path, is_loaded, show_background, error, .. } =>
        if file_path@ == path {
            SceneNode::HdriEnvironment {
                file_path,
                is_loaded,
                is_loading: true,
                show_background,
                error,
            }
        } else {
            n
        },
        _ => n,
    }
}

/// An HDRI node whose file is `path`, once its lighting is ready.
pub open spec fn spec_hdri_loaded(n: SceneNode, path: Seq<char>) -> SceneNode {
    match n {
        SceneNode::HdriEnvironment { file_path, show_background, .. } => if file_path@ == path {
            SceneNode::HdriEnvironment {
                file_path,
                is_loaded: true,
                is_loading: false,
                show_background,
                error: None,
            }
        } else {
            n
        },
        _ => n,
    }
}

/// An HDRI node whose file is `path`, once loading failed with `msg`.
pub open spec fn spec_hdri_failed(n: SceneNode, path: Seq<char>, msg: String) -> SceneNode {
    match n {
        SceneNode::HdriEnvironment { file_path, show_background, .. } => if file_path@ == path {
            SceneNode::HdriEnvironment {
                file_path,
                is_loaded: false,
                is_loading: false,
                show_background,
                error: Some(msg),
            }
        } else {
            n
        },
        _ => n,
    }
}

/// `nodes` is `old` with each node replaced by `f` of it.
pub open spec fn nodes_updated(
    old: Seq<GraphNode>,
    nodes: Seq<GraphNode>,
    f: spec_fn(SceneNode) -> SceneNode,
) -> bool {
    &&& nodes.len() == old.len()
    &&& forall|i: int|
        0 <= i < old.len() ==> (#[trigger] nodes[i]).id == old[i].id && nodes[i].node == f(
            old[i].node,
        )
}

/// The invalidation events owed, when `id` is deleted, to the instancers
/// holding results that the wires in `ws` feed from an output pin of `id`.
pub open spec fn deletion_invalidations(g: SceneGraph, id: GraphNodeId, ws: Seq<Wire>) -> Seq<
    EvalEvent,
>
    decreases ws.len(),
{
    if ws.len() == 0 {
        seq![]
    } else {
        let w = ws.last();
        let rest = deletion_invalidations(g, id, ws.drop_last());
        if w.from == id && w.output < spec_output_count(g.node_at(id)) && (g.node_at(
            w.to,
        ) matches SceneNode::PointInstancer { is_instanced, .. } && is_instanced) {
            rest.push(EvalEvent::InstancerInvalidate { node_id: w.to })
        } else {
            rest
        }
    }
}

impl NodeGraphState {
    /// Whether the graph is well formed.
    pub open spec fn wf(&self) -> bool {
        self.graph.wf()
    }

    /// An empty graph with nothing selected.
    pub fn new() -> (s: NodeGraphState)
        ensures
            s.wf(),
            s.graph.nodes@.len() == 0,
            s.graph.wires@.len() == 0,
            s.selected_node is None,
            s.display_node is None,
    {
        NodeGraphState { graph: SceneGraph::new(), selected_node: None, display_node: None }
    }

    /// A graph holding a USD Read node (id 0) wired into a render node (id 1).
    pub fn with_default_nodes() -> (s: NodeGraphState)
        ensures
            s.wf(),
            s.graph.nodes@.len() == 2,
            s.graph.nodes@[0].id == GraphNodeId(0),
            s.graph.nodes@[0].node is UsdRead,
            s.graph.nodes@[1].id == GraphNodeId(1),
            s.graph.nodes@[1].node is IvarRender,
            s.graph.wires@ == seq![
                Wire { from: GraphNodeId(0), output: 0, to: GraphNodeId(1), input: 0 },
            ],
            s.selected_node is None,
            s.display_node is None,
    {
        let mut s = NodeGraphState::new();
        let ghost g0 = s.graph;
        let read = s.graph.add_node(SceneNode::usd_read());
        assert(read.0 == 0) by {
            if read.0 > 0 {
                assert(g0.has_node(GraphNodeId(0)));
            }
        }
        let ghost g1 = s.graph;
        let render = s.graph.add_node(SceneNode::ivar_render());
        proof {
            assert(g1.has_node(GraphNodeId(0)) && g1.nodes@[0].id == GraphNodeId(0));
            assert(render.0 == 1) by {
                if render.0 == 0 {
                    assert(g1.nodes@[0].id == render);
                }
                if render.0 > 1 {
                    assert(g1.has_node(GraphNodeId(1)));
                }
            }
            assert(s.graph.nodes@[0].id == GraphNodeId(0));
            assert(s.graph.nodes@[1].id == render);
            assert(s.graph.has_node(read) && s.graph.has_node(render));
            s.graph.lemma_index_of(read, 0);
            s.graph.lemma_index_of(render, 1);
        }
        let w = Wire { from: read, output: 0, to: render, input: 0 };
        let ok = s.graph.connect(w);
        assert(s.graph.wires@ == seq![w]);
        s
    }

    /// Adds a node and returns its identifier (the smallest one not in use).
    pub fn add_node(&mut self, node: SceneNode) -> (id: GraphNodeId)
        requires
            old(self).wf(),
        ensures
            final(self).wf(),
            !old(self).graph.has_node(id),
            final(self).graph.nodes@ == old(self).graph.nodes@.push(GraphNode { id, node }),
            final(self).graph.wires@ == old(self).graph.wires@,
            final(self).selected_node == old(self).selected_node,
            final(self).display_node == old(self).display_node,
    {
        self.graph.add_node(node)
    }

    /// Adds a USD Read node.
    pub fn add_usd_read(&mut self) -> (id: GraphNodeId)
        requires
            old(self).wf(),
        ensures
            final(self).wf(),
            !old(self).graph.has_node(id),
            final(self).graph.nodes@.len() == old(self).graph.nodes@.len() + 1,
            final(self).graph.nodes@.last().id == id,
            final(self).graph.nodes@.drop_last() == old(self).graph.nodes@,
            final(self).graph.wires@ == old(self).graph.wires@,
            final(self).selected_node == old(self).selected_node,
            final(self).display_node == old(self).display_node,
            final(self).graph.nodes@.last().node matches SceneNode::UsdRead { file_path, is_loaded, error } && file_path@.len() == 0
                && !is_loaded && error is None,
    {
        self.add_node(SceneNode::usd_read())
    }

    /// Adds a render node.
    pub fn add_ivar_render(&mut self) -> (id: GraphNodeId)
        requires
            old(self).wf(),
        ensures
            final(self).wf(),
            !old(self).graph.has_node(id),
            final(self).graph.nodes@.len() == old(self).graph.nodes@.len() + 1,
            final(self).graph.nodes@.last().id == id,
            final(self).graph.nodes@.drop_last() == old(self).graph.nodes@,
            final(self).graph.wires@ == old(self).graph.wires@,
            final(self).selected_node == old(self).selected_node,
            final(self).display_node == old(self).display_node,
            final(self).graph.nodes@.last().node matches SceneNode::IvarRender { spp, is_rendering, is_converting_tx, tx_status }
                && spp == 16 && !is_rendering && !is_converting_tx && tx_status is None,
    {
        self.add_node(SceneNode::ivar_render())
    }

    /// Adds an HDRI environment node.
    pub fn add_hdri_environment(&mut self) -> (id: GraphNodeId)
        requires
            old(self).wf(),
        ensures
            final(self).wf(),
            !old(self).graph.has_node(id),
            final(self).graph.nodes@.len() == old(self).graph.nodes@.len() + 1,
            final(self).graph.nodes@.last().id == id,
            final(self).graph.nodes@.drop_last() == old(self).graph.nodes@,
            final(self).graph.wires@ == old(self).graph.wires@,
            final(self).selected_node == old(self).selected_node,
            final(self).display_node == old(self).display_node,
            final(self).graph.nodes@.last().node matches SceneNode::HdriEnvironment {
                file_path,
                is_loaded,
                is_loading,
                show_background,
                error,
            } && file_path@.len() == 0 && !is_loaded && !is_loading && show_background
                && error is None,
    {
        self.add_node(SceneNode::hdri_environment())
    }

    /// Adds a scatter node.
    pub fn add_scatter_points(&mut self) -> (id: GraphNodeId)
        requires
            old(self).wf(),
        ensures
            final(self).wf(),
            !old(self).graph.has_node(id),
            final(self).graph.nodes@.len() == old(self).graph.nodes@.len() + 1,
            final(self).graph.nodes@.last().id == id,
            final(self).graph.nodes@.drop_last() == old(self).graph.nodes@,
            final(self).graph.wires@ == old(self).graph.wires@,
            final(self).selected_node == old(self).selected_node,
            final(self).display_node == old(self).display_node,
            final(self).graph.nodes@.last().node == (SceneNode::ScatterPoints {
                source: PointSource::Surface,
                count: 1000,
                max_point_limit: 1_000_000,
                seed: 42,
                settings: ScatterSettings {
                    scatter_mode: ScatterMode::Random,
                    align_to_normal: false,
                    sphere_on_surface: true,
                    relax_iterations: 0,
                },
                target_proto_id: None,
                is_computed: false,
            }),
    {
        self.add_node(SceneNode::scatter_points())
    }

    /// Adds a point instancer node whose prim is numbered `serial`.
    pub fn add_point_instancer(&mut self, serial: u32) -> (id: GraphNodeId)
        requires
            old(self).wf(),
        ensures
            final(self).wf(),
            !old(self).graph.has_node(id),
            final(self).graph.nodes@.len() == old(self).graph.nodes@.len() + 1,
            final(self).graph.nodes@.last().id == id,
            final(self).graph.nodes@.drop_last() == old(self).graph.nodes@,
            final(self).graph.wires@ == old(self).graph.wires@,
            final(self).selected_node == old(self).selected_node,
            final(self).display_node == old(self).display_node,
            final(self).graph.nodes@.last().node matches SceneNode::PointInstancer {
                instance_count,
                is_instanced,
                is_computing,
                compute_failed,
                prim_path,
            } && instance_count == 0 && !is_instanced && !is_computing && !compute_failed
                && prim_path@ == "/World/instancer"@ + decimal(serial as nat),
    {
        self.add_node(SceneNode::point_instancer(serial))
    }

    /// Adds a primitive node of `kind` whose prim is numbered `serial`.
    pub fn add_primitive(&mut self, kind: PrimitiveKind, serial: u32) -> (id: GraphNodeId)
        requires
            old(self).wf(),
        ensures
            final(self).wf(),
            !old(self).graph.has_node(id),
            final(self).graph.nodes@.len() == old(self).graph.nodes@.len() + 1,
            final(self).graph.nodes@.last().id == id,
            final(self).graph.nodes@.drop_last() == old(self).graph.nodes@,
            final(self).graph.wires@ == old(self).graph.wires@,
            final(self).selected_node == old(self).selected_node,
            final(self).display_node == old(self).display_node,
            final(self).graph.nodes@.last().node matches SceneNode::Primitive { kind: k, is_created, prim_path } && k == kind
                && !is_created && prim_path@ == (match kind {
                PrimitiveKind::Cube => "/World/Cube"@,
                PrimitiveKind::Sphere => "/World/Sphere"@,
                PrimitiveKind::Camera => "/World/Camera"@,
            }) + decimal(serial as nat),
    {
        self.add_node(SceneNode::primitive(kind, serial))
    }

    /// Adds a transform node.
    pub fn add_xform(&mut self) -> (id: GraphNodeId)
        requires
            old(self).wf(),
        ensures
            final(self).wf(),
            !old(self).graph.has_node(id),
            final(self).graph.nodes@.len() == old(self).graph.nodes@.len() + 1,
            final(self).graph.nodes@.last().id == id,
            final(self).graph.nodes@.drop_last() == old(self).graph.nodes@,
            final(self).graph.wires@ == old(self).graph.wires@,
            final(self).selected_node == old(self).selected_node,
            final(self).display_node == old(self).display_node,
            final(self).graph.nodes@.last().node matches SceneNode::Xform { prim_filter, is_applied } && prim_filter@.len() == 0
                && !is_applied,
    {
        self.add_node(SceneNode::xform())
    }

    /// Adds a USD export node.
    pub fn add_usd_export(&mut self) -> (id: GraphNodeId)
        requires
            old(self).wf(),
        ensures
            final(self).wf(),
            !old(self).graph.has_node(id),
            final(self).graph.nodes@.len() == old(self).graph.nodes@.len() + 1,
            final(self).graph.nodes@.last().id == id,
            final(self).graph.nodes@.drop_last() == old(self).graph.nodes@,
            final(self).graph.wires@ == old(self).graph.wires@,
            final(self).selected_node == old(self).selected_node,
            final(self).display_node == old(self).display_node,
            final(self).graph.nodes@.last().node matches SceneNode::UsdExport {
                output_path,
                as_sublayer,
                export_root,
                is_exported,
                last_result,
            } && output_path@.len() == 0 && as_sublayer && export_root@ == "/BIF"@
                && !is_exported && last_result is None,
    {
        self.add_node(SceneNode::usd_export())
    }

    /// Adds a USD prim node.
    pub fn add_usd_prim(&mut self) -> (id: GraphNodeId)
        requires
            old(self).wf(),
        ensures
            final(self).wf(),
            !old(self).graph.has_node(id),
            final(self).graph.nodes@.len() == old(self).graph.nodes@.len() + 1,
            final(self).graph.nodes@.last().id == id,
            final(self).graph.nodes@.drop_last() == old(self).graph.nodes@,
            final(self).graph.wires@ == old(self).graph.wires@,
            final(self).selected_node == old(self).selected_node,
            final(self).display_node == old(self).display_node,
            final(self).graph.nodes@.last().node matches SceneNode::UsdPrim {
                prim_path,
                prim_type,
                kind,
                specifier,
                is_created,
            } && prim_path@ == "/root"@ && prim_type == UsdPrimType::Scope && kind
                == UsdKind::Kindless && specifier == UsdSpecifier::Define && !is_created,
    {
        self.add_node(SceneNode::usd_prim())
    }

    /// Adds a graft-branches node.
    pub fn add_graft_branches(&mut self) -> (id: GraphNodeId)
        requires
            old(self).wf(),
        ensures
            final(self).wf(),
            !old(self).graph.has_node(id),
            final(self).graph.nodes@.len() == old(self).graph.nodes@.len() + 1,
            final(self).graph.nodes@.last().id == id,
            final(self).graph.nodes@.drop_last() == old(self).graph.nodes@,
            final(self).graph.wires@ == old(self).graph.wires@,
            final(self).selected_node == old(self).selected_node,
            final(self).display_node == old(self).display_node,
            final(self).graph.nodes@.last().node matches SceneNode::GraftBranches { destination_path } && destination_path@
                == "/shot"@,
    {
        self.add_node(SceneNode::graft_branches())
    }

    /// Deselects the selected node and returns it, so that the caller can
    /// delete it.
    pub fn delete_selected(&mut self) -> (r: Option<GraphNodeId>)
        ensures
            r == old(self).selected_node,
            final(self).selected_node is None,
            final(self).graph == old(self).graph,
            final(self).display_node == old(self).display_node,
    {
        self.selected_node.take()
    }

    /// Deletes node `id`: clears the selection and display flag that point at
    /// it, marks everything downstream of it dirty, and removes it with its
    /// wires. Returns the invalidation events owed to the instancers it fed.
    pub fn delete_node(&mut self, id: GraphNodeId) -> (events: Vec<EvalEvent>)
        requires
            old(self).wf(),
            old(self).graph.has_node(id),
        ensures
            final(self).wf(),
            events@ == deletion_invalidations(old(self).graph, id, old(self).graph.wires@),
            final(self).selected_node == (if old(self).selected_node == Some(id) {
                None
            } else {
                old(self).selected_node
            }),
            final(self).display_node == (if old(self).display_node == Some(id) {
                None
            } else {
                old(self).display_node
            }),
            forall|x: GraphNodeId| #[trigger]
                final(self).graph.has_node(x) <==> (old(self).graph.has_node(x) && x != id),
            forall|x: GraphNodeId| #[trigger]
                final(self).graph.has_node(x) ==> final(self).graph.node_at(x) == (if old(
                    self,
                ).graph.reaches(false, id, x) {
                    super::eval::spec_mark_dirty(old(self).graph.node_at(x))
                } else {
                    old(self).graph.node_at(x)
                }),
            forall|w: Wire| #[trigger]
                final(self).graph.wires@.contains(w) <==> (old(self).graph.wires@.contains(w)
                    && w.from != id && w.to != id),
    {
        if self.selected_node == Some(id) {
            self.selected_node = None;
        }
        if self.display_node == Some(id) {
            self.display_node = None;
        }
        let ghost g0 = self.graph;
        let idx = match self.graph.find_node(id) {
            Some(i) => i,
            None => {
                assert(false);
                0
            },
        };
        let out_count = self.graph.nodes[idx].node.output_count();
        let mut events: Vec<EvalEvent> = Vec::new();
        let mut k: usize = 0;
        while k < self.graph.wires.len()
            invariant
                self.graph == g0,
                g0.wf(),
                idx < g0.nodes@.len() && g0.nodes@[idx as int].id == id,
                g0.index_of(id) == idx,
                out_count as nat == spec_output_count(g0.node_at(id)),
                k <= g0.wires@.len(),
                events@ == deletion_invalidations(g0, id, g0.wires@.take(k as int)),
            decreases g0.wires@.len() - k,
        {
            let w = self.graph.wires[k];
            proof {
                assert(g0.wires@.take(k + 1).drop_last() == g0.wires@.take(k as int));
                assert(g0.wires@.take(k + 1).last() == w);
            }
            if w.from == id && w.output < out_count {
                let ti = match self.graph.find_node(w.to) {
                    Some(i) => i,
                    None => {
                        assert(g0.has_node(g0.wires@[k as int].to));
                        assert(false);
                        0
                    },
                };
                let instanced = match &self.graph.nodes[ti].node {
                    SceneNode::PointInstancer { is_instanced, .. } => *is_instanced,
                    _ => false,
                };
                if instanced {
                    events.push(EvalEvent::InstancerInvalidate { node_id: w.to });
                }
            }
            k = k + 1;
        }
        assert(g0.wires@.take(g0.wires@.len() as int) == g0.wires@);
        self.graph.propagate_dirty(id);
        let ghost g1 = self.graph;
        proof {
            g1.lemma_same_ids_wf(g0);
        }
        self.graph.remove_node(id);
        proof {
            assert forall|x: GraphNodeId| #[trigger] self.graph.has_node(x) implies self.graph.node_at(
                x,
            ) == (if g0.reaches(false, id, x) {
                super::eval::spec_mark_dirty(g0.node_at(x))
            } else {
                g0.node_at(x)
            }) by {
                assert(g1.has_node(x));
                let i = g1.index_of(x);
                assert(g0.index_of(x) == i);
                assert(g1.nodes@[i] == g1.nodes@[i]);
            }
        }
        events
    }

    /// Marks every USD Read node reading `file_path` as loaded.
    pub fn mark_node_loaded(&mut self, file_path: &str)
        ensures
            nodes_updated(
                old(self).graph.nodes@,
                final(self).graph.nodes@,
                |n: SceneNode| spec_loaded(n, file_path@),
            ),
            final(self).graph.wires@ == old(self).graph.wires@,
            final(self).selected_node == old(self).selected_node,
            final(self).display_node == old(self).display_node,
    {
        let ghost g0 = self.graph.nodes@;
        let mut i: usize = 0;
        while i < self.graph.nodes.len()
            invariant
                self.graph.nodes@.len() == g0.len(),
                self.graph.wires@ == old(self).graph.wires@,
                self.selected_node == old(self).selected_node,
                self.display_node == old(self).display_node,
                g0 == old(self).graph.nodes@,
                i <= g0.len(),
                forall|j: int| i <= j < g0.len() ==> #[trigger] self.graph.nodes@[j] == g0[j],
                forall|j: int|
                    0 <= j < i ==> (#[trigger] self.graph.nodes@[j]).id == g0[j].id
                        && self.graph.nodes@[j].node == spec_loaded(g0[j].node, file_path@),
            decreases g0.len() - i,
        {
            match &mut self.graph.nodes[i].node {
                SceneNode::UsdRead { file_path: path, is_loaded, error } => {
                    if same_text(path.as_str(), file_path) {
                        *is_loaded = true;
                        *error = None;
                    }
                },
                _ => {},
            }
            i = i + 1;
        }
    }

    /// Marks every USD Read node reading `file_path` as failed with `err_msg`.
    pub fn mark_node_error(&mut self, file_path: &str, err_msg: String)
        ensures
            nodes_updated(
                old(self).graph.nodes@,
                final(self).graph.nodes@,
                |n: SceneNode| spec_load_failed(n, file_path@, err_msg),
            ),
            final(self).graph.wires@ == old(self).graph.wires@,
            final(self).selected_node == old(self).selected_node,
            final(self).display_node == old(self).display_node,
    {
        let ghost g0 = self.graph.nodes@;
        let mut i: usize = 0;
        while i < self.graph.nodes.len()
            invariant
                self.graph.nodes@.len() == g0.len(),
                self.graph.wires@ == old(self).graph.wires@,
                self.selected_node == old(self).selected_node,
                self.display_node == old(self).display_node,
                g0 == old(self).graph.nodes@,
                i <= g0.len(),
                forall|j: int| i <= j < g0.len() ==> #[trigger] self.graph.nodes@[j] == g0[j],
                forall|j: int|
                    0 <= j < i ==> (#[trigger] self.graph.nodes@[j]).id == g0[j].id
                        && self.graph.nodes@[j].node == spec_load_failed(
                        g0[j].node,
                        file_path@,
                        err_msg,
                    ),
            decreases g0.len() - i,
        {
            match &mut self.graph.nodes[i].node {
                SceneNode::UsdRead { file_path: path, is_loaded, error } => {
                    if same_text(path.as_str(), file_path) {
                        *is_loaded = false;
                        *error = Some(err_msg.clone());
                    }
                },
                _ => {},
            }
            i = i + 1;
        }
    }

    /// Marks every render node as no longer rendering.
    pub fn mark_ivar_render_complete(&mut self)
        ensures
            nodes_updated(
                old(self).graph.nodes@,
                final(self).graph.nodes@,
                |n: SceneNode| spec_render_done(n),
            ),
            final(self).graph.wires@ == old(self).graph.wires@,
            final(self).selected_node == old(self).selected_node,
            final(self).display_node == old(self).display_node,
    {
        let ghost g0 = self.graph.nodes@;
        let mut i: usize = 0;
        while i < self.graph.nodes.len()
            invariant
                self.graph.nodes@.len() == g0.len(),
                self.graph.wires@ == old(self).graph.wires@,
                self.selected_node == old(self).selected_node,
                self.display_node == old(self).display_node,
                g0 == old(self).graph.nodes@,
                i <= g0.len(),
                forall|j: int| i <= j < g0.len() ==> #[trigger] self.graph.nodes@[j] == g0[j],
                forall|j: int|
                    0 <= j < i ==> (#[trigger] self.graph.nodes@[j]).id == g0[j].id
                        && self.graph.nodes@[j].node == spec_render_done(g0[j].node),
            decreases g0.len() - i,
        {
            match &mut self.graph.nodes[i].node {
                SceneNode::IvarRender { is_rendering, .. } => {
                    *is_rendering = false;
                },
                _ => {},
            }
            i = i + 1;
        }
    }

    /// Marks texture conversion finished on every render node, with `status`.
    pub fn mark_tx_conversion_complete(&mut self, status: String)
        ensures
            nodes_updated(
                old(self).graph.nodes@,
                final(self).graph.nodes@,
                |n: SceneNode| spec_tx_done(n, status),
            ),
            final(self).graph.wires@ == old(self).graph.wires@,
            final(self).selected_node == old(self).selected_node,
            final(self).display_node == old(self).display_node,
    {
        let ghost g0 = self.graph.nodes@;
        let mut i: usize = 0;
        while i < self.graph.nodes.len()
            invariant
                self.graph.nodes@.len() == g0.len(),
                self.graph.wires@ == old(self).graph.wires@,
                self.selected_node == old(self).selected_node,
                self.display_node == old(self).display_node,
                g0 == old(self).graph.nodes@,
                i <= g0.len(),
                forall|j: int| i <= j < g0.len() ==> #[trigger] self.graph.nodes@[j] == g0[j],
                forall|j: int|
                    0 <= j < i ==> (#[trigger] self.graph.nodes@[j]).id == g0[j].id
                        && self.graph.nodes@[j].node == spec_tx_done(g0[j].node, status),
            decreases g0.len() - i,
        {
            match &mut self.graph.nodes[i].node {
                SceneNode::IvarRender { is_converting_tx, tx_status, .. } => {
                    *is_converting_tx = false;
                    *tx_status = Some(status.clone());
                },
                _ => {},
            }
            i = i + 1;
        }
    }

    /// Marks every HDRI node reading `path` as generating its lighting.
    pub fn mark_hdri_loading(&mut self, path: &str)
        ensures
            nodes_updated(
                old(self).graph.nodes@,
                final(self).graph.nodes@,
                |n: SceneNode| spec_hdri_loading(n, path@),
            ),
            final(self).graph.wires@ == old(self).graph.wires@,
            final(self).selected_node == old(self).selected_node,
            final(self).display_node == old(self).display_node,
    {
        let ghost g0 = self.graph.nodes@;
        let mut i: usize = 0;
        while i < self.graph.nodes.len()
            invariant
                self.graph.nodes@.len() == g0.len(),
                self.graph.wires@ == old(self).graph.wires@,
                self.selected_node == old(self).selected_node,
                self.display_node == old(self).display_node,
                g0 == old(self).graph.nodes@,
                i <= g0.len(),
                forall|j: int| i <= j < g0.len() ==> #[trigger] self.graph.nodes@[j] == g0[j],
                forall|j: int|
                    0 <= j < i ==> (#[trigger] self.graph.nodes@[j]).id == g0[j].id
                        && self.graph.nodes@[j].node == spec_hdri_loading(g0[j].node, path@),
            decreases g0.len() - i,
        {
            match &mut self.graph.nodes[i].node {
                SceneNode::HdriEnvironment { file_path, is_loading, .. } => {
                    if same_text(file_path.as_str(), path) {
                        *is_loading = true;
                    }
                },
                _ => {},
            }
            i = i + 1;
        }
    }

    /// Marks every HDRI node reading `path` as loaded.
    pub fn mark_hdri_loaded(&mut self, path: &str)
        ensures
            nodes_updated(
                old(self).graph.nodes@,
                final(self).graph.nodes@,
                |n: SceneNode| spec_hdri_loaded(n, path@),
            ),
            final(self).graph.wires@ == old(self).graph.wires@,
            final(self).selected_node == old(self).selected_node,
            final(self).display_node == old(self).display_node,
    {
        let ghost g0 = self.graph.nodes@;
        let mut i: usize = 0;
        while i < self.graph.nodes.len()
            invariant
                self.graph.nodes@.len() == g0.len(),
                self.graph.wires@ == old(self).graph.wires@,
                self.selected_node == old(self).selected_node,
                self.display_node == old(self).display_node,
                g0 == old(self).graph.nodes@,
                i <= g0.len(),
                forall|j: int| i <= j < g0.len() ==> #[trigger] self.graph.nodes@[j] == g0[j],
                forall|j: int|
                    0 <= j < i ==> (#[trigger] self.graph.nodes@[j]).id == g0[j].id
                        && self.graph.nodes@[j].node == spec_hdri_loaded(g0[j].node, path@),
            decreases g0.len() - i,
        {
            match &mut self.graph.nodes[i].node {
                SceneNode::HdriEnvironment { file_path, is_loaded, is_loading, error, .. } => {
                    if same_text(file_path.as_str(), path) {
                        *is_loaded = true;
                        *is_loading = false;
                        *error = None;
                    }
                },
                _ => {},
            }
            i = i + 1;
        }
    }

    /// Marks every HDRI node reading `path` as failed with `err_msg`.
    pub fn mark_hdri_error(&mut self, path: &str, err_msg: String)
        ensures
            nodes_updated(
                old(self).graph.nodes@,
                final(self).graph.nodes@,
                |n: SceneNode| spec_hdri_failed(n, path@, err_msg),
            ),
            final(self).graph.wires@ == old(self).graph.wires@,
            final(self).selected_node == old(self).selected_node,
            final(self).display_node == old(self).display_node,
    {
        let ghost g0 = self.graph.nodes@;
        let mut i: usize = 0;
        while i < self.graph.nodes.len()
            invariant
                self.graph.nodes@.len() == g0.len(),
                self.graph.wires@ == old(self).graph.wires@,
                self.selected_node == old(self).selected_node,
                self.display_node == old(self).display_node,
                g0 == old(self).graph.nodes@,
                i <= g0.len(),
                forall|j: int| i <= j < g0.len() ==> #[trigger] self.graph.nodes@[j] == g0[j],
                forall|j: int|
                    0 <= j < i ==> (#[trigger] self.graph.nodes@[j]).id == g0[j].id
                        && self.graph.nodes@[j].node == spec_hdri_failed(
                        g0[j].node,
                        path@,
                        err_msg,
                    ),
            decreases g0.len() - i,
        {
            match &mut self.graph.nodes[i].node {
                SceneNode::HdriEnvironment { file_path, is_loaded, is_loading, error, .. } => {
                    if same_text(file_path.as_str(), path) {
                        *is_loaded = false;
                        *is_loading = false;
                        *error = Some(err_msg.clone());
                    }
                },
                _ => {},
            }
            i = i + 1;
        }
    }
}

} // verus!
