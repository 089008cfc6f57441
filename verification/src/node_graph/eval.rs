//! Auto-compute readiness of a single node, independent of the graph: the
//! caller hands in which upstream node feeds each input pin.

use vstd::prelude::*;

use super::{EvalMode, GraphNodeId, PointSource, PrimitiveKind, ScatterSettings, SceneNode};

verus! {

/// Read-only view of a node's input connections: `input_sources[i]` is the
/// upstream node feeding input pin `i`.
pub struct EvalCtx {
    pub input_sources: Vec<Option<GraphNodeId>>,
}

/// Upstream node of input `i` in a list of input sources (none past the end).
pub open spec fn source_at(inputs: Seq<Option<GraphNodeId>>, i: int) -> Option<GraphNodeId> {
    if 0 <= i < inputs.len() {
        inputs[i]
    } else {
        None
    }
}

impl EvalCtx {
    /// Builds the context from a per-input list of upstream sources.
    pub fn new(input_sources: Vec<Option<GraphNodeId>>) -> (c: EvalCtx)
        ensures
            c.input_sources@ == input_sources@,
    {
        EvalCtx { input_sources }
    }

    /// Upstream node feeding input pin `input`, if connected.
    pub fn input_source(&self, input: usize) -> (r: Option<GraphNodeId>)
        ensures
            r == source_at(self.input_sources@, input as int),
    {
        if input < self.input_sources.len() {
            self.input_sources[input]
        } else {
            None
        }
    }

    /// Whether input pin `input` is connected.
    pub fn is_input_connected(&self, input: usize) -> (b: bool)
        ensures
            b == source_at(self.input_sources@, input as int) is Some,
    {
        self.input_source(input).is_some()
    }
}

/// Work a node asks the application to carry out after evaluation.
#[derive(Clone, Copy, Debug, PartialEq, Eq, Structural)]
pub enum EvalEvent {
    /// Create the node's procedural primitive.
    CreatePrimitive { node_id: GraphNodeId, kind: PrimitiveKind },
    /// Compute the node's scatter points.
    ScatterPointsCompute {
        node_id: GraphNodeId,
        source: PointSource,
        count: u32,
        max_point_limit: u32,
        seed: u64,
        settings: ScatterSettings,
    },
    /// Expand the points of `points_source_node` with the prototype of `proto_source_node`.
    PointInstancerCompute {
        node_id: GraphNodeId,
        points_source_node: GraphNodeId,
        proto_source_node: GraphNodeId,
    },
    /// Drop the cached results of an instancer whose inputs went away.
    InstancerInvalidate { node_id: GraphNodeId },
    /// Rebuild the scene transforms below an Xform node.
    XformChanged { node_id: GraphNodeId },
    /// Register the metadata of a USD prim node.
    UsdPrimCreate { node_id: GraphNodeId },
}

/// Result of evaluating one node: events to dispatch and whether the node
/// should be marked dirty.
pub struct EvalOutcome {
    pub events: Vec<EvalEvent>,
    pub dirty: bool,
}

/// What evaluating `node` (identified by `id`) with the given input sources
/// does: the node afterwards, the events it emits, and whether it is left dirty.
pub open spec fn spec_evaluate(
    node: SceneNode,
    id: GraphNodeId,
    inputs: Seq<Option<GraphNodeId>>,
    mode: EvalMode,
) -> (SceneNode, Seq<EvalEvent>, bool) {
    let auto = mode == EvalMode::Auto;
    match node {
        SceneNode::Primitive { kind, is_created, prim_path } => if is_created {
            (node, seq![], false)
        } else if auto {
            (
                SceneNode::Primitive { kind, is_created: true, prim_path },
                seq![EvalEvent::CreatePrimitive { node_id: id, kind }],
                false,
            )
        } else {
            (node, seq![], true)
        },
        SceneNode::ScatterPoints {
            source,
            count,
            max_point_limit,
            seed,
            settings,
            target_proto_id,
            is_computed,
        } => {
            let satisfied = source != PointSource::Surface || source_at(inputs, 0) is Some;
            if is_computed || !satisfied {
                (node, seq![], false)
            } else if auto {
                (
                    SceneNode::ScatterPoints {
                        source,
                        count,
                        max_point_limit,
                        seed,
                        settings,
                        target_proto_id,
                        is_computed: true,
                    },
                    seq![
                        EvalEvent::ScatterPointsCompute {
                            node_id: id,
                            source,
                            count,
                            max_point_limit,
                            seed,
                            settings,
                        },
                    ],
                    false,
                )
            } else {
                (node, seq![], true)
            }
        },
        SceneNode::PointInstancer {
            instance_count,
            is_instanced,
            is_computing,
            compute_failed,
            prim_path,
        } => {
            let points = source_at(inputs, 0);
            let proto = source_at(inputs, 1);
            let both = points is Some && proto is Some;
            if !both && is_instanced {
                (
                    SceneNode::PointInstancer {
                        instance_count: 0,
                        is_instanced: false,
                        is_computing: false,
                        compute_failed: false,
                        prim_path,
                    },
                    seq![EvalEvent::InstancerInvalidate { node_id: id }],
                    false,
                )
            } else if both && !is_instanced && !is_computing && !compute_failed {
                if auto {
                    (
                        SceneNode::PointInstancer {
                            instance_count,
                            is_instanced,
                            is_computing: true,
                            compute_failed,
                            prim_path,
                        },
                        seq![
                            EvalEvent::PointInstancerCompute {
                                node_id: id,
                                points_source_node: points->0,
                                proto_source_node: proto->0,
                            },
                        ],
                        false,
                    )
                } else {
                    (node, seq![], true)
                }
            } else {
                (node, seq![], false)
            }
        },
        SceneNode::Xform { prim_filter, is_applied } => if is_applied || source_at(
            inputs,
            0,
        ) is None {
            (node, seq![], false)
        } else if auto {
            (
                SceneNode::Xform { prim_filter, is_applied: true },
                seq![EvalEvent::XformChanged { node_id: id }],
                false,
            )
        } else {
            (node, seq![], true)
        },
        SceneNode::UsdPrim { prim_path, prim_type, kind, specifier, is_created } => if is_created {
            (node, seq![], false)
        } else if auto {
            (
                SceneNode::UsdPrim { prim_path, prim_type, kind, specifier, is_created: true },
                seq![EvalEvent::UsdPrimCreate { node_id: id }],
                false,
            )
        } else {
            (node, seq![], true)
        },
        _ => (node, seq![], false),
    }
}

/// The node after its computed state is reset so that auto-compute fires again.
pub open spec fn spec_mark_dirty(node: SceneNode) -> SceneNode {
    match node {
        SceneNode::PointInstancer { instance_count, prim_path, .. } => SceneNode::PointInstancer {
            instance_count,
            is_instanced: false,
            is_computing: false,
            compute_failed: false,
            prim_path,
        },
        SceneNode::Primitive { kind, prim_path, .. } => SceneNode::Primitive {
            kind,
            is_created: false,
            prim_path,
        },
        SceneNode::ScatterPoints {
            source,
            count,
            max_point_limit,
            seed,
            settings,
            target_proto_id,
            ..
        } => SceneNode::ScatterPoints {
            source,
            count,
            max_point_limit,
            seed,
            settings,
            target_proto_id,
            is_computed: false,
        },
        _ => node,
    }
}

impl SceneNode {
    /// Auto-compute readiness of this node: updates its status flags in place
    /// and returns the events to dispatch and whether it is left dirty.
    pub fn evaluate(&mut self, id: GraphNodeId, ctx: &EvalCtx, mode: EvalMode) -> (out:
        EvalOutcome)
        ensures
            (*final(self), out.events@, out.dirty) == spec_evaluate(
                *old(self),
                id,
                ctx.input_sources@,
                mode,
            ),
    {
        let auto = mode == EvalMode::Auto;
        let mut events: Vec<EvalEvent> = Vec::new();
        let mut dirty = false;
        match self {
            SceneNode::Primitive { kind, is_created, .. } => {
                if !*is_created {
                    if auto {
                        events.push(EvalEvent::CreatePrimitive { node_id: id, kind: *kind });
                        *is_created = true;
                    } else {
                        dirty = true;
                    }
                }
            },
            SceneNode::ScatterPoints {
                source,
                count,
                max_point_limit,
                seed,
                settings,
                is_computed,
                ..
            } => {
                let satisfied = match *source {
                    PointSource::Surface => ctx.is_input_connected(0),
                    PointSource::Grid | PointSource::Sphere => true,
                };
                if !*is_computed && satisfied {
                    if auto {
                        events.push(
                            EvalEvent::ScatterPointsCompute {
                                node_id: id,
                                source: *source,
                                count: *count,
                                max_point_limit: *max_point_limit,
                                seed: *seed,
                                settings: *settings,
                            },
                        );
                        *is_computed = true;
                    } else {
                        dirty = true;
                    }
                }
            },
            SceneNode::PointInstancer {
                instance_count,
                is_instanced,
                is_computing,
                compute_failed,
                ..
            } => {
                let points_node = ctx.input_source(0);
                let proto_node = ctx.input_source(1);
                let both_connected = points_node.is_some() && proto_node.is_some();
                if !both_connected && *is_instanced {
                    events.push(EvalEvent::InstancerInvalidate { node_id: id });
                    *is_instanced = false;
                    *is_computing = false;
                    *compute_failed = false;
                    *instance_count = 0;
                } else if both_connected && !*is_instanced && !*is_computing && !*compute_failed {
                    if auto {
                        match (points_node, proto_node) {
                            (Some(points_source), Some(proto_source)) => {
                                events.push(
                                    EvalEvent::PointInstancerCompute {
                                        node_id: id,
                                        points_source_node: points_source,
                                        proto_source_node: proto_source,
                                    },
                                );
                                *is_computing = true;
                            },
                            _ => {},
                        }
                    } else {
                        dirty = true;
                    }
                }
            },
            SceneNode::Xform { is_applied, .. } => {
                if !*is_applied && ctx.is_input_connected(0) {
                    if auto {
                        events.push(EvalEvent::XformChanged { node_id: id });
                        *is_applied = true;
                    } else {
                        dirty = true;
                    }
                }
            },
            SceneNode::UsdPrim { is_created, .. } => {
                if !*is_created {
                    if auto {
                        events.push(EvalEvent::UsdPrimCreate { node_id: id });
                        *is_created = true;
                    } else {
                        dirty = true;
                    }
                }
            },
            _ => {},
        }
        EvalOutcome { events, dirty }
    }

    /// Resets this node's computed state so that auto-compute re-triggers.
    pub fn mark_dirty(&mut self)
        ensures
            *final(self) == spec_mark_dirty(*old(self)),
    {
        match self {
            SceneNode::PointInstancer { is_instanced, is_computing, compute_failed, .. } => {
                *is_instanced = false;
                *is_computing = false;
                *compute_failed = false;
            },
            SceneNode::Primitive { is_created, .. } => {
                *is_created = false;
            },
            SceneNode::ScatterPoints { is_computed, .. } => {
                *is_computed = false;
            },
            _ => {},
        }
    }
}

/// A node settles after one evaluation: evaluating it a second time with the
/// same inputs and mode emits no events.
pub proof fn lemma_evaluate_settles(
    node: SceneNode,
    id: GraphNodeId,
    inputs: Seq<Option<GraphNodeId>>,
    mode: EvalMode,
)
    ensures
        spec_evaluate(spec_evaluate(node, id, inputs, mode).0, id, inputs, mode).1.len() == 0,
{
}

/// Outside Auto mode evaluation starts no computation: the only event it can
/// emit is the invalidation of an instancer whose inputs were disconnected.
pub proof fn lemma_non_auto_only_invalidates(
    node: SceneNode,
    id: GraphNodeId,
    inputs: Seq<Option<GraphNodeId>>,
    mode: EvalMode,
)
    requires
        mode != EvalMode::Auto,
    ensures
        forall|k: int|
            0 <= k < spec_evaluate(node, id, inputs, mode).1.len() ==> spec_evaluate(
                node,
                id,
                inputs,
                mode,
            ).1[k] == (EvalEvent::InstancerInvalidate { node_id: id }),
{
}

/// In Auto mode evaluation never leaves a node dirty.
pub proof fn lemma_auto_never_dirty(
    node: SceneNode,
    id: GraphNodeId,
    inputs: Seq<Option<GraphNodeId>>,
)
    ensures
        !spec_evaluate(node, id, inputs, EvalMode::Auto).2,
{
}

/// Marking a node dirty re-arms auto-compute: a dirtied primitive, or a dirtied
/// scatter node whose inputs are satisfied, emits its compute event again on
/// the next Auto evaluation.
pub proof fn lemma_dirty_retriggers(
    node: SceneNode,
    id: GraphNodeId,
    inputs: Seq<Option<GraphNodeId>>,
)
    requires
        node is Primitive || (node is ScatterPoints && (node->source != PointSource::Surface
            || source_at(inputs, 0) is Some)),
    ensures
        spec_evaluate(spec_mark_dirty(node), id, inputs, EvalMode::Auto).1.len() == 1,
{
}

} // verus!
