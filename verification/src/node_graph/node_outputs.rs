//! Per-node output bookkeeping: the prototype indices and optional point-cloud
//! id a node owns in the working scene.

use vstd::prelude::*;

verus! {

/// Outputs a single graph node has materialized into the working scene.
#[derive(Clone, Debug, Default, PartialEq, Eq)]
pub struct NodeOutputs {
    /// Prototype indices into the working scene's prototypes owned by this node.
    pub proto_ids: Vec<usize>,
    /// Point-cloud id into the working scene's point clouds, if this node made one.
    pub cloud_id: Option<usize>,
}

impl NodeOutputs {
    /// True when the node owns no protos and no cloud (the entry is prunable).
    pub fn is_empty(&self) -> (b: bool)
        ensures
            b == (self.proto_ids@.len() == 0 && self.cloud_id is None),
    {
        self.proto_ids.len() == 0 && self.cloud_id.is_none()
    }
}

} // verus!
