//! Framework-agnostic node identifier for the node graph.

use vstd::prelude::*;

use crate::text::{decimal, push_decimal};

verus! {

/// Identifier of a node in the scene node graph, decoupled from the UI
/// framework that draws the graph.
#[derive(Debug, Clone, Copy, Hash, PartialEq, Eq, Structural, PartialOrd, Ord)]
pub struct GraphNodeId(pub u64);

impl GraphNodeId {
    /// Display form of the identifier: `node:<n>`.
    pub fn label(&self) -> (s: String)
        ensures
            s@ == "node:"@ + decimal(self.0 as nat),
    {
        let mut s = String::from_str("node:");
        push_decimal(&mut s, self.0);
        s
    }
}

} // verus!
