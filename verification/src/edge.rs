use vstd::prelude::*;
use crate::id::NodeId;
use crate::time::Timestamp;

verus! {

/// A typed directed edge between two nodes, for relationships beyond the
/// parent/child tree ("references", "blocks", "related", ...).
#[derive(Debug, PartialEq, Eq)]
pub struct Edge {
    /// The source node.
    pub from_id: NodeId,
    /// The target node.
    pub to_id: NodeId,
    /// The relationship type.
    pub kind: String,
    /// When the edge was created (UTC).
    pub created_at: Timestamp,
}

impl Edge {
    /// A new edge between two nodes with the given relationship kind, created now.
    pub fn new(from_id: NodeId, to_id: NodeId, kind: &str) -> (e: Self)
        ensures
            e.from_id == from_id,
            e.to_id == to_id,
            e.kind@ == kind@,
            e.created_at.nanos < 2_000_000_000,
    {
        Edge { from_id, to_id, kind: String::from_str(kind), created_at: Timestamp::now() }
    }
}

impl Clone for Edge {
    /// An equal copy.
    fn clone(&self) -> (c: Self)
        ensures
            c == *self,
    {
        Edge {
            from_id: self.from_id,
            to_id: self.to_id,
            kind: self.kind.clone(),
            created_at: self.created_at,
        }
    }
}

} // verus!
