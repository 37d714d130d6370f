use vstd::prelude::*;
use crate::edge::Edge;
use crate::id::NodeId;
use crate::node::{same_node, Node};
use crate::time::Timestamp;

verus! {

/// A single change to the graph, holding everything needed to replay it.
#[derive(Debug)]
pub enum Mutation {
    CreateNode { node: Node },
    UpdateNode { node: Node },
    DeleteNode { id: NodeId },
    CreateEdge { edge: Edge },
    DeleteEdge { from_id: NodeId, to_id: NodeId, kind: String },
}

/// A sequenced, timestamped mutation: one line of the log.
#[derive(Debug)]
pub struct LogEntry {
    /// Sequence number, increasing from 1.
    pub seq: u64,
    /// When the mutation was recorded.
    pub ts: Timestamp,
    /// The mutation.
    pub mutation: Mutation,
}

/// Whether two mutations say the same: the same variant, with nodes that
/// hold the same data and otherwise equal parts.
pub open spec fn same_mutation(a: Mutation, b: Mutation) -> bool {
    match (a, b) {
        (Mutation::CreateNode { node: x }, Mutation::CreateNode { node: y }) => same_node(x, y),
        (Mutation::UpdateNode { node: x }, Mutation::UpdateNode { node: y }) => same_node(x, y),
        (Mutation::CreateNode { .. }, _) => false,
        (Mutation::UpdateNode { .. }, _) => false,
        _ => a == b,
    }
}

impl Clone for Mutation {
    /// A copy that says the same.
    fn clone(&self) -> (c: Self)
        ensures
            same_mutation(c, *self),
    {
        match self {
            Mutation::CreateNode { node } => Mutation::CreateNode { node: node.clone() },
            Mutation::UpdateNode { node } => Mutation::UpdateNode { node: node.clone() },
            Mutation::DeleteNode { id } => Mutation::DeleteNode { id: *id },
            Mutation::CreateEdge { edge } => Mutation::CreateEdge { edge: edge.clone() },
            Mutation::DeleteEdge { from_id, to_id, kind } => Mutation::DeleteEdge {
                from_id: *from_id,
                to_id: *to_id,
                kind: kind.clone(),
            },
        }
    }
}

impl Clone for LogEntry {
    /// A copy with the same number and time and a mutation that says the same.
    fn clone(&self) -> (c: Self)
        ensures
            c.seq == self.seq,
            c.ts == self.ts,
            same_mutation(c.mutation, self.mutation),
    {
        LogEntry { seq: self.seq, ts: self.ts, mutation: self.mutation.clone() }
    }
}

} // verus!
