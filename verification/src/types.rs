use vstd::prelude::*;

verus! {

/// Identifier of a node of the cluster.
pub type NodeId = u64;

/// An election term.
pub type Term = u64;

/// Position of an entry in the replicated log; the first entry is at 1.
pub type LogIndex = u64;

/// The role a node plays in the protocol.
#[derive(Debug, Clone, Copy, PartialEq, Eq, Structural)]
pub enum NodeState {
    Follower,
    Candidate,
    Leader,
}

} // verus!
