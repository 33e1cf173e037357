use crate::log::LogEntry;
use crate::types::{NodeId, Term};
use vstd::prelude::*;

verus! {

/// What a node reports to the application above it.
pub enum AppEvent {
    EntryCommitted(LogEntry),
    LeaderChanged(Option<NodeId>),
    TermChanged(Term),
}

} // verus!
