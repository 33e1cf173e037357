use crate::log::{entry_views, LogEntry, LogEntryView};
use crate::types::{LogIndex, NodeId, Term};
use vstd::prelude::*;

verus! {

/// `uuid::Uuid`, the identifier of a client request. The protocol only
/// carries it from a request to its response.
#[verifier::external_type_specification]
#[verifier::external_body]
pub struct ExUuid(uuid::Uuid);

/// `Clone::clone` of `uuid::Uuid`, which derives `Clone` beside `Copy`: the
/// clone is the value itself.
pub assume_specification[ <uuid::Uuid as Clone>::clone ](u: &uuid::Uuid) -> (r: uuid::Uuid)
    ensures
        r == *u,
;

/// A candidate asks for a vote.
#[derive(Debug, Clone, Copy, PartialEq, Eq, Structural)]
pub struct RequestVote {
    pub term: Term,
    pub candidate_id: NodeId,
    pub last_log_index: LogIndex,
    pub last_log_term: Term,
}

/// A node answers a vote request.
#[derive(Debug, Clone, Copy, PartialEq, Eq, Structural)]
pub struct RequestVoteResponse {
    pub term: Term,
    pub vote_granted: bool,
    pub voter_id: NodeId,
}

/// A leader replicates entries, or sends a heartbeat when there are none.
#[derive(Debug, Clone, PartialEq, Eq)]
pub struct AppendEntries {
    pub term: Term,
    pub leader_id: NodeId,
    pub prev_log_index: LogIndex,
    pub prev_log_term: Term,
    pub entries: Vec<LogEntry>,
    pub leader_commit: LogIndex,
}

/// A follower answers an `AppendEntries`.
#[derive(Debug, Clone, Copy, PartialEq, Eq, Structural)]
pub struct AppendEntriesResponse {
    pub term: Term,
    pub success: bool,
    pub follower_id: NodeId,
}

/// A command that a client, or a node on its behalf, hands to the leader.
#[derive(Debug, Clone, PartialEq, Eq)]
pub struct ClientCommand {
    pub command: String,
    pub client_id: NodeId,
    pub request_id: uuid::Uuid,
}

/// The answer to a client command.
#[derive(Debug, Clone, PartialEq, Eq)]
pub struct ClientResponse {
    pub request_id: uuid::Uuid,
    pub success: bool,
    pub result: Option<String>,
    pub error: Option<String>,
}

/// Every message that nodes exchange.
#[derive(Debug, Clone, PartialEq, Eq)]
pub enum RaftMessage {
    RequestVote(RequestVote),
    RequestVoteResponse(RequestVoteResponse),
    AppendEntries(AppendEntries),
    AppendEntriesResponse(AppendEntriesResponse),
    ClientCommand(ClientCommand),
    ClientResponse(ClientResponse),
}

/// The value of an `AppendEntries`.
pub struct AppendEntriesView {
    pub term: Term,
    pub leader_id: NodeId,
    pub prev_log_index: LogIndex,
    pub prev_log_term: Term,
    pub entries: Seq<LogEntryView>,
    pub leader_commit: LogIndex,
}

/// The value of a `ClientCommand`.
pub struct ClientCommandView {
    pub command: Seq<char>,
    pub client_id: NodeId,
    pub request_id: uuid::Uuid,
}

/// The value of a `ClientResponse`.
pub struct ClientResponseView {
    pub request_id: uuid::Uuid,
    pub success: bool,
    pub result: Option<Seq<char>>,
    pub error: Option<Seq<char>>,
}

/// The value of a message.
pub enum RaftMessageView {
    RequestVote(RequestVote),
    RequestVoteResponse(RequestVoteResponse),
    AppendEntries(AppendEntriesView),
    AppendEntriesResponse(AppendEntriesResponse),
    ClientCommand(ClientCommandView),
    ClientResponse(ClientResponseView),
}

/// The character contents of an optional string.
pub open spec fn opt_text(s: Option<String>) -> Option<Seq<char>> {
    match s {
        Some(t) => Some(t@),
        None => None,
    }
}

impl View for AppendEntries {
    type V = AppendEntriesView;

    open spec fn view(&self) -> AppendEntriesView {
        AppendEntriesView {
            term: self.term,
            leader_id: self.leader_id,
            prev_log_index: self.prev_log_index,
            prev_log_term: self.prev_log_term,
            entries: entry_views(self.entries@),
            leader_commit: self.leader_commit,
        }
    }
}

impl View for ClientCommand {
    type V = ClientCommandView;

    open spec fn view(&self) -> ClientCommandView {
        ClientCommandView {
            command: self.command@,
            client_id: self.client_id,
            request_id: self.request_id,
        }
    }
}

impl View for ClientResponse {
    type V = ClientResponseView;

    open spec fn view(&self) -> ClientResponseView {
        ClientResponseView {
            request_id: self.request_id,
            success: self.success,
            result: opt_text(self.result),
            error: opt_text(self.error),
        }
    }
}

impl View for RaftMessage {
    type V = RaftMessageView;

    open spec fn view(&self) -> RaftMessageView {
        match self {
            RaftMessage::RequestVote(m) => RaftMessageView::RequestVote(*m),
            RaftMessage::RequestVoteResponse(m) => RaftMessageView::RequestVoteResponse(*m),
            RaftMessage::AppendEntries(m) => RaftMessageView::AppendEntries(m@),
            RaftMessage::AppendEntriesResponse(m) => RaftMessageView::AppendEntriesResponse(*m),
            RaftMessage::ClientCommand(m) => RaftMessageView::ClientCommand(m@),
            RaftMessage::ClientResponse(m) => RaftMessageView::ClientResponse(m@),
        }
    }
}

fn duplicate_text(s: &Option<String>) -> (r: Option<String>)
    ensures
        opt_text(r) == opt_text(*s),
{
    match s {
        Some(t) => Some(t.clone()),
        None => None,
    }
}

impl AppendEntries {
    /// A copy of the message.
    pub(crate) fn duplicate(&self) -> (m: AppendEntries)
        ensures
            m@ == self@,
    {
        let mut entries: Vec<LogEntry> = Vec::new();
        let mut i: usize = 0;
        while i < self.entries.len()
            invariant
                i <= self.entries.len(),
                entry_views(entries@) == entry_views(self.entries@.take(i as int)),
                entries@.len() == i,
            decreases self.entries.len() - i,
        {
            let e = self.entries[i].duplicate();
            let ghost before = entries@;
            entries.push(e);
            assert(entry_views(entries@) =~= entry_views(self.entries@.take(i + 1))) by {
                assert forall|j: int| 0 <= j < i implies #[trigger] before[j]@ == self.entries@[j]@ by {
                    assert(entry_views(before)[j] == entry_views(self.entries@.take(i as int))[j]);
                }
                assert(entries@[i as int]@ == self.entries@[i as int]@);
            }
            i = i + 1;
        }
        assert(self.entries@.take(self.entries.len() as int) =~= self.entries@);
        AppendEntries {
            term: self.term,
            leader_id: self.leader_id,
            prev_log_index: self.prev_log_index,
            prev_log_term: self.prev_log_term,
            entries,
            leader_commit: self.leader_commit,
        }
    }
}

impl RaftMessage {
    /// A copy of the message.
    pub(crate) fn duplicate(&self) -> (m: RaftMessage)
        ensures
            m@ == self@,
    {
        match self {
            RaftMessage::RequestVote(m) => RaftMessage::RequestVote(*m),
            RaftMessage::RequestVoteResponse(m) => RaftMessage::RequestVoteResponse(*m),
            RaftMessage::AppendEntries(m) => RaftMessage::AppendEntries(m.duplicate()),
            RaftMessage::AppendEntriesResponse(m) => RaftMessage::AppendEntriesResponse(*m),
            RaftMessage::ClientCommand(m) => RaftMessage::ClientCommand(
                ClientCommand {
                    command: m.command.clone(),
                    client_id: m.client_id,
                    request_id: m.request_id,
                },
            ),
            RaftMessage::ClientResponse(m) => RaftMessage::ClientResponse(
                ClientResponse {
                    request_id: m.request_id,
                    success: m.success,
                    result: duplicate_text(&m.result),
                    error: duplicate_text(&m.error),
                },
            ),
        }
    }
}

/// A fresh random identifier for a client request: `uuid::Uuid::new_v4`.
/// Nothing is stated of the value, which is random.
#[verifier::external_body]
pub(crate) fn new_request_id() -> (id: uuid::Uuid) {
    uuid::Uuid::new_v4()
}

} // verus!
