use crate::log::{Log, LogEntry, LogEntryView, LogView};
use crate::messages::{
    new_request_id, opt_text, AppendEntries, AppendEntriesResponse, AppendEntriesView,
    ClientCommand, ClientCommandView, ClientResponse, ClientResponseView, RaftMessage,
    RaftMessageView, RequestVote, RequestVoteResponse,
};
use crate::node_laws::{lemma_event_keeps_invariant, lemma_step_keeps, node_invariant, step_keeps};
use crate::quorum::{is_middle_value, middle_value};
use crate::text::decimal;
use crate::timer::{Timer, TimerType, TimerView};
use crate::types::{LogIndex, NodeId, NodeState, Term};
use std::collections::{HashMap, HashSet};
use vstd::prelude::*;
use vstd::std_specs::hash::*;
use vstd::std_specs::iter::IteratorSpec;
use vstd::string::*;

verus! {

broadcast use vstd::std_specs::hash::group_hash_axioms;

/// What a node's event loop receives.
#[derive(Debug)]
pub enum RaftEvent {
    TimerExpired(TimerType),
    Message(RaftMessage),
    ClientCommand(String),
}

/// A client command that a leader has appended and not yet answered.
#[derive(Debug, Clone)]
pub struct PendingRequest {
    request_id: uuid::Uuid,
    client_id: NodeId,
    command: String,
}

/// The value of a pending request.
pub struct PendingRequestView {
    pub request_id: uuid::Uuid,
    pub client_id: NodeId,
    pub command: Seq<char>,
}

impl View for PendingRequest {
    type V = PendingRequestView;

    closed spec fn view(&self) -> PendingRequestView {
        PendingRequestView {
            request_id: self.request_id,
            client_id: self.client_id,
            command: self.command@,
        }
    }
}

/// What the node asks its surroundings to do, in order, after an event.
#[derive(Debug)]
pub enum Action {
    /// Send `message` to `to`; a failed send ends the handling of the event
    /// with its error.
    Send(NodeId, RaftMessage),
    /// Send `message` to every connected node; failures are only reported.
    Broadcast(RaftMessage),
    /// Call `reset_heartbeat_timer`.
    ResetHeartbeatTimer,
    /// Call `send_client_response` with these arguments and send the message
    /// it gives, if any, as `Send` does.
    RespondToClient { log_index: LogIndex, success: bool, result: Option<String>, error: Option<String> },
    /// Report that a client command was refused.
    RejectCommand(String),
}

/// The value of an action.
pub enum ActionView {
    Send(NodeId, RaftMessageView),
    Broadcast(RaftMessageView),
    ResetHeartbeatTimer,
    RespondToClient { log_index: LogIndex, success: bool, result: Option<Seq<char>>, error: Option<Seq<char>> },
    RejectCommand(Seq<char>),
}

impl View for Action {
    type V = ActionView;

    open spec fn view(&self) -> ActionView {
        match self {
            Action::Send(to, m) => ActionView::Send(*to, m@),
            Action::Broadcast(m) => ActionView::Broadcast(m@),
            Action::ResetHeartbeatTimer => ActionView::ResetHeartbeatTimer,
            Action::RespondToClient { log_index, success, result, error } => ActionView::RespondToClient {
                log_index: *log_index,
                success: *success,
                result: opt_text(*result),
                error: opt_text(*error),
            },
            Action::RejectCommand(c) => ActionView::RejectCommand(c@),
        }
    }
}

/// The values of a sequence of actions.
pub open spec fn actions_view(acts: Seq<Action>) -> Seq<ActionView> {
    acts.map_values(|a: Action| a@)
}

/// The state of one node of the protocol.
pub struct RaftNode {
    node_id: NodeId,
    term: Term,
    state: NodeState,
    voted_for: Option<NodeId>,
    log: Log,
    election_timer: Timer,
    heartbeat_timer: Timer,
    next_index: HashMap<NodeId, LogIndex>,
    match_index: HashMap<NodeId, LogIndex>,
    commit_index: LogIndex,
    last_applied: LogIndex,
    cluster_nodes: Vec<NodeId>,
    votes_received: HashSet<NodeId>,
    current_leader: Option<NodeId>,
    pending_requests: HashMap<LogIndex, PendingRequest>,
}

/// The value of a node.
pub struct RaftNodeView {
    pub node_id: NodeId,
    pub term: Term,
    pub state: NodeState,
    pub voted_for: Option<NodeId>,
    pub log: LogView,
    pub election_timer: TimerView,
    pub heartbeat_timer: TimerView,
    pub next_index: Map<NodeId, LogIndex>,
    pub match_index: Map<NodeId, LogIndex>,
    pub commit_index: LogIndex,
    pub last_applied: LogIndex,
    pub cluster_nodes: Seq<NodeId>,
    pub votes_received: Set<NodeId>,
    pub current_leader: Option<NodeId>,
    pub pending_requests: Map<LogIndex, PendingRequestView>,
}

impl View for RaftNode {
    type V = RaftNodeView;

    closed spec fn view(&self) -> RaftNodeView {
        RaftNodeView {
            node_id: self.node_id,
            term: self.term,
            state: self.state,
            voted_for: self.voted_for,
            log: self.log@,
            election_timer: self.election_timer@,
            heartbeat_timer: self.heartbeat_timer@,
            next_index: self.next_index@,
            match_index: self.match_index@,
            commit_index: self.commit_index,
            last_applied: self.last_applied,
            cluster_nodes: self.cluster_nodes@,
            votes_received: self.votes_received@,
            current_leader: self.current_leader,
            pending_requests: self.pending_requests@.map_values(|p: PendingRequest| p@),
        }
    }
}

/// What an event does to a timer.
pub enum TimerStep {
    Keep,
    Reset,
    Start,
    Stop,
}

/// Whether `next` is `prev` after `step`.
pub open spec fn timer_moves(prev: TimerView, next: TimerView, step: TimerStep) -> bool {
    match step {
        TimerStep::Keep => next == prev,
        TimerStep::Reset => prev.reset_to(next),
        TimerStep::Start => next == prev.started_from(),
        TimerStep::Stop => next == prev.stopped(),
    }
}

/// The outcome of an event: the node's new fields apart from its timers,
/// what happens to each timer, and the actions asked for or the error.
pub struct Step {
    pub node: RaftNodeView,
    pub election: TimerStep,
    pub heartbeat: TimerStep,
    pub result: Result<Seq<ActionView>, Seq<char>>,
}

/// Whether the node went from `prev` to `next` as `step` says.
pub open spec fn moves_to(prev: RaftNodeView, next: RaftNodeView, step: Step) -> bool {
    &&& next == RaftNodeView {
        election_timer: next.election_timer,
        heartbeat_timer: next.heartbeat_timer,
        ..step.node
    }
    &&& timer_moves(prev.election_timer, next.election_timer, step.election)
    &&& timer_moves(prev.heartbeat_timer, next.heartbeat_timer, step.heartbeat)
}

/// The nodes of `cluster` other than `me`, in order.
pub open spec fn peers_of(cluster: Seq<NodeId>, me: NodeId) -> Seq<NodeId>
    decreases cluster.len(),
{
    if cluster.len() == 0 {
        Seq::empty()
    } else {
        let init = peers_of(cluster.drop_last(), me);
        if cluster.last() != me {
            init.push(cluster.last())
        } else {
            init
        }
    }
}

/// Sending `m` to each node of `cluster` other than `me`, in order.
pub open spec fn sends_to_peers(cluster: Seq<NodeId>, me: NodeId, m: RaftMessageView) -> Seq<
    ActionView,
> {
    peers_of(cluster, me).map_values(|n: NodeId| ActionView::Send(n, m))
}

/// `m` with each node of `nodes` mapped to `val`.
pub open spec fn set_all(m: Map<NodeId, LogIndex>, nodes: Seq<NodeId>, val: LogIndex) -> Map<
    NodeId,
    LogIndex,
>
    decreases nodes.len(),
{
    if nodes.len() == 0 {
        m
    } else {
        set_all(m, nodes.drop_last(), val).insert(nodes.last(), val)
    }
}

/// The node after stepping down to follower in term `t`: a higher term is
/// adopted and clears the vote; the role becomes follower, votes and known
/// leader are forgotten. The election timer is reset and the heartbeat
/// timer stopped.
pub open spec fn followed(v: RaftNodeView, t: Term) -> RaftNodeView {
    RaftNodeView {
        term: if t > v.term {
            t
        } else {
            v.term
        },
        voted_for: if t > v.term {
            None
        } else {
            v.voted_for
        },
        state: NodeState::Follower,
        votes_received: Set::empty(),
        current_leader: None,
        ..v
    }
}

/// The node after standing for election: next term, candidate, voting for
/// itself and counting that vote. The election timer is reset and the
/// heartbeat timer stopped.
pub open spec fn stood(v: RaftNodeView) -> RaftNodeView {
    RaftNodeView {
        term: (v.term + 1) as Term,
        state: NodeState::Candidate,
        voted_for: Some(v.node_id),
        current_leader: None,
        votes_received: set![v.node_id],
        ..v
    }
}

/// The node after winning an election: leader, known as leader, and each
/// cluster node is to be sent from the entry after the last one and has
/// matched nothing. The heartbeat timer is started, the election timer
/// stopped.
pub open spec fn led(v: RaftNodeView) -> RaftNodeView {
    RaftNodeView {
        state: NodeState::Leader,
        current_leader: Some(v.node_id),
        next_index: set_all(v.next_index, v.cluster_nodes, (v.log.last_index + 1) as LogIndex),
        match_index: set_all(v.match_index, v.cluster_nodes, 0),
        ..v
    }
}


/// The value of the outcome of an event handler.
pub open spec fn result_view(r: Result<Vec<Action>, String>) -> Result<Seq<ActionView>, Seq<char>> {
    match r {
        Ok(acts) => Ok(actions_view(acts@)),
        Err(e) => Err(e@),
    }
}

/// The vote request that `v` sends as a candidate: its term, its id, and the
/// index and term of its last entry (term 0 where there is none).
pub open spec fn vote_request(v: RaftNodeView) -> RequestVote {
    RequestVote {
        term: v.term,
        candidate_id: v.node_id,
        last_log_index: v.log.last_index,
        last_log_term: v.log.term_or_zero(v.log.last_index),
    }
}

/// An election timeout: the node stands for election and asks each other
/// cluster node for its vote.
pub open spec fn election_step(v: RaftNodeView) -> Step {
    let c = stood(v);
    Step {
        node: c,
        election: TimerStep::Reset,
        heartbeat: TimerStep::Stop,
        result: Ok(
            sends_to_peers(c.cluster_nodes, c.node_id, RaftMessageView::RequestVote(vote_request(c))),
        ),
    }
}

/// The heartbeat of leader `v`: an `AppendEntries` of its term with no
/// entries, previous index and term 0, and its commit index.
pub open spec fn heartbeat_message(v: RaftNodeView) -> AppendEntriesView {
    AppendEntriesView {
        term: v.term,
        leader_id: v.node_id,
        prev_log_index: 0,
        prev_log_term: 0,
        entries: Seq::empty(),
        leader_commit: v.commit_index,
    }
}

/// A heartbeat timeout: a leader broadcasts a heartbeat and then resets its
/// heartbeat timer; any other node does nothing.
pub open spec fn heartbeat_step(v: RaftNodeView) -> Step {
    Step {
        node: v,
        election: TimerStep::Keep,
        heartbeat: TimerStep::Keep,
        result: Ok(
            if v.state != NodeState::Leader {
                Seq::empty()
            } else {
                seq![
                    ActionView::Broadcast(RaftMessageView::AppendEntries(heartbeat_message(v))),
                    ActionView::ResetHeartbeatTimer,
                ]
            },
        ),
    }
}

/// The expiry of a timer of kind `t`.
pub open spec fn timer_expiry_step(v: RaftNodeView, t: TimerType) -> Step {
    match t {
        TimerType::Election => election_step(v),
        TimerType::Heartbeat => heartbeat_step(v),
    }
}

/// Whether a candidate whose last entry has `last_log_term` and
/// `last_log_index` is at least as up to date as log `log`.
pub open spec fn log_up_to_date(log: LogView, last_log_term: Term, last_log_index: LogIndex) -> bool {
    let last = log.last_index;
    let last_term = log.term_or_zero(last);
    last_log_term > last_term || (last_log_term == last_term && last_log_index >= last)
}

/// The vote that request `rv` finds: none where its term is at least the
/// node's, the node's own vote otherwise.
pub open spec fn free_vote(v: RaftNodeView, rv: RequestVote) -> Option<NodeId> {
    if rv.term >= v.term {
        None
    } else {
        v.voted_for
    }
}

/// Whether request `rv` is granted: the vote it finds is free or already the
/// candidate's, and the candidate's log is at least as up to date.
pub open spec fn vote_granted(v: RaftNodeView, rv: RequestVote) -> bool {
    let fv = free_vote(v, rv);
    (fv is None || fv == Some(rv.candidate_id)) && log_up_to_date(
        v.log,
        rv.last_log_term,
        rv.last_log_index,
    )
}

/// A vote request `rv`. A request of a term at least the node's makes it a
/// follower of that term, and the vote is then considered free. The vote
/// is granted where it is free or already given to the candidate, and the
/// candidate's log is at least as up to date; granting resets the
/// election timer. The term becomes the larger of the node's and the
/// request's. The recorded vote becomes the candidate when granted, except
/// that a higher term clears it where it already named that candidate; a
/// refused request of a term at least the node's leaves no vote, any other
/// keeps the old one. The node answers the candidate.
pub open spec fn request_vote_step(v: RaftNodeView, rv: RequestVote) -> Step {
    let stepped = rv.term >= v.term;
    let grant = vote_granted(v, rv);
    let base = if stepped {
        followed(v, rv.term)
    } else {
        v
    };
    Step {
        node: RaftNodeView {
            term: if rv.term >= v.term {
                rv.term
            } else {
                v.term
            },
            voted_for: if grant {
                if v.voted_for == Some(rv.candidate_id) && rv.term > v.term {
                    None
                } else {
                    Some(rv.candidate_id)
                }
            } else if stepped {
                None
            } else {
                v.voted_for
            },
            ..base
        },
        election: if stepped || grant {
            TimerStep::Reset
        } else {
            TimerStep::Keep
        },
        heartbeat: if stepped {
            TimerStep::Stop
        } else {
            TimerStep::Keep
        },
        result: Ok(
            seq![
                ActionView::Send(
                    rv.candidate_id,
                    RaftMessageView::RequestVoteResponse(
                        RequestVoteResponse {
                            term: if stepped {
                                rv.term
                            } else {
                                v.term
                            },
                            vote_granted: grant,
                            voter_id: v.node_id,
                        },
                    ),
                ),
            ],
        ),
    }
}

/// The number of votes that wins an election in `cluster`: a majority.
pub open spec fn majority(cluster: Seq<NodeId>) -> nat {
    cluster.len() / 2 + 1
}

/// The votes of `v` after `rvr` is counted.
pub open spec fn counted(v: RaftNodeView, rvr: RequestVoteResponse) -> RaftNodeView {
    RaftNodeView {
        votes_received: if rvr.vote_granted {
            v.votes_received.insert(rvr.voter_id)
        } else {
            v.votes_received
        },
        ..v
    }
}

/// Whether `rvr` makes candidate `v` leader.
pub open spec fn vote_response_elects(v: RaftNodeView, rvr: RequestVoteResponse) -> bool {
    &&& v.state == NodeState::Candidate
    &&& rvr.term == v.term
    &&& counted(v, rvr).votes_received.len() >= majority(v.cluster_nodes)
}

/// A vote response `rvr`. Only a candidate takes it into account. A higher
/// term makes it a follower of that term; a lower term is ignored. Otherwise
/// a granted vote is counted, and a majority of votes makes it leader.
pub open spec fn vote_response_step(v: RaftNodeView, rvr: RequestVoteResponse) -> Step {
    if v.state != NodeState::Candidate || rvr.term < v.term {
        Step { node: v, election: TimerStep::Keep, heartbeat: TimerStep::Keep, result: Ok(Seq::empty()) }
    } else if rvr.term > v.term {
        Step {
            node: followed(v, rvr.term),
            election: TimerStep::Reset,
            heartbeat: TimerStep::Stop,
            result: Ok(Seq::empty()),
        }
    } else if vote_response_elects(v, rvr) {
        Step {
            node: led(counted(v, rvr)),
            election: TimerStep::Stop,
            heartbeat: TimerStep::Start,
            result: Ok(Seq::empty()),
        }
    } else {
        Step {
            node: counted(v, rvr),
            election: TimerStep::Keep,
            heartbeat: TimerStep::Keep,
            result: Ok(Seq::empty()),
        }
    }
}

/// Whether `es` can be appended one by one after last index `last`: entry
/// `i` has index `last + 1 + i`, and no index passes `u64::MAX`.
pub open spec fn entries_follow(last: LogIndex, es: Seq<LogEntryView>) -> bool {
    &&& last + es.len() <= u64::MAX
    &&& forall|i: int| 0 <= i < es.len() ==> #[trigger] es[i].index == last + 1 + i
}

/// `log` after appending `es`, which follow its last index.
pub open spec fn appended_all(log: LogView, es: Seq<LogEntryView>) -> LogView {
    LogView { entries: log.entries + es, last_index: (log.last_index + es.len()) as LogIndex }
}

/// Whether `ae`, of the node's own term, is consistent with the node's log:
/// its previous index is within the log and, past 0, has the same term
/// there.
pub open spec fn append_entries_matches(v: RaftNodeView, ae: AppendEntriesView) -> bool {
    &&& ae.term == v.term
    &&& v.log.last_index >= ae.prev_log_index
    &&& !(ae.prev_log_index > 0 && v.log.term_or_zero(ae.prev_log_index) != ae.prev_log_term)
}

/// An `AppendEntries` `ae`. One of a lower term is ignored; one of a higher
/// term makes the node a follower of that term. One of the node's term
/// resets the election timer; it is then ignored where its previous index
/// is past the log, refused where the term there differs, and otherwise
/// its entries are appended, the commit index becomes the smaller of the
/// leader's and the new last index, and the leader is told of the success.
pub open spec fn append_entries_step(v: RaftNodeView, ae: AppendEntriesView) -> Step {
    let answer = |ok: bool|
        seq![
            ActionView::Send(
                ae.leader_id,
                RaftMessageView::AppendEntriesResponse(
                    AppendEntriesResponse { term: v.term, success: ok, follower_id: v.node_id },
                ),
            ),
        ];
    if ae.term < v.term {
        Step { node: v, election: TimerStep::Keep, heartbeat: TimerStep::Keep, result: Ok(Seq::empty()) }
    } else if ae.term > v.term {
        Step {
            node: followed(v, ae.term),
            election: TimerStep::Reset,
            heartbeat: TimerStep::Stop,
            result: Ok(Seq::empty()),
        }
    } else if v.log.last_index < ae.prev_log_index {
        Step { node: v, election: TimerStep::Reset, heartbeat: TimerStep::Keep, result: Ok(Seq::empty()) }
    } else if ae.prev_log_index > 0 && v.log.term_or_zero(ae.prev_log_index) != ae.prev_log_term {
        Step { node: v, election: TimerStep::Reset, heartbeat: TimerStep::Keep, result: Ok(answer(false)) }
    } else {
        let log = appended_all(v.log, ae.entries);
        Step {
            node: RaftNodeView {
                log,
                commit_index: if ae.leader_commit <= log.last_index {
                    ae.leader_commit
                } else {
                    log.last_index
                },
                ..v
            },
            election: TimerStep::Reset,
            heartbeat: TimerStep::Keep,
            result: Ok(answer(true)),
        }
    }
}

/// The text of the result that a committed command is answered with.
pub open spec fn committed_text() -> Seq<char> {
    "Command committed"@
}

/// The answers owed to the clients of the entries after `from` up to
/// `to`, in order.
pub open spec fn commit_responses(from: LogIndex, to: LogIndex) -> Seq<ActionView> {
    Seq::new(
        (to - from) as nat,
        |i: int|
            ActionView::RespondToClient {
                log_index: (from + 1 + i) as LogIndex,
                success: true,
                result: Some(committed_text()),
                error: None,
            },
    )
}

/// A leader's attempt to commit, where `x` is the middle value of its
/// sorted match indices: an index past 0 and past the commit index, whose
/// entry has the leader's term, becomes the commit index, and the clients
/// of the newly committed entries are answered.
pub open spec fn commit_step(v: RaftNodeView, x: LogIndex) -> (RaftNodeView, Seq<ActionView>) {
    if x > 0 && v.log.term_or_zero(x) == v.term && x > v.commit_index {
        (RaftNodeView { commit_index: x, ..v }, commit_responses(v.commit_index, x))
    } else {
        (v, Seq::empty())
    }
}

/// The match index known for `f`, 0 where none is.
pub open spec fn known_match(v: RaftNodeView, f: NodeId) -> LogIndex {
    if v.match_index.contains_key(f) {
        v.match_index[f]
    } else {
        0
    }
}

/// The next index known for `f`, 1 where none is.
pub open spec fn known_next(v: RaftNodeView, f: NodeId) -> LogIndex {
    if v.next_index.contains_key(f) {
        v.next_index[f]
    } else {
        1
    }
}

/// The leader after follower `f` acknowledged: its match index grows by
/// one and its next index is one past that.
pub open spec fn acknowledged(v: RaftNodeView, f: NodeId) -> RaftNodeView {
    let m = known_match(v, f) + 1;
    RaftNodeView {
        match_index: v.match_index.insert(f, m as LogIndex),
        next_index: v.next_index.insert(f, (m + 1) as LogIndex),
        ..v
    }
}

/// Whether `aer` is a success that leader `v` counts.
pub open spec fn append_response_counts(v: RaftNodeView, aer: AppendEntriesResponse) -> bool {
    &&& v.state == NodeState::Leader
    &&& aer.term == v.term
    &&& aer.success
}

/// An `AppendEntriesResponse` `aer`, where `x` stands for the middle value of
/// the sorted match indices after it is counted. Only a leader takes it into
/// account. A higher term makes it a follower of that term; a lower one is
/// ignored. A success moves the follower's indices on and tries to commit;
/// a refusal moves its next index one back, down to 1.
pub open spec fn append_response_step(v: RaftNodeView, aer: AppendEntriesResponse, x: LogIndex) -> Step {
    let f = aer.follower_id;
    if v.state != NodeState::Leader || aer.term < v.term {
        Step { node: v, election: TimerStep::Keep, heartbeat: TimerStep::Keep, result: Ok(Seq::empty()) }
    } else if aer.term > v.term {
        Step {
            node: followed(v, aer.term),
            election: TimerStep::Reset,
            heartbeat: TimerStep::Stop,
            result: Ok(Seq::empty()),
        }
    } else if aer.success {
        let (w, acts) = commit_step(acknowledged(v, f), x);
        Step { node: w, election: TimerStep::Keep, heartbeat: TimerStep::Keep, result: Ok(acts) }
    } else {
        let n = known_next(v, f);
        Step {
            node: RaftNodeView {
                next_index: if n > 1 {
                    v.next_index.insert(f, (n - 1) as LogIndex)
                } else {
                    v.next_index
                },
                ..v
            },
            election: TimerStep::Keep,
            heartbeat: TimerStep::Keep,
            result: Ok(Seq::empty()),
        }
    }
}

/// Whether `x` is what the leader's commit attempt after `aer` finds as the
/// middle match index, where `aer` is a counted success.
pub open spec fn commit_candidate(v: RaftNodeView, aer: AppendEntriesResponse, x: LogIndex) -> bool {
    append_response_counts(v, aer) ==> is_middle_value(
        acknowledged(v, aer.follower_id).match_index,
        x,
    )
}

/// The `AppendEntries` that leader `v` sends to replicate entry `e` at
/// `idx`: the previous index, the term there (0 for the first entry), and
/// its commit index.
pub open spec fn replication_message(v: RaftNodeView, idx: LogIndex, e: LogEntryView) -> AppendEntriesView {
    AppendEntriesView {
        term: v.term,
        leader_id: v.node_id,
        prev_log_index: (idx - 1) as LogIndex,
        prev_log_term: if idx > 1 {
            v.log.term_or_zero((idx - 1) as LogIndex)
        } else {
            0
        },
        entries: seq![e],
        leader_commit: v.commit_index,
    }
}

/// The error of a replication whose entry is missing.
pub open spec fn missing_entry_text(idx: LogIndex) -> Seq<char> {
    "Log entry not found at index "@ + decimal(idx as nat)
}

/// Replicating the entry at `idx` to the other cluster nodes.
pub open spec fn replication(v: RaftNodeView, idx: LogIndex) -> Result<Seq<ActionView>, Seq<char>> {
    match v.log.entry_at(idx) {
        Some(e) => Ok(
            sends_to_peers(
                v.cluster_nodes,
                v.node_id,
                RaftMessageView::AppendEntries(replication_message(v, idx, e)),
            ),
        ),
        None => Err(missing_entry_text(idx)),
    }
}

/// Leader `v` after accepting command `cmd` under request id `id`: the
/// command is appended at the next index in the leader's term, and is
/// pending under that index on behalf of the leader itself.
pub open spec fn accepted(v: RaftNodeView, cmd: Seq<char>, id: uuid::Uuid) -> RaftNodeView {
    let idx = (v.log.last_index + 1) as LogIndex;
    RaftNodeView {
        log: v.log.appended(LogEntryView { term: v.term, index: idx, command: cmd }),
        pending_requests: v.pending_requests.insert(
            idx,
            PendingRequestView { request_id: id, client_id: v.node_id, command: cmd },
        ),
        ..v
    }
}

/// The error of a follower that knows no leader.
pub open spec fn no_leader_text() -> Seq<char> {
    "No leader found"@
}

/// A client command `cmd`, where `id` stands for the random request id that
/// the node draws. A leader appends it and replicates it; a follower
/// forwards it to the leader it knows, and fails where it knows none; a
/// candidate refuses it.
pub open spec fn client_command_step(v: RaftNodeView, cmd: Seq<char>, id: uuid::Uuid) -> Step {
    match v.state {
        NodeState::Leader => {
            let w = accepted(v, cmd, id);
            Step {
                node: w,
                election: TimerStep::Keep,
                heartbeat: TimerStep::Keep,
                result: replication(w, (v.log.last_index + 1) as LogIndex),
            }
        },
        NodeState::Follower => Step {
            node: v,
            election: TimerStep::Keep,
            heartbeat: TimerStep::Keep,
            result: match v.current_leader {
                Some(l) => Ok(
                    seq![
                        ActionView::Send(
                            l,
                            RaftMessageView::ClientCommand(
                                ClientCommandView { command: cmd, client_id: v.node_id, request_id: id },
                            ),
                        ),
                    ],
                ),
                None => Err(no_leader_text()),
            },
        },
        NodeState::Candidate => Step {
            node: v,
            election: TimerStep::Keep,
            heartbeat: TimerStep::Keep,
            result: Ok(seq![ActionView::RejectCommand(cmd)]),
        },
    }
}

/// Whether a client command can be handled without overflow: a leader
/// needs room after its last index.
pub open spec fn client_command_allowed(v: RaftNodeView) -> bool {
    v.state == NodeState::Leader ==> v.log.last_index < u64::MAX
}

/// The value of an event.
pub enum RaftEventView {
    TimerExpired(TimerType),
    Message(RaftMessageView),
    ClientCommand(Seq<char>),
}

impl View for RaftEvent {
    type V = RaftEventView;

    open spec fn view(&self) -> RaftEventView {
        match self {
            RaftEvent::TimerExpired(t) => RaftEventView::TimerExpired(*t),
            RaftEvent::Message(m) => RaftEventView::Message(m@),
            RaftEvent::ClientCommand(c) => RaftEventView::ClientCommand(c@),
        }
    }
}

/// A message `m`, where `id` stands for a request id the node may draw and
/// `x` for the middle match index a leader may compute.
pub open spec fn message_step(v: RaftNodeView, m: RaftMessageView, id: uuid::Uuid, x: LogIndex) -> Step {
    match m {
        RaftMessageView::RequestVote(rv) => request_vote_step(v, rv),
        RaftMessageView::RequestVoteResponse(rvr) => vote_response_step(v, rvr),
        RaftMessageView::AppendEntries(ae) => append_entries_step(v, ae),
        RaftMessageView::AppendEntriesResponse(aer) => append_response_step(v, aer, x),
        RaftMessageView::ClientCommand(c) => client_command_step(v, c.command, id),
        RaftMessageView::ClientResponse(_) => Step {
            node: v,
            election: TimerStep::Keep,
            heartbeat: TimerStep::Keep,
            result: Ok(Seq::empty()),
        },
    }
}

/// Whether `x` is the middle match index that handling `m` computes, where
/// it computes one.
pub open spec fn message_candidate(v: RaftNodeView, m: RaftMessageView, x: LogIndex) -> bool {
    m matches RaftMessageView::AppendEntriesResponse(aer) ==> commit_candidate(v, aer, x)
}

/// Whether `m` can be handled without overflow or a failed append.
pub open spec fn message_allowed(v: RaftNodeView, m: RaftMessageView) -> bool {
    match m {
        RaftMessageView::RequestVoteResponse(rvr) => vote_response_elects(v, rvr)
            && v.cluster_nodes.len() > 0 ==> v.log.last_index < u64::MAX,
        RaftMessageView::AppendEntries(ae) => append_entries_matches(v, ae) ==> entries_follow(
            v.log.last_index,
            ae.entries,
        ),
        RaftMessageView::AppendEntriesResponse(aer) => append_response_counts(v, aer)
            ==> known_match(v, aer.follower_id) < u64::MAX - 1,
        RaftMessageView::ClientCommand(_) => client_command_allowed(v),
        _ => true,
    }
}

/// An event.
pub open spec fn event_step(v: RaftNodeView, e: RaftEventView, id: uuid::Uuid, x: LogIndex) -> Step {
    match e {
        RaftEventView::TimerExpired(t) => timer_expiry_step(v, t),
        RaftEventView::Message(m) => message_step(v, m, id, x),
        RaftEventView::ClientCommand(c) => client_command_step(v, c, id),
    }
}

/// Whether `x` is the middle match index that handling `e` computes, where
/// it computes one.
pub open spec fn event_candidate(v: RaftNodeView, e: RaftEventView, x: LogIndex) -> bool {
    e matches RaftEventView::Message(m) ==> message_candidate(v, m, x)
}

/// Whether `e` can be handled without an arithmetic overflow or a refused
/// append; a runtime must not hand the node any other event.
pub open spec fn event_allowed(v: RaftNodeView, e: RaftEventView) -> bool {
    match e {
        RaftEventView::TimerExpired(t) => t == TimerType::Election ==> v.term < u64::MAX,
        RaftEventView::Message(m) => message_allowed(v, m),
        RaftEventView::ClientCommand(_) => client_command_allowed(v),
    }
}

impl RaftNode {
    /// A follower in term 0 with `log`, whose election timer runs, and which
    /// knows each node of `cluster_nodes` to be sent from the entry after the
    /// last and to have matched nothing.
    pub fn new(node_id: NodeId, log: Log, cluster_nodes: Vec<NodeId>) -> (node: Self)
        requires
            cluster_nodes@.len() > 0 ==> log@.last_index < u64::MAX,
        ensures
            node@.node_id == node_id,
            node@.term == 0,
            node@.state == NodeState::Follower,
            node@.voted_for is None,
            node@.log == log@,
            node@.next_index == set_all(
                Map::empty(),
                cluster_nodes@,
                (log@.last_index + 1) as LogIndex,
            ),
            node@.match_index == set_all(Map::empty(), cluster_nodes@, 0),
            node@.commit_index == 0,
            node@.last_applied == 0,
            node@.cluster_nodes == cluster_nodes@,
            node@.votes_received == Set::<NodeId>::empty(),
            node@.current_leader is None,
            node@.pending_requests == Map::<LogIndex, PendingRequestView>::empty(),
            node@.election_timer.timer_type == TimerType::Election,
            node@.election_timer.is_running,
            node@.election_timer.started,
            crate::timer::is_random_election_timeout(node@.election_timer.election_timeout),
            node@.heartbeat_timer == crate::timer::fresh_heartbeat_timer(),
            log@.well_formed() ==> node_invariant(node@),
    {
        let mut election_timer = Timer::new_election_timer();
        let heartbeat_timer = Timer::new_heartbeat_timer();
        let last_log_index = log.last_index();
        let mut next_index: HashMap<NodeId, LogIndex> = HashMap::new();
        let mut match_index: HashMap<NodeId, LogIndex> = HashMap::new();
        let next = if cluster_nodes.len() == 0 {
            0
        } else {
            last_log_index + 1
        };
        set_all_exec(&mut next_index, &cluster_nodes, next);
        set_all_exec(&mut match_index, &cluster_nodes, 0);
        assert(next_index@ == set_all(Map::empty(), cluster_nodes@, (log@.last_index + 1) as LogIndex));
        election_timer.start();
        let node = Self {
            node_id,
            term: 0,
            state: NodeState::Follower,
            voted_for: None,
            log,
            election_timer,
            heartbeat_timer,
            next_index,
            match_index,
            commit_index: 0,
            last_applied: 0,
            cluster_nodes,
            votes_received: HashSet::new(),
            current_leader: None,
            pending_requests: HashMap::new(),
        };
        assert(node@.pending_requests =~= Map::<LogIndex, PendingRequestView>::empty());
        node
    }

    fn become_follower(&mut self, new_term: Term)
        ensures
            moves_to(
                old(self)@,
                final(self)@,
                Step {
                    node: followed(old(self)@, new_term),
                    election: TimerStep::Reset,
                    heartbeat: TimerStep::Stop,
                    result: Ok(Seq::empty()),
                },
            ),
    {
        if new_term > self.term {
            self.term = new_term;
            self.voted_for = None;
        }
        self.state = NodeState::Follower;
        self.election_timer.reset();
        self.votes_received.clear();
        self.current_leader = None;
        self.heartbeat_timer.stop();
    }

    fn become_candidate(&mut self)
        requires
            old(self)@.term < u64::MAX,
        ensures
            moves_to(
                old(self)@,
                final(self)@,
                Step {
                    node: stood(old(self)@),
                    election: TimerStep::Reset,
                    heartbeat: TimerStep::Stop,
                    result: Ok(Seq::empty()),
                },
            ),
    {
        self.term = self.term + 1;
        self.state = NodeState::Candidate;
        self.voted_for = Some(self.node_id);
        self.current_leader = None;
        self.votes_received.clear();
        self.votes_received.insert(self.node_id);
        self.election_timer.reset();
        self.heartbeat_timer.stop();
        assert(self.votes_received@ =~= set![self.node_id]);
    }

    fn become_leader(&mut self)
        requires
            old(self)@.cluster_nodes.len() > 0 ==> old(self)@.log.last_index < u64::MAX,
        ensures
            moves_to(
                old(self)@,
                final(self)@,
                Step {
                    node: led(old(self)@),
                    election: TimerStep::Stop,
                    heartbeat: TimerStep::Start,
                    result: Ok(Seq::empty()),
                },
            ),
    {
        self.state = NodeState::Leader;
        self.current_leader = Some(self.node_id);
        let last_log_index = self.log.last_index();
        let next = if self.cluster_nodes.len() == 0 {
            0
        } else {
            last_log_index + 1
        };
        set_all_exec(&mut self.next_index, &self.cluster_nodes, next);
        assert(self@.next_index == set_all(
            old(self)@.next_index,
            old(self)@.cluster_nodes,
            (old(self)@.log.last_index + 1) as LogIndex,
        ));
        set_all_exec(&mut self.match_index, &self.cluster_nodes, 0);
        self.heartbeat_timer.start();
        self.election_timer.stop();
    }

    fn send_to_peers(&self, message: &RaftMessage) -> (acts: Vec<Action>)
        ensures
            actions_view(acts@) == sends_to_peers(self@.cluster_nodes, self@.node_id, message@),
    {
        let mut acts: Vec<Action> = Vec::new();
        let mut i: usize = 0;
        while i < self.cluster_nodes.len()
            invariant
                i <= self.cluster_nodes.len(),
                actions_view(acts@) == sends_to_peers(
                    self@.cluster_nodes.take(i as int),
                    self@.node_id,
                    message@,
                ),
            decreases self.cluster_nodes.len() - i,
        {
            let node = self.cluster_nodes[i];
            let ghost before = acts@;
            let ghost pre = self@.cluster_nodes.take(i as int);
            let ghost post = self@.cluster_nodes.take(i + 1);
            assert(post.drop_last() =~= pre);
            assert(post.last() == node);
            if node != self.node_id {
                acts.push(Action::Send(node, message.duplicate()));
                assert(actions_view(acts@) =~= actions_view(before).push(
                    ActionView::Send(node, message@),
                ));
                assert(sends_to_peers(post, self@.node_id, message@) =~= sends_to_peers(
                    pre,
                    self@.node_id,
                    message@,
                ).push(ActionView::Send(node, message@)));
            } else {
                assert(sends_to_peers(post, self@.node_id, message@) =~= sends_to_peers(
                    pre,
                    self@.node_id,
                    message@,
                ));
            }
            i = i + 1;
        }
        assert(self@.cluster_nodes.take(self.cluster_nodes.len() as int) =~= self@.cluster_nodes);
        acts
    }

    fn request_votes(&self) -> (acts: Vec<Action>)
        ensures
            actions_view(acts@) == sends_to_peers(
                self@.cluster_nodes,
                self@.node_id,
                RaftMessageView::RequestVote(vote_request(self@)),
            ),
    {
        let last_log_index = self.log.last_index();
        let last_log_term = match self.log.get_term(last_log_index) {
            Some(t) => t,
            None => 0,
        };
        let message = RaftMessage::RequestVote(
            RequestVote {
                term: self.term,
                candidate_id: self.node_id,
                last_log_index,
                last_log_term,
            },
        );
        self.send_to_peers(&message)
    }

    fn start_election(&mut self) -> (acts: Vec<Action>)
        requires
            old(self)@.term < u64::MAX,
        ensures
            moves_to(old(self)@, final(self)@, election_step(old(self)@)),
            Ok::<Seq<ActionView>, Seq<char>>(actions_view(acts@)) == election_step(old(self)@).result,
    {
        self.become_candidate();
        self.request_votes()
    }

    fn send_heartbeat(&self) -> (acts: Vec<Action>)
        ensures
            Ok::<Seq<ActionView>, Seq<char>>(actions_view(acts@)) == heartbeat_step(self@).result,
    {
        let mut acts: Vec<Action> = Vec::new();
        if self.state != NodeState::Leader {
            assert(actions_view(acts@) =~= Seq::<ActionView>::empty());
            return acts;
        }
        let message = RaftMessage::AppendEntries(
            AppendEntries {
                term: self.term,
                leader_id: self.node_id,
                prev_log_index: 0,
                prev_log_term: 0,
                entries: Vec::new(),
                leader_commit: self.commit_index,
            },
        );
        acts.push(Action::Broadcast(message));
        acts.push(Action::ResetHeartbeatTimer);
        proof {
            assert(message@ == RaftMessageView::AppendEntries(heartbeat_message(self@))) by {
                assert(crate::log::entry_views(Seq::<LogEntry>::empty()) =~= Seq::<LogEntryView>::empty());
            }
            assert(actions_view(acts@) =~= heartbeat_step(self@).result->Ok_0);
        }
        acts
    }

    /// Handles the expiry of a timer: an election timeout starts an election,
    /// a heartbeat timeout makes a leader send a heartbeat.
    pub fn handle_timer_expired(&mut self, timer_type: TimerType) -> (result: Result<Vec<Action>, String>)
        requires
            timer_type == TimerType::Election ==> old(self)@.term < u64::MAX,
        ensures
            moves_to(old(self)@, final(self)@, timer_expiry_step(old(self)@, timer_type)),
            result_view(result) == timer_expiry_step(old(self)@, timer_type).result,
    {
        match timer_type {
            TimerType::Election => Ok(self.start_election()),
            TimerType::Heartbeat => Ok(self.send_heartbeat()),
        }
    }

    /// Restarts the heartbeat timer of a leader after it sent a heartbeat.
    pub fn reset_heartbeat_timer(&mut self)
        requires
            old(self)@.state == NodeState::Leader,
        ensures
            moves_to(
                old(self)@,
                final(self)@,
                Step {
                    node: old(self)@,
                    election: TimerStep::Keep,
                    heartbeat: TimerStep::Reset,
                    result: Ok(Seq::empty()),
                },
            ),
            node_invariant(old(self)@) ==> node_invariant(final(self)@),
    {
        self.heartbeat_timer.reset();
    }

    /// Handles a vote request and answers the candidate.
    pub fn handle_request_vote(&mut self, rv: RequestVote) -> (result: Result<Vec<Action>, String>)
        ensures
            moves_to(old(self)@, final(self)@, request_vote_step(old(self)@, rv)),
            result_view(result) == request_vote_step(old(self)@, rv).result,
    {
        let current_term = self.term;
        let current_voted_for = self.voted_for;
        let last_log_index = self.log.last_index();
        let last_log_term = match self.log.get_term(last_log_index) {
            Some(t) => t,
            None => 0,
        };
        let mut vote_granted = false;
        let mut new_term = current_term;
        let mut new_voted_for = current_voted_for;
        if rv.term >= current_term {
            new_term = rv.term;
            new_voted_for = None;
            self.become_follower(rv.term);
        }
        let eligible = match new_voted_for {
            None => true,
            Some(c) => c == rv.candidate_id,
        };
        if eligible {
            let log_ok = (rv.last_log_term > last_log_term) || (rv.last_log_term == last_log_term
                && rv.last_log_index >= last_log_index);
            if log_ok {
                new_voted_for = Some(rv.candidate_id);
                vote_granted = true;
                self.election_timer.reset();
            }
        }
        if new_term != current_term {
            self.term = new_term;
        }
        if new_voted_for != current_voted_for {
            self.voted_for = new_voted_for;
        }
        let response = RequestVoteResponse { term: new_term, vote_granted, voter_id: self.node_id };
        let mut acts: Vec<Action> = Vec::new();
        acts.push(Action::Send(rv.candidate_id, RaftMessage::RequestVoteResponse(response)));
        proof {
            assert(actions_view(acts@) =~= request_vote_step(old(self)@, rv).result->Ok_0);
        }
        Ok(acts)
    }

    /// Handles the answer to a vote request.
    pub fn handle_request_vote_response(&mut self, rvr: RequestVoteResponse) -> (result: Result<
        Vec<Action>,
        String,
    >)
        requires
            vote_response_elects(old(self)@, rvr) && old(self)@.cluster_nodes.len() > 0
                ==> old(self)@.log.last_index < u64::MAX,
        ensures
            moves_to(old(self)@, final(self)@, vote_response_step(old(self)@, rvr)),
            result_view(result) == vote_response_step(old(self)@, rvr).result,
    {
        let acts: Vec<Action> = Vec::new();
        assert(actions_view(acts@) =~= Seq::<ActionView>::empty());
        if self.state != NodeState::Candidate {
            return Ok(acts);
        }
        let current_term = self.term;
        if rvr.term > current_term {
            self.become_follower(rvr.term);
            return Ok(acts);
        }
        if rvr.term < current_term {
            return Ok(acts);
        }
        if rvr.vote_granted {
            self.votes_received.insert(rvr.voter_id);
        }
        let votes_count = self.votes_received.len();
        let majority = (self.cluster_nodes.len() / 2) + 1;
        if votes_count >= majority {
            self.become_leader();
        }
        Ok(acts)
    }

    /// Handles an `AppendEntries` from a leader.
    pub fn handle_append_entries(&mut self, ae: AppendEntries) -> (result: Result<Vec<Action>, String>)
        requires
            append_entries_matches(old(self)@, ae@) ==> entries_follow(
                old(self)@.log.last_index,
                ae@.entries,
            ),
        ensures
            moves_to(old(self)@, final(self)@, append_entries_step(old(self)@, ae@)),
            result_view(result) == append_entries_step(old(self)@, ae@).result,
    {
        let mut acts: Vec<Action> = Vec::new();
        assert(actions_view(acts@) =~= Seq::<ActionView>::empty());
        let current_term = self.term;
        if ae.term < current_term {
            return Ok(acts);
        }
        if ae.term > current_term {
            self.become_follower(ae.term);
            return Ok(acts);
        }
        self.election_timer.reset();
        let last_log_index = self.log.last_index();
        if last_log_index < ae.prev_log_index {
            return Ok(acts);
        }
        if ae.prev_log_index > 0 {
            let prev_log_term = match self.log.get_term(ae.prev_log_index) {
                Some(t) => t,
                None => 0,
            };
            if prev_log_term != ae.prev_log_term {
                acts.push(
                    Action::Send(
                        ae.leader_id,
                        RaftMessage::AppendEntriesResponse(
                            AppendEntriesResponse {
                                term: current_term,
                                success: false,
                                follower_id: self.node_id,
                            },
                        ),
                    ),
                );
                proof {
                    assert(actions_view(acts@) =~= append_entries_step(old(self)@, ae@).result->Ok_0);
                }
                return Ok(acts);
            }
        }
        let ghost log0 = self.log@;
        let ghost before_loop = self@;
        let mut i: usize = 0;
        while i < ae.entries.len()
            invariant
                i <= ae.entries.len(),
                entries_follow(log0.last_index, ae@.entries),
                self.log@ == appended_all(log0, ae@.entries.take(i as int)),
                self@ == (RaftNodeView { log: self.log@, ..before_loop }),
                acts@.len() == 0,
            decreases ae.entries.len() - i,
        {
            let entry = ae.entries[i].duplicate();
            assert(ae@.entries[i as int] == entry@);
            assert(ae@.entries.take(i as int).len() == i);
            assert(self.log@.last_index == log0.last_index + i);
            assert(entry@.index == log0.last_index + 1 + i);
            assert(entry.index == self.log.last_index + 1);
            let r = self.log.append(entry);
            assert(r is Ok);
            assert(ae@.entries.take(i + 1) =~= ae@.entries.take(i as int).push(entry@));
            i = i + 1;
        }
        assert(ae@.entries.take(ae.entries.len() as int) =~= ae@.entries);
        let last = self.log.last_index();
        let new_commit_index = if ae.leader_commit <= last {
            ae.leader_commit
        } else {
            last
        };
        self.commit_index = new_commit_index;
        acts.push(
            Action::Send(
                ae.leader_id,
                RaftMessage::AppendEntriesResponse(
                    AppendEntriesResponse { term: current_term, success: true, follower_id: self.node_id },
                ),
            ),
        );
        proof {
            let step = append_entries_step(old(self)@, ae@);
            assert(actions_view(acts@) =~= step.result->Ok_0);
        }
        Ok(acts)
    }

    fn try_commit_entries(&mut self) -> (acts: Vec<Action>)
        requires
            old(self)@.match_index.len() > 0,
        ensures
            exists|x: LogIndex|
                is_middle_value(old(self)@.match_index, x) && final(self)@ == commit_step(
                    old(self)@,
                    x,
                ).0 && actions_view(acts@) == commit_step(old(self)@, x).1,
    {
        let mut acts: Vec<Action> = Vec::new();
        let majority_index = middle_value(&self.match_index);
        if majority_index > 0 {
            let term_at_majority = match self.log.get_term(majority_index) {
                Some(t) => t,
                None => 0,
            };
            if term_at_majority == self.term && majority_index > self.commit_index {
                let old_commit_index = self.commit_index;
                self.commit_index = majority_index;
                let mut i = old_commit_index;
                while i < majority_index
                    invariant
                        old_commit_index <= i <= majority_index,
                        actions_view(acts@) == commit_responses(old_commit_index, i),
                    decreases majority_index - i,
                {
                    i = i + 1;
                    proof {
                        reveal_strlit("Command committed");
                    }
                    let ghost before = acts@;
                    acts.push(
                        Action::RespondToClient {
                            log_index: i,
                            success: true,
                            result: Some(String::from_str("Command committed")),
                            error: None,
                        },
                    );
                    assert(actions_view(acts@) =~= commit_responses(old_commit_index, i)) by {
                        let prev = commit_responses(old_commit_index, (i - 1) as LogIndex);
                        let next = commit_responses(old_commit_index, i);
                        assert(actions_view(before) == prev);
                        assert(next.len() == prev.len() + 1);
                        assert forall|j: int| 0 <= j < prev.len() implies #[trigger] next[j] == prev[j] by {}
                        assert(acts@[acts@.len() - 1]@ == next[next.len() - 1]);
                        assert forall|j: int| 0 <= j < prev.len() implies #[trigger] actions_view(acts@)[j] == actions_view(before)[j] by {
                            assert(acts@[j] == before[j]);
                        }
                    }
                }
                proof {
                    assert(final(self)@ == commit_step(old(self)@, majority_index).0);
                }
                return acts;
            }
        }
        assert(actions_view(acts@) =~= Seq::<ActionView>::empty());
        acts
    }

    /// Handles the answer of a follower to an `AppendEntries`.
    pub fn handle_append_entries_response(&mut self, aer: AppendEntriesResponse) -> (result: Result<
        Vec<Action>,
        String,
    >)
        requires
            append_response_counts(old(self)@, aer) ==> known_match(old(self)@, aer.follower_id)
                < u64::MAX - 1,
        ensures
            exists|x: LogIndex|
                #![trigger append_response_step(old(self)@, aer, x)]
                commit_candidate(old(self)@, aer, x) && moves_to(
                    old(self)@,
                    final(self)@,
                    append_response_step(old(self)@, aer, x),
                ) && result_view(result) == append_response_step(old(self)@, aer, x).result,
    {
        let acts: Vec<Action> = Vec::new();
        assert(actions_view(acts@) =~= Seq::<ActionView>::empty());
        if self.state != NodeState::Leader {
            assert(append_response_step(old(self)@, aer, 0).node == old(self)@);
            return Ok(acts);
        }
        let current_term = self.term;
        if aer.term > current_term {
            self.become_follower(aer.term);
            assert(commit_candidate(old(self)@, aer, 0));
            assert(append_response_step(old(self)@, aer, 0).node == followed(old(self)@, aer.term));
            return Ok(acts);
        }
        if aer.term < current_term {
            assert(append_response_step(old(self)@, aer, 0).node == old(self)@);
            return Ok(acts);
        }
        let follower_id = aer.follower_id;
        if aer.success {
            let current_match = match self.match_index.get(&follower_id) {
                Some(m) => *m,
                None => 0,
            };
            let new_match = current_match + 1;
            self.match_index.insert(follower_id, new_match);
            self.next_index.insert(follower_id, new_match + 1);
            assert(self@ == acknowledged(old(self)@, follower_id));
            assert(self@.match_index.contains_key(follower_id));
            assert(self@.match_index.len() > 0) by {
                assert(self@.match_index.dom().contains(follower_id));
            }
            let ghost mid = self@;
            let acts = self.try_commit_entries();
            proof {
                let x = choose|x: LogIndex|
                    is_middle_value(mid.match_index, x) && self@ == commit_step(mid, x).0
                        && actions_view(acts@) == commit_step(mid, x).1;
                assert(commit_candidate(old(self)@, aer, x));
                assert(append_response_step(old(self)@, aer, x).node == self@);
                assert(result_view(Ok::<Vec<Action>, String>(acts)) == append_response_step(
                    old(self)@,
                    aer,
                    x,
                ).result);
            }
            return Ok(acts);
        } else {
            let current_next = match self.next_index.get(&follower_id) {
                Some(n) => *n,
                None => 1,
            };
            if current_next > 1 {
                self.next_index.insert(follower_id, current_next - 1);
            }
            assert(commit_candidate(old(self)@, aer, 0));
            assert(append_response_step(old(self)@, aer, 0).node == self@);
            return Ok(acts);
        }
    }

    fn replicate_log_entry(&self, log_index: LogIndex) -> (result: Result<Vec<Action>, String>)
        requires
            log_index >= 1,
        ensures
            result_view(result) == replication(self@, log_index),
    {
        let entry = match self.log.get(log_index) {
            Some(e) => e.duplicate(),
            None => {
                proof {
                    reveal_strlit("Log entry not found at index ");
                }
                let mut msg = String::from_str("Log entry not found at index ");
                let digits = crate::text::decimal_string(log_index);
                msg.append(digits.as_str());
                return Err(msg);
            },
        };
        let prev_log_term = if log_index > 1 {
            match self.log.get_term(log_index - 1) {
                Some(t) => t,
                None => 0,
            }
        } else {
            0
        };
        let ghost e = entry@;
        let mut entries: Vec<LogEntry> = Vec::new();
        entries.push(entry);
        let message = RaftMessage::AppendEntries(
            AppendEntries {
                term: self.term,
                leader_id: self.node_id,
                prev_log_index: log_index - 1,
                prev_log_term,
                entries,
                leader_commit: self.commit_index,
            },
        );
        proof {
            assert(crate::log::entry_views(entries@) =~= seq![e]);
            assert(message@ == RaftMessageView::AppendEntries(replication_message(self@, log_index, e)));
        }
        Ok(self.send_to_peers(&message))
    }

    fn process_client_command_as_leader(&mut self, cmd: String) -> (result: Result<Vec<Action>, String>)
        requires
            old(self)@.state == NodeState::Leader,
            old(self)@.log.last_index < u64::MAX,
        ensures
            exists|id: uuid::Uuid|
                #![trigger client_command_step(old(self)@, cmd@, id)]
                moves_to(old(self)@, final(self)@, client_command_step(old(self)@, cmd@, id))
                    && result_view(result) == client_command_step(old(self)@, cmd@, id).result,
    {
        let current_term = self.term;
        let log_index = self.log.last_index() + 1;
        let entry = LogEntry { term: current_term, index: log_index, command: cmd.clone() };
        let appended = self.log.append(entry);
        if let Err(e) = appended {
            proof {
                reveal_strlit("Failed to append log entry: ");
            }
            let mut msg = String::from_str("Failed to append log entry: ");
            msg.append(e.as_str());
            return Err(msg);
        }
        let request_id = new_request_id();
        let pending = PendingRequest { request_id, client_id: self.node_id, command: cmd };
        self.pending_requests.insert(log_index, pending);
        proof {
            assert(self@.pending_requests =~= old(self)@.pending_requests.insert(
                log_index,
                PendingRequestView { request_id, client_id: self.node_id, command: cmd@ },
            ));
            assert(self@ == accepted(old(self)@, cmd@, request_id));
        }
        let result = self.replicate_log_entry(log_index);
        proof {
            assert(result_view(result) == client_command_step(old(self)@, cmd@, request_id).result);
        }
        result
    }

    fn redirect_to_leader(&self, cmd: String) -> (result: Result<Vec<Action>, String>)
        requires
            self@.state == NodeState::Follower,
        ensures
            exists|id: uuid::Uuid|
                #![trigger client_command_step(self@, cmd@, id)]
                result_view(result) == client_command_step(self@, cmd@, id).result,
    {
        match self.current_leader {
            Some(leader_id) => {
                let request_id = new_request_id();
                let mut acts: Vec<Action> = Vec::new();
                acts.push(
                    Action::Send(
                        leader_id,
                        RaftMessage::ClientCommand(
                            ClientCommand { command: cmd, client_id: self.node_id, request_id },
                        ),
                    ),
                );
                proof {
                    assert(actions_view(acts@) =~= client_command_step(self@, cmd@, request_id).result->Ok_0);
                }
                Ok(acts)
            },
            None => {
                proof {
                    reveal_strlit("No leader found");
                }
                let e = String::from_str("No leader found");
                proof {
                    let id = arbitrary::<uuid::Uuid>();
                    assert(result_view(Err::<Vec<Action>, String>(e)) == client_command_step(self@, cmd@, id).result);
                }
                Err(e)
            },
        }
    }

    fn reject_client_command(&self, cmd: String) -> (result: Result<Vec<Action>, String>)
        requires
            self@.state == NodeState::Candidate,
        ensures
            forall|id: uuid::Uuid| result_view(result) == #[trigger] client_command_step(self@, cmd@, id).result,
    {
        let mut acts: Vec<Action> = Vec::new();
        acts.push(Action::RejectCommand(cmd));
        assert(actions_view(acts@) =~= seq![ActionView::RejectCommand(cmd@)]);
        Ok(acts)
    }

    /// Handles a client command according to the node's role.
    pub fn handle_client_command(&mut self, cmd: String) -> (result: Result<Vec<Action>, String>)
        requires
            client_command_allowed(old(self)@),
        ensures
            exists|id: uuid::Uuid|
                #![trigger client_command_step(old(self)@, cmd@, id)]
                moves_to(old(self)@, final(self)@, client_command_step(old(self)@, cmd@, id))
                    && result_view(result) == client_command_step(old(self)@, cmd@, id).result,
    {
        match self.state {
            NodeState::Leader => self.process_client_command_as_leader(cmd),
            NodeState::Follower => {
                let r = self.redirect_to_leader(cmd);
                proof {
                    let id = choose|id: uuid::Uuid| result_view(r) == client_command_step(self@, cmd@, id).result;
                    assert(moves_to(old(self)@, self@, client_command_step(old(self)@, cmd@, id)));
                }
                r
            },
            NodeState::Candidate => {
                let r = self.reject_client_command(cmd);
                proof {
                    let id = arbitrary::<uuid::Uuid>();
                    assert(result_view(r) == client_command_step(self@, cmd@, id).result);
                    assert(moves_to(old(self)@, self@, client_command_step(old(self)@, cmd@, id)));
                }
                r
            },
        }
    }

    /// Takes the request pending at `log_index`, if any, and gives its
    /// client and the response with `success`, `result` and `error`.
    pub fn send_client_response(
        &mut self,
        log_index: LogIndex,
        success: bool,
        result: Option<String>,
        error: Option<String>,
    ) -> (response: Option<(NodeId, RaftMessage)>)
        ensures
            final(self)@ == (RaftNodeView {
                pending_requests: old(self)@.pending_requests.remove(log_index),
                ..old(self)@
            }),
            match response {
                Some((to, m)) => {
                    let p = old(self)@.pending_requests[log_index];
                    &&& old(self)@.pending_requests.contains_key(log_index)
                    &&& to == p.client_id
                    &&& m@ == RaftMessageView::ClientResponse(
                        ClientResponseView {
                            request_id: p.request_id,
                            success,
                            result: opt_text(result),
                            error: opt_text(error),
                        },
                    )
                },
                None => !old(self)@.pending_requests.contains_key(log_index),
            },
            node_invariant(old(self)@) ==> node_invariant(final(self)@),
    {
        let removed = self.pending_requests.remove(&log_index);
        proof {
            assert(self@.pending_requests =~= old(self)@.pending_requests.remove(log_index));
        }
        match removed {
            Some(pending) => {
                let response = ClientResponse {
                    request_id: pending.request_id,
                    success,
                    result,
                    error,
                };
                Some((pending.client_id, RaftMessage::ClientResponse(response)))
            },
            None => None,
        }
    }

    /// Handles a protocol message.
    pub fn handle_message(&mut self, msg: RaftMessage) -> (result: Result<Vec<Action>, String>)
        requires
            message_allowed(old(self)@, msg@),
        ensures
            exists|id: uuid::Uuid, x: LogIndex|
                #![trigger message_step(old(self)@, msg@, id, x)]
                message_candidate(old(self)@, msg@, x) && moves_to(
                    old(self)@,
                    final(self)@,
                    message_step(old(self)@, msg@, id, x),
                ) && result_view(result) == message_step(old(self)@, msg@, id, x).result,
    {
        let ghost v = self@;
        let ghost any_id = arbitrary::<uuid::Uuid>();
        match msg {
            RaftMessage::RequestVote(rv) => {
                let r = self.handle_request_vote(rv);
                assert(message_step(v, msg@, any_id, 0) == request_vote_step(v, rv));
                r
            },
            RaftMessage::RequestVoteResponse(rvr) => {
                let r = self.handle_request_vote_response(rvr);
                assert(message_step(v, msg@, any_id, 0) == vote_response_step(v, rvr));
                r
            },
            RaftMessage::AppendEntries(ae) => {
                let ghost aev = ae@;
                let r = self.handle_append_entries(ae);
                assert(message_step(v, msg@, any_id, 0) == append_entries_step(v, aev));
                r
            },
            RaftMessage::AppendEntriesResponse(aer) => {
                let r = self.handle_append_entries_response(aer);
                proof {
                    let x = choose|x: LogIndex|
                        #![trigger append_response_step(v, aer, x)]
                        commit_candidate(v, aer, x) && moves_to(v, self@, append_response_step(v, aer, x))
                            && result_view(r) == append_response_step(v, aer, x).result;
                    assert(message_step(v, msg@, any_id, x) == append_response_step(v, aer, x));
                }
                r
            },
            RaftMessage::ClientCommand(cmd) => {
                let ghost c = cmd@;
                let r = self.handle_client_command(cmd.command);
                proof {
                    let id = choose|id: uuid::Uuid|
                        #![trigger client_command_step(v, c.command, id)]
                        moves_to(v, self@, client_command_step(v, c.command, id)) && result_view(r)
                            == client_command_step(v, c.command, id).result;
                    assert(message_step(v, msg@, id, 0) == client_command_step(v, c.command, id));
                }
                r
            },
            RaftMessage::ClientResponse(_) => {
                let acts: Vec<Action> = Vec::new();
                assert(actions_view(acts@) =~= Seq::<ActionView>::empty());
                assert(moves_to(v, self@, message_step(v, msg@, any_id, 0)));
                Ok(acts)
            },
        }
    }

    /// Handles an event of the node's loop.
    pub fn handle_event(&mut self, event: RaftEvent) -> (result: Result<Vec<Action>, String>)
        requires
            event_allowed(old(self)@, event@),
        ensures
            exists|id: uuid::Uuid, x: LogIndex|
                #![trigger event_step(old(self)@, event@, id, x)]
                event_candidate(old(self)@, event@, x) && moves_to(
                    old(self)@,
                    final(self)@,
                    event_step(old(self)@, event@, id, x),
                ) && result_view(result) == event_step(old(self)@, event@, id, x).result,
            node_invariant(old(self)@) ==> node_invariant(final(self)@),
            step_keeps(old(self)@, final(self)@),
    {
        let ghost v = self@;
        let ghost ev = event@;
        let result = match event {
            RaftEvent::TimerExpired(t) => {
                let r = self.handle_timer_expired(t);
                assert(event_step(v, ev, arbitrary(), 0) == timer_expiry_step(v, t));
                r
            },
            RaftEvent::Message(msg) => {
                let ghost m = msg@;
                let r = self.handle_message(msg);
                proof {
                    let (id, x) = choose|id: uuid::Uuid, x: LogIndex|
                        #![trigger message_step(v, m, id, x)]
                        message_candidate(v, m, x) && moves_to(v, self@, message_step(v, m, id, x))
                            && result_view(r) == message_step(v, m, id, x).result;
                    assert(event_step(v, ev, id, x) == message_step(v, m, id, x));
                }
                r
            },
            RaftEvent::ClientCommand(cmd) => {
                let ghost c = cmd@;
                let r = self.handle_client_command(cmd);
                proof {
                    let id = choose|id: uuid::Uuid|
                        #![trigger client_command_step(v, c, id)]
                        moves_to(v, self@, client_command_step(v, c, id)) && result_view(r)
                            == client_command_step(v, c, id).result;
                    assert(event_step(v, ev, id, 0) == client_command_step(v, c, id));
                }
                r
            },
        };
        proof {
            let (id, x) = choose|id: uuid::Uuid, x: LogIndex|
                #![trigger event_step(v, ev, id, x)]
                event_candidate(v, ev, x) && moves_to(v, self@, event_step(v, ev, id, x))
                    && result_view(result) == event_step(v, ev, id, x).result;
            lemma_step_keeps(v, self@, ev, id, x);
            if node_invariant(v) {
                lemma_event_keeps_invariant(v, self@, ev, id, x);
            }
        }
        result
    }

    /// Whether `event` can be handled: false exactly where handling it would
    /// overflow or meet a refused append.
    pub fn can_handle(&self, event: &RaftEvent) -> (b: bool)
        ensures
            b == event_allowed(self@, event@),
    {
        match event {
            RaftEvent::TimerExpired(t) => match t {
                TimerType::Election => self.term < u64::MAX,
                TimerType::Heartbeat => true,
            },
            RaftEvent::Message(m) => self.can_handle_message(m),
            RaftEvent::ClientCommand(_) => self.state != NodeState::Leader || self.log.last_index()
                < u64::MAX,
        }
    }

    fn can_handle_message(&self, m: &RaftMessage) -> (b: bool)
        ensures
            b == message_allowed(self@, m@),
    {
        match m {
            RaftMessage::RequestVoteResponse(rvr) => {
                if self.state != NodeState::Candidate || rvr.term != self.term {
                    return true;
                }
                proof {
                    lemma_hash_set_finite(&self.votes_received);
                }
                let mut votes = self.votes_received.len();
                if rvr.vote_granted && !self.votes_received.contains(&rvr.voter_id) {
                    assert(self@.votes_received.insert(rvr.voter_id).len() == votes + 1);
                    if votes == usize::MAX {
                        // more votes than any majority needs
                        let n = self.cluster_nodes.len();
                        assert(self@.cluster_nodes.len() <= usize::MAX);
                        assert(vote_response_elects(self@, *rvr));
                        return n == 0 || self.log.last_index() < u64::MAX;
                    }
                    votes = votes + 1;
                } else {
                    assert(rvr.vote_granted ==> self@.votes_received.insert(rvr.voter_id)
                        =~= self@.votes_received);
                }
                let n = self.cluster_nodes.len();
                let majority = (n / 2) + 1;
                votes < majority || n == 0 || self.log.last_index() < u64::MAX
            },
            RaftMessage::AppendEntries(ae) => {
                let last = self.log.last_index();
                let matches = ae.term == self.term && last >= ae.prev_log_index && !(ae.prev_log_index
                    > 0 && match self.log.get_term(ae.prev_log_index) {
                    Some(t) => t,
                    None => 0,
                } != ae.prev_log_term);
                if !matches {
                    return true;
                }
                assert(append_entries_matches(self@, ae@));
                if ae.entries.len() as u64 > u64::MAX - last {
                    assert(ae@.entries.len() == ae.entries.len());
                    assert(!entries_follow(last, ae@.entries));
                    return false;
                }
                let mut i: usize = 0;
                while i < ae.entries.len()
                    invariant
                        i <= ae.entries.len(),
                        last + ae.entries.len() <= u64::MAX,
                        last == self@.log.last_index,
                        append_entries_matches(self@, ae@),
                        m@ == RaftMessageView::AppendEntries(ae@),
                        forall|j: int| 0 <= j < i ==> #[trigger] ae@.entries[j].index == last + 1 + j,
                    decreases ae.entries.len() - i,
                {
                    if ae.entries[i].index != last + 1 + i as u64 {
                        assert(ae@.entries[i as int] == ae.entries@[i as int]@);
                        assert(ae@.entries[i as int].index != last + 1 + i);
                        assert(!entries_follow(last, ae@.entries));
                        return false;
                    }
                    i = i + 1;
                }
                true
            },
            RaftMessage::AppendEntriesResponse(aer) => {
                if self.state != NodeState::Leader || aer.term != self.term || !aer.success {
                    return true;
                }
                let current_match = match self.match_index.get(&aer.follower_id) {
                    Some(m) => *m,
                    None => 0,
                };
                current_match < u64::MAX - 1
            },
            RaftMessage::ClientCommand(_) => self.state != NodeState::Leader || self.log.last_index()
                < u64::MAX,
            _ => true,
        }
    }

    /// The node's identifier.
    pub fn node_id(&self) -> (id: NodeId)
        ensures
            id == self@.node_id,
    {
        self.node_id
    }

    /// The node's current term.
    pub fn term(&self) -> (t: Term)
        ensures
            t == self@.term,
    {
        self.term
    }

    /// The node's role.
    pub fn state(&self) -> (s: NodeState)
        ensures
            s == self@.state,
    {
        self.state
    }

    /// The candidate the node voted for in its current term, if any.
    pub fn voted_for(&self) -> (c: Option<NodeId>)
        ensures
            c == self@.voted_for,
    {
        self.voted_for
    }

    /// The leader the node knows, if any.
    pub fn current_leader(&self) -> (l: Option<NodeId>)
        ensures
            l == self@.current_leader,
    {
        self.current_leader
    }

    /// The index up to which entries are committed.
    pub fn commit_index(&self) -> (c: LogIndex)
        ensures
            c == self@.commit_index,
    {
        self.commit_index
    }

    /// The node's log.
    pub fn log(&self) -> (l: &Log)
        ensures
            l@ == self@.log,
    {
        &self.log
    }

    /// The number of votes counted in the current election.
    pub fn votes_count(&self) -> (n: usize)
        ensures
            n == self@.votes_received.len(),
    {
        self.votes_received.len()
    }

    /// The match index known for `node`, if any.
    pub fn match_index_of(&self, node: NodeId) -> (m: Option<LogIndex>)
        ensures
            m == (if self@.match_index.contains_key(node) {
                Some(self@.match_index[node])
            } else {
                None::<LogIndex>
            }),
    {
        match self.match_index.get(&node) {
            Some(m) => Some(*m),
            None => None,
        }
    }

    /// The next index known for `node`, if any.
    pub fn next_index_of(&self, node: NodeId) -> (n: Option<LogIndex>)
        ensures
            n == (if self@.next_index.contains_key(node) {
                Some(self@.next_index[node])
            } else {
                None::<LogIndex>
            }),
    {
        match self.next_index.get(&node) {
            Some(n) => Some(*n),
            None => None,
        }
    }

    /// Whether a client request is pending at `log_index`.
    pub fn has_pending_request(&self, log_index: LogIndex) -> (b: bool)
        ensures
            b == self@.pending_requests.contains_key(log_index),
    {
        self.pending_requests.contains_key(&log_index)
    }

    /// The election timer.
    pub fn election_timer(&self) -> (t: &Timer)
        ensures
            t@ == self@.election_timer,
    {
        &self.election_timer
    }

    /// The heartbeat timer.
    pub fn heartbeat_timer(&self) -> (t: &Timer)
        ensures
            t@ == self@.heartbeat_timer,
    {
        &self.heartbeat_timer
    }
}

proof fn lemma_hash_set_finite(s: &HashSet<NodeId>)
    ensures
        s@.finite(),
{
    let keys = spec_hash_keys_iter(s).remaining();
    assert(keys.unref().to_set() == s@);
    vstd::seq_lib::seq_to_set_is_finite(keys.unref());
}

fn set_all_exec(m: &mut HashMap<NodeId, LogIndex>, nodes: &Vec<NodeId>, val: LogIndex)
    ensures
        final(m)@ == set_all(old(m)@, nodes@, val),
{
    let mut i: usize = 0;
    while i < nodes.len()
        invariant
            i <= nodes.len(),
            m@ == set_all(old(m)@, nodes@.take(i as int), val),
        decreases nodes.len() - i,
    {
        assert(nodes@.take(i + 1).drop_last() =~= nodes@.take(i as int));
        m.insert(nodes[i], val);
        i = i + 1;
    }
    assert(nodes@.take(nodes.len() as int) =~= nodes@);
}

} // verus!
