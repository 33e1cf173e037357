use crate::log::LogView;
use crate::messages::RaftMessageView;
use crate::node::{
    appended_all, entries_follow, event_allowed, event_candidate, event_step, majority,
    moves_to, append_entries_matches, log_up_to_date, request_vote_step, vote_granted, ActionView, RaftEventView,
    RaftNodeView, Step, TimerStep, append_entries_step, vote_response_step, append_response_step,
    client_command_step, accepted, replication_message, sends_to_peers, peers_of, election_step,
    heartbeat_step, stood, vote_request,
};
use crate::messages::{AppendEntriesView, RequestVote, RequestVoteResponse, AppendEntriesResponse};
use crate::timer::TimerType;
use crate::types::{NodeState, Term};
use vstd::prelude::*;

verus! {

/// What holds of every node state reached from a new node: its log holds
/// exactly the entries 1 to its last index and the commit index does not
/// pass that; the timers keep their kinds; the heartbeat timer runs exactly
/// while the node leads; a candidate or leader has a term past 0 and has
/// voted for itself; a candidate counts its own vote; a leader knows itself
/// as leader and was elected by a majority of the cluster; every pending
/// client request waits on an entry of the log.
pub open spec fn node_invariant(v: RaftNodeView) -> bool {
    &&& v.log.well_formed()
    &&& v.commit_index <= v.log.last_index
    &&& forall|i: crate::types::LogIndex| #[trigger]
        v.pending_requests.contains_key(i) ==> 1 <= i <= v.log.last_index
    &&& v.election_timer.timer_type == TimerType::Election
    &&& v.heartbeat_timer.timer_type == TimerType::Heartbeat
    &&& v.heartbeat_timer.is_running <==> v.state == NodeState::Leader
    &&& v.state != NodeState::Follower ==> v.voted_for == Some(v.node_id) && v.term >= 1
    &&& v.state == NodeState::Candidate ==> v.votes_received.contains(v.node_id)
    &&& v.state == NodeState::Leader ==> v.current_leader == Some(v.node_id)
        && v.votes_received.len() >= majority(v.cluster_nodes)
}

/// What every step keeps apart from the invariant: the term never goes
/// down, the node's identity and cluster never change, and the log only
/// grows: its entries stay in place and its last index does not go down.
pub open spec fn step_keeps(v: RaftNodeView, w: RaftNodeView) -> bool {
    &&& w.term >= v.term
    &&& w.node_id == v.node_id
    &&& w.cluster_nodes == v.cluster_nodes
    &&& w.log.last_index >= v.log.last_index
    &&& v.log.entries.len() <= w.log.entries.len()
    &&& forall|i: int| 0 <= i < v.log.entries.len() ==> #[trigger] w.log.entries[i] == v.log.entries[i]
}

proof fn lemma_timer_kind(v: RaftNodeView, w: RaftNodeView, s: Step)
    requires
        moves_to(v, w, s),
    ensures
        w.election_timer.timer_type == v.election_timer.timer_type,
        w.heartbeat_timer.timer_type == v.heartbeat_timer.timer_type,
        s.heartbeat matches TimerStep::Keep ==> w.heartbeat_timer.is_running == v.heartbeat_timer.is_running,
        s.heartbeat matches TimerStep::Stop ==> !w.heartbeat_timer.is_running,
        s.heartbeat matches TimerStep::Start ==> w.heartbeat_timer.is_running,
        s.heartbeat matches TimerStep::Reset ==> w.heartbeat_timer.is_running,
{
}

/// Appending entries that follow the last index keeps a log well formed.
pub proof fn lemma_appended_all_well_formed(log: LogView, es: Seq<crate::log::LogEntryView>)
    requires
        log.well_formed(),
        entries_follow(log.last_index, es),
    ensures
        appended_all(log, es).well_formed(),
        appended_all(log, es).last_index == log.last_index + es.len(),
{
    let l2 = appended_all(log, es);
    assert forall|i: int| 0 <= i < l2.entries.len() implies #[trigger] l2.entries[i].index == i + 1 by {
        if i >= log.entries.len() {
            assert(l2.entries[i] == es[i - log.entries.len()]);
        }
    }
}

/// Every event keeps the term from going down, the node's identity and its
/// cluster.
pub proof fn lemma_step_keeps(
    v: RaftNodeView,
    w: RaftNodeView,
    e: RaftEventView,
    id: uuid::Uuid,
    x: crate::types::LogIndex,
)
    requires
        event_allowed(v, e),
        moves_to(v, w, event_step(v, e, id, x)),
    ensures
        step_keeps(v, w),
{
}

/// Every event handled from a state that satisfies the invariant leads to
/// a state that satisfies it, with a term no lower, the same identity and
/// the same cluster.
pub proof fn lemma_event_keeps_invariant(
    v: RaftNodeView,
    w: RaftNodeView,
    e: RaftEventView,
    id: uuid::Uuid,
    x: crate::types::LogIndex,
)
    requires
        node_invariant(v),
        event_allowed(v, e),
        event_candidate(v, e, x),
        moves_to(v, w, event_step(v, e, id, x)),
    ensures
        node_invariant(w),
        step_keeps(v, w),
{
    lemma_timer_kind(v, w, event_step(v, e, id, x));
    match e {
        RaftEventView::TimerExpired(t) => {},
        RaftEventView::Message(m) => {
            match m {
                RaftMessageView::RequestVote(rv) => {},
                RaftMessageView::RequestVoteResponse(rvr) => {},
                RaftMessageView::AppendEntries(ae) => {
                    if append_entries_matches(v, ae) {
                        lemma_appended_all_well_formed(v.log, ae.entries);
                    }
                },
                RaftMessageView::AppendEntriesResponse(aer) => {},
                RaftMessageView::ClientCommand(c) => {},
                RaftMessageView::ClientResponse(_) => {},
            }
        },
        RaftEventView::ClientCommand(c) => {},
    }
}

/// A vote is granted only to a candidate whose last entry is at least as
/// up to date as the node's, and the answer says whether it was.
pub proof fn lemma_vote_needs_up_to_date_log(v: RaftNodeView, rv: crate::messages::RequestVote)
    ensures
        vote_granted(v, rv) ==> log_up_to_date(v.log, rv.last_log_term, rv.last_log_index),
        request_vote_step(v, rv).result == Ok::<Seq<ActionView>, Seq<char>>(
            seq![
                ActionView::Send(
                    rv.candidate_id,
                    RaftMessageView::RequestVoteResponse(
                        crate::messages::RequestVoteResponse {
                            term: if rv.term >= v.term {
                                rv.term
                            } else {
                                v.term
                            },
                            vote_granted: vote_granted(v, rv),
                            voter_id: v.node_id,
                        },
                    ),
                ),
            ],
        ),
{
}

/// An `AppendEntries` of the node's term whose previous index lies in the
/// node's log with the same term there (or is 0) makes the commit index
/// the smaller of the leader's commit index and the new last index, which
/// is the old one plus the number of entries sent: it never passes the
/// leader's.
pub proof fn lemma_follower_commit_follows_leader(v: RaftNodeView, ae: AppendEntriesView)
    requires
        ae.term == v.term,
        ae.prev_log_index <= v.log.last_index,
        ae.prev_log_index == 0 || v.log.term_or_zero(ae.prev_log_index) == ae.prev_log_term,
        v.log.last_index + ae.entries.len() <= u64::MAX,
    ensures
        ({
            let w = append_entries_step(v, ae).node;
            let last = v.log.last_index + ae.entries.len();
            &&& w.log.last_index == last
            &&& w.commit_index == if ae.leader_commit <= last {
                ae.leader_commit as int
            } else {
                last
            }
            &&& w.commit_index <= ae.leader_commit
            &&& w.commit_index <= w.log.last_index
        }),
{
}

/// A vote is granted only to a candidate whose last log term is above the
/// term of the voter's last entry, or equal to it with a last index at
/// least the voter's. With an equal last term and a shorter log, the vote
/// is refused and the candidate is not newly recorded as voted for.
pub proof fn lemma_vote_only_for_logs_as_long(v: RaftNodeView, rv: RequestVote)
    ensures
        ({
            let step = request_vote_step(v, rv);
            let last = v.log.last_index;
            let last_term = v.log.term_or_zero(last);
            let up_to_date = rv.last_log_term > last_term || (rv.last_log_term == last_term
                && rv.last_log_index >= last);
            &&& step.result matches Ok(acts)
            &&& acts.len() == 1
            &&& acts[0] matches ActionView::Send(to, RaftMessageView::RequestVoteResponse(r))
            &&& to == rv.candidate_id
            &&& r.voter_id == v.node_id
            &&& (r.vote_granted ==> up_to_date)
            &&& (!up_to_date ==> !r.vote_granted && (step.node.voted_for == Some(rv.candidate_id)
                ==> v.voted_for == Some(rv.candidate_id) && rv.term < v.term))
            &&& (rv.last_log_term == last_term && rv.last_log_index < last ==> !r.vote_granted)
        }),
{
}

/// A refused vote is not counted: a candidate that gets a refusal of its
/// own term keeps the votes it had, and becomes leader only if those
/// already made a majority of the cluster.
pub proof fn lemma_refusal_not_counted(v: RaftNodeView, rvr: RequestVoteResponse)
    requires
        v.state == NodeState::Candidate,
        rvr.term == v.term,
        !rvr.vote_granted,
    ensures
        ({
            let w = vote_response_step(v, rvr).node;
            &&& w.votes_received == v.votes_received
            &&& w.term == v.term
            &&& (w.state == NodeState::Leader ==> v.votes_received.len() >= v.cluster_nodes.len() / 2
                + 1)
            &&& (v.votes_received.len() < v.cluster_nodes.len() / 2 + 1 ==> w.state
                == NodeState::Candidate)
        }),
{
}

/// A granted vote of the candidate's term adds exactly the voter to the
/// counted votes.
pub proof fn lemma_grant_counted(v: RaftNodeView, rvr: RequestVoteResponse)
    requires
        v.state == NodeState::Candidate,
        rvr.term == v.term,
        rvr.vote_granted,
    ensures
        vote_response_step(v, rvr).node.votes_received == v.votes_received.insert(rvr.voter_id),
        vote_response_step(v, rvr).node.term == v.term,
{
}

/// A leader that hears of a higher term, in any `AppendEntriesResponse`,
/// steps down: its term becomes that term, it is a follower, it holds no
/// vote and knows no leader, and its heartbeat timer stops.
pub proof fn lemma_leader_steps_down_on_higher_term(
    v: RaftNodeView,
    aer: AppendEntriesResponse,
    x: crate::types::LogIndex,
)
    requires
        v.state == NodeState::Leader,
        aer.term > v.term,
    ensures
        ({
            let step = append_response_step(v, aer, x);
            &&& step.node.term == aer.term
            &&& step.node.state == NodeState::Follower
            &&& step.node.voted_for is None
            &&& step.node.current_leader is None
            &&& step.heartbeat matches TimerStep::Stop
            &&& step.result == Ok::<Seq<ActionView>, Seq<char>>(Seq::empty())
        }),
{
}

/// A leader replicates a client command with one `AppendEntries` per other
/// node, each of its term and id, whose previous index is its former last
/// index, whose only entry is the command in its term at the next index,
/// and which carries its current commit index.
pub proof fn lemma_replication_carries_commit(v: RaftNodeView, cmd: Seq<char>, id: uuid::Uuid)
    requires
        v.state == NodeState::Leader,
        v.log.well_formed(),
        v.log.last_index < u64::MAX,
    ensures
        ({
            let step = client_command_step(v, cmd, id);
            &&& step.result is Ok
            &&& forall|i: int|
                0 <= i < step.result->Ok_0.len() ==> (#[trigger] step.result->Ok_0[i] matches ActionView::Send(
                    to,
                    RaftMessageView::AppendEntries(m),
                ) && to != v.node_id && m.leader_commit == v.commit_index && m.term == v.term
                    && m.leader_id == v.node_id && m.prev_log_index == v.log.last_index
                    && m.entries.len() == 1 && m.entries[0].index == v.log.last_index + 1
                    && m.entries[0].term == v.term && m.entries[0].command == cmd)
        }),
{
    let idx = (v.log.last_index + 1) as crate::types::LogIndex;
    let e = crate::log::LogEntryView { term: v.term, index: idx, command: cmd };
    let w = accepted(v, cmd, id);
    assert(w.log.entries[idx - 1] == e);
    assert(w.log.entry_at(idx) == Some(e));
    let m = RaftMessageView::AppendEntries(replication_message(w, idx, e));
    let acts = sends_to_peers(w.cluster_nodes, w.node_id, m);
    lemma_peers_exclude(w.cluster_nodes, w.node_id);
    assert(client_command_step(v, cmd, id).result == Ok::<Seq<ActionView>, Seq<char>>(acts));
    assert forall|i: int| 0 <= i < acts.len() implies (#[trigger] acts[i] matches ActionView::Send(
        to,
        RaftMessageView::AppendEntries(mm),
    ) && to != v.node_id && mm.leader_commit == v.commit_index && mm.term == v.term
        && mm.leader_id == v.node_id && mm.prev_log_index == v.log.last_index
        && mm.entries.len() == 1 && mm.entries[0].index == v.log.last_index + 1
        && mm.entries[0].term == v.term && mm.entries[0].command == cmd) by {
        assert(acts[i] == ActionView::Send(peers_of(w.cluster_nodes, w.node_id)[i], m));
    }
}

/// The peers of `me` in `cluster` are exactly its other nodes.
pub proof fn lemma_peers_exclude(cluster: Seq<crate::types::NodeId>, me: crate::types::NodeId)
    ensures
        forall|i: int| 0 <= i < peers_of(cluster, me).len() ==> #[trigger] peers_of(cluster, me)[i] != me,
        forall|i: int|
            0 <= i < peers_of(cluster, me).len() ==> cluster.contains(#[trigger] peers_of(cluster, me)[i]),
        forall|n: crate::types::NodeId|
            cluster.contains(n) && n != me ==> #[trigger] peers_of(cluster, me).contains(n),
    decreases cluster.len(),
{
    if cluster.len() > 0 {
        let c0 = cluster.drop_last();
        lemma_peers_exclude(c0, me);
        let init = peers_of(c0, me);
        let all = peers_of(cluster, me);
        assert forall|i: int| 0 <= i < all.len() implies #[trigger] all[i] != me && cluster.contains(all[i]) by {
            if i < init.len() {
                assert(all[i] == init[i]);
                assert(c0.contains(init[i]));
                let j = choose|j: int| 0 <= j < c0.len() && c0[j] == init[i];
                assert(cluster[j] == init[i]);
            } else {
                assert(all[i] == cluster.last());
                assert(cluster[cluster.len() - 1] == cluster.last());
            }
        }
        assert forall|n: crate::types::NodeId| cluster.contains(n) && n != me implies #[trigger] all.contains(n) by {
            let j = choose|j: int| 0 <= j < cluster.len() && cluster[j] == n;
            if j < cluster.len() - 1 {
                assert(c0[j] == n);
                assert(init.contains(n));
                let k = choose|k: int| 0 <= k < init.len() && init[k] == n;
                assert(all[k] == n);
            } else {
                assert(all[all.len() - 1] == n);
            }
        }
    }
}

/// An election timeout makes the node a candidate of the next term that
/// votes for itself, counts only its own vote and knows no leader, and it
/// asks every other cluster node, and only those, for a vote with its new
/// term, its id and the index and term of its last entry.
pub proof fn lemma_election_asks_every_peer(v: RaftNodeView)
    requires
        v.term < u64::MAX,
    ensures
        ({
            let s = election_step(v);
            let r0 = RequestVote {
                term: (v.term + 1) as Term,
                candidate_id: v.node_id,
                last_log_index: v.log.last_index,
                last_log_term: v.log.term_or_zero(v.log.last_index),
            };
            &&& s.node.term == v.term + 1
            &&& s.node.state == NodeState::Candidate
            &&& s.node.voted_for == Some(v.node_id)
            &&& s.node.votes_received == set![v.node_id]
            &&& s.node.current_leader is None
            &&& s.node.log == v.log
            &&& s.result is Ok
            &&& forall|i: int|
                0 <= i < s.result->Ok_0.len() ==> (#[trigger] s.result->Ok_0[i] matches ActionView::Send(
                    to,
                    RaftMessageView::RequestVote(r),
                ) && to != v.node_id && v.cluster_nodes.contains(to) && r == r0)
            &&& forall|n: crate::types::NodeId|
                v.cluster_nodes.contains(n) && n != v.node_id ==> exists|i: int|
                    0 <= i < s.result->Ok_0.len() && #[trigger] s.result->Ok_0[i] == ActionView::Send(
                        n,
                        RaftMessageView::RequestVote(r0),
                    )
        }),
{
    let c = stood(v);
    let m = RaftMessageView::RequestVote(vote_request(c));
    lemma_peers_exclude(v.cluster_nodes, v.node_id);
    let peers = peers_of(v.cluster_nodes, v.node_id);
    let acts = sends_to_peers(v.cluster_nodes, v.node_id, m);
    assert forall|i: int| 0 <= i < acts.len() implies acts[i] == ActionView::Send(peers[i], m) by {}
    assert forall|n: crate::types::NodeId| v.cluster_nodes.contains(n) && n != v.node_id implies exists|i: int|
        0 <= i < acts.len() && #[trigger] acts[i] == ActionView::Send(n, m) by {
        assert(peers.contains(n));
        let k = choose|k: int| 0 <= k < peers.len() && peers[k] == n;
        assert(acts[k] == ActionView::Send(n, m));
    }
}

/// A heartbeat timeout changes no field. A leader asks for a broadcast of
/// an `AppendEntries` of its term and id with no entries, previous index
/// and term 0 and its commit index, then for a reset of its heartbeat
/// timer; any other node asks for nothing.
pub proof fn lemma_heartbeat(v: RaftNodeView)
    ensures
        heartbeat_step(v).node == v,
        heartbeat_step(v).election matches TimerStep::Keep,
        heartbeat_step(v).heartbeat matches TimerStep::Keep,
        v.state != NodeState::Leader ==> heartbeat_step(v).result == Ok::<Seq<ActionView>, Seq<char>>(
            Seq::empty(),
        ),
        v.state == NodeState::Leader ==> heartbeat_step(v).result == Ok::<Seq<ActionView>, Seq<char>>(
            seq![
                ActionView::Broadcast(
                    RaftMessageView::AppendEntries(
                        AppendEntriesView {
                            term: v.term,
                            leader_id: v.node_id,
                            prev_log_index: 0,
                            prev_log_term: 0,
                            entries: Seq::empty(),
                            leader_commit: v.commit_index,
                        },
                    ),
                ),
                ActionView::ResetHeartbeatTimer,
            ],
        ),
{
}

/// The outcomes of an `AppendEntries`: one of a lower term changes nothing
/// and is not answered; one of a higher term makes the node a follower of
/// that term and is not answered; one of the node's term is answered with
/// the node's term and id, with a refusal where the term at the previous
/// index differs (the log unchanged), and with a success where it matches,
/// the entries then being added after the log's own.
pub proof fn lemma_append_entries_outcomes(v: RaftNodeView, ae: AppendEntriesView)
    ensures
        ({
            let s = append_entries_step(v, ae);
            let answer = |ok: bool|
                Ok::<Seq<ActionView>, Seq<char>>(
                    seq![
                        ActionView::Send(
                            ae.leader_id,
                            RaftMessageView::AppendEntriesResponse(
                                AppendEntriesResponse { term: v.term, success: ok, follower_id: v.node_id },
                            ),
                        ),
                    ],
                );
            &&& ae.term < v.term ==> s.node == v && s.result == Ok::<Seq<ActionView>, Seq<char>>(
                Seq::empty(),
            )
            &&& ae.term > v.term ==> s.node.term == ae.term && s.node.state == NodeState::Follower
                && s.node.log == v.log && s.result == Ok::<Seq<ActionView>, Seq<char>>(Seq::empty())
            &&& ae.term == v.term && ae.prev_log_index <= v.log.last_index && ae.prev_log_index > 0
                && v.log.term_or_zero(ae.prev_log_index) != ae.prev_log_term ==> s.node.log == v.log
                && s.node.commit_index == v.commit_index && s.result == answer(false)
            &&& ae.term == v.term && ae.prev_log_index <= v.log.last_index && (ae.prev_log_index == 0
                || v.log.term_or_zero(ae.prev_log_index) == ae.prev_log_term) ==> s.node.log.entries
                == v.log.entries + ae.entries && s.result == answer(true) && s.node.term == v.term
                && s.node.state == v.state
            &&& ae.term == v.term && ae.prev_log_index > v.log.last_index ==> s.node == v
                && s.result == Ok::<Seq<ActionView>, Seq<char>>(Seq::empty())
        }),
{
}

/// A leader's bookkeeping after an `AppendEntriesResponse` of its term from
/// follower `f`: a success sets `f`'s match index one past the known one (0
/// where none is) and its next index one past that; a refusal moves a next
/// index above 1 one back and leaves any other as it was. The commit index
/// either stays, or moves forward to `x`, an index whose entry has the
/// leader's term; each newly committed index, in order, gets one answer to
/// its client.
pub proof fn lemma_leader_bookkeeping(v: RaftNodeView, aer: AppendEntriesResponse, x: crate::types::LogIndex)
    requires
        v.state == NodeState::Leader,
        aer.term == v.term,
    ensures
        ({
            let f = aer.follower_id;
            let s = append_response_step(v, aer, x);
            let m = if v.match_index.contains_key(f) {
                v.match_index[f]
            } else {
                0
            };
            &&& aer.success ==> s.node.match_index == v.match_index.insert(f, (m + 1) as crate::types::LogIndex)
                && s.node.next_index == v.next_index.insert(f, (m + 2) as crate::types::LogIndex)
            &&& !aer.success ==> s.node.match_index == v.match_index && s.node.commit_index
                == v.commit_index && s.result == Ok::<Seq<ActionView>, Seq<char>>(Seq::empty())
            &&& !aer.success && v.next_index.contains_key(f) && v.next_index[f] > 1 ==> s.node.next_index
                == v.next_index.insert(f, (v.next_index[f] - 1) as crate::types::LogIndex)
            &&& !aer.success && !(v.next_index.contains_key(f) && v.next_index[f] > 1)
                ==> s.node.next_index == v.next_index
            &&& s.node.state == NodeState::Leader
            &&& s.node.term == v.term
            &&& s.node.log == v.log
            &&& s.node.commit_index == v.commit_index || (s.node.commit_index == x && x > v.commit_index
                && v.log.term_or_zero(x) == v.term)
            &&& s.result matches Ok(acts) && acts.len() == s.node.commit_index - v.commit_index
                && forall|i: int|
                0 <= i < acts.len() ==> #[trigger] acts[i] == ActionView::RespondToClient {
                    log_index: (v.commit_index + 1 + i) as crate::types::LogIndex,
                    success: true,
                    result: Some("Command committed"@),
                    error: None,
                }
        }),
{
}

/// A client command: a leader appends it in its term at the index after its
/// last one, and keeps it pending there on its own behalf; a follower sends
/// it, with its own id, to the leader it knows and changes nothing, and
/// fails where it knows none; a candidate refuses it and changes nothing.
pub proof fn lemma_client_command_roles(v: RaftNodeView, cmd: Seq<char>, id: uuid::Uuid)
    requires
        v.log.last_index < u64::MAX,
    ensures
        ({
            let s = client_command_step(v, cmd, id);
            let idx = (v.log.last_index + 1) as crate::types::LogIndex;
            &&& v.state == NodeState::Leader ==> s.node.log.entries == v.log.entries.push(
                crate::log::LogEntryView { term: v.term, index: idx, command: cmd },
            ) && s.node.log.last_index == idx && s.node.pending_requests.contains_key(idx)
                && s.node.pending_requests[idx].client_id == v.node_id
                && s.node.pending_requests[idx].command == cmd && s.node.commit_index
                == v.commit_index && s.node.term == v.term
            &&& v.state == NodeState::Follower ==> s.node == v
            &&& v.state == NodeState::Follower && v.current_leader is None ==> s.result == Err::<
                Seq<ActionView>,
                Seq<char>,
            >("No leader found"@)
            &&& v.state == NodeState::Follower && v.current_leader is Some ==> (s.result matches Ok(
                acts,
            ) && acts.len() == 1 && (acts[0] matches ActionView::Send(
                to,
                RaftMessageView::ClientCommand(c),
            ) && to == v.current_leader->0 && c.command == cmd && c.client_id == v.node_id))
            &&& v.state == NodeState::Candidate ==> s.node == v && s.result == Ok::<
                Seq<ActionView>,
                Seq<char>,
            >(seq![ActionView::RejectCommand(cmd)])
        }),
{
}

} // verus!
