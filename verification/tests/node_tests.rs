use raft::log::{Log, LogEntry};
use raft::messages::{
    AppendEntries, AppendEntriesResponse, ClientCommand, RaftMessage, RequestVote,
    RequestVoteResponse,
};
use raft::node::{Action, RaftEvent, RaftNode};
use raft::timer::TimerType;
use raft::types::NodeState;

fn entry(term: u64, index: u64, command: &str) -> LogEntry {
    LogEntry { term, index, command: command.to_string() }
}

fn node(id: u64) -> RaftNode {
    RaftNode::new(id, Log::new(), vec![1, 2, 3])
}

fn elect(n: &mut RaftNode) {
    n.handle_event(RaftEvent::TimerExpired(TimerType::Election)).unwrap();
    let term = n.term();
    n.handle_event(RaftEvent::Message(RaftMessage::RequestVoteResponse(RequestVoteResponse {
        term,
        vote_granted: true,
        voter_id: 2,
    })))
    .unwrap();
    assert_eq!(n.state(), NodeState::Leader);
}

#[test]
fn new_node_is_a_follower_in_term_zero() {
    let mut log = Log::new();
    log.append(entry(1, 1, "a")).unwrap();
    let n = RaftNode::new(1, log, vec![1, 2, 3]);
    assert_eq!(n.term(), 0);
    assert_eq!(n.state(), NodeState::Follower);
    assert_eq!(n.voted_for(), None);
    assert_eq!(n.current_leader(), None);
    assert_eq!(n.next_index_of(2), Some(2));
    assert_eq!(n.match_index_of(3), Some(0));
    assert_eq!(n.next_index_of(4), None);
    assert!(n.election_timer().is_running);
    assert!(!n.heartbeat_timer().is_running);
}

#[test]
fn election_timeout_makes_a_candidate_that_asks_for_votes() {
    let mut n = node(1);
    let acts = n.handle_event(RaftEvent::TimerExpired(TimerType::Election)).unwrap();
    assert_eq!(n.term(), 1);
    assert_eq!(n.state(), NodeState::Candidate);
    assert_eq!(n.voted_for(), Some(1));
    assert_eq!(n.votes_count(), 1);
    assert_eq!(acts.len(), 2);
    let expected = RequestVote { term: 1, candidate_id: 1, last_log_index: 0, last_log_term: 0 };
    for (act, to) in acts.iter().zip([2u64, 3]) {
        match act {
            Action::Send(dest, RaftMessage::RequestVote(rv)) => {
                assert_eq!(*dest, to);
                assert_eq!(*rv, expected);
            }
            other => panic!("unexpected action {:?}", other),
        }
    }
}

#[test]
fn majority_of_votes_makes_a_leader() {
    let mut n = RaftNode::new(1, Log::new(), vec![1, 2, 3, 4, 5]);
    n.handle_event(RaftEvent::TimerExpired(TimerType::Election)).unwrap();
    let grant = |voter| {
        RaftEvent::Message(RaftMessage::RequestVoteResponse(RequestVoteResponse {
            term: 1,
            vote_granted: true,
            voter_id: voter,
        }))
    };
    n.handle_event(grant(2)).unwrap();
    assert_eq!(n.state(), NodeState::Candidate);
    n.handle_event(grant(2)).unwrap();
    assert_eq!(n.votes_count(), 2);
    assert_eq!(n.state(), NodeState::Candidate);
    n.handle_event(grant(3)).unwrap();
    assert_eq!(n.state(), NodeState::Leader);
    assert_eq!(n.current_leader(), Some(1));
    assert!(n.heartbeat_timer().is_running);
    assert!(!n.election_timer().is_running);
    assert_eq!(n.next_index_of(4), Some(1));
}

#[test]
fn higher_term_vote_response_turns_candidate_into_follower() {
    let mut n = node(1);
    n.handle_event(RaftEvent::TimerExpired(TimerType::Election)).unwrap();
    n.handle_event(RaftEvent::Message(RaftMessage::RequestVoteResponse(RequestVoteResponse {
        term: 7,
        vote_granted: false,
        voter_id: 2,
    })))
    .unwrap();
    assert_eq!(n.state(), NodeState::Follower);
    assert_eq!(n.term(), 7);
    assert_eq!(n.voted_for(), None);
}

#[test]
fn leader_heartbeat_broadcasts_then_resets() {
    let mut n = node(1);
    let acts = n.handle_event(RaftEvent::TimerExpired(TimerType::Heartbeat)).unwrap();
    assert!(acts.is_empty());
    elect(&mut n);
    let acts = n.handle_event(RaftEvent::TimerExpired(TimerType::Heartbeat)).unwrap();
    assert_eq!(acts.len(), 2);
    match &acts[0] {
        Action::Broadcast(RaftMessage::AppendEntries(ae)) => {
            assert_eq!(ae.term, 1);
            assert_eq!(ae.leader_id, 1);
            assert_eq!(ae.prev_log_index, 0);
            assert!(ae.entries.is_empty());
            assert_eq!(ae.leader_commit, 0);
        }
        other => panic!("unexpected action {:?}", other),
    }
    assert!(matches!(acts[1], Action::ResetHeartbeatTimer));
    n.reset_heartbeat_timer();
    assert!(n.heartbeat_timer().is_running);
}

#[test]
fn vote_is_granted_to_an_up_to_date_candidate() {
    let mut n = node(2);
    let acts = n
        .handle_event(RaftEvent::Message(RaftMessage::RequestVote(RequestVote {
            term: 3,
            candidate_id: 1,
            last_log_index: 0,
            last_log_term: 0,
        })))
        .unwrap();
    assert_eq!(n.term(), 3);
    assert_eq!(n.voted_for(), Some(1));
    match &acts[..] {
        [Action::Send(1, RaftMessage::RequestVoteResponse(r))] => {
            assert_eq!(*r, RequestVoteResponse { term: 3, vote_granted: true, voter_id: 2 });
        }
        other => panic!("unexpected actions {:?}", other),
    }
}

#[test]
fn vote_is_refused_to_a_stale_log() {
    let mut log = Log::new();
    log.append(entry(2, 1, "a")).unwrap();
    let mut n = RaftNode::new(2, log, vec![1, 2, 3]);
    let acts = n
        .handle_event(RaftEvent::Message(RaftMessage::RequestVote(RequestVote {
            term: 3,
            candidate_id: 1,
            last_log_index: 5,
            last_log_term: 1,
        })))
        .unwrap();
    assert_eq!(n.term(), 3);
    assert_eq!(n.voted_for(), None);
    match &acts[..] {
        [Action::Send(1, RaftMessage::RequestVoteResponse(r))] => {
            assert!(!r.vote_granted);
            assert_eq!(r.term, 3);
        }
        other => panic!("unexpected actions {:?}", other),
    }
}

#[test]
fn second_vote_in_the_same_term_is_granted() {
    // A request of the node's own term clears the recorded vote first.
    let mut n = node(3);
    let rv = |c| {
        RaftEvent::Message(RaftMessage::RequestVote(RequestVote {
            term: 4,
            candidate_id: c,
            last_log_index: 0,
            last_log_term: 0,
        }))
    };
    n.handle_event(rv(1)).unwrap();
    assert_eq!(n.voted_for(), Some(1));
    n.handle_event(rv(2)).unwrap();
    assert_eq!(n.voted_for(), Some(2));
    assert_eq!(n.term(), 4);
}

#[test]
fn follower_appends_entries_and_follows_leader_commit() {
    let mut n = node(2);
    n.handle_event(RaftEvent::Message(RaftMessage::AppendEntries(AppendEntries {
        term: 1,
        leader_id: 1,
        prev_log_index: 0,
        prev_log_term: 0,
        entries: vec![],
        leader_commit: 0,
    })))
    .unwrap();
    assert_eq!(n.term(), 1);
    let acts = n
        .handle_event(RaftEvent::Message(RaftMessage::AppendEntries(AppendEntries {
            term: 1,
            leader_id: 1,
            prev_log_index: 0,
            prev_log_term: 0,
            entries: vec![entry(1, 1, "SET a 1"), entry(1, 2, "SET b 2")],
            leader_commit: 5,
        })))
        .unwrap();
    assert_eq!(n.log().last_index(), 2);
    assert_eq!(n.commit_index(), 2);
    match &acts[..] {
        [Action::Send(1, RaftMessage::AppendEntriesResponse(r))] => {
            assert_eq!(*r, AppendEntriesResponse { term: 1, success: true, follower_id: 2 });
        }
        other => panic!("unexpected actions {:?}", other),
    }
}

#[test]
fn follower_refuses_mismatched_previous_term() {
    let mut log = Log::new();
    log.append(entry(1, 1, "a")).unwrap();
    let mut n = RaftNode::new(2, log, vec![1, 2]);
    n.handle_event(RaftEvent::Message(RaftMessage::AppendEntries(AppendEntries {
        term: 2,
        leader_id: 1,
        prev_log_index: 0,
        prev_log_term: 0,
        entries: vec![],
        leader_commit: 0,
    })))
    .unwrap();
    let acts = n
        .handle_event(RaftEvent::Message(RaftMessage::AppendEntries(AppendEntries {
            term: 2,
            leader_id: 1,
            prev_log_index: 1,
            prev_log_term: 2,
            entries: vec![entry(2, 2, "b")],
            leader_commit: 2,
        })))
        .unwrap();
    assert_eq!(n.log().last_index(), 1);
    match &acts[..] {
        [Action::Send(1, RaftMessage::AppendEntriesResponse(r))] => assert!(!r.success),
        other => panic!("unexpected actions {:?}", other),
    }
}

#[test]
fn append_entries_past_the_log_is_ignored() {
    let mut n = node(2);
    let acts = n
        .handle_event(RaftEvent::Message(RaftMessage::AppendEntries(AppendEntries {
            term: 0,
            leader_id: 1,
            prev_log_index: 3,
            prev_log_term: 0,
            entries: vec![],
            leader_commit: 0,
        })))
        .unwrap();
    assert!(acts.is_empty());
}

#[test]
fn entries_that_do_not_follow_cannot_be_handled() {
    let n = node(2);
    let bad = RaftEvent::Message(RaftMessage::AppendEntries(AppendEntries {
        term: 0,
        leader_id: 1,
        prev_log_index: 0,
        prev_log_term: 0,
        entries: vec![entry(0, 2, "x")],
        leader_commit: 0,
    }));
    assert!(!n.can_handle(&bad));
    let good = RaftEvent::Message(RaftMessage::AppendEntries(AppendEntries {
        term: 0,
        leader_id: 1,
        prev_log_index: 0,
        prev_log_term: 0,
        entries: vec![entry(0, 1, "x")],
        leader_commit: 0,
    }));
    assert!(n.can_handle(&good));
    assert!(n.can_handle(&RaftEvent::TimerExpired(TimerType::Election)));
}

#[test]
fn leader_replicates_and_commits_on_majority() {
    let mut n = node(1);
    elect(&mut n);
    let acts = n.handle_event(RaftEvent::ClientCommand("SET x 1".to_string())).unwrap();
    assert_eq!(n.log().last_index(), 1);
    assert!(n.has_pending_request(1));
    assert_eq!(acts.len(), 2);
    for act in &acts {
        match act {
            Action::Send(_, RaftMessage::AppendEntries(ae)) => {
                assert_eq!(ae.prev_log_index, 0);
                assert_eq!(ae.prev_log_term, 0);
                assert_eq!(ae.entries, vec![entry(1, 1, "SET x 1")]);
            }
            other => panic!("unexpected action {:?}", other),
        }
    }
    let ack = |f| {
        RaftEvent::Message(RaftMessage::AppendEntriesResponse(AppendEntriesResponse {
            term: 1,
            success: true,
            follower_id: f,
        }))
    };
    let acts = n.handle_event(ack(2)).unwrap();
    assert!(acts.is_empty());
    assert_eq!(n.match_index_of(2), Some(1));
    assert_eq!(n.next_index_of(2), Some(2));
    assert_eq!(n.commit_index(), 0);
    let acts = n.handle_event(ack(3)).unwrap();
    assert_eq!(n.commit_index(), 1);
    match &acts[..] {
        [Action::RespondToClient { log_index: 1, success: true, result: Some(r), error: None }] => {
            assert_eq!(r, "Command committed");
        }
        other => panic!("unexpected actions {:?}", other),
    }
    match n.send_client_response(1, true, Some("Command committed".to_string()), None) {
        Some((to, RaftMessage::ClientResponse(resp))) => {
            assert_eq!(to, 1);
            assert!(resp.success);
        }
        other => panic!("unexpected response {:?}", other),
    }
    assert!(!n.has_pending_request(1));
    assert!(n.send_client_response(1, true, None, None).is_none());
}

#[test]
fn refused_append_moves_next_index_back() {
    let mut n = node(1);
    elect(&mut n);
    n.handle_event(RaftEvent::ClientCommand("a".to_string())).unwrap();
    n.handle_event(RaftEvent::ClientCommand("b".to_string())).unwrap();
    let reply = |ok| {
        RaftEvent::Message(RaftMessage::AppendEntriesResponse(AppendEntriesResponse {
            term: 1,
            success: ok,
            follower_id: 2,
        }))
    };
    assert_eq!(n.next_index_of(2), Some(1));
    n.handle_event(reply(false)).unwrap();
    assert_eq!(n.next_index_of(2), Some(1));
    n.handle_event(reply(true)).unwrap();
    n.handle_event(reply(true)).unwrap();
    assert_eq!(n.next_index_of(2), Some(3));
    n.handle_event(reply(false)).unwrap();
    assert_eq!(n.next_index_of(2), Some(2));
    assert_eq!(n.match_index_of(2), Some(2));
}

#[test]
fn follower_forwards_commands_to_the_leader() {
    let mut n = node(2);
    let err = n.handle_event(RaftEvent::ClientCommand("SET a 1".to_string())).unwrap_err();
    assert_eq!(err, "No leader found");
}

#[test]
fn candidate_rejects_commands() {
    let mut n = node(1);
    n.handle_event(RaftEvent::TimerExpired(TimerType::Election)).unwrap();
    let acts = n.handle_event(RaftEvent::ClientCommand("SET a 1".to_string())).unwrap();
    match &acts[..] {
        [Action::RejectCommand(c)] => assert_eq!(c, "SET a 1"),
        other => panic!("unexpected actions {:?}", other),
    }
}

#[test]
fn forwarded_command_from_a_message_is_handled_by_role() {
    let mut n = node(1);
    elect(&mut n);
    let acts = n
        .handle_event(RaftEvent::Message(RaftMessage::ClientCommand(ClientCommand {
            command: "SET k v".to_string(),
            client_id: 3,
            request_id: uuid_from_client(),
        })))
        .unwrap();
    assert_eq!(acts.len(), 2);
    assert_eq!(n.log().get(1).unwrap().command, "SET k v");
}

fn uuid_from_client() -> uuid::Uuid {
    uuid::Uuid::from_u128(0x1234)
}

#[test]
fn stale_messages_change_nothing() {
    let mut n = node(1);
    elect(&mut n);
    n.handle_event(RaftEvent::Message(RaftMessage::AppendEntries(AppendEntries {
        term: 0,
        leader_id: 2,
        prev_log_index: 0,
        prev_log_term: 0,
        entries: vec![],
        leader_commit: 0,
    })))
    .unwrap();
    assert_eq!(n.state(), NodeState::Leader);
    assert_eq!(n.term(), 1);
    n.handle_event(RaftEvent::Message(RaftMessage::AppendEntries(AppendEntries {
        term: 2,
        leader_id: 2,
        prev_log_index: 0,
        prev_log_term: 0,
        entries: vec![],
        leader_commit: 0,
    })))
    .unwrap();
    assert_eq!(n.state(), NodeState::Follower);
    assert_eq!(n.term(), 2);
    assert!(!n.heartbeat_timer().is_running);
}

#[test]
fn cloned_client_messages_keep_their_request_id() {
    let id = uuid::Uuid::from_u128(0xfeed);
    let m = RaftMessage::ClientCommand(ClientCommand {
        command: "GET k".to_string(),
        client_id: 9,
        request_id: id,
    });
    let c = m.clone();
    assert_eq!(c, m);
    match c {
        RaftMessage::ClientCommand(cmd) => assert_eq!(cmd.request_id, id),
        other => panic!("unexpected message {:?}", other),
    }
}

#[test]
fn granted_vote_in_a_new_term_may_go_unrecorded() {
    // The vote is compared with the one held on entry: granting the same
    // candidate again in a higher term leaves the cleared vote in place.
    let mut n = node(3);
    let rv = |term| {
        RaftEvent::Message(RaftMessage::RequestVote(RequestVote {
            term,
            candidate_id: 1,
            last_log_index: 0,
            last_log_term: 0,
        }))
    };
    n.handle_event(rv(1)).unwrap();
    assert_eq!(n.voted_for(), Some(1));
    let acts = n.handle_event(rv(2)).unwrap();
    assert_eq!(n.term(), 2);
    assert_eq!(n.voted_for(), None);
    match &acts[..] {
        [Action::Send(1, RaftMessage::RequestVoteResponse(r))] => {
            assert!(r.vote_granted);
            assert_eq!(r.term, 2);
        }
        other => panic!("unexpected actions {:?}", other),
    }
}

#[test]
fn two_leaders_can_share_a_term() {
    // Node 3 answers both candidates of term 1 with a granted vote, so both
    // reach a majority of the three nodes.
    let mut n1 = node(1);
    let mut n2 = node(2);
    let mut n3 = node(3);
    let ask1 = n1.handle_event(RaftEvent::TimerExpired(TimerType::Election)).unwrap();
    let ask2 = n2.handle_event(RaftEvent::TimerExpired(TimerType::Election)).unwrap();
    let request_to_3 = |acts: Vec<Action>| {
        acts.into_iter()
            .find_map(|a| match a {
                Action::Send(3, m) => Some(m),
                _ => None,
            })
            .unwrap()
    };
    let answer1 = n3.handle_event(RaftEvent::Message(request_to_3(ask1))).unwrap();
    let answer2 = n3.handle_event(RaftEvent::Message(request_to_3(ask2))).unwrap();
    let deliver = |n: &mut RaftNode, acts: Vec<Action>| {
        for a in acts {
            if let Action::Send(_, m) = a {
                n.handle_event(RaftEvent::Message(m)).unwrap();
            }
        }
    };
    deliver(&mut n1, answer1);
    deliver(&mut n2, answer2);
    assert_eq!(n1.state(), NodeState::Leader);
    assert_eq!(n2.state(), NodeState::Leader);
    assert_eq!(n1.term(), 1);
    assert_eq!(n2.term(), 1);
}
