use maelstrom_rust::message::{ErrorCode, Message};
use maelstrom_rust::peers::PeerIndex;
use maelstrom_rust::quorum::quorum_value;
use maelstrom_rust::raft::{
    election_timeout_ms, Action, MessageBody, Node, Reply, Role, ELECTION_TIMEOUT_LIMIT_MS, ELECTION_TIMEOUT_MIN_MS,
};
use maelstrom_rust::raft_log::{Command, Log, LogEntry};

fn names(ids: &[&str]) -> Vec<String> {
    ids.iter().map(|s| s.to_string()).collect()
}

fn msg(src: &str, dest: &str, body: MessageBody) -> Message<MessageBody> {
    Message { src: src.to_string(), dest: dest.to_string(), body }
}

fn entry(term: u64, msg_id: u64) -> LogEntry {
    LogEntry {
        term,
        msg: Message { src: "c1".to_string(), dest: "n0".to_string(), body: Command::Write { msg_id, key: 1, value: msg_id as i64 } },
    }
}

fn sent(actions: &[Action]) -> Vec<Message<MessageBody>> {
    actions
        .iter()
        .filter_map(|a| match a {
            Action::Send(m) => Some(m.clone()),
            _ => None,
        })
        .collect()
}

fn member(id: &str) -> Node {
    let mut node = Node::new();
    let actions = node.run(msg("c0", id, MessageBody::Init { msg_id: 0, node_id: id.to_string(), node_ids: names(&["n0", "n1", "n2"]) }));
    assert_eq!(actions.len(), 3);
    assert_eq!(actions[1], Action::StartElectionTimer);
    assert_eq!(actions[2], Action::StartApplyLoop);
    node
}

fn leader() -> Node {
    let mut node = member("n0");
    node.handle_election_timeout();
    let actions = node.run(msg(
        "n1",
        "n0",
        MessageBody::RequestVoteResponse { msg_id: 1, in_reply_to: 2, term: 1, vote_granted: true },
    ));
    assert_eq!(actions, vec![Action::StopElectionTimer, Action::StartHeartbeat(1)]);
    assert_eq!(node.state.role, Role::Leader);
    node
}

#[test]
fn log_is_numbered_from_one() {
    let mut log = Log::new();
    assert_eq!(log.last_index(), 0);
    assert_eq!(log.last_term(), 0);
    assert!(log.get(0).is_none());
    log.append(entry(1, 1));
    log.append(entry(2, 2));
    assert_eq!(log.get(1).unwrap().term, 1);
    assert_eq!(log.get(2).unwrap().term, 2);
    assert!(log.get(3).is_none());
    assert_eq!(log.last_term(), 2);
    assert_eq!(log.get_since(0).len(), 2);
    assert_eq!(log.get_since(2), vec![entry(2, 2)]);
    assert!(log.get_since(3).is_empty());
    log.truncate(2);
    assert_eq!(log.last_index(), 1);
    log.truncate(5);
    assert_eq!(log.last_index(), 1);
}

#[test]
fn merge_replaces_conflicting_suffix() {
    let mut log = Log::new();
    for (t, id) in [(1, 1), (1, 2), (1, 3)] {
        log.append(entry(t, id));
    }
    log.merge_entries(1, &vec![entry(1, 2), entry(2, 9)]);
    assert_eq!(log.entries, vec![entry(1, 1), entry(1, 2), entry(2, 9)]);
    let mut kept = Log::new();
    kept.append(entry(1, 1));
    kept.append(entry(1, 2));
    kept.merge_entries(0, &vec![entry(1, 1)]);
    assert_eq!(kept.entries, vec![entry(1, 1), entry(1, 2)]);
}

#[test]
fn quorum_value_is_the_majority_index() {
    assert_eq!(quorum_value(&vec![5, 3, 1], 2), 3);
    assert_eq!(quorum_value(&vec![1, 3, 5, 7, 9], 3), 5);
    assert_eq!(quorum_value(&vec![4, 4, 0], 2), 4);
    assert_eq!(quorum_value(&vec![2], 1), 2);
    assert_eq!(quorum_value(&vec![0, 0, 9, 9], 3), 0);
}

#[test]
fn peer_index_sets_and_steps_back() {
    let mut t = PeerIndex::from_keys(&names(&["n0", "n1", "n1"]), 4);
    assert_eq!(t.len(), 2);
    assert_eq!(t.get(&"n1".to_string()), Some(4));
    assert_eq!(t.get(&"n9".to_string()), None);
    t.insert("n9".to_string(), 1);
    t.insert("n1".to_string(), 2);
    assert_eq!(t.len(), 3);
    assert_eq!(t.get(&"n1".to_string()), Some(2));
    t.decrement_above_one(&"n1".to_string());
    assert_eq!(t.get(&"n1".to_string()), Some(1));
    t.decrement_above_one(&"n1".to_string());
    assert_eq!(t.get(&"n1".to_string()), Some(1));
}

#[test]
fn follower_without_leader_refuses_requests() {
    let mut node = member("n0");
    let actions = node.run(msg("c1", "n0", MessageBody::Read { msg_id: 7, key: 1 }));
    assert_eq!(
        sent(&actions),
        vec![msg(
            "n0",
            "c1",
            MessageBody::Error { msg_id: 2, in_reply_to: 7, code: ErrorCode::TemporarilyUnavailable, text: "not a leader".to_string() }
        )]
    );
}

#[test]
fn election_timeout_asks_every_other_member() {
    let mut node = member("n0");
    let actions = node.handle_election_timeout();
    assert_eq!(node.state.current_term, 1);
    assert_eq!(node.state.role, Role::Candidate);
    assert_eq!(node.state.voted_for, Some("n0".to_string()));
    assert_eq!(node.state.votes_granted, names(&["n0"]));
    assert_eq!(
        sent(&actions),
        vec![
            msg("n0", "n1", MessageBody::RequestVote { msg_id: 2, term: 1, last_log_index: 0, last_log_term: 0 }),
            msg("n0", "n2", MessageBody::RequestVote { msg_id: 3, term: 1, last_log_index: 0, last_log_term: 0 }),
        ]
    );
}

#[test]
fn votes_once_per_term_for_an_up_to_date_log() {
    let mut node = member("n1");
    let a = node.run(msg("n0", "n1", MessageBody::RequestVote { msg_id: 5, term: 1, last_log_index: 0, last_log_term: 0 }));
    assert_eq!(a[0], Action::StartElectionTimer);
    assert_eq!(
        sent(&a),
        vec![msg("n1", "n0", MessageBody::RequestVoteResponse { msg_id: 2, in_reply_to: 5, term: 1, vote_granted: true })]
    );
    let b = node.run(msg("n2", "n1", MessageBody::RequestVote { msg_id: 6, term: 1, last_log_index: 3, last_log_term: 1 }));
    assert_eq!(
        sent(&b),
        vec![msg("n1", "n2", MessageBody::RequestVoteResponse { msg_id: 3, in_reply_to: 6, term: 1, vote_granted: false })]
    );
    assert_eq!(node.state.voted_for, Some("n0".to_string()));
    let stale = node.run(msg("n2", "n1", MessageBody::RequestVote { msg_id: 7, term: 0, last_log_index: 9, last_log_term: 9 }));
    assert_eq!(
        sent(&stale),
        vec![msg("n1", "n2", MessageBody::RequestVoteResponse { msg_id: 4, in_reply_to: 7, term: 1, vote_granted: false })]
    );
}

#[test]
fn vote_refused_to_a_stale_log() {
    let mut node = member("n1");
    node.state.log.append(entry(2, 1));
    node.state.current_term = 2;
    let a = node.run(msg("n0", "n1", MessageBody::RequestVote { msg_id: 5, term: 3, last_log_index: 4, last_log_term: 1 }));
    assert_eq!(
        sent(&a),
        vec![msg("n1", "n0", MessageBody::RequestVoteResponse { msg_id: 2, in_reply_to: 5, term: 3, vote_granted: false })]
    );
    assert_eq!(node.state.voted_for, None);
}

#[test]
fn leader_replicates_commits_and_replies() {
    let mut node = leader();
    assert_eq!(node.state.leader, Some("n0".to_string()));
    let appended = node.run(msg("c1", "n0", MessageBody::Write { msg_id: 11, key: 1, value: 42 }));
    assert!(appended.is_empty());
    assert_eq!(node.state.log.last_index(), 1);

    assert!(node.ready_for_heartbeat(1));
    let beat = node.handle_heartbeat(1).unwrap();
    let out = sent(&beat);
    assert_eq!(out.len(), 2);
    match &out[0].body {
        MessageBody::AppendEntries { term, prev_log_index, prev_log_term, entries, leader_commit, .. } => {
            assert_eq!((*term, *prev_log_index, *prev_log_term, *leader_commit), (1, 0, 0, 0));
            assert_eq!(entries.len(), 1);
            assert_eq!(entries[0].msg.body, Command::Write { msg_id: 11, key: 1, value: 42 });
        }
        other => panic!("unexpected {:?}", other),
    }
    assert_eq!(out[1].dest, "n2");

    let ack = node.run(msg(
        "n1",
        "n0",
        MessageBody::AppendEntriesResponse { msg_id: 3, in_reply_to: 4, term: 1, success: true, match_index: 1 },
    ));
    assert_eq!(ack, vec![Action::NotifyApply]);
    assert_eq!(node.state.commit_index, 1);

    assert!(node.ready_to_apply());
    let replies = node.apply_committed_entries();
    assert_eq!(node.state.last_applied, 1);
    let replies = sent(&replies);
    assert_eq!(replies.len(), 1);
    assert_eq!(replies[0].src, "n0");
    assert_eq!(replies[0].dest, "c1");
    assert!(matches!(replies[0].body, MessageBody::WriteOk { in_reply_to: 11, .. }));
    assert_eq!(node.handle_heartbeat(7), None);
}

#[test]
fn failed_append_steps_next_index_back() {
    let mut node = leader();
    node.run(msg("c1", "n0", MessageBody::Write { msg_id: 1, key: 1, value: 1 }));
    node.run(msg("n1", "n0", MessageBody::AppendEntriesResponse { msg_id: 3, in_reply_to: 4, term: 1, success: true, match_index: 1 }));
    assert_eq!(node.state.next_index.get(&"n1".to_string()), Some(2));
    node.run(msg("n1", "n0", MessageBody::AppendEntriesResponse { msg_id: 4, in_reply_to: 5, term: 1, success: false, match_index: 0 }));
    assert_eq!(node.state.next_index.get(&"n1".to_string()), Some(1));
    node.run(msg("n1", "n0", MessageBody::AppendEntriesResponse { msg_id: 5, in_reply_to: 6, term: 1, success: false, match_index: 0 }));
    assert_eq!(node.state.next_index.get(&"n1".to_string()), Some(1));
}

#[test]
fn newer_term_makes_the_leader_a_follower() {
    let mut node = leader();
    let a = node.run(msg("n2", "n0", MessageBody::RequestVoteResponse { msg_id: 9, in_reply_to: 3, term: 4, vote_granted: false }));
    assert_eq!(a, vec![Action::StartElectionTimer]);
    assert_eq!(node.state.role, Role::Follower);
    assert_eq!(node.state.current_term, 4);
    assert_eq!(node.state.voted_for, None);
    assert_eq!(node.state.leader, None);
}

#[test]
fn follower_accepts_entries_and_commit() {
    let mut node = member("n1");
    let a = node.run(msg(
        "n0",
        "n1",
        MessageBody::AppendEntries {
            msg_id: 4,
            term: 1,
            prev_log_index: 0,
            prev_log_term: 0,
            entries: vec![entry(1, 1), entry(1, 2)],
            leader_commit: 5,
        },
    ));
    assert_eq!(a[0], Action::StartElectionTimer);
    assert_eq!(a[1], Action::ResetElectionTimer);
    assert_eq!(a[2], Action::NotifyApply);
    assert_eq!(
        a[3],
        Action::Send(msg(
            "n1",
            "n0",
            MessageBody::AppendEntriesResponse { msg_id: 2, in_reply_to: 4, term: 1, success: true, match_index: 2 }
        ))
    );
    assert_eq!(node.state.leader, Some("n0".to_string()));
    assert_eq!(node.state.commit_index, 2);
    assert_eq!(node.state.log.last_index(), 2);
    let replies = node.apply_committed_entries();
    assert!(replies.is_empty());
    assert_eq!(node.state.map.get(&1), Some(&2));

    let forward = node.run(msg("c9", "n1", MessageBody::Read { msg_id: 3, key: 1 }));
    assert_eq!(forward, vec![Action::Send(msg("c9", "n0", MessageBody::Read { msg_id: 3, key: 1 }))]);
}

#[test]
fn follower_rejects_entries_after_a_missing_one() {
    let mut node = member("n1");
    let a = node.run(msg(
        "n0",
        "n1",
        MessageBody::AppendEntries { msg_id: 4, term: 1, prev_log_index: 3, prev_log_term: 1, entries: vec![entry(1, 4)], leader_commit: 0 },
    ));
    assert_eq!(
        *a.last().unwrap(),
        Action::Send(msg(
            "n1",
            "n0",
            MessageBody::AppendEntriesResponse { msg_id: 2, in_reply_to: 4, term: 1, success: false, match_index: 0 }
        ))
    );
    assert_eq!(node.state.log.last_index(), 0);
}

#[test]
fn replies_for_read_and_cas() {
    assert_eq!(Reply::KeyMissing { in_reply_to: 3 }.into_body(9), MessageBody::Error {
        msg_id: 9,
        in_reply_to: 3,
        code: ErrorCode::KeyDoesNotExist,
        text: "key does not exist".to_string(),
    });
    assert_eq!(Reply::PreconditionFailed { in_reply_to: 3 }.into_body(9), MessageBody::Error {
        msg_id: 9,
        in_reply_to: 3,
        code: ErrorCode::PreconditionFailed,
        text: "precondition failed".to_string(),
    });
    let mut map = std::collections::HashMap::new();
    assert_eq!(Node::apply_read(&mut map, 1, 5), Reply::KeyMissing { in_reply_to: 1 });
    assert_eq!(Node::apply_write(&mut map, 2, 5, 8), Reply::WriteOk { in_reply_to: 2 });
    assert_eq!(Node::apply_read(&mut map, 3, 5), Reply::ReadOk { in_reply_to: 3, value: 8 });
    assert_eq!(Node::apply_cas(&mut map, 4, 5, 7, 1), Reply::PreconditionFailed { in_reply_to: 4 });
    assert_eq!(Node::apply_cas(&mut map, 5, 5, 8, 1), Reply::CasOk { in_reply_to: 5 });
    assert_eq!(Node::apply_cas(&mut map, 6, 6, 8, 1), Reply::KeyMissing { in_reply_to: 6 });
    assert_eq!(map.get(&5), Some(&1));
}

#[test]
fn messages_a_node_cannot_serve_are_refused() {
    let node = leader();
    assert!(!node.accepts(&msg("c1", "n0", MessageBody::InitOk { msg_id: 1, in_reply_to: 1 })));
    assert!(node.accepts(&msg("c1", "n0", MessageBody::Read { msg_id: 1, key: 1 })));
    assert!(!node.accepts(&msg(
        "n7",
        "n0",
        MessageBody::AppendEntriesResponse { msg_id: 1, in_reply_to: 1, term: 1, success: false, match_index: 0 }
    )));
}

#[test]
fn election_timeouts_are_random_within_bounds() {
    let mut seen = std::collections::HashSet::new();
    for _ in 0..200 {
        let ms = election_timeout_ms();
        assert!(ELECTION_TIMEOUT_MIN_MS <= ms && ms < ELECTION_TIMEOUT_LIMIT_MS);
        seen.insert(ms);
    }
    assert!(seen.len() > 1);
}

#[test]
fn five_members_need_three_votes_and_three_copies() {
    let mut node = Node::new();
    node.run(msg(
        "c0",
        "n0",
        MessageBody::Init { msg_id: 0, node_id: "n0".to_string(), node_ids: names(&["n0", "n1", "n2", "n3", "n4"]) },
    ));
    let asks = node.handle_election_timeout();
    assert_eq!(sent(&asks).len(), 4);
    let one = node.run(msg("n1", "n0", MessageBody::RequestVoteResponse { msg_id: 1, in_reply_to: 2, term: 1, vote_granted: true }));
    assert!(one.is_empty());
    assert_eq!(node.state.role, Role::Candidate);
    let refused = node.run(msg("n2", "n0", MessageBody::RequestVoteResponse { msg_id: 1, in_reply_to: 3, term: 1, vote_granted: false }));
    assert!(refused.is_empty());
    let two = node.run(msg("n3", "n0", MessageBody::RequestVoteResponse { msg_id: 1, in_reply_to: 4, term: 1, vote_granted: true }));
    assert_eq!(two, vec![Action::StopElectionTimer, Action::StartHeartbeat(1)]);
    assert_eq!(node.state.role, Role::Leader);

    node.run(msg("c1", "n0", MessageBody::Cas { msg_id: 5, key: 1, from: 0, to: 1 }));
    let first = node.run(msg("n1", "n0", MessageBody::AppendEntriesResponse { msg_id: 2, in_reply_to: 6, term: 1, success: true, match_index: 1 }));
    assert!(first.is_empty());
    assert_eq!(node.state.commit_index, 0);
    let second = node.run(msg("n4", "n0", MessageBody::AppendEntriesResponse { msg_id: 2, in_reply_to: 7, term: 1, success: true, match_index: 1 }));
    assert_eq!(second, vec![Action::NotifyApply]);
    assert_eq!(node.state.commit_index, 1);
    let replies = sent(&node.apply_committed_entries());
    assert_eq!(replies.len(), 1);
    assert!(matches!(
        &replies[0].body,
        MessageBody::Error { in_reply_to: 5, code: ErrorCode::KeyDoesNotExist, .. }
    ));
}

#[test]
fn follower_keeps_its_term_against_a_stale_leader() {
    let mut node = member("n1");
    node.run(msg("n2", "n1", MessageBody::RequestVote { msg_id: 1, term: 3, last_log_index: 0, last_log_term: 0 }));
    let a = node.run(msg(
        "n0",
        "n1",
        MessageBody::AppendEntries { msg_id: 4, term: 2, prev_log_index: 0, prev_log_term: 0, entries: vec![entry(2, 1)], leader_commit: 1 },
    ));
    assert_eq!(
        a,
        vec![Action::Send(msg(
            "n1",
            "n0",
            MessageBody::AppendEntriesResponse { msg_id: 3, in_reply_to: 4, term: 3, success: false, match_index: 0 }
        ))]
    );
    assert_eq!(node.state.current_term, 3);
    assert_eq!(node.state.log.last_index(), 0);
    assert_eq!(node.state.leader, None);
}

#[test]
fn a_lone_member_elects_itself() {
    let mut node = Node::new();
    node.run(msg("c0", "n0", MessageBody::Init { msg_id: 0, node_id: "n0".to_string(), node_ids: names(&["n0"]) }));
    let actions = node.handle_election_timeout();
    assert_eq!(actions, vec![Action::StopElectionTimer, Action::StartHeartbeat(1)]);
    assert_eq!(node.state.role, Role::Leader);
    assert_eq!(node.state.leader, Some("n0".to_string()));
    assert_eq!(node.state.next_index.get(&"n0".to_string()), Some(1));
    node.run(msg("c1", "n0", MessageBody::Write { msg_id: 3, key: 2, value: 7 }));
    assert_eq!(node.state.log.last_index(), 1);
    assert_eq!(node.handle_heartbeat(1), Some(Vec::new()));
}

#[test]
fn a_repeated_vote_counts_once() {
    let mut node = member("n0");
    node.handle_election_timeout();
    let mut five = Node::new();
    five.run(msg(
        "c0",
        "n0",
        MessageBody::Init { msg_id: 0, node_id: "n0".to_string(), node_ids: names(&["n0", "n1", "n2", "n3", "n4"]) },
    ));
    five.handle_election_timeout();
    for _ in 0..3 {
        let a = five.run(msg("n1", "n0", MessageBody::RequestVoteResponse { msg_id: 1, in_reply_to: 2, term: 1, vote_granted: true }));
        assert!(a.is_empty());
    }
    assert_eq!(five.state.role, Role::Candidate);
    assert_eq!(five.state.votes_granted, names(&["n0", "n1"]));
    let won = five.run(msg("n4", "n0", MessageBody::RequestVoteResponse { msg_id: 1, in_reply_to: 5, term: 1, vote_granted: true }));
    assert_eq!(won, vec![Action::StopElectionTimer, Action::StartHeartbeat(1)]);
    assert_eq!(node.state.role, Role::Candidate);
}

#[test]
fn stale_or_misdirected_append_replies_are_ignored() {
    let mut node = leader();
    node.run(msg("c1", "n0", MessageBody::Write { msg_id: 1, key: 1, value: 1 }));
    let stale = node.run(msg(
        "n1",
        "n0",
        MessageBody::AppendEntriesResponse { msg_id: 3, in_reply_to: 4, term: 0, success: true, match_index: 1 },
    ));
    assert!(stale.is_empty());
    assert_eq!(node.state.commit_index, 0);
    assert_eq!(node.state.match_index.get(&"n1".to_string()), Some(0));
    assert_eq!(node.state.next_index.get(&"n1".to_string()), Some(1));

    let mut follower = member("n1");
    assert!(follower.accepts(&msg(
        "n7",
        "n1",
        MessageBody::AppendEntriesResponse { msg_id: 1, in_reply_to: 1, term: 0, success: false, match_index: 0 }
    )));
    let ignored = follower.run(msg(
        "n7",
        "n1",
        MessageBody::AppendEntriesResponse { msg_id: 1, in_reply_to: 1, term: 0, success: true, match_index: 4 },
    ));
    assert!(ignored.is_empty());
    assert_eq!(follower.state.commit_index, 0);
    assert_eq!(follower.state.match_index.len(), 0);
}

#[test]
fn commit_stops_at_the_last_new_entry() {
    let mut node = member("n1");
    node.run(msg(
        "n0",
        "n1",
        MessageBody::AppendEntries { msg_id: 4, term: 1, prev_log_index: 0, prev_log_term: 0, entries: vec![entry(1, 1), entry(1, 2)], leader_commit: 0 },
    ));
    assert_eq!(node.state.commit_index, 0);
    let a = node.run(msg(
        "n0",
        "n1",
        MessageBody::AppendEntries { msg_id: 5, term: 1, prev_log_index: 0, prev_log_term: 0, entries: Vec::new(), leader_commit: 2 },
    ));
    assert_eq!(node.state.commit_index, 0);
    assert_eq!(node.state.log.last_index(), 2);
    assert!(a.contains(&Action::NotifyApply));
    node.run(msg(
        "n0",
        "n1",
        MessageBody::AppendEntries { msg_id: 6, term: 1, prev_log_index: 0, prev_log_term: 0, entries: vec![entry(1, 1)], leader_commit: 2 },
    ));
    assert_eq!(node.state.commit_index, 1);
    assert_eq!(node.state.log.last_index(), 2);
}

#[test]
fn a_retransmitted_append_changes_nothing() {
    let mut node = member("n1");
    let body = |id| MessageBody::AppendEntries {
        msg_id: id,
        term: 1,
        prev_log_index: 0,
        prev_log_term: 0,
        entries: vec![entry(1, 1), entry(1, 2)],
        leader_commit: 1,
    };
    let first = node.run(msg("n0", "n1", body(4)));
    let log = node.state.log.entries.clone();
    let commit = node.state.commit_index;
    let second = node.run(msg("n0", "n1", body(5)));
    assert_eq!(node.state.log.entries, log);
    assert_eq!(node.state.commit_index, commit);
    let outcome = |a: &Vec<Action>| match a.last() {
        Some(Action::Send(m)) => match &m.body {
            MessageBody::AppendEntriesResponse { success, match_index, .. } => (*success, *match_index),
            other => panic!("unexpected {:?}", other),
        },
        other => panic!("unexpected {:?}", other),
    };
    assert_eq!(outcome(&first), (true, 2));
    assert_eq!(outcome(&second), (true, 2));
}

#[test]
fn a_cluster_has_one_leader_per_term_and_matching_logs() {
    let mut n0 = member("n0");
    let mut n1 = member("n1");
    let mut n2 = member("n2");

    // n0 and n2 both start an election in term 1; n1 hears n0 first
    let from_n0 = sent(&n0.handle_election_timeout());
    let from_n2 = sent(&n2.handle_election_timeout());
    let to_n1 = from_n0.iter().find(|m| m.dest == "n1").unwrap().clone();
    let reply = sent(&n1.run(to_n1));
    assert!(matches!(reply[0].body, MessageBody::RequestVoteResponse { vote_granted: true, .. }));
    n0.run(reply[0].clone());
    assert_eq!(n0.state.role, Role::Leader);

    // n2's request of the same term is refused by both others, so n2 cannot win term 1
    for m in from_n2 {
        let answer = if m.dest == "n1" { sent(&n1.run(m)) } else { sent(&n0.run(m)) };
        assert!(matches!(answer[0].body, MessageBody::RequestVoteResponse { term: 1, vote_granted: false, .. }));
        n2.run(answer[0].clone());
    }
    assert_eq!(n2.state.role, Role::Candidate);
    assert_eq!(n2.state.current_term, 1);

    // the leader's entries reach both followers, whose logs then match its own
    n0.run(msg("c1", "n0", MessageBody::Write { msg_id: 11, key: 1, value: 5 }));
    n0.run(msg("c1", "n0", MessageBody::Cas { msg_id: 12, key: 1, from: 5, to: 6 }));
    let beat = sent(&n0.handle_heartbeat(1).unwrap());
    for m in beat {
        let follower = if m.dest == "n1" { &mut n1 } else { &mut n2 };
        let ack = sent(&follower.run(m));
        assert!(matches!(ack[0].body, MessageBody::AppendEntriesResponse { success: true, match_index: 2, .. }));
    }
    assert_eq!(n2.state.role, Role::Follower);
    assert_eq!(n1.state.log.entries, n0.state.log.entries);
    assert_eq!(n2.state.log.entries, n0.state.log.entries);
    assert_eq!(n0.state.log.entries.len(), 2);
}
