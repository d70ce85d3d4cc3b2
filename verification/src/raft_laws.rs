//! What every step of a Raft server keeps.
use vstd::prelude::*;
use crate::message::Message;
use crate::raft_log::{Command, LogEntry, entry_at, merged, is_first_new, holds_entry, lemma_merged_holds_entries};
use crate::peers::lookup;
use crate::quorum::{count_at_least, lemma_quorum_value_exists, lemma_quorum_value_unique, is_quorum_value, quorum_of};
use crate::raft::{voted, first_occurrence, member_votes_upto, lemma_peer_is_member, peers_of, vote_requests, is_append_entries_to, command_post, append_entries_response_post, leads_in_term, member_votes, apply_post, election_timeout_post, heartbeat_post, request_vote_post, Node, State, Role, Action, MessageBody, Reply, run_post, majority, advanced_commit, replicated_indices, append_entries_post, accepts_entries, term_observed, command_reply, command_effect, apply_entries};

verus! {

/// A server's term never goes down: whatever message it handles, its term afterwards is at
/// least its term before.
pub proof fn law_terms_never_decrease(pre: Node, post: Node, msg: Message<MessageBody>, actions: Seq<Action>)
    requires
        run_post(pre, post, msg, actions),
    ensures
        post.state.current_term >= pre.state.current_term,
{
}

/// A server votes for at most one candidate in a term: once it has voted, handling any message
/// that keeps its term keeps its vote.
pub proof fn law_one_vote_per_term(pre: Node, post: Node, msg: Message<MessageBody>, actions: Seq<Action>)
    requires
        run_post(pre, post, msg, actions),
        post.state.current_term == pre.state.current_term,
        pre.state.voted_for is Some,
    ensures
        post.state.voted_for is Some,
        post.state.voted_for->0@ == pre.state.voted_for->0@,
{
}

/// A leader never changes or drops an entry of its own log: while it stays leader, its log only
/// grows at the end.
pub proof fn law_leader_append_only(pre: Node, post: Node, msg: Message<MessageBody>, actions: Seq<Action>)
    requires
        run_post(pre, post, msg, actions),
        pre.state.role == Role::Leader,
        post.state.role == Role::Leader,
    ensures
        post.state.log@.len() >= pre.state.log@.len(),
        post.state.log@.take(pre.state.log@.len() as int) == pre.state.log@,
{
    assert(post.state.log@.take(pre.state.log@.len() as int) =~= pre.state.log@);
}

/// A server becomes leader on a message only by a reply to its vote request after which the
/// distinct member ids that voted for it make a majority of the members.
pub proof fn law_leader_needs_majority(pre: Node, post: Node, msg: Message<MessageBody>, actions: Seq<Action>)
    requires
        run_post(pre, post, msg, actions),
        pre.state.role != Role::Leader,
        post.state.role == Role::Leader,
    ensures
        msg.body is RequestVoteResponse,
        member_votes(post.member_ids@, post.state.votes_granted@) >= majority(post.member_ids@.len()),
{
}

/// A leader commits only an entry of its current term that a majority of the members has
/// replicated, and only beyond its commit index.
pub proof fn law_commit_needs_majority(s: State, id: Seq<char>, n: nat)
    requires
        advanced_commit(s, id, n) != s.commit_index,
        1 <= majority(n) <= replicated_indices(s, id).len(),
    ensures
        advanced_commit(s, id, n) > s.commit_index,
        count_at_least(replicated_indices(s, id), advanced_commit(s, id, n)) >= majority(n),
        entry_at(s.log@, advanced_commit(s, id, n) as int) is Some,
        entry_at(s.log@, advanced_commit(s, id, n) as int)->0.term == s.current_term,
{
    lemma_quorum_value_exists(replicated_indices(s, id), majority(n));
}

/// The commit index never goes down, whatever message the server handles.
pub proof fn law_commit_never_decreases(pre: Node, post: Node, msg: Message<MessageBody>, actions: Seq<Action>)
    requires
        run_post(pre, post, msg, actions),
    ensures
        post.state.commit_index >= pre.state.commit_index,
{
}

/// After a follower accepts an `AppendEntries`, its log keeps the entries up to the one the new
/// entries follow, and holds every new entry's term at that entry's index.
pub proof fn law_accepted_entries_match(
    pre: Node,
    post: Node,
    src: String,
    dest: String,
    msg_id: u64,
    term: u64,
    prev_log_index: u64,
    prev_log_term: u64,
    entries: Vec<LogEntry>,
    leader_commit: u64,
    actions: Seq<Action>,
)
    requires
        append_entries_post(pre, post, src, dest, msg_id, term, prev_log_index, prev_log_term, entries, leader_commit, actions),
        accepts_entries(term_observed(pre.state, term), term, prev_log_index, prev_log_term),
    ensures
        post.state.log@.len() >= prev_log_index + entries@.len(),
        post.state.log@.take(prev_log_index as int) == pre.state.log@.take(prev_log_index as int),
        forall|i: int|
            0 <= i < entries@.len() ==> #[trigger] post.state.log@[prev_log_index + i].term == entries@[i].term,
{
    lemma_merged_holds_entries(pre.state.log@, prev_log_index as int, entries@);
}

/// A committed read that follows a committed write of the same key answers with the written
/// value.
pub proof fn law_applied_read_after_write(m: Map<u64, i64>, write_id: u64, read_id: u64, key: u64, value: i64)
    ensures
        command_reply(
            command_effect(m, Command::Write { msg_id: write_id, key, value }),
            Command::Read { msg_id: read_id, key },
        ) == (Reply::ReadOk { in_reply_to: read_id, value }),
{
}

/// Applying entries one batch after another is applying them all at once.
pub proof fn law_apply_in_batches(m: Map<u64, i64>, first: Seq<LogEntry>, second: Seq<LogEntry>)
    ensures
        apply_entries(apply_entries(m, first), second) == apply_entries(m, first + second),
    decreases second.len(),
{
    if second.len() == 0 {
        assert(first + second =~= first);
    } else {
        law_apply_in_batches(m, first, second.drop_last());
        assert((first + second).drop_last() =~= first + second.drop_last());
    }
}

/// The outcome that a reply to `AppendEntries` reports: whether the entries were taken, and
/// how far the follower's log matches.
pub open spec fn append_outcome(a: Action) -> Option<(bool, u64)> {
    match a {
        Action::Send(m) => match m.body {
            MessageBody::AppendEntriesResponse { success, match_index, .. } => Some((success, match_index)),
            _ => None,
        },
        _ => None,
    }
}

/// Whether an action is a reply that grants a vote.
pub open spec fn grants_in_reply(a: Action) -> bool {
    match a {
        Action::Send(m) => match m.body {
            MessageBody::RequestVoteResponse { vote_granted, .. } => vote_granted,
            _ => false,
        },
        _ => false,
    }
}

/// A log that already holds all the new entries of an `AppendEntries` stays as it is when they
/// are merged again.
proof fn lemma_merged_idempotent(log: Seq<LogEntry>, prev: int, entries: Seq<LogEntry>)
    requires
        0 <= prev <= log.len(),
    ensures
        merged(merged(log, prev, entries), prev, entries) == merged(log, prev, entries),
{
    let m = merged(log, prev, entries);
    lemma_merged_holds_entries(log, prev, entries);
    if exists|j: int| is_first_new(m, prev, entries, j) {
        let j = choose|j: int| is_first_new(m, prev, entries, j);
        assert(m[prev + j].term == entries[j].term);
        assert(holds_entry(m, prev, entries, j));
    }
}

/// A retransmitted `AppendEntries` changes nothing: handled again right after the first time
/// (with any message id), it leaves the log, the commit index and the term as they are, and the
/// reply reports the same outcome.
pub proof fn law_append_entries_idempotent(
    n0: Node,
    n1: Node,
    n2: Node,
    src: String,
    dest: String,
    first_id: u64,
    second_id: u64,
    term: u64,
    prev_log_index: u64,
    prev_log_term: u64,
    entries: Vec<LogEntry>,
    leader_commit: u64,
    first_actions: Seq<Action>,
    second_actions: Seq<Action>,
)
    requires
        append_entries_post(n0, n1, src, dest, first_id, term, prev_log_index, prev_log_term, entries, leader_commit, first_actions),
        append_entries_post(n1, n2, src, dest, second_id, term, prev_log_index, prev_log_term, entries, leader_commit, second_actions),
    ensures
        n2.state.log@ == n1.state.log@,
        n2.state.commit_index == n1.state.commit_index,
        n2.state.current_term == n1.state.current_term,
        append_outcome(first_actions.last()) is Some,
        append_outcome(second_actions.last()) == append_outcome(first_actions.last()),
{
    let s1 = term_observed(n0.state, term);
    let ok = accepts_entries(s1, term, prev_log_index, prev_log_term);
    assert(term_observed(n1.state, term) == n1.state);
    if ok {
        lemma_merged_holds_entries(s1.log@, prev_log_index as int, entries@);
        lemma_merged_idempotent(s1.log@, prev_log_index as int, entries@);
        if prev_log_index > 0 {
            assert(n1.state.log@.take(prev_log_index as int)[prev_log_index - 1] == s1.log@.take(prev_log_index as int)[prev_log_index - 1]);
        }
        assert(accepts_entries(n1.state, term, prev_log_index, prev_log_term));
    } else {
        assert(!accepts_entries(n1.state, term, prev_log_index, prev_log_term));
    }
}

/// The store always holds what applying the log's first `last_applied` entries gives: if it
/// does when the committed entries are applied, it does afterwards, with every committed entry
/// applied once.
pub proof fn law_apply_keeps_store(pre: Node, post: Node, actions: Seq<Action>)
    requires
        apply_post(pre, post, actions),
        pre.state.last_applied <= pre.state.commit_index <= pre.state.log@.len(),
        pre.state.map@ == apply_entries(Map::empty(), pre.state.log@.take(pre.state.last_applied as int)),
    ensures
        post.state.last_applied == pre.state.commit_index,
        post.state.log@ == pre.state.log@,
        post.state.commit_index == pre.state.commit_index,
        post.state.map@ == apply_entries(Map::empty(), post.state.log@.take(post.state.last_applied as int)),
{
    let log = pre.state.log@;
    let a = pre.state.last_applied as int;
    let c = pre.state.commit_index as int;
    let es = pre.entries_to_apply();
    law_apply_in_batches(Map::empty(), log.take(a), es);
    if a < c {
        assert(log.take(a) + es =~= log.take(c));
    } else {
        assert(log.take(a) + es =~= log.take(a));
    }
}

/// In a term, a server grants its vote to at most one candidate: two grants handled one after
/// the other in the same term go to the same candidate.
pub proof fn law_grants_one_candidate_per_term(
    n0: Node,
    n1: Node,
    n2: Node,
    first: String,
    second: String,
    dest: String,
    first_id: u64,
    second_id: u64,
    term: u64,
    first_index: u64,
    first_last_term: u64,
    second_index: u64,
    second_last_term: u64,
    first_actions: Seq<Action>,
    second_actions: Seq<Action>,
)
    requires
        request_vote_post(n0, n1, first, dest, first_id, term, first_index, first_last_term, first_actions),
        request_vote_post(n1, n2, second, dest, second_id, term, second_index, second_last_term, second_actions),
        grants_in_reply(first_actions.last()),
        grants_in_reply(second_actions.last()),
    ensures
        first@ == second@,
{
    assert(term_observed(n1.state, term) == n1.state);
}

} // verus!

verus! {

/// Something that happens to one server: a message arrives, or one of its timers fires (the
/// election timer, the leader's heartbeat timer of a term, or the timer that applies
/// committed entries).
pub enum Event {
    Deliver(Message<MessageBody>),
    ElectionTimer,
    HeartbeatTimer(u64),
    ApplyTimer,
}

/// Server `pre` becomes `post` on `e`, taking `actions`. The election timer fires at a
/// follower or candidate only while it has terms and message ids to spare.
pub open spec fn node_step(pre: Node, post: Node, e: Event, actions: Seq<Action>) -> bool {
    match e {
        Event::Deliver(m) => run_post(pre, post, m, actions),
        Event::ElectionTimer => {
            &&& pre.state.role != Role::Leader ==> pre.can_start_election()
            &&& election_timeout_post(pre, post, actions)
        },
        Event::HeartbeatTimer(t) => exists|beat: Option<Vec<Action>>| heartbeat_post(pre, post, t, beat),
        Event::ApplyTimer => apply_post(pre, post, actions),
    }
}

/// `nodes[k + 1]` is what server `nodes[k]` becomes on `events[k]`, which calls for
/// `actions[k]`: a run of one server through any sequence of messages and timers.
pub open spec fn is_run(nodes: Seq<Node>, events: Seq<Event>, actions: Seq<Seq<Action>>) -> bool {
    &&& nodes.len() == events.len() + 1
    &&& actions.len() == events.len()
    &&& forall|k: int| 0 <= k < events.len() ==> #[trigger] node_step(nodes[k], nodes[k + 1], events[k], actions[k])
}

/// At step `k` of a run the server votes for `candidate` in term `t`: it grants a
/// `RequestVote` of term `t` from `candidate`, or its election timer fires and it starts an
/// election in term `t` as `candidate`.
pub open spec fn votes_at(nodes: Seq<Node>, events: Seq<Event>, actions: Seq<Seq<Action>>, k: int, t: u64, candidate: Seq<char>) -> bool {
    ||| {
        &&& events[k] matches Event::Deliver(m)
        &&& m.body matches MessageBody::RequestVote { term, .. } && term == t
        &&& m.src@ == candidate
        &&& grants_in_reply(actions[k].last())
    }
    ||| {
        &&& events[k] is ElectionTimer
        &&& nodes[k].state.role != Role::Leader
        &&& nodes[k + 1].state.current_term == t
        &&& nodes[k].id@ == candidate
    }
}

/// No step lowers a server's term, and a step that keeps the term keeps the vote cast in it.
proof fn lemma_step_keeps_term_and_vote(pre: Node, post: Node, e: Event, actions: Seq<Action>)
    requires
        node_step(pre, post, e, actions),
    ensures
        post.state.current_term >= pre.state.current_term,
        post.state.current_term == pre.state.current_term && pre.state.voted_for is Some ==> {
            &&& post.state.voted_for is Some
            &&& post.state.voted_for->0@ == pre.state.voted_for->0@
        },
{
    match e {
        Event::Deliver(m) => {
            law_terms_never_decrease(pre, post, m, actions);
            if post.state.current_term == pre.state.current_term && pre.state.voted_for is Some {
                law_one_vote_per_term(pre, post, m, actions);
            }
        },
        Event::HeartbeatTimer(t) => {
            let beat = choose|beat: Option<Vec<Action>>| heartbeat_post(pre, post, t, beat);
            assert(heartbeat_post(pre, post, t, beat));
        },
        _ => {},
    }
}

proof fn lemma_run_terms_monotone(nodes: Seq<Node>, events: Seq<Event>, actions: Seq<Seq<Action>>, k: int, l: int)
    requires
        is_run(nodes, events, actions),
        0 <= k <= l < nodes.len(),
    ensures
        nodes[k].state.current_term <= nodes[l].state.current_term,
    decreases l - k,
{
    if k < l {
        lemma_run_terms_monotone(nodes, events, actions, k, l - 1);
        let k = l - 1;
        assert(node_step(nodes[k], nodes[k + 1], events[k], actions[k]));
        lemma_step_keeps_term_and_vote(nodes[k], nodes[k + 1], events[k], actions[k]);
    }
}

proof fn lemma_vote_recorded(nodes: Seq<Node>, events: Seq<Event>, actions: Seq<Seq<Action>>, k: int, t: u64, candidate: Seq<char>)
    requires
        is_run(nodes, events, actions),
        0 <= k < events.len(),
        votes_at(nodes, events, actions, k, t, candidate),
    ensures
        nodes[k].state.current_term <= t,
        nodes[k + 1].state.current_term == t,
        nodes[k + 1].state.voted_for is Some,
        nodes[k + 1].state.voted_for->0@ == candidate,
        nodes[k].state.current_term == t && nodes[k].state.voted_for is Some ==> nodes[k].state.voted_for->0@
            == candidate,
{
    assert(node_step(nodes[k], nodes[k + 1], events[k], actions[k]));
}

proof fn lemma_vote_kept(
    nodes: Seq<Node>,
    events: Seq<Event>,
    actions: Seq<Seq<Action>>,
    i: int,
    j: int,
    l: int,
    t: u64,
    candidate: Seq<char>,
)
    requires
        is_run(nodes, events, actions),
        0 <= i < l <= j < events.len(),
        nodes[j].state.current_term <= t,
        nodes[i + 1].state.current_term == t,
        nodes[i + 1].state.voted_for is Some,
        nodes[i + 1].state.voted_for->0@ == candidate,
    ensures
        nodes[l].state.current_term == t,
        nodes[l].state.voted_for is Some,
        nodes[l].state.voted_for->0@ == candidate,
    decreases l - i,
{
    if l > i + 1 {
        lemma_vote_kept(nodes, events, actions, i, j, l - 1, t, candidate);
        lemma_run_terms_monotone(nodes, events, actions, l, j);
        lemma_run_terms_monotone(nodes, events, actions, l - 1, l);
        let k = l - 1;
        assert(node_step(nodes[k], nodes[k + 1], events[k], actions[k]));
        lemma_step_keeps_term_and_vote(nodes[k], nodes[k + 1], events[k], actions[k]);
    }
}

/// Over any run of a server, through any messages and timers, it votes for one candidate per
/// term: two steps that vote in the same term, however far apart, vote for the same id. In
/// particular, once its election timer has made it vote for itself in a term, it grants no
/// other candidate a vote in that term.
pub proof fn law_one_vote_per_term_in_any_run(
    nodes: Seq<Node>,
    events: Seq<Event>,
    actions: Seq<Seq<Action>>,
    i: int,
    j: int,
    t: u64,
    first: Seq<char>,
    second: Seq<char>,
)
    requires
        is_run(nodes, events, actions),
        0 <= i < j < events.len(),
        votes_at(nodes, events, actions, i, t, first),
        votes_at(nodes, events, actions, j, t, second),
    ensures
        first == second,
{
    lemma_vote_recorded(nodes, events, actions, i, t, first);
    lemma_vote_recorded(nodes, events, actions, j, t, second);
    lemma_vote_kept(nodes, events, actions, i, j, j, t, first);
}

} // verus!

verus! {

/// A leader logs a client request exactly as the client sent it: the new last entry of its log,
/// of the leader's term, carries the request's kind and every one of its fields unchanged, and
/// the entries before it stay as they were.
pub proof fn law_leader_logs_request_as_sent(pre: Node, post: Node, msg: Message<MessageBody>, actions: Seq<Action>)
    requires
        run_post(pre, post, msg, actions),
        pre.state.role == Role::Leader,
        msg.body is Read || msg.body is Write || msg.body is Cas,
    ensures
        post.state.log@.len() == pre.state.log@.len() + 1,
        post.state.log@.take(pre.state.log@.len() as int) == pre.state.log@,
        post.state.log@.last().term == pre.state.current_term,
        post.state.log@.last().msg.src == msg.src,
        post.state.log@.last().msg.dest == msg.dest,
        match msg.body {
            MessageBody::Read { msg_id, key } => post.state.log@.last().msg.body == Command::Read { msg_id, key },
            MessageBody::Write { msg_id, key, value } => post.state.log@.last().msg.body == Command::Write {
                msg_id,
                key,
                value,
            },
            MessageBody::Cas { msg_id, key, from, to } => post.state.log@.last().msg.body == Command::Cas {
                msg_id,
                key,
                from,
                to,
            },
            _ => false,
        },
{
    assert(command_post(pre, post, msg, actions));
    assert(post.state.log@.take(pre.state.log@.len() as int) =~= pre.state.log@);
}

/// What a committed request answers and leaves in a store `m`: a read of a present key answers
/// `read_ok` with the stored value and the read's id, of a missing key `key does not exist`; a
/// write stores its value; a compare-and-set whose `from` is the stored value stores `to` and
/// answers `cas_ok`, one whose `from` differs leaves the store and answers `precondition
/// failed`, and one of a missing key answers `key does not exist`.
pub proof fn law_committed_request_answers(m: Map<u64, i64>, c: Command)
    ensures
        match c {
            Command::Read { msg_id, key } => {
                &&& m.contains_key(key) ==> command_reply(m, c) == Reply::ReadOk { in_reply_to: msg_id, value: m[key] }
                &&& !m.contains_key(key) ==> command_reply(m, c) == Reply::KeyMissing { in_reply_to: msg_id }
                &&& command_effect(m, c) == m
            },
            Command::Write { msg_id, key, value } => {
                &&& command_reply(m, c) == Reply::WriteOk { in_reply_to: msg_id }
                &&& command_effect(m, c) == m.insert(key, value)
            },
            Command::Cas { msg_id, key, from, to } => {
                &&& m.contains_key(key) && m[key] == from ==> {
                    &&& command_reply(m, c) == Reply::CasOk { in_reply_to: msg_id }
                    &&& command_effect(m, c) == m.insert(key, to)
                }
                &&& m.contains_key(key) && m[key] != from ==> {
                    &&& command_reply(m, c) == Reply::PreconditionFailed { in_reply_to: msg_id }
                    &&& command_effect(m, c) == m
                }
                &&& !m.contains_key(key) ==> {
                    &&& command_reply(m, c) == Reply::KeyMissing { in_reply_to: msg_id }
                    &&& command_effect(m, c) == m
                }
            },
        },
{
}

/// A server grants a `RequestVote` exactly when the request's term is not behind its own, it
/// has voted for nobody else in that term, and the candidate's log is at least as up to date as
/// its own: a later last term, or the same last term and at least as many entries. A granted
/// vote is recorded as the server's vote.
pub proof fn law_vote_granted_exactly_when(
    pre: Node,
    post: Node,
    src: String,
    dest: String,
    msg_id: u64,
    term: u64,
    last_log_index: u64,
    last_log_term: u64,
    actions: Seq<Action>,
)
    requires
        request_vote_post(pre, post, src, dest, msg_id, term, last_log_index, last_log_term, actions),
    ensures
        ({
            let log = pre.state.log@;
            let own_last_term = if log.len() == 0 {
                0
            } else {
                log[log.len() - 1].term
            };
            grants_in_reply(actions.last()) <==> {
                &&& term >= pre.state.current_term
                &&& (term > pre.state.current_term || pre.state.voted_for is None || pre.state.voted_for->0@ == src@)
                &&& (last_log_term > own_last_term || (last_log_term == own_last_term && last_log_index >= log.len()))
            }
        }),
        grants_in_reply(actions.last()) ==> post.state.voted_for == Some(src),
{
}

/// In its own term (or a newer one) a server accepts an `AppendEntries` exactly when the entries
/// follow index 0 or an entry of its log at `prev_log_index` of term `prev_log_term`; it then
/// replies success with the index of the last new entry, keeps its log up to `prev_log_index`
/// and holds the new entries' terms after it, and its commit index becomes the leader's commit
/// index as far as the last new entry, if that is higher. Otherwise it replies failure with
/// index 0 and keeps its log and commit index.
pub proof fn law_append_accepted_exactly_when(
    pre: Node,
    post: Node,
    src: String,
    dest: String,
    msg_id: u64,
    term: u64,
    prev_log_index: u64,
    prev_log_term: u64,
    entries: Vec<LogEntry>,
    leader_commit: u64,
    actions: Seq<Action>,
)
    requires
        append_entries_post(pre, post, src, dest, msg_id, term, prev_log_index, prev_log_term, entries, leader_commit, actions),
    ensures
        ({
            let log = pre.state.log@;
            let ok = term >= pre.state.current_term && (prev_log_index == 0 || (prev_log_index <= log.len()
                && log[prev_log_index - 1].term == prev_log_term));
            &&& ok ==> append_outcome(actions.last()) == Some((true, (prev_log_index + entries@.len()) as u64))
            &&& !ok ==> append_outcome(actions.last()) == Some((false, 0u64))
            &&& ok ==> {
                &&& post.state.log@.len() >= prev_log_index + entries@.len()
                &&& post.state.log@.take(prev_log_index as int) == log.take(prev_log_index as int)
                &&& forall|i: int|
                    0 <= i < entries@.len() ==> #[trigger] post.state.log@[prev_log_index + i].term == entries@[i].term
            }
            &&& !ok ==> post.state.log@ == log
            &&& ({
                let last_new = prev_log_index + entries@.len();
                let target = if leader_commit <= last_new { leader_commit as int } else { last_new };
                &&& ok ==> post.state.commit_index == if target > pre.state.commit_index {
                    target
                } else {
                    pre.state.commit_index as int
                }
                &&& !ok ==> post.state.commit_index == pre.state.commit_index
            })
        }),
{
    let s1 = term_observed(pre.state, term);
    if accepts_entries(s1, term, prev_log_index, prev_log_term) {
        law_accepted_entries_match(pre, post, src, dest, msg_id, term, prev_log_index, prev_log_term, entries, leader_commit, actions);
    }
}

/// The leader's new commit index: with `r` the largest log index that a majority of the
/// members has replicated (the leader counting its whole log), the commit index becomes `r`
/// when `r` is beyond it and the leader's entry at `r` is of its current term, wherever `r`
/// stands in the log; otherwise it stays.
pub proof fn law_commit_is_majority_index(s: State, id: Seq<char>, n: nat, r: u64)
    requires
        n < 2 * replicated_indices(s, id).len(),
        replicated_indices(s, id).contains(r),
        2 * count_at_least(replicated_indices(s, id), r) > n,
        forall|i: int|
            0 <= i < replicated_indices(s, id).len() && 2 * count_at_least(replicated_indices(s, id), #[trigger] replicated_indices(s, id)[i])
                > n ==> replicated_indices(s, id)[i] <= r,
    ensures
        r > s.commit_index && 1 <= r <= s.log@.len() && s.log@[r - 1].term == s.current_term ==> advanced_commit(s, id, n) == r,
        !(r > s.commit_index && 1 <= r <= s.log@.len() && s.log@[r - 1].term == s.current_term) ==> advanced_commit(s, id, n)
            == s.commit_index,
{
    let rs = replicated_indices(s, id);
    lemma_quorum_value_exists(rs, majority(n));
    assert forall|i: int| 0 <= i < rs.len() && count_at_least(rs, rs[i]) >= majority(n) implies rs[i] <= r by {
        assert(2 * count_at_least(rs, rs[i]) > n);
    }
    assert(is_quorum_value(rs, majority(n), r));
    lemma_quorum_value_unique(rs, majority(n), r, quorum_of(rs, majority(n)));
}

/// The indices the leader's commit rule counts: one per entry of its match table, the follower's
/// recorded match index, except that the leader's own entry counts as its whole log.
pub proof fn law_replicated_indices(s: State, id: Seq<char>)
    ensures
        replicated_indices(s, id).len() == s.match_index@.len(),
        forall|i: int|
            0 <= i < s.match_index@.len() ==> #[trigger] replicated_indices(s, id)[i] == if s.match_index@[i].0@ == id {
                s.log@.len() as u64
            } else {
                s.match_index@[i].1
            },
{
}

/// A server that does not lead forwards a client request unchanged to the leader it knows;
/// knowing none, it answers `temporarily unavailable`, in reply to the request's own id.
pub proof fn law_non_leader_forwards_or_refuses(pre: Node, post: Node, msg: Message<MessageBody>, actions: Seq<Action>)
    requires
        run_post(pre, post, msg, actions),
        pre.state.role != Role::Leader,
        msg.body is Read || msg.body is Write || msg.body is Cas,
    ensures
        post.state.log@ == pre.state.log@,
        actions.len() == 1,
        pre.state.leader is Some ==> actions[0] == Action::Send(
            Message { src: msg.src, dest: pre.state.leader->0, body: msg.body },
        ),
        pre.state.leader is None ==> {
            &&& actions[0] matches Action::Send(r)
            &&& r.src == msg.dest
            &&& r.dest == msg.src
            &&& r.body matches MessageBody::Error { in_reply_to, code, .. }
            &&& code == crate::message::ErrorCode::TemporarilyUnavailable
            &&& match msg.body {
                MessageBody::Read { msg_id, .. } => in_reply_to == msg_id,
                MessageBody::Write { msg_id, .. } => in_reply_to == msg_id,
                MessageBody::Cas { msg_id, .. } => in_reply_to == msg_id,
                _ => false,
            }
        },
{
    assert(command_post(pre, post, msg, actions));
}

/// On a successful reply of its own term, a leader records the follower's match index and next
/// index, and moves its commit index to the largest index that a majority of the members has
/// replicated when that index is beyond it and of the current term, whether or not it is the
/// leader's last index; otherwise the commit index stays.
pub proof fn law_successful_reply_commits_majority_index(
    pre: Node,
    post: Node,
    src: String,
    dest: String,
    msg_id: u64,
    term: u64,
    match_index: u64,
    actions: Seq<Action>,
    r: u64,
)
    requires
        append_entries_response_post(pre, post, src, dest, msg_id, term, true, match_index, actions),
        leads_in_term(pre.state, term),
        pre.member_ids@.len() < 2 * replicated_indices(post.state, pre.id@).len(),
        replicated_indices(post.state, pre.id@).contains(r),
        2 * count_at_least(replicated_indices(post.state, pre.id@), r) > pre.member_ids@.len(),
        forall|i: int|
            0 <= i < replicated_indices(post.state, pre.id@).len() && 2 * count_at_least(
                replicated_indices(post.state, pre.id@),
                #[trigger] replicated_indices(post.state, pre.id@)[i],
            ) > pre.member_ids@.len() ==> replicated_indices(post.state, pre.id@)[i] <= r,
    ensures
        post.state.log@ == pre.state.log@,
        post.state.current_term == pre.state.current_term,
        ({
            let log = pre.state.log@;
            let advance = r > pre.state.commit_index && 1 <= r <= log.len() && log[r - 1].term == pre.state.current_term;
            &&& advance ==> post.state.commit_index == r
            &&& !advance ==> post.state.commit_index == pre.state.commit_index
        }),
{
    let s1 = term_observed(pre.state, term);
    let s2 = State { match_index: post.state.match_index, next_index: post.state.next_index, ..s1 };
    assert(replicated_indices(s2, pre.id@) == replicated_indices(post.state, pre.id@));
    law_commit_is_majority_index(s2, pre.id@, pre.member_ids@.len(), r);
}

/// When the election timer fires at a follower or candidate, it moves to the next term, votes
/// for itself, and asks each other member for its vote with a `RequestVote` of that term that
/// describes its log: its length and the term of its last entry (0 when empty).
pub proof fn law_election_asks_with_own_log(pre: Node, post: Node, actions: Seq<Action>)
    requires
        election_timeout_post(pre, post, actions),
        pre.state.role != Role::Leader,
        pre.can_start_election(),
    ensures
        post.state.current_term == pre.state.current_term + 1,
        post.state.voted_for == Some(pre.id),
        post.state.log == pre.state.log,
        ({
            let log = pre.state.log@;
            let last_term = if log.len() == 0 {
                0
            } else {
                log[log.len() - 1].term
            };
            forall|k: int|
                0 <= k < actions.len() && (#[trigger] actions[k] is Send) ==> {
                    &&& actions[k]->Send_0.src == pre.id
                    &&& actions[k]->Send_0.dest@ != pre.id@
                    &&& exists|i: int| 0 <= i < pre.member_ids@.len() && pre.member_ids@[i] == actions[k]->Send_0.dest
                    &&& actions[k]->Send_0.body matches MessageBody::RequestVote { term, last_log_index, last_log_term, .. }
                    &&& term == post.state.current_term
                    &&& last_log_index == log.len()
                    &&& last_log_term == last_term
                }
        }),
{
    let requests = vote_requests(
        pre.member_ids@,
        pre.id,
        pre.state.next_message_id,
        (pre.state.current_term + 1) as u64,
        pre.state.log@.len() as u64,
        crate::raft_log::last_term_of(pre.state.log@),
    );
    assert forall|k: int| 0 <= k < actions.len() && (#[trigger] actions[k] is Send) implies {
        &&& actions[k]->Send_0.src == pre.id
        &&& actions[k]->Send_0.dest@ != pre.id@
        &&& exists|i: int| 0 <= i < pre.member_ids@.len() && pre.member_ids@[i] == actions[k]->Send_0.dest
        &&& actions[k]->Send_0.body matches MessageBody::RequestVote { term, last_log_index, last_log_term, .. }
        &&& term == post.state.current_term
        &&& last_log_index == pre.state.log@.len()
        &&& last_log_term == (if pre.state.log@.len() == 0 {
            0
        } else {
            pre.state.log@[pre.state.log@.len() - 1].term
        })
    } by {
        assert(k < requests.len());
        assert(actions[k] == requests[k]);
        lemma_peer_is_member(pre.member_ids@, pre.id@, k);
    }
}

/// Each `AppendEntries` of a leader's beat goes from the leader to another member and carries
/// the leader's term and commit index, the index just before that member's next index with the
/// term of the leader's entry there (0 for index 0), and every entry of the leader's log from the
/// next index on.
pub proof fn law_heartbeat_sends_log_from_next_index(pre: Node, post: Node, term: u64, beat: Option<Vec<Action>>)
    requires
        heartbeat_post(pre, post, term, beat),
        pre.can_beat(term),
        term == pre.state.current_term,
        pre.state.role == Role::Leader,
    ensures
        post.state.log == pre.state.log,
        beat is Some,
        forall|k: int|
            0 <= k < beat->0@.len() ==> {
                let log = pre.state.log@;
                &&& #[trigger] beat->0@[k] is Send
                &&& beat->0@[k]->Send_0.src == pre.id
                &&& beat->0@[k]->Send_0.dest@ != pre.id@
                &&& beat->0@[k]->Send_0.body matches MessageBody::AppendEntries {
                    term: t,
                    prev_log_index,
                    prev_log_term,
                    entries,
                    leader_commit,
                    ..
                }
                &&& t == pre.state.current_term
                &&& leader_commit == pre.state.commit_index
                &&& prev_log_index + 1 == lookup(pre.state.next_index@, beat->0@[k]->Send_0.dest@)->0
                &&& prev_log_index <= log.len()
                &&& prev_log_index == 0 ==> prev_log_term == 0
                &&& prev_log_index > 0 ==> prev_log_term == log[prev_log_index - 1].term
                &&& entries@.len() == log.len() - prev_log_index
                &&& forall|i: int| 0 <= i < entries@.len() ==> #[trigger] entries@[i] == log[prev_log_index + i]
            },
{
    let actions = beat->0@;
    let peers = peers_of(pre.member_ids@, pre.id@);
    assert forall|k: int| 0 <= k < actions.len() implies {
        let log = pre.state.log@;
        &&& #[trigger] actions[k] is Send
        &&& actions[k]->Send_0.src == pre.id
        &&& actions[k]->Send_0.dest@ != pre.id@
        &&& actions[k]->Send_0.body matches MessageBody::AppendEntries {
            term: t,
            prev_log_index,
            prev_log_term,
            entries,
            leader_commit,
            ..
        }
        &&& t == pre.state.current_term
        &&& leader_commit == pre.state.commit_index
        &&& prev_log_index + 1 == lookup(pre.state.next_index@, actions[k]->Send_0.dest@)->0
        &&& prev_log_index <= log.len()
        &&& prev_log_index == 0 ==> prev_log_term == 0
        &&& prev_log_index > 0 ==> prev_log_term == log[prev_log_index - 1].term
        &&& entries@.len() == log.len() - prev_log_index
        &&& forall|i: int| 0 <= i < entries@.len() ==> #[trigger] entries@[i] == log[prev_log_index + i]
    } by {
        assert(is_append_entries_to(actions[k], pre.state, pre.id, peers[k], (pre.state.next_message_id + k) as u64));
        lemma_peer_is_member(pre.member_ids@, pre.id@, k);
        let i = choose|i: int| 0 <= i < pre.member_ids@.len() && #[trigger] pre.member_ids@[i] == peers[k];
        assert(pre.member_ids@[i]@ != pre.id@);
    }
}

/// A message of a newer term makes the server a follower of that term; the only vote it may then
/// hold in that term is one just granted to the sender of that very `RequestVote`.
pub proof fn law_newer_term_makes_a_follower(pre: Node, post: Node, msg: Message<MessageBody>, actions: Seq<Action>)
    requires
        run_post(pre, post, msg, actions),
        match msg.body {
            MessageBody::RequestVote { term, .. } => term > pre.state.current_term,
            MessageBody::RequestVoteResponse { term, .. } => term > pre.state.current_term,
            MessageBody::AppendEntries { term, .. } => term > pre.state.current_term,
            MessageBody::AppendEntriesResponse { term, .. } => term > pre.state.current_term,
            _ => false,
        },
    ensures
        post.state.role == Role::Follower,
        post.state.current_term == match msg.body {
            MessageBody::RequestVote { term, .. } => term,
            MessageBody::RequestVoteResponse { term, .. } => term,
            MessageBody::AppendEntries { term, .. } => term,
            MessageBody::AppendEntriesResponse { term, .. } => term,
            _ => 0,
        },
        post.state.voted_for is None || (msg.body is RequestVote && post.state.voted_for == Some(msg.src)),
        post.state.log@ == pre.state.log@ || msg.body is AppendEntries,
{
}

proof fn lemma_voted_push(votes: Seq<String>, v: String, x: Seq<char>)
    ensures
        voted(votes.push(v), x) <==> (voted(votes, x) || v@ == x),
{
    if voted(votes, x) {
        let j = choose|j: int| 0 <= j < votes.len() && votes[j]@ == x;
        assert(votes.push(v)[j] == votes[j]);
    }
    if v@ == x {
        assert(votes.push(v)[votes.len() as int] == v);
    }
    if voted(votes.push(v), x) && v@ != x {
        let j = choose|j: int| 0 <= j < votes.len() + 1 && votes.push(v)[j]@ == x;
        assert(votes[j] == votes.push(v)[j]);
    }
}

proof fn lemma_first_occurrence_exists(members: Seq<String>, i: int)
    requires
        0 <= i < members.len(),
    ensures
        exists|j: int| 0 <= j <= i && first_occurrence(members, j) && members[j]@ == members[i]@,
    decreases i,
{
    if !first_occurrence(members, i) {
        let j = choose|j: int| 0 <= j < i && members[j]@ == members[i]@;
        lemma_first_occurrence_exists(members, j);
    }
}

proof fn lemma_upto_push(members: Seq<String>, votes: Seq<String>, v: String, k: int)
    requires
        0 <= k <= members.len(),
    ensures
        member_votes_upto(members, votes.push(v), k) == member_votes_upto(members, votes, k) + if !voted(votes, v@) && exists|i: int|
            0 <= i < k && first_occurrence(members, i) && members[i]@ == v@ {
            1nat
        } else {
            0nat
        },
    decreases k,
{
    if k > 0 {
        let i = k - 1;
        lemma_upto_push(members, votes, v, i);
        lemma_voted_push(votes, v, members[i]@);
        if first_occurrence(members, i) && members[i]@ == v@ {
            if exists|i2: int| 0 <= i2 < i && first_occurrence(members, i2) && members[i2]@ == v@ {
                let i2 = choose|i2: int| 0 <= i2 < i && first_occurrence(members, i2) && members[i2]@ == v@;
                assert(members[i2]@ == members[i]@);
            }
        }
        if exists|i2: int| 0 <= i2 < k && first_occurrence(members, i2) && members[i2]@ == v@ {
            let i2 = choose|i2: int| 0 <= i2 < k && first_occurrence(members, i2) && members[i2]@ == v@;
            if i2 < i {
                assert(exists|i3: int| 0 <= i3 < i && first_occurrence(members, i3) && members[i3]@ == v@);
            }
        }
    }
}

/// How a leader counts votes: no votes count for nothing, and a vote added to a candidate's list
/// counts one more exactly when it comes from a member of the cluster that has not voted yet; a
/// repeated voter, or one that is no member, changes nothing.
pub proof fn law_votes_count_each_member_once(members: Seq<String>, votes: Seq<String>, v: String)
    ensures
        member_votes(members, Seq::<String>::empty()) == 0,
        member_votes(members, votes.push(v)) == member_votes(members, votes) + if (exists|j: int|
            0 <= j < members.len() && members[j]@ == v@) && !(exists|j: int| 0 <= j < votes.len() && votes[j]@ == v@) {
            1nat
        } else {
            0nat
        },
{
    assert(member_votes(members, Seq::<String>::empty()) == 0) by {
        lemma_no_votes(members, members.len() as int);
    }
    lemma_upto_push(members, votes, v, members.len() as int);
    if exists|j: int| 0 <= j < members.len() && members[j]@ == v@ {
        let j = choose|j: int| 0 <= j < members.len() && members[j]@ == v@;
        lemma_first_occurrence_exists(members, j);
    }
}

proof fn lemma_no_votes(members: Seq<String>, k: int)
    requires
        0 <= k <= members.len(),
    ensures
        member_votes_upto(members, Seq::<String>::empty(), k) == 0,
    decreases k,
{
    if k > 0 {
        lemma_no_votes(members, k - 1);
    }
}

} // verus!
