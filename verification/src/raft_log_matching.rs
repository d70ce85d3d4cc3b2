//! Log matching for a whole cluster of Raft servers: two logs that hold an entry of the same
//! term at the same index hold the same entries up to and including it.
use vstd::prelude::*;
use crate::message::Message;
use crate::raft_log::{LogEntry, merged, is_first_new, holds_entry};
use crate::raft::{
    Node, Role, Action, MessageBody, member_votes, majority, voted, peers_of, election_timeout_post, vote_requests,
    heartbeat_post, is_append_entries_to, apply_post, reply_body_is, command_reply, apply_entries, Reply,
};
use crate::raft_log::entry_at;
use crate::peers::lookup;
use crate::raft_cluster::{
    Cluster, cluster_inv, lemma_majorities_meet, sends, timeout_step, heartbeat_step, apply_step, deliver_step,
    lemma_timeout_keeps_inv, lemma_deliver_keeps_inv, cluster_step, cluster_init, lemma_step_keeps_inv, lemma_init_inv,
};
use crate::raft::{run_post, term_observed, accepts_entries, lemma_peer_is_member};

verus! {

/// What a run has built up besides the cluster itself: for each server that has led a term,
/// the votes that made it leader; and for each entry that a leader has added to its log (by
/// its term and 0-based index), the log up to and including it at that moment.
pub struct Ledger {
    pub leaders: Map<(Seq<char>, u64), Seq<String>>,
    pub created: Map<(u64, int), Seq<LogEntry>>,
}

/// Every prefix of `log` is the one that was created with its last entry.
pub open spec fn canonical(log: Seq<LogEntry>, created: Map<(u64, int), Seq<LogEntry>>) -> bool {
    forall|i: int|
        0 <= i < log.len() ==> {
            &&& created.contains_key((#[trigger] log[i].term, i))
            &&& created[(log[i].term, i)] == log.take(i + 1)
        }
}

/// The log that an `AppendEntries` after index `prev` of term `prev_term` stands for: the
/// prefix created with that entry, then the entries it carries.
pub open spec fn sender_log(prev: u64, prev_term: u64, entries: Seq<LogEntry>, created: Map<(u64, int), Seq<LogEntry>>) -> Seq<LogEntry> {
    if prev == 0 {
        entries
    } else {
        created[(prev_term, prev - 1)] + entries
    }
}

/// An `AppendEntries` is one that the recorded leader of its term sent to another server, and
/// it stands for a log whose every prefix was created.
pub open spec fn append_entries_ok(m: Message<MessageBody>, g: Ledger) -> bool {
    match m.body {
        MessageBody::AppendEntries { term, prev_log_index, prev_log_term, entries, .. } => {
            &&& prev_log_index > 0 ==> g.created.contains_key((prev_log_term, prev_log_index - 1))
            &&& canonical(sender_log(prev_log_index, prev_log_term, entries@, g.created), g.created)
            &&& g.leaders.contains_key((m.src@, term))
            &&& m.src@ != m.dest@
        },
        _ => true,
    }
}

/// Each recorded leader of a term won it with the votes of a majority of distinct members.
pub open spec fn leaders_won(c: Cluster, members: Seq<String>, leaders: Map<(Seq<char>, u64), Seq<String>>) -> bool {
    forall|l: Seq<char>, t: u64|
        #[trigger] leaders.contains_key((l, t)) ==> {
            &&& member_votes(members, leaders[(l, t)]) >= majority(members.len())
            &&& forall|j: int|
                0 <= j < leaders[(l, t)].len() ==> c.votes.contains((#[trigger] leaders[(l, t)][j]@, t, l))
        }
}

/// What every reachable cluster keeps about its logs, given what the run has built up.
pub open spec fn ledger_inv(c: Cluster, members: Seq<String>, g: Ledger) -> bool {
    &&& leaders_won(c, members, g.leaders)
    // a server that led a term has reached it, and leads as long as it stays in it
    &&& forall|l: Seq<char>, t: u64|
        #[trigger] g.leaders.contains_key((l, t)) ==> {
            &&& c.nodes.contains_key(l)
            &&& t <= c.nodes[l].state.current_term
            &&& t == c.nodes[l].state.current_term ==> c.nodes[l].state.role == Role::Leader
        }
    // every leader is recorded
    &&& forall|k: Seq<char>|
        #[trigger] c.nodes.contains_key(k) && c.nodes[k].state.role == Role::Leader ==> g.leaders.contains_key(
            (k, c.nodes[k].state.current_term),
        )
    // an entry was created by a recorded leader of its term, which holds it while in that term
    &&& forall|t: u64, i: int|
        #[trigger] g.created.contains_key((t, i)) ==> {
            &&& 0 <= i
            &&& g.created[(t, i)].len() == i + 1
            &&& g.created[(t, i)][i].term == t
            &&& exists|l: Seq<char>| #[trigger] g.leaders.contains_key((l, t))
            &&& forall|l: Seq<char>|
                #[trigger] g.leaders.contains_key((l, t)) && c.nodes[l].state.current_term == t ==> {
                    &&& i < c.nodes[l].state.log@.len()
                    &&& c.nodes[l].state.log@[i].term == t
                }
        }
    // every server's log is canonical
    &&& forall|k: Seq<char>| #[trigger] c.nodes.contains_key(k) ==> canonical(c.nodes[k].state.log@, g.created)
    // every `AppendEntries` sent is sound
    &&& forall|m: Message<MessageBody>| #[trigger] c.sent.contains(m) ==> append_entries_ok(m, g)
}

/// Two recorded leaders of one term are the same server.
pub proof fn lemma_leaders_unique(c: Cluster, members: Seq<String>, leaders: Map<(Seq<char>, u64), Seq<String>>, a: Seq<char>, b: Seq<char>, t: u64)
    requires
        cluster_inv(c, members),
        leaders_won(c, members, leaders),
        leaders.contains_key((a, t)),
        leaders.contains_key((b, t)),
    ensures
        a == b,
{
    let va = leaders[(a, t)];
    let vb = leaders[(b, t)];
    lemma_majorities_meet(members, va, vb);
    let i = choose|i: int| 0 <= i < members.len() && voted(va, members[i]@) && voted(vb, members[i]@);
    let v = members[i]@;
    let ja = choose|j: int| 0 <= j < va.len() && va[j]@ == v;
    let jb = choose|j: int| 0 <= j < vb.len() && vb[j]@ == v;
    assert(c.votes.contains((va[ja]@, t, a)));
    assert(c.votes.contains((vb[jb]@, t, b)));
}

/// A log stays canonical when more prefixes are recorded.
proof fn lemma_canonical_grows(log: Seq<LogEntry>, created: Map<(u64, int), Seq<LogEntry>>, more: Map<(u64, int), Seq<LogEntry>>)
    requires
        canonical(log, created),
        created <= more,
    ensures
        canonical(log, more),
{
    assert forall|i: int| 0 <= i < log.len() implies {
        &&& more.contains_key((#[trigger] log[i].term, i))
        &&& more[(log[i].term, i)] == log.take(i + 1)
    } by {
        assert(created.contains_key((log[i].term, i)));
    }
}

/// A log that holds the entry an `AppendEntries` follows, merged with its entries, stays
/// canonical: it is either the log as it was or the log the message stands for.
proof fn lemma_merge_canonical(log: Seq<LogEntry>, prev: u64, prev_term: u64, entries: Seq<LogEntry>, created: Map<(u64, int), Seq<LogEntry>>)
    requires
        canonical(log, created),
        canonical(sender_log(prev, prev_term, entries, created), created),
        prev > 0 ==> created.contains_key((prev_term, prev - 1)),
        prev > 0 ==> created[(prev_term, prev - 1)].len() == prev,
        prev == 0 || (1 <= prev <= log.len() && log[prev - 1].term == prev_term),
    ensures
        canonical(merged(log, prev as int, entries), created),
{
    let p = prev as int;
    let s = sender_log(prev, prev_term, entries, created);
    if p > 0 {
        assert(log.take(p) == created[(prev_term, p - 1)]);
        assert(s.take(p) =~= log.take(p));
    } else {
        assert(s =~= log.take(0) + entries);
    }
    assert(s =~= log.take(p) + entries);
    if exists|j: int| is_first_new(log, p, entries, j) {
        let j = choose|j: int| is_first_new(log, p, entries, j);
        assert forall|k: int| 0 <= k < j implies log[p + k] == entries[k] by {
            assert(holds_entry(log, p, entries, k));
            assert(log.take(p + k + 1) == created[(log[p + k].term, p + k)]);
            assert(s[p + k] == entries[k]);
            assert(s.take(p + k + 1) == created[(s[p + k].term, p + k)]);
            assert(log.take(p + k + 1)[p + k] == log[p + k]);
        }
        if j > 0 {
            assert(holds_entry(log, p, entries, j - 1));
        }
        let t = log.take(p + j) + entries.skip(j);
        assert forall|x: int| 0 <= x < s.len() implies t[x] == s[x] by {
            if p <= x < p + j {
                assert(log[p + (x - p)] == entries[x - p]);
            }
        }
        assert(t =~= s);
    }
}

/// The recorded leaders once server `id` is in state `n`: a leader of a term not yet recorded is
/// recorded with the votes that made it leader.
pub open spec fn next_leaders(leaders: Map<(Seq<char>, u64), Seq<String>>, id: Seq<char>, n: Node) -> Map<(Seq<char>, u64), Seq<String>> {
    if n.state.role == Role::Leader && !leaders.contains_key((id, n.state.current_term)) {
        leaders.insert((id, n.state.current_term), n.state.votes_granted@)
    } else {
        leaders
    }
}

/// A leader has not yet created an entry just past the end of its log.
proof fn lemma_append_fresh(c: Cluster, members: Seq<String>, g: Ledger, id: Seq<char>)
    requires
        cluster_inv(c, members),
        ledger_inv(c, members, g),
        c.nodes.contains_key(id),
        c.nodes[id].state.role == Role::Leader,
    ensures
        !g.created.contains_key((c.nodes[id].state.current_term, c.nodes[id].state.log@.len() as int)),
{
    let t = c.nodes[id].state.current_term;
    assert(g.leaders.contains_key((id, t)));
}

/// One server stepping from `pre.nodes[id]` to `n` keeps the invariant, when its term does not
/// go down, a leader that stays in its term stays leader and keeps its log as a prefix, the only
/// new entry recorded is one it appended as leader, its new log is canonical, and what it sends
/// is sound.
proof fn lemma_server_step(
    pre: Cluster,
    post: Cluster,
    members: Seq<String>,
    g: Ledger,
    id: Seq<char>,
    n: Node,
    sent: Set<Message<MessageBody>>,
    created2: Map<(u64, int), Seq<LogEntry>>,
)
    requires
        cluster_inv(pre, members),
        cluster_inv(post, members),
        ledger_inv(pre, members, g),
        pre.nodes.contains_key(id),
        post.nodes == pre.nodes.insert(id, n),
        post.sent == pre.sent + sent,
        pre.votes <= post.votes,
        n.state.current_term >= pre.nodes[id].state.current_term,
        pre.nodes[id].state.role == Role::Leader && n.state.current_term == pre.nodes[id].state.current_term ==> {
            &&& n.state.role == Role::Leader
            &&& pre.nodes[id].state.log@.len() <= n.state.log@.len()
            &&& n.state.log@.take(pre.nodes[id].state.log@.len() as int) == pre.nodes[id].state.log@
        },
        g.created <= created2,
        forall|key: (u64, int)|
            #[trigger] created2.contains_key(key) && !g.created.contains_key(key) ==> {
                &&& key == (pre.nodes[id].state.current_term, pre.nodes[id].state.log@.len() as int)
                &&& pre.nodes[id].state.role == Role::Leader
                &&& n.state.current_term == pre.nodes[id].state.current_term
                &&& n.state.log@.len() == pre.nodes[id].state.log@.len() + 1
                &&& created2[key] == n.state.log@
                &&& n.state.log@[key.1].term == key.0
            },
        canonical(n.state.log@, created2),
        forall|m: Message<MessageBody>|
            #[trigger] sent.contains(m) ==> append_entries_ok(m, Ledger { leaders: g.leaders, created: created2 }),
    ensures
        ledger_inv(post, members, Ledger { leaders: next_leaders(g.leaders, id, n), created: created2 }),
{
    let p = pre.nodes[id];
    let l2 = next_leaders(g.leaders, id, n);
    let g2 = Ledger { leaders: l2, created: created2 };
    assert(g.leaders <= l2);
    // the recorded leaders won their terms
    assert forall|l: Seq<char>, t: u64| #[trigger] l2.contains_key((l, t)) implies {
        &&& member_votes(members, l2[(l, t)]) >= majority(members.len())
        &&& forall|j: int| 0 <= j < l2[(l, t)].len() ==> post.votes.contains((#[trigger] l2[(l, t)][j]@, t, l))
    } by {
        if g.leaders.contains_key((l, t)) {
            assert(l2[(l, t)] == g.leaders[(l, t)]);
            assert forall|j: int| 0 <= j < l2[(l, t)].len() implies post.votes.contains((#[trigger] l2[(l, t)][j]@, t, l)) by {
                assert(pre.votes.contains((g.leaders[(l, t)][j]@, t, l)));
            }
        } else {
            assert(post.nodes.contains_key(id));
            assert(post.nodes[id] == n);
            assert forall|j: int| 0 <= j < l2[(l, t)].len() implies post.votes.contains((#[trigger] l2[(l, t)][j]@, t, l)) by {
                assert(post.nodes[id].state.votes_granted@[j] == l2[(l, t)][j]);
            }
        }
    }
    assert(leaders_won(post, members, l2));
    // a server that led a term stays in it only as leader
    assert forall|l: Seq<char>, t: u64| #[trigger] l2.contains_key((l, t)) implies {
        &&& post.nodes.contains_key(l)
        &&& t <= post.nodes[l].state.current_term
        &&& t == post.nodes[l].state.current_term ==> post.nodes[l].state.role == Role::Leader
    } by {
        if g.leaders.contains_key((l, t)) {
            assert(pre.nodes.contains_key(l));
        }
    }
    // every leader is recorded
    assert forall|k: Seq<char>| #[trigger] post.nodes.contains_key(k) && post.nodes[k].state.role == Role::Leader implies l2.contains_key(
        (k, post.nodes[k].state.current_term),
    ) by {
        if k != id {
            assert(pre.nodes.contains_key(k));
        }
    }
    // created entries
    assert forall|t: u64, i: int| #[trigger] created2.contains_key((t, i)) implies {
        &&& 0 <= i
        &&& created2[(t, i)].len() == i + 1
        &&& created2[(t, i)][i].term == t
        &&& exists|l: Seq<char>| #[trigger] l2.contains_key((l, t))
        &&& forall|l: Seq<char>|
            #[trigger] l2.contains_key((l, t)) && post.nodes[l].state.current_term == t ==> {
                &&& i < post.nodes[l].state.log@.len()
                &&& post.nodes[l].state.log@[i].term == t
            }
    } by {
        let fresh = !g.created.contains_key((t, i));
        if fresh {
            assert(g.leaders.contains_key((id, t)));
            assert(l2.contains_key((id, t)));
        } else {
            let w = choose|l: Seq<char>| #[trigger] g.leaders.contains_key((l, t));
            assert(l2.contains_key((w, t)));
        }
        assert forall|l: Seq<char>| #[trigger] l2.contains_key((l, t)) && post.nodes[l].state.current_term == t implies {
            &&& i < post.nodes[l].state.log@.len()
            &&& post.nodes[l].state.log@[i].term == t
        } by {
            if g.leaders.contains_key((l, t)) {
                if l != id {
                    assert(pre.nodes.contains_key(l));
                    if fresh {
                        lemma_leaders_unique(pre, members, g.leaders, l, id, t);
                    }
                } else {
                    assert(p.state.current_term == t);
                    if !fresh {
                        assert(p.state.log@[i] == n.state.log@.take(p.state.log@.len() as int)[i]);
                    }
                }
            } else {
                // `l` became leader of `t` in this step: nothing of term `t` was created before
                assert(l == id);
                if !fresh {
                    let w = choose|w: Seq<char>| #[trigger] g.leaders.contains_key((w, t));
                    assert(l2.contains_key((w, t)));
                    lemma_leaders_unique(post, members, l2, w, id, t);
                }
            }
        }
    }
    // logs are canonical
    assert forall|k: Seq<char>| #[trigger] post.nodes.contains_key(k) implies canonical(post.nodes[k].state.log@, created2) by {
        if k != id {
            assert(pre.nodes.contains_key(k));
            lemma_canonical_grows(pre.nodes[k].state.log@, g.created, created2);
        }
    }
    // what was sent is sound
    assert forall|m: Message<MessageBody>| #[trigger] post.sent.contains(m) implies append_entries_ok(m, g2) by {
        if pre.sent.contains(m) {
            assert(append_entries_ok(m, g));
            match m.body {
                MessageBody::AppendEntries { term, prev_log_index, prev_log_term, entries, .. } => {
                    if prev_log_index > 0 {
                        let key = (prev_log_term, prev_log_index - 1);
                        assert(g.created.contains_key(key));
                        assert(created2.contains_key(key));
                        assert(created2[key] == g.created[key]);
                    }
                    assert(sender_log(prev_log_index, prev_log_term, entries@, created2) == sender_log(
                        prev_log_index,
                        prev_log_term,
                        entries@,
                        g.created,
                    ));
                    lemma_canonical_grows(sender_log(prev_log_index, prev_log_term, entries@, g.created), g.created, created2);
                },
                _ => {},
            }
        } else {
            assert(sent.contains(m));
        }
    }
}

/// Actions none of which sends an `AppendEntries`.
pub open spec fn sends_no_append_entries(actions: Seq<Action>) -> bool {
    forall|k: int| 0 <= k < actions.len() ==> !(#[trigger] actions[k] matches Action::Send(m) && m.body is AppendEntries)
}

proof fn lemma_sends_sound(actions: Seq<Action>, g: Ledger)
    requires
        sends_no_append_entries(actions),
    ensures
        forall|m: Message<MessageBody>| #[trigger] sends(actions).contains(m) ==> append_entries_ok(m, g),
{
    assert forall|m: Message<MessageBody>| #[trigger] sends(actions).contains(m) implies append_entries_ok(m, g) by {
        assert(actions.contains(Action::Send(m)));
        let k = choose|k: int| 0 <= k < actions.len() && actions[k] == Action::Send(m);
        assert(actions[k] == Action::Send(m));
    }
}

/// A server's election timer firing keeps the invariant.
proof fn lemma_timeout_ledger(
    pre: Cluster,
    post: Cluster,
    members: Seq<String>,
    g: Ledger,
    id: Seq<char>,
    n: Node,
    actions: Seq<Action>,
) -> (g2: Ledger)
    requires
        cluster_inv(pre, members),
        ledger_inv(pre, members, g),
        timeout_step(pre, post, id, n, actions),
    ensures
        cluster_inv(post, members),
        ledger_inv(post, members, g2),
{
    let p = pre.nodes[id];
    lemma_timeout_keeps_inv(pre, post, members, id, n, actions);
    assert(n.state.log == p.state.log);
    if p.state.role != Role::Leader {
        let requests = vote_requests(p.member_ids@, p.id, p.state.next_message_id, (p.state.current_term + 1) as u64, p.state.log@.len() as u64, crate::raft_log::last_term_of(p.state.log@));
        assert forall|k: int| 0 <= k < actions.len() implies !(#[trigger] actions[k] matches Action::Send(m) && m.body is AppendEntries) by {
            if k < requests.len() {
                assert(actions[k] == requests[k]);
            }
        }
    }
    lemma_sends_sound(actions, Ledger { leaders: g.leaders, created: g.created });
    assert(n.state.log@.take(p.state.log@.len() as int) =~= p.state.log@);
    lemma_server_step(pre, post, members, g, id, n, sends(actions), g.created);
    Ledger { leaders: next_leaders(g.leaders, id, n), created: g.created }
}

/// A leader's heartbeat keeps the invariant: each `AppendEntries` it sends stands for its own
/// log.
proof fn lemma_heartbeat_ledger(
    pre: Cluster,
    post: Cluster,
    members: Seq<String>,
    g: Ledger,
    id: Seq<char>,
    term: u64,
    n: Node,
    beat: Option<Vec<Action>>,
) -> (g2: Ledger)
    requires
        cluster_inv(pre, members),
        cluster_inv(post, members),
        ledger_inv(pre, members, g),
        heartbeat_step(pre, post, id, term, n, beat),
    ensures
        ledger_inv(post, members, g2),
{
    let p = pre.nodes[id];
    let sent = match beat {
        Some(actions) => sends(actions@),
        None => Set::<Message<MessageBody>>::empty(),
    };
    assert(p.id@ == id);
    assert forall|m: Message<MessageBody>| #[trigger] sent.contains(m) implies append_entries_ok(m, g) by {
        let actions = beat->0@;
        assert(actions.contains(Action::Send(m)));
        let k = choose|k: int| 0 <= k < actions.len() && actions[k] == Action::Send(m);
        let peers = peers_of(p.member_ids@, p.id@);
        assert(is_append_entries_to(actions[k], p.state, p.id, peers[k], (p.state.next_message_id + k) as u64));
        lemma_peer_is_member(p.member_ids@, p.id@, k);
        let i = choose|i: int| 0 <= i < p.member_ids@.len() && #[trigger] p.member_ids@[i] == peers[k];
        assert(p.member_ids@[i]@ != p.id@);
        let log = p.state.log@;
        let next = lookup(p.state.next_index@, peers[k]@)->0;
        let prev = (next - 1) as u64;
        assert(1 <= next <= log.len() + 1);
        match m.body {
            MessageBody::AppendEntries { term: t, prev_log_index, prev_log_term, entries, .. } => {
                assert(entries@ == log.skip(prev as int));
                if prev > 0 {
                    assert(entry_at(log, prev as int) == Some(log[prev - 1]));
                    assert(log.take(prev as int) == g.created[(prev_log_term, prev - 1)]);
                }
                assert(sender_log(prev_log_index, prev_log_term, entries@, g.created) =~= log);
                assert(g.leaders.contains_key((p.id@, p.state.current_term)));
            },
            _ => {},
        }
    }
    assert(n.state.log@.take(p.state.log@.len() as int) =~= p.state.log@);
    lemma_server_step(pre, post, members, g, id, n, sent, g.created);
    Ledger { leaders: next_leaders(g.leaders, id, n), created: g.created }
}

/// Applying committed entries keeps the invariant.
proof fn lemma_apply_ledger(
    pre: Cluster,
    post: Cluster,
    members: Seq<String>,
    g: Ledger,
    id: Seq<char>,
    n: Node,
    actions: Seq<Action>,
) -> (g2: Ledger)
    requires
        cluster_inv(pre, members),
        cluster_inv(post, members),
        ledger_inv(pre, members, g),
        apply_step(pre, post, id, n, actions),
    ensures
        ledger_inv(post, members, g2),
{
    let p = pre.nodes[id];
    assert forall|k: int| 0 <= k < actions.len() implies !(#[trigger] actions[k] matches Action::Send(m) && m.body is AppendEntries) by {
        if p.state.role == Role::Leader {
            let es = p.entries_to_apply();
            let reply = command_reply(apply_entries(p.state.map@, es.take(k)), es[k].msg.body);
            match actions[k] {
                Action::Send(m) => {
                    assert(reply_body_is(m.body, reply, (p.state.next_message_id + k) as u64));
                    match reply {
                        Reply::ReadOk { .. } => {},
                        Reply::WriteOk { .. } => {},
                        Reply::CasOk { .. } => {},
                        Reply::KeyMissing { .. } => {},
                        Reply::PreconditionFailed { .. } => {},
                    }
                },
                _ => {},
            }
        }
    }
    lemma_sends_sound(actions, Ledger { leaders: g.leaders, created: g.created });
    assert(n.state.log@.take(p.state.log@.len() as int) =~= p.state.log@);
    lemma_server_step(pre, post, members, g, id, n, sends(actions), g.created);
    Ledger { leaders: next_leaders(g.leaders, id, n), created: g.created }
}

/// A server handling a message keeps the invariant: a leader's new entry is recorded, and a
/// follower merges only entries that the leader of their term sent.
proof fn lemma_deliver_ledger(
    pre: Cluster,
    post: Cluster,
    members: Seq<String>,
    g: Ledger,
    m: Message<MessageBody>,
    n: Node,
    actions: Seq<Action>,
) -> (g2: Ledger)
    requires
        cluster_inv(pre, members),
        ledger_inv(pre, members, g),
        deliver_step(pre, post, m, n, actions),
    ensures
        cluster_inv(post, members),
        ledger_inv(post, members, g2),
{
    let id = m.dest@;
    let p = pre.nodes[id];
    let log = p.state.log@;
    lemma_deliver_keeps_inv(pre, post, members, m, n, actions);
    assert(p.id@ == id);
    assert(run_post(p, n, m, actions));
    let mut created2 = g.created;
    match m.body {
        MessageBody::Read { .. } | MessageBody::Write { .. } | MessageBody::Cas { .. } => {
            if p.state.role == Role::Leader {
                lemma_append_fresh(pre, members, g, id);
                let key = (p.state.current_term, log.len() as int);
                created2 = g.created.insert(key, n.state.log@);
                assert forall|i: int| 0 <= i < n.state.log@.len() implies {
                    &&& created2.contains_key((#[trigger] n.state.log@[i].term, i))
                    &&& created2[(n.state.log@[i].term, i)] == n.state.log@.take(i + 1)
                } by {
                    if i < log.len() {
                        assert(n.state.log@[i] == log[i]);
                        assert(g.created.contains_key((log[i].term, i)));
                        assert(n.state.log@.take(i + 1) =~= log.take(i + 1));
                    } else {
                        assert(n.state.log@.take(i + 1) =~= n.state.log@);
                    }
                }
                assert(n.state.log@.take(log.len() as int) =~= log);
            }
        },
        MessageBody::AppendEntries { term, prev_log_index, prev_log_term, entries, .. } => {
            assert(pre.sent.contains(m));
            assert(append_entries_ok(m, g));
            if p.state.role == Role::Leader && term == p.state.current_term {
                assert(g.leaders.contains_key((id, p.state.current_term)));
                lemma_leaders_unique(pre, members, g.leaders, m.src@, id, term);
            }
            let s1 = term_observed(p.state, term);
            if accepts_entries(s1, term, prev_log_index, prev_log_term) {
                if prev_log_index > 0 {
                    assert(g.created.contains_key((prev_log_term, prev_log_index - 1)));
                }
                lemma_merge_canonical(log, prev_log_index, prev_log_term, entries@, g.created);
            }
            assert(n.state.log@.take(log.len() as int) =~= log || n.state.current_term != p.state.current_term
                || p.state.role != Role::Leader);
        },
        _ => {
            assert(n.state.log@ == log);
            assert(n.state.log@.take(log.len() as int) =~= log);
        },
    }
    assert forall|k: int| 0 <= k < actions.len() implies !(#[trigger] actions[k] matches Action::Send(r) && r.body is AppendEntries) by {
    }
    lemma_sends_sound(actions, Ledger { leaders: g.leaders, created: created2 });
    lemma_server_step(pre, post, members, g, id, n, sends(actions), created2);
    Ledger { leaders: next_leaders(g.leaders, id, n), created: created2 }
}

/// Any cluster step keeps the invariant, with what the run has built up extended by the step.
proof fn lemma_ledger_step(pre: Cluster, post: Cluster, members: Seq<String>, g: Ledger) -> (g2: Ledger)
    requires
        cluster_inv(pre, members),
        ledger_inv(pre, members, g),
        cluster_step(pre, post),
    ensures
        cluster_inv(post, members),
        ledger_inv(post, members, g2),
{
    lemma_step_keeps_inv(pre, post, members);
    if exists|m: Message<MessageBody>, n: Node, actions: Seq<Action>| deliver_step(pre, post, m, n, actions) {
        let (m, n, actions) = choose|m: Message<MessageBody>, n: Node, actions: Seq<Action>|
            deliver_step(pre, post, m, n, actions);
        lemma_deliver_ledger(pre, post, members, g, m, n, actions)
    } else if exists|id: Seq<char>, n: Node, actions: Seq<Action>| timeout_step(pre, post, id, n, actions) {
        let (id, n, actions) = choose|id: Seq<char>, n: Node, actions: Seq<Action>|
            timeout_step(pre, post, id, n, actions);
        lemma_timeout_ledger(pre, post, members, g, id, n, actions)
    } else if exists|id: Seq<char>, term: u64, n: Node, beat: Option<Vec<Action>>| heartbeat_step(pre, post, id, term, n, beat) {
        let (id, term, n, beat) = choose|id: Seq<char>, term: u64, n: Node, beat: Option<Vec<Action>>|
            heartbeat_step(pre, post, id, term, n, beat);
        lemma_heartbeat_ledger(pre, post, members, g, id, term, n, beat)
    } else {
        let (id, n, actions) = choose|id: Seq<char>, n: Node, actions: Seq<Action>|
            apply_step(pre, post, id, n, actions);
        lemma_apply_ledger(pre, post, members, g, id, n, actions)
    }
}

/// Every cluster reached from the start keeps both invariants, for what the run has built up.
proof fn lemma_run_ledger(clusters: Seq<Cluster>, members: Seq<String>, i: int) -> (g: Ledger)
    requires
        clusters.len() > 0,
        cluster_init(clusters[0], members),
        forall|k: int| 0 <= k < clusters.len() - 1 ==> #[trigger] cluster_step(clusters[k], clusters[k + 1]),
        0 <= i < clusters.len(),
    ensures
        cluster_inv(clusters[i], members),
        ledger_inv(clusters[i], members, g),
    decreases i,
{
    if i == 0 {
        lemma_init_inv(clusters[0], members);
        let g = Ledger { leaders: Map::empty(), created: Map::empty() };
        assert forall|k: Seq<char>| #[trigger] clusters[0].nodes.contains_key(k) implies canonical(
            clusters[0].nodes[k].state.log@,
            g.created,
        ) by {
            assert(clusters[0].nodes[k].state.log@.len() == 0);
        }
        g
    } else {
        let g = lemma_run_ledger(clusters, members, i - 1);
        let k = i - 1;
        assert(cluster_step(clusters[k], clusters[k + 1]));
        lemma_ledger_step(clusters[k], clusters[k + 1], members, g)
    }
}

/// Log matching over any run of a cluster: from the start, whatever messages are delivered
/// (again, out of order, or never) and whichever timers fire, when two servers' logs hold an
/// entry of the same term at the same index, the two logs are the same up to and including it.
pub proof fn law_log_matching_in_any_run(
    clusters: Seq<Cluster>,
    members: Seq<String>,
    i: int,
    a: Seq<char>,
    b: Seq<char>,
    index: int,
)
    requires
        clusters.len() > 0,
        cluster_init(clusters[0], members),
        forall|k: int| 0 <= k < clusters.len() - 1 ==> #[trigger] cluster_step(clusters[k], clusters[k + 1]),
        0 <= i < clusters.len(),
        clusters[i].nodes.contains_key(a),
        clusters[i].nodes.contains_key(b),
        0 <= index < clusters[i].nodes[a].state.log@.len(),
        index < clusters[i].nodes[b].state.log@.len(),
        clusters[i].nodes[a].state.log@[index].term == clusters[i].nodes[b].state.log@[index].term,
    ensures
        clusters[i].nodes[a].state.log@.take(index + 1) == clusters[i].nodes[b].state.log@.take(index + 1),
{
    let g = lemma_run_ledger(clusters, members, i);
    let la = clusters[i].nodes[a].state.log@;
    let lb = clusters[i].nodes[b].state.log@;
    assert(canonical(la, g.created));
    assert(canonical(lb, g.created));
    assert(g.created[(la[index].term, index)] == la.take(index + 1));
    assert(g.created[(lb[index].term, index)] == lb.take(index + 1));
}

} // verus!
