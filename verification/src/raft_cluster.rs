//! Election safety for a whole cluster of Raft servers: in any term at most one server leads.
use vstd::prelude::*;
use crate::message::Message;
use crate::raft::{
    Node, Role, Action, MessageBody, run_post, election_timeout_post, member_votes, member_votes_upto, majority, voted,
    first_occurrence, body_command, heartbeat_post, apply_post, is_append_entries_to, reply_body_is, Reply, peers_of,
    command_reply, apply_entries,
};
use crate::raft_laws::{law_one_vote_per_term, law_terms_never_decrease};

verus! {

/// Position `i` of `members` is the first with its id, and both vote lists hold that id.
spec fn voted_in_both(members: Seq<String>, a: Seq<String>, b: Seq<String>, i: int) -> bool {
    &&& first_occurrence(members, i)
    &&& voted(a, members[i]@)
    &&& voted(b, members[i]@)
}

proof fn lemma_member_votes_upto_bounded(members: Seq<String>, votes: Seq<String>, k: int)
    requires
        0 <= k,
    ensures
        member_votes_upto(members, votes, k) <= k,
    decreases k,
{
    if k > 0 {
        lemma_member_votes_upto_bounded(members, votes, k - 1);
    }
}

/// When two vote lists together count more distinct members among the first `k` than there
/// are positions, some member is in both.
proof fn lemma_common_voter(members: Seq<String>, a: Seq<String>, b: Seq<String>, k: int)
    requires
        0 <= k <= members.len(),
        member_votes_upto(members, a, k) + member_votes_upto(members, b, k) > k,
    ensures
        exists|i: int| 0 <= i < k && #[trigger] voted_in_both(members, a, b, i),
    decreases k,
{
    if k > 0 {
        let i = k - 1;
        if first_occurrence(members, i) && voted(a, members[i]@) && voted(b, members[i]@) {
            assert(voted_in_both(members, a, b, i));
        } else {
            lemma_common_voter(members, a, b, k - 1);
            let j = choose|j: int| 0 <= j < k - 1 && #[trigger] voted_in_both(members, a, b, j);
            assert(voted_in_both(members, a, b, j));
        }
    }
}

/// Two majorities of the members have a member in common.
pub proof fn lemma_majorities_meet(members: Seq<String>, a: Seq<String>, b: Seq<String>)
    requires
        member_votes(members, a) >= majority(members.len()),
        member_votes(members, b) >= majority(members.len()),
    ensures
        exists|i: int| 0 <= i < members.len() && voted(a, members[i]@) && voted(b, members[i]@),
{
    lemma_common_voter(members, a, b, members.len() as int);
    let i = choose|i: int| 0 <= i < members.len() && #[trigger] voted_in_both(members, a, b, i);
    assert(voted(a, members[i]@) && voted(b, members[i]@));
}

/// A cluster of Raft servers keyed by id, every message any of them has sent (the network may
/// deliver each any number of times, in any order, or never), and every vote ever cast: the
/// voter's id, the term, and the candidate's id.
pub struct Cluster {
    pub nodes: Map<Seq<char>, Node>,
    pub sent: Set<Message<MessageBody>>,
    pub votes: Set<(Seq<char>, u64, Seq<char>)>,
}

/// The messages that `actions` send.
pub open spec fn sends(actions: Seq<Action>) -> Set<Message<MessageBody>> {
    Set::new(|m: Message<MessageBody>| actions.contains(Action::Send(m)))
}

/// The votes once server `id` is in state `n`: its vote of its current term, if it has cast
/// one, is among them.
pub open spec fn record_vote(votes: Set<(Seq<char>, u64, Seq<char>)>, id: Seq<char>, n: Node) -> Set<(Seq<char>, u64, Seq<char>)> {
    if n.state.voted_for is Some {
        votes.insert((id, n.state.current_term, n.state.voted_for->0@))
    } else {
        votes
    }
}

/// The cluster steps from `pre` to `post` by the server that `m` is addressed to handling it,
/// becoming `n` and taking `actions`. The message is one that some server sent, or a client's
/// request; the cluster is already initialized, so no `Init` arrives.
pub open spec fn deliver_step(pre: Cluster, post: Cluster, m: Message<MessageBody>, n: Node, actions: Seq<Action>) -> bool {
    let id = m.dest@;
    &&& pre.nodes.contains_key(id)
    &&& !(m.body is Init)
    &&& (pre.sent.contains(m) || body_command(m.body) is Some)
    &&& run_post(pre.nodes[id], n, m, actions)
    &&& post.nodes == pre.nodes.insert(id, n)
    &&& post.sent == pre.sent + sends(actions)
    &&& post.votes == record_vote(pre.votes, id, n)
}

/// The cluster steps from `pre` to `post` by the election timer of server `id` firing, the
/// server becoming `n` and taking `actions`.
pub open spec fn timeout_step(pre: Cluster, post: Cluster, id: Seq<char>, n: Node, actions: Seq<Action>) -> bool {
    &&& pre.nodes.contains_key(id)
    &&& pre.nodes[id].state.role != Role::Leader ==> pre.nodes[id].can_start_election()
    &&& election_timeout_post(pre.nodes[id], n, actions)
    &&& post.nodes == pre.nodes.insert(id, n)
    &&& post.sent == pre.sent + sends(actions)
    &&& post.votes == record_vote(pre.votes, id, n)
}

/// The cluster steps from `pre` to `post` by a leader's heartbeat timer of `term` firing at
/// server `id`, the server becoming `n` and sending what `beat` holds. The timer fires only
/// when the beat can go without failing.
pub open spec fn heartbeat_step(pre: Cluster, post: Cluster, id: Seq<char>, term: u64, n: Node, beat: Option<Vec<Action>>) -> bool {
    &&& pre.nodes.contains_key(id)
    &&& pre.nodes[id].can_beat(term)
    &&& heartbeat_post(pre.nodes[id], n, term, beat)
    &&& post.nodes == pre.nodes.insert(id, n)
    &&& post.sent == pre.sent + match beat {
        Some(actions) => sends(actions@),
        None => Set::empty(),
    }
    &&& post.votes == pre.votes
}

/// The cluster steps from `pre` to `post` by server `id` applying its committed entries,
/// becoming `n` and taking `actions`.
pub open spec fn apply_step(pre: Cluster, post: Cluster, id: Seq<char>, n: Node, actions: Seq<Action>) -> bool {
    &&& pre.nodes.contains_key(id)
    &&& apply_post(pre.nodes[id], n, actions)
    &&& post.nodes == pre.nodes.insert(id, n)
    &&& post.sent == pre.sent + sends(actions)
    &&& post.votes == pre.votes
}

/// The start of a run: every server knows its id and the members, follows, has voted for
/// nobody and has an empty log; nothing has been sent and no vote cast.
pub open spec fn cluster_init(c: Cluster, members: Seq<String>) -> bool {
    &&& forall|k: Seq<char>|
        #[trigger] c.nodes.contains_key(k) ==> {
            &&& c.nodes[k].id@ == k
            &&& c.nodes[k].member_ids@ == members
            &&& c.nodes[k].state.role == Role::Follower
            &&& c.nodes[k].state.voted_for is None
            &&& c.nodes[k].state.log@.len() == 0
        }
    &&& c.sent == Set::<Message<MessageBody>>::empty()
    &&& c.votes == Set::<(Seq<char>, u64, Seq<char>)>::empty()
}

/// `m` replies to a vote request and grants the vote.
pub open spec fn grants(m: Message<MessageBody>) -> bool {
    m.body matches MessageBody::RequestVoteResponse { vote_granted, .. } && vote_granted
}

/// The term of a vote reply.
pub open spec fn reply_term(m: Message<MessageBody>) -> u64 {
    m.body->RequestVoteResponse_term
}

/// What every reachable cluster keeps.
pub open spec fn cluster_inv(c: Cluster, members: Seq<String>) -> bool {
    // servers know their ids and the members
    &&& forall|k: Seq<char>|
        #[trigger] c.nodes.contains_key(k) ==> c.nodes[k].id@ == k && c.nodes[k].member_ids@ == members
    // a recorded vote is of a term the voter has reached, and in its current term it is its vote
    &&& forall|v: Seq<char>, t: u64, x: Seq<char>|
        #[trigger] c.votes.contains((v, t, x)) ==> {
            &&& c.nodes.contains_key(v)
            &&& t <= c.nodes[v].state.current_term
            &&& t == c.nodes[v].state.current_term ==> c.nodes[v].state.voted_for is Some
                && c.nodes[v].state.voted_for->0@ == x
        }
    // a voter votes for one candidate per term
    &&& forall|v: Seq<char>, t: u64, x1: Seq<char>, x2: Seq<char>|
        #[trigger] c.votes.contains((v, t, x1)) && #[trigger] c.votes.contains((v, t, x2)) ==> x1 == x2
    // a reply that grants a vote was sent by a voter who cast that vote
    &&& forall|m: Message<MessageBody>|
        #[trigger] c.sent.contains(m) && grants(m) ==> c.votes.contains((m.src@, reply_term(m), m.dest@))
    // a candidate or leader counts only votes cast for it in its term
    &&& forall|k: Seq<char>, j: int|
        #[trigger] c.nodes.contains_key(k) && c.nodes[k].state.role != Role::Follower && 0 <= j
            < c.nodes[k].state.votes_granted@.len() ==> c.votes.contains(
            (#[trigger] c.nodes[k].state.votes_granted@[j]@, c.nodes[k].state.current_term, k),
        )
    // a leader won a majority of distinct members
    &&& forall|k: Seq<char>|
        #[trigger] c.nodes.contains_key(k) && c.nodes[k].state.role == Role::Leader ==> member_votes(
            members,
            c.nodes[k].state.votes_granted@,
        ) >= majority(members.len())
}

/// What handling a message does to a server's election state.
proof fn lemma_deliver_node(pre: Node, n: Node, m: Message<MessageBody>, actions: Seq<Action>)
    requires
        run_post(pre, n, m, actions),
        !(m.body is Init),
    ensures
        n.id == pre.id,
        n.member_ids == pre.member_ids,
        n.state.current_term >= pre.state.current_term,
        n.state.current_term == pre.state.current_term && pre.state.voted_for is Some ==> n.state.voted_for is Some
            && n.state.voted_for->0@ == pre.state.voted_for->0@,
        n.state.role != Role::Follower ==> {
            &&& n.state.current_term == pre.state.current_term
            &&& pre.state.role != Role::Follower
            &&& forall|j: int|
                0 <= j < n.state.votes_granted@.len() ==> (j < pre.state.votes_granted@.len()
                    && #[trigger] n.state.votes_granted@[j] == pre.state.votes_granted@[j]) || (
                n.state.votes_granted@[j] == m.src && grants(m) && reply_term(m) == n.state.current_term)
        },
        n.state.role == Role::Leader ==> (pre.state.role == Role::Leader && n.state.votes_granted@
            == pre.state.votes_granted@) || member_votes(n.member_ids@, n.state.votes_granted@) >= majority(
            n.member_ids@.len(),
        ),
        forall|r: Message<MessageBody>|
            #[trigger] sends(actions).contains(r) && grants(r) ==> {
                &&& r.src == m.dest
                &&& reply_term(r) == n.state.current_term
                &&& n.state.voted_for is Some
                &&& n.state.voted_for->0@ == r.dest@
            },
{
    law_terms_never_decrease(pre, n, m, actions);
    if pre.state.voted_for is Some && n.state.current_term == pre.state.current_term {
        law_one_vote_per_term(pre, n, m, actions);
    }
    assert forall|r: Message<MessageBody>| #[trigger] sends(actions).contains(r) && grants(r) implies {
        &&& r.src == m.dest
        &&& reply_term(r) == n.state.current_term
        &&& n.state.voted_for is Some
        &&& n.state.voted_for->0@ == r.dest@
    } by {
        assert(actions.contains(Action::Send(r)));
        let k = choose|k: int| 0 <= k < actions.len() && actions[k] == Action::Send(r);
        assert(actions[k] == Action::Send(r));
    }
}

/// What the election timer firing does to a server's election state.
proof fn lemma_timeout_node(pre: Node, n: Node, actions: Seq<Action>)
    requires
        election_timeout_post(pre, n, actions),
        pre.state.role != Role::Leader ==> pre.can_start_election(),
    ensures
        n.id == pre.id,
        n.member_ids == pre.member_ids,
        pre.state.role == Role::Leader ==> n.state == pre.state,
        pre.state.role != Role::Leader ==> {
            &&& n.state.current_term == pre.state.current_term + 1
            &&& n.state.voted_for == Some(pre.id)
            &&& n.state.votes_granted@ == seq![pre.id]
            &&& n.state.role != Role::Follower
            &&& n.state.role == Role::Leader ==> member_votes(pre.member_ids@, seq![pre.id]) >= majority(
                pre.member_ids@.len(),
            )
        },
        forall|r: Message<MessageBody>| #[trigger] sends(actions).contains(r) ==> !grants(r),
{
    assert forall|r: Message<MessageBody>| #[trigger] sends(actions).contains(r) implies !grants(r) by {
        assert(actions.contains(Action::Send(r)));
        let k = choose|k: int| 0 <= k < actions.len() && actions[k] == Action::Send(r);
        assert(actions[k] == Action::Send(r));
    }
}

/// The start of a run keeps the invariant.
pub proof fn lemma_init_inv(c: Cluster, members: Seq<String>)
    requires
        cluster_init(c, members),
    ensures
        cluster_inv(c, members),
{
}

/// A server handling a message keeps the invariant.
pub proof fn lemma_deliver_keeps_inv(
    pre: Cluster,
    post: Cluster,
    members: Seq<String>,
    m: Message<MessageBody>,
    n: Node,
    actions: Seq<Action>,
)
    requires
        cluster_inv(pre, members),
        deliver_step(pre, post, m, n, actions),
    ensures
        cluster_inv(post, members),
{
    let id = m.dest@;
    let p = pre.nodes[id];
    lemma_deliver_node(p, n, m, actions);
    assert(p.id@ == id);
    assert forall|k: Seq<char>| #[trigger] post.nodes.contains_key(k) implies post.nodes[k].id@ == k
        && post.nodes[k].member_ids@ == members by {
        if k != id {
            assert(pre.nodes.contains_key(k));
        }
    }
    assert forall|v: Seq<char>, t: u64, x: Seq<char>| #[trigger] post.votes.contains((v, t, x)) implies {
        &&& post.nodes.contains_key(v)
        &&& t <= post.nodes[v].state.current_term
        &&& t == post.nodes[v].state.current_term ==> post.nodes[v].state.voted_for is Some
            && post.nodes[v].state.voted_for->0@ == x
    } by {
        if pre.votes.contains((v, t, x)) {
            if v == id {
                assert(t <= p.state.current_term);
            }
        }
    }
    assert forall|v: Seq<char>, t: u64, x1: Seq<char>, x2: Seq<char>|
        #[trigger] post.votes.contains((v, t, x1)) && #[trigger] post.votes.contains((v, t, x2)) implies x1 == x2 by {
        if pre.votes.contains((v, t, x1)) && pre.votes.contains((v, t, x2)) {
        } else if v == id && t == n.state.current_term {
            if pre.votes.contains((v, t, x1)) {
                assert(t <= p.state.current_term);
            }
            if pre.votes.contains((v, t, x2)) {
                assert(t <= p.state.current_term);
            }
        }
    }
    assert forall|r: Message<MessageBody>| #[trigger] post.sent.contains(r) && grants(r) implies post.votes.contains(
        (r.src@, reply_term(r), r.dest@),
    ) by {
        if pre.sent.contains(r) {
            assert(pre.votes.contains((r.src@, reply_term(r), r.dest@)));
        } else {
            assert(sends(actions).contains(r));
        }
    }
    assert forall|k: Seq<char>, j: int|
        #[trigger] post.nodes.contains_key(k) && post.nodes[k].state.role != Role::Follower && 0 <= j
            < post.nodes[k].state.votes_granted@.len() implies post.votes.contains(
        (#[trigger] post.nodes[k].state.votes_granted@[j]@, post.nodes[k].state.current_term, k),
    ) by {
        if k != id {
            assert(pre.votes.contains((pre.nodes[k].state.votes_granted@[j]@, pre.nodes[k].state.current_term, k)));
        } else {
            if j < p.state.votes_granted@.len() && n.state.votes_granted@[j] == p.state.votes_granted@[j] {
                assert(pre.votes.contains((p.state.votes_granted@[j]@, p.state.current_term, k)));
            } else {
                assert(grants(m));
                assert(pre.sent.contains(m));
                assert(pre.votes.contains((m.src@, reply_term(m), m.dest@)));
            }
        }
    }
    assert forall|k: Seq<char>| #[trigger] post.nodes.contains_key(k) && post.nodes[k].state.role == Role::Leader implies member_votes(
        members,
        post.nodes[k].state.votes_granted@,
    ) >= majority(members.len()) by {
        if k != id {
            assert(pre.nodes.contains_key(k));
        }
    }
}

/// A step in which one server changes nothing of its election state and sends no vote keeps
/// the invariant.
proof fn lemma_quiet_step_keeps_inv(
    pre: Cluster,
    post: Cluster,
    members: Seq<String>,
    id: Seq<char>,
    n: Node,
    sent: Set<Message<MessageBody>>,
)
    requires
        cluster_inv(pre, members),
        pre.nodes.contains_key(id),
        n.id == pre.nodes[id].id,
        n.member_ids == pre.nodes[id].member_ids,
        n.state.current_term == pre.nodes[id].state.current_term,
        n.state.role == pre.nodes[id].state.role,
        n.state.voted_for == pre.nodes[id].state.voted_for,
        n.state.votes_granted == pre.nodes[id].state.votes_granted,
        post.nodes == pre.nodes.insert(id, n),
        post.sent == pre.sent + sent,
        post.votes == pre.votes,
        forall|r: Message<MessageBody>| #[trigger] sent.contains(r) ==> !grants(r),
    ensures
        cluster_inv(post, members),
{
    assert forall|k: Seq<char>| #[trigger] post.nodes.contains_key(k) implies post.nodes[k].id@ == k
        && post.nodes[k].member_ids@ == members by {
        assert(pre.nodes.contains_key(k));
    }
    assert forall|v: Seq<char>, t: u64, x: Seq<char>| #[trigger] post.votes.contains((v, t, x)) implies {
        &&& post.nodes.contains_key(v)
        &&& t <= post.nodes[v].state.current_term
        &&& t == post.nodes[v].state.current_term ==> post.nodes[v].state.voted_for is Some
            && post.nodes[v].state.voted_for->0@ == x
    } by {
        assert(pre.votes.contains((v, t, x)));
    }
    assert forall|r: Message<MessageBody>| #[trigger] post.sent.contains(r) && grants(r) implies post.votes.contains(
        (r.src@, reply_term(r), r.dest@),
    ) by {
        if !pre.sent.contains(r) {
            assert(sent.contains(r));
        }
    }
    assert forall|k: Seq<char>, j: int|
        #[trigger] post.nodes.contains_key(k) && post.nodes[k].state.role != Role::Follower && 0 <= j
            < post.nodes[k].state.votes_granted@.len() implies post.votes.contains(
        (#[trigger] post.nodes[k].state.votes_granted@[j]@, post.nodes[k].state.current_term, k),
    ) by {
        assert(pre.votes.contains((pre.nodes[k].state.votes_granted@[j]@, pre.nodes[k].state.current_term, k)));
    }
    assert forall|k: Seq<char>| #[trigger] post.nodes.contains_key(k) && post.nodes[k].state.role == Role::Leader implies member_votes(
        members,
        post.nodes[k].state.votes_granted@,
    ) >= majority(members.len()) by {
        assert(pre.nodes.contains_key(k));
    }
}

/// A server's election timer firing keeps the invariant.
pub proof fn lemma_timeout_keeps_inv(
    pre: Cluster,
    post: Cluster,
    members: Seq<String>,
    id: Seq<char>,
    n: Node,
    actions: Seq<Action>,
)
    requires
        cluster_inv(pre, members),
        timeout_step(pre, post, id, n, actions),
    ensures
        cluster_inv(post, members),
{
    let p = pre.nodes[id];
    lemma_timeout_node(p, n, actions);
    assert(p.id@ == id);
    assert forall|k: Seq<char>| #[trigger] post.nodes.contains_key(k) implies post.nodes[k].id@ == k
        && post.nodes[k].member_ids@ == members by {
        if k != id {
            assert(pre.nodes.contains_key(k));
        }
    }
    assert forall|v: Seq<char>, t: u64, x: Seq<char>| #[trigger] post.votes.contains((v, t, x)) implies {
        &&& post.nodes.contains_key(v)
        &&& t <= post.nodes[v].state.current_term
        &&& t == post.nodes[v].state.current_term ==> post.nodes[v].state.voted_for is Some
            && post.nodes[v].state.voted_for->0@ == x
    } by {
        if pre.votes.contains((v, t, x)) {
            if v == id {
                assert(t <= p.state.current_term);
            }
        }
    }
    assert forall|v: Seq<char>, t: u64, x1: Seq<char>, x2: Seq<char>|
        #[trigger] post.votes.contains((v, t, x1)) && #[trigger] post.votes.contains((v, t, x2)) implies x1 == x2 by {
        if v == id && t == n.state.current_term {
            if pre.votes.contains((v, t, x1)) {
                assert(t <= p.state.current_term);
            }
            if pre.votes.contains((v, t, x2)) {
                assert(t <= p.state.current_term);
            }
        }
    }
    assert forall|r: Message<MessageBody>| #[trigger] post.sent.contains(r) && grants(r) implies post.votes.contains(
        (r.src@, reply_term(r), r.dest@),
    ) by {
        if pre.sent.contains(r) {
            assert(pre.votes.contains((r.src@, reply_term(r), r.dest@)));
        } else {
            assert(sends(actions).contains(r));
        }
    }
    assert forall|k: Seq<char>, j: int|
        #[trigger] post.nodes.contains_key(k) && post.nodes[k].state.role != Role::Follower && 0 <= j
            < post.nodes[k].state.votes_granted@.len() implies post.votes.contains(
        (#[trigger] post.nodes[k].state.votes_granted@[j]@, post.nodes[k].state.current_term, k),
    ) by {
        if k != id || p.state.role == Role::Leader {
            assert(pre.votes.contains((pre.nodes[k].state.votes_granted@[j]@, pre.nodes[k].state.current_term, k)));
        } else {
            assert(n.state.votes_granted@[j] == p.id);
        }
    }
    assert forall|k: Seq<char>| #[trigger] post.nodes.contains_key(k) && post.nodes[k].state.role == Role::Leader implies member_votes(
        members,
        post.nodes[k].state.votes_granted@,
    ) >= majority(members.len()) by {
        if k != id {
            assert(pre.nodes.contains_key(k));
        }
    }
}

/// Election safety: in a cluster that keeps the invariant, two leaders of the same term are the
/// same server.
pub proof fn law_one_leader_per_term(c: Cluster, members: Seq<String>, a: Seq<char>, b: Seq<char>)
    requires
        cluster_inv(c, members),
        c.nodes.contains_key(a),
        c.nodes.contains_key(b),
        c.nodes[a].state.role == Role::Leader,
        c.nodes[b].state.role == Role::Leader,
        c.nodes[a].state.current_term == c.nodes[b].state.current_term,
    ensures
        a == b,
{
    let va = c.nodes[a].state.votes_granted@;
    let vb = c.nodes[b].state.votes_granted@;
    let t = c.nodes[a].state.current_term;
    lemma_majorities_meet(members, va, vb);
    let i = choose|i: int| 0 <= i < members.len() && voted(va, members[i]@) && voted(vb, members[i]@);
    let v = members[i]@;
    let ja = choose|j: int| 0 <= j < va.len() && va[j]@ == v;
    let jb = choose|j: int| 0 <= j < vb.len() && vb[j]@ == v;
    assert(c.votes.contains((va[ja]@, t, a)));
    assert(c.votes.contains((vb[jb]@, t, b)));
}

/// The cluster steps from `pre` to `post`: a server handles a message, or one of a server's
/// timers fires (election, heartbeat, or applying committed entries).
pub open spec fn cluster_step(pre: Cluster, post: Cluster) -> bool {
    ||| exists|m: Message<MessageBody>, n: Node, actions: Seq<Action>| deliver_step(pre, post, m, n, actions)
    ||| exists|id: Seq<char>, n: Node, actions: Seq<Action>| timeout_step(pre, post, id, n, actions)
    ||| exists|id: Seq<char>, term: u64, n: Node, beat: Option<Vec<Action>>| heartbeat_step(pre, post, id, term, n, beat)
    ||| exists|id: Seq<char>, n: Node, actions: Seq<Action>| apply_step(pre, post, id, n, actions)
}

/// Any cluster step keeps the invariant.
pub proof fn lemma_step_keeps_inv(pre: Cluster, post: Cluster, members: Seq<String>)
    requires
        cluster_inv(pre, members),
        cluster_step(pre, post),
    ensures
        cluster_inv(post, members),
{
    if exists|m: Message<MessageBody>, n: Node, actions: Seq<Action>| deliver_step(pre, post, m, n, actions) {
        let (m, n, actions) = choose|m: Message<MessageBody>, n: Node, actions: Seq<Action>|
            deliver_step(pre, post, m, n, actions);
        lemma_deliver_keeps_inv(pre, post, members, m, n, actions);
    } else if exists|id: Seq<char>, n: Node, actions: Seq<Action>| timeout_step(pre, post, id, n, actions) {
        let (id, n, actions) = choose|id: Seq<char>, n: Node, actions: Seq<Action>|
            timeout_step(pre, post, id, n, actions);
        lemma_timeout_keeps_inv(pre, post, members, id, n, actions);
    } else if exists|id: Seq<char>, term: u64, n: Node, beat: Option<Vec<Action>>| heartbeat_step(pre, post, id, term, n, beat) {
        let (id, term, n, beat) = choose|id: Seq<char>, term: u64, n: Node, beat: Option<Vec<Action>>|
            heartbeat_step(pre, post, id, term, n, beat);
        let sent = match beat {
            Some(actions) => sends(actions@),
            None => Set::empty(),
        };
        assert forall|r: Message<MessageBody>| #[trigger] sent.contains(r) implies !grants(r) by {
            let actions = beat->0;
            assert(actions@.contains(Action::Send(r)));
            let k = choose|k: int| 0 <= k < actions@.len() && actions@[k] == Action::Send(r);
            assert(is_append_entries_to(actions@[k], pre.nodes[id].state, pre.nodes[id].id, peers_of(pre.nodes[id].member_ids@, pre.nodes[id].id@)[k], (pre.nodes[id].state.next_message_id + k) as u64));
        }
        lemma_quiet_step_keeps_inv(pre, post, members, id, n, sent);
    } else {
        let (id, n, actions) = choose|id: Seq<char>, n: Node, actions: Seq<Action>|
            apply_step(pre, post, id, n, actions);
        assert forall|r: Message<MessageBody>| #[trigger] sends(actions).contains(r) implies !grants(r) by {
            assert(actions.contains(Action::Send(r)));
            let k = choose|k: int| 0 <= k < actions.len() && actions[k] == Action::Send(r);
            let es = pre.nodes[id].entries_to_apply();
            let reply = command_reply(apply_entries(pre.nodes[id].state.map@, es.take(k)), es[k].msg.body);
            assert(reply_body_is(r.body, reply, (pre.nodes[id].state.next_message_id + k) as u64));
            match reply {
                Reply::ReadOk { .. } => {},
                Reply::WriteOk { .. } => {},
                Reply::CasOk { .. } => {},
                Reply::KeyMissing { .. } => {},
                Reply::PreconditionFailed { .. } => {},
            }
        }
        lemma_quiet_step_keeps_inv(pre, post, members, id, n, sends(actions));
    }
}

proof fn lemma_run_keeps_inv(clusters: Seq<Cluster>, members: Seq<String>, i: int)
    requires
        clusters.len() > 0,
        cluster_init(clusters[0], members),
        forall|k: int| 0 <= k < clusters.len() - 1 ==> #[trigger] cluster_step(clusters[k], clusters[k + 1]),
        0 <= i < clusters.len(),
    ensures
        cluster_inv(clusters[i], members),
    decreases i,
{
    if i == 0 {
        lemma_init_inv(clusters[0], members);
    } else {
        lemma_run_keeps_inv(clusters, members, i - 1);
        let k = i - 1;
        assert(cluster_step(clusters[k], clusters[k + 1]));
        lemma_step_keeps_inv(clusters[k], clusters[k + 1], members);
    }
}

/// Election safety over any run of a cluster: from the start, whatever messages are delivered
/// (again, out of order, or never) and whichever timers fire, no two servers ever lead in the
/// same term.
pub proof fn law_election_safety_in_any_run(
    clusters: Seq<Cluster>,
    members: Seq<String>,
    i: int,
    a: Seq<char>,
    b: Seq<char>,
)
    requires
        clusters.len() > 0,
        cluster_init(clusters[0], members),
        forall|k: int| 0 <= k < clusters.len() - 1 ==> #[trigger] cluster_step(clusters[k], clusters[k + 1]),
        0 <= i < clusters.len(),
        clusters[i].nodes.contains_key(a),
        clusters[i].nodes.contains_key(b),
        clusters[i].nodes[a].state.role == Role::Leader,
        clusters[i].nodes[b].state.role == Role::Leader,
        clusters[i].nodes[a].state.current_term == clusters[i].nodes[b].state.current_term,
    ensures
        a == b,
{
    lemma_run_keeps_inv(clusters, members, i);
    law_one_leader_per_term(clusters[i], members, a, b);
}

} // verus!
