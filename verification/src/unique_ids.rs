//! The unique-ids workload: the node hands out ids that no other call, on any node, hands out.
use vstd::prelude::*;
use crate::message::Message;
use crate::text::{decimal, lemma_decimal_shape, lemma_decimal_injective, push_decimal};

verus! {

/// The requests that a unique-ids node serves.
#[derive(Clone, Debug, PartialEq)]
pub enum Request {
    Init { msg_id: u64, node_id: String },
    Generate { msg_id: u64 },
}

/// The replies of a unique-ids node.
#[derive(Clone, Debug, PartialEq)]
pub enum Response {
    InitOk { msg_id: u64, in_reply_to: u64 },
    GenerateOk { msg_id: u64, in_reply_to: u64, id: String },
}

/// The id that node `node` hands out as its `n`-th (counting from 0): the node's id, a dash,
/// and `n` in decimal.
pub open spec fn unique_id_text(node: Seq<char>, n: nat) -> Seq<char> {
    node + seq!['-'] + decimal(n)
}

/// Two ids handed out are equal only when the same node handed them out as the same number:
/// distinct nodes, or distinct calls on one node, never give the same id.
pub proof fn law_unique_ids_distinct(node1: Seq<char>, n1: nat, node2: Seq<char>, n2: nat)
    requires
        unique_id_text(node1, n1) == unique_id_text(node2, n2),
    ensures
        node1 == node2,
        n1 == n2,
{
    let s = unique_id_text(node1, n1);
    let t = unique_id_text(node2, n2);
    let d1 = decimal(n1);
    let d2 = decimal(n2);
    lemma_decimal_shape(n1);
    lemma_decimal_shape(n2);
    let len = s.len() as int;
    if d1.len() < d2.len() {
        let p = len - d1.len() - 1;
        assert(s[p] == '-');
        assert(t[p] == d2[p - node2.len() - 1]);
        assert(false);
    } else if d2.len() < d1.len() {
        let p = len - d2.len() - 1;
        assert(t[p] == '-');
        assert(s[p] == d1[p - node1.len() - 1]);
        assert(false);
    }
    assert(node1.len() == node2.len());
    assert(s.subrange(len - d1.len(), len) =~= d1);
    assert(t.subrange(len - d2.len(), len) =~= d2);
    lemma_decimal_injective(n1, n2);
    assert(s.subrange(0, node1.len() as int) =~= node1);
    assert(t.subrange(0, node2.len() as int) =~= node2);
}

/// A node of the unique-ids workload.
pub struct UniqueIdsNode {
    pub id: String,
    pub next_message_id: u64,
    /// How many ids the node has handed out.
    pub n: u64,
}

/// What handling request `msg` does: the reply `r` and the node's state after it.
pub open spec fn run_post(pre: UniqueIdsNode, post: UniqueIdsNode, msg: Message<Request>, r: Message<Response>) -> bool {
    &&& post.next_message_id == pre.next_message_id + 1
    &&& r.src == msg.dest
    &&& r.dest == msg.src
    &&& match msg.body {
        Request::Init { msg_id, node_id } => {
            &&& post.id == node_id
            &&& post.n == pre.n
            &&& r.body == Response::InitOk { msg_id: pre.next_message_id, in_reply_to: msg_id }
        },
        Request::Generate { msg_id } => {
            &&& post.id == pre.id
            &&& post.n == pre.n + 1
            &&& r.body matches Response::GenerateOk { msg_id: m, in_reply_to, id }
            &&& m == pre.next_message_id
            &&& in_reply_to == msg_id
            &&& id@ =~= unique_id_text(pre.id@, pre.n as nat)
        },
    }
}

impl UniqueIdsNode {
    /// A node that has not been initialized yet.
    pub fn new() -> (node: UniqueIdsNode)
        ensures
            node.id@ == Seq::<char>::empty(),
            node.next_message_id == 1,
            node.n == 0,
    {
        UniqueIdsNode { id: String::new(), next_message_id: 1, n: 0 }
    }

    /// Handles one request, by the handler for its kind.
    pub fn run(&mut self, msg: Message<Request>) -> (r: Message<Response>)
        requires
            old(self).next_message_id < u64::MAX,
            msg.body is Generate ==> old(self).n < u64::MAX,
        ensures
            run_post(*old(self), *final(self), msg, r),
    {
        let Message { src, dest, body } = msg;
        match body {
            Request::Init { msg_id, node_id } => self.handle_init(src, dest, msg_id, node_id),
            Request::Generate { msg_id } => self.handle_generate(src, dest, msg_id),
        }
    }

    /// Handles `init`: takes the node's id and replies `init_ok`.
    pub fn handle_init(&mut self, src: String, dest: String, msg_id: u64, node_id: String) -> (r: Message<Response>)
        requires
            old(self).next_message_id < u64::MAX,
        ensures
            final(self).id == node_id,
            final(self).n == old(self).n,
            final(self).next_message_id == old(self).next_message_id + 1,
            r == (Message { src: dest, dest: src, body: Response::InitOk { msg_id: old(self).next_message_id, in_reply_to: msg_id } }),
    {
        self.id = node_id;
        let id = self.acquire_message_id();
        Message { src: dest, dest: src, body: Response::InitOk { msg_id: id, in_reply_to: msg_id } }
    }

    /// Handles `generate`: replies `generate_ok` with the next id of this node.
    pub fn handle_generate(&mut self, src: String, dest: String, msg_id: u64) -> (r: Message<Response>)
        requires
            old(self).next_message_id < u64::MAX,
            old(self).n < u64::MAX,
        ensures
            final(self).id == old(self).id,
            final(self).n == old(self).n + 1,
            final(self).next_message_id == old(self).next_message_id + 1,
            r.src == dest,
            r.dest == src,
            r.body matches Response::GenerateOk { msg_id: m, in_reply_to, id } && m == old(self).next_message_id
                && in_reply_to == msg_id && id@ == unique_id_text(old(self).id@, old(self).n as nat),
    {
        let mut id = self.id.clone();
        proof { reveal_strlit("-"); }
        id.append("-");
        push_decimal(&mut id, self.n);
        self.n = self.n + 1;
        let response_id = self.acquire_message_id();
        Message { src: dest, dest: src, body: Response::GenerateOk { msg_id: response_id, in_reply_to: msg_id, id } }
    }

    /// Hands out the next message id.
    pub fn acquire_message_id(&mut self) -> (id: u64)
        requires
            old(self).next_message_id < u64::MAX,
        ensures
            id == old(self).next_message_id,
            final(self).next_message_id == id + 1,
            final(self).id == old(self).id,
            final(self).n == old(self).n,
    {
        let msg_id = self.next_message_id;
        self.next_message_id = self.next_message_id + 1;
        msg_id
    }
}


/// Two `generate` requests handled one after the other on a node get different ids.
pub proof fn law_node_never_repeats_an_id(
    n0: UniqueIdsNode,
    n1: UniqueIdsNode,
    n2: UniqueIdsNode,
    m1: Message<Request>,
    r1: Message<Response>,
    m2: Message<Request>,
    r2: Message<Response>,
)
    requires
        run_post(n0, n1, m1, r1),
        run_post(n1, n2, m2, r2),
        m1.body is Generate,
        m2.body is Generate,
    ensures
        r1.body->GenerateOk_id@ != r2.body->GenerateOk_id@,
{
    if r1.body->GenerateOk_id@ == r2.body->GenerateOk_id@ {
        law_unique_ids_distinct(n0.id@, n0.n as nat, n1.id@, n1.n as nat);
    }
}

} // verus!

verus! {

/// `nodes[k + 1]` is what node `nodes[k]` becomes on handling `msgs[k]`, which it answers with
/// `replies[k]`: a run of one node through a sequence of requests.
pub open spec fn is_run(nodes: Seq<UniqueIdsNode>, msgs: Seq<Message<Request>>, replies: Seq<Message<Response>>) -> bool {
    &&& nodes.len() == msgs.len() + 1
    &&& replies.len() == msgs.len()
    &&& forall|k: int| 0 <= k < msgs.len() ==> #[trigger] run_post(nodes[k], nodes[k + 1], msgs[k], replies[k])
}

proof fn lemma_run_counter_monotone(
    nodes: Seq<UniqueIdsNode>,
    msgs: Seq<Message<Request>>,
    replies: Seq<Message<Response>>,
    k: int,
    l: int,
)
    requires
        is_run(nodes, msgs, replies),
        0 <= k <= l < nodes.len(),
    ensures
        nodes[k].n <= nodes[l].n,
    decreases l - k,
{
    if k < l {
        lemma_run_counter_monotone(nodes, msgs, replies, k, l - 1);
        let p = l - 1;
        assert(run_post(nodes[p], nodes[p + 1], msgs[p], replies[p]));
    }
}

/// Over any run of a node, including runs where `init` changes its id in between, no two
/// `generate` requests get the same id.
pub proof fn law_ids_unique_in_any_run(
    nodes: Seq<UniqueIdsNode>,
    msgs: Seq<Message<Request>>,
    replies: Seq<Message<Response>>,
    i: int,
    j: int,
)
    requires
        is_run(nodes, msgs, replies),
        0 <= i < j < msgs.len(),
        msgs[i].body is Generate,
        msgs[j].body is Generate,
    ensures
        replies[i].body->GenerateOk_id@ != replies[j].body->GenerateOk_id@,
{
    assert(run_post(nodes[i], nodes[i + 1], msgs[i], replies[i]));
    assert(run_post(nodes[j], nodes[j + 1], msgs[j], replies[j]));
    lemma_run_counter_monotone(nodes, msgs, replies, i + 1, j);
    if replies[i].body->GenerateOk_id@ == replies[j].body->GenerateOk_id@ {
        law_unique_ids_distinct(nodes[i].id@, nodes[i].n as nat, nodes[j].id@, nodes[j].n as nat);
    }
}

/// Two `generate` requests handled by nodes whose ids differ at the time get different ids,
/// whatever each node's counter.
pub proof fn law_ids_unique_across_nodes(
    a: UniqueIdsNode,
    a_after: UniqueIdsNode,
    a_msg: Message<Request>,
    a_reply: Message<Response>,
    b: UniqueIdsNode,
    b_after: UniqueIdsNode,
    b_msg: Message<Request>,
    b_reply: Message<Response>,
)
    requires
        run_post(a, a_after, a_msg, a_reply),
        run_post(b, b_after, b_msg, b_reply),
        a_msg.body is Generate,
        b_msg.body is Generate,
        a.id@ != b.id@,
    ensures
        a_reply.body->GenerateOk_id@ != b_reply.body->GenerateOk_id@,
{
    if a_reply.body->GenerateOk_id@ == b_reply.body->GenerateOk_id@ {
        law_unique_ids_distinct(a.id@, a.n as nat, b.id@, b.n as nat);
    }
}

} // verus!
