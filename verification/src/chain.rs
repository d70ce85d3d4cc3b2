//! The lin-kv workload with chain replication: writes enter at the head of the chain and flow
//! down it node by node; the tail answers them and serves the reads.
use vstd::prelude::*;
use std::collections::HashMap;
use crate::message::{ErrorCode, Message};
use crate::kv::{read_value, cas_applies, lookup, store, empty_store};
use crate::text::{missing_key_text, mismatch_text, missing_key_message, mismatch_message};

verus! {

/// The messages of the chain-replicated store.
#[derive(Clone, Debug, PartialEq)]
pub enum MessageBody {
    /// Initializes the node. Sent by the Maelstrom tester.
    Init { msg_id: u64, node_id: String, node_ids: Vec<String> },
    /// Reply to `Init`.
    InitOk { msg_id: u64, in_reply_to: u64 },
    /// Error reply to any request.
    Error { msg_id: u64, in_reply_to: u64, code: ErrorCode, text: String },
    /// Reads the value of a key.
    Read { msg_id: u64, key: u64 },
    /// Successful reply to `Read`.
    ReadOk { msg_id: u64, in_reply_to: u64, value: i64 },
    /// Writes the value of a key.
    Write { msg_id: u64, key: u64, value: i64 },
    /// Successful reply to `Write`.
    WriteOk { msg_id: u64, in_reply_to: u64 },
    /// Compares the value of a key and sets it.
    Cas { msg_id: u64, key: u64, from: i64, to: i64 },
    /// Successful reply to `Cas`.
    CasOk { msg_id: u64, in_reply_to: u64 },
    /// Passes a write down the chain: the key and value to store, and the client request
    /// (`"write"` or `"cas"`, its id and its sender) that the tail answers.
    Replicate { msg_id: u64, key: u64, value: i64, rpc_type: String, rpc_msg_id: u64, rpc_src: String },
}

/// The position of the first of `nodes` whose id is `id`, if any.
pub open spec fn first_position(nodes: Seq<String>, id: Seq<char>) -> Option<int> {
    if exists|p: int| 0 <= p < nodes.len() && nodes[p]@ == id {
        Some(choose|p: int| 0 <= p < nodes.len() && nodes[p]@ == id && forall|q: int| 0 <= q < p ==> nodes[q]@ != id)
    } else {
        None
    }
}

/// The node after `id` in the chain `nodes`, if `id` is in it and not last.
pub open spec fn successor(nodes: Seq<String>, id: Seq<char>) -> Option<String> {
    match first_position(nodes, id) {
        Some(p) => if p + 1 < nodes.len() {
            Some(nodes[p + 1])
        } else {
            None
        },
        None => None,
    }
}

/// A node's place in the chain.
pub struct Chain {
    pub id: String,
    pub head: String,
    pub tail: String,
    pub next: Option<String>,
}

impl Default for Chain {
    /// The place of a node that does not know the chain yet: empty ids, no successor.
    fn default() -> (c: Chain)
        ensures
            c.id@ == Seq::<char>::empty(),
            c.head@ == Seq::<char>::empty(),
            c.tail@ == Seq::<char>::empty(),
            c.next is None,
    {
        Chain { id: String::new(), head: String::new(), tail: String::new(), next: None }
    }
}

impl Chain {
    /// The place of node `id` in the chain `nodes`: the first node is the head, the last the
    /// tail, and the successor is the node after the first occurrence of `id`.
    pub fn new(id: String, nodes: Vec<String>) -> (c: Chain)
        ensures
            c.id == id,
            nodes@.len() > 0 ==> c.head == nodes@[0] && c.tail == nodes@.last(),
            nodes@.len() == 0 ==> c.head@ == Seq::<char>::empty() && c.tail@ == Seq::<char>::empty(),
            c.next == successor(nodes@, id@),
    {
        let head = if nodes.len() > 0 {
            nodes[0].clone()
        } else {
            String::new()
        };
        let tail = if nodes.len() > 0 {
            nodes[nodes.len() - 1].clone()
        } else {
            String::new()
        };
        let mut i: usize = 0;
        let mut position: Option<usize> = None;
        while i < nodes.len() && position.is_none()
            invariant
                i <= nodes@.len(),
                position is None ==> forall|q: int| 0 <= q < i ==> nodes@[q]@ != id@,
                position matches Some(p) ==> {
                    &&& p < nodes@.len()
                    &&& nodes@[p as int]@ == id@
                    &&& forall|q: int| 0 <= q < p ==> nodes@[q]@ != id@
                },
            decreases nodes@.len() - i,
        {
            if nodes[i] == id {
                position = Some(i);
            }
            i += 1;
        }
        let next = match position {
            Some(p) => {
                proof {
                    assert(exists|q: int| 0 <= q < nodes@.len() && nodes@[q]@ == id@);
                    let c = choose|q: int| 0 <= q < nodes@.len() && nodes@[q]@ == id@ && forall|r: int| 0 <= r < q ==> nodes@[r]@ != id@;
                    if c < p {
                        assert(nodes@[c]@ != id@);
                    } else if c > p {
                        assert(nodes@[p as int]@ != id@);
                    }
                }
                if p + 1 < nodes.len() {
                    Some(nodes[p + 1].clone())
                } else {
                    None
                }
            },
            None => None,
        };
        Chain { id, head, tail, next }
    }

    /// This node is the head of the chain.
    pub fn is_head(&self) -> (r: bool)
        ensures
            r == (self.id@ == self.head@),
    {
        self.id == self.head
    }

    /// This node is the tail of the chain.
    pub fn is_tail(&self) -> (r: bool)
        ensures
            r == (self.id@ == self.tail@),
    {
        self.id == self.tail
    }
}


/// `b` is an error reply with these fields and text.
pub open spec fn is_error(b: MessageBody, msg_id: u64, in_reply_to: u64, code: ErrorCode, text: Seq<char>) -> bool {
    match b {
        MessageBody::Error { msg_id: m, in_reply_to: r, code: c, text: t } => m == msg_id && r == in_reply_to && c == code && t@ == text,
        _ => false,
    }
}

/// `b` answers a read of `key` from a store holding `m`: the value, or an error when the key
/// is not there.
pub open spec fn is_read_reply(b: MessageBody, msg_id: u64, in_reply_to: u64, m: Map<u64, i64>, key: u64) -> bool {
    match read_value(m, key) {
        Some(value) => b == MessageBody::ReadOk { msg_id, in_reply_to, value },
        None => is_error(b, msg_id, in_reply_to, ErrorCode::KeyDoesNotExist, "key does not exist"@),
    }
}

/// The client request of a replication is a write or a compare-and-set.
pub open spec fn is_known_rpc(rpc_type: String) -> bool {
    rpc_type@ == "write"@ || rpc_type@ == "cas"@
}

/// A chain-replicated lin-kv node.
pub struct Node {
    pub id: String,
    pub next_message_id: u64,
    pub chain: Chain,
    pub map: HashMap<u64, i64>,
}

/// What handling a replication does: store the value, then pass the replication on to the
/// next node, or, at the tail, answer the client's request.
pub open spec fn replicate_post(
    pre: Node,
    post: Node,
    key: u64,
    value: i64,
    rpc_type: Seq<char>,
    rpc_msg_id: u64,
    rpc_src: String,
    r: Message<MessageBody>,
) -> bool {
    &&& post.id == pre.id
    &&& post.chain == pre.chain
    &&& post.map@ == pre.map@.insert(key, value)
    &&& post.next_message_id == pre.next_message_id + 1
    &&& r.src == pre.id
    &&& match pre.chain.next {
        Some(next) => {
            &&& r.dest == next
            &&& r.body matches MessageBody::Replicate { msg_id: m, key: k, value: v, rpc_type: t, rpc_msg_id: rm, rpc_src: rs }
            &&& m == pre.next_message_id
            &&& k == key
            &&& v == value
            &&& t@ == rpc_type
            &&& rm == rpc_msg_id
            &&& rs == rpc_src
        },
        None => {
            &&& r.dest == rpc_src
            &&& r.body == if rpc_type == "write"@ {
                MessageBody::WriteOk { msg_id: pre.next_message_id, in_reply_to: rpc_msg_id }
            } else {
                MessageBody::CasOk { msg_id: pre.next_message_id, in_reply_to: rpc_msg_id }
            }
        },
    }
}

/// What handling `init` does: the node takes its id and its place in the chain, and replies.
pub open spec fn init_post(pre: Node, post: Node, src: String, dest: String, msg_id: u64, node_id: String, node_ids: Vec<String>, r: Message<MessageBody>) -> bool {
    &&& post.id == node_id
    &&& post.chain.id == node_id
    &&& node_ids@.len() > 0 ==> post.chain.head == node_ids@[0] && post.chain.tail == node_ids@.last()
    &&& node_ids@.len() == 0 ==> post.chain.head@ =~= Seq::<char>::empty() && post.chain.tail@ =~= Seq::<char>::empty()
    &&& post.chain.next == successor(node_ids@, node_id@)
    &&& post.map@ =~= pre.map@
    &&& post.next_message_id == pre.next_message_id + 1
    &&& r == (Message { src: dest, dest: src, body: MessageBody::InitOk { msg_id: pre.next_message_id, in_reply_to: msg_id } })
}

/// What handling `read` does: the tail answers from its store; any other node passes the
/// request on to the tail unchanged.
pub open spec fn read_post(pre: Node, post: Node, src: String, dest: String, msg_id: u64, key: u64, r: Message<MessageBody>) -> bool {
    &&& post.id == pre.id
    &&& post.chain == pre.chain
    &&& post.map@ =~= pre.map@
    &&& pre.chain.id@ != pre.chain.tail@ ==> {
        &&& post.next_message_id == pre.next_message_id
        &&& r == (Message { src, dest: pre.chain.tail, body: MessageBody::Read { msg_id, key } })
    }
    &&& pre.chain.id@ == pre.chain.tail@ ==> {
        &&& post.next_message_id == pre.next_message_id + 1
        &&& r.src == dest
        &&& r.dest == src
        &&& is_read_reply(r.body, pre.next_message_id, msg_id, pre.map@, key)
    }
}

/// What handling `write` does: the head replicates the value; any other node passes the
/// request on to the head unchanged.
pub open spec fn write_post(pre: Node, post: Node, src: String, dest: String, msg_id: u64, key: u64, value: i64, r: Message<MessageBody>) -> bool {
    &&& pre.chain.id@ != pre.chain.head@ ==> {
        &&& post == pre
        &&& r == (Message { src, dest: pre.chain.head, body: MessageBody::Write { msg_id, key, value } })
    }
    &&& pre.chain.id@ == pre.chain.head@ ==> replicate_post(pre, post, key, value, "write"@, msg_id, src, r)
}

/// What handling `cas` does: any node but the head passes the request on to the head; the head
/// answers an error when the key is missing or holds another value, and otherwise replicates
/// the new value.
pub open spec fn cas_post(pre: Node, post: Node, src: String, dest: String, msg_id: u64, key: u64, from: i64, to: i64, r: Message<MessageBody>) -> bool {
    &&& pre.chain.id@ != pre.chain.head@ ==> {
        &&& post == pre
        &&& r == (Message { src, dest: pre.chain.head, body: MessageBody::Cas { msg_id, key, from, to } })
    }
    &&& pre.chain.id@ == pre.chain.head@ && !pre.map@.contains_key(key) ==> {
        &&& post.id == pre.id
        &&& post.chain == pre.chain
        &&& post.map@ =~= pre.map@
        &&& post.next_message_id == pre.next_message_id + 1
        &&& r.src == dest
        &&& r.dest == src
        &&& is_error(r.body, pre.next_message_id, msg_id, ErrorCode::KeyDoesNotExist, missing_key_text(key))
    }
    &&& pre.chain.id@ == pre.chain.head@ && pre.map@.contains_key(key) && pre.map@[key] != from ==> {
        &&& post.id == pre.id
        &&& post.chain == pre.chain
        &&& post.map@ =~= pre.map@
        &&& post.next_message_id == pre.next_message_id + 1
        &&& r.src == dest
        &&& r.dest == src
        &&& is_error(r.body, pre.next_message_id, msg_id, ErrorCode::PreconditionFailed, mismatch_text(pre.map@[key], from))
    }
    &&& pre.chain.id@ == pre.chain.head@ && cas_applies(pre.map@, key, from) ==> replicate_post(pre, post, key, to, "cas"@, msg_id, src, r)
}

impl Node {
    /// A node with an empty store that does not know the chain yet.
    pub fn new() -> (n: Node)
        ensures
            n.id@ == Seq::<char>::empty(),
            n.next_message_id == 1,
            n.map@ == Map::<u64, i64>::empty(),
            n.chain.id@ == Seq::<char>::empty(),
            n.chain.head@ == Seq::<char>::empty(),
            n.chain.tail@ == Seq::<char>::empty(),
            n.chain.next is None,
    {
        Node { id: String::new(), next_message_id: 1, map: empty_store(), chain: Chain::default() }
    }

    /// Handles `init`: takes the node's id and its place in the chain of `node_ids`, and replies
    /// `init_ok`.
    pub fn handle_init(&mut self, src: String, dest: String, msg_id: u64, node_id: String, node_ids: Vec<String>) -> (r: Message<MessageBody>)
        requires
            old(self).next_message_id < u64::MAX,
        ensures
            init_post(*old(self), *final(self), src, dest, msg_id, node_id, node_ids, r),
    {
        self.id = node_id;
        self.chain = Chain::new(self.id.clone(), node_ids);
        let id = self.acquire_message_id();
        Message { src: dest, dest: src, body: MessageBody::InitOk { msg_id: id, in_reply_to: msg_id } }
    }

    /// Handles `read`: a node other than the tail passes the request to the tail (as sent by the
    /// client); the tail replies with the key's value, or with an error when it is not stored.
    pub fn handle_read(&mut self, src: String, dest: String, msg_id: u64, key: u64) -> (r: Message<MessageBody>)
        requires
            old(self).chain.id@ == old(self).chain.tail@ ==> old(self).next_message_id < u64::MAX,
        ensures
            read_post(*old(self), *final(self), src, dest, msg_id, key, r),
    {
        if !self.chain.is_tail() {
            return Message { src, dest: self.chain.tail.clone(), body: MessageBody::Read { msg_id, key } };
        }
        let value = lookup(&self.map, key);
        let msg_response_body = match value {
            Some(v) => MessageBody::ReadOk { msg_id: self.acquire_message_id(), in_reply_to: msg_id, value: v },
            None => {
                proof { reveal_strlit("key does not exist"); }
                MessageBody::Error {
                    msg_id: self.acquire_message_id(),
                    in_reply_to: msg_id,
                    code: ErrorCode::KeyDoesNotExist,
                    text: String::from_str("key does not exist"),
                }
            },
        };
        Message { src: dest.clone(), dest: src.clone(), body: msg_response_body }
    }

    /// Handles `write`: a node other than the head passes the request to the head; the head
    /// stores the value and replicates it down the chain.
    pub fn handle_write(&mut self, src: String, dest: String, msg_id: u64, key: u64, value: i64) -> (r: Message<MessageBody>)
        requires
            old(self).chain.id@ == old(self).chain.head@ ==> old(self).next_message_id < u64::MAX,
        ensures
            write_post(*old(self), *final(self), src, dest, msg_id, key, value, r),
    {
        if !self.chain.is_head() {
            return Message { src, dest: self.chain.head.clone(), body: MessageBody::Write { msg_id, key, value } };
        }
        proof { reveal_strlit("write"); }
        let rpc_type = String::from_str("write");
        self.handle_replicate(key, value, rpc_type, msg_id, src)
    }

    /// Handles `cas`: a node other than the head passes the request to the head; the head
    /// replies with an error when the key is missing or holds another value than `from`, and
    /// otherwise stores `to` and replicates it down the chain.
    pub fn handle_cas(&mut self, src: String, dest: String, msg_id: u64, key: u64, from: i64, to: i64) -> (r: Message<MessageBody>)
        requires
            old(self).chain.id@ == old(self).chain.head@ ==> old(self).next_message_id < u64::MAX,
        ensures
            cas_post(*old(self), *final(self), src, dest, msg_id, key, from, to, r),
    {
        if !self.chain.is_head() {
            return Message { src, dest: self.chain.head.clone(), body: MessageBody::Cas { msg_id, key, from, to } };
        }
        let value = lookup(&self.map, key);
        match value {
            Some(v) => {
                if v != from {
                    let error_text = mismatch_message(v, from);
                    let body = MessageBody::Error {
                        msg_id: self.acquire_message_id(),
                        in_reply_to: msg_id,
                        code: ErrorCode::PreconditionFailed,
                        text: error_text,
                    };
                    return Message { src: dest, dest: src, body };
                }
            },
            None => {
                let error_text = missing_key_message(key);
                let body = MessageBody::Error {
                    msg_id: self.acquire_message_id(),
                    in_reply_to: msg_id,
                    code: ErrorCode::KeyDoesNotExist,
                    text: error_text,
                };
                return Message { src: dest, dest: src, body };
            },
        }
        proof { reveal_strlit("cas"); }
        let rpc_type = String::from_str("cas");
        self.handle_replicate(key, to, rpc_type, msg_id, src)
    }

    /// Handles a replication: stores the value, then passes the replication on to the next
    /// node, or, at the tail, answers the client's request.
    pub fn handle_replicate(&mut self, key: u64, value: i64, rpc_type: String, rpc_msg_id: u64, rpc_src: String) -> (r: Message<MessageBody>)
        requires
            old(self).next_message_id < u64::MAX,
            old(self).chain.next is None ==> is_known_rpc(rpc_type),
        ensures
            replicate_post(*old(self), *final(self), key, value, rpc_type@, rpc_msg_id, rpc_src, r),
    {
        store(&mut self.map, key, value);
        match &self.chain.next {
            Some(next) => {
                let next = next.clone();
                let msg_id = self.acquire_message_id();
                Message {
                    src: self.id.clone(),
                    dest: next,
                    body: MessageBody::Replicate { msg_id, key, value, rpc_type, rpc_msg_id, rpc_src },
                }
            },
            None => {
                let msg_response_id = self.acquire_message_id();
                let body = if rpc_type == String::from_str("write") {
                    MessageBody::WriteOk { msg_id: msg_response_id, in_reply_to: rpc_msg_id }
                } else {
                    MessageBody::CasOk { msg_id: msg_response_id, in_reply_to: rpc_msg_id }
                };
                Message { src: self.id.clone(), dest: rpc_src, body }
            },
        }
    }

    /// Hands out the next message id.
    pub fn acquire_message_id(&mut self) -> (id: u64)
        requires
            old(self).next_message_id < u64::MAX,
        ensures
            id == old(self).next_message_id,
            final(self).next_message_id == id + 1,
            final(self).id == old(self).id,
            final(self).chain == old(self).chain,
            final(self).map@ == old(self).map@,
    {
        let msg_id = self.next_message_id;
        self.next_message_id = self.next_message_id + 1;
        msg_id
    }
}


impl Node {
    /// The node can handle `msg` without failing: it is a request or a replication (not a
    /// reply), the node does not run out of message ids where it replies or replicates, and a
    /// replication that reaches the tail carries a write or a compare-and-set.
    pub open spec fn can_handle(&self, msg: Message<MessageBody>) -> bool {
        let ids_left = self.next_message_id < u64::MAX;
        match msg.body {
            MessageBody::Init { .. } => ids_left,
            MessageBody::Read { .. } => self.chain.id@ == self.chain.tail@ ==> ids_left,
            MessageBody::Write { .. } => self.chain.id@ == self.chain.head@ ==> ids_left,
            MessageBody::Cas { .. } => self.chain.id@ == self.chain.head@ ==> ids_left,
            MessageBody::Replicate { rpc_type, .. } => ids_left && (self.chain.next is None ==> is_known_rpc(rpc_type)),
            _ => false,
        }
    }

    /// Whether the node can handle `msg` without failing.
    pub fn accepts(&self, msg: &Message<MessageBody>) -> (r: bool)
        ensures
            r == self.can_handle(*msg),
    {
        let ids_left = self.next_message_id < u64::MAX;
        match &msg.body {
            MessageBody::Init { .. } => ids_left,
            MessageBody::Read { .. } => !self.chain.is_tail() || ids_left,
            MessageBody::Write { .. } | MessageBody::Cas { .. } => !self.chain.is_head() || ids_left,
            MessageBody::Replicate { rpc_type, .. } => {
                if !ids_left {
                    false
                } else if self.chain.next.is_some() {
                    true
                } else {
                    proof {
                        reveal_strlit("write");
                        reveal_strlit("cas");
                    }
                    *rpc_type == String::from_str("write") || *rpc_type == String::from_str("cas")
                }
            },
            _ => false,
        }
    }

    /// Handles one incoming message, by the handler for its kind.
    pub fn run(&mut self, msg: Message<MessageBody>) -> (r: Message<MessageBody>)
        requires
            old(self).can_handle(msg),
        ensures
            match msg.body {
                MessageBody::Init { msg_id, node_id, node_ids } => init_post(*old(self), *final(self), msg.src, msg.dest, msg_id, node_id, node_ids, r),
                MessageBody::Read { msg_id, key } => read_post(*old(self), *final(self), msg.src, msg.dest, msg_id, key, r),
                MessageBody::Write { msg_id, key, value } => write_post(*old(self), *final(self), msg.src, msg.dest, msg_id, key, value, r),
                MessageBody::Cas { msg_id, key, from, to } => cas_post(*old(self), *final(self), msg.src, msg.dest, msg_id, key, from, to, r),
                MessageBody::Replicate { key, value, rpc_type, rpc_msg_id, rpc_src, .. } => replicate_post(
                    *old(self),
                    *final(self),
                    key,
                    value,
                    rpc_type@,
                    rpc_msg_id,
                    rpc_src,
                    r,
                ),
                _ => false,
            },
    {
        let Message { src, dest, body } = msg;
        match body {
            MessageBody::Init { msg_id, node_id, node_ids } => self.handle_init(src, dest, msg_id, node_id, node_ids),
            MessageBody::Read { msg_id, key } => self.handle_read(src, dest, msg_id, key),
            MessageBody::Write { msg_id, key, value } => self.handle_write(src, dest, msg_id, key, value),
            MessageBody::Cas { msg_id, key, from, to } => self.handle_cas(src, dest, msg_id, key, from, to),
            MessageBody::Replicate { msg_id: _, key, value, rpc_type, rpc_msg_id, rpc_src } => self.handle_replicate(
                key,
                value,
                rpc_type,
                rpc_msg_id,
                rpc_src,
            ),
            _ => {
                proof {
                    assert(false);
                }
                Message { src: String::new(), dest: String::new(), body: MessageBody::InitOk { msg_id: 0, in_reply_to: 0 } }
            },
        }
    }
}


/// No two nodes of the chain share an id.
pub open spec fn ids_distinct(nodes: Seq<String>) -> bool {
    forall|i: int, j: int| 0 <= i < j < nodes.len() ==> nodes[i]@ != nodes[j]@
}

/// In a chain of distinct ids, each node's successor is the node after it, and the last node
/// has none: a write that enters at the head passes every node, in order, to the tail.
pub proof fn law_successor_in_chain(nodes: Seq<String>, i: int)
    requires
        ids_distinct(nodes),
        0 <= i < nodes.len(),
    ensures
        i + 1 < nodes.len() ==> successor(nodes, nodes[i]@) == Some(nodes[i + 1]),
        i + 1 == nodes.len() ==> successor(nodes, nodes[i]@) is None,
{
    let id = nodes[i]@;
    assert(exists|p: int| 0 <= p < nodes.len() && nodes[p]@ == id);
    let p = choose|p: int| 0 <= p < nodes.len() && nodes[p]@ == id && forall|q: int| 0 <= q < p ==> nodes[q]@ != id;
    assert(0 <= i < nodes.len() && nodes[i]@ == id && forall|q: int| 0 <= q < i ==> nodes[q]@ != id);
    if p < i {
        assert(nodes[p]@ != nodes[i]@);
    } else if p > i {
        assert(nodes[i]@ != nodes[p]@);
    }
}

/// At the tail, a read that follows the replication of a write answers with the written value.
pub proof fn law_tail_read_after_write(
    pre: Node,
    mid: Node,
    post: Node,
    key: u64,
    value: i64,
    rpc_type: Seq<char>,
    rpc_msg_id: u64,
    rpc_src: String,
    replicated: Message<MessageBody>,
    src: String,
    dest: String,
    msg_id: u64,
    read_reply: Message<MessageBody>,
)
    requires
        replicate_post(pre, mid, key, value, rpc_type, rpc_msg_id, rpc_src, replicated),
        read_post(mid, post, src, dest, msg_id, key, read_reply),
        mid.chain.id@ == mid.chain.tail@,
    ensures
        read_reply.body == (MessageBody::ReadOk { msg_id: mid.next_message_id, in_reply_to: msg_id, value }),
{
}

/// The tail answers a read from its store: the value of a held key, error 20 for a missing one,
/// in reply to the read's own id; any other node passes the read to the tail unchanged.
pub proof fn law_tail_answers_reads(pre: Node, post: Node, src: String, dest: String, msg_id: u64, key: u64, r: Message<MessageBody>)
    requires
        read_post(pre, post, src, dest, msg_id, key, r),
    ensures
        post.map@ == pre.map@,
        pre.chain.id@ == pre.chain.tail@ && pre.map@.contains_key(key) ==> r == (Message {
            src: dest,
            dest: src,
            body: MessageBody::ReadOk { msg_id: pre.next_message_id, in_reply_to: msg_id, value: pre.map@[key] },
        }),
        pre.chain.id@ == pre.chain.tail@ && !pre.map@.contains_key(key) ==> (r.body matches MessageBody::Error {
            in_reply_to,
            code,
            ..
        } && in_reply_to == msg_id && code == ErrorCode::KeyDoesNotExist),
        pre.chain.id@ != pre.chain.tail@ ==> r.dest == pre.chain.tail && r.body == (MessageBody::Read { msg_id, key }),
{
}

/// The head carries out a compare-and-set: with the key holding `from` it stores `to` and
/// passes the new value down the chain (or, alone in the chain, answers `cas_ok`); with the key
/// holding another value it answers error 22, with the key missing error 20, and leaves its
/// store. Errors answer the request's own id.
pub proof fn law_head_compare_and_set(
    pre: Node,
    post: Node,
    src: String,
    dest: String,
    msg_id: u64,
    key: u64,
    from: i64,
    to: i64,
    r: Message<MessageBody>,
)
    requires
        cas_post(pre, post, src, dest, msg_id, key, from, to, r),
        pre.chain.id@ == pre.chain.head@,
    ensures
        pre.map@.contains_key(key) && pre.map@[key] == from ==> {
            &&& post.map@ == pre.map@.insert(key, to)
            &&& pre.chain.next is Some ==> (r.body matches MessageBody::Replicate { key: k, value: v, rpc_msg_id, .. }
                && k == key && v == to && rpc_msg_id == msg_id)
            &&& pre.chain.next is None ==> r.body == (MessageBody::CasOk { msg_id: pre.next_message_id, in_reply_to: msg_id })
        },
        pre.map@.contains_key(key) && pre.map@[key] != from ==> {
            &&& post.map@ == pre.map@
            &&& r.body matches MessageBody::Error { in_reply_to, code, .. }
            &&& in_reply_to == msg_id && code == ErrorCode::PreconditionFailed
        },
        !pre.map@.contains_key(key) ==> {
            &&& post.map@ == pre.map@
            &&& r.body matches MessageBody::Error { in_reply_to, code, .. }
            &&& in_reply_to == msg_id && code == ErrorCode::KeyDoesNotExist
        },
{
    reveal_strlit("cas");
    reveal_strlit("write");
    assert("cas"@.len() != "write"@.len());
    assert(cas_applies(pre.map@, key, from) <==> (pre.map@.contains_key(key) && pre.map@[key] == from));
}

} // verus!
