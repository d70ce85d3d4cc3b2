//! The lin-kv workload on a single node: a key/value store that does not replicate.
use vstd::prelude::*;
use std::collections::HashMap;
use crate::message::{ErrorCode, Message};
use crate::kv::{read_value, cas_applies, cas_result, lookup, store, empty_store};
use crate::text::{missing_key_text, mismatch_text, missing_key_message, mismatch_message};

verus! {

/// The requests that a lin-kv node serves.
#[derive(Clone, Debug, PartialEq)]
pub enum Request {
    Init { msg_id: u64, node_id: String },
    Read { msg_id: u64, key: u64 },
    Write { msg_id: u64, key: u64, value: i64 },
    Cas { msg_id: u64, key: u64, from: i64, to: i64 },
}

/// The replies of a lin-kv node.
#[derive(Clone, Debug, PartialEq)]
pub enum Response {
    InitOk { msg_id: u64, in_reply_to: u64 },
    ReadOk { msg_id: u64, in_reply_to: u64, value: i64 },
    WriteOk { msg_id: u64, in_reply_to: u64 },
    CasOk { msg_id: u64, in_reply_to: u64 },
    Error { msg_id: u64, in_reply_to: u64, code: ErrorCode, text: String },
}

/// `b` is an error reply with these fields and text.
pub open spec fn is_error(b: Response, msg_id: u64, in_reply_to: u64, code: ErrorCode, text: Seq<char>) -> bool {
    match b {
        Response::Error { msg_id: m, in_reply_to: r, code: c, text: t } => m == msg_id && r == in_reply_to && c == code && t@ == text,
        _ => false,
    }
}

/// `b` answers a read of `key` from a store holding `m`: the value, or an error when the key
/// is not there.
pub open spec fn is_read_reply(b: Response, msg_id: u64, in_reply_to: u64, m: Map<u64, i64>, key: u64) -> bool {
    match read_value(m, key) {
        Some(value) => b == Response::ReadOk { msg_id, in_reply_to, value },
        None => is_error(b, msg_id, in_reply_to, ErrorCode::KeyDoesNotExist, "key does not exist"@),
    }
}

/// `b` answers a compare-and-set of `key` from `from` on a store holding `m`: success when the
/// key holds `from`, an error naming the key when it is missing, an error naming both values
/// when they differ.
pub open spec fn is_cas_reply(b: Response, msg_id: u64, in_reply_to: u64, m: Map<u64, i64>, key: u64, from: i64) -> bool {
    if !m.contains_key(key) {
        is_error(b, msg_id, in_reply_to, ErrorCode::KeyDoesNotExist, missing_key_text(key))
    } else if m[key] != from {
        is_error(b, msg_id, in_reply_to, ErrorCode::PreconditionFailed, mismatch_text(m[key], from))
    } else {
        b == Response::CasOk { msg_id, in_reply_to }
    }
}

/// A lin-kv node that serves the store alone.
pub struct Node {
    pub id: String,
    pub next_message_id: u64,
    pub map: HashMap<u64, i64>,
}

/// What handling request `msg` does: the reply `r` and the node's state after it.
pub open spec fn run_post(pre: Node, post: Node, msg: Message<Request>, r: Message<Response>) -> bool {
    &&& post.next_message_id == pre.next_message_id + 1
    &&& r.src == msg.dest
    &&& r.dest == msg.src
    &&& match msg.body {
        Request::Init { msg_id, node_id } => {
            &&& post.id == node_id
            &&& post.map@ =~= pre.map@
            &&& r.body == Response::InitOk { msg_id: pre.next_message_id, in_reply_to: msg_id }
        },
        Request::Read { msg_id, key } => {
            &&& post.id == pre.id
            &&& post.map@ =~= pre.map@
            &&& is_read_reply(r.body, pre.next_message_id, msg_id, pre.map@, key)
        },
        Request::Write { msg_id, key, value } => {
            &&& post.id == pre.id
            &&& post.map@ =~= pre.map@.insert(key, value)
            &&& r.body == Response::WriteOk { msg_id: pre.next_message_id, in_reply_to: msg_id }
        },
        Request::Cas { msg_id, key, from, to } => {
            &&& post.id == pre.id
            &&& post.map@ =~= cas_result(pre.map@, key, from, to)
            &&& is_cas_reply(r.body, pre.next_message_id, msg_id, pre.map@, key, from)
        },
    }
}

impl Node {
    /// A node with an empty store that has not been initialized yet.
    pub fn new() -> (n: Node)
        ensures
            n.id@ == Seq::<char>::empty(),
            n.next_message_id == 1,
            n.map@ == Map::<u64, i64>::empty(),
    {
        Node { id: String::new(), next_message_id: 1, map: empty_store() }
    }

    /// Handles one request, by the handler for its kind.
    pub fn run(&mut self, msg: Message<Request>) -> (r: Message<Response>)
        requires
            old(self).next_message_id < u64::MAX,
        ensures
            run_post(*old(self), *final(self), msg, r),
    {
        let Message { src, dest, body } = msg;
        match body {
            Request::Init { msg_id, node_id } => self.handle_init(src, dest, msg_id, node_id),
            Request::Read { msg_id, key } => self.handle_read(src, dest, msg_id, key),
            Request::Write { msg_id, key, value } => self.handle_write(src, dest, msg_id, key, value),
            Request::Cas { msg_id, key, from, to } => self.handle_cas(src, dest, msg_id, key, from, to),
        }
    }

    /// Handles `init`: takes the node's id and replies `init_ok`.
    pub fn handle_init(&mut self, src: String, dest: String, msg_id: u64, node_id: String) -> (r: Message<Response>)
        requires
            old(self).next_message_id < u64::MAX,
        ensures
            final(self).id == node_id,
            final(self).map@ == old(self).map@,
            final(self).next_message_id == old(self).next_message_id + 1,
            r == (Message { src: dest, dest: src, body: Response::InitOk { msg_id: old(self).next_message_id, in_reply_to: msg_id } }),
    {
        self.id = node_id;
        let id = self.acquire_message_id();
        Message { src: dest, dest: src, body: Response::InitOk { msg_id: id, in_reply_to: msg_id } }
    }

    /// Handles `read`: replies with the key's value, or with an error when it is not stored.
    pub fn handle_read(&mut self, src: String, dest: String, msg_id: u64, key: u64) -> (r: Message<Response>)
        requires
            old(self).next_message_id < u64::MAX,
        ensures
            final(self).id == old(self).id,
            final(self).map@ == old(self).map@,
            final(self).next_message_id == old(self).next_message_id + 1,
            r.src == dest,
            r.dest == src,
            is_read_reply(r.body, old(self).next_message_id, msg_id, old(self).map@, key),
    {
        let value = lookup(&self.map, key);
        let msg_response_body = match value {
            Some(v) => Response::ReadOk { msg_id: self.acquire_message_id(), in_reply_to: msg_id, value: v },
            None => {
                proof { reveal_strlit("key does not exist"); }
                Response::Error {
                    msg_id: self.acquire_message_id(),
                    in_reply_to: msg_id,
                    code: ErrorCode::KeyDoesNotExist,
                    text: String::from_str("key does not exist"),
                }
            },
        };
        Message { src: dest.clone(), dest: src.clone(), body: msg_response_body }
    }

    /// Handles `write`: stores the value and replies `write_ok`.
    pub fn handle_write(&mut self, src: String, dest: String, msg_id: u64, key: u64, value: i64) -> (r: Message<Response>)
        requires
            old(self).next_message_id < u64::MAX,
        ensures
            final(self).id == old(self).id,
            final(self).map@ == old(self).map@.insert(key, value),
            final(self).next_message_id == old(self).next_message_id + 1,
            r == (Message { src: dest, dest: src, body: Response::WriteOk { msg_id: old(self).next_message_id, in_reply_to: msg_id } }),
    {
        store(&mut self.map, key, value);
        Message { src: dest, dest: src, body: Response::WriteOk { msg_id: self.acquire_message_id(), in_reply_to: msg_id } }
    }

    /// Handles `cas`: sets the key to `to` when it holds `from` and replies `cas_ok`; replies
    /// with an error when the key is missing or holds another value.
    pub fn handle_cas(&mut self, src: String, dest: String, msg_id: u64, key: u64, from: i64, to: i64) -> (r: Message<Response>)
        requires
            old(self).next_message_id < u64::MAX,
        ensures
            final(self).id == old(self).id,
            final(self).map@ == cas_result(old(self).map@, key, from, to),
            final(self).next_message_id == old(self).next_message_id + 1,
            r.src == dest,
            r.dest == src,
            is_cas_reply(r.body, old(self).next_message_id, msg_id, old(self).map@, key, from),
    {
        let value = lookup(&self.map, key);
        let msg_response_body = match value {
            Some(v) => {
                if v != from {
                    let error_text = mismatch_message(v, from);
                    Response::Error {
                        msg_id: self.acquire_message_id(),
                        in_reply_to: msg_id,
                        code: ErrorCode::PreconditionFailed,
                        text: error_text,
                    }
                } else {
                    store(&mut self.map, key, to);
                    Response::CasOk { msg_id: self.acquire_message_id(), in_reply_to: msg_id }
                }
            },
            None => {
                let error_text = missing_key_message(key);
                Response::Error {
                    msg_id: self.acquire_message_id(),
                    in_reply_to: msg_id,
                    code: ErrorCode::KeyDoesNotExist,
                    text: error_text,
                }
            },
        };
        Message { src: dest, dest: src, body: msg_response_body }
    }

    /// Hands out the next message id.
    pub fn acquire_message_id(&mut self) -> (id: u64)
        requires
            old(self).next_message_id < u64::MAX,
        ensures
            id == old(self).next_message_id,
            final(self).next_message_id == id + 1,
            final(self).id == old(self).id,
            final(self).map@ == old(self).map@,
    {
        let msg_id = self.next_message_id;
        self.next_message_id = self.next_message_id + 1;
        msg_id
    }
}


/// The message id of a reply.
pub open spec fn reply_msg_id(b: Response) -> u64 {
    match b {
        Response::InitOk { msg_id, .. } => msg_id,
        Response::ReadOk { msg_id, .. } => msg_id,
        Response::WriteOk { msg_id, .. } => msg_id,
        Response::CasOk { msg_id, .. } => msg_id,
        Response::Error { msg_id, .. } => msg_id,
    }
}

/// A read that follows a write of the same key answers with the written value.
pub proof fn law_read_after_write(
    pre: Node,
    mid: Node,
    post: Node,
    write: Message<Request>,
    write_reply: Message<Response>,
    read: Message<Request>,
    read_reply: Message<Response>,
)
    requires
        run_post(pre, mid, write, write_reply),
        run_post(mid, post, read, read_reply),
        write.body is Write,
        read.body is Read,
        read.body->Read_key == write.body->Write_key,
    ensures
        read_reply.body == (Response::ReadOk {
            msg_id: mid.next_message_id,
            in_reply_to: read.body->Read_msg_id,
            value: write.body->Write_value,
        }),
{
}

/// A compare-and-set from the value just written succeeds, and leaves the key holding its new
/// value.
pub proof fn law_cas_after_write(
    pre: Node,
    mid: Node,
    post: Node,
    write: Message<Request>,
    write_reply: Message<Response>,
    cas: Message<Request>,
    cas_reply: Message<Response>,
)
    requires
        run_post(pre, mid, write, write_reply),
        run_post(mid, post, cas, cas_reply),
        write.body is Write,
        cas.body is Cas,
        cas.body->Cas_key == write.body->Write_key,
        cas.body->Cas_from == write.body->Write_value,
    ensures
        cas_reply.body == (Response::CasOk { msg_id: mid.next_message_id, in_reply_to: cas.body->Cas_msg_id }),
        read_value(post.map@, cas.body->Cas_key) == Some(cas.body->Cas_to),
{
}

/// A compare-and-set that finds the key missing, or holding another value than expected,
/// leaves the store as it was and answers with an error.
pub proof fn law_failed_cas_unchanged(pre: Node, post: Node, cas: Message<Request>, reply: Message<Response>)
    requires
        run_post(pre, post, cas, reply),
        cas.body is Cas,
        !cas_applies(pre.map@, cas.body->Cas_key, cas.body->Cas_from),
    ensures
        post.map@ == pre.map@,
        reply.body is Error,
{
}

/// Each reply carries a message id greater than the one before it: a node never reuses one.
pub proof fn law_fresh_message_ids(
    n0: Node,
    n1: Node,
    n2: Node,
    m1: Message<Request>,
    r1: Message<Response>,
    m2: Message<Request>,
    r2: Message<Response>,
)
    requires
        run_post(n0, n1, m1, r1),
        run_post(n1, n2, m2, r2),
    ensures
        reply_msg_id(r1.body) < reply_msg_id(r2.body),
{
}

/// What each request answers and leaves in the store: a read of a held key answers its value,
/// of a missing key error 20; a write stores its value; a compare-and-set of a key holding `from`
/// stores `to` and answers `cas_ok`, of a key holding another value answers error 22, of a
/// missing key error 20, and leaves the store in both cases. Every reply answers the request's
/// own id.
pub proof fn law_request_outcomes(pre: Node, post: Node, msg: Message<Request>, r: Message<Response>)
    requires
        run_post(pre, post, msg, r),
    ensures
        match msg.body {
            Request::Init { msg_id, .. } => r.body == Response::InitOk { msg_id: pre.next_message_id, in_reply_to: msg_id },
            Request::Read { msg_id, key } => {
                &&& post.map@ == pre.map@
                &&& pre.map@.contains_key(key) ==> r.body == Response::ReadOk {
                    msg_id: pre.next_message_id,
                    in_reply_to: msg_id,
                    value: pre.map@[key],
                }
                &&& !pre.map@.contains_key(key) ==> (r.body matches Response::Error { in_reply_to, code, .. }
                    && in_reply_to == msg_id && code == ErrorCode::KeyDoesNotExist)
            },
            Request::Write { msg_id, key, value } => {
                &&& post.map@ == pre.map@.insert(key, value)
                &&& r.body == Response::WriteOk { msg_id: pre.next_message_id, in_reply_to: msg_id }
            },
            Request::Cas { msg_id, key, from, to } => {
                &&& pre.map@.contains_key(key) && pre.map@[key] == from ==> {
                    &&& post.map@ == pre.map@.insert(key, to)
                    &&& r.body == Response::CasOk { msg_id: pre.next_message_id, in_reply_to: msg_id }
                }
                &&& pre.map@.contains_key(key) && pre.map@[key] != from ==> {
                    &&& post.map@ == pre.map@
                    &&& r.body matches Response::Error { in_reply_to, code, .. }
                    &&& in_reply_to == msg_id && code == ErrorCode::PreconditionFailed
                }
                &&& !pre.map@.contains_key(key) ==> {
                    &&& post.map@ == pre.map@
                    &&& r.body matches Response::Error { in_reply_to, code, .. }
                    &&& in_reply_to == msg_id && code == ErrorCode::KeyDoesNotExist
                }
            },
        },
{
}

} // verus!
