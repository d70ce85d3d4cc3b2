//! The echo workload: the node answers each `echo` request with the same payload.
use vstd::prelude::*;
use crate::message::Message;

verus! {

/// A JSON value, carried through unread: the payload of an echo request.
#[verifier::external_type_specification]
#[verifier::external_body]
pub struct ExJsonValue(serde_json::Value);

/// The requests that an echo node serves.
#[derive(Debug, PartialEq)]
pub enum Request {
    Init { msg_id: u64, node_id: String },
    Echo { msg_id: u64, echo: serde_json::Value },
}

/// The replies of an echo node.
#[derive(Debug, PartialEq)]
pub enum Response {
    InitOk { msg_id: u64, in_reply_to: u64 },
    EchoOk { msg_id: u64, in_reply_to: u64, echo: serde_json::Value },
}

/// A node of the echo workload.
pub struct EchoNode {
    pub id: String,
    pub next_message_id: u64,
}

/// What handling request `msg` does: the reply `r` and the node's state after it.
pub open spec fn run_post(pre: EchoNode, post: EchoNode, msg: Message<Request>, r: Message<Response>) -> bool {
    &&& post.next_message_id == pre.next_message_id + 1
    &&& r.src == msg.dest
    &&& r.dest == msg.src
    &&& match msg.body {
        Request::Init { msg_id, node_id } => {
            &&& post.id == node_id
            &&& r.body == Response::InitOk { msg_id: pre.next_message_id, in_reply_to: msg_id }
        },
        Request::Echo { msg_id, echo } => {
            &&& post.id == pre.id
            &&& r.body == Response::EchoOk { msg_id: pre.next_message_id, in_reply_to: msg_id, echo }
        },
    }
}

impl EchoNode {
    /// A node that has not been initialized yet.
    pub fn new() -> (n: EchoNode)
        ensures
            n.id@ == Seq::<char>::empty(),
            n.next_message_id == 1,
    {
        EchoNode { id: String::new(), next_message_id: 1 }
    }

    /// Handles one request, by the handler for its kind.
    pub fn run(&mut self, msg: Message<Request>) -> (r: Message<Response>)
        requires
            old(self).next_message_id < u64::MAX,
        ensures
            run_post(*old(self), *final(self), msg, r),
    {
        let Message { src, dest, body } = msg;
        match body {
            Request::Init { msg_id, node_id } => self.handle_init(src, dest, msg_id, node_id),
            Request::Echo { msg_id, echo } => self.handle_echo(src, dest, msg_id, echo),
        }
    }

    /// Handles `init`: takes the node's id and replies `init_ok`.
    pub fn handle_init(&mut self, src: String, dest: String, msg_id: u64, node_id: String) -> (r: Message<Response>)
        requires
            old(self).next_message_id < u64::MAX,
        ensures
            final(self).id == node_id,
            final(self).next_message_id == old(self).next_message_id + 1,
            r == (Message { src: dest, dest: src, body: Response::InitOk { msg_id: old(self).next_message_id, in_reply_to: msg_id } }),
    {
        self.id = node_id;
        let id = self.acquire_message_id();
        Message { src: dest, dest: src, body: Response::InitOk { msg_id: id, in_reply_to: msg_id } }
    }

    /// Handles `echo`: replies `echo_ok` with the same payload.
    pub fn handle_echo(&mut self, src: String, dest: String, msg_id: u64, echo: serde_json::Value) -> (r: Message<Response>)
        requires
            old(self).next_message_id < u64::MAX,
        ensures
            final(self).id == old(self).id,
            final(self).next_message_id == old(self).next_message_id + 1,
            r == (Message {
                src: dest,
                dest: src,
                body: Response::EchoOk { msg_id: old(self).next_message_id, in_reply_to: msg_id, echo },
            }),
    {
        let id = self.acquire_message_id();
        Message { src: dest, dest: src, body: Response::EchoOk { msg_id: id, in_reply_to: msg_id, echo } }
    }

    /// Hands out the next message id.
    pub fn acquire_message_id(&mut self) -> (id: u64)
        requires
            old(self).next_message_id < u64::MAX,
        ensures
            id == old(self).next_message_id,
            final(self).next_message_id == id + 1,
            final(self).id == old(self).id,
    {
        let msg_id = self.next_message_id;
        self.next_message_id = self.next_message_id + 1;
        msg_id
    }
}

} // verus!
