use maelstrom_rust::chain::{Chain, MessageBody, Node};
use maelstrom_rust::message::{ErrorCode, Message};

fn names(ids: &[&str]) -> Vec<String> {
    ids.iter().map(|s| s.to_string()).collect()
}

fn msg(src: &str, dest: &str, body: MessageBody) -> Message<MessageBody> {
    Message { src: src.to_string(), dest: dest.to_string(), body }
}

fn node_in(id: &str, ids: &[&str]) -> Node {
    let mut node = Node::new();
    node.run(msg("c0", id, MessageBody::Init { msg_id: 0, node_id: id.to_string(), node_ids: names(ids) }));
    node
}

#[test]
fn chain_places_head_tail_and_successor() {
    let c = Chain::new("n1".to_string(), names(&["n0", "n1", "n2"]));
    assert_eq!(c.head, "n0");
    assert_eq!(c.tail, "n2");
    assert_eq!(c.next, Some("n2".to_string()));
    assert!(!c.is_head());
    assert!(!c.is_tail());
    let last = Chain::new("n2".to_string(), names(&["n0", "n1", "n2"]));
    assert_eq!(last.next, None);
    assert!(last.is_tail());
    let first = Chain::new("n0".to_string(), names(&["n0", "n1", "n2"]));
    assert!(first.is_head());
    assert_eq!(first.next, Some("n1".to_string()));
}

#[test]
fn chain_of_an_unknown_or_empty_membership() {
    let stranger = Chain::new("x".to_string(), names(&["n0", "n1"]));
    assert_eq!(stranger.next, None);
    let empty = Chain::new("n0".to_string(), Vec::new());
    assert_eq!(empty.head, "");
    assert_eq!(empty.tail, "");
    assert_eq!(empty.next, None);
    let default = Chain::default();
    assert_eq!(default.id, "");
    assert_eq!(default.next, None);
}

#[test]
fn reads_go_to_the_tail() {
    let mut head = node_in("n0", &["n0", "n1", "n2"]);
    let r = head.run(msg("c1", "n0", MessageBody::Read { msg_id: 4, key: 1 }));
    assert_eq!(r, msg("c1", "n2", MessageBody::Read { msg_id: 4, key: 1 }));
}

#[test]
fn writes_go_to_the_head_then_down_the_chain() {
    let mut middle = node_in("n1", &["n0", "n1", "n2"]);
    let forwarded = middle.run(msg("c1", "n1", MessageBody::Write { msg_id: 4, key: 1, value: 9 }));
    assert_eq!(forwarded, msg("c1", "n0", MessageBody::Write { msg_id: 4, key: 1, value: 9 }));

    let mut head = node_in("n0", &["n0", "n1", "n2"]);
    let rep = head.run(forwarded);
    assert_eq!(
        rep,
        msg(
            "n0",
            "n1",
            MessageBody::Replicate {
                msg_id: 2,
                key: 1,
                value: 9,
                rpc_type: "write".to_string(),
                rpc_msg_id: 4,
                rpc_src: "c1".to_string(),
            }
        )
    );
    let rep2 = middle.run(rep);
    let mut tail = node_in("n2", &["n0", "n1", "n2"]);
    assert_eq!(rep2.dest, "n2");
    let ok = tail.run(rep2);
    assert_eq!(ok, msg("n2", "c1", MessageBody::WriteOk { msg_id: 2, in_reply_to: 4 }));
    let read = tail.run(msg("c2", "n2", MessageBody::Read { msg_id: 8, key: 1 }));
    assert_eq!(read, msg("n2", "c2", MessageBody::ReadOk { msg_id: 3, in_reply_to: 8, value: 9 }));
}

#[test]
fn single_node_chain_answers_cas() {
    let mut node = node_in("n0", &["n0"]);
    let missing = node.run(msg("c1", "n0", MessageBody::Cas { msg_id: 1, key: 5, from: 0, to: 1 }));
    assert_eq!(
        missing.body,
        MessageBody::Error { msg_id: 2, in_reply_to: 1, code: ErrorCode::KeyDoesNotExist, text: "key '5' does not exist".to_string() }
    );
    node.run(msg("c1", "n0", MessageBody::Write { msg_id: 2, key: 5, value: 3 }));
    let mismatch = node.run(msg("c1", "n0", MessageBody::Cas { msg_id: 3, key: 5, from: 4, to: 1 }));
    assert_eq!(
        mismatch.body,
        MessageBody::Error {
            msg_id: 4,
            in_reply_to: 3,
            code: ErrorCode::PreconditionFailed,
            text: "current value 3 does not match 'from' value 4".to_string(),
        }
    );
    let ok = node.run(msg("c1", "n0", MessageBody::Cas { msg_id: 5, key: 5, from: 3, to: 1 }));
    assert_eq!(ok, msg("n0", "c1", MessageBody::CasOk { msg_id: 5, in_reply_to: 5 }));
    let read = node.run(msg("c1", "n0", MessageBody::Read { msg_id: 6, key: 5 }));
    assert_eq!(read.body, MessageBody::ReadOk { msg_id: 6, in_reply_to: 6, value: 1 });
}

#[test]
fn replies_and_unknown_replications_are_refused() {
    let node = node_in("n0", &["n0"]);
    assert!(!node.accepts(&msg("c1", "n0", MessageBody::InitOk { msg_id: 1, in_reply_to: 1 })));
    let odd = MessageBody::Replicate {
        msg_id: 1,
        key: 0,
        value: 0,
        rpc_type: "delete".to_string(),
        rpc_msg_id: 0,
        rpc_src: "c1".to_string(),
    };
    assert!(!node.accepts(&msg("n1", "n0", odd)));
    assert!(node.accepts(&msg("c1", "n0", MessageBody::Read { msg_id: 1, key: 0 })));
}

#[test]
fn forwarding_needs_no_message_id() {
    let mut middle = node_in("n1", &["n0", "n1", "n2"]);
    middle.next_message_id = u64::MAX;
    let read = msg("c1", "n1", MessageBody::Read { msg_id: 4, key: 1 });
    assert!(middle.accepts(&read));
    assert_eq!(middle.run(read), msg("c1", "n2", MessageBody::Read { msg_id: 4, key: 1 }));
    let write = msg("c1", "n1", MessageBody::Write { msg_id: 5, key: 1, value: 2 });
    assert!(middle.accepts(&write));
    assert_eq!(middle.run(write), msg("c1", "n0", MessageBody::Write { msg_id: 5, key: 1, value: 2 }));
    let mut tail = node_in("n2", &["n0", "n1", "n2"]);
    tail.next_message_id = u64::MAX;
    assert!(!tail.accepts(&msg("c1", "n2", MessageBody::Read { msg_id: 4, key: 1 })));
}
