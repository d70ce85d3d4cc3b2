use maelstrom_rust::kv_single::{Node, Request, Response};
use maelstrom_rust::message::{ErrorCode, Message};

fn msg(body: Request) -> Message<Request> {
    Message { src: "c1".to_string(), dest: "n1".to_string(), body }
}

#[test]
fn read_of_missing_key_is_an_error() {
    let mut node = Node::new();
    let r = node.run(msg(Request::Read { msg_id: 4, key: 1 }));
    assert_eq!(r.src, "n1");
    assert_eq!(r.dest, "c1");
    assert_eq!(
        r.body,
        Response::Error { msg_id: 1, in_reply_to: 4, code: ErrorCode::KeyDoesNotExist, text: "key does not exist".to_string() }
    );
}

#[test]
fn read_after_write_gives_the_value() {
    let mut node = Node::new();
    let w = node.run(msg(Request::Write { msg_id: 1, key: 3, value: -8 }));
    assert_eq!(w.body, Response::WriteOk { msg_id: 1, in_reply_to: 1 });
    let r = node.run(msg(Request::Read { msg_id: 2, key: 3 }));
    assert_eq!(r.body, Response::ReadOk { msg_id: 2, in_reply_to: 2, value: -8 });
    let other = node.run(msg(Request::Read { msg_id: 3, key: 4 }));
    assert!(matches!(other.body, Response::Error { code: ErrorCode::KeyDoesNotExist, .. }));
}

#[test]
fn cas_succeeds_from_the_current_value() {
    let mut node = Node::new();
    node.run(msg(Request::Write { msg_id: 1, key: 0, value: 1 }));
    let c = node.run(msg(Request::Cas { msg_id: 2, key: 0, from: 1, to: 5 }));
    assert_eq!(c.body, Response::CasOk { msg_id: 2, in_reply_to: 2 });
    let r = node.run(msg(Request::Read { msg_id: 3, key: 0 }));
    assert_eq!(r.body, Response::ReadOk { msg_id: 3, in_reply_to: 3, value: 5 });
}

#[test]
fn cas_from_another_value_fails_and_changes_nothing() {
    let mut node = Node::new();
    node.run(msg(Request::Write { msg_id: 1, key: 0, value: 1 }));
    let c = node.run(msg(Request::Cas { msg_id: 2, key: 0, from: 2, to: 5 }));
    assert_eq!(
        c.body,
        Response::Error {
            msg_id: 2,
            in_reply_to: 2,
            code: ErrorCode::PreconditionFailed,
            text: "current value 1 does not match 'from' value 2".to_string(),
        }
    );
    let r = node.run(msg(Request::Read { msg_id: 3, key: 0 }));
    assert_eq!(r.body, Response::ReadOk { msg_id: 3, in_reply_to: 3, value: 1 });
}

#[test]
fn cas_on_missing_key_fails() {
    let mut node = Node::new();
    let c = node.run(msg(Request::Cas { msg_id: 7, key: 42, from: 0, to: 1 }));
    assert_eq!(
        c.body,
        Response::Error { msg_id: 1, in_reply_to: 7, code: ErrorCode::KeyDoesNotExist, text: "key '42' does not exist".to_string() }
    );
    assert!(node.map.is_empty());
}

#[test]
fn init_records_the_node_id() {
    let mut node = Node::new();
    let r = node.run(msg(Request::Init { msg_id: 9, node_id: "n1".to_string() }));
    assert_eq!(node.id, "n1");
    assert_eq!(r.body, Response::InitOk { msg_id: 1, in_reply_to: 9 });
    assert_eq!(node.next_message_id, 2);
}
