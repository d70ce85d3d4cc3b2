use std::collections::HashSet;

use maelstrom_rust::echo::{self, EchoNode};
use maelstrom_rust::message::Message;
use maelstrom_rust::unique_ids::{self, UniqueIdsNode};

fn msg<T>(src: &str, dest: &str, body: T) -> Message<T> {
    Message { src: src.to_string(), dest: dest.to_string(), body }
}

#[test]
fn echo_init_replies_init_ok() {
    let mut node = EchoNode::new();
    let r = node.run(msg("c1", "n1", echo::Request::Init { msg_id: 5, node_id: "n1".to_string() }));
    assert_eq!(node.id, "n1");
    assert_eq!(r.src, "n1");
    assert_eq!(r.dest, "c1");
    assert_eq!(r.body, echo::Response::InitOk { msg_id: 1, in_reply_to: 5 });
}

#[test]
fn echo_returns_the_payload() {
    let mut node = EchoNode::new();
    let payload = serde_json::Value::String("Please echo 35".to_string());
    let r = node.run(msg("c1", "n1", echo::Request::Echo { msg_id: 9, echo: payload.clone() }));
    assert_eq!(r.body, echo::Response::EchoOk { msg_id: 1, in_reply_to: 9, echo: payload });
    let r2 = node.run(msg("c2", "n1", echo::Request::Echo { msg_id: 3, echo: serde_json::Value::from(17) }));
    assert_eq!(r2.dest, "c2");
    assert_eq!(r2.body, echo::Response::EchoOk { msg_id: 2, in_reply_to: 3, echo: serde_json::Value::from(17) });
}

#[test]
fn unique_ids_count_up_per_node() {
    let mut node = UniqueIdsNode::new();
    node.run(msg("c1", "n3", unique_ids::Request::Init { msg_id: 1, node_id: "n3".to_string() }));
    let r0 = node.run(msg("c1", "n3", unique_ids::Request::Generate { msg_id: 2 }));
    let r1 = node.run(msg("c1", "n3", unique_ids::Request::Generate { msg_id: 3 }));
    assert_eq!(r0.body, unique_ids::Response::GenerateOk { msg_id: 2, in_reply_to: 2, id: "n3-0".to_string() });
    assert_eq!(r1.body, unique_ids::Response::GenerateOk { msg_id: 3, in_reply_to: 3, id: "n3-1".to_string() });
    assert_eq!(node.n, 2);
}

#[test]
fn unique_ids_never_collide_across_nodes() {
    let mut seen = HashSet::new();
    for name in ["n1", "n12", "n1-2", "n2"] {
        let mut node = UniqueIdsNode::new();
        node.run(msg("c", name, unique_ids::Request::Init { msg_id: 0, node_id: name.to_string() }));
        for i in 0..30u64 {
            match node.run(msg("c", name, unique_ids::Request::Generate { msg_id: i })).body {
                unique_ids::Response::GenerateOk { id, .. } => assert!(seen.insert(id)),
                other => panic!("unexpected reply {:?}", other),
            }
        }
    }
    assert_eq!(seen.len(), 120);
}

#[test]
fn unique_ids_keep_counting_across_a_second_init() {
    let mut node = UniqueIdsNode::new();
    node.run(msg("c1", "n1", unique_ids::Request::Init { msg_id: 1, node_id: "n1".to_string() }));
    let r0 = node.run(msg("c1", "n1", unique_ids::Request::Generate { msg_id: 2 }));
    let init = node.run(msg("c1", "n1", unique_ids::Request::Init { msg_id: 3, node_id: "n1".to_string() }));
    let r1 = node.run(msg("c1", "n1", unique_ids::Request::Generate { msg_id: 4 }));
    assert_eq!(init.body, unique_ids::Response::InitOk { msg_id: 3, in_reply_to: 3 });
    assert_eq!(r0.body, unique_ids::Response::GenerateOk { msg_id: 2, in_reply_to: 2, id: "n1-0".to_string() });
    assert_eq!(r1.body, unique_ids::Response::GenerateOk { msg_id: 4, in_reply_to: 4, id: "n1-1".to_string() });
}
