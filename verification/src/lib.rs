//! Node logic for the Maelstrom distributed-systems workloads: echo, unique ids,
//! and linearizable key/value stores (single node, chain replication, Raft).
//!
//! Each node is a state machine: a handler takes the node's state and one incoming
//! message and returns the messages to send (and, for Raft, the timer actions to take).
//! The program around the library reads and writes the messages.

pub mod message;
pub mod text;
pub mod echo;
pub mod unique_ids;
pub mod kv_single;
pub mod chain;
pub mod raft_log;
pub mod quorum;
pub mod peers;
pub mod kv;
pub mod raft;
pub mod raft_laws;
pub mod raft_cluster;
pub mod raft_log_matching;
