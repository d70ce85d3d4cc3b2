# maelstrom_rust

Nodes for the [Maelstrom](https://github.com/jepsen-io/maelstrom) workloads `echo`,
`unique-ids` and `lin-kv`, with the decisions of every node proved correct.

- `src/` is the verified library. Each node is a state machine: a handler takes one
  incoming message (or, for Raft, a timer that fired) and returns what to send, and, for
  Raft, which timers to start, reset or stop.
  - `message`: Maelstrom's error codes and the message envelope.
  - `text`: decimal rendering of integers, and the error texts built from it.
  - `echo`, `unique_ids`: the two simple workloads.
  - `kv`: the key/value store's semantics (read, write, compare-and-set).
  - `kv_single`: lin-kv on one node.
  - `chain`: lin-kv with chain replication.
  - `raft_log`, `peers`, `quorum`, `raft`, `raft_laws`: lin-kv replicated with Raft — the log
    and how `AppendEntries` merges into it, the leader's per-peer tables, the majority index,
    the server's handlers, and what every step keeps (terms, votes, leadership, commits).
  - `raft_cluster`: a model of a whole cluster built from the nodes' own steps (deliver a
    message, fire an election timer or a heartbeat, apply committed entries), with the
    invariant that gives at most one leader per term in every run.
  - `raft_log_matching`: over the same runs, two logs that hold an entry of the same term at
    the same index are the same up to and including it.
- `app/` is the program: `maelstrom_rust <workload>` reads JSON messages from standard input,
  hands them to the library, writes the replies to standard output, and runs Raft's timer
  threads.
- `tests/` runs the library on concrete scenarios.

Four points where the server keeps to Raft's rules:

- a follower's commit index becomes `min(leader_commit, index of the last new entry)` and is
  never lowered;
- a cluster whose only member is the node itself elects it at its first election timeout;
- `AppendEntries` replies from an older term, or received when no longer leader, are ignored;
- each voter is counted once, and only members of the cluster count towards a majority.
