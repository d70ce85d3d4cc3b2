//! A linearizable key/value store replicated with Raft.
//!
//! The node decides; the program around it sends the messages and runs the timers. Each
//! handler takes one event (a message, or a timer that fired) and returns the actions to take,
//! in order.
use vstd::prelude::*;
use std::collections::HashMap;
use crate::message::{ErrorCode, Message};
use crate::raft_log::{Command, LogEntry, Log, entry_at, last_term_of, merged};
use crate::peers::{PeerIndex, has_key, lookup, table_of_keys, table_insert, table_decrement};
use crate::quorum::{quorum_value, quorum_of};
use crate::kv::{cas_result, lookup as kv_lookup, store, empty_store};

verus! {

broadcast use vstd::std_specs::hash::group_hash_axioms;

/// The messages of the Raft store: Maelstrom's, the lin-kv requests and replies, and Raft's RPCs.
#[derive(Clone, Debug, PartialEq)]
pub enum MessageBody {
    /// Initializes the node. Sent by the Maelstrom tester.
    Init { msg_id: u64, node_id: String, node_ids: Vec<String> },
    /// Reply to `Init`.
    InitOk { msg_id: u64, in_reply_to: u64 },
    /// Error reply to any request.
    Error { msg_id: u64, in_reply_to: u64, code: ErrorCode, text: String },
    /// Reads the value of a key.
    Read { msg_id: u64, key: u64 },
    /// Successful reply to `Read`.
    ReadOk { msg_id: u64, in_reply_to: u64, value: i64 },
    /// Writes the value of a key.
    Write { msg_id: u64, key: u64, value: i64 },
    /// Successful reply to `Write`.
    WriteOk { msg_id: u64, in_reply_to: u64 },
    /// Compares the value of a key and sets it.
    Cas { msg_id: u64, key: u64, from: i64, to: i64 },
    /// Successful reply to `Cas`.
    CasOk { msg_id: u64, in_reply_to: u64 },
    RequestVote { msg_id: u64, term: u64, last_log_index: u64, last_log_term: u64 },
    RequestVoteResponse { msg_id: u64, in_reply_to: u64, term: u64, vote_granted: bool },
    AppendEntries {
        msg_id: u64,
        term: u64,
        prev_log_index: u64,
        prev_log_term: u64,
        entries: Vec<LogEntry>,
        leader_commit: u64,
    },
    AppendEntriesResponse {
        msg_id: u64,
        in_reply_to: u64,
        term: u64,
        success: bool,
        match_index: u64,
    },
}

/// The `msg_id` of a message body.
pub open spec fn body_msg_id(b: MessageBody) -> u64 {
    match b {
        MessageBody::Init { msg_id, .. } => msg_id,
        MessageBody::InitOk { msg_id, .. } => msg_id,
        MessageBody::Error { msg_id, .. } => msg_id,
        MessageBody::Read { msg_id, .. } => msg_id,
        MessageBody::ReadOk { msg_id, .. } => msg_id,
        MessageBody::Write { msg_id, .. } => msg_id,
        MessageBody::WriteOk { msg_id, .. } => msg_id,
        MessageBody::Cas { msg_id, .. } => msg_id,
        MessageBody::CasOk { msg_id, .. } => msg_id,
        MessageBody::RequestVote { msg_id, .. } => msg_id,
        MessageBody::RequestVoteResponse { msg_id, .. } => msg_id,
        MessageBody::AppendEntries { msg_id, .. } => msg_id,
        MessageBody::AppendEntriesResponse { msg_id, .. } => msg_id,
    }
}

/// The client request that a body carries, for `Read`, `Write` and `Cas`.
pub open spec fn body_command(b: MessageBody) -> Option<Command> {
    match b {
        MessageBody::Read { msg_id, key } => Some(Command::Read { msg_id, key }),
        MessageBody::Write { msg_id, key, value } => Some(Command::Write { msg_id, key, value }),
        MessageBody::Cas { msg_id, key, from, to } => Some(Command::Cas { msg_id, key, from, to }),
        _ => None,
    }
}

/// The body that carries a client request.
pub open spec fn command_body(c: Command) -> MessageBody {
    match c {
        Command::Read { msg_id, key } => MessageBody::Read { msg_id, key },
        Command::Write { msg_id, key, value } => MessageBody::Write { msg_id, key, value },
        Command::Cas { msg_id, key, from, to } => MessageBody::Cas { msg_id, key, from, to },
    }
}

impl MessageBody {
    /// The id of the message.
    pub fn msg_id(&self) -> (id: u64)
        ensures
            id == body_msg_id(*self),
    {
        match self {
            MessageBody::Init { msg_id, .. } => *msg_id,
            MessageBody::InitOk { msg_id, .. } => *msg_id,
            MessageBody::Error { msg_id, .. } => *msg_id,
            MessageBody::Read { msg_id, .. } => *msg_id,
            MessageBody::ReadOk { msg_id, .. } => *msg_id,
            MessageBody::Write { msg_id, .. } => *msg_id,
            MessageBody::WriteOk { msg_id, .. } => *msg_id,
            MessageBody::Cas { msg_id, .. } => *msg_id,
            MessageBody::CasOk { msg_id, .. } => *msg_id,
            MessageBody::RequestVote { msg_id, .. } => *msg_id,
            MessageBody::RequestVoteResponse { msg_id, .. } => *msg_id,
            MessageBody::AppendEntries { msg_id, .. } => *msg_id,
            MessageBody::AppendEntriesResponse { msg_id, .. } => *msg_id,
        }
    }

    /// The client request this body carries, for `Read`, `Write` and `Cas`.
    pub fn command(&self) -> (c: Option<Command>)
        ensures
            c == body_command(*self),
    {
        match self {
            MessageBody::Read { msg_id, key } => Some(Command::Read { msg_id: *msg_id, key: *key }),
            MessageBody::Write { msg_id, key, value } => Some(
                Command::Write { msg_id: *msg_id, key: *key, value: *value },
            ),
            MessageBody::Cas { msg_id, key, from, to } => Some(
                Command::Cas { msg_id: *msg_id, key: *key, from: *from, to: *to },
            ),
            _ => None,
        }
    }
}

/// The body that carries a client request.
pub fn body_of_command(c: Command) -> (b: MessageBody)
    ensures
        b == command_body(c),
{
    match c {
        Command::Read { msg_id, key } => MessageBody::Read { msg_id, key },
        Command::Write { msg_id, key, value } => MessageBody::Write { msg_id, key, value },
        Command::Cas { msg_id, key, from, to } => MessageBody::Cas { msg_id, key, from, to },
    }
}

/// The role of a Raft server.
#[derive(Clone, Copy, Debug, PartialEq, Eq, Structural)]
pub enum Role {
    Follower,
    Candidate,
    Leader,
}

/// What the program around the node must do after a handler returns.
#[derive(Clone, Debug, PartialEq)]
pub enum Action {
    /// Send this message.
    Send(Message<MessageBody>),
    /// Start a new election timer, in place of the running one (if any).
    StartElectionTimer,
    /// Restart the countdown of the running election timer (if any).
    ResetElectionTimer,
    /// Stop the election timer.
    StopElectionTimer,
    /// Start sending `AppendEntries` to the followers periodically, as leader of this term.
    StartHeartbeat(u64),
    /// Wake the loop that applies committed entries.
    NotifyApply,
    /// Start the loop that applies committed entries.
    StartApplyLoop,
}

/// The state of a Raft server.
pub struct State {
    pub next_message_id: u64,
    pub leader: Option<String>,
    // Persistent state on all servers
    pub current_term: u64,
    pub voted_for: Option<String>,
    pub log: Log,
    // Volatile state on all servers
    pub role: Role,
    pub commit_index: u64,
    pub last_applied: u64,
    // Volatile state on candidates
    pub votes_granted: Vec<String>,
    // Volatile state on leaders
    pub next_index: PeerIndex,
    pub match_index: PeerIndex,
    // State machine
    pub map: HashMap<u64, i64>,
}

/// The state once a message of `term` has been seen: a newer term makes the server a
/// follower of that term that has voted for nobody and knows no leader.
pub open spec fn term_observed(s: State, term: u64) -> State {
    if term > s.current_term {
        State { current_term: term, role: Role::Follower, voted_for: None, leader: None, ..s }
    } else {
        s
    }
}

impl Default for State {
    /// The state of a server that has just started.
    fn default() -> (s: State)
        ensures
            s.next_message_id == 1,
            s.leader.is_none(),
            s.current_term == 0,
            s.voted_for.is_none(),
            s.log@ == Seq::<LogEntry>::empty(),
            s.role == Role::Follower,
            s.commit_index == 0,
            s.last_applied == 0,
            s.votes_granted@ == Seq::<String>::empty(),
            s.next_index@ == Seq::<(String, u64)>::empty(),
            s.match_index@ == Seq::<(String, u64)>::empty(),
            s.map@ == Map::<u64, i64>::empty(),
    {
        State {
            next_message_id: 1,
            leader: None,
            current_term: 0,
            voted_for: None,
            log: Log::new(),
            role: Role::Follower,
            commit_index: 0,
            last_applied: 0,
            votes_granted: Vec::new(),
            next_index: PeerIndex::new(),
            match_index: PeerIndex::new(),
            map: empty_store(),
        }
    }
}

impl State {
    /// Hands out the next message id.
    pub fn acquire_message_id(&mut self) -> (id: u64)
        requires
            old(self).next_message_id < u64::MAX,
        ensures
            id == old(self).next_message_id,
            *final(self) == (State { next_message_id: (id + 1) as u64, ..*old(self) }),
    {
        let msg_id = self.next_message_id;
        self.next_message_id = self.next_message_id + 1;
        msg_id
    }
}

/// A Raft server of the key/value store.
pub struct Node {
    pub id: String,
    pub member_ids: Vec<String>,
    pub state: State,
}

impl Node {
    /// A server that has not been initialized yet.
    pub fn new() -> (n: Node)
        ensures
            n.id@ == Seq::<char>::empty(),
            n.member_ids@ == Seq::<String>::empty(),
            n.state.next_message_id == 1,
            n.state.leader is None,
            n.state.current_term == 0,
            n.state.voted_for is None,
            n.state.log@ == Seq::<LogEntry>::empty(),
            n.state.role == Role::Follower,
            n.state.commit_index == 0,
            n.state.last_applied == 0,
            n.state.votes_granted@ == Seq::<String>::empty(),
            n.state.next_index@ == Seq::<(String, u64)>::empty(),
            n.state.match_index@ == Seq::<(String, u64)>::empty(),
            n.state.map@ == Map::<u64, i64>::empty(),
    {
        Node { id: String::new(), member_ids: Vec::new(), state: State::default() }
    }

    /// Takes in the term of a message: a newer term makes this server a follower of that term
    /// (with a new election timer).
    pub fn update_term(&mut self, term: u64, actions: &mut Vec<Action>)
        ensures
            final(self).state == term_observed(old(self).state, term),
            final(self).id == old(self).id,
            final(self).member_ids == old(self).member_ids,
            final(actions)@ == if term > old(self).state.current_term {
                old(actions)@.push(Action::StartElectionTimer)
            } else {
                old(actions)@
            },
    {
        if term > self.state.current_term {
            self.state.current_term = term;
            self.state.role = Role::Follower;
            self.state.voted_for = None;
            self.state.leader = None;
            actions.push(Action::StartElectionTimer);
        }
    }
}


/// `b` is an error reply with these fields and text.
pub open spec fn is_error_body(b: MessageBody, msg_id: u64, in_reply_to: u64, code: ErrorCode, text: Seq<char>) -> bool {
    match b {
        MessageBody::Error { msg_id: m, in_reply_to: r, code: c, text: t } => m == msg_id && r == in_reply_to && c == code && t@ == text,
        _ => false,
    }
}

/// A server in state `s` grants its vote to `candidate` for a `RequestVote` of `term` whose
/// log ends at `last_log_index` in `last_log_term`: the term is the server's, the server has
/// voted for nobody else in it, and the candidate's log is at least as up to date as its own.
pub open spec fn grants_vote(s: State, candidate: Seq<char>, term: u64, last_log_index: u64, last_log_term: u64) -> bool {
    let own_last_term = last_term_of(s.log@);
    let log_ok = last_log_term > own_last_term || (last_log_term == own_last_term && last_log_index >= s.log@.len());
    &&& term == s.current_term
    &&& (s.voted_for is None || s.voted_for->0@ == candidate)
    &&& log_ok
}

/// The election timer action that taking in `term` in state `s` calls for.
pub open spec fn term_actions(s: State, term: u64) -> Seq<Action> {
    if term > s.current_term {
        seq![Action::StartElectionTimer]
    } else {
        Seq::empty()
    }
}

/// The number of votes that wins an election among `n` servers.
pub open spec fn majority(n: nat) -> nat {
    n / 2 + 1
}

/// Some entry of `votes` is the id `id`.
pub open spec fn voted(votes: Seq<String>, id: Seq<char>) -> bool {
    exists|j: int| 0 <= j < votes.len() && votes[j]@ == id
}

/// Member `i` is the first occurrence of its id among `members`.
pub open spec fn first_occurrence(members: Seq<String>, i: int) -> bool {
    forall|j: int| 0 <= j < i ==> members[j]@ != members[i]@
}

/// How many distinct ids among the first `k` members have voted.
pub open spec fn member_votes_upto(members: Seq<String>, votes: Seq<String>, k: int) -> nat
    decreases k,
{
    if k <= 0 {
        0
    } else {
        member_votes_upto(members, votes, k - 1) + if first_occurrence(members, k - 1) && voted(
            votes,
            members[k - 1]@,
        ) {
            1nat
        } else {
            0nat
        }
    }
}

/// How many distinct member ids have voted.
pub open spec fn member_votes(members: Seq<String>, votes: Seq<String>) -> nat {
    member_votes_upto(members, votes, members.len() as int)
}

/// Whether `id` has voted.
pub fn has_voted(votes: &Vec<String>, id: &String) -> (r: bool)
    ensures
        r == voted(votes@, id@),
{
    let mut j: usize = 0;
    while j < votes.len()
        invariant
            j <= votes@.len(),
            forall|q: int| 0 <= q < j ==> votes@[q]@ != id@,
        decreases votes@.len() - j,
    {
        if votes[j] == *id {
            return true;
        }
        j += 1;
    }
    false
}

/// How many distinct member ids have voted.
pub fn count_member_votes(members: &Vec<String>, votes: &Vec<String>) -> (n: usize)
    ensures
        n == member_votes(members@, votes@),
{
    let mut n: usize = 0;
    let mut i: usize = 0;
    while i < members.len()
        invariant
            i <= members@.len(),
            n == member_votes_upto(members@, votes@, i as int),
            n <= i,
        decreases members@.len() - i,
    {
        let mut first = true;
        let mut j: usize = 0;
        while j < i
            invariant
                j <= i < members@.len(),
                first == forall|q: int| 0 <= q < j ==> members@[q]@ != members@[i as int]@,
            decreases i - j,
        {
            if members[j] == members[i] {
                first = false;
            }
            j += 1;
        }
        if first && has_voted(votes, &members[i]) {
            n += 1;
        }
        i += 1;
    }
    n
}

/// What handling `Init` does: the node takes its id and the members, replies `InitOk`, and
/// starts the election timer and the apply loop.
pub open spec fn init_post(pre: Node, post: Node, src: String, dest: String, msg_id: u64, node_id: String, node_ids: Vec<String>, actions: Seq<Action>) -> bool {
    &&& post.id == node_id
    &&& post.member_ids == node_ids
    &&& post.state == (State { next_message_id: (pre.state.next_message_id + 1) as u64, ..pre.state })
    &&& actions =~= seq![
        Action::Send(Message { src: dest, dest: src, body: MessageBody::InitOk { msg_id: pre.state.next_message_id, in_reply_to: msg_id } }),
        Action::StartElectionTimer,
        Action::StartApplyLoop,
    ]
}

/// What handling a client request does: a leader appends it to its log; another server
/// forwards it to the leader it knows, or replies that it is not the leader.
pub open spec fn command_post(pre: Node, post: Node, msg: Message<MessageBody>, actions: Seq<Action>) -> bool {
    &&& post.id == pre.id
    &&& post.member_ids == pre.member_ids
    &&& pre.state.role != Role::Leader && pre.state.leader is Some ==> {
        &&& post.state == pre.state
        &&& actions =~= seq![Action::Send(Message { src: msg.src, dest: pre.state.leader->0, body: msg.body })]
    }
    &&& pre.state.role != Role::Leader && pre.state.leader is None ==> {
        &&& post.state == (State { next_message_id: (pre.state.next_message_id + 1) as u64, ..pre.state })
        &&& actions.len() == 1
        &&& actions[0] matches Action::Send(m)
        &&& m.src == msg.dest
        &&& m.dest == msg.src
        &&& is_error_body(m.body, pre.state.next_message_id, body_msg_id(msg.body), ErrorCode::TemporarilyUnavailable, "not a leader"@)
    }
    &&& pre.state.role == Role::Leader ==> {
        &&& post.state == (State { log: post.state.log, ..pre.state })
        &&& post.state.log@ =~= pre.state.log@.push(LogEntry {
            term: pre.state.current_term,
            msg: Message { src: msg.src, dest: msg.dest, body: body_command(msg.body)->0 },
        })
        &&& actions =~= Seq::<Action>::empty()
    }
}

/// What handling `RequestVote` does: the server takes in the term, grants or refuses its vote,
/// records a granted vote, and replies.
pub open spec fn request_vote_post(pre: Node, post: Node, src: String, dest: String, msg_id: u64, term: u64, last_log_index: u64, last_log_term: u64, actions: Seq<Action>) -> bool {
    &&& post.id == pre.id
    &&& post.member_ids == pre.member_ids
    &&& ({
        let s1 = term_observed(pre.state, term);
        let granted = grants_vote(s1, src@, term, last_log_index, last_log_term);
        &&& post.state == (State {
            voted_for: if granted { Some(src) } else { s1.voted_for },
            next_message_id: (s1.next_message_id + 1) as u64,
            ..s1
        })
        &&& actions =~= term_actions(pre.state, term).push(Action::Send(Message {
            src: dest,
            dest: src,
            body: MessageBody::RequestVoteResponse {
                msg_id: s1.next_message_id,
                in_reply_to: msg_id,
                term: s1.current_term,
                vote_granted: granted,
            },
        }))
    })
}

/// What handling a reply to a vote request does: a candidate of that term records a granted
/// vote (once per voter), and once the distinct members that voted for it make a majority it
/// becomes leader with fresh next and match indices.
pub open spec fn request_vote_response_post(pre: Node, post: Node, src: String, dest: String, msg_id: u64, term: u64, vote_granted: bool, actions: Seq<Action>) -> bool {
    &&& post.id == pre.id
    &&& post.member_ids == pre.member_ids
    &&& ({
        let s1 = term_observed(pre.state, term);
        let counts = s1.role == Role::Candidate && term == s1.current_term && vote_granted;
        let votes = if voted(s1.votes_granted@, src@) {
            s1.votes_granted@
        } else {
            s1.votes_granted@.push(src)
        };
        let wins = counts && member_votes(pre.member_ids@, votes) >= majority(pre.member_ids@.len());
        &&& !counts ==> post.state == s1 && actions =~= term_actions(pre.state, term)
        &&& counts && !wins ==> {
            &&& post.state == (State { votes_granted: post.state.votes_granted, ..s1 })
            &&& post.state.votes_granted@ =~= votes
            &&& actions =~= term_actions(pre.state, term)
        }
        &&& wins ==> {
            &&& post.state == (State {
                role: Role::Leader,
                leader: Some(pre.id),
                votes_granted: post.state.votes_granted,
                next_index: post.state.next_index,
                match_index: post.state.match_index,
                ..s1
            })
            &&& post.state.votes_granted@ =~= votes
            &&& table_of_keys(post.state.next_index@, pre.member_ids@, (s1.log@.len() + 1) as u64)
            &&& table_of_keys(post.state.match_index@, pre.member_ids@, 0)
            &&& actions =~= term_actions(pre.state, term).push(Action::StopElectionTimer).push(
                Action::StartHeartbeat(s1.current_term),
            )
        }
    })
}

/// A follower's commit index after an accepted `AppendEntries` whose last new entry is at
/// `last_new`: the leader's commit index as far as that entry, and never lower than before.
pub open spec fn follower_commit(commit_index: u64, leader_commit: u64, last_new: int) -> u64 {
    let target = if leader_commit <= last_new {
        leader_commit
    } else {
        last_new as u64
    };
    if target > commit_index {
        target
    } else {
        commit_index
    }
}

/// What handling `AppendEntries` does: in its own term the server follows the sender, merges
/// the entries when its log holds the one they follow, takes the leader's commit index as far
/// as the last new entry (never going back), and replies with the outcome.
pub open spec fn append_entries_post(pre: Node, post: Node, src: String, dest: String, msg_id: u64, term: u64, prev_log_index: u64, prev_log_term: u64, entries: Vec<LogEntry>, leader_commit: u64, actions: Seq<Action>) -> bool {
    &&& post.id == pre.id
    &&& post.member_ids == pre.member_ids
    &&& ({
        let s1 = term_observed(pre.state, term);
        let current = term == s1.current_term;
        let ok = accepts_entries(s1, term, prev_log_index, prev_log_term);
        let new_log = if ok {
            merged(s1.log@, prev_log_index as int, entries@)
        } else {
            s1.log@
        };
        let advance = ok && leader_commit > s1.commit_index;
        &&& post.state == (State {
            log: post.state.log,
            leader: if current && s1.leader is None { Some(src) } else { s1.leader },
            role: if current { Role::Follower } else { s1.role },
            commit_index: if advance {
                follower_commit(s1.commit_index, leader_commit, prev_log_index + entries@.len())
            } else {
                s1.commit_index
            },
            next_message_id: (s1.next_message_id + 1) as u64,
            ..s1
        })
        &&& post.state.log@ =~= new_log
        &&& actions =~= term_actions(pre.state, term) + (if current {
            seq![
                if s1.role == Role::Follower {
                    Action::ResetElectionTimer
                } else {
                    Action::StartElectionTimer
                },
            ]
        } else {
            Seq::empty()
        }) + (if advance {
            seq![Action::NotifyApply]
        } else {
            Seq::empty()
        }) + seq![
            Action::Send(Message {
                src: dest,
                dest: src,
                body: MessageBody::AppendEntriesResponse {
                    msg_id: s1.next_message_id,
                    in_reply_to: msg_id,
                    term: s1.current_term,
                    success: ok,
                    match_index: if ok { (prev_log_index + entries@.len()) as u64 } else { 0 },
                },
            }),
        ]
    })
}

/// Server state `s` is the leader of `term`: a reply to an `AppendEntries` of that term is
/// one that it acts on.
pub open spec fn leads_in_term(s: State, term: u64) -> bool {
    s.role == Role::Leader && term == s.current_term
}

/// What handling a reply to `AppendEntries` does: a leader acts only on replies of its own
/// term, where success records how far the follower's log matches and may advance the commit
/// index, and failure steps the follower's next index back; any other reply changes nothing
/// but the term.
pub open spec fn append_entries_response_post(pre: Node, post: Node, src: String, dest: String, msg_id: u64, term: u64, success: bool, match_index: u64, actions: Seq<Action>) -> bool {
    &&& post.id == pre.id
    &&& post.member_ids == pre.member_ids
    &&& ({
        let s1 = term_observed(pre.state, term);
        let acts = leads_in_term(s1, term);
        &&& !acts ==> post.state == s1 && actions =~= term_actions(pre.state, term)
        &&& acts && success ==> {
            let s2 = State {
                match_index: post.state.match_index,
                next_index: post.state.next_index,
                ..s1
            };
            let c = advanced_commit(s2, pre.id@, pre.member_ids@.len());
            &&& post.state.match_index@ =~= table_insert(s1.match_index@, src, match_index)
            &&& post.state.next_index@ =~= table_insert(s1.next_index@, src, (match_index + 1) as u64)
            &&& post.state == (State { commit_index: c, ..s2 })
            &&& actions =~= term_actions(pre.state, term) + if c != s1.commit_index {
                seq![Action::NotifyApply]
            } else {
                Seq::empty()
            }
        }
        &&& acts && !success ==> {
            &&& post.state.next_index@ =~= table_decrement(s1.next_index@, src@)
            &&& post.state == (State { next_index: post.state.next_index, ..s1 })
            &&& actions =~= term_actions(pre.state, term)
        }
    })
}

impl Node {
    /// Handles `Init`: takes the node's id and the cluster's members, replies `InitOk`, and
    /// starts the election timer and the loop that applies committed entries.
    pub fn handle_init(&mut self, src: String, dest: String, msg_id: u64, node_id: String, node_ids: Vec<String>) -> (actions: Vec<Action>)
        requires
            old(self).state.next_message_id < u64::MAX,
        ensures
            init_post(*old(self), *final(self), src, dest, msg_id, node_id, node_ids, actions@),
    {
        self.id = node_id;
        self.member_ids = node_ids;
        let msg_response_id = self.state.acquire_message_id();
        let mut actions: Vec<Action> = Vec::new();
        actions.push(Action::Send(Message { src: dest, dest: src, body: MessageBody::InitOk { msg_id: msg_response_id, in_reply_to: msg_id } }));
        actions.push(Action::StartElectionTimer);
        actions.push(Action::StartApplyLoop);
        actions
    }

    /// Handles a client request (`Read`, `Write` or `Cas`). A leader appends it to its log; another
    /// server forwards it to the leader it knows, or replies that it is not the leader.
    pub fn handle_command(&mut self, msg: Message<MessageBody>) -> (actions: Vec<Action>)
        requires
            body_command(msg.body) is Some,
            old(self).state.role != Role::Leader && old(self).state.leader is None ==> old(self).state.next_message_id < u64::MAX,
        ensures
            command_post(*old(self), *final(self), msg, actions@),
    {
        let mut actions: Vec<Action> = Vec::new();
        if self.state.role != Role::Leader {
            match &self.state.leader {
                Some(leader) => {
                    let leader = leader.clone();
                    actions.push(Action::Send(Message { src: msg.src, dest: leader, body: msg.body }));
                },
                None => {
                    let msg_response_id = self.state.acquire_message_id();
                    let in_reply_to = msg.body.msg_id();
                    proof { reveal_strlit("not a leader"); }
                    let text = String::from_str("not a leader");
                    let body = MessageBody::Error {
                        msg_id: msg_response_id,
                        in_reply_to,
                        code: ErrorCode::TemporarilyUnavailable,
                        text,
                    };
                    actions.push(Action::Send(Message { src: msg.dest, dest: msg.src, body }));
                },
            }
            return actions;
        }
        let command = msg.body.command().unwrap();
        let entry = LogEntry { term: self.state.current_term, msg: Message { src: msg.src, dest: msg.dest, body: command } };
        self.state.log.append(entry);
        actions
    }

    /// Handles `RequestVote` from candidate `src`: takes in its term, decides whether to grant
    /// the vote (and records it), and replies.
    pub fn handle_request_vote(
        &mut self,
        src: String,
        dest: String,
        msg_id: u64,
        term: u64,
        last_log_index: u64,
        last_log_term: u64,
    ) -> (actions: Vec<Action>)
        requires
            old(self).state.next_message_id < u64::MAX,
        ensures
            request_vote_post(*old(self), *final(self), src, dest, msg_id, term, last_log_index, last_log_term, actions@),
    {
        let mut actions: Vec<Action> = Vec::new();
        self.update_term(term, &mut actions);

        let last_log_index_self = self.state.log.last_index();
        let last_log_term_self = self.state.log.last_term();
        let log_ok = (last_log_term > last_log_term_self)
            || (last_log_term == last_log_term_self && last_log_index >= last_log_index_self);
        let not_voted_elsewhere = match &self.state.voted_for {
            None => true,
            Some(v) => *v == src,
        };
        let grant = term == self.state.current_term && not_voted_elsewhere && log_ok;

        if grant {
            self.state.voted_for = Some(src.clone());
        }

        let response_id = self.state.acquire_message_id();
        let current_term = self.state.current_term;
        actions.push(Action::Send(Message {
            src: dest,
            dest: src,
            body: MessageBody::RequestVoteResponse {
                msg_id: response_id,
                in_reply_to: msg_id,
                term: current_term,
                vote_granted: grant,
            },
        }));
        actions
    }
}


impl Node {
    /// Handles a reply to this server's `RequestVote`: takes in its term and, while still a
    /// candidate of that term, records a granted vote unless that member already voted. Once
    /// the distinct members that voted make a majority, the server becomes leader: it stops its
    /// election timer and starts sending `AppendEntries`.
    pub fn handle_request_vote_response(
        &mut self,
        src: String,
        dest: String,
        msg_id: u64,
        term: u64,
        vote_granted: bool,
    ) -> (actions: Vec<Action>)
        requires
            old(self).state.log@.len() < u64::MAX,
        ensures
            request_vote_response_post(*old(self), *final(self), src, dest, msg_id, term, vote_granted, actions@),
    {
        let mut actions: Vec<Action> = Vec::new();
        self.update_term(term, &mut actions);

        if self.state.role != Role::Candidate || term != self.state.current_term {
            return actions;
        }

        if vote_granted {
            if !has_voted(&self.state.votes_granted, &src) {
                self.state.votes_granted.push(src);
            }
            let majority = (self.member_ids.len() / 2) + 1;
            if count_member_votes(&self.member_ids, &self.state.votes_granted) >= majority {
                self.state.role = Role::Leader;
                self.state.leader = Some(self.id.clone());
                let next = self.state.log.last_index() + 1;
                self.state.next_index = PeerIndex::from_keys(&self.member_ids, next);
                self.state.match_index = PeerIndex::from_keys(&self.member_ids, 0);
                actions.push(Action::StopElectionTimer);
                actions.push(Action::StartHeartbeat(self.state.current_term));
            }
        }
        actions
    }
}


/// A server in state `s` accepts an `AppendEntries` of `term` whose entries follow index
/// `prev_log_index` of term `prev_log_term`: the term is the server's and its log holds an
/// entry of that term at that index (or the index is 0).
pub open spec fn accepts_entries(s: State, term: u64, prev_log_index: u64, prev_log_term: u64) -> bool {
    &&& term == s.current_term
    &&& (prev_log_index == 0 || (entry_at(s.log@, prev_log_index as int) is Some && entry_at(
        s.log@,
        prev_log_index as int,
    )->0.term == prev_log_term))
}

impl Node {
    /// Handles `AppendEntries` from leader `src`: takes in its term; in the server's own term,
    /// records the leader, stays (or becomes) a follower, and, when its log holds the entry
    /// that the new ones follow, merges the new entries into its log and takes the leader's
    /// commit index as far as the last new entry, never lowering its own. Replies with the
    /// outcome.
    pub fn handle_append_entries(
        &mut self,
        src: String,
        dest: String,
        msg_id: u64,
        term: u64,
        prev_log_index: u64,
        prev_log_term: u64,
        entries: Vec<LogEntry>,
        leader_commit: u64,
    ) -> (actions: Vec<Action>)
        requires
            old(self).state.next_message_id < u64::MAX,
            old(self).state.log@.len() + entries@.len() < u64::MAX,
        ensures
            append_entries_post(*old(self), *final(self), src, dest, msg_id, term, prev_log_index, prev_log_term, entries, leader_commit, actions@),
    {
        let mut actions: Vec<Action> = Vec::new();
        self.update_term(term, &mut actions);
        let ghost s1 = self.state;

        let mut success = false;
        let mut match_index: u64 = 0;

        if term == self.state.current_term {
            if self.state.leader.is_none() {
                self.state.leader = Some(src.clone());
            }
            if self.state.role == Role::Follower {
                actions.push(Action::ResetElectionTimer);
            } else {
                self.state.role = Role::Follower;
                actions.push(Action::StartElectionTimer);
            }

            success = if prev_log_index == 0 {
                true
            } else {
                match self.state.log.get(prev_log_index) {
                    Some(entry) => entry.term == prev_log_term,
                    None => false,
                }
            };

            if success {
                let entries_len = entries.len() as u64;
                self.state.log.merge_entries(prev_log_index, &entries);
                if leader_commit > self.state.commit_index {
                    let last_new = prev_log_index + entries_len;
                    let target = if leader_commit <= last_new {
                        leader_commit
                    } else {
                        last_new
                    };
                    if target > self.state.commit_index {
                        self.state.commit_index = target;
                    }
                    actions.push(Action::NotifyApply);
                }
                match_index = prev_log_index + entries_len;
            }
            proof {
                assert(success == accepts_entries(s1, term, prev_log_index, prev_log_term));
            }
        }

        let response_id = self.state.acquire_message_id();
        let current_term = self.state.current_term;
        actions.push(Action::Send(Message {
            src: dest,
            dest: src,
            body: MessageBody::AppendEntriesResponse {
                msg_id: response_id,
                in_reply_to: msg_id,
                term: current_term,
                success,
                match_index,
            },
        }));
        proof {
            let current = term == s1.current_term;
            let ok = accepts_entries(s1, term, prev_log_index, prev_log_term);
            let advance = ok && leader_commit > s1.commit_index;
            assert(actions@ =~= term_actions(old(self).state, term) + (if current {
                seq![
                    if s1.role == Role::Follower {
                        Action::ResetElectionTimer
                    } else {
                        Action::StartElectionTimer
                    },
                ]
            } else {
                Seq::empty()
            }) + (if advance {
                seq![Action::NotifyApply]
            } else {
                Seq::empty()
            }) + seq![
                Action::Send(Message {
                    src: dest,
                    dest: src,
                    body: MessageBody::AppendEntriesResponse {
                        msg_id: s1.next_message_id,
                        in_reply_to: msg_id,
                        term: s1.current_term,
                        success: ok,
                        match_index: if ok { (prev_log_index + entries@.len()) as u64 } else { 0 },
                    },
                }),
            ]);
        }
        actions
    }
}


/// The log index that each entry of the leader's `match_index` stands for, the leader's own
/// entry counting as its whole log.
pub open spec fn replicated_indices(s: State, id: Seq<char>) -> Seq<u64> {
    s.match_index@.map_values(|p: (String, u64)| if p.0@ == id { s.log@.len() as u64 } else { p.1 })
}

/// The commit index after the leader looks for a newer one: the largest index that a majority
/// of the `n` members has replicated, if it is beyond the commit index and its entry is of the
/// current term.
pub open spec fn advanced_commit(s: State, id: Seq<char>, n: nat) -> u64 {
    let r = quorum_of(replicated_indices(s, id), majority(n));
    if r > s.commit_index && entry_at(s.log@, r as int) is Some && entry_at(s.log@, r as int)->0.term
        == s.current_term {
        r
    } else {
        s.commit_index
    }
}

impl Node {
    /// Moves the commit index to the largest index that a majority has replicated, when that
    /// is beyond it and its entry is of the current term, and then wakes the loop that applies
    /// committed entries.
    pub fn advance_commit_index(&mut self, actions: &mut Vec<Action>)
        requires
            old(self).state.match_index@.len() > old(self).member_ids@.len() / 2,
            old(self).state.log@.len() < u64::MAX,
        ensures
            final(self).id == old(self).id,
            final(self).member_ids == old(self).member_ids,
            ({
                let c = advanced_commit(old(self).state, old(self).id@, old(self).member_ids@.len());
                &&& final(self).state == (State { commit_index: c, ..old(self).state })
                &&& final(actions)@ == if c != old(self).state.commit_index {
                    old(actions)@.push(Action::NotifyApply)
                } else {
                    old(actions)@
                }
            }),
    {
        let ghost target = replicated_indices(self.state, self.id@);
        let mut indices: Vec<u64> = Vec::new();
        let mut i: usize = 0;
        while i < self.state.match_index.len()
            invariant
                i <= self.state.match_index@.len(),
                target == replicated_indices(self.state, self.id@),
                indices@ == target.take(i as int),
            decreases self.state.match_index@.len() - i,
        {
            let (key, value) = self.state.match_index.entry(i);
            let v = if *key == self.id {
                self.state.log.last_index()
            } else {
                value
            };
            indices.push(v);
            proof {
                assert(indices@ =~= target.take(i + 1));
            }
            i += 1;
        }
        proof {
            assert(indices@ =~= target);
        }
        let majority_index = quorum_value(&indices, self.member_ids.len() / 2 + 1);

        if majority_index > self.state.commit_index {
            let advance = match self.state.log.get(majority_index) {
                Some(entry) => entry.term == self.state.current_term,
                None => false,
            };
            if advance {
                self.state.commit_index = majority_index;
                actions.push(Action::NotifyApply);
            }
        }
    }

    /// Handles a reply to this leader's `AppendEntries`: takes in its term, and ignores the
    /// reply unless the server leads in that very term. Then, on success, records how far the
    /// follower's log matches and looks for a newer commit index; on failure steps the
    /// follower's next index back by one (not below 1).
    pub fn handle_append_entries_response(
        &mut self,
        src: String,
        dest: String,
        msg_id: u64,
        term: u64,
        success: bool,
        match_index: u64,
    ) -> (actions: Vec<Action>)
        requires
            old(self).state.log@.len() < u64::MAX,
            leads_in_term(old(self).state, term) && success ==> match_index < u64::MAX,
            leads_in_term(old(self).state, term) && success ==> old(self).state.match_index@.len() + (if has_key(
                old(self).state.match_index@,
                src@,
            ) {
                0int
            } else {
                1int
            }) > old(self).member_ids@.len() / 2,
            leads_in_term(old(self).state, term) && !success ==> has_key(old(self).state.next_index@, src@),
        ensures
            append_entries_response_post(*old(self), *final(self), src, dest, msg_id, term, success, match_index, actions@),
    {
        let mut actions: Vec<Action> = Vec::new();
        self.update_term(term, &mut actions);

        if self.state.role != Role::Leader || term != self.state.current_term {
            return actions;
        }
        if success {
            self.state.match_index.insert(src.clone(), match_index);
            self.state.next_index.insert(src, match_index + 1);
            let ghost a1 = actions@;
            self.advance_commit_index(&mut actions);
            proof {
                assert(actions@ =~= a1 + if self.state.commit_index != term_observed(old(self).state, term).commit_index {
                    seq![Action::NotifyApply]
                } else {
                    Seq::<Action>::empty()
                });
            }
        } else {
            self.state.next_index.decrement_above_one(&src);
        }
        actions
    }
}


/// The members other than `id`, in order.
pub open spec fn peers_of(members: Seq<String>, id: Seq<char>) -> Seq<String> {
    members.filter(|m: String| m@ != id)
}

/// Each peer of a server is a member other than the server.
pub proof fn lemma_peer_is_member(members: Seq<String>, id: Seq<char>, j: int)
    requires
        0 <= j < peers_of(members, id).len(),
    ensures
        exists|i: int| 0 <= i < members.len() && #[trigger] members[i] == peers_of(members, id)[j],
        peers_of(members, id)[j]@ != id,
    decreases members.len(),
{
    reveal(Seq::filter);
    let sub = members.drop_last();
    if j < peers_of(sub, id).len() {
        lemma_peer_is_member(sub, id, j);
        let i = choose|i: int| 0 <= i < sub.len() && #[trigger] sub[i] == peers_of(sub, id)[j];
        assert(members[i] == sub[i]);
    } else {
        assert(members[members.len() - 1] == peers_of(members, id)[j]);
    }
}

/// One `RequestVote` to each peer, with consecutive message ids from `first_id`.
pub open spec fn vote_requests(
    members: Seq<String>,
    id: String,
    first_id: u64,
    term: u64,
    last_log_index: u64,
    last_log_term: u64,
) -> Seq<Action> {
    let peers = peers_of(members, id@);
    Seq::new(
        peers.len(),
        |i: int|
            Action::Send(
                Message {
                    src: id,
                    dest: peers[i],
                    body: MessageBody::RequestVote {
                        msg_id: (first_id + i) as u64,
                        term,
                        last_log_index,
                        last_log_term,
                    },
                },
            ),
    )
}

proof fn lemma_peers_step(members: Seq<String>, id: Seq<char>, i: int)
    requires
        0 <= i < members.len(),
    ensures
        peers_of(members.take(i + 1), id) == if members[i]@ != id {
            peers_of(members.take(i), id).push(members[i])
        } else {
            peers_of(members.take(i), id)
        },
{
    reveal(Seq::filter);
    assert(members.take(i + 1).drop_last() =~= members.take(i));
}

/// What the election timer firing does: a follower or candidate starts an election in the
/// next term and votes for itself (winning at once when its vote is a majority); a leader does
/// nothing.
pub open spec fn election_timeout_post(pre: Node, post: Node, actions: Seq<Action>) -> bool {
    &&& post.id == pre.id
    &&& post.member_ids == pre.member_ids
    &&& pre.state.role == Role::Leader ==> post.state == pre.state && actions =~= Seq::<Action>::empty()
    &&& pre.state.role != Role::Leader ==> {
        let peers = peers_of(pre.member_ids@, pre.id@);
        let term = (pre.state.current_term + 1) as u64;
        let requests = vote_requests(
            pre.member_ids@,
            pre.id,
            pre.state.next_message_id,
            term,
            pre.state.log@.len() as u64,
            last_term_of(pre.state.log@),
        );
        let wins = member_votes(pre.member_ids@, seq![pre.id]) >= majority(pre.member_ids@.len());
        &&& post.state.votes_granted@ =~= seq![pre.id]
        &&& !wins ==> {
            &&& post.state == (State {
                current_term: term,
                role: Role::Candidate,
                voted_for: Some(pre.id),
                leader: None,
                votes_granted: post.state.votes_granted,
                next_message_id: (pre.state.next_message_id + peers.len()) as u64,
                ..pre.state
            })
            &&& actions =~= requests
        }
        &&& wins ==> {
            &&& post.state == (State {
                current_term: term,
                role: Role::Leader,
                voted_for: Some(pre.id),
                leader: Some(pre.id),
                votes_granted: post.state.votes_granted,
                next_index: post.state.next_index,
                match_index: post.state.match_index,
                next_message_id: (pre.state.next_message_id + peers.len()) as u64,
                ..pre.state
            })
            &&& table_of_keys(post.state.next_index@, pre.member_ids@, (pre.state.log@.len() + 1) as u64)
            &&& table_of_keys(post.state.match_index@, pre.member_ids@, 0)
            &&& actions =~= requests.push(Action::StopElectionTimer).push(Action::StartHeartbeat(term))
        }
    }
}

impl Node {
    /// A follower or candidate can start an election without running out of terms, message
    /// ids or log indices.
    pub open spec fn can_start_election(&self) -> bool {
        &&& self.state.current_term < u64::MAX
        &&& self.state.next_message_id + self.member_ids@.len() <= u64::MAX
        &&& self.state.log@.len() < u64::MAX
    }

    /// The election timer fired: a follower or candidate starts an election in the next term,
    /// votes for itself and asks every other member for its vote. When its own vote is already
    /// a majority (a cluster of one), it becomes leader at once. A leader does nothing.
    pub fn handle_election_timeout(&mut self) -> (actions: Vec<Action>)
        requires
            old(self).state.role != Role::Leader ==> old(self).can_start_election(),
        ensures
            election_timeout_post(*old(self), *final(self), actions@),
    {
        let mut actions: Vec<Action> = Vec::new();
        if self.state.role == Role::Follower || self.state.role == Role::Candidate {
            self.state.current_term = self.state.current_term + 1;
            self.state.role = Role::Candidate;
            self.state.voted_for = Some(self.id.clone());
            self.state.leader = None;
            let mut votes: Vec<String> = Vec::new();
            votes.push(self.id.clone());
            self.state.votes_granted = votes;

            let ghost first_id = old(self).state.next_message_id;
            let term = self.state.current_term;
            let last_log_index = self.state.log.last_index();
            let last_log_term = self.state.log.last_term();
            let mut i: usize = 0;
            while i < self.member_ids.len()
                invariant
                    i <= self.member_ids@.len(),
                    self.id == old(self).id,
                    self.member_ids == old(self).member_ids,
                    term == old(self).state.current_term + 1,
                    last_log_index == old(self).state.log@.len(),
                    last_log_term == last_term_of(old(self).state.log@),
                    first_id + self.member_ids@.len() <= u64::MAX,
                    self.state == (State {
                        current_term: term,
                        role: Role::Candidate,
                        voted_for: Some(old(self).id),
                        leader: None,
                        votes_granted: self.state.votes_granted,
                        next_message_id: self.state.next_message_id,
                        ..old(self).state
                    }),
                    self.state.votes_granted@ == seq![old(self).id],
                    self.state.next_message_id == first_id + peers_of(self.member_ids@.take(i as int), self.id@).len(),
                    actions@ == vote_requests(self.member_ids@.take(i as int), self.id, first_id, term, last_log_index, last_log_term),
                decreases self.member_ids@.len() - i,
            {
                proof {
                    lemma_peers_step(self.member_ids@, self.id@, i as int);
                    self.member_ids@.take(i + 1).filter(|m: String| m@ != self.id@).lemma_filter_len(|m: String| m@ != self.id@);
                }
                if self.member_ids[i] == self.id {
                    proof {
                        assert(vote_requests(self.member_ids@.take(i + 1), self.id, first_id, term, last_log_index, last_log_term)
                            =~= vote_requests(self.member_ids@.take(i as int), self.id, first_id, term, last_log_index, last_log_term));
                    }
                } else {
                    let msg_id = self.state.acquire_message_id();
                    actions.push(Action::Send(Message {
                        src: self.id.clone(),
                        dest: self.member_ids[i].clone(),
                        body: MessageBody::RequestVote { msg_id, term, last_log_index, last_log_term },
                    }));
                    proof {
                        assert(actions@ =~= vote_requests(self.member_ids@.take(i + 1), self.id, first_id, term, last_log_index, last_log_term));
                    }
                }
                i += 1;
            }
            proof {
                assert(self.member_ids@.take(self.member_ids@.len() as int) =~= self.member_ids@);
            }
            let majority = (self.member_ids.len() / 2) + 1;
            if count_member_votes(&self.member_ids, &self.state.votes_granted) >= majority {
                self.state.role = Role::Leader;
                self.state.leader = Some(self.id.clone());
                let next = self.state.log.last_index() + 1;
                self.state.next_index = PeerIndex::from_keys(&self.member_ids, next);
                self.state.match_index = PeerIndex::from_keys(&self.member_ids, 0);
                actions.push(Action::StopElectionTimer);
                actions.push(Action::StartHeartbeat(term));
            }
        }
        actions
    }
}


/// `a` sends leader `s`'s `AppendEntries` to `peer` with message id `msg_id`: the entries from
/// the peer's next index on, after the entry just before that index.
pub open spec fn is_append_entries_to(a: Action, s: State, id: String, peer: String, msg_id: u64) -> bool {
    let next = lookup(s.next_index@, peer@)->0;
    let prev = (next - 1) as u64;
    &&& a matches Action::Send(m)
    &&& m.src == id
    &&& m.dest == peer
    &&& m.body matches MessageBody::AppendEntries { msg_id: mid, term, prev_log_index, prev_log_term, entries, leader_commit }
    &&& mid == msg_id
    &&& term == s.current_term
    &&& prev_log_index == prev
    &&& prev_log_term == (match entry_at(s.log@, prev as int) {
        Some(e) => e.term,
        None => 0,
    })
    &&& entries@ == s.log@.skip(prev as int)
    &&& leader_commit == s.commit_index
}

/// What one beat of the leader of `term` does: while it still leads in that term, one
/// `AppendEntries` to each other member, each with a fresh message id; otherwise nothing, and
/// the beats stop.
pub open spec fn heartbeat_post(pre: Node, post: Node, term: u64, r: Option<Vec<Action>>) -> bool {
    &&& post.id == pre.id
    &&& post.member_ids == pre.member_ids
    &&& !(term == pre.state.current_term && pre.state.role == Role::Leader) ==> {
        &&& post.state == pre.state
        &&& r is None
    }
    &&& term == pre.state.current_term && pre.state.role == Role::Leader ==> {
        let peers = peers_of(pre.member_ids@, pre.id@);
        &&& post.state == (State { next_message_id: (pre.state.next_message_id + peers.len()) as u64, ..pre.state })
        &&& r matches Some(actions)
        &&& actions@.len() == peers.len()
        &&& forall|j: int|
            0 <= j < peers.len() ==> is_append_entries_to(
                #[trigger] actions@[j],
                pre.state,
                pre.id,
                peers[j],
                (pre.state.next_message_id + j) as u64,
            )
    }
}

impl Node {
    /// The leader knows, for every other member, a next index between 1 and one past its
    /// last entry.
    pub open spec fn next_indices_in_range(&self) -> bool {
        forall|i: int|
            0 <= i < self.member_ids@.len() && #[trigger] self.member_ids@[i]@ != self.id@ ==> {
                &&& has_key(self.state.next_index@, self.member_ids@[i]@)
                &&& 1 <= lookup(self.state.next_index@, self.member_ids@[i]@)->0 <= self.state.log@.len() + 1
            }
    }

    /// A beat of the leader of `term` finds every follower's next index in range and does
    /// not run out of message ids.
    pub open spec fn can_beat(&self, term: u64) -> bool {
        term == self.state.current_term && self.state.role == Role::Leader ==> {
            &&& self.next_indices_in_range()
            &&& self.state.next_message_id + self.member_ids@.len() <= u64::MAX
        }
    }

    /// One beat of the leader of `term`: while it still leads in that term, it sends each other
    /// member the entries from that member's next index on; otherwise it returns `None`, and the
    /// beats stop.
    pub fn handle_heartbeat(&mut self, term: u64) -> (r: Option<Vec<Action>>)
        requires
            old(self).can_beat(term),
        ensures
            heartbeat_post(*old(self), *final(self), term, r),
    {
        if term != self.state.current_term || self.state.role != Role::Leader {
            return None;
        }
        let ghost s0 = self.state;
        let ghost first_id = self.state.next_message_id;
        let mut actions: Vec<Action> = Vec::new();
        let mut i: usize = 0;
        while i < self.member_ids.len()
            invariant
                i <= self.member_ids@.len(),
                self.id == old(self).id,
                self.member_ids == old(self).member_ids,
                s0 == old(self).state,
                old(self).next_indices_in_range(),
                first_id == s0.next_message_id,
                first_id + self.member_ids@.len() <= u64::MAX,
                self.state == (State { next_message_id: self.state.next_message_id, ..s0 }),
                self.state.next_message_id == first_id + peers_of(self.member_ids@.take(i as int), self.id@).len(),
                actions@.len() == peers_of(self.member_ids@.take(i as int), self.id@).len(),
                forall|j: int|
                    0 <= j < actions@.len() ==> is_append_entries_to(
                        #[trigger] actions@[j],
                        s0,
                        self.id,
                        peers_of(self.member_ids@.take(i as int), self.id@)[j],
                        (first_id + j) as u64,
                    ),
            decreases self.member_ids@.len() - i,
        {
            proof {
                lemma_peers_step(self.member_ids@, self.id@, i as int);
                self.member_ids@.take(i + 1).filter(|m: String| m@ != self.id@).lemma_filter_len(|m: String| m@ != self.id@);
            }
            if self.member_ids[i] == self.id {
            } else {
                let member_id = &self.member_ids[i];
                let next = self.state.next_index.get(member_id).unwrap();
                let prev_log_index = next - 1;
                let prev_log_term = match self.state.log.get(prev_log_index) {
                    Some(e) => e.term,
                    None => 0,
                };
                let entries = self.state.log.get_since(next);
                let dest = member_id.clone();
                let msg_id = self.state.acquire_message_id();
                let leader_commit = self.state.commit_index;
                let current_term = self.state.current_term;
                let ghost before = actions@;
                actions.push(Action::Send(Message {
                    src: self.id.clone(),
                    dest,
                    body: MessageBody::AppendEntries {
                        msg_id,
                        term: current_term,
                        prev_log_index,
                        prev_log_term,
                        entries,
                        leader_commit,
                    },
                }));
                proof {
                    let peers = peers_of(self.member_ids@.take(i + 1), self.id@);
                    assert forall|j: int| 0 <= j < actions@.len() implies is_append_entries_to(
                        #[trigger] actions@[j], s0, self.id, peers[j], (first_id + j) as u64) by {
                        if j < before.len() {
                            assert(actions@[j] == before[j]);
                        }
                    }
                }
            }
            i += 1;
        }
        proof {
            assert(self.member_ids@.take(self.member_ids@.len() as int) =~= self.member_ids@);
        }
        Some(actions)
    }
}


/// The store's answer to a client request, before the reply gets a message id of its own.
#[derive(Clone, Copy, Debug, PartialEq, Eq, Structural)]
pub enum Reply {
    ReadOk { in_reply_to: u64, value: i64 },
    WriteOk { in_reply_to: u64 },
    CasOk { in_reply_to: u64 },
    KeyMissing { in_reply_to: u64 },
    PreconditionFailed { in_reply_to: u64 },
}

/// The answer of a store holding `m` to request `c`.
pub open spec fn command_reply(m: Map<u64, i64>, c: Command) -> Reply {
    match c {
        Command::Read { msg_id, key } => if m.contains_key(key) {
            Reply::ReadOk { in_reply_to: msg_id, value: m[key] }
        } else {
            Reply::KeyMissing { in_reply_to: msg_id }
        },
        Command::Write { msg_id, .. } => Reply::WriteOk { in_reply_to: msg_id },
        Command::Cas { msg_id, key, from, .. } => if !m.contains_key(key) {
            Reply::KeyMissing { in_reply_to: msg_id }
        } else if m[key] == from {
            Reply::CasOk { in_reply_to: msg_id }
        } else {
            Reply::PreconditionFailed { in_reply_to: msg_id }
        },
    }
}

/// The store after it carries out request `c`.
pub open spec fn command_effect(m: Map<u64, i64>, c: Command) -> Map<u64, i64> {
    match c {
        Command::Read { .. } => m,
        Command::Write { key, value, .. } => m.insert(key, value),
        Command::Cas { key, from, to, .. } => cas_result(m, key, from, to),
    }
}

/// The store after it carries out the requests of `entries`, in order.
pub open spec fn apply_entries(m: Map<u64, i64>, entries: Seq<LogEntry>) -> Map<u64, i64>
    decreases entries.len(),
{
    if entries.len() == 0 {
        m
    } else {
        command_effect(apply_entries(m, entries.drop_last()), entries.last().msg.body)
    }
}

/// `b` is the message body of reply `r` with message id `msg_id`.
pub open spec fn reply_body_is(b: MessageBody, r: Reply, msg_id: u64) -> bool {
    match r {
        Reply::ReadOk { in_reply_to, value } => b == MessageBody::ReadOk { msg_id, in_reply_to, value },
        Reply::WriteOk { in_reply_to } => b == MessageBody::WriteOk { msg_id, in_reply_to },
        Reply::CasOk { in_reply_to } => b == MessageBody::CasOk { msg_id, in_reply_to },
        Reply::KeyMissing { in_reply_to } => is_error_body(b, msg_id, in_reply_to, ErrorCode::KeyDoesNotExist, "key does not exist"@),
        Reply::PreconditionFailed { in_reply_to } => is_error_body(b, msg_id, in_reply_to, ErrorCode::PreconditionFailed, "precondition failed"@),
    }
}

impl Reply {
    /// The message body of this reply, with message id `msg_id`.
    pub fn into_body(self, msg_id: u64) -> (b: MessageBody)
        ensures
            reply_body_is(b, self, msg_id),
    {
        match self {
            Reply::ReadOk { in_reply_to, value } => MessageBody::ReadOk { msg_id, in_reply_to, value },
            Reply::WriteOk { in_reply_to } => MessageBody::WriteOk { msg_id, in_reply_to },
            Reply::CasOk { in_reply_to } => MessageBody::CasOk { msg_id, in_reply_to },
            Reply::KeyMissing { in_reply_to } => {
                proof { reveal_strlit("key does not exist"); }
                MessageBody::Error {
                    msg_id,
                    in_reply_to,
                    code: ErrorCode::KeyDoesNotExist,
                    text: String::from_str("key does not exist"),
                }
            },
            Reply::PreconditionFailed { in_reply_to } => {
                proof { reveal_strlit("precondition failed"); }
                MessageBody::Error {
                    msg_id,
                    in_reply_to,
                    code: ErrorCode::PreconditionFailed,
                    text: String::from_str("precondition failed"),
                }
            },
        }
    }
}

/// What applying the committed entries does: the store takes each entry from the last applied
/// one up to the commit index, in order, and a leader replies to each request's client with the
/// answer of the store as it stood just before that request.
pub open spec fn apply_post(pre: Node, post: Node, actions: Seq<Action>) -> bool {
    &&& post.id == pre.id
    &&& post.member_ids == pre.member_ids
    &&& ({
        let es = pre.entries_to_apply();
        let leader = pre.state.role == Role::Leader;
        &&& post.state == (State {
            map: post.state.map,
            last_applied: if pre.state.last_applied < pre.state.commit_index {
                pre.state.commit_index
            } else {
                pre.state.last_applied
            },
            next_message_id: (pre.state.next_message_id + if leader { es.len() } else { 0 }) as u64,
            ..pre.state
        })
        &&& post.state.map@ =~= apply_entries(pre.state.map@, es)
        &&& leader ==> {
            &&& actions.len() == es.len()
            &&& forall|j: int|
                0 <= j < es.len() ==> {
                    &&& #[trigger] actions[j] matches Action::Send(m)
                    &&& m.src == es[j].msg.dest
                    &&& m.dest == es[j].msg.src
                    &&& reply_body_is(
                        m.body,
                        command_reply(apply_entries(pre.state.map@, es.take(j)), es[j].msg.body),
                        (pre.state.next_message_id + j) as u64,
                    )
                }
        }
        &&& !leader ==> actions =~= Seq::<Action>::empty()
    })
}

impl Node {
    /// Carries out a committed `Read`: the store is unchanged.
    pub fn apply_read(map: &mut HashMap<u64, i64>, msg_id: u64, key: u64) -> (r: Reply)
        ensures
            final(map)@ == old(map)@,
            r == command_reply(old(map)@, Command::Read { msg_id, key }),
    {
        match kv_lookup(map, key) {
            Some(value) => Reply::ReadOk { in_reply_to: msg_id, value },
            None => Reply::KeyMissing { in_reply_to: msg_id },
        }
    }

    /// Carries out a committed `Write`.
    pub fn apply_write(map: &mut HashMap<u64, i64>, msg_id: u64, key: u64, value: i64) -> (r: Reply)
        ensures
            final(map)@ == old(map)@.insert(key, value),
            r == command_reply(old(map)@, Command::Write { msg_id, key, value }),
    {
        store(map, key, value);
        Reply::WriteOk { in_reply_to: msg_id }
    }

    /// Carries out a committed `Cas`: the key is set to `to` only if it holds `from`.
    pub fn apply_cas(map: &mut HashMap<u64, i64>, msg_id: u64, key: u64, from: i64, to: i64) -> (r: Reply)
        ensures
            final(map)@ == cas_result(old(map)@, key, from, to),
            r == command_reply(old(map)@, Command::Cas { msg_id, key, from, to }),
    {
        match kv_lookup(map, key) {
            Some(v) => {
                if v == from {
                    store(map, key, to);
                    Reply::CasOk { in_reply_to: msg_id }
                } else {
                    Reply::PreconditionFailed { in_reply_to: msg_id }
                }
            },
            None => Reply::KeyMissing { in_reply_to: msg_id },
        }
    }

    /// The entries from `last_applied` (exclusive) to `commit_index` (inclusive).
    pub open spec fn entries_to_apply(&self) -> Seq<LogEntry> {
        if self.state.last_applied < self.state.commit_index {
            self.state.log@.subrange(self.state.last_applied as int, self.state.commit_index as int)
        } else {
            Seq::empty()
        }
    }

    /// The log holds every committed entry, and a leader does not run out of message ids
    /// replying to the entries to apply.
    pub open spec fn can_apply(&self) -> bool {
        &&& self.state.commit_index <= self.state.log@.len()
        &&& self.state.role == Role::Leader ==> self.state.next_message_id + self.entries_to_apply().len() <= u64::MAX
    }

    /// Applies the committed entries not yet applied to the store, in order. A leader also
    /// replies to each request's client.
    pub fn apply_committed_entries(&mut self) -> (actions: Vec<Action>)
        requires
            old(self).can_apply(),
        ensures
            apply_post(*old(self), *final(self), actions@),
    {
        let ghost s0 = self.state;
        let ghost es = old(self).entries_to_apply();
        let ghost start = old(self).state.last_applied as int;
        let ghost leader = old(self).state.role == Role::Leader;
        let mut actions: Vec<Action> = Vec::new();
        while self.state.last_applied < self.state.commit_index
            invariant
                self.id == old(self).id,
                self.member_ids == old(self).member_ids,
                s0 == old(self).state,
                es == old(self).entries_to_apply(),
                start == s0.last_applied,
                leader == (s0.role == Role::Leader),
                s0.commit_index <= s0.log@.len(),
                leader ==> s0.next_message_id + es.len() <= u64::MAX,
                s0.last_applied < s0.commit_index ==> start <= self.state.last_applied <= s0.commit_index,
                !(s0.last_applied < s0.commit_index) ==> self.state.last_applied == s0.last_applied,
                self.state == (State {
                    map: self.state.map,
                    last_applied: self.state.last_applied,
                    next_message_id: self.state.next_message_id,
                    ..s0
                }),
                ({
                    let done = if s0.last_applied < s0.commit_index { self.state.last_applied - start } else { 0 };
                    &&& self.state.map@ == apply_entries(s0.map@, es.take(done))
                    &&& self.state.next_message_id == s0.next_message_id + if leader { done } else { 0 }
                    &&& leader ==> actions@.len() == done
                    &&& !leader ==> actions@.len() == 0
                    &&& forall|j: int|
                        0 <= j < actions@.len() ==> {
                            &&& #[trigger] actions@[j] matches Action::Send(m)
                            &&& m.src == es[j].msg.dest
                            &&& m.dest == es[j].msg.src
                            &&& reply_body_is(
                                m.body,
                                command_reply(apply_entries(s0.map@, es.take(j)), es[j].msg.body),
                                (s0.next_message_id + j) as u64,
                            )
                        }
                }),
            decreases self.state.commit_index - self.state.last_applied,
        {
            let ghost done = self.state.last_applied - start;
            self.state.last_applied = self.state.last_applied + 1;
            let entry = self.state.log.get(self.state.last_applied).unwrap().duplicate();
            proof {
                assert(entry == es[done]);
                assert(es.take(done + 1).drop_last() =~= es.take(done));
            }
            let reply = match entry.msg.body {
                Command::Read { msg_id, key } => Node::apply_read(&mut self.state.map, msg_id, key),
                Command::Write { msg_id, key, value } => Node::apply_write(&mut self.state.map, msg_id, key, value),
                Command::Cas { msg_id, key, from, to } => Node::apply_cas(&mut self.state.map, msg_id, key, from, to),
            };
            if self.state.role == Role::Leader {
                let new_msg_id = self.state.acquire_message_id();
                let ghost before = actions@;
                actions.push(Action::Send(Message {
                    src: entry.msg.dest,
                    dest: entry.msg.src,
                    body: reply.into_body(new_msg_id),
                }));
                proof {
                    assert forall|j: int| 0 <= j < actions@.len() implies {
                        &&& #[trigger] actions@[j] matches Action::Send(m)
                        &&& m.src == es[j].msg.dest
                        &&& m.dest == es[j].msg.src
                        &&& reply_body_is(
                            m.body,
                            command_reply(apply_entries(s0.map@, es.take(j)), es[j].msg.body),
                            (s0.next_message_id + j) as u64,
                        )
                    } by {
                        if j < before.len() {
                            assert(actions@[j] == before[j]);
                        }
                    }
                }
            }
        }
        proof {
            if s0.last_applied < s0.commit_index {
                assert(es.take(es.len() as int) =~= es);
            }
        }
        actions
    }
}


/// What handling `msg` does: what the handler for its kind does.
pub open spec fn run_post(pre: Node, post: Node, msg: Message<MessageBody>, actions: Seq<Action>) -> bool {
    match msg.body {
        MessageBody::Init { msg_id, node_id, node_ids } => init_post(
            pre,
            post,
            msg.src,
            msg.dest,
            msg_id,
            node_id,
            node_ids,
            actions,
        ),
        MessageBody::Read { .. } => command_post(pre, post, msg, actions),
        MessageBody::Write { .. } => command_post(pre, post, msg, actions),
        MessageBody::Cas { .. } => command_post(pre, post, msg, actions),
        MessageBody::RequestVote { msg_id, term, last_log_index, last_log_term } => request_vote_post(
            pre,
            post,
            msg.src,
            msg.dest,
            msg_id,
            term,
            last_log_index,
            last_log_term,
            actions,
        ),
        MessageBody::RequestVoteResponse { msg_id, term, vote_granted, .. } => request_vote_response_post(
            pre,
            post,
            msg.src,
            msg.dest,
            msg_id,
            term,
            vote_granted,
            actions,
        ),
        MessageBody::AppendEntries {
            msg_id,
            term,
            prev_log_index,
            prev_log_term,
            entries,
            leader_commit,
        } => append_entries_post(
            pre,
            post,
            msg.src,
            msg.dest,
            msg_id,
            term,
            prev_log_index,
            prev_log_term,
            entries,
            leader_commit,
            actions,
        ),
        MessageBody::AppendEntriesResponse { msg_id, term, success, match_index, .. } => append_entries_response_post(
            pre,
            post,
            msg.src,
            msg.dest,
            msg_id,
            term,
            success,
            match_index,
            actions,
        ),
        _ => false,
    }
}

impl Node {
    /// The node can handle `msg` without failing: it is a request or RPC that the node serves,
    /// and handling it does not run out of message ids, overflow a log index, or find a peer
    /// missing from the leader's tables.
    pub open spec fn can_handle(&self, msg: Message<MessageBody>) -> bool {
        let next_id_ok = self.state.next_message_id < u64::MAX;
        match msg.body {
            MessageBody::Init { .. } => next_id_ok,
            MessageBody::Read { .. } => self.state.role != Role::Leader && self.state.leader is None ==> next_id_ok,
            MessageBody::Write { .. } => self.state.role != Role::Leader && self.state.leader is None ==> next_id_ok,
            MessageBody::Cas { .. } => self.state.role != Role::Leader && self.state.leader is None ==> next_id_ok,
            MessageBody::RequestVote { .. } => next_id_ok,
            MessageBody::RequestVoteResponse { .. } => self.state.log@.len() < u64::MAX,
            MessageBody::AppendEntries { entries, .. } => next_id_ok && self.state.log@.len() + entries@.len() < u64::MAX,
            MessageBody::AppendEntriesResponse { term, success, match_index, .. } => {
                &&& self.state.log@.len() < u64::MAX
                &&& leads_in_term(self.state, term) && success ==> match_index < u64::MAX
                &&& leads_in_term(self.state, term) && success ==> self.state.match_index@.len() + (if has_key(
                    self.state.match_index@,
                    msg.src@,
                ) {
                    0int
                } else {
                    1int
                }) > self.member_ids@.len() / 2
                &&& leads_in_term(self.state, term) && !success ==> has_key(self.state.next_index@, msg.src@)
            },
            _ => false,
        }
    }

    /// Whether the node can handle `msg` without failing.
    pub fn accepts(&self, msg: &Message<MessageBody>) -> (r: bool)
        ensures
            r == self.can_handle(*msg),
    {
        let next_id_ok = self.state.next_message_id < u64::MAX;
        match &msg.body {
            MessageBody::Init { .. } => next_id_ok,
            MessageBody::Read { .. } | MessageBody::Write { .. } | MessageBody::Cas { .. } => {
                !(self.state.role != Role::Leader && self.state.leader.is_none()) || next_id_ok
            },
            MessageBody::RequestVote { .. } => next_id_ok,
            MessageBody::RequestVoteResponse { .. } => self.state.log.last_index() < u64::MAX,
            MessageBody::AppendEntries { entries, .. } => {
                let log_len = self.state.log.last_index();
                next_id_ok && log_len < u64::MAX && (entries.len() as u64) < u64::MAX - log_len
            },
            MessageBody::AppendEntriesResponse { term, success, match_index, .. } => {
                if self.state.log.last_index() == u64::MAX {
                    false
                } else if self.state.role != Role::Leader || *term != self.state.current_term {
                    true
                } else if *success {
                    let half = self.member_ids.len() / 2;
                    let room = if self.state.match_index.find(&msg.src).is_some() {
                        self.state.match_index.len() > half
                    } else {
                        self.state.match_index.len() >= half
                    };
                    *match_index < u64::MAX && room
                } else {
                    self.state.next_index.find(&msg.src).is_some()
                }
            },
            _ => false,
        }
    }

    /// Handles one incoming message, by the handler for its kind.
    pub fn run(&mut self, msg: Message<MessageBody>) -> (actions: Vec<Action>)
        requires
            old(self).can_handle(msg),
        ensures
            run_post(*old(self), *final(self), msg, actions@),
    {
        if msg.body.command().is_some() {
            return self.handle_command(msg);
        }
        let Message { src, dest, body } = msg;
        match body {
            MessageBody::Init { msg_id, node_id, node_ids } => self.handle_init(src, dest, msg_id, node_id, node_ids),
            MessageBody::RequestVote { msg_id, term, last_log_index, last_log_term } => self.handle_request_vote(
                src,
                dest,
                msg_id,
                term,
                last_log_index,
                last_log_term,
            ),
            MessageBody::RequestVoteResponse { msg_id, in_reply_to: _, term, vote_granted } => self.handle_request_vote_response(
                src,
                dest,
                msg_id,
                term,
                vote_granted,
            ),
            MessageBody::AppendEntries { msg_id, term, prev_log_index, prev_log_term, entries, leader_commit } => self.handle_append_entries(
                src,
                dest,
                msg_id,
                term,
                prev_log_index,
                prev_log_term,
                entries,
                leader_commit,
            ),
            MessageBody::AppendEntriesResponse { msg_id, in_reply_to: _, term, success, match_index } => self.handle_append_entries_response(
                src,
                dest,
                msg_id,
                term,
                success,
                match_index,
            ),
            _ => {
                proof {
                    assert(false);
                }
                Vec::new()
            },
        }
    }
}


impl Node {
    /// Whether a follower or candidate can start an election without failing.
    pub fn ready_for_election(&self) -> (r: bool)
        ensures
            r == self.can_start_election(),
    {
        self.state.current_term < u64::MAX && (self.member_ids.len() as u64) <= u64::MAX - self.state.next_message_id
            && self.state.log.last_index() < u64::MAX
    }

    /// Whether a beat of the leader of `term` can go without failing.
    pub fn ready_for_heartbeat(&self, term: u64) -> (r: bool)
        ensures
            r == self.can_beat(term),
    {
        if term != self.state.current_term || self.state.role != Role::Leader {
            return true;
        }
        if (self.member_ids.len() as u64) > u64::MAX - self.state.next_message_id {
            return false;
        }
        let last = self.state.log.last_index();
        let mut i: usize = 0;
        while i < self.member_ids.len()
            invariant
                i <= self.member_ids@.len(),
                last == self.state.log@.len(),
                term == self.state.current_term,
                self.state.role == Role::Leader,
                self.state.next_message_id + self.member_ids@.len() <= u64::MAX,
                forall|j: int|
                    0 <= j < i && #[trigger] self.member_ids@[j]@ != self.id@ ==> {
                        &&& has_key(self.state.next_index@, self.member_ids@[j]@)
                        &&& 1 <= lookup(self.state.next_index@, self.member_ids@[j]@)->0 <= self.state.log@.len() + 1
                    },
            decreases self.member_ids@.len() - i,
        {
            if self.member_ids[i] != self.id {
                match self.state.next_index.get(&self.member_ids[i]) {
                    Some(next) => {
                        if next < 1 || next - 1 > last {
                            proof {
                                assert(self.member_ids@[i as int]@ != self.id@);
                            }
                            return false;
                        }
                    },
                    None => {
                        proof {
                            assert(self.member_ids@[i as int]@ != self.id@);
                        }
                        return false;
                    },
                }
            }
            i += 1;
        }
        true
    }

    /// Whether applying the committed entries can go without failing.
    pub fn ready_to_apply(&self) -> (r: bool)
        ensures
            r == self.can_apply(),
    {
        if self.state.commit_index > self.state.log.last_index() {
            return false;
        }
        if self.state.role != Role::Leader || self.state.last_applied >= self.state.commit_index {
            return true;
        }
        self.state.commit_index - self.state.last_applied <= u64::MAX - self.state.next_message_id
    }
}


/// The shortest election timeout, in milliseconds.
pub const ELECTION_TIMEOUT_MIN_MS: u64 = 150;

/// The election timeout stays below this many milliseconds.
pub const ELECTION_TIMEOUT_LIMIT_MS: u64 = 300;

/// How often a leader sends `AppendEntries`, in milliseconds.
pub const HEARTBEAT_INTERVAL_MS: u64 = 50;

/// How long the apply loop waits for a wake-up before it looks at the log anyway, in milliseconds.
pub const APPLY_WAIT_MS: u64 = 3000;

/// The random generator of the calling thread.
#[verifier::external_type_specification]
#[verifier::external_body]
pub struct ExThreadRng(rand::rngs::ThreadRng);

/// The calling thread's random generator, from `rand::rng()`. Nothing is claimed of it. The
/// crate seeds it from the operating system the first time a thread asks, and panics if that
/// source fails; that is not stated here.
#[verifier::external_body]
fn thread_rng() -> (rng: rand::rngs::ThreadRng) {
    rand::rng()
}

/// A number drawn from `low..high` by `rand::Rng::random_range`. The contract claims only the
/// range, which the crate guarantees for a non-empty range (it panics on an empty one, which
/// `requires` leaves out); which number comes out is left open.
#[verifier::external_body]
fn random_range(rng: &mut rand::rngs::ThreadRng, low: u64, high: u64) -> (r: u64)
    requires
        low < high,
    ensures
        low <= r < high,
{
    rand::Rng::random_range(rng, low..high)
}

/// A fresh random election timeout, in milliseconds: at least `ELECTION_TIMEOUT_MIN_MS` and
/// below `ELECTION_TIMEOUT_LIMIT_MS`.
pub fn election_timeout_ms() -> (ms: u64)
    ensures
        ELECTION_TIMEOUT_MIN_MS <= ms < ELECTION_TIMEOUT_LIMIT_MS,
{
    let mut rng = thread_rng();
    random_range(&mut rng, ELECTION_TIMEOUT_MIN_MS, ELECTION_TIMEOUT_LIMIT_MS)
}

} // verus!
