//! The replicated log of the Raft key/value store.
use vstd::prelude::*;
use crate::message::Message;

verus! {

/// A client request that the Raft store replicates in its log.
#[derive(Clone, Copy, Debug, PartialEq, Eq, Structural)]
pub enum Command {
    Read { msg_id: u64, key: u64 },
    Write { msg_id: u64, key: u64, value: i64 },
    Cas { msg_id: u64, key: u64, from: i64, to: i64 },
}

impl Command {
    /// The id of the client's request.
    pub fn msg_id(&self) -> (id: u64)
        ensures
            id == self.spec_msg_id(),
    {
        match self {
            Command::Read { msg_id, .. } => *msg_id,
            Command::Write { msg_id, .. } => *msg_id,
            Command::Cas { msg_id, .. } => *msg_id,
        }
    }

    pub open spec fn spec_msg_id(&self) -> u64 {
        match self {
            Command::Read { msg_id, .. } => *msg_id,
            Command::Write { msg_id, .. } => *msg_id,
            Command::Cas { msg_id, .. } => *msg_id,
        }
    }
}

/// One entry of the log: the term in which a leader received the request, and the request.
#[derive(Clone, Debug, PartialEq)]
pub struct LogEntry {
    pub term: u64,
    pub msg: Message<Command>,
}

impl LogEntry {
    /// A copy of this entry.
    pub fn duplicate(&self) -> (r: LogEntry)
        ensures
            r == *self,
    {
        LogEntry {
            term: self.term,
            msg: Message { src: self.msg.src.clone(), dest: self.msg.dest.clone(), body: self.msg.body },
        }
    }
}

/// The log. Its entries are numbered from 1; index 0 stands for "before the first entry".
pub struct Log {
    pub entries: Vec<LogEntry>,
}

/// The entry at 1-based `index` of `log`, if there is one.
pub open spec fn entry_at(log: Seq<LogEntry>, index: int) -> Option<LogEntry> {
    if 1 <= index <= log.len() {
        Some(log[index - 1])
    } else {
        None
    }
}

/// The term of the last entry of `log`, or 0 for an empty log.
pub open spec fn last_term_of(log: Seq<LogEntry>) -> u64 {
    if log.len() == 0 {
        0
    } else {
        log.last().term
    }
}

impl View for Log {
    type V = Seq<LogEntry>;

    open spec fn view(&self) -> Seq<LogEntry> {
        self.entries@
    }
}

impl Log {
    /// An empty log.
    pub fn new() -> (log: Log)
        ensures
            log@ == Seq::<LogEntry>::empty(),
    {
        Log { entries: Vec::new() }
    }

    /// Appends an entry at the end.
    pub fn append(&mut self, entry: LogEntry)
        ensures
            final(self)@ == old(self)@.push(entry),
    {
        self.entries.push(entry);
    }

    /// The entry at 1-based `index`, if the log has one there.
    pub fn get(&self, index: u64) -> (r: Option<&LogEntry>)
        ensures
            match r {
                Some(e) => entry_at(self@, index as int) == Some(*e),
                None => entry_at(self@, index as int).is_none(),
            },
    {
        if index == 0 {
            return None;
        }
        if index - 1 < self.entries.len() as u64 {
            Some(&self.entries[(index - 1) as usize])
        } else {
            None
        }
    }

    /// The entries from 1-based index `start` on (from the first entry when `start` is 0).
    pub fn get_since(&self, start: u64) -> (r: Vec<LogEntry>)
        requires
            start == 0 || start - 1 <= self@.len(),
        ensures
            r@ == self@.skip(if start == 0 { 0 } else { start - 1 }),
    {
        let start_idx: usize = if start == 0 {
            0
        } else {
            (start - 1) as usize
        };
        let mut r: Vec<LogEntry> = Vec::new();
        let mut i = start_idx;
        while i < self.entries.len()
            invariant
                start_idx <= i <= self.entries.len(),
                start_idx == (if start == 0 { 0 } else { start - 1 }),
                r@ == self@.subrange(start_idx as int, i as int),
            decreases self.entries.len() - i,
        {
            r.push(self.entries[i].duplicate());
            i += 1;
        }
        r
    }

    /// Drops the entry at 1-based `index` and every entry after it.
    pub fn truncate(&mut self, index: u64)
        requires
            index >= 1,
        ensures
            index - 1 <= old(self)@.len() ==> final(self)@ == old(self)@.take(index - 1),
            index - 1 > old(self)@.len() ==> final(self)@ == old(self)@,
    {
        let keep = index - 1;
        if keep < self.entries.len() as u64 {
            self.entries.truncate(keep as usize);
        }
    }

    /// The index of the last entry (0 for an empty log).
    pub fn last_index(&self) -> (n: u64)
        ensures
            n == self@.len(),
    {
        self.entries.len() as u64
    }

    /// The term of the last entry (0 for an empty log).
    pub fn last_term(&self) -> (t: u64)
        ensures
            t == last_term_of(self@),
    {
        if self.entries.len() == 0 {
            0
        } else {
            self.entries[self.entries.len() - 1].term
        }
    }
}


/// The log already holds new entry `i` of an `AppendEntries` that follows index `prev`: the log
/// has an entry at index `prev + 1 + i`, of the same term.
pub open spec fn holds_entry(log: Seq<LogEntry>, prev: int, entries: Seq<LogEntry>, i: int) -> bool {
    prev + i < log.len() && log[prev + i].term == entries[i].term
}

/// `j` is the first new entry that the log does not already hold.
pub open spec fn is_first_new(log: Seq<LogEntry>, prev: int, entries: Seq<LogEntry>, j: int) -> bool {
    &&& 0 <= j < entries.len()
    &&& !holds_entry(log, prev, entries, j)
    &&& forall|i: int| 0 <= i < j ==> #[trigger] holds_entry(log, prev, entries, i)
}

/// The log after `AppendEntries` brings `entries` after index `prev`: where an existing entry
/// conflicts with a new one (or is missing), it and all that follow are dropped and the new
/// entries from there on are appended; a log that holds all the new entries stays as it is.
pub open spec fn merged(log: Seq<LogEntry>, prev: int, entries: Seq<LogEntry>) -> Seq<LogEntry> {
    if exists|j: int| is_first_new(log, prev, entries, j) {
        let j = choose|j: int| is_first_new(log, prev, entries, j);
        log.take(prev + j) + entries.skip(j)
    } else {
        log
    }
}

/// There is at most one first new entry.
pub proof fn lemma_first_new_unique(log: Seq<LogEntry>, prev: int, entries: Seq<LogEntry>, j: int, k: int)
    requires
        is_first_new(log, prev, entries, j),
        is_first_new(log, prev, entries, k),
    ensures
        j == k,
{
    if j < k {
        assert(holds_entry(log, prev, entries, j));
    } else if k < j {
        assert(holds_entry(log, prev, entries, k));
    }
}

/// After `AppendEntries`, the log keeps its first `prev` entries and agrees with every new
/// entry's term at that entry's index.
pub proof fn lemma_merged_holds_entries(log: Seq<LogEntry>, prev: int, entries: Seq<LogEntry>)
    requires
        0 <= prev <= log.len(),
    ensures
        merged(log, prev, entries).len() >= prev + entries.len(),
        merged(log, prev, entries).take(prev) == log.take(prev),
        forall|i: int| 0 <= i < entries.len() ==> #[trigger] merged(log, prev, entries)[prev + i].term == entries[i].term,
{
    let m = merged(log, prev, entries);
    if exists|j: int| is_first_new(log, prev, entries, j) {
        let j = choose|j: int| is_first_new(log, prev, entries, j);
        if j > 0 {
            assert(holds_entry(log, prev, entries, j - 1));
        }
        assert(prev + j <= log.len());
        assert(m.take(prev) =~= log.take(prev));
        assert forall|i: int| 0 <= i < entries.len() implies #[trigger] m[prev + i].term == entries[i].term by {
            if i < j {
                assert(holds_entry(log, prev, entries, i));
                assert(m[prev + i] == log[prev + i]);
            } else {
                assert(m[prev + i] == entries.skip(j)[i - j]);
            }
        }
    } else {
        assert forall|i: int| 0 <= i < entries.len() implies #[trigger] m[prev + i].term == entries[i].term by {
            if !holds_entry(log, prev, entries, i) {
                lemma_least_not_held(log, prev, entries, i);
            }
        }
        if entries.len() > 0 {
            let last = entries.len() - 1;
            if !holds_entry(log, prev, entries, last) {
                lemma_least_not_held(log, prev, entries, last);
            }
        }
    }
}

/// Some new entry that the log does not hold implies a first one.
proof fn lemma_least_not_held(log: Seq<LogEntry>, prev: int, entries: Seq<LogEntry>, i: int)
    requires
        0 <= i < entries.len(),
        !holds_entry(log, prev, entries, i),
    ensures
        exists|j: int| is_first_new(log, prev, entries, j),
    decreases i,
{
    if forall|k: int| 0 <= k < i ==> #[trigger] holds_entry(log, prev, entries, k) {
        assert(is_first_new(log, prev, entries, i));
    } else {
        let k = choose|k: int| 0 <= k < i && !holds_entry(log, prev, entries, k);
        lemma_least_not_held(log, prev, entries, k);
    }
}

impl Log {
    /// Brings in the `entries` of an `AppendEntries` that follow index `prev_log_index`: each
    /// entry the log lacks is appended, and an entry whose term conflicts with the one the log
    /// holds at its index replaces that entry and drops all that follow it.
    pub fn merge_entries(&mut self, prev_log_index: u64, entries: &Vec<LogEntry>)
        requires
            prev_log_index <= old(self)@.len(),
            prev_log_index + entries@.len() < u64::MAX,
        ensures
            final(self)@ == merged(old(self)@, prev_log_index as int, entries@),
    {
        let ghost old_log = self@;
        let ghost prev = prev_log_index as int;
        let ghost mut first: Option<int> = None;
        let mut i: usize = 0;
        while i < entries.len()
            invariant
                i <= entries.len(),
                prev == prev_log_index as int,
                prev_log_index <= old_log.len(),
                prev_log_index + entries@.len() < u64::MAX,
                first is None ==> {
                    &&& self@ == old_log
                    &&& forall|k: int| 0 <= k < i ==> #[trigger] holds_entry(old_log, prev, entries@, k)
                },
                first is Some ==> {
                    &&& is_first_new(old_log, prev, entries@, first->0)
                    &&& first->0 < i
                    &&& self@ == old_log.take(prev + first->0) + entries@.subrange(first->0, i as int)
                    &&& prev + first->0 <= old_log.len()
                },
            decreases entries.len() - i,
        {
            let index = prev_log_index + 1 + i as u64;
            let entry = entries[i].duplicate();
            let existing: Option<u64> = match self.get(index) {
                Some(e) => Some(e.term),
                None => None,
            };
            proof {
                if first is Some {
                    assert(self@.len() == prev + i);
                }
            }
            match existing {
                Some(t) => {
                    if t != entry.term {
                        proof {
                            assert(first is None);
                            assert(!holds_entry(old_log, prev, entries@, i as int));
                            first = Some(i as int);
                        }
                        self.truncate(index);
                        self.append(entry);
                        proof {
                            assert(self@ =~= old_log.take(prev + i) + entries@.subrange(i as int, i + 1));
                        }
                    } else {
                        proof {
                            assert(first is None);
                            assert(holds_entry(old_log, prev, entries@, i as int));
                        }
                    }
                },
                None => {
                    proof {
                        if first is None {
                            if i > 0 {
                                assert(holds_entry(old_log, prev, entries@, i - 1));
                            }
                            assert(prev + i == old_log.len());
                            assert(!holds_entry(old_log, prev, entries@, i as int));
                            assert(old_log.take(prev + i) =~= old_log);
                            first = Some(i as int);
                        }
                    }
                    self.append(entry);
                    proof {
                        let j = first->0;
                        assert(self@ =~= old_log.take(prev + j) + entries@.subrange(j, i + 1));
                    }
                },
            }
            i += 1;
        }
        proof {
            match first {
                Some(j) => {
                    assert(exists|j2: int| is_first_new(old_log, prev, entries@, j2));
                    let c = choose|j2: int| is_first_new(old_log, prev, entries@, j2);
                    lemma_first_new_unique(old_log, prev, entries@, j, c);
                    assert(entries@.subrange(j, entries@.len() as int) =~= entries@.skip(j));
                },
                None => {
                    if exists|j2: int| is_first_new(old_log, prev, entries@, j2) {
                        let c = choose|j2: int| is_first_new(old_log, prev, entries@, j2);
                        assert(holds_entry(old_log, prev, entries@, c));
                    }
                },
            }
        }
    }
}

} // verus!
