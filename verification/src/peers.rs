//! A per-peer table of log indices, keyed by node id.
use vstd::prelude::*;

verus! {

/// No two entries of `s` share a key.
pub open spec fn keys_distinct(s: Seq<(String, u64)>) -> bool {
    forall|i: int, j: int| 0 <= i < j < s.len() ==> s[i].0@ != s[j].0@
}

/// Some entry of `s` has key `k`.
pub open spec fn has_key(s: Seq<(String, u64)>, k: Seq<char>) -> bool {
    exists|i: int| 0 <= i < s.len() && s[i].0@ == k
}

/// The position of the entry of `s` with key `k` (when there is one).
pub open spec fn key_position(s: Seq<(String, u64)>, k: Seq<char>) -> int {
    choose|i: int| 0 <= i < s.len() && s[i].0@ == k
}

/// The value that `s` holds for key `k`, if any.
pub open spec fn lookup(s: Seq<(String, u64)>, k: Seq<char>) -> Option<u64> {
    if has_key(s, k) {
        Some(s[key_position(s, k)].1)
    } else {
        None
    }
}

/// The table after setting key `k` to `v`: in place where the key is present (the stored key
/// is kept), at the end otherwise.
pub open spec fn table_insert(t: Seq<(String, u64)>, k: String, v: u64) -> Seq<(String, u64)> {
    if has_key(t, k@) {
        t.update(key_position(t, k@), (t[key_position(t, k@)].0, v))
    } else {
        t.push((k, v))
    }
}

/// The table after lowering the value for key `k` by one, unless it is 1 or less.
pub open spec fn table_decrement(t: Seq<(String, u64)>, k: Seq<char>) -> Seq<(String, u64)> {
    let p = key_position(t, k);
    let v = t[p].1;
    t.update(p, (t[p].0, if v > 1 { (v - 1) as u64 } else { v }))
}

/// With distinct keys, the entry found at a position with key `k` is the one `key_position` names.
pub proof fn lemma_key_position_unique(s: Seq<(String, u64)>, k: Seq<char>, i: int)
    requires
        keys_distinct(s),
        0 <= i < s.len(),
        s[i].0@ == k,
    ensures
        has_key(s, k),
        key_position(s, k) == i,
        lookup(s, k) == Some(s[i].1),
{
    let p = key_position(s, k);
    assert(0 <= p < s.len() && s[p].0@ == k);
    if p < i {
        assert(s[p].0@ != s[i].0@);
    } else if p > i {
        assert(s[i].0@ != s[p].0@);
    }
}

/// `t` holds `v` for each of `keys` and for nothing else, each key once.
pub open spec fn table_of_keys(t: Seq<(String, u64)>, keys: Seq<String>, v: u64) -> bool {
    &&& keys_distinct(t)
    &&& forall|i: int| 0 <= i < t.len() ==> #[trigger] t[i].1 == v
    &&& forall|k: Seq<char>|
        #![trigger lookup(t, k)]
        lookup(t, k) == if (exists|j: int| 0 <= j < keys.len() && keys[j]@ == k) {
            Some(v)
        } else {
            None::<u64>
        }
}

/// A table from node ids to log indices (the `next_index` and `match_index` of a Raft leader).
pub struct PeerIndex {
    entries: Vec<(String, u64)>,
}

impl View for PeerIndex {
    type V = Seq<(String, u64)>;

    closed spec fn view(&self) -> Seq<(String, u64)> {
        self.entries@
    }
}

impl PeerIndex {
    /// No key appears twice.
    #[verifier::type_invariant]
    spec fn keys_unique(self) -> bool {
        keys_distinct(self.entries@)
    }

    /// The number of entries.
    pub fn len(&self) -> (n: usize)
        ensures
            n == self@.len(),
            keys_distinct(self@),
    {
        proof { use_type_invariant(self); }
        self.entries.len()
    }

    /// The key and value of entry `i`.
    pub fn entry(&self, i: usize) -> (r: (&String, u64))
        requires
            i < self@.len(),
        ensures
            *r.0 == self@[i as int].0,
            r.1 == self@[i as int].1,
    {
        (&self.entries[i].0, self.entries[i].1)
    }

    /// An empty table.
    pub fn new() -> (t: PeerIndex)
        ensures
            t@ == Seq::<(String, u64)>::empty(),
    {
        PeerIndex { entries: Vec::new() }
    }

    /// The position of the entry with key `k`, if any.
    pub fn find(&self, k: &String) -> (r: Option<usize>)
        ensures
            match r {
                Some(i) => i < self@.len() && self@[i as int].0@ == k@ && key_position(self@, k@) == i,
                None => !has_key(self@, k@),
            },
    {
        proof { use_type_invariant(self); }
        let mut i: usize = 0;
        while i < self.entries.len()
            invariant
                i <= self.entries.len(),
                keys_distinct(self@),
                forall|j: int| 0 <= j < i ==> self@[j].0@ != k@,
            decreases self.entries.len() - i,
        {
            if self.entries[i].0 == *k {
                proof {
                    lemma_key_position_unique(self@, k@, i as int);
                }
                return Some(i);
            }
            i += 1;
        }
        None
    }

    /// The value for key `k`, if any.
    pub fn get(&self, k: &String) -> (r: Option<u64>)
        ensures
            r == lookup(self@, k@),
    {
        proof { use_type_invariant(self); }
        match self.find(k) {
            Some(i) => {
                proof {
                    lemma_key_position_unique(self@, k@, i as int);
                }
                Some(self.entries[i].1)
            },
            None => None,
        }
    }

    /// Sets the value for key `k`: in place where the key is present (the stored key is kept),
    /// at the end otherwise.
    pub fn insert(&mut self, k: String, v: u64)
        ensures
            final(self)@ == table_insert(old(self)@, k, v),
            forall|k2: Seq<char>|
                #![trigger lookup(final(self)@, k2)]
                lookup(final(self)@, k2) == if k2 == k@ {
                    Some(v)
                } else {
                    lookup(old(self)@, k2)
                },
    {
        proof { use_type_invariant(&*self); }
        let found = self.find(&k);
        let mut entries: Vec<(String, u64)> = Vec::new();
        std::mem::swap(&mut entries, &mut self.entries);
        match found {
            Some(i) => {
                let key = entries[i].0.clone();
                entries.set(i, (key, v));
                proof {
                    let s = entries@;
                    assert(keys_distinct(s)) by {
                        assert forall|a: int, b: int| 0 <= a < b < s.len() implies s[a].0@ != s[b].0@ by {
                            assert(s[a].0@ == old(self)@[a].0@);
                            assert(s[b].0@ == old(self)@[b].0@);
                        }
                    }
                    assert forall|k2: Seq<char>| #![trigger lookup(s, k2)]
                        lookup(s, k2) == if k2 == k@ { Some(v) } else { lookup(old(self)@, k2) } by {
                        if k2 == k@ {
                            lemma_key_position_unique(s, k2, i as int);
                        } else if has_key(old(self)@, k2) {
                            let p = key_position(old(self)@, k2);
                            assert(p != i);
                            assert(s[p] == old(self)@[p]);
                            lemma_key_position_unique(s, k2, p);
                        } else {
                            if has_key(s, k2) {
                                let p = key_position(s, k2);
                                assert(s[p].0@ == old(self)@[p].0@);
                            }
                        }
                    }
                }
            },
            None => {
                entries.push((k, v));
                proof {
                    let s = entries@;
                    let o = old(self)@;
                    assert forall|a: int, b: int| 0 <= a < b < s.len() implies s[a].0@ != s[b].0@ by {
                        if b == o.len() {
                            assert(s[a] == o[a]);
                        }
                    }
                    assert forall|k2: Seq<char>| #![trigger lookup(s, k2)]
                        lookup(s, k2) == if k2 == k@ { Some(v) } else { lookup(o, k2) } by {
                        if k2 == k@ {
                            lemma_key_position_unique(s, k2, o.len() as int);
                        } else if has_key(o, k2) {
                            let p = key_position(o, k2);
                            assert(s[p] == o[p]);
                            lemma_key_position_unique(s, k2, p);
                        } else {
                            if has_key(s, k2) {
                                let p = key_position(s, k2);
                                if p < o.len() {
                                    assert(s[p] == o[p]);
                                }
                            }
                        }
                    }
                }
            },
        }
        self.entries = entries;
    }

    /// A table that holds `v` for each of `keys` (a key given twice appears once).
    pub fn from_keys(keys: &Vec<String>, v: u64) -> (t: PeerIndex)
        ensures
            table_of_keys(t@, keys@, v),
    {
        let mut t = PeerIndex::new();
        let mut i: usize = 0;
        while i < keys.len()
            invariant
                i <= keys.len(),
                keys_distinct(t@),
                forall|j: int| 0 <= j < t@.len() ==> #[trigger] t@[j].1 == v,
                forall|k: Seq<char>|
                    #![trigger lookup(t@, k)]
                    lookup(t@, k) == if (exists|j: int| 0 <= j < i && keys@[j]@ == k) {
                        Some(v)
                    } else {
                        None::<u64>
                    },
            decreases keys.len() - i,
        {
            let ghost before = t@;
            t.insert(keys[i].clone(), v);
            proof {
                use_type_invariant(&t);
                assert forall|j: int| 0 <= j < t@.len() implies #[trigger] t@[j].1 == v by {
                    if has_key(before, keys@[i as int]@) {
                        let p = key_position(before, keys@[i as int]@);
                        if j != p {
                            assert(t@[j] == before[j]);
                        }
                    } else {
                        if j < before.len() {
                            assert(t@[j] == before[j]);
                        }
                    }
                }
                assert forall|k: Seq<char>| #![trigger lookup(t@, k)]
                    lookup(t@, k) == if (exists|j: int| 0 <= j < i + 1 && keys@[j]@ == k) {
                        Some(v)
                    } else {
                        None::<u64>
                    } by {
                    if k == keys@[i as int]@ {
                        assert(exists|j: int| 0 <= j < i + 1 && keys@[j]@ == k) by {
                            assert(keys@[i as int]@ == k);
                        }
                    } else {
                        assert(lookup(t@, k) == lookup(before, k));
                        if exists|j: int| 0 <= j < i + 1 && keys@[j]@ == k {
                            let j = choose|j: int| 0 <= j < i + 1 && keys@[j]@ == k;
                            assert(j < i);
                        }
                    }
                }
            }
            i += 1;
        }
        proof {
            use_type_invariant(&t);
            assert(keys@.take(keys.len() as int) =~= keys@);
        }
        t
    }

    /// Lowers the value for key `k` by one, unless it is 1 or less.
    pub fn decrement_above_one(&mut self, k: &String)
        requires
            has_key(old(self)@, k@),
        ensures
            final(self)@ == table_decrement(old(self)@, k@),
    {
        proof { use_type_invariant(&*self); }
        let i = self.find(k).unwrap();
        let v = self.entries[i].1;
        if v > 1 {
            let mut entries: Vec<(String, u64)> = Vec::new();
            std::mem::swap(&mut entries, &mut self.entries);
            let key = entries[i].0.clone();
            entries.set(i, (key, v - 1));
            proof {
                let s = entries@;
                assert forall|a: int, b: int| 0 <= a < b < s.len() implies s[a].0@ != s[b].0@ by {
                    assert(s[a].0@ == old(self)@[a].0@);
                    assert(s[b].0@ == old(self)@[b].0@);
                }
            }
            self.entries = entries;
        } else {
            proof {
                assert(old(self)@.update(i as int, (old(self)@[i as int].0, v)) =~= old(self)@);
            }
        }
    }
}

} // verus!
