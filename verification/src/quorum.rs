//! The highest index that a quorum of servers has reached.
use vstd::prelude::*;

verus! {

/// How many entries of `s` are at least `v`.
pub open spec fn count_at_least(s: Seq<u64>, v: u64) -> nat
    decreases s.len(),
{
    if s.len() == 0 {
        0
    } else {
        count_at_least(s.drop_last(), v) + if s.last() >= v {
            1nat
        } else {
            0nat
        }
    }
}

/// `r` is the largest entry of `s` that at least `quorum` entries of `s` reach: the entry at
/// position `quorum - 1` once `s` is sorted from the largest down.
pub open spec fn is_quorum_value(s: Seq<u64>, quorum: nat, r: u64) -> bool {
    &&& s.contains(r)
    &&& count_at_least(s, r) >= quorum
    &&& forall|i: int| 0 <= i < s.len() && count_at_least(s, s[i]) >= quorum ==> s[i] <= r
}

/// The largest entry of `s` that at least `quorum` entries of `s` reach.
pub open spec fn quorum_of(s: Seq<u64>, quorum: nat) -> u64 {
    choose|r: u64| is_quorum_value(s, quorum, r)
}

/// At most one entry is the largest that a quorum reaches.
pub proof fn lemma_quorum_value_unique(s: Seq<u64>, quorum: nat, r1: u64, r2: u64)
    requires
        is_quorum_value(s, quorum, r1),
        is_quorum_value(s, quorum, r2),
    ensures
        r1 == r2,
{
    let i1 = choose|i: int| 0 <= i < s.len() && s[i] == r1;
    let i2 = choose|i: int| 0 <= i < s.len() && s[i] == r2;
    assert(s[i1] <= r2);
    assert(s[i2] <= r1);
}

proof fn lemma_count_at_least_all(s: Seq<u64>, v: u64)
    requires
        forall|i: int| 0 <= i < s.len() ==> s[i] >= v,
    ensures
        count_at_least(s, v) == s.len(),
    decreases s.len(),
{
    if s.len() > 0 {
        lemma_count_at_least_all(s.drop_last(), v);
    }
}

spec fn is_min_at(s: Seq<u64>, i: int) -> bool {
    0 <= i < s.len() && forall|j: int| 0 <= j < s.len() ==> s[i] <= s[j]
}

proof fn lemma_min_exists(s: Seq<u64>)
    requires
        s.len() > 0,
    ensures
        exists|i: int| is_min_at(s, i),
    decreases s.len(),
{
    if s.len() > 1 {
        let t = s.drop_last();
        lemma_min_exists(t);
        let i = choose|i: int| is_min_at(t, i);
        if s.last() < s[i] {
            assert(is_min_at(s, s.len() - 1)) by {
                assert forall|j: int| 0 <= j < s.len() implies s[s.len() - 1] <= #[trigger] s[j] by {
                    if j < s.len() - 1 {
                        assert(t[i] <= t[j]);
                    }
                }
            }
        } else {
            assert(is_min_at(s, i)) by {
                assert forall|j: int| 0 <= j < s.len() implies s[i] <= s[j] by {
                    if j < s.len() - 1 {
                        assert(t[i] <= t[j]);
                    }
                }
            }
        }
    } else {
        assert(is_min_at(s, 0));
    }
}

proof fn lemma_quorum_prefix(s: Seq<u64>, quorum: nat, k: int)
    requires
        1 <= quorum <= s.len(),
        0 <= k <= s.len(),
    ensures
        exists|r: u64|
            s.contains(r) && count_at_least(s, r) >= quorum && forall|i: int|
                0 <= i < k && count_at_least(s, s[i]) >= quorum ==> s[i] <= r,
    decreases k,
{
    if k == 0 {
        lemma_min_exists(s);
        let i = choose|i: int| is_min_at(s, i);
        lemma_count_at_least_all(s, s[i]);
        assert(s.contains(s[i]));
    } else {
        lemma_quorum_prefix(s, quorum, k - 1);
        let r = choose|r: u64|
            s.contains(r) && count_at_least(s, r) >= quorum && forall|i: int|
                0 <= i < k - 1 && count_at_least(s, s[i]) >= quorum ==> s[i] <= r;
        if count_at_least(s, s[k - 1]) >= quorum && s[k - 1] > r {
            assert(s.contains(s[k - 1]));
            assert forall|i: int| 0 <= i < k && count_at_least(s, s[i]) >= quorum implies s[i] <= s[k - 1] by {
                if i < k - 1 {
                    assert(s[i] <= r);
                }
            }
        } else {
            assert forall|i: int| 0 <= i < k && count_at_least(s, s[i]) >= quorum implies s[i] <= r by {
            }
        }
    }
}

/// When the quorum is at least one and at most the number of entries, the largest entry that
/// a quorum reaches exists.
pub proof fn lemma_quorum_value_exists(s: Seq<u64>, quorum: nat)
    requires
        1 <= quorum <= s.len(),
    ensures
        is_quorum_value(s, quorum, quorum_of(s, quorum)),
{
    lemma_quorum_prefix(s, quorum, s.len() as int);
    let r = choose|r: u64|
        s.contains(r) && count_at_least(s, r) >= quorum && forall|i: int|
            0 <= i < s.len() && count_at_least(s, s[i]) >= quorum ==> s[i] <= r;
    assert(is_quorum_value(s, quorum, r));
}

/// How many entries of `s` are at least `v`.
fn count_at_least_exec(s: &Vec<u64>, v: u64) -> (c: usize)
    ensures
        c == count_at_least(s@, v),
{
    let mut c: usize = 0;
    let mut i: usize = 0;
    while i < s.len()
        invariant
            i <= s.len(),
            c == count_at_least(s@.take(i as int), v),
            c <= i,
        decreases s.len() - i,
    {
        proof {
            assert(s@.take(i + 1).drop_last() =~= s@.take(i as int));
        }
        if s[i] >= v {
            c += 1;
        }
        i += 1;
    }
    proof {
        assert(s@.take(s.len() as int) =~= s@);
    }
    c
}

/// The largest entry of `s` that at least `quorum` entries of `s` reach.
pub fn quorum_value(s: &Vec<u64>, quorum: usize) -> (r: u64)
    requires
        1 <= quorum <= s.len(),
    ensures
        is_quorum_value(s@, quorum as nat, r),
        r == quorum_of(s@, quorum as nat),
{
    let mut smallest = s[0];
    let mut i: usize = 1;
    while i < s.len()
        invariant
            1 <= i <= s.len(),
            s@.contains(smallest),
            forall|j: int| 0 <= j < i ==> s[j] >= smallest,
        decreases s.len() - i,
    {
        if s[i] < smallest {
            smallest = s[i];
        }
        i += 1;
    }
    proof {
        lemma_count_at_least_all(s@, smallest);
    }
    let mut best = smallest;
    let mut i: usize = 0;
    while i < s.len()
        invariant
            i <= s.len(),
            1 <= quorum <= s.len(),
            s@.contains(best),
            count_at_least(s@, best) >= quorum,
            forall|j: int| 0 <= j < i && count_at_least(s@, s[j]) >= quorum ==> s[j] <= best,
        decreases s.len() - i,
    {
        let c = count_at_least_exec(s, s[i]);
        if c >= quorum && s[i] > best {
            best = s[i];
        }
        i += 1;
    }
    proof {
        lemma_quorum_value_unique(s@, quorum as nat, best, quorum_of(s@, quorum as nat));
    }
    best
}

} // verus!
