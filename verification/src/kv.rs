//! The key/value store that the lin-kv nodes serve: reads, writes and compare-and-set.
use vstd::prelude::*;
use std::collections::HashMap;

verus! {

broadcast use vstd::std_specs::hash::group_hash_axioms;

/// The value that `m` holds for `key`, if any.
pub open spec fn read_value(m: Map<u64, i64>, key: u64) -> Option<i64> {
    if m.contains_key(key) {
        Some(m[key])
    } else {
        None
    }
}

/// A compare-and-set of `key` from `from` applies: the key is present and holds `from`.
pub open spec fn cas_applies(m: Map<u64, i64>, key: u64, from: i64) -> bool {
    m.contains_key(key) && m[key] == from
}

/// The store after a compare-and-set of `key` from `from` to `to`.
pub open spec fn cas_result(m: Map<u64, i64>, key: u64, from: i64, to: i64) -> Map<u64, i64> {
    if cas_applies(m, key, from) {
        m.insert(key, to)
    } else {
        m
    }
}

/// The value stored for `key`, if any.
pub fn lookup(map: &HashMap<u64, i64>, key: u64) -> (r: Option<i64>)
    ensures
        r == read_value(map@, key),
{
    match map.get(&key) {
        Some(v) => Some(*v),
        None => None,
    }
}

/// Stores `value` for `key`.
pub fn store(map: &mut HashMap<u64, i64>, key: u64, value: i64)
    ensures
        final(map)@ == old(map)@.insert(key, value),
{
    map.insert(key, value);
}

/// An empty store.
pub fn empty_store() -> (map: HashMap<u64, i64>)
    ensures
        map@ == Map::<u64, i64>::empty(),
{
    HashMap::new()
}

/// A read after a write of the same key gives the written value.
pub proof fn law_read_after_write(m: Map<u64, i64>, key: u64, value: i64)
    ensures
        read_value(m.insert(key, value), key) == Some(value),
{
}

/// A write leaves every other key as it was.
pub proof fn law_write_isolated(m: Map<u64, i64>, key: u64, value: i64, other: u64)
    requires
        other != key,
    ensures
        read_value(m.insert(key, value), other) == read_value(m, other),
{
}

/// A compare-and-set from the value that a key holds succeeds, and a read then gives the new value.
pub proof fn law_cas_after_write(m: Map<u64, i64>, key: u64, value: i64, to: i64)
    ensures
        cas_applies(m.insert(key, value), key, value),
        read_value(cas_result(m.insert(key, value), key, value, to), key) == Some(to),
{
}

/// A compare-and-set that does not apply changes nothing.
pub proof fn law_failed_cas_unchanged(m: Map<u64, i64>, key: u64, from: i64, to: i64)
    requires
        !cas_applies(m, key, from),
    ensures
        cas_result(m, key, from, to) == m,
{
}

/// A compare-and-set applies exactly when the key is present and holds `from`; then it sets the
/// key to `to` and leaves every other key as it was.
pub proof fn law_cas_exactly_when_holding(m: Map<u64, i64>, key: u64, from: i64, to: i64, other: u64)
    requires
        other != key,
    ensures
        cas_applies(m, key, from) <==> (m.contains_key(key) && m[key] == from),
        cas_applies(m, key, from) ==> read_value(cas_result(m, key, from, to), key) == Some(to),
        read_value(cas_result(m, key, from, to), other) == read_value(m, other),
        cas_result(m, key, from, to).dom() == m.dom().insert(key) || cas_result(m, key, from, to) == m,
{
}

/// A read of a key that the store does not hold finds nothing; of one it holds, finds its value.
pub proof fn law_read_finds_what_is_held(m: Map<u64, i64>, key: u64)
    ensures
        !m.contains_key(key) ==> read_value(m, key) is None,
        m.contains_key(key) ==> read_value(m, key) == Some(m[key]),
{
}

} // verus!
