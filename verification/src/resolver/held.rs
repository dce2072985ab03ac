//! The collections that the cache is made of, from the crates that provide
//! them.
//!
//! Every function marked `external_body` here calls one method of such a
//! collection; its contract is believed, not proved.

use vstd::prelude::*;
use std::sync::Arc;
use ahash::AHashMap;
use lru::LruCache;
use crate::resolver::record::Entry;

verus! {

/// `lru::LruCache`.
#[verifier::external_type_specification]
#[verifier::external_body]
#[verifier::reject_recursive_types(K)]
#[verifier::reject_recursive_types(V)]
#[verifier::reject_recursive_types(S)]
pub struct ExLruCache<K, V, S>(lru::LruCache<K, V, S>);

/// The hasher of `lru::LruCache`.
#[verifier::external_type_specification]
#[verifier::external_body]
pub struct ExLruHasher(lru::DefaultHasher);

/// `ahash::AHashMap`.
#[verifier::external_type_specification]
#[verifier::external_body]
#[verifier::reject_recursive_types(K)]
#[verifier::reject_recursive_types(V)]
#[verifier::reject_recursive_types(S)]
pub struct ExAHashMap<K, V, S>(ahash::AHashMap<K, V, S>);

/// The hasher of `ahash::AHashMap`.
#[verifier::external_type_specification]
#[verifier::external_body]
pub struct ExAHasher(ahash::RandomState);

/// What a cache holds, what was used last first.
pub uninterp spec fn items(c: LruCache<u128, Arc<Entry>>) -> Seq<(u128, Arc<Entry>)>;

/// How many items a cache holds at most.
pub uninterp spec fn limit(c: LruCache<u128, Arc<Entry>>) -> nat;

/// What a map holds.
pub uninterp spec fn times(m: AHashMap<u128, u64>) -> Map<u128, u64>;

/// The items with another key.
pub open spec fn without(s: Seq<(u128, Arc<Entry>)>, k: u128) -> Seq<(u128, Arc<Entry>)>
    decreases s.len(),
{
    if s.len() == 0 {
        Seq::empty()
    } else if s.last().0 == k {
        without(s.drop_last(), k)
    } else {
        without(s.drop_last(), k).push(s.last())
    }
}

/// Whether an item has a key.
pub open spec fn has_key(s: Seq<(u128, Arc<Entry>)>, k: u128) -> bool {
    exists|i: int| 0 <= i < s.len() && (#[trigger] s[i]).0 == k
}

/// The value under a key.
pub open spec fn value_at(s: Seq<(u128, Arc<Entry>)>, k: u128) -> Arc<Entry> {
    s[choose|i: int| 0 <= i < s.len() && (#[trigger] s[i]).0 == k].1
}

/// The items after the one with key `k` was used, if there is one.
pub open spec fn used(s: Seq<(u128, Arc<Entry>)>, k: u128) -> Seq<(u128, Arc<Entry>)> {
    if has_key(s, k) {
        seq![(k, value_at(s, k))] + without(s, k)
    } else {
        s
    }
}

/// The first `n` items, or all of them.
pub open spec fn first(s: Seq<(u128, Arc<Entry>)>, n: int) -> Seq<(u128, Arc<Entry>)> {
    if s.len() <= n {
        s
    } else {
        s.subrange(0, n)
    }
}

/// The items after one was put in, in a cache that holds `n` at most: the new
/// one comes first, in place of the one with its key, and the last one goes
/// where there is no room.
pub open spec fn with_item(s: Seq<(u128, Arc<Entry>)>, n: nat, k: u128, v: Arc<Entry>) -> Seq<(u128, Arc<Entry>)> {
    seq![(k, v)] + first(without(s, k), n - 1)
}

/// `LruCache::new`: a cache without items. It makes room for `cap` of them at
/// once, which is possible for no more than there are addresses.
#[verifier::external_body]
pub(crate) fn new_cache(cap: usize) -> (c: LruCache<u128, Arc<Entry>>)
    requires
        0 < cap <= usize::MAX / 128,
    ensures
        items(c).len() == 0,
        limit(c) == cap,
{
    LruCache::new(std::num::NonZeroUsize::new(cap).unwrap())
}

/// `LruCache::get`: the value under a key, which comes first from then on.
#[verifier::external_body]
pub(crate) fn cache_get(c: &mut LruCache<u128, Arc<Entry>>, k: u128) -> (r: Option<Arc<Entry>>)
    ensures
        limit(*final(c)) == limit(*old(c)),
        items(*final(c)) == used(items(*old(c)), k),
        r == if has_key(items(*old(c)), k) {
            Some(value_at(items(*old(c)), k))
        } else {
            None
        },
{
    c.get(&k).map(Arc::clone)
}

/// `LruCache::peek`: whether there is a value under a key.
#[verifier::external_body]
pub(crate) fn cache_has(c: &LruCache<u128, Arc<Entry>>, k: u128) -> (r: bool)
    ensures
        r == has_key(items(*c), k),
{
    c.peek(&k).is_some()
}

/// `LruCache::put`: puts a value in under a key.
#[verifier::external_body]
pub(crate) fn cache_put(c: &mut LruCache<u128, Arc<Entry>>, k: u128, v: Arc<Entry>)
    ensures
        limit(*final(c)) == limit(*old(c)),
        items(*final(c)) == with_item(items(*old(c)), limit(*old(c)), k, v),
{
    c.put(k, v);
}

/// `LruCache::pop`: takes out what is under a key.
#[verifier::external_body]
pub(crate) fn cache_pop(c: &mut LruCache<u128, Arc<Entry>>, k: u128)
    ensures
        limit(*final(c)) == limit(*old(c)),
        items(*final(c)) == without(items(*old(c)), k),
{
    c.pop(&k);
}

/// `LruCache::len`: the number of items.
#[verifier::external_body]
pub(crate) fn cache_len(c: &LruCache<u128, Arc<Entry>>) -> (n: usize)
    ensures
        n == items(*c).len(),
{
    c.len()
}

/// `LruCache::iter`: the items, what was used last first.
#[verifier::external_body]
pub(crate) fn cache_items(c: &LruCache<u128, Arc<Entry>>) -> (v: Vec<(u128, Arc<Entry>)>)
    ensures
        v@ == items(*c),
{
    c.iter().map(|(k, v)| (*k, Arc::clone(v))).collect()
}

/// `AHashMap::new`: a map without times.
#[verifier::external_body]
pub(crate) fn new_times() -> (m: AHashMap<u128, u64>)
    ensures
        times(m).dom() == Set::<u128>::empty(),
{
    AHashMap::new()
}

/// `AHashMap::get`: the time under a key.
#[verifier::external_body]
pub(crate) fn time_get(m: &AHashMap<u128, u64>, k: u128) -> (r: Option<u64>)
    ensures
        r == if times(*m).contains_key(k) {
            Some(times(*m)[k])
        } else {
            None
        },
{
    m.get(&k).copied()
}

/// `AHashMap::insert`: puts a time in under a key.
#[verifier::external_body]
pub(crate) fn time_put(m: &mut AHashMap<u128, u64>, k: u128, t: u64)
    ensures
        times(*final(m)) == times(*old(m)).insert(k, t),
{
    m.insert(k, t);
}

/// `AHashMap::remove`: takes out the time under a key.
#[verifier::external_body]
pub(crate) fn time_remove(m: &mut AHashMap<u128, u64>, k: u128)
    ensures
        times(*final(m)) == times(*old(m)).remove(k),
{
    m.remove(&k);
}

/// Whether a time is still to come.
pub fn is_ahead(t: u64, now: u64) -> (r: bool)
    ensures
        r == (t > now),
{
    t > now
}

/// `AHashMap::retain`: keeps the times that are still to come.
#[verifier::external_body]
pub(crate) fn times_retain(m: &mut AHashMap<u128, u64>, now: u64)
    ensures
        times(*final(m)) == times(*old(m)).restrict(
            Set::new(|k: u128| times(*old(m)).contains_key(k) && times(*old(m))[k] > now),
        ),
{
    m.retain(|_, t| is_ahead(*t, now));
}

} // verus!
