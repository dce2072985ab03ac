//! A store with a cache in front of it.

use vstd::prelude::*;
use std::sync::Arc;
use ahash::AHashMap;
use lru::LruCache;
use crate::codec::header::IPv8Address;
use crate::resolver::held;
use crate::resolver::record;
use crate::resolver::record::Entry;
use crate::resolver::store;
use crate::resolver::store::Store;

verus! {

/// How large the cache is, and for how long it remembers that there is no
/// entry, in milliseconds.
#[derive(Debug, Clone, Copy, PartialEq, Eq, Structural)]
pub struct CacheConfig {
    pub max_entries: usize,
    pub negative_ttl: u64,
}

impl Default for CacheConfig {
    fn default() -> (c: Self)
        ensures
            c.max_entries == 10_000,
            c.negative_ttl == 10_000,
    {
        CacheConfig { max_entries: 10_000, negative_ttl: 10_000 }
    }
}

/// How often the cache knew the answer, or did not.
#[derive(Debug, Clone, Copy, PartialEq, Eq, Structural)]
pub struct CacheStats {
    pub hits: u64,
    pub misses: u64,
    pub negative_hits: u64,
    pub writes: u64,
}

impl Default for CacheStats {
    fn default() -> (c: Self)
        ensures
            c == (CacheStats { hits: 0, misses: 0, negative_hits: 0, writes: 0 }),
    {
        CacheStats { hits: 0, misses: 0, negative_hits: 0, writes: 0 }
    }
}

/// One more; 0 after the greatest number.
pub open spec fn next(n: u64) -> u64 {
    if n == u64::MAX {
        0
    } else {
        (n + 1) as u64
    }
}

/// The number of the first 8 bytes of an address.
pub open spec fn high_key(a: IPv8Address) -> int {
    a.asn * 0x100000000 + a.host_id
}

/// The number of the last 8 bytes of an address.
pub open spec fn low_key(a: IPv8Address) -> int {
    (((a.device_id * 0x10000 + a.cap_tag) * 0x100 + a.sec_level) * 0x100 + a.reserved@[0]) * 0x10000 + (a.reserved@[1]
        * 0x100 + a.reserved@[2])
}

/// The number of an address: its 16 bytes, the first one highest.
pub open spec fn key_of(a: IPv8Address) -> u128 {
    (high_key(a) * 0x10000000000000000 + low_key(a)) as u128
}

/// The numbers that an address is made of are in their ranges.
proof fn key_bounds(a: IPv8Address)
    ensures
        0 <= high_key(a) < 0x10000000000000000,
        0 <= low_key(a) < 0x10000000000000000,
        key_of(a) == high_key(a) * 0x10000000000000000 + low_key(a),
{
}

/// The number of an address.
fn addr_key(a: &IPv8Address) -> (k: u128)
    ensures
        k == key_of(*a),
{
    let high: u64 = a.asn as u64 * 0x100000000 + a.host_id as u64;
    let tail: u64 = a.reserved[1] as u64 * 0x100 + a.reserved[2] as u64;
    let low: u64 = (((a.device_id as u64 * 0x10000 + a.cap_tag as u64) * 0x100 + a.sec_level as u64) * 0x100
        + a.reserved[0] as u64) * 0x10000 + tail;
    high as u128 * 0x10000000000000000 + low as u128
}

/// Different addresses have different numbers.
pub proof fn key_is_injective(a: IPv8Address, b: IPv8Address)
    requires
        key_of(a) == key_of(b),
    ensures
        a == b,
{
    key_bounds(a);
    key_bounds(b);
    assert(high_key(a) == high_key(b) && low_key(a) == low_key(b));
    high_is_injective(a, b);
    low_is_injective(a, b);
    assert(a.reserved =~= b.reserved);
}

/// The first number determines the first fields.
proof fn high_is_injective(a: IPv8Address, b: IPv8Address)
    requires
        high_key(a) == high_key(b),
    ensures
        a.asn == b.asn,
        a.host_id == b.host_id,
{
}

/// The last number determines the last fields.
proof fn low_is_injective(a: IPv8Address, b: IPv8Address)
    requires
        low_key(a) == low_key(b),
    ensures
        a.device_id == b.device_id,
        a.cap_tag == b.cap_tag,
        a.sec_level == b.sec_level,
        a.reserved@[0] == b.reserved@[0],
        a.reserved@[1] == b.reserved@[1],
        a.reserved@[2] == b.reserved@[2],
{
    let ha = ((a.device_id * 0x10000 + a.cap_tag) * 0x100 + a.sec_level) * 0x100 + a.reserved@[0];
    let hb = ((b.device_id * 0x10000 + b.cap_tag) * 0x100 + b.sec_level) * 0x100 + b.reserved@[0];
    assert(ha == hb);
    let ga = (a.device_id * 0x10000 + a.cap_tag) * 0x100 + a.sec_level;
    let gb = (b.device_id * 0x10000 + b.cap_tag) * 0x100 + b.sec_level;
    assert(ga == gb);
}

/// Whether no two items have the same key.
pub open spec fn distinct(s: Seq<(u128, Arc<Entry>)>) -> bool {
    forall|i: int, j: int| 0 <= i < j < s.len() ==> (#[trigger] s[i]).0 != (#[trigger] s[j]).0
}

/// The items that have not gone stale.
pub open spec fn unexpired(s: Seq<(u128, Arc<Entry>)>, now: u64) -> Seq<(u128, Arc<Entry>)>
    decreases s.len(),
{
    if s.len() == 0 {
        Seq::empty()
    } else if s.last().1@.rec.expired(now) {
        unexpired(s.drop_last(), now)
    } else {
        unexpired(s.drop_last(), now).push(s.last())
    }
}

/// Where the only item with a key stands.
proof fn value_is(s: Seq<(u128, Arc<Entry>)>, i: int)
    requires
        distinct(s),
        0 <= i < s.len(),
    ensures
        held::has_key(s, s[i].0),
        held::value_at(s, s[i].0) == s[i].1,
{
    let k = s[i].0;
    let j = choose|j: int| 0 <= j < s.len() && (#[trigger] s[j]).0 == k;
    assert(s[i].0 == k);
    assert(s[j].0 == k);
}

/// Which items are left where those with a key are taken out.
proof fn without_items(s: Seq<(u128, Arc<Entry>)>, k: u128)
    requires
        distinct(s),
    ensures
        distinct(held::without(s, k)),
        held::without(s, k).len() <= s.len(),
        held::has_key(s, k) ==> held::without(s, k).len() < s.len(),
        forall|i: int| 0 <= i < held::without(s, k).len() ==> (#[trigger] held::without(s, k)[i]).0 != k,
        forall|i: int| 0 <= i < held::without(s, k).len() ==> s.contains(#[trigger] held::without(s, k)[i]),
        forall|i: int| 0 <= i < s.len() && (#[trigger] s[i]).0 != k ==> held::without(s, k).contains(s[i]),
    decreases s.len(),
{
    if s.len() > 0 {
        let f = s.drop_last();
        let w = held::without(f, k);
        let r = held::without(s, k);
        without_items(f, k);
        assert forall|i: int| 0 <= i < r.len() implies s.contains(#[trigger] r[i]) by {
            if i < w.len() {
                assert(f.contains(w[i]));
                let j = choose|j: int| 0 <= j < f.len() && f[j] == w[i];
                assert(s[j] == r[i]);
            } else {
                assert(s[s.len() - 1] == r[i]);
            }
        }
        assert forall|i: int, j: int| 0 <= i < j < r.len() implies (#[trigger] r[i]).0 != (#[trigger] r[j]).0 by {
            if j == w.len() {
                assert(f.contains(w[i]));
                let m = choose|m: int| 0 <= m < f.len() && f[m] == w[i];
                assert(s[m].0 != s[s.len() - 1].0);
            }
        }
        assert forall|i: int| 0 <= i < s.len() && (#[trigger] s[i]).0 != k implies r.contains(s[i]) by {
            if i < f.len() {
                assert(f[i].0 != k);
                let j = choose|j: int| 0 <= j < w.len() && w[j] == s[i];
                assert(r[j] == s[i]);
            } else {
                assert(r[r.len() - 1] == s[i]);
            }
        }
        if held::has_key(s, k) {
            let i = choose|i: int| 0 <= i < s.len() && (#[trigger] s[i]).0 == k;
            if i < f.len() {
                assert(f[i].0 == k);
            }
        }
    }
}

/// Every item of `t` is one of `s`.
pub open spec fn within(t: Seq<(u128, Arc<Entry>)>, s: Seq<(u128, Arc<Entry>)>) -> bool {
    forall|i: int| 0 <= i < t.len() ==> s.contains(#[trigger] t[i])
}

/// What is under a key among some items is under it among all of them.
proof fn within_value(t: Seq<(u128, Arc<Entry>)>, s: Seq<(u128, Arc<Entry>)>, k: u128)
    requires
        within(t, s),
        distinct(t),
        distinct(s),
        held::has_key(t, k),
    ensures
        held::has_key(s, k),
        held::value_at(s, k) == held::value_at(t, k),
{
    let i = choose|i: int| 0 <= i < t.len() && (#[trigger] t[i]).0 == k;
    value_is(t, i);
    assert(s.contains(t[i]));
    let j = choose|j: int| 0 <= j < s.len() && s[j] == t[i];
    value_is(s, j);
}

/// What using an item does to the items.
proof fn used_items(s: Seq<(u128, Arc<Entry>)>, k: u128)
    requires
        distinct(s),
    ensures
        distinct(held::used(s, k)),
        within(held::used(s, k), s),
        held::used(s, k).len() <= s.len(),
{
    without_items(s, k);
    if held::has_key(s, k) {
        let u = held::used(s, k);
        let w = held::without(s, k);
        let i = choose|i: int| 0 <= i < s.len() && (#[trigger] s[i]).0 == k;
        assert(u[0] == s[i]);
        assert forall|j: int| 0 <= j < u.len() implies s.contains(#[trigger] u[j]) by {
            if j > 0 {
                assert(u[j] == w[j - 1]);
            }
        }
        assert forall|a: int, b: int| 0 <= a < b < u.len() implies (#[trigger] u[a]).0 != (#[trigger] u[b]).0 by {
            assert(u[b] == w[b - 1]);
            if a > 0 {
                assert(u[a] == w[a - 1]);
            }
        }
    } else {
        assert forall|j: int| 0 <= j < s.len() implies s.contains(#[trigger] s[j]) by {}
    }
}

/// What putting an item in does to the items.
proof fn with_item_items(s: Seq<(u128, Arc<Entry>)>, n: nat, k: u128, v: Arc<Entry>)
    requires
        distinct(s),
        0 < n,
    ensures
        distinct(held::with_item(s, n, k, v)),
        held::with_item(s, n, k, v).len() <= n,
        held::with_item(s, n, k, v)[0] == (k, v),
        forall|i: int|
            0 < i < held::with_item(s, n, k, v).len() ==> s.contains(#[trigger] held::with_item(s, n, k, v)[i])
                && held::with_item(s, n, k, v)[i].0 != k,
{
    without_items(s, k);
    let w = held::without(s, k);
    let f = held::first(w, n - 1);
    let r = held::with_item(s, n, k, v);
    assert forall|i: int| 0 < i < r.len() implies s.contains(#[trigger] r[i]) && r[i].0 != k by {
        assert(r[i] == f[i - 1] && f[i - 1] == w[i - 1]);
    }
    assert forall|a: int, b: int| 0 <= a < b < r.len() implies (#[trigger] r[a]).0 != (#[trigger] r[b]).0 by {
        assert(r[b] == w[b - 1]);
        if a > 0 {
            assert(r[a] == w[a - 1]);
        }
    }
}

/// Taking out a key among two runs of items.
proof fn without_joined(a: Seq<(u128, Arc<Entry>)>, b: Seq<(u128, Arc<Entry>)>, k: u128)
    ensures
        held::without(a + b, k) == held::without(a, k) + held::without(b, k),
    decreases b.len(),
{
    if b.len() == 0 {
        assert(a + b =~= a);
        assert(held::without(a, k) + held::without(b, k) =~= held::without(a, k));
    } else {
        without_joined(a, b.drop_last(), k);
        assert((a + b).drop_last() =~= a + b.drop_last());
        assert((a + b).last() == b.last());
        assert(held::without(a + b, k) =~= held::without(a, k) + held::without(b, k));
    }
}

/// Taking out a key that no item has.
proof fn without_none(s: Seq<(u128, Arc<Entry>)>, k: u128)
    requires
        forall|i: int| 0 <= i < s.len() ==> (#[trigger] s[i]).0 != k,
    ensures
        held::without(s, k) == s,
    decreases s.len(),
{
    if s.len() > 0 {
        without_none(s.drop_last(), k);
        assert(s.drop_last().push(s.last()) =~= s);
    }
}

/// The items that have not gone stale are items, and keep their keys apart.
proof fn unexpired_items(s: Seq<(u128, Arc<Entry>)>, now: u64)
    requires
        distinct(s),
    ensures
        distinct(unexpired(s, now)),
        within(unexpired(s, now), s),
        unexpired(s, now).len() <= s.len(),
        forall|i: int| 0 <= i < unexpired(s, now).len() ==> !(#[trigger] unexpired(s, now)[i]).1@.rec.expired(now),
    decreases s.len(),
{
    if s.len() > 0 {
        let f = s.drop_last();
        let w = unexpired(f, now);
        let r = unexpired(s, now);
        unexpired_items(f, now);
        assert forall|i: int| 0 <= i < r.len() implies s.contains(#[trigger] r[i]) by {
            if i < w.len() {
                assert(f.contains(w[i]));
                let j = choose|j: int| 0 <= j < f.len() && f[j] == w[i];
                assert(s[j] == r[i]);
            } else {
                assert(s[s.len() - 1] == r[i]);
            }
        }
        assert forall|i: int, j: int| 0 <= i < j < r.len() implies (#[trigger] r[i]).0 != (#[trigger] r[j]).0 by {
            if j == w.len() {
                assert(f.contains(w[i]));
                let m = choose|m: int| 0 <= m < f.len() && f[m] == w[i];
                assert(s[m].0 != s[s.len() - 1].0);
            }
        }
    }
}

/// One step of the sweep through the items.
proof fn sweep_step(s: Seq<(u128, Arc<Entry>)>, i: int, now: u64)
    requires
        distinct(s),
        0 <= i < s.len(),
    ensures
        ({
            let before = unexpired(s.subrange(0, i), now) + s.subrange(i, s.len() as int);
            let after = unexpired(s.subrange(0, i + 1), now) + s.subrange(i + 1, s.len() as int);
            if s[i].1@.rec.expired(now) {
                after == held::without(before, s[i].0)
            } else {
                after == before
            }
        }),
{
    let p = s.subrange(0, i);
    let u = unexpired(p, now);
    let rest = s.subrange(i + 1, s.len() as int);
    let k = s[i].0;
    assert(s.subrange(0, i + 1).drop_last() =~= p);
    assert(s.subrange(i, s.len() as int) =~= seq![s[i]] + rest);
    if s[i].1@.rec.expired(now) {
        assert(distinct(p));
        unexpired_items(p, now);
        assert forall|j: int| 0 <= j < u.len() implies (#[trigger] u[j]).0 != k by {
            assert(p.contains(u[j]));
            let m = choose|m: int| 0 <= m < p.len() && p[m] == u[j];
            assert(s[m].0 != s[i].0);
        }
        assert forall|j: int| 0 <= j < rest.len() implies (#[trigger] rest[j]).0 != k by {
            assert(s[i].0 != s[i + 1 + j].0);
        }
        without_none(u, k);
        without_none(rest, k);
        assert(held::without(seq![s[i]], k) =~= Seq::empty()) by {
            assert(seq![s[i]].drop_last() =~= Seq::<(u128, Arc<Entry>)>::empty());
            assert(seq![s[i]].last() == s[i]);
            assert(held::without(Seq::<(u128, Arc<Entry>)>::empty(), k) =~= Seq::empty());
        }
        without_joined(u, seq![s[i]] + rest, k);
        without_joined(seq![s[i]], rest, k);
        assert(u + (Seq::<(u128, Arc<Entry>)>::empty() + rest) =~= u + rest);
    } else {
        assert(u.push(s[i]) + rest =~= u + (seq![s[i]] + rest));
    }
}

/// The cache as a mathematical value: the cached entries, what was used last
/// first; until when an address is known to have none; and the counts.
pub ghost struct CacheView {
    pub items: Seq<(u128, Arc<Entry>)>,
    pub absent: Map<u128, u64>,
    pub stats: CacheStats,
}

/// What a lookup does to the cache, given what the store holds.
pub open spec fn looked_up(
    c: CacheView,
    config: CacheConfig,
    found: Option<Arc<Entry>>,
    k: u128,
    now: u64,
) -> CacheView {
    if held::has_key(c.items, k) {
        CacheView { items: held::used(c.items, k), stats: CacheStats { hits: next(c.stats.hits), ..c.stats }, ..c }
    } else if c.absent.contains_key(k) && c.absent[k] > now {
        CacheView { stats: CacheStats { negative_hits: next(c.stats.negative_hits), ..c.stats }, ..c }
    } else {
        let stats = CacheStats { misses: next(c.stats.misses), ..c.stats };
        match found {
            Some(e) => CacheView {
                items: held::with_item(c.items, config.max_entries as nat, k, e),
                absent: c.absent.remove(k),
                stats,
            },
            None => CacheView {
                items: c.items,
                absent: c.absent.insert(
                    k,
                    if now + config.negative_ttl > u64::MAX {
                        u64::MAX
                    } else {
                        (now + config.negative_ttl) as u64
                    },
                ),
                stats,
            },
        }
    }
}

/// Whether what a cache says agrees with the store behind it.
pub open spec fn agrees(
    items: Seq<(u128, Arc<Entry>)>,
    absent: Map<u128, u64>,
    m: Map<IPv8Address, record::EntryView>,
) -> bool {
    &&& forall|a: IPv8Address|
        held::has_key(items, #[trigger] key_of(a)) ==> m.contains_key(a) && m[a] == held::value_at(items, key_of(a))@
    &&& forall|a: IPv8Address| absent.contains_key(#[trigger] key_of(a)) ==> !m.contains_key(a)
}

/// A store with a cache in front of it.
pub struct CachedStore<S: Store> {
    inner: S,
    config: CacheConfig,
    cache: LruCache<u128, Arc<Entry>>,
    negative: AHashMap<u128, u64>,
    stats: CacheStats,
}

impl<S: Store> View for CachedStore<S> {
    type V = CacheView;

    closed spec fn view(&self) -> CacheView {
        CacheView { items: held::items(self.cache), absent: held::times(self.negative), stats: self.stats }
    }
}

impl<S: Store> CachedStore<S> {
    /// The store behind the cache.
    pub closed spec fn behind(&self) -> S {
        self.inner
    }

    /// How the cache was set up.
    pub closed spec fn setup(&self) -> CacheConfig {
        self.config
    }

    /// Puts an empty cache in front of a store.
    pub fn new(inner: S, config: CacheConfig) -> (c: Self)
        requires
            inner.wf(),
            0 < config.max_entries <= usize::MAX / 128,
        ensures
            c.wf(),
            c.behind() == inner,
            c.setup() == config,
            c@ == (CacheView {
                items: Seq::empty(),
                absent: Map::empty(),
                stats: CacheStats { hits: 0, misses: 0, negative_hits: 0, writes: 0 },
            }),
    {
        let c = CachedStore {
            inner,
            config,
            cache: held::new_cache(config.max_entries),
            negative: held::new_times(),
            stats: CacheStats::default(),
        };
        assert(c@.items =~= Seq::empty());
        assert(c@.absent =~= Map::empty());
        c
    }

    /// Takes the cache away.
    pub fn into_inner(self) -> (s: S)
        ensures
            s == self.behind(),
    {
        self.inner
    }

    /// The store behind the cache.
    pub fn inner(&self) -> (s: &S)
        ensures
            *s == self.behind(),
    {
        &self.inner
    }

    /// The counts.
    pub fn stats(&self) -> (s: CacheStats)
        ensures
            s == self@.stats,
    {
        self.stats
    }

    /// How many entries are cached.
    pub fn cache_len(&self) -> (n: usize)
        ensures
            n == self@.items.len(),
    {
        held::cache_len(&self.cache)
    }

    /// Whether the entry of an address is cached.
    pub fn cache_contains(&self, addr: &IPv8Address) -> (r: bool)
        ensures
            r == held::has_key(self@.items, key_of(*addr)),
    {
        held::cache_has(&self.cache, addr_key(addr))
    }
}

/// The number of items that have gone stale.
pub open spec fn stale_items(s: Seq<(u128, Arc<Entry>)>, now: u64) -> nat {
    (s.len() - unexpired(s, now).len()) as nat
}

impl<S: Store> Store for CachedStore<S> {
    closed spec fn wf(&self) -> bool {
        &&& self.inner.wf()
        &&& 0 < self.config.max_entries
        &&& held::limit(self.cache) == self.config.max_entries
        &&& held::items(self.cache).len() <= self.config.max_entries
        &&& distinct(held::items(self.cache))
        &&& agrees(held::items(self.cache), held::times(self.negative), self.inner.contents())
    }

    closed spec fn contents(&self) -> Map<IPv8Address, record::EntryView> {
        self.inner.contents()
    }

    /// What the store behind the cache counts, and the cached entries that
    /// have gone stale.
    closed spec fn swept(&self, now: u64) -> nat {
        let n = self.inner.swept(now) + stale_items(held::items(self.cache), now);
        if n > usize::MAX {
            usize::MAX as nat
        } else {
            n
        }
    }

    fn get(&mut self, addr: &IPv8Address, now: u64) -> (r: Option<Arc<Entry>>)
        ensures
            final(self).setup() == old(self).setup(),
            final(self)@ == looked_up(old(self)@, old(self).setup(), r, key_of(*addr), now),
    {
        let k: u128 = addr_key(addr);
        let ghost m = self.inner.contents();
        let ghost s = held::items(self.cache);
        proof {
            used_items(s, k);
        }
        match held::cache_get(&mut self.cache, k) {
            Some(e) => {
                self.stats.hits = self.stats.hits.wrapping_add(1);
                proof {
                    let u = held::items(self.cache);
                    assert forall|a: IPv8Address| held::has_key(u, #[trigger] key_of(a)) implies m.contains_key(a) && m[a]
                        == held::value_at(u, key_of(a))@ by {
                        within_value(u, s, key_of(a));
                    }
                }
                return Some(e);
            },
            None => {},
        }
        match held::time_get(&self.negative, k) {
            Some(t) => {
                if t > now {
                    self.stats.negative_hits = self.stats.negative_hits.wrapping_add(1);
                    return None;
                }
                held::time_remove(&mut self.negative, k);
            },
            None => {
                assert(held::times(self.negative).remove(k) =~= held::times(self.negative));
            },
        }
        self.stats.misses = self.stats.misses.wrapping_add(1);
        match self.inner.get(addr, now) {
            Some(e) => {
                proof {
                    with_item_items(s, self.config.max_entries as nat, k, e);
                }
                held::cache_put(&mut self.cache, k, store::share(&e));
                proof {
                    let u = held::items(self.cache);
                    assert forall|a: IPv8Address| held::has_key(u, #[trigger] key_of(a)) implies m.contains_key(a) && m[a]
                        == held::value_at(u, key_of(a))@ by {
                        put_agrees(s, u, k, e, *addr, a, m);
                    }
                }
                Some(e)
            },
            None => {
                let ghost before = held::times(self.negative);
                held::time_put(&mut self.negative, k, now.saturating_add(self.config.negative_ttl));
                proof {
                    assert(held::times(self.negative) =~= old(self)@.absent.insert(
                        k,
                        held::times(self.negative)[k],
                    ));
                    assert forall|a: IPv8Address| held::times(self.negative).contains_key(
                        #[trigger] key_of(a),
                    ) implies !m.contains_key(a) by {
                        if key_of(a) == k {
                            key_is_injective(a, *addr);
                        } else {
                            assert(before.contains_key(key_of(a)));
                        }
                    }
                }
                None
            },
        }
    }

    fn insert(&mut self, addr: IPv8Address, e: Entry)
        ensures
            final(self).setup() == old(self).setup(),
            exists|x: Arc<Entry>|
                x@ == e@ && #[trigger] held::with_item(
                    old(self)@.items,
                    old(self).setup().max_entries as nat,
                    key_of(addr),
                    x,
                ) == final(self)@.items,
            final(self)@.absent == old(self)@.absent.remove(key_of(addr)),
            final(self)@.stats == (CacheStats { writes: next(old(self)@.stats.writes), ..old(self)@.stats }),
    {
        let k: u128 = addr_key(&addr);
        let ghost m0 = self.inner.contents();
        let ghost s = held::items(self.cache);
        self.inner.insert(addr, e.copy());
        let ghost m = self.inner.contents();
        self.stats.writes = self.stats.writes.wrapping_add(1);
        let x = Arc::new(e);
        proof {
            with_item_items(s, self.config.max_entries as nat, k, x);
        }
        let ghost y = x;
        held::cache_put(&mut self.cache, k, x);
        held::time_remove(&mut self.negative, k);
        proof {
            let u = held::items(self.cache);
            assert(y@ == e@);
            assert(held::with_item(old(self)@.items, old(self).setup().max_entries as nat, key_of(addr), y)
                == self@.items);
            assert forall|a: IPv8Address| held::has_key(u, #[trigger] key_of(a)) implies m.contains_key(a) && m[a]
                == held::value_at(u, key_of(a))@ by {
                if key_of(a) == k {
                    key_is_injective(a, addr);
                    value_is(u, 0);
                } else {
                    rest_agrees(s, u, k, key_of(a));
                }
            }
            assert forall|a: IPv8Address| held::times(self.negative).contains_key(#[trigger] key_of(a)) implies !m.contains_key(
                a,
            ) by {
                assert(key_of(a) != k);
                assert(a != addr);
                assert(!m0.contains_key(a));
            }
        }
    }

    fn sweep_expired(&mut self, now: u64) -> (n: usize)
        ensures
            final(self).setup() == old(self).setup(),
            final(self)@.items == unexpired(old(self)@.items, now),
            final(self)@.absent == old(self)@.absent.restrict(
                Set::new(|k: u128| old(self)@.absent.contains_key(k) && old(self)@.absent[k] > now),
            ),
            final(self)@.stats == old(self)@.stats,
    {
        let ghost m0 = self.inner.contents();
        let ghost s = held::items(self.cache);
        let behind: usize = self.inner.sweep_expired(now);
        let ghost m = self.inner.contents();
        let cached: usize = sweep_items(&mut self.cache, now);
        held::times_retain(&mut self.negative, now);
        proof {
            let u = held::items(self.cache);
            unexpired_items(s, now);
            assert forall|a: IPv8Address| held::has_key(u, #[trigger] key_of(a)) implies m.contains_key(a) && m[a]
                == held::value_at(u, key_of(a))@ by {
                within_value(u, s, key_of(a));
                let i = choose|i: int| 0 <= i < u.len() && (#[trigger] u[i]).0 == key_of(a);
                value_is(u, i);
                assert(m0.contains_key(a));
            }
        }
        behind.saturating_add(cached)
    }

    fn len(&self) -> (n: usize) {
        self.inner.len()
    }
}

/// Takes out the items that have gone stale, and counts them.
fn sweep_items(cache: &mut LruCache<u128, Arc<Entry>>, now: u64) -> (n: usize)
    requires
        distinct(held::items(*old(cache))),
    ensures
        held::limit(*final(cache)) == held::limit(*old(cache)),
        held::items(*final(cache)) == unexpired(held::items(*old(cache)), now),
        n == stale_items(held::items(*old(cache)), now),
{
    let list = held::cache_items(cache);
    let ghost s = held::items(*cache);
    let mut n: usize = 0;
    let mut i: usize = 0;
    proof {
        assert(unexpired(s.subrange(0, 0), now) + s.subrange(0, s.len() as int) =~= s);
    }
    while i < list.len()
        invariant
            i <= list.len(),
            list@ == s,
            distinct(s),
            held::limit(*cache) == held::limit(*old(cache)),
            held::items(*cache) == unexpired(s.subrange(0, i as int), now) + s.subrange(i as int, s.len() as int),
            n <= i,
            n == i - unexpired(s.subrange(0, i as int), now).len(),
        decreases list.len() - i,
    {
        proof {
            sweep_step(s, i as int, now);
            assert(s.subrange(0, i + 1).drop_last() =~= s.subrange(0, i as int));
        }
        if list[i].1.rec.is_expired(now) {
            held::cache_pop(cache, list[i].0);
            n = n + 1;
        }
        i = i + 1;
    }
    proof {
        assert(s.subrange(0, i as int) =~= s);
        assert(unexpired(s, now) + s.subrange(i as int, s.len() as int) =~= unexpired(s, now));
    }
    n
}

/// After an entry was put in, the cache agrees with the store on every
/// address.
proof fn put_agrees(
    s: Seq<(u128, Arc<Entry>)>,
    u: Seq<(u128, Arc<Entry>)>,
    k: u128,
    e: Arc<Entry>,
    addr: IPv8Address,
    a: IPv8Address,
    m: Map<IPv8Address, record::EntryView>,
)
    requires
        distinct(s),
        distinct(u),
        k == key_of(addr),
        u.len() > 0,
        u[0] == (k, e),
        forall|i: int| 0 < i < u.len() ==> s.contains(#[trigger] u[i]) && u[i].0 != k,
        m.contains_key(addr) && m[addr] == e@,
        forall|b: IPv8Address|
            held::has_key(s, #[trigger] key_of(b)) ==> m.contains_key(b) && m[b] == held::value_at(s, key_of(b))@,
        held::has_key(u, key_of(a)),
    ensures
        m.contains_key(a) && m[a] == held::value_at(u, key_of(a))@,
{
    if key_of(a) == k {
        key_is_injective(a, addr);
        value_is(u, 0);
    } else {
        rest_agrees(s, u, k, key_of(a));
    }
}

/// Putting an item in changes nothing under other keys, but that they may go.
proof fn rest_agrees(s: Seq<(u128, Arc<Entry>)>, u: Seq<(u128, Arc<Entry>)>, k: u128, j: u128)
    requires
        distinct(s),
        distinct(u),
        u.len() > 0,
        u[0].0 == k,
        j != k,
        forall|i: int| 0 < i < u.len() ==> s.contains(#[trigger] u[i]) && u[i].0 != k,
        held::has_key(u, j),
    ensures
        held::has_key(s, j),
        held::value_at(s, j) == held::value_at(u, j),
{
    let i = choose|i: int| 0 <= i < u.len() && (#[trigger] u[i]).0 == j;
    value_is(u, i);
    assert(s.contains(u[i]));
    let x = choose|x: int| 0 <= x < s.len() && s[x] == u[i];
    value_is(s, x);
}

/// A full cache makes room for a new entry by dropping the one that has not
/// been used for the longest time.
pub proof fn full_cache_drops_the_oldest(s: Seq<(u128, Arc<Entry>)>, n: nat, k: u128, v: Arc<Entry>)
    requires
        0 < n,
        s.len() == n,
        !held::has_key(s, k),
    ensures
        held::with_item(s, n, k, v) == seq![(k, v)] + s.drop_last(),
{
    without_none(s, k);
}

/// An entry that was used comes first, and the others keep their order.
pub proof fn used_entry_comes_first(s: Seq<(u128, Arc<Entry>)>, k: u128)
    requires
        distinct(s),
        held::has_key(s, k),
    ensures
        held::used(s, k)[0] == (k, held::value_at(s, k)),
        held::used(s, k).len() == s.len(),
{
    without_items(s, k);
    let i = choose|i: int| 0 <= i < s.len() && (#[trigger] s[i]).0 == k;
    one_less(s, i);
}

/// One item has the key that is taken out.
proof fn one_less(s: Seq<(u128, Arc<Entry>)>, i: int)
    requires
        distinct(s),
        0 <= i < s.len(),
    ensures
        held::without(s, s[i].0).len() == s.len() - 1,
    decreases s.len(),
{
    let f = s.drop_last();
    let k = s[i].0;
    if i < f.len() {
        one_less(f, i);
        assert(s[i].0 != s[s.len() - 1].0);
    } else {
        assert forall|j: int| 0 <= j < f.len() implies (#[trigger] f[j]).0 != k by {
            assert(s[j].0 != s[i].0);
        }
        without_none(f, k);
    }
}

/// What a look into the cache does. An entry that it has is a hit, and moves to the
/// front; one that is known to be absent, for now, is a negative hit; anything else
/// is a miss, after which the entry stands in front, or is known to be absent for
/// the configured time.
pub proof fn look_into_the_cache(c: CacheView, config: CacheConfig, found: Option<Arc<Entry>>, k: u128, now: u64)
    requires
        distinct(c.items),
        config.max_entries > 0,
        c.stats.hits < u64::MAX && c.stats.misses < u64::MAX && c.stats.negative_hits < u64::MAX,
        now + config.negative_ttl <= u64::MAX,
    ensures
        ({
            let d = looked_up(c, config, found, k, now);
            let hit = exists|i: int| 0 <= i < c.items.len() && (#[trigger] c.items[i]).0 == k;
            let known = c.absent.contains_key(k) && now < c.absent[k];
            &&& d.stats.writes == c.stats.writes
            &&& hit ==> {
                &&& d.stats.hits == c.stats.hits + 1
                &&& d.stats.misses == c.stats.misses && d.stats.negative_hits == c.stats.negative_hits
                &&& d.absent == c.absent
                &&& d.items.len() > 0 && d.items[0].0 == k
            }
            &&& !hit && known ==> {
                &&& d.stats.negative_hits == c.stats.negative_hits + 1
                &&& d.stats.hits == c.stats.hits && d.stats.misses == c.stats.misses
                &&& d.absent == c.absent
                &&& d.items == c.items
            }
            &&& !hit && !known ==> {
                &&& d.stats.misses == c.stats.misses + 1
                &&& d.stats.hits == c.stats.hits && d.stats.negative_hits == c.stats.negative_hits
                &&& found matches Some(e) ==> d.items.len() > 0 && d.items[0] == (k, e) && !d.absent.contains_key(k)
                &&& found is None ==> d.items == c.items && d.absent.contains_key(k) && d.absent[k] == now
                    + config.negative_ttl
            }
        }),
{
}

/// An entry that is looked for again is found in the cache, whatever is behind it.
pub proof fn found_entry_is_cached(c: CacheView, config: CacheConfig, e: Arc<Entry>, k: u128, now: u64)
    requires
        distinct(c.items),
        config.max_entries > 0,
        !held::has_key(c.items, k),
        !(c.absent.contains_key(k) && now < c.absent[k]),
    ensures
        ({
            let d = looked_up(c, config, Some(e), k, now);
            &&& held::has_key(d.items, k)
            &&& held::value_at(d.items, k) == e
        }),
{
    let d = looked_up(c, config, Some(e), k, now);
    with_item_items(c.items, config.max_entries as nat, k, e);
    value_is(d.items, 0);
}

/// A sweep takes the expired entries out of the cache, and no others.
pub proof fn swept_cache(s: Seq<(u128, Arc<Entry>)>, now: u64, x: (u128, Arc<Entry>))
    ensures
        unexpired(s, now).contains(x) <==> s.contains(x) && !x.1@.rec.expired(now),
    decreases s.len(),
{
    if s.len() > 0 {
        let f = s.drop_last();
        swept_cache(f, now, x);
        let u = unexpired(f, now);
        let r = unexpired(s, now);
        if r.contains(x) {
            let i = choose|i: int| 0 <= i < r.len() && r[i] == x;
            if i < u.len() {
                assert(u[i] == x);
                let j = choose|j: int| 0 <= j < f.len() && f[j] == x;
                assert(s[j] == x);
            } else {
                assert(s[s.len() - 1] == x);
            }
        }
        if s.contains(x) && !x.1@.rec.expired(now) {
            let j = choose|j: int| 0 <= j < s.len() && s[j] == x;
            if j < f.len() {
                assert(f[j] == x);
                let i = choose|i: int| 0 <= i < u.len() && u[i] == x;
                assert(r[i] == x);
            } else {
                assert(r[u.len() as int] == x);
            }
        }
    }
}

} // verus!
