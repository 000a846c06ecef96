//! The response cache: the most recently used responses, by address, kept in
//! an `lru::LruCache`. A capacity of zero disables caching.
use vstd::prelude::*;

use lru::LruCache;

use crate::ip::{ip_key, IpAddress};
use crate::response::{Response, ResponseView};

verus! {

/// `lru::LruCache`, whose contents Verus does not see: they are named by
/// `lru_entries` and `lru_cap`.
#[verifier::external_type_specification]
#[verifier::external_body]
#[verifier::reject_recursive_types(K)]
#[verifier::reject_recursive_types(V)]
#[verifier::reject_recursive_types(S)]
pub struct ExLruCache<K, V, S>(LruCache<K, V, S>);

/// The hasher of `lru::LruCache`, which its default type parameter names.
#[verifier::external_type_specification]
#[verifier::external_body]
pub struct ExDefaultHasher(lru::DefaultHasher);

/// A cache key: the family and numeric value of an address.
pub type Key = (u8, u128);

/// A cache entry by its view.
pub type Entry = (Key, ResponseView);

/// Names the entries of an LRU cache, least recently used first.
pub uninterp spec fn lru_entries(c: LruCache<Key, Response>) -> Seq<Entry>;

/// Names the capacity an LRU cache was made with or last resized to.
pub uninterp spec fn lru_cap(c: LruCache<Key, Response>) -> nat;

/// `k` is the key of some entry.
pub open spec fn has_key(es: Seq<Entry>, k: Key) -> bool {
    exists|i: int| 0 <= i < es.len() && es[i].0 == k
}

/// The position of the entry with key `k` (meaningful when `has_key(es, k)`).
pub open spec fn key_index(es: Seq<Entry>, k: Key) -> int {
    choose|i: int| 0 <= i < es.len() && es[i].0 == k
}

/// No two entries share a key.
pub open spec fn distinct_keys(es: Seq<Entry>) -> bool {
    forall|i: int, j: int| 0 <= i < es.len() && 0 <= j < es.len() && i != j ==> es[i].0 != es[j].0
}

/// Entries that an LRU cache of capacity `cap` can hold.
pub open spec fn lru_wf(es: Seq<Entry>, cap: nat) -> bool {
    distinct_keys(es) && es.len() <= cap && cap >= 1
}

/// The value stored under `k`, if any.
pub open spec fn lookup(es: Seq<Entry>, k: Key) -> Option<ResponseView> {
    if has_key(es, k) {
        Some(es[key_index(es, k)].1)
    } else {
        None
    }
}

/// `LruCache::push`: the entry for `k` becomes the most recently used with
/// value `v`, replacing an entry with the same key; when the key is new and
/// the cache is full, the least recently used entry is dropped.
pub open spec fn push_entry(es: Seq<Entry>, cap: nat, k: Key, v: ResponseView) -> Seq<Entry> {
    if has_key(es, k) {
        es.remove(key_index(es, k)).push((k, v))
    } else if es.len() == cap {
        es.drop_first().push((k, v))
    } else {
        es.push((k, v))
    }
}

/// `LruCache::get`: the entry for `k`, if any, becomes the most recently used.
pub open spec fn touch(es: Seq<Entry>, k: Key) -> Seq<Entry> {
    if has_key(es, k) {
        es.remove(key_index(es, k)).push(es[key_index(es, k)])
    } else {
        es
    }
}

/// `LruCache::resize`: the `cap` most recently used entries are kept.
pub open spec fn keep_recent(es: Seq<Entry>, cap: nat) -> Seq<Entry> {
    if es.len() > cap {
        es.skip(es.len() - cap)
    } else {
        es
    }
}

/// Makes a cache with `LruCache::new`; the contract claims that it holds no
/// entry and has capacity `cap`.
#[verifier::external_body]
fn lru_new(cap: usize) -> (c: LruCache<Key, Response>)
    requires
        cap >= 1,
    ensures
        lru_entries(c) == Seq::<Entry>::empty(),
        lru_cap(c) == cap,
{
    LruCache::new(std::num::NonZeroUsize::new(cap).unwrap())
}

/// `LruCache::push`; the contract claims the effect on the entries that
/// `push_entry` describes, that the capacity stays, and that it does not
/// panic.
#[verifier::external_body]
fn lru_push(c: &mut LruCache<Key, Response>, k: Key, v: Response)
    requires
        lru_wf(lru_entries(*old(c)), lru_cap(*old(c))),
    ensures
        lru_entries(*final(c)) == push_entry(lru_entries(*old(c)), lru_cap(*old(c)), k, v@),
        lru_cap(*final(c)) == lru_cap(*old(c)),
    no_unwind
{
    c.push(k, v);
}

/// `LruCache::peek`; the contract claims that it finds something exactly when
/// there is an entry for `k`, and leaves the order of use alone (it takes the
/// cache by shared reference).
#[verifier::external_body]
fn lru_peek(c: &LruCache<Key, Response>, k: Key) -> (r: bool)
    ensures
        r == has_key(lru_entries(*c), k),
{
    c.peek(&k).is_some()
}

/// `LruCache::get` followed by a clone of the value found; the contract
/// claims the value stored under `k`, the change of recency that `touch`
/// describes, and that it does not panic.
#[verifier::external_body]
fn lru_get(c: &mut LruCache<Key, Response>, k: Key) -> (r: Option<Response>)
    requires
        lru_wf(lru_entries(*old(c)), lru_cap(*old(c))),
    ensures
        crate::geo::opt_view(r) == lookup(lru_entries(*old(c)), k),
        lru_entries(*final(c)) == touch(lru_entries(*old(c)), k),
        lru_cap(*final(c)) == lru_cap(*old(c)),
    no_unwind
{
    c.get(&k).cloned()
}

/// `LruCache::len`; the contract claims that it is the number of entries.
#[verifier::external_body]
fn lru_len(c: &LruCache<Key, Response>) -> (r: usize)
    ensures
        r == lru_entries(*c).len(),
{
    c.len()
}

/// `LruCache::resize` to capacity `cap`, which keeps the most recently used
/// entries that fit and does not panic.
#[verifier::external_body]
fn lru_resize(c: &mut LruCache<Key, Response>, cap: usize)
    requires
        cap >= 1,
        lru_wf(lru_entries(*old(c)), lru_cap(*old(c))),
    ensures
        lru_entries(*final(c)) == keep_recent(lru_entries(*old(c)), cap as nat),
        lru_cap(*final(c)) == cap,
    no_unwind
{
    c.resize(std::num::NonZeroUsize::new(cap).unwrap());
}

/// `LruCache::clear`, which keeps the capacity and does not panic.
#[verifier::external_body]
fn lru_clear(c: &mut LruCache<Key, Response>)
    ensures
        lru_entries(*final(c)) == Seq::<Entry>::empty(),
        lru_cap(*final(c)) == lru_cap(*old(c)),
    no_unwind
{
    c.clear();
}

/// `LruCache::cap`; the contract claims that it is the capacity the cache was
/// made with or last resized to.
#[verifier::external_body]
fn lru_capacity(c: &LruCache<Key, Response>) -> (r: usize)
    ensures
        r == lru_cap(*c),
{
    c.cap().get()
}

/// The numbers the debug handler reports about the cache.
#[derive(Debug, Clone, Copy, PartialEq)]
pub struct CacheStats {
    pub size: usize,
    pub capacity: usize,
    pub evictions: u64,
}

/// The response cache.
pub struct Cache {
    inner: LruCache<Key, Response>,
    disabled: bool,
    evictions: u64,
}

impl Cache {
    /// The entries fit the capacity and have distinct keys, and a disabled
    /// cache holds nothing.
    #[verifier::type_invariant]
    spec fn consistent(self) -> bool {
        &&& lru_wf(lru_entries(self.inner), lru_cap(self.inner))
        &&& self.disabled ==> lru_entries(self.inner).len() == 0
    }

    /// The entries, least recently used first.
    pub closed spec fn entries(&self) -> Seq<Entry> {
        lru_entries(self.inner)
    }

    /// The capacity; zero when caching is disabled.
    pub closed spec fn cap(&self) -> nat {
        if self.disabled {
            0
        } else {
            lru_cap(self.inner)
        }
    }

    /// How many responses were dropped to make room since the last resize.
    pub closed spec fn eviction_count(&self) -> nat {
        self.evictions as nat
    }

    /// An empty cache of the given capacity; zero disables caching.
    pub fn new(capacity: usize) -> (r: Cache)
        ensures
            r.entries() == Seq::<Entry>::empty(),
            r.cap() == capacity,
            r.eviction_count() == 0,
    {
        let disabled = capacity == 0;
        let cap = if disabled { 1 } else { capacity };
        Cache { inner: lru_new(cap), disabled, evictions: 0 }
    }

    /// Stores the response for `ip` as the most recently used one. When the
    /// cache is full and `ip` is new, the least recently used response is
    /// dropped and counted as an eviction. Nothing happens when caching is
    /// disabled.
    pub fn set(&mut self, ip: IpAddress, response: Response)
        requires
            old(self).eviction_count() < u64::MAX,
        ensures
            final(self).cap() == old(self).cap(),
            old(self).cap() == 0 ==> final(self).entries() == old(self).entries()
                && final(self).eviction_count() == old(self).eviction_count(),
            old(self).cap() > 0 ==> final(self).entries() == push_entry(
                old(self).entries(),
                old(self).cap(),
                ip_key(ip),
                response@,
            ),
            old(self).cap() > 0 ==> final(self).eviction_count() == old(self).eviction_count() + if old(
                self,
            ).entries().len() == old(self).cap() && !has_key(old(self).entries(), ip_key(ip)) {
                1nat
            } else {
                0nat
            },
    {
        proof {
            use_type_invariant(&*self);
        }
        if self.disabled {
            return;
        }
        let key = ip.key();
        if lru_len(&self.inner) == lru_capacity(&self.inner) && !lru_peek(&self.inner, key) {
            self.evictions = self.evictions + 1;
        }
        proof {
            lemma_push_wf(lru_entries(self.inner), lru_cap(self.inner), key, response@);
        }
        lru_push(&mut self.inner, key, response);
    }

    /// The stored response for `ip`, which becomes the most recently used.
    pub fn get(&mut self, ip: IpAddress) -> (r: Option<Response>)
        ensures
            crate::geo::opt_view(r) == lookup(old(self).entries(), ip_key(ip)),
            final(self).entries() == touch(old(self).entries(), ip_key(ip)),
            final(self).cap() == old(self).cap(),
            final(self).eviction_count() == old(self).eviction_count(),
    {
        proof {
            use_type_invariant(&*self);
        }
        let key = ip.key();
        proof {
            lemma_touch_wf(lru_entries(self.inner), lru_cap(self.inner), key);
            if self.disabled {
                assert(touch(lru_entries(self.inner), key) == lru_entries(self.inner));
            }
        }
        lru_get(&mut self.inner, key)
    }

    /// Changes the capacity, keeping the most recently used responses that
    /// fit, and restarts the eviction count. A capacity of zero is taken as
    /// one, and a resized cache always caches.
    pub fn resize(&mut self, capacity: usize)
        ensures
            final(self).cap() == if capacity == 0 { 1 } else { capacity as nat },
            final(self).eviction_count() == 0,
            final(self).entries() == keep_recent(
                old(self).entries(),
                if capacity == 0 { 1 } else { capacity as nat },
            ),
    {
        proof {
            use_type_invariant(&*self);
        }
        let cap = if capacity == 0 { 1 } else { capacity };
        proof {
            lemma_keep_recent_wf(lru_entries(self.inner), lru_cap(self.inner), cap as nat);
        }
        self.disabled = false;
        lru_resize(&mut self.inner, cap);
        self.evictions = 0;
    }

    /// States what every cache keeps: its entries have distinct addresses and
    /// are no more than its capacity, which is at least one unless caching is
    /// disabled.
    pub fn check_consistent(&self)
        ensures
            distinct_keys(self.entries()),
            self.entries().len() <= self.cap(),
            self.cap() > 0 ==> lru_wf(self.entries(), self.cap()),
    {
        proof {
            use_type_invariant(self);
        }
    }

    /// The capacity; zero when caching is disabled.
    pub fn capacity(&self) -> (r: usize)
        ensures
            r == self.cap(),
    {
        if self.disabled {
            0
        } else {
            lru_capacity(&self.inner)
        }
    }

    /// Drops every response.
    pub fn clear(&mut self)
        ensures
            final(self).entries() == Seq::<Entry>::empty(),
            final(self).cap() == old(self).cap(),
            final(self).eviction_count() == old(self).eviction_count(),
    {
        proof {
            use_type_invariant(&*self);
        }
        lru_clear(&mut self.inner);
    }

    /// The number of responses, the capacity and the eviction count.
    pub fn stats(&self) -> (r: CacheStats)
        ensures
            r.size == self.entries().len(),
            r.capacity == self.cap(),
            r.evictions == self.eviction_count(),
    {
        CacheStats { size: lru_len(&self.inner), capacity: self.capacity(), evictions: self.evictions }
    }
}

proof fn lemma_remove_distinct(es: Seq<Entry>, i: int)
    requires
        distinct_keys(es),
        0 <= i < es.len(),
    ensures
        distinct_keys(es.remove(i)),
        forall|k: Key| has_key(es.remove(i), k) <==> (has_key(es, k) && k != es[i].0),
{
    let r = es.remove(i);
    assert forall|a: int, b: int| 0 <= a < r.len() && 0 <= b < r.len() && a != b implies r[a].0
        != r[b].0 by {
        let a2 = if a < i { a } else { a + 1 };
        let b2 = if b < i { b } else { b + 1 };
        assert(r[a] == es[a2]);
        assert(r[b] == es[b2]);
    }
    assert forall|k: Key| has_key(r, k) <==> (has_key(es, k) && k != es[i].0) by {
        if has_key(r, k) {
            let a = choose|a: int| 0 <= a < r.len() && r[a].0 == k;
            let a2 = if a < i { a } else { a + 1 };
            assert(r[a] == es[a2]);
        }
        if has_key(es, k) && k != es[i].0 {
            let a = choose|a: int| 0 <= a < es.len() && es[a].0 == k;
            if a < i {
                assert(r[a] == es[a]);
            } else {
                assert(a != i);
                assert(r[a - 1] == es[a]);
            }
        }
    }
}

proof fn lemma_push_new_distinct(es: Seq<Entry>, k: Key, v: ResponseView)
    requires
        distinct_keys(es),
        !has_key(es, k),
    ensures
        distinct_keys(es.push((k, v))),
        forall|k2: Key| has_key(es.push((k, v)), k2) <==> (has_key(es, k2) || k2 == k),
{
    let r = es.push((k, v));
    assert(r[r.len() - 1].0 == k);
    assert forall|k2: Key| has_key(r, k2) <==> (has_key(es, k2) || k2 == k) by {
        if has_key(es, k2) {
            let a = choose|a: int| 0 <= a < es.len() && es[a].0 == k2;
            assert(r[a] == es[a]);
        }
        if has_key(r, k2) {
            let a = choose|a: int| 0 <= a < r.len() && r[a].0 == k2;
            if a < es.len() {
                assert(r[a] == es[a]);
            }
        }
    }
    assert forall|a: int, b: int| 0 <= a < r.len() && 0 <= b < r.len() && a != b implies r[a].0
        != r[b].0 by {
        if a < es.len() && b < es.len() {
            assert(r[a] == es[a]);
            assert(r[b] == es[b]);
        } else if a < es.len() {
            assert(r[a] == es[a]);
        } else if b < es.len() {
            assert(r[b] == es[b]);
        }
    }
}

proof fn lemma_drop_first_distinct(es: Seq<Entry>)
    requires
        distinct_keys(es),
        es.len() > 0,
    ensures
        distinct_keys(es.drop_first()),
        forall|k: Key| has_key(es.drop_first(), k) <==> (has_key(es, k) && k != es[0].0),
{
    lemma_remove_distinct(es, 0);
    assert(es.remove(0) =~= es.drop_first());
}

/// Pushing keeps the entries distinct and within the capacity.
pub proof fn lemma_push_wf(es: Seq<Entry>, cap: nat, k: Key, v: ResponseView)
    requires
        lru_wf(es, cap),
    ensures
        lru_wf(push_entry(es, cap, k, v), cap),
        has_key(push_entry(es, cap, k, v), k),
{
    if has_key(es, k) {
        let i = key_index(es, k);
        lemma_remove_distinct(es, i);
        lemma_push_new_distinct(es.remove(i), k, v);
    } else if es.len() == cap {
        lemma_drop_first_distinct(es);
        lemma_push_new_distinct(es.drop_first(), k, v);
    } else {
        lemma_push_new_distinct(es, k, v);
    }
}

/// Touching keeps the entries distinct and within the capacity.
pub proof fn lemma_touch_wf(es: Seq<Entry>, cap: nat, k: Key)
    requires
        lru_wf(es, cap),
    ensures
        lru_wf(touch(es, k), cap),
{
    if has_key(es, k) {
        let i = key_index(es, k);
        lemma_remove_distinct(es, i);
        lemma_push_new_distinct(es.remove(i), k, es[i].1);
        assert(es[i] == (k, es[i].1));
    }
}

/// Keeping the most recent entries keeps them distinct and within a new capacity.
pub proof fn lemma_keep_recent_wf(es: Seq<Entry>, cap: nat, new_cap: nat)
    requires
        lru_wf(es, cap),
        new_cap >= 1,
    ensures
        lru_wf(keep_recent(es, new_cap), new_cap),
{
    if es.len() > new_cap {
        let r = es.skip(es.len() - new_cap);
        assert forall|a: int, b: int| 0 <= a < r.len() && 0 <= b < r.len() && a != b implies r[a].0
            != r[b].0 by {
            assert(r[a] == es[a + es.len() - new_cap]);
            assert(r[b] == es[b + es.len() - new_cap]);
        }
    }
}

pub proof fn lemma_last_lookup(es: Seq<Entry>, k: Key, v: ResponseView)
    requires
        distinct_keys(es.push((k, v))),
    ensures
        lookup(es.push((k, v)), k) == Some(v),
{
    let r = es.push((k, v));
    assert(r[r.len() - 1].0 == k);
    let i = key_index(r, k);
    assert(i == r.len() - 1);
}

/// A response stored for an address is what a lookup of that address then
/// finds.
pub proof fn law_get_after_set(es: Seq<Entry>, cap: nat, k: Key, v: ResponseView)
    requires
        lru_wf(es, cap),
    ensures
        lookup(push_entry(es, cap, k, v), k) == Some(v),
{
    lemma_push_wf(es, cap, k, v);
    if has_key(es, k) {
        lemma_last_lookup(es.remove(key_index(es, k)), k, v);
    } else if es.len() == cap {
        lemma_last_lookup(es.drop_first(), k, v);
    } else {
        lemma_last_lookup(es, k, v);
    }
}

/// A lookup of a cached address keeps the number of entries and what is
/// stored for it.
pub proof fn lemma_touch_keeps(es: Seq<Entry>, cap: nat, k: Key)
    requires
        lru_wf(es, cap),
        has_key(es, k),
    ensures
        touch(es, k).len() == es.len(),
        lookup(touch(es, k), k) == lookup(es, k),
{
    let i = key_index(es, k);
    lemma_touch_wf(es, cap, k);
    lemma_remove_distinct(es, i);
    lemma_last_lookup(es.remove(i), k, es[i].1);
}

/// Storing a response never lets the cache hold more responses than its
/// capacity, nor two responses for one address.
pub proof fn law_set_within_capacity(es: Seq<Entry>, cap: nat, k: Key, v: ResponseView)
    requires
        lru_wf(es, cap),
    ensures
        lru_wf(push_entry(es, cap, k, v), cap),
{
    lemma_push_wf(es, cap, k, v);
}

/// Storing a response for an address that is already cached replaces it and
/// leaves the number of responses unchanged.
pub proof fn law_same_address_keeps_size(es: Seq<Entry>, cap: nat, k: Key, v: ResponseView)
    requires
        lru_wf(es, cap),
        has_key(es, k),
    ensures
        push_entry(es, cap, k, v).len() == es.len(),
{
}

/// When a full cache stores a new address, exactly the least recently used
/// response is dropped: its address is no longer cached and every other
/// address still is.
pub proof fn law_evicts_least_recent(es: Seq<Entry>, cap: nat, k: Key, v: ResponseView)
    requires
        lru_wf(es, cap),
        es.len() == cap,
        !has_key(es, k),
    ensures
        !has_key(push_entry(es, cap, k, v), es[0].0),
        forall|j: int| 1 <= j < es.len() ==> has_key(push_entry(es, cap, k, v), #[trigger] es[j].0),
{
    lemma_drop_first_distinct(es);
    lemma_push_new_distinct(es.drop_first(), k, v);
    assert(es[0].0 != k) by {
        assert(!has_key(es, k));
    }
    assert forall|j: int| 1 <= j < es.len() implies has_key(push_entry(es, cap, k, v), #[trigger] es[j].0) by {
        assert(es.drop_first()[j - 1] == es[j]);
        assert(has_key(es.drop_first(), es[j].0));
    }
}

/// A lookup protects an address from the next eviction: after it is looked
/// up, storing a different address in a cache of capacity two or more keeps it.
pub proof fn law_get_protects_from_eviction(es: Seq<Entry>, cap: nat, k: Key, k2: Key, v: ResponseView)
    requires
        lru_wf(es, cap),
        cap >= 2,
        has_key(es, k),
        k2 != k,
    ensures
        has_key(push_entry(touch(es, k), cap, k2, v), k),
{
    let t = touch(es, k);
    let i = key_index(es, k);
    lemma_touch_wf(es, cap, k);
    lemma_remove_distinct(es, i);
    assert(t[t.len() - 1].0 == k);
    if has_key(t, k2) {
        let j = key_index(t, k2);
        lemma_remove_distinct(t, j);
        assert(j != t.len() - 1);
        let p = t.remove(j).push((k2, v));
        assert(p[t.len() - 2] == t[t.len() - 1]);
        assert(push_entry(t, cap, k2, v) == p);
        assert(has_key(p, k));
    } else if t.len() == cap {
        let p = t.drop_first().push((k2, v));
        assert(p[t.len() - 2] == t[t.len() - 1]);
        assert(push_entry(t, cap, k2, v) == p);
        assert(has_key(p, k));
    } else {
        let p = t.push((k2, v));
        assert(p[t.len() - 1] == t[t.len() - 1]);
        assert(push_entry(t, cap, k2, v) == p);
        assert(has_key(p, k));
    }
}

/// The entries and the number of evictions after storing `vs[i]` under
/// `ks[i]` for each `i` in order, from the entries `es`, in a cache of
/// capacity `cap`, as `Cache::set` does it.
pub open spec fn set_run(es: Seq<Entry>, cap: nat, ks: Seq<Key>, vs: Seq<ResponseView>) -> (Seq<Entry>, nat)
    decreases ks.len(),
{
    if ks.len() == 0 {
        (es, 0)
    } else {
        let prev = set_run(es, cap, ks.drop_last(), vs);
        let k = ks.last();
        (
            push_entry(prev.0, cap, k, vs[ks.len() - 1]),
            prev.1 + if prev.0.len() == cap && !has_key(prev.0, k) {
                1nat
            } else {
                0nat
            },
        )
    }
}

/// The keys of entries, in order.
pub open spec fn keys_of(es: Seq<Entry>) -> Seq<Key> {
    es.map_values(|e: Entry| e.0)
}

/// No key occurs twice in `ks`.
pub open spec fn distinct(ks: Seq<Key>) -> bool {
    forall|i: int, j: int| 0 <= i < j < ks.len() ==> ks[i] != ks[j]
}

proof fn lemma_has_key_keys(es: Seq<Entry>, k: Key)
    ensures
        has_key(es, k) <==> keys_of(es).contains(k),
{
    if has_key(es, k) {
        let i = choose|i: int| 0 <= i < es.len() && es[i].0 == k;
        assert(keys_of(es)[i] == k);
    }
    if keys_of(es).contains(k) {
        let i = choose|i: int| 0 <= i < keys_of(es).len() && keys_of(es)[i] == k;
        assert(es[i].0 == k);
    }
}

proof fn lemma_distinct_run(cap: nat, ks: Seq<Key>, vs: Seq<ResponseView>)
    requires
        cap >= 1,
        distinct(ks),
    ensures
        keys_of(set_run(Seq::empty(), cap, ks, vs).0) == ks.subrange(
            if ks.len() > cap { ks.len() - cap } else { 0 },
            ks.len() as int,
        ),
        set_run(Seq::empty(), cap, ks, vs).1 == if ks.len() > cap { (ks.len() - cap) as nat } else { 0nat },
    decreases ks.len(),
{
    if ks.len() > 0 {
        let p = ks.drop_last();
        let k = ks.last();
        assert(distinct(p));
        lemma_distinct_run(cap, p, vs);
        let prev = set_run(Seq::empty(), cap, p, vs);
        let lo = if p.len() > cap { p.len() - cap } else { 0 };
        assert(keys_of(prev.0) == p.subrange(lo, p.len() as int));
        lemma_has_key_keys(prev.0, k);
        assert(!keys_of(prev.0).contains(k)) by {
            if keys_of(prev.0).contains(k) {
                let i = choose|i: int| 0 <= i < keys_of(prev.0).len() && keys_of(prev.0)[i] == k;
                assert(ks[lo + i] == k);
                assert(ks[lo + i] == ks[ks.len() - 1]);
            }
        }
        let v = vs[ks.len() - 1];
        assert(keys_of(prev.0).len() == prev.0.len());
        assert forall|i: int| 0 <= i < prev.0.len() implies #[trigger] prev.0[i].0 == ks[lo + i] by {
            assert(keys_of(prev.0)[i] == prev.0[i].0);
        }
        if prev.0.len() == cap {
            let n = prev.0.drop_first().push((k, v));
            assert forall|i: int| 0 <= i < n.len() implies #[trigger] keys_of(n)[i] == ks.subrange(
                ks.len() - cap,
                ks.len() as int,
            )[i] by {
                if i < n.len() - 1 {
                    assert(n[i] == prev.0[i + 1]);
                }
            }
            assert(keys_of(n) =~= ks.subrange(ks.len() - cap, ks.len() as int));
        } else {
            let n = prev.0.push((k, v));
            assert forall|i: int| 0 <= i < n.len() implies #[trigger] keys_of(n)[i] == ks.subrange(
                0,
                ks.len() as int,
            )[i] by {
                if i < n.len() - 1 {
                    assert(n[i] == prev.0[i]);
                }
            }
            assert(keys_of(n) =~= ks.subrange(0, ks.len() as int));
        }
    }
}

/// Storing responses for distinct addresses, one after another, in an empty
/// cache of capacity `cap`: it then holds as many as fit, the number of
/// evictions is the number that did not fit, the last address stored is
/// cached and, when some were dropped, the first one is not.
pub proof fn law_distinct_run(cap: nat, ks: Seq<Key>, vs: Seq<ResponseView>)
    requires
        cap >= 1,
        distinct(ks),
    ensures
        set_run(Seq::empty(), cap, ks, vs).0.len() == if ks.len() > cap { cap } else { ks.len() },
        set_run(Seq::empty(), cap, ks, vs).1 == if ks.len() > cap { (ks.len() - cap) as nat } else { 0nat },
        ks.len() > 0 ==> has_key(set_run(Seq::empty(), cap, ks, vs).0, ks.last()),
        ks.len() > cap ==> !has_key(set_run(Seq::empty(), cap, ks, vs).0, ks[0]),
{
    lemma_distinct_run(cap, ks, vs);
    let r = set_run(Seq::empty(), cap, ks, vs).0;
    let lo = if ks.len() > cap { ks.len() - cap } else { 0 };
    assert(keys_of(r).len() == r.len());
    lemma_has_key_keys(r, ks.last());
    lemma_has_key_keys(r, ks[0]);
    if ks.len() > 0 {
        assert(keys_of(r)[keys_of(r).len() - 1] == ks.last());
    }
    if ks.len() > cap {
        assert(!keys_of(r).contains(ks[0])) by {
            if keys_of(r).contains(ks[0]) {
                let i = choose|i: int| 0 <= i < keys_of(r).len() && keys_of(r)[i] == ks[0];
                assert(ks[lo + i] == ks[0]);
            }
        }
    }
}

} // verus!
