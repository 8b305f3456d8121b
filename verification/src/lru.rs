//! A least-recently-used cache of tile embeddings, keyed by tile content.
//!
//! Every entry carries the logical time of its last access and its byte cost; a
//! put evicts least-recently-used entries until both the byte budget and the
//! entry cap are met. The stored values are opaque to the cache.
use vstd::prelude::*;

use crate::encoder::TileKey;

verus! {

/// Sizing/eviction policy for [`LruCore`].
#[derive(Clone, Copy, Debug, PartialEq, Eq, Structural)]
pub struct CacheConfig {
    /// Soft memory budget in bytes.
    pub max_bytes: usize,
    /// Hard cap on entry count.
    pub max_entries: usize,
}

impl Default for CacheConfig {
    /// About 100 MiB and 100 000 entries.
    fn default() -> (r: Self)
        ensures
            r == (CacheConfig { max_bytes: 104_857_600usize, max_entries: 100_000usize }),
    {
        CacheConfig { max_bytes: 100 * 1024 * 1024, max_entries: 100_000 }
    }
}

/// One stored entry: the value, its last-access tick and its byte cost.
pub struct Entry<V> {
    pub key: TileKey,
    pub value: V,
    pub last_access: u64,
    pub bytes: usize,
}

/// Content of a key.
pub open spec fn key_of<V>(e: Entry<V>) -> Seq<u8> {
    e.key.0@
}

/// Index of the entry stored under `k` (searching from the back), or -1.
pub open spec fn find_index<V>(es: Seq<Entry<V>>, k: Seq<u8>) -> int
    decreases es.len(),
{
    if es.len() == 0 {
        -1
    } else if key_of(es.last()) == k {
        es.len() - 1
    } else {
        find_index(es.drop_last(), k)
    }
}

/// Total byte cost of the entries.
pub open spec fn total_bytes<V>(es: Seq<Entry<V>>) -> nat
    decreases es.len(),
{
    if es.len() == 0 {
        0
    } else {
        total_bytes(es.drop_last()) + es.last().bytes as nat
    }
}

/// Whether a set of entries exceeds the byte budget or the entry cap.
pub open spec fn over_budget<V>(es: Seq<Entry<V>>, cfg: CacheConfig) -> bool {
    total_bytes(es) > cfg.max_bytes || es.len() > cfg.max_entries
}

/// Index of the least recently used entry (the first one with the smallest tick).
pub open spec fn lru_index<V>(es: Seq<Entry<V>>) -> int
    decreases es.len(),
{
    if es.len() <= 1 {
        0
    } else {
        let j = lru_index(es.drop_last());
        if es.last().last_access < es[j].last_access {
            es.len() - 1
        } else {
            j
        }
    }
}

/// Evict least recently used entries until within budget.
pub open spec fn evict<V>(es: Seq<Entry<V>>, cfg: CacheConfig) -> Seq<Entry<V>>
    decreases es.len(),
{
    if es.len() > 0 && over_budget(es, cfg) {
        proof {
            lemma_lru_index(es);
        }
        evict(es.remove(lru_index(es)), cfg)
    } else {
        es
    }
}

/// The entries without the one stored under `k`.
pub open spec fn without_key<V>(es: Seq<Entry<V>>, k: Seq<u8>) -> Seq<Entry<V>> {
    let i = find_index(es, k);
    if i >= 0 {
        es.remove(i)
    } else {
        es
    }
}

/// The entries after storing `value` under `key` at time `tick` with cost `bytes`.
pub open spec fn put_entries<V>(
    es: Seq<Entry<V>>,
    key: TileKey,
    value: V,
    tick: u64,
    bytes: usize,
    cfg: CacheConfig,
) -> Seq<Entry<V>> {
    evict(
        without_key(es, key.0@).push(Entry { key, value, last_access: tick, bytes }),
        cfg,
    )
}

/// The entries after looking up `key` at time `tick`: a stored entry under
/// `key` is stamped with `tick` (marked most recently used); nothing else
/// changes.
pub open spec fn touch<V>(es: Seq<Entry<V>>, key: TileKey, tick: u64) -> Seq<Entry<V>> {
    let i = find_index(es, key.0@);
    if i >= 0 {
        es.update(i, Entry { last_access: tick, ..es[i] })
    } else {
        es
    }
}

/// Well-formed entries: keys are distinct and no tick is later than `clock`.
pub open spec fn entries_wf<V>(es: Seq<Entry<V>>, clock: u64) -> bool {
    &&& forall|i: int, j: int|
        0 <= i < j < es.len() ==> key_of(#[trigger] es[i]) != key_of(#[trigger] es[j])
    &&& forall|i: int| 0 <= i < es.len() ==> (#[trigger] es[i]).last_access <= clock
}

/// A least-recently-used cache core.
pub struct LruCore<V> {
    config: CacheConfig,
    entries: Vec<Entry<V>>,
    clock: u64,
    bytes: usize,
}

impl<V> LruCore<V> {
    /// The stored entries.
    pub closed spec fn entries(&self) -> Seq<Entry<V>> {
        self.entries@
    }

    /// The logical clock: the tick of the latest access.
    pub closed spec fn clock(&self) -> u64 {
        self.clock
    }

    /// The policy this cache enforces.
    pub closed spec fn policy(&self) -> CacheConfig {
        self.config
    }

    /// The internal invariant: distinct keys, ticks not in the future, the byte
    /// counter equal to the entries' total cost, and both budgets met.
    pub closed spec fn wf(&self) -> bool {
        &&& entries_wf(self.entries@, self.clock)
        &&& self.bytes == total_bytes(self.entries@)
        &&& !over_budget(self.entries@, self.config)
    }
}

proof fn lemma_total_remove<V>(es: Seq<Entry<V>>, i: int)
    requires
        0 <= i < es.len(),
    ensures
        total_bytes(es.remove(i)) + es[i].bytes == total_bytes(es),
    decreases es.len(),
{
    if i < es.len() - 1 {
        lemma_total_remove(es.drop_last(), i);
        assert(es.remove(i).drop_last() == es.drop_last().remove(i));
        assert(es.remove(i).last() == es.last());
    } else {
        assert(es.remove(i) == es.drop_last());
    }
}

/// Removing an entry takes away exactly its cost.
pub proof fn lemma_total_remove_pub<V>(es: Seq<Entry<V>>, i: int)
    requires
        0 <= i < es.len(),
    ensures
        total_bytes(es.remove(i)) + es[i].bytes == total_bytes(es),
{
    lemma_total_remove(es, i);
}

/// A well-formed cache is within its byte budget.
pub proof fn lemma_wf_within_budget<V>(c: &LruCore<V>)
    requires
        c.wf(),
    ensures
        total_bytes(c.entries()) <= c.policy().max_bytes,
        c.entries().len() <= c.policy().max_entries,
{
}

/// Where the entry stored under a key is, if anywhere.
pub proof fn lemma_find_index<V>(es: Seq<Entry<V>>, k: Seq<u8>)
    ensures
        -1 <= find_index(es, k) < es.len(),
        find_index(es, k) >= 0 ==> key_of(es[find_index(es, k)]) == k,
        find_index(es, k) == -1 ==> forall|j: int| 0 <= j < es.len() ==> key_of(#[trigger] es[j]) != k,
    decreases es.len(),
{
    if es.len() > 0 {
        lemma_find_index(es.drop_last(), k);
        if key_of(es.last()) != k {
            assert forall|j: int| 0 <= j < es.len() - 1 implies es.drop_last()[j] == es[j] by {}
        }
    }
}

/// The least recently used index is in range and holds a smallest tick.
pub proof fn lemma_lru_index<V>(es: Seq<Entry<V>>)
    requires
        es.len() > 0,
    ensures
        0 <= lru_index(es) < es.len(),
        forall|j: int| 0 <= j < es.len() ==> es[lru_index(es)].last_access <= (#[trigger] es[j]).last_access,
    decreases es.len(),
{
    if es.len() > 1 {
        lemma_lru_index(es.drop_last());
        assert forall|j: int| 0 <= j < es.len() - 1 implies es.drop_last()[j] == es[j] by {}
    }
}

proof fn lemma_remove_keeps_wf<V>(es: Seq<Entry<V>>, clock: u64, i: int)
    requires
        entries_wf(es, clock),
        0 <= i < es.len(),
    ensures
        entries_wf(es.remove(i), clock),
{
    let r = es.remove(i);
    assert forall|a: int, b: int| 0 <= a < b < r.len() implies key_of(#[trigger] r[a]) != key_of(
        #[trigger] r[b],
    ) by {
        let a2 = if a < i {
            a
        } else {
            a + 1
        };
        let b2 = if b < i {
            b
        } else {
            b + 1
        };
        assert(r[a] == es[a2]);
        assert(r[b] == es[b2]);
    }
    assert forall|a: int| 0 <= a < r.len() implies (#[trigger] r[a]).last_access <= clock by {
        let a2 = if a < i {
            a
        } else {
            a + 1
        };
        assert(r[a] == es[a2]);
    }
}

proof fn lemma_without_key_wf<V>(es: Seq<Entry<V>>, clock: u64, k: Seq<u8>)
    requires
        entries_wf(es, clock),
    ensures
        entries_wf(without_key(es, k), clock),
        forall|j: int|
            0 <= j < without_key(es, k).len() ==> key_of(#[trigger] without_key(es, k)[j]) != k,
{
    lemma_find_index(es, k);
    let i0 = find_index(es, k);
    let rest = without_key(es, k);
    if i0 >= 0 {
        lemma_remove_keeps_wf(es, clock, i0);
        assert forall|j: int| 0 <= j < rest.len() implies key_of(#[trigger] rest[j]) != k by {
            let j2 = if j < i0 {
                j
            } else {
                j + 1
            };
            assert(rest[j] == es[j2]);
        }
    }
}

proof fn lemma_push_fresh_wf<V>(rest: Seq<Entry<V>>, e: Entry<V>, clock: u64)
    requires
        entries_wf(rest, clock),
        forall|j: int| 0 <= j < rest.len() ==> key_of(#[trigger] rest[j]) != key_of(e),
        e.last_access <= clock,
    ensures
        entries_wf(rest.push(e), clock),
{
    let es = rest.push(e);
    assert forall|a: int, b: int| 0 <= a < b < es.len() implies key_of(#[trigger] es[a]) != key_of(
        #[trigger] es[b],
    ) by {
        assert(es[a] == rest[a]);
        if b < es.len() - 1 {
            assert(es[b] == rest[b]);
        }
    }
    assert forall|a: int| 0 <= a < es.len() implies (#[trigger] es[a]).last_access <= clock by {
        if a < es.len() - 1 {
            assert(es[a] == rest[a]);
        }
    }
}

/// Whether two keys hold the same bytes.
pub fn keys_equal(a: &TileKey, b: &TileKey) -> (r: bool)
    ensures
        r == (a.0@ == b.0@),
{
    let mut i: usize = 0;
    while i < 32
        invariant
            i <= 32,
            a.0@.len() == 32,
            b.0@.len() == 32,
            forall|j: int| 0 <= j < i ==> a.0@[j] == b.0@[j],
        decreases 32 - i,
    {
        if a.0[i] != b.0[i] {
            return false;
        }
        i = i + 1;
    }
    proof {
        assert(a.0@ =~= b.0@);
    }
    true
}

impl<V> LruCore<V> {
    /// An empty cache enforcing `config`.
    pub fn new(config: CacheConfig) -> (r: Self)
        ensures
            r.wf(),
            r.entries() == Seq::<Entry<V>>::empty(),
            r.clock() == 0,
            r.policy() == config,
    {
        LruCore { config, entries: Vec::new(), clock: 0, bytes: 0 }
    }

    /// The policy this cache was built with.
    pub fn config(&self) -> (r: CacheConfig)
        ensures
            r == self.policy(),
    {
        self.config
    }

    /// Current number of cached entries.
    pub fn len(&self) -> (r: usize)
        ensures
            r == self.entries().len(),
    {
        self.entries.len()
    }

    /// Whether the cache holds no entries.
    pub fn is_empty(&self) -> (r: bool)
        ensures
            r == (self.entries().len() == 0),
    {
        self.entries.len() == 0
    }

    /// How many more accesses the logical clock can count.
    pub fn ticks_left(&self) -> (r: u64)
        ensures
            r == u64::MAX - self.clock(),
    {
        u64::MAX - self.clock
    }

    /// Resident size of the cache in bytes: the total cost of its entries.
    pub fn approx_bytes(&self) -> (r: usize)
        requires
            self.wf(),
        ensures
            r == total_bytes(self.entries()),
    {
        self.bytes
    }

    /// Position of the entry stored under `key`.
    fn find(&self, key: &TileKey) -> (r: Option<usize>)
        requires
            self.wf(),
        ensures
            match r {
                Some(i) => i == find_index(self.entries(), key.0@),
                None => find_index(self.entries(), key.0@) == -1,
            },
    {
        proof {
            lemma_find_index(self.entries@, key.0@);
            assert(self.entries@.subrange(0, self.entries@.len() as int) == self.entries@);
        }
        let mut i: usize = self.entries.len();
        while i > 0
            invariant
                i <= self.entries@.len(),
                entries_wf(self.entries@, self.clock),
                find_index(self.entries@, key.0@) == find_index(
                    self.entries@.subrange(0, i as int),
                    key.0@,
                ),
            decreases i,
        {
            let ghost pre = self.entries@.subrange(0, i as int);
            proof {
                assert(pre.drop_last() == self.entries@.subrange(0, i - 1));
                assert(pre.last() == self.entries@[i - 1]);
            }
            if keys_equal(&self.entries[i - 1].key, key) {
                return Some(i - 1);
            }
            i = i - 1;
        }
        proof {
            assert(self.entries@.subrange(0, 0) =~= Seq::<Entry<V>>::empty());
        }
        None
    }

    /// Look up `key`, marking the entry most recently used on a hit.
    pub fn get(&mut self, key: &TileKey) -> (r: Option<&V>)
        requires
            old(self).wf(),
            old(self).clock() < u64::MAX,
        ensures
            final(self).wf(),
            final(self).policy() == old(self).policy(),
            final(self).clock() == old(self).clock() + 1,
            final(self).entries() == touch(old(self).entries(), *key, final(self).clock()),
            ({
                let i = find_index(old(self).entries(), key.0@);
                if i >= 0 {
                    &&& r == Some(&old(self).entries()[i].value)
                    &&& final(self).entries() == old(self).entries().update(
                        i,
                        Entry {
                            last_access: final(self).clock(),
                            ..old(self).entries()[i]
                        },
                    )
                } else {
                    r is None && final(self).entries() == old(self).entries()
                }
            }),
    {
        self.clock = self.clock + 1;
        let tick = self.clock;
        match self.find(key) {
            Some(i) => {
                proof {
                    lemma_find_index(self.entries@, key.0@);
                }
                let ghost before = self.entries@;
                let mut e = self.entries.remove(i);
                e.last_access = tick;
                self.entries.insert(i, e);
                proof {
                    assert(self.entries@ =~= before.update(
                        i as int,
                        Entry { last_access: tick, ..before[i as int] },
                    ));
                    assert(total_bytes(self.entries@) == total_bytes(before)) by {
                        lemma_total_remove(before, i as int);
                        lemma_total_remove(self.entries@, i as int);
                        assert(self.entries@.remove(i as int) =~= before.remove(i as int));
                    }
                    assert forall|a: int, b: int|
                        0 <= a < b < self.entries@.len() implies key_of(
                        #[trigger] self.entries@[a],
                    ) != key_of(#[trigger] self.entries@[b]) by {
                        assert(key_of(self.entries@[a]) == key_of(before[a]));
                        assert(key_of(self.entries@[b]) == key_of(before[b]));
                    }
                }
                Some(&self.entries[i].value)
            },
            None => None,
        }
    }

    /// Drop all entries (the clock keeps running).
    pub fn clear(&mut self)
        requires
            old(self).wf(),
        ensures
            final(self).wf(),
            final(self).entries() == Seq::<Entry<V>>::empty(),
            final(self).clock() == old(self).clock(),
            final(self).policy() == old(self).policy(),
    {
        self.entries.clear();
        self.bytes = 0;
    }

    /// Evict least recently used entries until within both budgets.
    fn evict_to_budget(&mut self)
        requires
            entries_wf(old(self).entries(), old(self).clock()),
            old(self).bytes == total_bytes(old(self).entries()),
        ensures
            final(self).wf(),
            final(self).entries() == evict(old(self).entries(), old(self).policy()),
            final(self).clock() == old(self).clock(),
            final(self).policy() == old(self).policy(),
    {
        while self.bytes > self.config.max_bytes || self.entries.len() > self.config.max_entries
            invariant
                entries_wf(self.entries@, self.clock),
                self.bytes == total_bytes(self.entries@),
                evict(self.entries@, self.config) == evict(old(self).entries(), old(self).policy()),
                self.clock == old(self).clock(),
                self.config == old(self).policy(),
            decreases self.entries@.len(),
        {
            proof {
                if self.entries@.len() == 0 {
                    assert(total_bytes(self.entries@) == 0);
                }
            }
            let mut victim: usize = 0;
            let mut j: usize = 1;
            while j < self.entries.len()
                invariant
                    1 <= j <= self.entries@.len(),
                    victim == lru_index(self.entries@.subrange(0, j as int)),
                    victim < j,
                decreases self.entries@.len() - j,
            {
                proof {
                    let pre = self.entries@.subrange(0, j + 1);
                    assert(pre.drop_last() == self.entries@.subrange(0, j as int));
                    assert(pre.last() == self.entries@[j as int]);
                    assert(pre[victim as int] == self.entries@[victim as int]);
                }
                if self.entries[j].last_access < self.entries[victim].last_access {
                    victim = j;
                }
                j = j + 1;
            }
            proof {
                assert(self.entries@.subrange(0, self.entries@.len() as int) == self.entries@);
                lemma_total_remove(self.entries@, victim as int);
                lemma_remove_keeps_wf(self.entries@, self.clock, victim as int);
            }
            let e = self.entries.remove(victim);
            self.bytes = self.bytes - e.bytes;
        }
        proof {
            assert(!over_budget(self.entries@, self.config));
        }
    }

    /// Insert (or replace) the value stored under `key` with cost `bytes`, then
    /// evict least recently used entries until within budget.
    pub fn put(&mut self, key: TileKey, value: V, bytes: usize)
        requires
            old(self).wf(),
            old(self).clock() < u64::MAX,
            total_bytes(without_key(old(self).entries(), key.0@)) + bytes <= usize::MAX,
        ensures
            final(self).wf(),
            final(self).policy() == old(self).policy(),
            final(self).clock() == old(self).clock() + 1,
            final(self).entries() == put_entries(
                old(self).entries(),
                key,
                value,
                final(self).clock(),
                bytes,
                old(self).policy(),
            ),
    {
        self.clock = self.clock + 1;
        let tick = self.clock;
        let ghost k = key.0@;
        match self.find(&key) {
            Some(i) => {
                proof {
                    lemma_find_index(self.entries@, k);
                    lemma_total_remove(self.entries@, i as int);
                    lemma_remove_keeps_wf(self.entries@, self.clock, i as int);
                }
                let old_e = self.entries.remove(i);
                self.bytes = self.bytes - old_e.bytes;
            },
            None => {
                proof {
                    lemma_find_index(self.entries@, k);
                }
            },
        }
        let ghost rest = self.entries@;
        proof {
            lemma_without_key_wf(old(self).entries(), old(self).clock(), k);
            assert(rest == without_key(old(self).entries(), k));
        }
        self.bytes = self.bytes + bytes;
        self.entries.push(Entry { key, value, last_access: tick, bytes });
        proof {
            assert(self.entries@ == rest.push(self.entries@.last()));
            lemma_push_fresh_wf(rest, self.entries@.last(), self.clock);
            assert(total_bytes(self.entries@) == total_bytes(rest) + bytes) by {
                assert(self.entries@.drop_last() == rest);
            }
        }
        self.evict_to_budget();
    }
}

proof fn lemma_evict_within_budget<V>(es: Seq<Entry<V>>, cfg: CacheConfig)
    ensures
        !over_budget(evict(es, cfg), cfg),
        evict(es, cfg).len() <= es.len(),
    decreases es.len(),
{
    if es.len() > 0 && over_budget(es, cfg) {
        lemma_lru_index(es);
        lemma_evict_within_budget(es.remove(lru_index(es)), cfg);
    } else if es.len() == 0 {
        assert(total_bytes(es) == 0);
    }
}

proof fn lemma_evict_total<V>(es: Seq<Entry<V>>, cfg: CacheConfig)
    ensures
        total_bytes(evict(es, cfg)) <= total_bytes(es),
    decreases es.len(),
{
    if es.len() > 0 && over_budget(es, cfg) {
        lemma_lru_index(es);
        lemma_total_remove(es, lru_index(es));
        lemma_evict_total(es.remove(lru_index(es)), cfg);
    }
}

/// A put never holds more than the other entries plus the new cost.
pub proof fn lemma_put_total<V>(
    es: Seq<Entry<V>>,
    key: TileKey,
    value: V,
    tick: u64,
    bytes: usize,
    cfg: CacheConfig,
)
    ensures
        total_bytes(put_entries(es, key, value, tick, bytes, cfg)) <= total_bytes(
            without_key(es, key.0@),
        ) + bytes,
        total_bytes(without_key(es, key.0@)) <= total_bytes(es),
{
    let rest = without_key(es, key.0@);
    let e = Entry { key, value, last_access: tick, bytes };
    assert(rest.push(e).drop_last() == rest);
    lemma_evict_total(rest.push(e), cfg);
    lemma_find_index(es, key.0@);
    if find_index(es, key.0@) >= 0 {
        lemma_total_remove(es, find_index(es, key.0@));
    }
}

/// After any put the cache is within both budgets: at most `max_entries`
/// entries whose costs add up to at most `max_bytes`.
pub proof fn law_put_respects_budget<V>(
    es: Seq<Entry<V>>,
    key: TileKey,
    value: V,
    tick: u64,
    bytes: usize,
    cfg: CacheConfig,
)
    ensures
        total_bytes(put_entries(es, key, value, tick, bytes, cfg)) <= cfg.max_bytes,
        put_entries(es, key, value, tick, bytes, cfg).len() <= cfg.max_entries,
{
    lemma_evict_within_budget(
        without_key(es, key.0@).push(Entry { key, value, last_access: tick, bytes }),
        cfg,
    );
}

proof fn lemma_evict_keeps_newest<V>(es: Seq<Entry<V>>, cfg: CacheConfig)
    requires
        es.len() > 0,
        forall|j: int| 0 <= j < es.len() - 1 ==> (#[trigger] es[j]).last_access < es.last().last_access,
        es.last().bytes <= cfg.max_bytes,
        cfg.max_entries >= 1,
    ensures
        evict(es, cfg).len() > 0,
        evict(es, cfg).last() == es.last(),
        forall|j: int|
            0 <= j < evict(es, cfg).len() - 1 ==> (#[trigger] evict(es, cfg)[j]).last_access
                < es.last().last_access,
    decreases es.len(),
{
    if es.len() > 0 && over_budget(es, cfg) {
        if es.len() == 1 {
            assert(es.drop_last().len() == 0);
            assert(total_bytes(es.drop_last()) == 0);
            assert(total_bytes(es) == es.last().bytes);
            assert(false);
        }
        lemma_lru_index(es);
        let i = lru_index(es);
        assert(i != es.len() - 1) by {
            assert(es[0].last_access < es.last().last_access);
        }
        let r = es.remove(i);
        assert(r.last() == es.last());
        assert forall|j: int| 0 <= j < r.len() - 1 implies (#[trigger] r[j]).last_access
            < r.last().last_access by {
            let j2 = if j < i {
                j
            } else {
                j + 1
            };
            assert(r[j] == es[j2]);
        }
        lemma_evict_keeps_newest(r, cfg);
    }
}

/// A read gives back what a put wrote: right after storing `value` under `key`
/// (at a tick later than every stored tick, as the cache stamps it), the key is
/// present with that value, provided the entry alone fits the budget.
pub proof fn law_put_then_find<V>(
    es: Seq<Entry<V>>,
    clock: u64,
    key: TileKey,
    value: V,
    bytes: usize,
    cfg: CacheConfig,
)
    requires
        entries_wf(es, clock),
        clock < u64::MAX,
        bytes <= cfg.max_bytes,
        cfg.max_entries >= 1,
    ensures
        ({
            let after = put_entries(es, key, value, (clock + 1) as u64, bytes, cfg);
            let i = find_index(after, key.0@);
            i >= 0 && after[i].value == value && after[i].bytes == bytes
        }),
{
    let tick = (clock + 1) as u64;
    let rest = without_key(es, key.0@);
    let pushed = rest.push(Entry { key, value, last_access: tick, bytes });
    lemma_find_index(es, key.0@);
    if find_index(es, key.0@) >= 0 {
        let i0 = find_index(es, key.0@);
        assert forall|j: int| 0 <= j < rest.len() implies (#[trigger] rest[j]).last_access <= clock by {
            let j2 = if j < i0 {
                j
            } else {
                j + 1
            };
            assert(rest[j] == es[j2]);
        }
    }
    assert forall|j: int| 0 <= j < pushed.len() - 1 implies (#[trigger] pushed[j]).last_access
        < pushed.last().last_access by {
        assert(pushed[j] == rest[j]);
    }
    lemma_evict_keeps_newest(pushed, cfg);
    let after = evict(pushed, cfg);
    lemma_find_index(after, key.0@);
    assert(key_of(after.last()) == key.0@);
    assert(after.drop_last().len() + 1 == after.len());
}

/// Eviction removes least recently used entries first: every entry it removes
/// was last used no later than every entry it keeps.
pub proof fn law_evict_removes_least_recent<V>(es: Seq<Entry<V>>, cfg: CacheConfig, t: u64)
    requires
        exists|j: int| 0 <= j < es.len() && (#[trigger] es[j]).last_access == t && !evict(
            es,
            cfg,
        ).contains(es[j]),
    ensures
        forall|k: int|
            0 <= k < evict(es, cfg).len() ==> t <= (#[trigger] evict(es, cfg)[k]).last_access,
    decreases es.len(),
{
    let j = choose|j: int|
        0 <= j < es.len() && (#[trigger] es[j]).last_access == t && !evict(es, cfg).contains(
            es[j],
        );
    if es.len() > 0 && over_budget(es, cfg) {
        lemma_lru_index(es);
        let i = lru_index(es);
        let r = es.remove(i);
        assert(evict(es, cfg) == evict(r, cfg));
        if j == i {
            lemma_evict_subseq(r, cfg);
            assert forall|k: int| 0 <= k < evict(es, cfg).len() implies t <= (#[trigger] evict(
                es,
                cfg,
            )[k]).last_access by {
                let e = evict(r, cfg)[k];
                assert(r.contains(e));
                let m = choose|m: int| 0 <= m < r.len() && r[m] == e;
                let m2 = if m < i {
                    m
                } else {
                    m + 1
                };
                assert(r[m] == es[m2]);
            }
        } else {
            let j2 = if j < i {
                j
            } else {
                j - 1
            };
            assert(r[j2] == es[j]);
            law_evict_removes_least_recent(r, cfg, t);
        }
    } else {
        assert(evict(es, cfg).contains(es[j]));
    }
}

proof fn lemma_evict_subseq<V>(es: Seq<Entry<V>>, cfg: CacheConfig)
    ensures
        forall|k: int| 0 <= k < evict(es, cfg).len() ==> es.contains(#[trigger] evict(es, cfg)[k]),
    decreases es.len(),
{
    if es.len() > 0 && over_budget(es, cfg) {
        lemma_lru_index(es);
        let i = lru_index(es);
        let r = es.remove(i);
        lemma_evict_subseq(r, cfg);
        assert forall|k: int| 0 <= k < evict(es, cfg).len() implies es.contains(
            #[trigger] evict(es, cfg)[k],
        ) by {
            let e = evict(r, cfg)[k];
            let m = choose|m: int| 0 <= m < r.len() && r[m] == e;
            let m2 = if m < i {
                m
            } else {
                m + 1
            };
            assert(r[m] == es[m2]);
        }
    } else {
        assert forall|k: int| 0 <= k < evict(es, cfg).len() implies es.contains(
            #[trigger] evict(es, cfg)[k],
        ) by {
            assert(es[k] == evict(es, cfg)[k]);
        }
    }
}

/// A put on any cache reached through `new`, `put`, `get` and `clear`: after
/// it the cache holds at most `max_entries` entries whose costs add up to at
/// most `max_bytes`; every entry it evicts is no more recently used than any
/// entry it keeps; and the new value is stored whenever its cost fits the byte
/// budget and the cache may hold an entry at all.
pub proof fn law_cache_put<V>(c: &LruCore<V>, key: TileKey, value: V, bytes: usize)
    requires
        c.wf(),
        c.clock() < u64::MAX,
    ensures
        ({
            let tick = (c.clock() + 1) as u64;
            let before = without_key(c.entries(), key.0@).push(
                Entry { key, value, last_access: tick, bytes },
            );
            let after = put_entries(c.entries(), key, value, tick, bytes, c.policy());
            &&& after.len() <= c.policy().max_entries
            &&& total_bytes(after) <= c.policy().max_bytes
            &&& forall|j: int, k: int|
                0 <= j < before.len() && !after.contains(#[trigger] before[j]) && 0 <= k
                    < after.len() ==> before[j].last_access <= (#[trigger] after[k]).last_access
            &&& (bytes <= c.policy().max_bytes && c.policy().max_entries >= 1) ==> {
                let i = find_index(after, key.0@);
                i >= 0 && after[i].value == value && after[i].bytes == bytes
            }
        }),
{
    let tick = (c.clock() + 1) as u64;
    let before = without_key(c.entries(), key.0@).push(Entry { key, value, last_access: tick, bytes });
    let after = put_entries(c.entries(), key, value, tick, bytes, c.policy());
    law_put_respects_budget(c.entries(), key, value, tick, bytes, c.policy());
    if bytes <= c.policy().max_bytes && c.policy().max_entries >= 1 {
        law_put_then_find(c.entries(), c.clock(), key, value, bytes, c.policy());
    }
    assert forall|j: int, k: int|
        0 <= j < before.len() && !after.contains(#[trigger] before[j]) && 0 <= k
            < after.len() implies before[j].last_access <= (#[trigger] after[k]).last_access by {
        law_evict_removes_least_recent(before, c.policy(), before[j].last_access);
    }
}

} // verus!
