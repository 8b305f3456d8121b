//! Cache-fronted batch encoding: which tiles of a batch are served from the
//! embedding cache, and how the encoder's answers for the others are merged
//! back in input order and stored in the cache.
use vstd::prelude::*;
use vstd::string::*;

use crate::encoder::{EncoderError, TileKey};
use crate::lru::{
    touch, find_index, key_of, lemma_find_index, put_entries, total_bytes, without_key, Entry, LruCore,
};
use crate::text::{decimal, push_decimal};

verus! {

/// Positions of the empty slots, in increasing order.
pub open spec fn miss_positions<V>(slots: Seq<Option<V>>) -> Seq<usize>
    decreases slots.len(),
{
    if slots.len() == 0 {
        Seq::empty()
    } else if slots.last() is None {
        miss_positions(slots.drop_last()).push((slots.len() - 1) as usize)
    } else {
        miss_positions(slots.drop_last())
    }
}

/// Two entry sequences with the same keys, values and costs (ticks may differ).
pub open spec fn same_contents<V>(a: Seq<Entry<V>>, b: Seq<Entry<V>>) -> bool {
    &&& a.len() == b.len()
    &&& forall|i: int|
        0 <= i < a.len() ==> (#[trigger] a[i]).key == b[i].key && a[i].value == b[i].value
            && a[i].bytes == b[i].bytes
}

/// The entries after storing `vs[j]` under `ks[j]` with cost `cs[j]`, one after
/// another, the `j`-th at tick `clock + j + 1`.
pub open spec fn put_all<V>(
    es: Seq<Entry<V>>,
    ks: Seq<TileKey>,
    vs: Seq<V>,
    cs: Seq<usize>,
    clock: u64,
    cfg: crate::lru::CacheConfig,
) -> Seq<Entry<V>>
    decreases ks.len(),
{
    if ks.len() == 0 {
        es
    } else {
        put_entries(
            put_all(es, ks.drop_last(), vs.drop_last(), cs.drop_last(), clock, cfg),
            ks.last(),
            vs.last(),
            (clock + ks.len()) as u64,
            cs.last(),
            cfg,
        )
    }
}

/// The sum of the costs.
pub open spec fn sum_costs(cs: Seq<usize>) -> nat
    decreases cs.len(),
{
    if cs.len() == 0 {
        0
    } else {
        sum_costs(cs.drop_last()) + cs.last() as nat
    }
}

proof fn lemma_sum_prefix(cs: Seq<usize>, j: int)
    requires
        0 <= j <= cs.len(),
    ensures
        sum_costs(cs.subrange(0, j)) <= sum_costs(cs),
        j < cs.len() ==> sum_costs(cs.subrange(0, j + 1)) == sum_costs(cs.subrange(0, j)) + cs[j],
    decreases cs.len(),
{
    if j < cs.len() {
        assert(cs.subrange(0, j + 1).drop_last() == cs.subrange(0, j));
        lemma_sum_prefix(cs.drop_last(), j);
        assert(cs.drop_last().subrange(0, j) == cs.subrange(0, j));
    } else {
        assert(cs.subrange(0, j) == cs);
    }
}

/// The entries after looking up `keys` one after another: the `j`-th lookup
/// happens at tick `clock + j + 1` and stamps the entry under `keys[j]`, if
/// any, with that tick.
pub open spec fn touch_all<V>(es: Seq<Entry<V>>, keys: Seq<TileKey>, clock: u64) -> Seq<Entry<V>>
    decreases keys.len(),
{
    if keys.len() == 0 {
        es
    } else {
        touch(touch_all(es, keys.drop_last(), clock), keys.last(), (clock + keys.len()) as u64)
    }
}

/// The keys of the missed positions.
pub open spec fn miss_keys(keys: Seq<TileKey>, misses: Seq<usize>) -> Seq<TileKey> {
    misses.map_values(|i: usize| keys[i as int])
}

proof fn lemma_find_same<V>(a: Seq<Entry<V>>, b: Seq<Entry<V>>, k: Seq<u8>)
    requires
        same_contents(a, b),
    ensures
        find_index(a, k) == find_index(b, k),
    decreases a.len(),
{
    if a.len() > 0 {
        assert(a.last().key == b.last().key);
        assert(same_contents(a.drop_last(), b.drop_last())) by {
            assert forall|i: int| 0 <= i < a.len() - 1 implies (#[trigger] a.drop_last()[i]).key
                == b.drop_last()[i].key && a.drop_last()[i].value == b.drop_last()[i].value
                && a.drop_last()[i].bytes == b.drop_last()[i].bytes by {
                assert(a.drop_last()[i] == a[i]);
                assert(b.drop_last()[i] == b[i]);
            }
        }
        lemma_find_same(a.drop_last(), b.drop_last(), k);
    }
}

proof fn lemma_miss_positions<V>(slots: Seq<Option<V>>)
    requires
        slots.len() <= usize::MAX,
    ensures
        forall|j: int|
            0 <= j < miss_positions(slots).len() ==> #[trigger] miss_positions(slots)[j]
                < slots.len() && slots[miss_positions(slots)[j] as int] is None,
        forall|j: int, k: int|
            0 <= j < k < miss_positions(slots).len() ==> #[trigger] miss_positions(slots)[j]
                < #[trigger] miss_positions(slots)[k],
        forall|i: int|
            0 <= i < slots.len() && #[trigger] slots[i] is None ==> exists|j: int|
                0 <= j < miss_positions(slots).len() && miss_positions(slots)[j] == i,
    decreases slots.len(),
{
    if slots.len() > 0 {
        let d = slots.drop_last();
        lemma_miss_positions(d);
        let md = miss_positions(d);
        let mp = miss_positions(slots);
        assert forall|i: int| 0 <= i < d.len() implies d[i] == slots[i] by {}
        if slots.last() is None {
            assert(mp == md.push((slots.len() - 1) as usize));
            assert forall|j: int| 0 <= j < mp.len() implies #[trigger] mp[j] < slots.len()
                && slots[mp[j] as int] is None by {
                if j < md.len() {
                    assert(mp[j] == md[j]);
                    assert(md[j] < d.len() && d[md[j] as int] is None);
                    assert(d[md[j] as int] == slots[md[j] as int]);
                } else {
                    assert(mp[j] == slots.len() - 1);
                }
            }
            assert forall|j: int, k: int| 0 <= j < k < mp.len() implies #[trigger] mp[j]
                < #[trigger] mp[k] by {
                assert(mp[j] == md[j]);
                assert(md[j] < d.len());
                if k < md.len() {
                    assert(mp[k] == md[k]);
                    assert(md[j] < md[k]);
                } else {
                    assert(mp[k] == slots.len() - 1);
                }
            }
            assert forall|i: int| 0 <= i < slots.len() && #[trigger] slots[i] is None implies exists|
                j: int,
            | 0 <= j < mp.len() && mp[j] == i by {
                if i < slots.len() - 1 {
                    assert(d[i] is None);
                    let j = choose|j: int| 0 <= j < md.len() && md[j] == i;
                    assert(mp[j] == md[j]);
                } else {
                    assert(mp[mp.len() - 1] == i);
                }
            }
        } else {
            assert(mp == md);
            assert forall|j: int| 0 <= j < mp.len() implies #[trigger] mp[j] < slots.len()
                && slots[mp[j] as int] is None by {
                assert(md[j] < d.len() && d[md[j] as int] is None);
                assert(d[md[j] as int] == slots[md[j] as int]);
            }
            assert forall|i: int| 0 <= i < slots.len() && #[trigger] slots[i] is None implies exists|
                j: int,
            | 0 <= j < mp.len() && mp[j] == i by {
                assert(i < slots.len() - 1);
                assert(d[i] is None);
            }
        }
    }
}

/// Look up each key in the cache, in order: a hit fills its slot with (a clone
/// of) the cached value, a miss leaves it empty. Also returns the positions of
/// the misses, in increasing order. Looking up marks hits most recently used
/// and changes nothing else in the cache.
pub fn lookup_batch<V: Clone>(cache: &mut LruCore<V>, keys: &Vec<TileKey>) -> (r: (
    Vec<Option<V>>,
    Vec<usize>,
))
    requires
        old(cache).wf(),
        old(cache).clock() + keys@.len() < u64::MAX,
    ensures
        final(cache).wf(),
        final(cache).policy() == old(cache).policy(),
        final(cache).clock() == old(cache).clock() + keys@.len(),
        final(cache).entries() == touch_all(old(cache).entries(), keys@, old(cache).clock()),
        same_contents(final(cache).entries(), old(cache).entries()),
        r.0@.len() == keys@.len(),
        forall|i: int|
            0 <= i < keys@.len() ==> match #[trigger] r.0@[i] {
                Some(v) => find_index(old(cache).entries(), keys@[i].0@) >= 0 && cloned::<V>(
                    old(cache).entries()[find_index(old(cache).entries(), keys@[i].0@)].value,
                    v,
                ),
                None => find_index(old(cache).entries(), keys@[i].0@) == -1,
            },
        r.1@ == miss_positions(r.0@),
{
    let mut slots: Vec<Option<V>> = Vec::new();
    let mut misses: Vec<usize> = Vec::new();
    let mut i: usize = 0;
    while i < keys.len()
        invariant
            i <= keys@.len(),
            cache.wf(),
            cache.policy() == old(cache).policy(),
            cache.clock() == old(cache).clock() + i,
            old(cache).clock() + keys@.len() < u64::MAX,
            cache.entries() == touch_all(old(cache).entries(), keys@.subrange(0, i as int), old(cache).clock()),
            same_contents(cache.entries(), old(cache).entries()),
            slots@.len() == i,
            forall|j: int|
                0 <= j < i ==> match #[trigger] slots@[j] {
                    Some(v) => find_index(old(cache).entries(), keys@[j].0@) >= 0 && cloned::<V>(
                        old(cache).entries()[find_index(old(cache).entries(), keys@[j].0@)].value,
                        v,
                    ),
                    None => find_index(old(cache).entries(), keys@[j].0@) == -1,
                },
            misses@ == miss_positions(slots@),
        decreases keys@.len() - i,
    {
        let ghost before = cache.entries();
        proof {
            lemma_find_same(before, old(cache).entries(), keys@[i as int].0@);
            lemma_find_index(before, keys@[i as int].0@);
        }
        let ghost prev_slots = slots@;
        match cache.get(&keys[i]) {
            Some(v) => {
                let c = v.clone();
                slots.push(Some(c));
            },
            None => {
                slots.push(None);
                misses.push(i);
            },
        }
        proof {
            let fi = find_index(before, keys@[i as int].0@);
            if fi >= 0 {
                assert(same_contents(cache.entries(), old(cache).entries())) by {
                    assert forall|k: int| 0 <= k < cache.entries().len() implies (
                    #[trigger] cache.entries()[k]).key == old(cache).entries()[k].key
                        && cache.entries()[k].value == old(cache).entries()[k].value
                        && cache.entries()[k].bytes == old(cache).entries()[k].bytes by {
                        assert(before[k].key == old(cache).entries()[k].key);
                    }
                }
            }
            assert(slots@.drop_last() == prev_slots);
            assert forall|j: int| 0 <= j < i + 1 implies match #[trigger] slots@[j] {
                Some(v) => find_index(old(cache).entries(), keys@[j].0@) >= 0 && cloned::<V>(
                    old(cache).entries()[find_index(old(cache).entries(), keys@[j].0@)].value,
                    v,
                ),
                None => find_index(old(cache).entries(), keys@[j].0@) == -1,
            } by {
                if j < i {
                    assert(slots@[j] == prev_slots[j]);
                }
            }
            let ks1 = keys@.subrange(0, i + 1);
            assert(ks1.drop_last() == keys@.subrange(0, i as int));
            assert(ks1.last() == keys@[i as int]);
        }
        i = i + 1;
    }
    proof {
        assert(keys@.subrange(0, i as int) == keys@);
    }
    (slots, misses)
}

/// What goes to the inner encoder for a batch: nothing when every position
/// was a cache hit (the encoder is not called), otherwise a clone of the item
/// at each missed position, in miss order.
pub fn miss_inputs<T: Clone>(items: &[T], misses: &Vec<usize>) -> (r: Option<Vec<T>>)
    requires
        forall|j: int| 0 <= j < misses@.len() ==> #[trigger] misses@[j] < items@.len(),
    ensures
        r is None <==> misses@.len() == 0,
        r is Some ==> r->0@.len() == misses@.len() && forall|j: int|
            0 <= j < misses@.len() ==> cloned::<T>(items@[#[trigger] misses@[j] as int], r->0@[j]),
{
    if misses.len() == 0 {
        return None;
    }
    let mut out: Vec<T> = Vec::new();
    let mut j: usize = 0;
    while j < misses.len()
        invariant
            j <= misses@.len(),
            out@.len() == j,
            forall|k: int| 0 <= k < misses@.len() ==> #[trigger] misses@[k] < items@.len(),
            forall|k: int| 0 <= k < j ==> cloned::<T>(items@[#[trigger] misses@[k] as int], out@[k]),
        decreases misses@.len() - j,
    {
        let c = items[misses[j]].clone();
        out.push(c);
        j = j + 1;
    }
    Some(out)
}

/// Byte cost of caching a `dim`-wide vector of 4-byte components: the payload,
/// the 32-byte key, and the entry's fixed bookkeeping `overhead`.
pub fn entry_cost(dim: usize, overhead: usize) -> (r: usize)
    requires
        dim * 4 + 32 + overhead <= usize::MAX,
    ensures
        r == dim * 4 + 32 + overhead,
{
    dim * 4 + 32 + overhead
}

/// Merge the encoder's answers for the missed positions into a batch.
///
/// `encoded[j]` answers the `j`-th miss. When the encoder returned a different
/// number of vectors than there were misses, the batch fails and the cache is
/// untouched. Otherwise each answer is stored in the cache (a clone, with cost
/// `costs[j]`), in miss order, and the batch is returned in input order: cached
/// values at hits, the encoder's answers at misses.
pub fn fill_batch<V: Clone>(
    cache: &mut LruCore<V>,
    keys: &Vec<TileKey>,
    slots: Vec<Option<V>>,
    misses: &Vec<usize>,
    encoded: Vec<V>,
    costs: &Vec<usize>,
) -> (r: Result<Vec<V>, EncoderError>)
    requires
        old(cache).wf(),
        slots@.len() == keys@.len(),
        misses@ == miss_positions(slots@),
        costs@.len() == encoded@.len(),
        old(cache).clock() + misses@.len() < u64::MAX,
        (forall|j: int| 0 <= j < costs@.len() ==> old(cache).policy().max_bytes + #[trigger] costs@[j]
            <= usize::MAX) || total_bytes(old(cache).entries()) + sum_costs(costs@) <= usize::MAX,
    ensures
        final(cache).wf(),
        final(cache).policy() == old(cache).policy(),
        encoded@.len() != misses@.len() ==> {
            &&& r matches Err(EncoderError::Inference(m))
            &&& m@ == "inner embedder returned "@ + decimal(encoded@.len()) + " embeddings for "@
                + decimal(misses@.len()) + " tiles"@
            &&& final(cache).entries() == old(cache).entries()
            &&& final(cache).clock() == old(cache).clock()
        },
        encoded@.len() == misses@.len() ==> {
            &&& r is Ok
            &&& r->Ok_0@.len() == slots@.len()
            &&& forall|i: int| 0 <= i < slots@.len() && (#[trigger] slots@[i]) is Some ==> r->Ok_0@[i] == slots@[i]->0
            &&& forall|j: int| 0 <= j < misses@.len() ==> r->Ok_0@[#[trigger] misses@[j] as int] == encoded@[j]
            &&& final(cache).clock() == old(cache).clock() + misses@.len()
            &&& exists|stored: Seq<V>|
                #![trigger stored.len()]
                stored.len() == encoded@.len() && (forall|j: int|
                    0 <= j < stored.len() ==> cloned::<V>(encoded@[j], #[trigger] stored[j]))
                    && final(cache).entries() == put_all(
                    old(cache).entries(),
                    miss_keys(keys@, misses@),
                    stored,
                    costs@,
                    old(cache).clock(),
                    old(cache).policy(),
                )
        },
{
    if encoded.len() != misses.len() {
        let mut m = String::from_str("inner embedder returned ");
        push_decimal(&mut m, encoded.len());
        m.append(" embeddings for ");
        push_decimal(&mut m, misses.len());
        m.append(" tiles");
        return Err(EncoderError::Inference(m));
    }
    let nslots = slots.len();
    proof {
        assert(slots@.len() == nslots);
        lemma_miss_positions(slots@);
    }
    let ghost ks = miss_keys(keys@, misses@);
    let ghost mut stored: Seq<V> = Seq::empty();
    let mut j: usize = 0;
    while j < misses.len()
        invariant
            j <= misses@.len(),
            misses@.len() == encoded@.len(),
            costs@.len() == encoded@.len(),
            misses@ == miss_positions(slots@),
            slots@.len() == keys@.len(),
            ks == miss_keys(keys@, misses@),
            forall|k: int| 0 <= k < misses@.len() ==> #[trigger] misses@[k] < slots@.len(),
            cache.wf(),
            cache.policy() == old(cache).policy(),
            cache.clock() == old(cache).clock() + j,
            old(cache).clock() + misses@.len() < u64::MAX,
            (forall|k: int| 0 <= k < costs@.len() ==> old(cache).policy().max_bytes + #[trigger] costs@[k]
                <= usize::MAX) || total_bytes(old(cache).entries()) + sum_costs(costs@) <= usize::MAX,
            total_bytes(cache.entries()) <= total_bytes(old(cache).entries()) + sum_costs(
                costs@.subrange(0, j as int),
            ),
            stored.len() == j,
            forall|k: int| 0 <= k < j ==> cloned::<V>(encoded@[k], #[trigger] stored[k]),
            cache.entries() == put_all(
                old(cache).entries(),
                ks.subrange(0, j as int),
                stored,
                costs@.subrange(0, j as int),
                old(cache).clock(),
                old(cache).policy(),
            ),
        decreases misses@.len() - j,
    {
        let idx = misses[j];
        let key = keys[idx].copy();
        let value = encoded[j].clone();
        proof {
            let es = cache.entries();
            lemma_find_index(es, key.0@);
            if find_index(es, key.0@) >= 0 {
                crate::lru::lemma_total_remove_pub(es, find_index(es, key.0@));
            }
            crate::lru::lemma_wf_within_budget(cache);
            lemma_sum_prefix(costs@, j as int);
            lemma_sum_prefix(costs@, j + 1);
            crate::lru::lemma_put_total(es, key, value, (cache.clock() + 1) as u64, costs@[j as int], cache.policy());
        }
        cache.put(key, value, costs[j]);
        proof {
            let ks1 = ks.subrange(0, j + 1);
            assert(ks1.drop_last() == ks.subrange(0, j as int));
            assert(ks1.last() == keys@[idx as int]);
            let cs1 = costs@.subrange(0, j + 1);
            assert(cs1.drop_last() == costs@.subrange(0, j as int));
            let st1 = stored.push(value);
            assert(st1.drop_last() == stored);
            stored = st1;
        }
        j = j + 1;
    }
    proof {
        assert(ks.subrange(0, j as int) == ks);
        assert(costs@.subrange(0, j as int) == costs@);
    }
    let ghost final_stored = stored;
    let mut slots = slots;
    let mut enc = encoded;
    let ghost enc0 = enc@;
    let ghost slots0 = slots@;
    let mut k: usize = misses.len();
    while k > 0
        invariant
            k <= misses@.len(),
            misses@.len() == enc0.len(),
            enc@ == enc0.subrange(0, k as int),
            slots@.len() == slots0.len(),
            slots0.len() <= usize::MAX,
            misses@ == miss_positions(slots0),
            forall|a: int| 0 <= a < misses@.len() ==> #[trigger] misses@[a] < slots0.len(),
            forall|a: int, b: int| 0 <= a < b < misses@.len() ==> #[trigger] misses@[a] < #[trigger] misses@[b],
            forall|i: int| 0 <= i < slots0.len() && (#[trigger] slots0[i]) is Some ==> slots@[i] == slots0[i],
            forall|a: int| k <= a < misses@.len() ==> slots@[#[trigger] misses@[a] as int] == Some(enc0[a]),
            forall|i: int| 0 <= i < slots0.len() && (#[trigger] slots0[i]) is None ==> (slots@[i] is Some <==> exists|a: int| k <= a < misses@.len() && misses@[a] == i),
        decreases k,
    {
        let v = enc.pop().unwrap();
        let idx = misses[k - 1];
        let ghost prev = slots@;
        slots.set(idx, Some(v));
        proof {
            assert(v == enc0[k - 1]);
            assert forall|i: int| 0 <= i < slots0.len() && (#[trigger] slots0[i]) is Some implies slots@[i] == slots0[i] by {
                if i == idx {
                    lemma_miss_positions(slots0);
                }
            }
            assert forall|a: int| k - 1 <= a < misses@.len() implies slots@[#[trigger] misses@[a] as int] == Some(enc0[a]) by {
                if a > k - 1 {
                    assert(misses@[k - 1] < misses@[a]);
                }
            }
            assert forall|i: int| 0 <= i < slots0.len() && (#[trigger] slots0[i]) is None implies (slots@[i] is Some <==> exists|a: int| k - 1 <= a < misses@.len() && misses@[a] == i) by {
                if i == idx {
                    assert(misses@[k - 1] == i);
                } else {
                    if exists|a: int| k - 1 <= a < misses@.len() && misses@[a] == i {
                        let a = choose|a: int| k - 1 <= a < misses@.len() && misses@[a] == i;
                        assert(a != k - 1);
                    }
                }
            }
        }
        k = k - 1;
    }
    let nslots2 = slots.len();
    proof {
        assert(slots0.len() == nslots2);
        lemma_miss_positions(slots0);
        assert forall|i: int| 0 <= i < slots@.len() implies (#[trigger] slots@[i]) is Some by {
            if slots0[i] is None {
                let a = choose|a: int| 0 <= a < misses@.len() && misses@[a] == i;
                assert(slots@[misses@[a] as int] == Some(enc0[a]));
            }
        }
    }
    let mut rev: Vec<V> = Vec::new();
    let ghost full = slots@;
    while slots.len() > 0
        invariant
            slots@ == full.subrange(0, slots@.len() as int),
            slots@.len() <= full.len(),
            rev@.len() == full.len() - slots@.len(),
            forall|i: int| 0 <= i < full.len() ==> (#[trigger] full[i]) is Some,
            forall|a: int| 0 <= a < rev@.len() ==> Some(#[trigger] rev@[a]) == full[full.len() - 1 - a],
        decreases slots@.len(),
    {
        let s = slots.pop().unwrap();
        let v = s.unwrap();
        rev.push(v);
    }
    let mut out: Vec<V> = Vec::new();
    while rev.len() > 0
        invariant
            rev@.len() + out@.len() == full.len(),
            forall|a: int| 0 <= a < rev@.len() ==> Some(#[trigger] rev@[a]) == full[full.len() - 1 - a],
            forall|i: int| 0 <= i < out@.len() ==> Some(#[trigger] out@[i]) == full[i],
        decreases rev@.len(),
    {
        let v = rev.pop().unwrap();
        out.push(v);
    }
    proof {
        assert(exists|st: Seq<V>|
            #![trigger st.len()]
            st.len() == enc0.len() && (forall|a: int|
                0 <= a < st.len() ==> cloned::<V>(enc0[a], #[trigger] st[a]))
                && cache.entries() == put_all(
                old(cache).entries(),
                miss_keys(keys@, misses@),
                st,
                costs@,
                old(cache).clock(),
                old(cache).policy(),
            )) by {
            assert(final_stored.len() == enc0.len());
        }
    }
    Ok(out)
}

} // verus!
