//! The ingest bookkeeping of the retrieval pipeline: which parts fit together,
//! how tiles are cut into embedding batches, which external id each indexed
//! tile gets, and how raw hits are matched back to their tiles' metadata.
use vstd::prelude::*;
use vstd::string::*;
use std::collections::HashMap;

use crate::config::{config_problem, is_config_error, Config};
use crate::error::Error;
use crate::text::{decimal, push_decimal};
use crate::tile::TileMetadata;

verus! {

broadcast use vstd::std_specs::hash::group_hash_axioms;

/// Outcome of indexing one document.
#[derive(Debug, Clone, Copy, PartialEq, Eq, Structural)]
pub struct IngestReport {
    /// Tiles produced for the document.
    pub tiles: usize,
    /// Tiles embedded and added to the index.
    pub indexed: usize,
}

/// Check that a configuration, an embedder of width `embedder_dim` and an
/// index of width `index_dim` form a pipeline: the configuration must be
/// valid, then the widths must agree.
pub fn check_parts(config: &Config, embedder_dim: usize, index_dim: usize) -> (r: Result<(), Error>)
    ensures
        match config_problem(config@) {
            Some(m) => r matches Err(e) && is_config_error(e, m),
            None => if embedder_dim != index_dim {
                r matches Err(Error::Pipeline(m)) && m@ == "embedder dim "@ + decimal(
                    embedder_dim as nat,
                ) + " != index dim "@ + decimal(index_dim as nat)
            } else {
                r is Ok
            },
        },
{
    match config.validate() {
        Err(e) => {
            return Err(e);
        },
        Ok(()) => {},
    }
    if embedder_dim != index_dim {
        let mut m = String::from_str("embedder dim ");
        push_decimal(&mut m, embedder_dim);
        m.append(" != index dim ");
        push_decimal(&mut m, index_dim);
        return Err(Error::Pipeline(m));
    }
    Ok(())
}

/// The batches `[start, end)` that cover `start..n` in order, each `b` long
/// except possibly the last.
pub open spec fn batches_from(start: nat, n: nat, b: nat) -> Seq<(nat, nat)>
    recommends
        b >= 1,
    decreases n - start, b,
    when b >= 1
{
    if start >= n {
        Seq::empty()
    } else {
        let end = if start + b <= n {
            start + b
        } else {
            n
        };
        seq![(start, end)] + batches_from(end, n, b)
    }
}

/// The embedding batches of `n` tiles at batch size `batch_size` (at least 1):
/// consecutive ranges covering `0..n`, each `batch_size` long but the last.
pub fn batch_ranges(n: usize, batch_size: usize) -> (r: Vec<(usize, usize)>)
    ensures
        r@.len() == batches_from(0, n as nat, if batch_size >= 1 { batch_size as nat } else { 1 }).len(),
        forall|i: int|
            0 <= i < r@.len() ==> (#[trigger] r@[i]).0 as nat == batches_from(
                0,
                n as nat,
                if batch_size >= 1 {
                    batch_size as nat
                } else {
                    1
                },
            )[i].0 && r@[i].1 as nat == batches_from(
                0,
                n as nat,
                if batch_size >= 1 {
                    batch_size as nat
                } else {
                    1
                },
            )[i].1,
{
    let b: usize = if batch_size >= 1 {
        batch_size
    } else {
        1
    };
    let ghost all = batches_from(0, n as nat, b as nat);
    let mut out: Vec<(usize, usize)> = Vec::new();
    let mut start: usize = 0;
    while start < n
        invariant
            b >= 1,
            start <= n,
            all == batches_from(0, n as nat, b as nat),
            out@.len() + batches_from(start as nat, n as nat, b as nat).len() == all.len(),
            forall|i: int|
                0 <= i < out@.len() ==> (#[trigger] out@[i]).0 as nat == all[i].0 && out@[i].1 as nat
                    == all[i].1,
            forall|i: int|
                0 <= i < batches_from(start as nat, n as nat, b as nat).len() ==> #[trigger] batches_from(
                    start as nat,
                    n as nat,
                    b as nat,
                )[i] == all[out@.len() + i],
        decreases n - start,
    {
        let end: usize = if b <= n - start {
            start + b
        } else {
            n
        };
        let ghost rest = batches_from(start as nat, n as nat, b as nat);
        let ghost next = batches_from(end as nat, n as nat, b as nat);
        proof {
            assert(rest == seq![(start as nat, end as nat)] + next);
            assert(rest[0] == (start as nat, end as nat));
            assert forall|i: int| 0 <= i < next.len() implies #[trigger] next[i] == all[out@.len() + 1 + i] by {
                assert(rest[i + 1] == next[i]);
            }
        }
        let ghost prev = out@;
        out.push((start, end));
        proof {
            assert forall|i: int| 0 <= i < out@.len() implies (#[trigger] out@[i]).0 as nat == all[i].0
                && out@[i].1 as nat == all[i].1 by {
                if i < prev.len() {
                    assert(out@[i] == prev[i]);
                }
            }
        }
        start = end;
    }
    out
}

/// An embedding batch must yield one vector per tile.
pub fn check_batch_count(got: usize, want: usize) -> (r: Result<(), Error>)
    ensures
        got != want ==> (r matches Err(Error::Embedding(m)) && m@ == "embed_batch returned "@
            + decimal(got as nat) + " vectors for "@ + decimal(want as nat) + " tiles"@),
        got == want ==> r is Ok,
{
    if got != want {
        let mut m = String::from_str("embed_batch returned ");
        push_decimal(&mut m, got);
        m.append(" vectors for ");
        push_decimal(&mut m, want);
        m.append(" tiles");
        Err(Error::Embedding(m))
    } else {
        Ok(())
    }
}

/// The metadata of every indexed tile, by external id. Ids are handed out in
/// insertion order from 0, so exactly the ids below the next one are known.
pub struct TileRegistry {
    metadata: HashMap<usize, TileMetadata>,
    next_id: usize,
}

/// What a registry is: the metadata it knows, by id, and the next id it hands out.
pub struct RegistryView {
    /// Metadata by external id.
    pub entries: Map<usize, TileMetadata>,
    /// The id the next registered tile gets.
    pub next_id: usize,
}

impl View for TileRegistry {
    type V = RegistryView;

    closed spec fn view(&self) -> RegistryView {
        RegistryView { entries: self.metadata@, next_id: self.next_id }
    }
}

impl TileRegistry {
    /// Well-formedness: the known ids are exactly those below the next id.
    pub open spec fn wf(&self) -> bool {
        forall|id: usize| #[trigger] self@.entries.contains_key(id) <==> id < self@.next_id
    }

    /// An empty registry; the first tile gets id 0.
    pub fn new() -> (r: Self)
        ensures
            r.wf(),
            r@.entries == Map::<usize, TileMetadata>::empty(),
            r@.next_id == 0,
    {
        TileRegistry { metadata: HashMap::new(), next_id: 0 }
    }

    /// Number of registered tiles.
    pub fn len(&self) -> (r: usize)
        requires
            self.wf(),
        ensures
            r == self@.next_id,
    {
        self.next_id
    }

    /// Record a tile's metadata under the next id, and return that id.
    pub fn register(&mut self, meta: TileMetadata) -> (id: usize)
        requires
            old(self).wf(),
            old(self)@.next_id < usize::MAX,
        ensures
            final(self).wf(),
            id == old(self)@.next_id,
            final(self)@.next_id == old(self)@.next_id + 1,
            final(self)@.entries == old(self)@.entries.insert(id, meta),
    {
        let id = self.next_id;
        let ghost before = self@.entries;
        self.metadata.insert(id, meta);
        self.next_id = id + 1;
        proof {
            assert forall|k: usize| #[trigger] self@.entries.contains_key(k) <==> k < self@.next_id by {
                if k != id {
                    assert(before.contains_key(k) <==> k < id);
                }
            }
        }
        id
    }

    /// The metadata registered under `id`, if any.
    pub fn lookup(&self, id: usize) -> (r: Option<TileMetadata>)
        requires
            self.wf(),
        ensures
            match r {
                Some(m) => self@.entries.contains_key(id) && m@ == self@.entries[id]@,
                None => !self@.entries.contains_key(id),
            },
    {
        match self.metadata.get(&id) {
            Some(m) => Some(m.copy()),
            None => None,
        }
    }

    /// An independent registry holding a copy of every entry.
    pub fn snapshot(&self) -> (r: TileRegistry)
        requires
            self.wf(),
        ensures
            r.wf(),
            r@.next_id == self@.next_id,
            forall|id: usize| #[trigger] r@.entries.contains_key(id) ==> r@.entries[id]@ == self@.entries[id]@,
    {
        let mut out = TileRegistry::new();
        let mut i: usize = 0;
        while i < self.next_id
            invariant
                self.wf(),
                out.wf(),
                i <= self@.next_id,
                out@.next_id == i,
                forall|id: usize| #[trigger] out@.entries.contains_key(id) ==> out@.entries[id]@ == self@.entries[id]@,
            decreases self@.next_id - i,
        {
            proof {
                assert(self@.entries.contains_key(i));
            }
            match self.lookup(i) {
                Some(m) => {
                    out.register(m);
                },
                None => {},
            }
            i = i + 1;
        }
        out
    }

    /// Match raw hits `(id, score)` to their tiles: hits with a registered id
    /// keep their order and gain the tile's metadata; the others are dropped.
    pub fn enrich<R>(&self, hits: Vec<(usize, R)>) -> (r: Vec<(usize, R, TileMetadata)>)
        requires
            self.wf(),
        ensures
            r@.len() == known_hits(hits@, self@.entries).len(),
            forall|i: int|
                0 <= i < r@.len() ==> (#[trigger] r@[i]).0 == known_hits(hits@, self@.entries)[i].0
                    && r@[i].1 == known_hits(hits@, self@.entries)[i].1 && r@[i].2@
                    == self@.entries[r@[i].0]@,
    {
        let ghost src = hits@;
        let ghost m = self@.entries;
        let mut out: Vec<(usize, R, TileMetadata)> = Vec::new();
        let mut rest = hits;
        let ghost mut taken: int = 0;
        while rest.len() > 0
            invariant
                0 <= taken <= src.len(),
                m == self@.entries,
                self.wf(),
                rest@ == src.subrange(taken, src.len() as int),
                out@.len() == known_hits(src.subrange(0, taken), m).len(),
                forall|i: int|
                    0 <= i < out@.len() ==> (#[trigger] out@[i]).0 == known_hits(
                        src.subrange(0, taken),
                        m,
                    )[i].0 && out@[i].1 == known_hits(src.subrange(0, taken), m)[i].1 && out@[i].2@
                        == m[out@[i].0]@,
            decreases rest@.len(),
        {
            let h = rest.remove(0);
            let ghost pre = src.subrange(0, taken + 1);
            proof {
                assert(h == src[taken]);
                assert(pre.drop_last() == src.subrange(0, taken));
                assert(pre.last() == h);
                assert(rest@ =~= src.subrange(taken + 1, src.len() as int));
            }
            let ghost prev = out@;
            let (id, score) = h;
            match self.lookup(id) {
                Some(meta) => {
                    out.push((id, score, meta));
                    proof {
                        assert forall|i: int| 0 <= i < out@.len() implies (#[trigger] out@[i]).0
                            == known_hits(pre, m)[i].0 && out@[i].1 == known_hits(pre, m)[i].1
                            && out@[i].2@ == m[out@[i].0]@ by {
                            if i < prev.len() {
                                assert(out@[i] == prev[i]);
                            }
                        }
                    }
                },
                None => {},
            }
            proof {
                taken = taken + 1;
            }
        }
        proof {
            assert(src.subrange(0, taken) == src);
        }
        out
    }
}

/// The hits whose id is a key of `known`, in order.
pub open spec fn known_hits<R>(hits: Seq<(usize, R)>, known: Map<usize, TileMetadata>) -> Seq<(usize, R)>
    decreases hits.len(),
{
    if hits.len() == 0 {
        Seq::empty()
    } else {
        let rest = known_hits(hits.drop_last(), known);
        if known.contains_key(hits.last().0) {
            rest.push(hits.last())
        } else {
            rest
        }
    }
}

/// What reading back a registered tile gives: registering `meta` in a
/// well-formed registry and then looking up the id it was given yields `meta`,
/// and every id registered before keeps its metadata.
pub proof fn law_register_then_lookup(
    before: RegistryView,
    meta: TileMetadata,
    after: RegistryView,
    id: usize,
)
    requires
        forall|k: usize| #[trigger] before.entries.contains_key(k) <==> k < before.next_id,
        id == before.next_id,
        after.next_id == before.next_id + 1,
        after.entries == before.entries.insert(id, meta),
    ensures
        after.entries.contains_key(id) && after.entries[id] == meta,
        forall|k: usize| k < before.next_id ==> #[trigger] after.entries[k] == before.entries[k],
        forall|k: usize| #[trigger] after.entries.contains_key(k) <==> k < after.next_id,
{
}

/// The batches of `start..n` are contiguous, non-empty, at most `b` long, and
/// run from `start` to `n`.
pub proof fn law_batches_partition(start: nat, n: nat, b: nat)
    requires
        b >= 1,
    ensures
        ({
            let bs = batches_from(start, n, b);
            &&& start < n ==> bs.len() > 0 && bs[0].0 == start && bs.last().1 == n
            &&& start >= n ==> bs.len() == 0
            &&& forall|i: int| 0 <= i < bs.len() ==> #[trigger] bs[i].0 < bs[i].1 <= bs[i].0 + b
            &&& forall|i: int| 0 <= i < bs.len() - 1 ==> #[trigger] bs[i].1 == bs[i + 1].0
        }),
    decreases n - start,
{
    if start < n {
        let end = if start + b <= n {
            start + b
        } else {
            n
        };
        let bs = batches_from(start, n, b);
        let rest = batches_from(end, n, b);
        law_batches_partition(end, n, b);
        assert(bs == seq![(start, end)] + rest);
        assert forall|i: int| 0 <= i < bs.len() implies #[trigger] bs[i].0 < bs[i].1 <= bs[i].0 + b by {
            if i > 0 {
                assert(bs[i] == rest[i - 1]);
            }
        }
        assert forall|i: int| 0 <= i < bs.len() - 1 implies #[trigger] bs[i].1 == bs[i + 1].0 by {
            assert(bs[i + 1] == rest[i]);
            if i > 0 {
                assert(bs[i] == rest[i - 1]);
            }
        }
        if rest.len() > 0 {
            assert(bs.last() == rest.last());
        }
    }
}

} // verus!
