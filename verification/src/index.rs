//! The index adaptor's own rules: the cluster count for inverted-file
//! training, the over-fetch and allowlist post-filter of filtered search, the
//! footprint formulas, the mapping between external ids and backend keys, and
//! the checks each backend applies before handing a vector on.
use vstd::prelude::*;
use vstd::string::*;

use crate::config::IndexBackend;
use crate::error::Error;
use crate::text::{
    all_digits, chars_of, decimal, digit_char, digit_value, digits_value, is_digit, parse_usize,
    parse_usize_spec, push_decimal,
};

verus! {

/// k-means iterations for inverted-file training.
pub const IVF_MAX_ITER: usize = 25;

/// Requested number of inverted lists before clamping to the corpus size.
pub const IVF_REQUESTED_NCLUSTERS: usize = 16;

/// Fixed seed for reproducible k-means centroids.
pub const IVF_SEED: u64 = 0x5158_6c61;

/// The cluster count for a corpus of `n` vectors: the requested count, but at
/// most half the corpus (at least 1) and never more than the corpus.
pub open spec fn nclusters_for(n: usize) -> usize {
    let half = if n / 2 >= 1 {
        n / 2
    } else {
        1
    };
    let cap = if n >= 1 {
        n
    } else {
        1
    };
    let a = if IVF_REQUESTED_NCLUSTERS <= half {
        IVF_REQUESTED_NCLUSTERS
    } else {
        half
    };
    if a <= cap {
        a
    } else {
        cap
    }
}

/// The cluster count for a corpus of `n` vectors (see [`nclusters_for`]).
pub fn effective_nclusters(n: usize) -> (r: usize)
    ensures
        r == nclusters_for(n),
        1 <= r <= IVF_REQUESTED_NCLUSTERS,
        n >= 1 ==> r <= n,
{
    let half = if n / 2 >= 1 {
        n / 2
    } else {
        1
    };
    let cap = if n >= 1 {
        n
    } else {
        1
    };
    let a = if IVF_REQUESTED_NCLUSTERS <= half {
        IVF_REQUESTED_NCLUSTERS
    } else {
        half
    };
    if a <= cap {
        a
    } else {
        cap
    }
}

/// The number of lists to probe: every built list, at least 1.
pub fn probe_count(lists: Option<usize>) -> (r: usize)
    ensures
        r == match lists {
            Some(l) => if l >= 1 {
                l
            } else {
                1
            },
            None => 1,
        },
{
    match lists {
        Some(l) => if l >= 1 {
            l
        } else {
            1
        },
        None => 1,
    }
}

/// How many neighbours a filtered search fetches before filtering: `k` plus
/// the allowlist's length, saturating at the largest `usize`.
pub fn over_fetch(k: usize, allow_len: usize) -> (r: usize)
    ensures
        r as int == if k + allow_len <= usize::MAX {
            k + allow_len
        } else {
            usize::MAX as int
        },
        r >= k,
{
    k.saturating_add(allow_len)
}

/// The hits whose ids are allowed, in order.
pub open spec fn allowed_hits<R>(hits: Seq<(usize, R)>, allow: Seq<usize>) -> Seq<(usize, R)>
    decreases hits.len(),
{
    if hits.len() == 0 {
        Seq::empty()
    } else {
        let rest = allowed_hits(hits.drop_last(), allow);
        if allow.contains(hits.last().0) {
            rest.push(hits.last())
        } else {
            rest
        }
    }
}

/// The first `k` of the allowed hits, in order.
pub open spec fn filtered_top<R>(hits: Seq<(usize, R)>, allow: Seq<usize>, k: usize) -> Seq<(usize, R)> {
    let a = allowed_hits(hits, allow);
    if k as int <= a.len() {
        a.take(k as int)
    } else {
        a
    }
}

fn is_allowed(allow: &Vec<usize>, id: usize) -> (r: bool)
    ensures
        r == allow@.contains(id),
{
    let mut i: usize = 0;
    while i < allow.len()
        invariant
            i <= allow@.len(),
            forall|j: int| 0 <= j < i ==> allow@[j] != id,
        decreases allow@.len() - i,
    {
        if allow[i] == id {
            return true;
        }
        i = i + 1;
    }
    false
}

/// Keep the hits whose id is in `allow`, in order, then the first `k` of them.
pub fn retain_allowed<R>(hits: Vec<(usize, R)>, allow: &Vec<usize>, k: usize) -> (r: Vec<(usize, R)>)
    ensures
        r@ == filtered_top(hits@, allow@, k),
{
    let ghost src = hits@;
    let mut out: Vec<(usize, R)> = Vec::new();
    let mut rest = hits;
    let ghost mut taken: int = 0;
    while rest.len() > 0
        invariant
            0 <= taken <= src.len(),
            rest@ == src.subrange(taken, src.len() as int),
            out@ == allowed_hits(src.subrange(0, taken), allow@),
        decreases rest@.len(),
    {
        let h = rest.remove(0);
        proof {
            assert(h == src[taken]);
            assert(src.subrange(0, taken + 1).drop_last() == src.subrange(0, taken));
            assert(src.subrange(0, taken + 1).last() == h);
            assert(rest@ =~= src.subrange(taken + 1, src.len() as int));
        }
        if is_allowed(allow, h.0) {
            out.push(h);
        }
        proof {
            taken = taken + 1;
        }
    }
    proof {
        assert(src.subrange(0, taken) == src);
    }
    out.truncate(k);
    out
}

/// The positions of `ps` that index a table of `n` entries, in order.
pub open spec fn in_range(ps: Seq<usize>, n: nat) -> Seq<usize>
    decreases ps.len(),
{
    if ps.len() == 0 {
        Seq::empty()
    } else {
        let rest = in_range(ps.drop_last(), n);
        if ps.last() < n {
            rest.push(ps.last())
        } else {
            rest
        }
    }
}

/// The external ids behind backend positions: `table[p]` for each position `p`
/// that indexes `table`, in order; other positions are dropped.
pub fn external_ids(table: &Vec<usize>, positions: &Vec<usize>) -> (r: Vec<usize>)
    ensures
        r@.len() == in_range(positions@, table@.len()).len(),
        forall|i: int|
            0 <= i < r@.len() ==> #[trigger] r@[i] == table@[in_range(positions@, table@.len())[i] as int],
{
    let mut out: Vec<usize> = Vec::new();
    let mut i: usize = 0;
    while i < positions.len()
        invariant
            i <= positions@.len(),
            out@.len() == in_range(positions@.subrange(0, i as int), table@.len()).len(),
            forall|a: int|
                0 <= a < out@.len() ==> #[trigger] out@[a] == table@[in_range(
                    positions@.subrange(0, i as int),
                    table@.len(),
                )[a] as int],
        decreases positions@.len() - i,
    {
        let ghost pre = positions@.subrange(0, i + 1);
        proof {
            assert(pre.drop_last() == positions@.subrange(0, i as int));
            assert(pre.last() == positions@[i as int]);
        }
        let p = positions[i];
        if p < table.len() {
            let ghost prev = out@;
            out.push(table[p]);
            proof {
                assert forall|a: int| 0 <= a < out@.len() implies #[trigger] out@[a] == table@[in_range(
                    pre,
                    table@.len(),
                )[a] as int] by {
                    if a < prev.len() {
                        assert(out@[a] == prev[a]);
                    }
                }
            }
        }
        i = i + 1;
    }
    proof {
        assert(positions@.subrange(0, i as int) == positions@);
    }
    out
}

/// Bytes per stored vector component.
pub const COMPONENT_BYTES: usize = 4;

/// Footprint of a graph index of `n` vectors of width `dim`: the vectors plus
/// one id word per vector.
pub open spec fn graph_footprint(n: usize, dim: usize, word: usize) -> int {
    n * dim * COMPONENT_BYTES + n * word
}

/// Footprint of a graph index of `n` vectors of width `dim` (vectors plus one
/// id word each).
pub fn graph_memory_bytes(n: usize, dim: usize) -> (r: usize)
    requires
        graph_footprint(n, dim, vstd::layout::size_of::<usize>() as usize) <= usize::MAX,
    ensures
        r == graph_footprint(n, dim, vstd::layout::size_of::<usize>() as usize),
{
    let word = std::mem::size_of::<usize>();
    proof {
        assert(0 <= n * dim * COMPONENT_BYTES <= n * dim * COMPONENT_BYTES + n * word) by (nonlinear_arith);
        assert(0 <= n * dim <= n * dim * COMPONENT_BYTES) by (nonlinear_arith);
        assert(0 <= n * word) by (nonlinear_arith);
    }
    n * dim * COMPONENT_BYTES + n * word
}

/// Footprint of an inverted-file index: the graph footprint formula plus the
/// centroid table (`lists` vectors of width `dim`).
pub open spec fn inverted_footprint(n: usize, dim: usize, lists: usize, word: usize) -> int {
    graph_footprint(n, dim, word) + lists * dim * COMPONENT_BYTES
}

/// Footprint of an inverted-file index with `lists` built lists.
pub fn inverted_memory_bytes(n: usize, dim: usize, lists: usize) -> (r: usize)
    requires
        inverted_footprint(n, dim, lists, vstd::layout::size_of::<usize>() as usize) <= usize::MAX,
    ensures
        r == inverted_footprint(n, dim, lists, vstd::layout::size_of::<usize>() as usize),
{
    let word = std::mem::size_of::<usize>();
    proof {
        assert(0 <= n * dim * COMPONENT_BYTES + n * word) by (nonlinear_arith);
        assert(0 <= lists * dim * COMPONENT_BYTES) by (nonlinear_arith);
        assert(0 <= lists * dim <= lists * dim * COMPONENT_BYTES) by (nonlinear_arith);
    }
    let base = graph_memory_bytes(n, dim);
    base + lists * dim * COMPONENT_BYTES
}

/// The backend key of an external id: its decimal rendering.
pub fn id_key(id: usize) -> (r: String)
    ensures
        r@ == decimal(id as nat),
{
    let mut s = String::new();
    push_decimal(&mut s, id);
    s
}

/// The external id a backend key names, when the key is a decimal `usize`.
pub fn key_id(key: &str) -> (r: Option<usize>)
    ensures
        r == parse_usize_spec(key@),
{
    parse_usize(&chars_of(key))
}

proof fn lemma_digit_char(d: nat)
    requires
        d < 10,
    ensures
        is_digit(digit_char(d)),
        digit_value(digit_char(d)) == d,
{
    let c = digit_char(d);
    assert(c as u32 == 48 + d) by {
        assert(('0' as u32) == 48);
    }
}

proof fn lemma_decimal_digits(n: nat)
    ensures
        decimal(n).len() >= 1,
        all_digits(decimal(n)),
        digits_value(decimal(n)) == n,
    decreases n,
{
    if n < 10 {
        lemma_digit_char(n);
        assert(decimal(n).drop_last() =~= Seq::<char>::empty());
        assert(digits_value(decimal(n)) == digits_value(Seq::<char>::empty()) * 10 + digit_value(digit_char(n)));
    } else {
        lemma_decimal_digits(n / 10);
        lemma_digit_char(n % 10);
        let s = decimal(n);
        assert(s.drop_last() =~= decimal(n / 10));
        assert(s.last() == digit_char(n % 10));
        assert(digits_value(s) == digits_value(decimal(n / 10)) * 10 + digit_value(digit_char(n % 10)));
        assert(n == (n / 10) * 10 + n % 10);
        assert(forall|j: int| 0 <= j < s.len() - 1 ==> #[trigger] s[j] == decimal(n / 10)[j]);
    }
}

/// Reading back the key of an id gives the id.
pub proof fn law_key_round_trip(id: usize)
    ensures
        parse_usize_spec(decimal(id as nat)) == Some(id),
{
    lemma_decimal_digits(id as nat);
    let s = decimal(id as nat);
    assert(is_digit(s[0]));
}

/// An index of width 0 is refused.
pub fn check_index_dim(dim: usize) -> (r: Result<(), Error>)
    ensures
        dim == 0 ==> (r matches Err(Error::Index(m)) && m@ == "embedding dimension must be > 0"@),
        dim != 0 ==> r is Ok,
{
    if dim == 0 {
        Err(Error::Index(String::from_str("embedding dimension must be > 0")))
    } else {
        Ok(())
    }
}

/// The message for a `what` vector of width `got` offered to an index of width `dim`.
pub open spec fn width_mismatch_text(what: Seq<char>, got: nat, dim: nat) -> Seq<char> {
    what + " dim "@ + decimal(got) + " != index dim "@ + decimal(dim)
}

fn check_width(what: &str, got: usize, dim: usize) -> (r: Result<(), Error>)
    ensures
        got != dim ==> (r matches Err(Error::Index(m)) && m@ == width_mismatch_text(
            what@,
            got as nat,
            dim as nat,
        )),
        got == dim ==> r is Ok,
{
    if got != dim {
        let mut m = String::from_str(what);
        m.append(" dim ");
        push_decimal(&mut m, got);
        m.append(" != index dim ");
        push_decimal(&mut m, dim);
        Err(Error::Index(m))
    } else {
        Ok(())
    }
}

/// A vector to add must have the index's width.
pub fn check_embedding_width(got: usize, dim: usize) -> (r: Result<(), Error>)
    ensures
        got != dim ==> (r matches Err(Error::Index(m)) && m@ == width_mismatch_text(
            "embedding"@,
            got as nat,
            dim as nat,
        )),
        got == dim ==> r is Ok,
{
    check_width("embedding", got, dim)
}

/// A query must have the index's width.
pub fn check_query_width(got: usize, dim: usize) -> (r: Result<(), Error>)
    ensures
        got != dim ==> (r matches Err(Error::Index(m)) && m@ == width_mismatch_text(
            "query"@,
            got as nat,
            dim as nat,
        )),
        got == dim ==> r is Ok,
{
    check_width("query", got, dim)
}

/// Why a backend cannot be built, if it cannot.
pub open spec fn backend_unavailable(b: IndexBackend) -> Option<Seq<char>> {
    match b {
        IndexBackend::IvfSq => Some(
            "IVF-SQ backend (ruvector-rairs, ADR-193) is the M1 fallback and not yet wired; use IndexBackend::IvfFlat for the IVF path or IndexBackend::Hnsw"@,
        ),
        _ => None,
    }
}

/// Whether a backend can be built: the scalar-quantized inverted file is not
/// available.
pub fn check_backend(b: IndexBackend) -> (r: Result<(), Error>)
    ensures
        match backend_unavailable(b) {
            Some(m) => r matches Err(Error::Index(s)) && s@ == m,
            None => r is Ok,
        },
{
    match b {
        IndexBackend::IvfSq => Err(
            Error::Index(
                String::from_str(
                    "IVF-SQ backend (ruvector-rairs, ADR-193) is the M1 fallback and not yet wired; use IndexBackend::IvfFlat for the IVF path or IndexBackend::Hnsw",
                ),
            ),
        ),
        _ => Ok(()),
    }
}

/// The error of a search on an inverted-file index that was never built.
pub fn not_finalized() -> (r: Error)
    ensures
        r matches Error::Index(m) && m@
            == "IVF index not finalized; call AnnIndex::finalize (or Pipeline ingest) before search"@,
{
    Error::Index(
        String::from_str(
            "IVF index not finalized; call AnnIndex::finalize (or Pipeline ingest) before search",
        ),
    )
}

proof fn lemma_allowed_hits<R>(hits: Seq<(usize, R)>, allow: Seq<usize>)
    ensures
        allowed_hits(hits, allow).len() <= hits.len(),
        forall|i: int|
            0 <= i < allowed_hits(hits, allow).len() ==> allow.contains(
                #[trigger] allowed_hits(hits, allow)[i].0,
            ) && hits.contains(allowed_hits(hits, allow)[i]),
        forall|i: int|
            0 <= i < hits.len() && allow.contains(#[trigger] hits[i].0) ==> allowed_hits(
                hits,
                allow,
            ).contains(hits[i]),
    decreases hits.len(),
{
    if hits.len() > 0 {
        let pre = hits.drop_last();
        lemma_allowed_hits(pre, allow);
        let a = allowed_hits(hits, allow);
        let ap = allowed_hits(pre, allow);
        assert forall|i: int| 0 <= i < a.len() implies allow.contains(#[trigger] a[i].0) && hits.contains(a[i]) by {
            if i < ap.len() {
                assert(a[i] == ap[i]);
                let j = choose|j: int| 0 <= j < pre.len() && pre[j] == ap[i];
                assert(hits[j] == ap[i]);
            } else {
                assert(a[i] == hits.last());
                assert(hits[hits.len() - 1] == hits.last());
            }
        }
        assert forall|i: int| 0 <= i < hits.len() && allow.contains(#[trigger] hits[i].0) implies a.contains(hits[i]) by {
            if i < hits.len() - 1 {
                assert(pre[i] == hits[i]);
                let j = choose|j: int| 0 <= j < ap.len() && ap[j] == pre[i];
                assert(a[j] == ap[j]);
            } else {
                assert(a[a.len() - 1] == hits.last());
            }
        }
    }
}

/// A filtered search keeps its promise: at most `k` hits, each with an allowed
/// id and each among the hits it filtered; and when fewer than `k` hits are
/// allowed, every allowed hit is kept.
pub proof fn law_filtered_hits_allowed<R>(hits: Seq<(usize, R)>, allow: Seq<usize>, k: usize)
    ensures
        filtered_top(hits, allow, k).len() <= k,
        forall|i: int|
            0 <= i < filtered_top(hits, allow, k).len() ==> allow.contains(
                #[trigger] filtered_top(hits, allow, k)[i].0,
            ) && hits.contains(filtered_top(hits, allow, k)[i]),
        allowed_hits(hits, allow).len() <= k ==> forall|i: int|
            0 <= i < hits.len() && allow.contains(#[trigger] hits[i].0) ==> filtered_top(
                hits,
                allow,
                k,
            ).contains(hits[i]),
{
    lemma_allowed_hits(hits, allow);
    let a = allowed_hits(hits, allow);
    let f = filtered_top(hits, allow, k);
    assert forall|i: int| 0 <= i < f.len() implies allow.contains(#[trigger] f[i].0) && hits.contains(f[i]) by {
        assert(f[i] == a[i]);
        assert(allow.contains(a[i].0));
    }
    if a.len() <= k {
        assert(f == a);
    }
}

} // verus!
