//! The counting side of the retrieval metrics: which queries are scored, how
//! many relevant ids each retrieved, where the first relevant hit ranks, and
//! the graded gains NDCG discounts. The final ratios and logarithms are taken
//! where the report is assembled.
use vstd::prelude::*;

use crate::bench::{ranked_view, GroundTruth, Predictions};
use crate::json::strings_view;

verus! {

/// The relevant ids listed for `qid` (the first entry for it), if any.
pub open spec fn relevant_for(gt: Seq<(Seq<char>, Seq<Seq<char>>)>, qid: Seq<char>) -> Option<
    Seq<Seq<char>>,
>
    decreases gt.len(),
{
    if gt.len() == 0 {
        None
    } else if gt[0].0 == qid {
        Some(gt[0].1)
    } else {
        relevant_for(gt.drop_first(), qid)
    }
}

/// The first `k` items (all of them when there are fewer).
pub open spec fn top(s: Seq<Seq<char>>, k: usize) -> Seq<Seq<char>> {
    if k as int <= s.len() {
        s.take(k as int)
    } else {
        s
    }
}

/// How many entries of `rel` occur in `found` (duplicates in `rel` count each).
pub open spec fn count_found(rel: Seq<Seq<char>>, found: Seq<Seq<char>>) -> nat
    decreases rel.len(),
{
    if rel.len() == 0 {
        0
    } else {
        count_found(rel.drop_last(), found) + if found.contains(rel.last()) {
            1nat
        } else {
            0nat
        }
    }
}

/// For each query that has a non-empty relevant list: how many of its relevant
/// ids are among its top `k` predictions, and how many relevant ids it has.
pub open spec fn recall_counts_spec(
    preds: Seq<(Seq<char>, Seq<Seq<char>>)>,
    gt: Seq<(Seq<char>, Seq<Seq<char>>)>,
    k: usize,
) -> Seq<(nat, nat)>
    decreases preds.len(),
{
    if preds.len() == 0 {
        Seq::empty()
    } else {
        let rest = recall_counts_spec(preds.drop_last(), gt, k);
        let p = preds.last();
        match relevant_for(gt, p.0) {
            Some(rel) => if rel.len() > 0 {
                rest.push((count_found(rel, top(p.1, k)), rel.len()))
            } else {
                rest
            },
            None => rest,
        }
    }
}

/// 1-based rank of the first entry of `ranked` that occurs in `rel`.
pub open spec fn first_hit(ranked: Seq<Seq<char>>, rel: Seq<Seq<char>>) -> Option<nat>
    decreases ranked.len(),
{
    if ranked.len() == 0 {
        None
    } else if rel.contains(ranked[0]) {
        Some(1)
    } else {
        match first_hit(ranked.drop_first(), rel) {
            Some(r) => Some(r + 1),
            None => None,
        }
    }
}

/// For each query that has a non-empty relevant list: the rank of its first
/// relevant prediction, if any.
pub open spec fn first_ranks_spec(
    preds: Seq<(Seq<char>, Seq<Seq<char>>)>,
    gt: Seq<(Seq<char>, Seq<Seq<char>>)>,
) -> Seq<Option<nat>>
    decreases preds.len(),
{
    if preds.len() == 0 {
        Seq::empty()
    } else {
        let rest = first_ranks_spec(preds.drop_last(), gt);
        let p = preds.last();
        match relevant_for(gt, p.0) {
            Some(rel) => if rel.len() > 0 {
                rest.push(first_hit(p.1, rel))
            } else {
                rest
            },
            None => rest,
        }
    }
}

/// Index of the last occurrence of `t` in `rel`.
pub open spec fn last_index(rel: Seq<Seq<char>>, t: Seq<char>) -> Option<nat>
    decreases rel.len(),
{
    if rel.len() == 0 {
        None
    } else if rel.last() == t {
        Some((rel.len() - 1) as nat)
    } else {
        last_index(rel.drop_last(), t)
    }
}

/// Graded relevance of `t`: `n - i` for the last position `i` at which it is
/// listed among the `n` relevant ids, 0 when it is not listed.
pub open spec fn grade(rel: Seq<Seq<char>>, t: Seq<char>) -> nat {
    match last_index(rel, t) {
        Some(i) => (rel.len() - i) as nat,
        None => 0,
    }
}

/// `(position, grade)` of each entry of `t` with a positive grade.
pub open spec fn graded_hits(t: Seq<Seq<char>>, rel: Seq<Seq<char>>) -> Seq<(nat, nat)>
    decreases t.len(),
{
    if t.len() == 0 {
        Seq::empty()
    } else {
        let rest = graded_hits(t.drop_last(), rel);
        let g = grade(rel, t.last());
        if g > 0 {
            rest.push(((t.len() - 1) as nat, g))
        } else {
            rest
        }
    }
}

/// `(position, grade)` of each of the top `k` predictions with a positive grade.
pub open spec fn gains(ranked: Seq<Seq<char>>, rel: Seq<Seq<char>>, k: usize) -> Seq<(nat, nat)> {
    graded_hits(top(ranked, k), rel)
}

/// The grades of the distinct relevant ids, in decreasing order: one per last
/// occurrence, `n - i` for each such position `i`.
pub open spec fn ideal_grades(rel: Seq<Seq<char>>, upto: int) -> Seq<nat>
    decreases upto,
{
    if upto <= 0 {
        Seq::empty()
    } else {
        let rest = ideal_grades(rel, upto - 1);
        let i = upto - 1;
        if last_index(rel, rel[i]) == Some(i as nat) {
            rest.push((rel.len() - i) as nat)
        } else {
            rest
        }
    }
}

/// The NDCG inputs of one query.
pub struct NdcgInput {
    /// `(position, grade)` of each top-`k` prediction with a positive grade.
    pub gains: Vec<(usize, u64)>,
    /// The best achievable grades, decreasing, at most `k` of them.
    pub ideal: Vec<u64>,
}

/// Whether `x` holds exactly the gains and ideal grades `want`.
pub open spec fn ndcg_input_matches(x: NdcgInput, want: (Seq<(nat, nat)>, Seq<nat>)) -> bool {
    &&& x.gains@.len() == want.0.len()
    &&& forall|a: int|
        0 <= a < x.gains@.len() ==> (#[trigger] x.gains@[a]).0 as nat == want.0[a].0
            && x.gains@[a].1 as nat == want.0[a].1
    &&& x.ideal@.len() == want.1.len()
    &&& forall|a: int| 0 <= a < x.ideal@.len() ==> (#[trigger] x.ideal@[a]) as nat == want.1[a]
}

/// The NDCG inputs of each query that has a non-empty relevant list.
pub open spec fn ndcg_inputs_spec(
    preds: Seq<(Seq<char>, Seq<Seq<char>>)>,
    gt: Seq<(Seq<char>, Seq<Seq<char>>)>,
    k: usize,
) -> Seq<(Seq<(nat, nat)>, Seq<nat>)>
    decreases preds.len(),
{
    if preds.len() == 0 {
        Seq::empty()
    } else {
        let rest = ndcg_inputs_spec(preds.drop_last(), gt, k);
        let p = preds.last();
        match relevant_for(gt, p.0) {
            Some(rel) => if rel.len() > 0 {
                let ideal = ideal_grades(rel, rel.len() as int);
                rest.push(
                    (
                        gains(p.1, rel, k),
                        if k as int <= ideal.len() {
                            ideal.take(k as int)
                        } else {
                            ideal
                        },
                    ),
                )
            } else {
                rest
            },
            None => rest,
        }
    }
}

} // verus!

verus! {

proof fn lemma_top_index(s: Seq<Seq<char>>, k: usize, x: Seq<char>)
    ensures
        top(s, k).contains(x) <==> exists|i: int| 0 <= i < s.len() && i < k && s[i] == x,
{
    let t = top(s, k);
    if t.contains(x) {
        let i = choose|i: int| 0 <= i < t.len() && t[i] == x;
        assert(s[i] == x);
    }
    if exists|i: int| 0 <= i < s.len() && i < k && s[i] == x {
        let i = choose|i: int| 0 <= i < s.len() && i < k && s[i] == x;
        assert(t[i] == x);
    }
}

/// Whether `x` is among the first `k` entries of `v`.
fn in_top(v: &Vec<String>, k: usize, x: &String) -> (r: bool)
    ensures
        r == top(strings_view(v@), k).contains(x@),
{
    let mut i: usize = 0;
    while i < v.len() && i < k
        invariant
            i <= v@.len(),
            forall|j: int| 0 <= j < i ==> v@[j]@ != x@,
        decreases v@.len() - i,
    {
        if v[i] == *x {
            proof {
                assert(strings_view(v@)[i as int] == x@);
                lemma_top_index(strings_view(v@), k, x@);
            }
            return true;
        }
        i = i + 1;
    }
    proof {
        assert forall|j: int| 0 <= j < strings_view(v@).len() && j < k implies strings_view(v@)[j]
            != x@ by {
            assert(strings_view(v@)[j] == v@[j]@);
        }
        lemma_top_index(strings_view(v@), k, x@);
    }
    false
}

/// Whether `x` occurs in `v`.
fn contains_string(v: &Vec<String>, x: &String) -> (r: bool)
    ensures
        r == strings_view(v@).contains(x@),
{
    let n = v.len();
    proof {
        assert(top(strings_view(v@), n) =~= strings_view(v@));
    }
    in_top(v, n, x)
}

impl GroundTruth {
    /// The relevant ids listed for a query (its first entry), if any.
    pub fn relevant_ids(&self, qid: &String) -> (r: Option<&Vec<String>>)
        ensures
            match r {
                Some(v) => relevant_for(ranked_view(self.by_query@), qid@) == Some(
                    strings_view(v@),
                ),
                None => relevant_for(ranked_view(self.by_query@), qid@) is None,
            },
    {
        let ghost all = ranked_view(self.by_query@);
        let mut i: usize = 0;
        proof {
            assert(all.subrange(0, all.len() as int) == all);
        }
        while i < self.by_query.len()
            invariant
                i <= self.by_query@.len(),
                all == ranked_view(self.by_query@),
                relevant_for(all, qid@) == relevant_for(all.subrange(i as int, all.len() as int), qid@),
            decreases self.by_query@.len() - i,
        {
            let ghost rest = all.subrange(i as int, all.len() as int);
            proof {
                assert(rest[0] == all[i as int]);
                assert(rest.drop_first() == all.subrange(i + 1, all.len() as int));
            }
            if self.by_query[i].0 == *qid {
                return Some(&self.by_query[i].1);
            }
            i = i + 1;
        }
        None
    }
}

fn count_found_exec(rel: &Vec<String>, ranked: &Vec<String>, k: usize) -> (r: usize)
    ensures
        r == count_found(strings_view(rel@), top(strings_view(ranked@), k)),
{
    let mut n: usize = 0;
    let mut j: usize = 0;
    while j < rel.len()
        invariant
            j <= rel@.len(),
            n <= j,
            n == count_found(strings_view(rel@).subrange(0, j as int), top(strings_view(ranked@), k)),
        decreases rel@.len() - j,
    {
        proof {
            let pre = strings_view(rel@).subrange(0, j + 1);
            assert(pre.drop_last() == strings_view(rel@).subrange(0, j as int));
            assert(pre.last() == rel@[j as int]@);
        }
        if in_top(ranked, k, &rel[j]) {
            n = n + 1;
        }
        j = j + 1;
    }
    proof {
        assert(strings_view(rel@).subrange(0, j as int) == strings_view(rel@));
    }
    n
}

/// For each scored query (one with a non-empty relevant list), in prediction
/// order: `(relevant ids found in its top k, relevant ids)`. Recall@k is the
/// mean of their ratios.
pub fn recall_counts(preds: &Predictions, gt: &GroundTruth, k: usize) -> (r: Vec<(usize, usize)>)
    ensures
        r@.len() == recall_counts_spec(ranked_view(preds.by_query@), ranked_view(gt.by_query@), k).len(),
        forall|i: int|
            0 <= i < r@.len() ==> (#[trigger] r@[i]).0 as nat == recall_counts_spec(
                ranked_view(preds.by_query@),
                ranked_view(gt.by_query@),
                k,
            )[i].0 && r@[i].1 as nat == recall_counts_spec(
                ranked_view(preds.by_query@),
                ranked_view(gt.by_query@),
                k,
            )[i].1,
{
    let ghost pv = ranked_view(preds.by_query@);
    let ghost gv = ranked_view(gt.by_query@);
    let mut out: Vec<(usize, usize)> = Vec::new();
    let mut i: usize = 0;
    while i < preds.by_query.len()
        invariant
            i <= preds.by_query@.len(),
            pv == ranked_view(preds.by_query@),
            gv == ranked_view(gt.by_query@),
            out@.len() == recall_counts_spec(pv.subrange(0, i as int), gv, k).len(),
            forall|a: int|
                0 <= a < out@.len() ==> (#[trigger] out@[a]).0 as nat == recall_counts_spec(
                    pv.subrange(0, i as int),
                    gv,
                    k,
                )[a].0 && out@[a].1 as nat == recall_counts_spec(pv.subrange(0, i as int), gv, k)[a].1,
        decreases preds.by_query@.len() - i,
    {
        let ghost pre = pv.subrange(0, i + 1);
        proof {
            assert(pre.drop_last() == pv.subrange(0, i as int));
            assert(pre.last() == pv[i as int]);
        }
        let ghost prev = out@;
        match gt.relevant_ids(&preds.by_query[i].0) {
            Some(rel) => {
                if rel.len() > 0 {
                    let hits = count_found_exec(rel, &preds.by_query[i].1, k);
                    out.push((hits, rel.len()));
                    proof {
                        assert forall|a: int| 0 <= a < out@.len() implies (#[trigger] out@[a]).0 as nat
                            == recall_counts_spec(pre, gv, k)[a].0 && out@[a].1 as nat
                            == recall_counts_spec(pre, gv, k)[a].1 by {
                            if a < prev.len() {
                                assert(out@[a] == prev[a]);
                            }
                        }
                    }
                }
            },
            None => {},
        }
        i = i + 1;
    }
    proof {
        assert(pv.subrange(0, i as int) == pv);
    }
    out
}

fn first_hit_exec(ranked: &Vec<String>, rel: &Vec<String>) -> (r: Option<usize>)
    ensures
        match first_hit(strings_view(ranked@), strings_view(rel@)) {
            Some(x) => r == Some(x as usize),
            None => r is None,
        },
{
    let ghost rv = strings_view(ranked@);
    let mut i: usize = 0;
    proof {
        assert(rv.subrange(0, rv.len() as int) == rv);
    }
    while i < ranked.len()
        invariant
            i <= ranked@.len(),
            rv == strings_view(ranked@),
            match first_hit(rv, strings_view(rel@)) {
                Some(x) => match first_hit(rv.subrange(i as int, rv.len() as int), strings_view(rel@)) {
                    Some(y) => x == y + i,
                    None => false,
                },
                None => first_hit(rv.subrange(i as int, rv.len() as int), strings_view(rel@)) is None,
            },
        decreases ranked@.len() - i,
    {
        let ghost rest = rv.subrange(i as int, rv.len() as int);
        proof {
            assert(rest[0] == rv[i as int]);
            assert(rest.drop_first() == rv.subrange(i + 1, rv.len() as int));
            assert(rv[i as int] == ranked@[i as int]@);
        }
        if contains_string(rel, &ranked[i]) {
            return Some(i + 1);
        }
        i = i + 1;
    }
    None
}

/// For each scored query, in prediction order: the 1-based rank of its first
/// relevant prediction, if any. MRR is the mean of the reciprocal ranks (0 for
/// none).
pub fn first_relevant_ranks(preds: &Predictions, gt: &GroundTruth) -> (r: Vec<Option<usize>>)
    ensures
        r@.len() == first_ranks_spec(ranked_view(preds.by_query@), ranked_view(gt.by_query@)).len(),
        forall|i: int|
            0 <= i < r@.len() ==> match first_ranks_spec(
                ranked_view(preds.by_query@),
                ranked_view(gt.by_query@),
            )[i] {
                Some(x) => #[trigger] r@[i] == Some(x as usize),
                None => r@[i] is None,
            },
{
    let ghost pv = ranked_view(preds.by_query@);
    let ghost gv = ranked_view(gt.by_query@);
    let mut out: Vec<Option<usize>> = Vec::new();
    let mut i: usize = 0;
    while i < preds.by_query.len()
        invariant
            i <= preds.by_query@.len(),
            pv == ranked_view(preds.by_query@),
            gv == ranked_view(gt.by_query@),
            out@.len() == first_ranks_spec(pv.subrange(0, i as int), gv).len(),
            forall|a: int|
                0 <= a < out@.len() ==> match first_ranks_spec(pv.subrange(0, i as int), gv)[a] {
                    Some(x) => #[trigger] out@[a] == Some(x as usize),
                    None => out@[a] is None,
                },
        decreases preds.by_query@.len() - i,
    {
        let ghost pre = pv.subrange(0, i + 1);
        proof {
            assert(pre.drop_last() == pv.subrange(0, i as int));
            assert(pre.last() == pv[i as int]);
        }
        let ghost prev = out@;
        match gt.relevant_ids(&preds.by_query[i].0) {
            Some(rel) => {
                if rel.len() > 0 {
                    let fr = first_hit_exec(&preds.by_query[i].1, rel);
                    out.push(fr);
                    proof {
                        assert forall|a: int| 0 <= a < out@.len() implies match first_ranks_spec(
                            pre,
                            gv,
                        )[a] {
                            Some(x) => #[trigger] out@[a] == Some(x as usize),
                            None => out@[a] is None,
                        } by {
                            if a < prev.len() {
                                assert(out@[a] == prev[a]);
                            }
                        }
                    }
                }
            },
            None => {},
        }
        i = i + 1;
    }
    proof {
        assert(pv.subrange(0, i as int) == pv);
    }
    out
}

fn last_index_exec(rel: &Vec<String>, t: &String) -> (r: Option<usize>)
    ensures
        match last_index(strings_view(rel@), t@) {
            Some(i) => r == Some(i as usize),
            None => r is None,
        },
{
    let ghost rv = strings_view(rel@);
    let mut j: usize = rel.len();
    proof {
        assert(rv.subrange(0, j as int) == rv);
    }
    while j > 0
        invariant
            j <= rel@.len(),
            rv == strings_view(rel@),
            last_index(rv, t@) == last_index(rv.subrange(0, j as int), t@),
        decreases j,
    {
        let ghost pre = rv.subrange(0, j as int);
        proof {
            assert(pre.last() == rel@[j - 1]@);
            assert(pre.drop_last() == rv.subrange(0, j - 1));
        }
        if rel[j - 1] == *t {
            return Some(j - 1);
        }
        j = j - 1;
    }
    None
}

fn grade_exec(rel: &Vec<String>, t: &String) -> (r: u64)
    ensures
        r as nat == grade(strings_view(rel@), t@),
{
    match last_index_exec(rel, t) {
        Some(i) => {
            proof {
                lemma_last_index_bound(strings_view(rel@), t@);
            }
            (rel.len() - i) as u64
        },
        None => 0,
    }
}

proof fn lemma_last_index_bound(rel: Seq<Seq<char>>, t: Seq<char>)
    ensures
        match last_index(rel, t) {
            Some(i) => i < rel.len() && rel[i as int] == t,
            None => forall|j: int| 0 <= j < rel.len() ==> rel[j] != t,
        },
    decreases rel.len(),
{
    if rel.len() > 0 {
        lemma_last_index_bound(rel.drop_last(), t);
        if rel.last() != t {
            assert forall|j: int| 0 <= j < rel.len() - 1 implies rel[j] == rel.drop_last()[j] by {}
        }
    }
}

fn gains_exec(ranked: &Vec<String>, rel: &Vec<String>, k: usize) -> (r: Vec<(usize, u64)>)
    ensures
        r@.len() == gains(strings_view(ranked@), strings_view(rel@), k).len(),
        forall|a: int|
            0 <= a < r@.len() ==> (#[trigger] r@[a]).0 as nat == gains(
                strings_view(ranked@),
                strings_view(rel@),
                k,
            )[a].0 && r@[a].1 as nat == gains(strings_view(ranked@), strings_view(rel@), k)[a].1,
{
    let ghost t = top(strings_view(ranked@), k);
    let ghost rv = strings_view(rel@);
    let mut out: Vec<(usize, u64)> = Vec::new();
    let mut j: usize = 0;
    while j < ranked.len() && j < k
        invariant
            j <= ranked@.len(),
            j <= t.len(),
            t == top(strings_view(ranked@), k),
            rv == strings_view(rel@),
            out@.len() == graded_hits(t.subrange(0, j as int), rv).len(),
            forall|a: int|
                0 <= a < out@.len() ==> (#[trigger] out@[a]).0 as nat == graded_hits(
                    t.subrange(0, j as int),
                    rv,
                )[a].0 && out@[a].1 as nat == graded_hits(t.subrange(0, j as int), rv)[a].1,
        decreases ranked@.len() - j,
    {
        let ghost pre = t.subrange(0, j + 1);
        proof {
            assert(pre.drop_last() == t.subrange(0, j as int));
            assert(pre.last() == ranked@[j as int]@);
        }
        let ghost prev = out@;
        let g = grade_exec(rel, &ranked[j]);
        if g > 0 {
            out.push((j, g));
            proof {
                assert forall|a: int| 0 <= a < out@.len() implies (#[trigger] out@[a]).0 as nat
                    == graded_hits(pre, rv)[a].0 && out@[a].1 as nat == graded_hits(pre, rv)[a].1 by {
                    if a < prev.len() {
                        assert(out@[a] == prev[a]);
                    }
                }
            }
        }
        j = j + 1;
    }
    proof {
        assert(t.subrange(0, j as int) == t);
    }
    out
}

fn ideal_exec(rel: &Vec<String>, k: usize) -> (r: Vec<u64>)
    ensures
        ({
            let ideal = ideal_grades(strings_view(rel@), rel@.len() as int);
            let want = if k as int <= ideal.len() {
                ideal.take(k as int)
            } else {
                ideal
            };
            &&& r@.len() == want.len()
            &&& forall|a: int| 0 <= a < r@.len() ==> (#[trigger] r@[a]) as nat == want[a]
        }),
{
    let ghost rv = strings_view(rel@);
    let mut out: Vec<u64> = Vec::new();
    let mut i: usize = 0;
    while i < rel.len()
        invariant
            i <= rel@.len(),
            rv == strings_view(rel@),
            out@.len() == ideal_grades(rv, i as int).len(),
            forall|a: int|
                0 <= a < out@.len() ==> (#[trigger] out@[a]) as nat == ideal_grades(rv, i as int)[a],
        decreases rel@.len() - i,
    {
        let ghost prev = out@;
        proof {
            assert(rv[i as int] == rel@[i as int]@);
            lemma_last_index_bound(rv, rv[i as int]);
        }
        let is_last = match last_index_exec(rel, &rel[i]) {
            Some(j) => j == i,
            None => false,
        };
        proof {
            assert(ideal_grades(rv, i + 1) == if last_index(rv, rv[i as int]) == Some(i as nat) {
                ideal_grades(rv, i as int).push((rv.len() - i) as nat)
            } else {
                ideal_grades(rv, i as int)
            });
        }
        if is_last {
            out.push((rel.len() - i) as u64);
            proof {
                assert(last_index(rv, rv[i as int]) == Some(i as nat));
                assert(ideal_grades(rv, i + 1) == ideal_grades(rv, i as int).push(
                    (rv.len() - i) as nat,
                ));
                assert(out@.len() == ideal_grades(rv, i + 1).len());
                assert forall|a: int| 0 <= a < out@.len() implies (#[trigger] out@[a]) as nat
                    == ideal_grades(rv, i + 1)[a] by {
                    if a < prev.len() {
                        assert(out@[a] == prev[a]);
                    }
                }
            }
        } else {
            proof {
                assert(last_index(rv, rv[i as int]) != Some(i as nat));
            }
        }
        i = i + 1;
    }
    let ghost full = out@;
    out.truncate(k);
    proof {
        let ideal = ideal_grades(rv, rel@.len() as int);
        if k as int <= ideal.len() {
            assert forall|a: int| 0 <= a < out@.len() implies (#[trigger] out@[a]) as nat
                == ideal.take(k as int)[a] by {
                assert(out@[a] == full[a]);
            }
        }
    }
    out
}

/// For each scored query (one with a non-empty relevant list), in prediction
/// order: the NDCG@k inputs. A relevant list grades its `n` ids `n, n-1, .., 1`
/// by position (the last listing of a repeated id counts); `gains` holds the
/// position and grade of each top-`k` prediction with a positive grade, and
/// `ideal` the `k` best grades in decreasing order. NDCG@k is the mean over
/// queries whose ideal gain is positive of DCG/IDCG, each grade discounted by
/// `log2(position + 2)`.
pub fn ndcg_inputs(preds: &Predictions, gt: &GroundTruth, k: usize) -> (r: Vec<NdcgInput>)
    ensures
        r@.len() == ndcg_inputs_spec(ranked_view(preds.by_query@), ranked_view(gt.by_query@), k).len(),
        forall|i: int|
            0 <= i < r@.len() ==> ndcg_input_matches(
                #[trigger] r@[i],
                ndcg_inputs_spec(ranked_view(preds.by_query@), ranked_view(gt.by_query@), k)[i],
            ),
{
    let ghost pv = ranked_view(preds.by_query@);
    let ghost gv = ranked_view(gt.by_query@);
    let mut out: Vec<NdcgInput> = Vec::new();
    let mut i: usize = 0;
    while i < preds.by_query.len()
        invariant
            i <= preds.by_query@.len(),
            pv == ranked_view(preds.by_query@),
            gv == ranked_view(gt.by_query@),
            out@.len() == ndcg_inputs_spec(pv.subrange(0, i as int), gv, k).len(),
            forall|a: int|
                0 <= a < out@.len() ==> ndcg_input_matches(
                    #[trigger] out@[a],
                    ndcg_inputs_spec(pv.subrange(0, i as int), gv, k)[a],
                ),
        decreases preds.by_query@.len() - i,
    {
        let ghost pre = pv.subrange(0, i + 1);
        proof {
            assert(pre.drop_last() == pv.subrange(0, i as int));
            assert(pre.last() == pv[i as int]);
        }
        let ghost prev = out@;
        match gt.relevant_ids(&preds.by_query[i].0) {
            Some(rel) => {
                if rel.len() > 0 {
                    let g = gains_exec(&preds.by_query[i].1, rel, k);
                    let ideal = ideal_exec(rel, k);
                    out.push(NdcgInput { gains: g, ideal });
                    proof {
                        assert forall|a: int| 0 <= a < out@.len() implies ndcg_input_matches(
                            #[trigger] out@[a],
                            ndcg_inputs_spec(pre, gv, k)[a],
                        ) by {
                            if a < prev.len() {
                                assert(out@[a] == prev[a]);
                            }
                        }
                    }
                }
            },
            None => {},
        }
        i = i + 1;
    }
    proof {
        assert(pv.subrange(0, i as int) == pv);
    }
    out
}

/// No id is listed twice.
pub open spec fn distinct_ids(rel: Seq<Seq<char>>) -> bool {
    forall|i: int, j: int| 0 <= i < j < rel.len() ==> rel[i] != rel[j]
}

proof fn lemma_last_index_distinct(rel: Seq<Seq<char>>, i: int)
    requires
        distinct_ids(rel),
        0 <= i < rel.len(),
    ensures
        last_index(rel, rel[i]) == Some(i as nat),
    decreases rel.len(),
{
    if i < rel.len() - 1 {
        let pre = rel.drop_last();
        assert(rel[i] != rel[rel.len() - 1]);
        assert(pre[i] == rel[i]);
        assert(distinct_ids(pre)) by {
            assert forall|a: int, b: int| 0 <= a < b < pre.len() implies pre[a] != pre[b] by {
                assert(pre[a] == rel[a] && pre[b] == rel[b]);
            }
        }
        lemma_last_index_distinct(pre, i);
    }
}

proof fn lemma_ideal_distinct(rel: Seq<Seq<char>>, u: int)
    requires
        distinct_ids(rel),
        0 <= u <= rel.len(),
    ensures
        ideal_grades(rel, u).len() == u,
        forall|i: int| 0 <= i < u ==> #[trigger] ideal_grades(rel, u)[i] == rel.len() - i,
    decreases u,
{
    if u > 0 {
        lemma_ideal_distinct(rel, u - 1);
        lemma_last_index_distinct(rel, u - 1);
        let prev = ideal_grades(rel, u - 1);
        assert(ideal_grades(rel, u) == prev.push((rel.len() - (u - 1)) as nat));
    }
}

proof fn lemma_hits_in_order(rel: Seq<Seq<char>>, m: int)
    requires
        distinct_ids(rel),
        0 <= m <= rel.len(),
    ensures
        graded_hits(rel.take(m), rel).len() == m,
        forall|i: int|
            0 <= i < m ==> #[trigger] graded_hits(rel.take(m), rel)[i] == (i as nat, (rel.len() - i) as nat),
    decreases m,
{
    if m > 0 {
        lemma_hits_in_order(rel, m - 1);
        lemma_last_index_distinct(rel, m - 1);
        let t = rel.take(m);
        assert(t.drop_last() == rel.take(m - 1));
        assert(t.last() == rel[m - 1]);
        let prev = graded_hits(rel.take(m - 1), rel);
        assert(graded_hits(t, rel) == prev.push(((m - 1) as nat, (rel.len() - (m - 1)) as nat)));
    }
}

/// A ranking that lists the (distinct) relevant ids in their relevance order
/// earns exactly the ideal gains at every cutoff: its `i`-th graded hit is at
/// position `i` with the `i`-th ideal grade, so its NDCG is 1.
pub proof fn law_ideal_ranking_earns_ideal_gains(rel: Seq<Seq<char>>, k: usize)
    requires
        distinct_ids(rel),
    ensures
        ({
            let g = gains(rel, rel, k);
            let ideal = ideal_grades(rel, rel.len() as int);
            let want = if k as int <= ideal.len() {
                ideal.take(k as int)
            } else {
                ideal
            };
            &&& g.len() == want.len()
            &&& forall|i: int| 0 <= i < g.len() ==> #[trigger] g[i] == (i as nat, want[i])
        }),
{
    let n = rel.len() as int;
    let m = if k as int <= n {
        k as int
    } else {
        n
    };
    lemma_ideal_distinct(rel, n);
    lemma_hits_in_order(rel, m);
    if k as int > n {
        assert(rel.take(n) == rel);
    }
    assert(top(rel, k) == rel.take(m));
}

/// Recall never exceeds 1: at most the relevant ids are found, and all of
/// them are exactly when each occurs among the retrieved ones.
pub proof fn law_recall_bounded(rel: Seq<Seq<char>>, found: Seq<Seq<char>>)
    ensures
        count_found(rel, found) <= rel.len(),
        count_found(rel, found) == rel.len() <==> forall|i: int|
            0 <= i < rel.len() ==> found.contains(#[trigger] rel[i]),
    decreases rel.len(),
{
    if rel.len() > 0 {
        let pre = rel.drop_last();
        law_recall_bounded(pre, found);
        if count_found(rel, found) == rel.len() {
            assert forall|i: int| 0 <= i < rel.len() implies found.contains(#[trigger] rel[i]) by {
                if i < rel.len() - 1 {
                    assert(pre[i] == rel[i]);
                }
            }
        }
        if forall|i: int| 0 <= i < rel.len() ==> found.contains(#[trigger] rel[i]) {
            assert forall|i: int| 0 <= i < pre.len() implies found.contains(#[trigger] pre[i]) by {
                assert(pre[i] == rel[i]);
            }
            assert(found.contains(rel[rel.len() - 1]));
        }
    }
}

/// The rank a query scores is that of its first relevant prediction: a rank
/// `k` means the `k`-th prediction (1-based) is one of the relevant ids,
/// wherever it is listed among them, and no earlier prediction is; no rank
/// means no prediction is relevant. In particular a relevant top prediction
/// gives rank 1.
pub proof fn law_first_hit_is_first_relevant(ranked: Seq<Seq<char>>, rel: Seq<Seq<char>>)
    ensures
        first_hit(ranked, rel) matches Some(k) ==> 1 <= k <= ranked.len() && rel.contains(
            ranked[k - 1],
        ) && forall|j: int| 0 <= j < k - 1 ==> !rel.contains(#[trigger] ranked[j]),
        first_hit(ranked, rel) is None ==> forall|j: int|
            0 <= j < ranked.len() ==> !rel.contains(#[trigger] ranked[j]),
        ranked.len() > 0 && rel.contains(ranked[0]) ==> first_hit(ranked, rel) == Some(1nat),
    decreases ranked.len(),
{
    if ranked.len() > 0 && !rel.contains(ranked[0]) {
        let rest = ranked.drop_first();
        law_first_hit_is_first_relevant(rest, rel);
        assert forall|j: int| 1 <= j < ranked.len() implies ranked[j] == rest[j - 1] by {}
        match first_hit(rest, rel) {
            Some(k) => {
                assert(ranked[k as int] == rest[k - 1]);
                assert forall|j: int| 0 <= j < k implies !rel.contains(#[trigger] ranked[j]) by {
                    if j > 0 {
                        assert(ranked[j] == rest[j - 1]);
                    }
                }
            },
            None => {
                assert forall|j: int| 0 <= j < ranked.len() implies !rel.contains(
                    #[trigger] ranked[j],
                ) by {
                    if j > 0 {
                        assert(ranked[j] == rest[j - 1]);
                    }
                }
            },
        }
    }
}

/// A query is scored against the first ground-truth entry listed for it: the
/// relevant list found is that entry's, no earlier entry is for the query, and
/// a query with no entry has no relevant list.
pub proof fn law_relevant_list_is_first_entry(
    gt: Seq<(Seq<char>, Seq<Seq<char>>)>,
    qid: Seq<char>,
)
    ensures
        relevant_for(gt, qid) matches Some(rel) ==> exists|i: int|
            0 <= i < gt.len() && #[trigger] gt[i].0 == qid && gt[i].1 == rel && forall|j: int|
                0 <= j < i ==> (#[trigger] gt[j]).0 != qid,
        relevant_for(gt, qid) is None ==> forall|j: int| 0 <= j < gt.len() ==> (#[trigger] gt[j]).0
            != qid,
    decreases gt.len(),
{
    if gt.len() > 0 && gt[0].0 != qid {
        let rest = gt.drop_first();
        law_relevant_list_is_first_entry(rest, qid);
        match relevant_for(rest, qid) {
            Some(rel) => {
                let i = choose|i: int|
                    0 <= i < rest.len() && #[trigger] rest[i].0 == qid && rest[i].1 == rel && forall|
                        j: int,
                    | 0 <= j < i ==> (#[trigger] rest[j]).0 != qid;
                assert(gt[i + 1] == rest[i]);
                assert forall|j: int| 0 <= j < i + 1 implies (#[trigger] gt[j]).0 != qid by {
                    if j > 0 {
                        assert(gt[j] == rest[j - 1]);
                    }
                }
            },
            None => {
                assert forall|j: int| 0 <= j < gt.len() implies (#[trigger] gt[j]).0 != qid by {
                    if j > 0 {
                        assert(gt[j] == rest[j - 1]);
                    }
                }
            },
        }
    }
}

/// A query retrieves none of its relevant ids exactly when none of them is
/// among what it found.
pub proof fn law_recall_zero(rel: Seq<Seq<char>>, found: Seq<Seq<char>>)
    ensures
        count_found(rel, found) == 0 <==> forall|i: int|
            0 <= i < rel.len() ==> !found.contains(#[trigger] rel[i]),
    decreases rel.len(),
{
    if rel.len() > 0 {
        let pre = rel.drop_last();
        law_recall_zero(pre, found);
        assert forall|i: int| 0 <= i < pre.len() implies pre[i] == rel[i] by {}
        if count_found(rel, found) == 0 {
            assert forall|i: int| 0 <= i < rel.len() implies !found.contains(#[trigger] rel[i]) by {
                if i < rel.len() - 1 {
                    assert(pre[i] == rel[i]);
                }
            }
        }
        if forall|i: int| 0 <= i < rel.len() ==> !found.contains(#[trigger] rel[i]) {
            assert forall|i: int| 0 <= i < pre.len() implies !found.contains(#[trigger] pre[i]) by {
                assert(pre[i] == rel[i]);
            }
            assert(!found.contains(rel[rel.len() - 1]));
        }
    }
}

} // verus!
