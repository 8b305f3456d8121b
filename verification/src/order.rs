//! Ordering entries by name: the lexicographic order of strings (by character
//! code, which for UTF-8 text is the order of their bytes) and a stable sort
//! of `(name, payload)` entries by it.
use vstd::prelude::*;

use crate::text::chars_of;

verus! {

/// Whether `a` sorts strictly before `b`: at the first differing position
/// the smaller character comes first, and a proper prefix
/// comes before the longer string.
pub open spec fn str_lt(a: Seq<char>, b: Seq<char>) -> bool
    decreases a.len(),
{
    if a.len() == 0 {
        b.len() > 0
    } else if b.len() == 0 {
        false
    } else if a[0] != b[0] {
        a[0] < b[0]
    } else {
        str_lt(a.drop_first(), b.drop_first())
    }
}

/// No string sorts before itself.
pub proof fn lemma_str_lt_irreflexive(a: Seq<char>)
    ensures
        !str_lt(a, a),
    decreases a.len(),
{
    if a.len() > 0 {
        lemma_str_lt_irreflexive(a.drop_first());
    }
}

/// The order is transitive.
pub proof fn lemma_str_lt_transitive(a: Seq<char>, b: Seq<char>, c: Seq<char>)
    requires
        str_lt(a, b),
        str_lt(b, c),
    ensures
        str_lt(a, c),
    decreases a.len(),
{
    if a.len() > 0 && b.len() > 0 && c.len() > 0 && a[0] == b[0] && b[0] == c[0] {
        lemma_str_lt_transitive(a.drop_first(), b.drop_first(), c.drop_first());
    }
}

/// Of two different strings, one sorts before the other.
pub proof fn lemma_str_lt_total(a: Seq<char>, b: Seq<char>)
    ensures
        a == b || str_lt(a, b) || str_lt(b, a),
    decreases a.len(),
{
    if a.len() > 0 && b.len() > 0 && a[0] == b[0] {
        lemma_str_lt_total(a.drop_first(), b.drop_first());
        if a.drop_first() == b.drop_first() {
            assert(a =~= seq![a[0]] + a.drop_first());
            assert(b =~= seq![b[0]] + b.drop_first());
        }
    } else if a.len() > 0 && b.len() > 0 {
        assert(a[0] < b[0] || b[0] < a[0]);
    } else if a.len() == 0 && b.len() == 0 {
        assert(a =~= b);
    }
}

/// Whether `a` sorts strictly before `b`.
pub fn name_lt(a: &str, b: &str) -> (r: bool)
    ensures
        r == str_lt(a@, b@),
{
    let x = chars_of(a);
    let y = chars_of(b);
    let mut i: usize = 0;
    proof {
        assert(x@.subrange(0, x@.len() as int) == x@);
        assert(y@.subrange(0, y@.len() as int) == y@);
    }
    while i < x.len() && i < y.len() && x[i] == y[i]
        invariant
            i <= x@.len(),
            i <= y@.len(),
            str_lt(x@, y@) == str_lt(x@.subrange(i as int, x@.len() as int), y@.subrange(i as int, y@.len() as int)),
        decreases x@.len() - i,
    {
        proof {
            let xs = x@.subrange(i as int, x@.len() as int);
            let ys = y@.subrange(i as int, y@.len() as int);
            assert(xs.drop_first() == x@.subrange(i + 1, x@.len() as int));
            assert(ys.drop_first() == y@.subrange(i + 1, y@.len() as int));
        }
        i = i + 1;
    }
    if i == x.len() {
        i < y.len()
    } else if i == y.len() {
        false
    } else {
        x[i] < y[i]
    }
}

/// `s` with `x` inserted after every entry whose name does not sort after
/// `x`'s (for a sorted `s`: at its place, after equal names).
pub open spec fn insert_by_name<T>(s: Seq<(String, T)>, x: (String, T)) -> Seq<(String, T)>
    decreases s.len(),
{
    if s.len() == 0 {
        seq![x]
    } else if str_lt(x.0@, s.last().0@) {
        insert_by_name(s.drop_last(), x).push(s.last())
    } else {
        s.push(x)
    }
}

/// The entries of `s` in name order, entries with equal names in their
/// input order (insertion of each entry in turn).
pub open spec fn sorted_by_name<T>(s: Seq<(String, T)>) -> Seq<(String, T)>
    decreases s.len(),
{
    if s.len() == 0 {
        Seq::empty()
    } else {
        insert_by_name(sorted_by_name(s.drop_last()), s.last())
    }
}

proof fn lemma_insert_at<T>(s: Seq<(String, T)>, x: (String, T), j: int)
    requires
        0 <= j <= s.len(),
        forall|m: int| j <= m < s.len() ==> str_lt(x.0@, #[trigger] s[m].0@),
        j == 0 || !str_lt(x.0@, s[j - 1].0@),
    ensures
        insert_by_name(s, x) == s.insert(j, x),
    decreases s.len() - j,
{
    if s.len() == 0 {
        assert(s.insert(j, x) =~= seq![x]);
    } else if j == s.len() {
        assert(s.insert(j, x) =~= s.push(x));
    } else {
        let p = s.drop_last();
        assert forall|m: int| j <= m < p.len() implies str_lt(x.0@, #[trigger] p[m].0@) by {
            assert(p[m] == s[m]);
        }
        if j > 0 {
            assert(p[j - 1] == s[j - 1]);
        }
        lemma_insert_at(p, x, j);
        assert(str_lt(x.0@, s[s.len() - 1].0@));
        assert(s.insert(j, x) =~= p.insert(j, x).push(s.last()));
    }
}

/// Sort `(name, payload)` entries by name, stably.
pub fn sort_by_name<T>(entries: Vec<(String, T)>) -> (r: Vec<(String, T)>)
    ensures
        r@ == sorted_by_name(entries@),
{
    let ghost src = entries@;
    let mut out: Vec<(String, T)> = Vec::new();
    let mut rest = entries;
    let ghost mut taken: int = 0;
    while rest.len() > 0
        invariant
            0 <= taken <= src.len(),
            rest@ == src.subrange(taken, src.len() as int),
            out@ == sorted_by_name(src.subrange(0, taken)),
        decreases rest@.len(),
    {
        let x = rest.remove(0);
        proof {
            assert(x == src[taken]);
            assert(src.subrange(0, taken + 1).drop_last() == src.subrange(0, taken));
            assert(src.subrange(0, taken + 1).last() == x);
            assert(rest@ =~= src.subrange(taken + 1, src.len() as int));
        }
        let mut j: usize = out.len();
        while j > 0 && name_lt(x.0.as_str(), out[j - 1].0.as_str())
            invariant
                j <= out@.len(),
                forall|m: int| j <= m < out@.len() ==> str_lt(x.0@, #[trigger] out@[m].0@),
            decreases j,
        {
            j = j - 1;
        }
        proof {
            lemma_insert_at(out@, x, j as int);
        }
        out.insert(j, x);
        proof {
            taken = taken + 1;
        }
    }
    proof {
        assert(src.subrange(0, taken) == src);
    }
    out
}

/// Whether `a` does not sort after `b`.
pub open spec fn str_le(a: Seq<char>, b: Seq<char>) -> bool {
    !str_lt(b, a)
}

proof fn lemma_str_le_transitive(a: Seq<char>, b: Seq<char>, c: Seq<char>)
    requires
        str_le(a, b),
        str_le(b, c),
    ensures
        str_le(a, c),
{
    if str_lt(c, a) {
        lemma_str_lt_total(a, b);
        if str_lt(a, b) {
            lemma_str_lt_transitive(c, a, b);
        }
    }
}

proof fn lemma_str_lt_le(a: Seq<char>, b: Seq<char>)
    requires
        str_lt(a, b),
    ensures
        str_le(a, b),
{
    if str_lt(b, a) {
        lemma_str_lt_transitive(a, b, a);
        lemma_str_lt_irreflexive(a);
    }
}

/// Whether the entries' names never decrease.
pub open spec fn name_sorted<T>(s: Seq<(String, T)>) -> bool {
    forall|i: int, j: int| 0 <= i < j < s.len() ==> str_le(#[trigger] s[i].0@, #[trigger] s[j].0@)
}

proof fn lemma_insert_bound<T>(t: Seq<(String, T)>, x: (String, T), b: Seq<char>)
    requires
        forall|k: int| 0 <= k < t.len() ==> str_le(#[trigger] t[k].0@, b),
        str_le(x.0@, b),
    ensures
        forall|i: int|
            0 <= i < insert_by_name(t, x).len() ==> str_le(#[trigger] insert_by_name(t, x)[i].0@, b),
        insert_by_name(t, x).len() == t.len() + 1,
    decreases t.len(),
{
    if t.len() > 0 && str_lt(x.0@, t.last().0@) {
        let p = t.drop_last();
        assert forall|k: int| 0 <= k < p.len() implies str_le(#[trigger] p[k].0@, b) by {
            assert(p[k] == t[k]);
        }
        lemma_insert_bound(p, x, b);
        assert(str_le(t[t.len() - 1].0@, b));
    }
}

proof fn lemma_insert_sorted<T>(t: Seq<(String, T)>, x: (String, T))
    requires
        name_sorted(t),
    ensures
        name_sorted(insert_by_name(t, x)),
        insert_by_name(t, x).to_multiset() == t.to_multiset().insert(x),
    decreases t.len(),
{
    broadcast use vstd::seq_lib::group_to_multiset_ensures;
    broadcast use vstd::multiset::group_multiset_axioms;

    let r = insert_by_name(t, x);
    if t.len() == 0 {
        assert(t.push(x) =~= seq![x]);
    } else if str_lt(x.0@, t.last().0@) {
        let p = t.drop_last();
        let l = t.last();
        assert(name_sorted(p)) by {
            assert forall|i: int, j: int| 0 <= i < j < p.len() implies str_le(#[trigger] p[i].0@, #[trigger] p[j].0@) by {
                assert(p[i] == t[i] && p[j] == t[j]);
            }
        }
        lemma_insert_sorted(p, x);
        let q = insert_by_name(p, x);
        assert forall|k: int| 0 <= k < p.len() implies str_le(#[trigger] p[k].0@, l.0@) by {
            assert(p[k] == t[k]);
            assert(t[t.len() - 1] == l);
        }
        lemma_str_lt_le(x.0@, l.0@);
        lemma_insert_bound(p, x, l.0@);
        assert(r == q.push(l));
        assert forall|i: int, j: int| 0 <= i < j < r.len() implies str_le(#[trigger] r[i].0@, #[trigger] r[j].0@) by {
            if j < q.len() {
                assert(r[i] == q[i] && r[j] == q[j]);
            } else {
                assert(r[i] == q[i] && r[j] == l);
            }
        }
        assert(t == p.push(l));
        assert(r.to_multiset() =~= t.to_multiset().insert(x));
    } else {
        let l = t.last();
        assert(r == t.push(x));
        assert forall|i: int, j: int| 0 <= i < j < r.len() implies str_le(#[trigger] r[i].0@, #[trigger] r[j].0@) by {
            if j < t.len() {
                assert(r[i] == t[i] && r[j] == t[j]);
            } else {
                assert(r[i] == t[i] && r[j] == x);
                if i < t.len() - 1 {
                    assert(str_le(t[i].0@, t[t.len() - 1].0@));
                } else {
                    assert(t[i] == l);
                    lemma_str_lt_irreflexive(l.0@);
                }
                lemma_str_le_transitive(t[i].0@, l.0@, x.0@);
            }
        }
    }
}

/// Sorting by name orders the entries: no entry's name sorts after a later
/// entry's name.
pub proof fn law_sorted_by_name_is_sorted<T>(s: Seq<(String, T)>)
    ensures
        name_sorted(sorted_by_name(s)),
    decreases s.len(),
{
    if s.len() > 0 {
        law_sorted_by_name_is_sorted(s.drop_last());
        lemma_insert_sorted(sorted_by_name(s.drop_last()), s.last());
    }
}

/// Sorting by name keeps exactly the entries it was given.
pub proof fn law_sorted_by_name_permutes<T>(s: Seq<(String, T)>)
    ensures
        sorted_by_name(s).to_multiset() == s.to_multiset(),
    decreases s.len(),
{
    broadcast use vstd::seq_lib::group_to_multiset_ensures;

    if s.len() > 0 {
        let p = s.drop_last();
        law_sorted_by_name_permutes(p);
        law_sorted_by_name_is_sorted(p);
        lemma_insert_sorted(sorted_by_name(p), s.last());
        assert(s == p.push(s.last()));
    }
}

} // verus!
