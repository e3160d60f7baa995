//! Ordering label lists by a canonical label order.

use vstd::prelude::*;
use crate::text::str_eq;

verus! {

pub open spec fn str_views(v: Seq<&str>) -> Seq<Seq<char>> {
    v.map_values(|s: &str| s@)
}

/// The elements of `s` equal to `x`, in order.
pub open spec fn keep_eq(s: Seq<Seq<char>>, x: Seq<char>) -> Seq<Seq<char>>
    decreases s.len(),
{
    if s.len() == 0 {
        seq![]
    } else if s.last() == x {
        keep_eq(s.drop_last(), x).push(s.last())
    } else {
        keep_eq(s.drop_last(), x)
    }
}

/// The elements of `s` not in `labels`, in order.
pub open spec fn keep_unlisted(s: Seq<Seq<char>>, labels: Seq<Seq<char>>) -> Seq<Seq<char>>
    decreases s.len(),
{
    if s.len() == 0 {
        seq![]
    } else if !labels.contains(s.last()) {
        keep_unlisted(s.drop_last(), labels).push(s.last())
    } else {
        keep_unlisted(s.drop_last(), labels)
    }
}

/// `s` stably ordered by the position of each element in `labels` (elements not
/// in `labels` last): the elements equal to `labels[k]`, for k from `from` on,
/// then the unlisted ones.
pub open spec fn order_by_from(s: Seq<Seq<char>>, labels: Seq<Seq<char>>, from: int) -> Seq<Seq<char>>
    decreases labels.len() - from,
{
    if from >= labels.len() {
        keep_unlisted(s, labels)
    } else {
        keep_eq(s, labels[from]) + order_by_from(s, labels, from + 1)
    }
}

pub open spec fn order_by(s: Seq<Seq<char>>, labels: Seq<Seq<char>>) -> Seq<Seq<char>> {
    order_by_from(s, labels, 0)
}

/// How many times `x` occurs in `s`.
pub open spec fn count_of(s: Seq<Seq<char>>, x: Seq<char>) -> nat
    decreases s.len(),
{
    if s.len() == 0 {
        0
    } else {
        count_of(s.drop_last(), x) + (if s.last() == x { 1nat } else { 0nat })
    }
}

/// The position of `x` in `labels`, or `labels.len()` when it is not there.
pub open spec fn rank_in(labels: Seq<Seq<char>>, x: Seq<char>) -> int
    decreases labels.len(),
{
    if labels.len() == 0 {
        0
    } else if labels[0] == x {
        0
    } else {
        1 + rank_in(labels.drop_first(), x)
    }
}

proof fn lemma_rank(labels: Seq<Seq<char>>, x: Seq<char>)
    ensures
        0 <= rank_in(labels, x) <= labels.len(),
        rank_in(labels, x) < labels.len() ==> labels[rank_in(labels, x)] == x,
        rank_in(labels, x) == labels.len() <==> !labels.contains(x),
        forall|k: int| 0 <= k < rank_in(labels, x) ==> labels[k] != x,
    decreases labels.len(),
{
    if labels.len() > 0 && labels[0] != x {
        lemma_rank(labels.drop_first(), x);
        assert forall|k: int| 0 <= k < rank_in(labels, x) implies labels[k] != x by {
            if k > 0 {
                assert(labels[k] == labels.drop_first()[k - 1]);
            }
        }
        if labels.contains(x) {
            let k = choose|k: int| 0 <= k < labels.len() && labels[k] == x;
            assert(labels.drop_first()[k - 1] == x);
        }
        if labels.drop_first().contains(x) {
            let k = choose|k: int| 0 <= k < labels.drop_first().len() && labels.drop_first()[k] == x;
            assert(labels[k + 1] == x);
        }
    } else if labels.len() > 0 {
        assert(labels.contains(x)) by { assert(labels[0] == x); }
    }
}

proof fn lemma_count_concat(a: Seq<Seq<char>>, b: Seq<Seq<char>>, x: Seq<char>)
    ensures
        count_of(a + b, x) == count_of(a, x) + count_of(b, x),
    decreases b.len(),
{
    if b.len() > 0 {
        lemma_count_concat(a, b.drop_last(), x);
        assert((a + b).drop_last() == a + b.drop_last());
    } else {
        assert(a + b == a);
    }
}

proof fn lemma_keep_eq(s: Seq<Seq<char>>, l: Seq<char>, x: Seq<char>)
    ensures
        count_of(keep_eq(s, l), x) == (if x == l { count_of(s, x) } else { 0 }),
        forall|i: int| 0 <= i < keep_eq(s, l).len() ==> #[trigger] keep_eq(s, l)[i] == l,
    decreases s.len(),
{
    if s.len() > 0 {
        lemma_keep_eq(s.drop_last(), l, x);
        let p = keep_eq(s.drop_last(), l);
        assert(p.push(s.last()).drop_last() == p);
        assert forall|i: int| 0 <= i < keep_eq(s, l).len() implies #[trigger] keep_eq(s, l)[i] == l by {
            if i < p.len() {
                assert(keep_eq(s, l)[i] == p[i]);
            }
        }
    }
}

proof fn lemma_keep_unlisted(s: Seq<Seq<char>>, labels: Seq<Seq<char>>, x: Seq<char>)
    ensures
        count_of(keep_unlisted(s, labels), x) == (if labels.contains(x) { 0 } else { count_of(s, x) }),
        forall|i: int| 0 <= i < keep_unlisted(s, labels).len() ==> !labels.contains(#[trigger] keep_unlisted(s, labels)[i]),
    decreases s.len(),
{
    if s.len() > 0 {
        lemma_keep_unlisted(s.drop_last(), labels, x);
        let p = keep_unlisted(s.drop_last(), labels);
        assert(p.push(s.last()).drop_last() == p);
        assert forall|i: int| 0 <= i < keep_unlisted(s, labels).len() implies !labels.contains(#[trigger] keep_unlisted(s, labels)[i]) by {
            if i < p.len() {
                assert(keep_unlisted(s, labels)[i] == p[i]);
            }
        }
    }
}

/// Distinct labels.
pub open spec fn distinct_labels(labels: Seq<Seq<char>>) -> bool {
    forall|a: int, b: int| 0 <= a < b < labels.len() ==> #[trigger] labels[a] != #[trigger] labels[b]
}

proof fn lemma_order_from(s: Seq<Seq<char>>, labels: Seq<Seq<char>>, from: int, x: Seq<char>)
    requires
        0 <= from <= labels.len(),
        distinct_labels(labels),
    ensures
        count_of(order_by_from(s, labels, from), x)
            == (if labels.contains(x) && rank_in(labels, x) < from { 0 } else { count_of(s, x) }),
        forall|i: int| 0 <= i < order_by_from(s, labels, from).len()
            ==> rank_in(labels, #[trigger] order_by_from(s, labels, from)[i]) >= from,
        forall|i: int, j: int| 0 <= i < j < order_by_from(s, labels, from).len()
            ==> rank_in(labels, #[trigger] order_by_from(s, labels, from)[i]) <= rank_in(labels, #[trigger] order_by_from(s, labels, from)[j]),
    decreases labels.len() - from,
{
    lemma_rank(labels, x);
    let r = order_by_from(s, labels, from);
    if from >= labels.len() {
        lemma_keep_unlisted(s, labels, x);
        assert forall|i: int| 0 <= i < r.len() implies rank_in(labels, #[trigger] r[i]) >= from by {
            lemma_rank(labels, r[i]);
        }
        assert forall|i: int, j: int| 0 <= i < j < r.len() implies rank_in(labels, #[trigger] r[i]) <= rank_in(labels, #[trigger] r[j]) by {
            lemma_rank(labels, r[i]);
            lemma_rank(labels, r[j]);
        }
    } else {
        let l = labels[from];
        let a = keep_eq(s, l);
        let b = order_by_from(s, labels, from + 1);
        lemma_keep_eq(s, l, x);
        lemma_order_from(s, labels, from + 1, x);
        lemma_count_concat(a, b, x);
        lemma_rank(labels, l);
        assert(rank_in(labels, l) == from) by {
            if rank_in(labels, l) < from {
                assert(labels[rank_in(labels, l)] == l);
            }
        }
        if x == l {
            assert(labels.contains(x));
        } else if labels.contains(x) && rank_in(labels, x) == from {
            assert(labels[from] == x);
        }
        assert(r == a + b);
        assert forall|i: int| 0 <= i < r.len() implies rank_in(labels, #[trigger] r[i]) >= from by {
            if i < a.len() {
                assert(r[i] == a[i]);
            } else {
                assert(r[i] == b[i - a.len()]);
            }
        }
        assert forall|i: int, j: int| 0 <= i < j < r.len() implies rank_in(labels, #[trigger] r[i]) <= rank_in(labels, #[trigger] r[j]) by {
            if j < a.len() {
                assert(r[i] == a[i] && r[j] == a[j]);
            } else if i < a.len() {
                assert(r[i] == a[i] && r[j] == b[j - a.len()]);
            } else {
                assert(r[i] == b[i - a.len()] && r[j] == b[j - a.len()]);
            }
        }
    }
}

/// Ordering by distinct labels is a permutation sorted by each element's
/// position in the labels (elements not among them last): every element
/// keeps its number of occurrences.
pub proof fn lemma_order_by(s: Seq<Seq<char>>, labels: Seq<Seq<char>>)
    requires
        distinct_labels(labels),
    ensures
        forall|x: Seq<char>| #[trigger] count_of(order_by(s, labels), x) == count_of(s, x),
        order_by(s, labels).len() == s.len(),
        forall|i: int, j: int| 0 <= i < j < order_by(s, labels).len()
            ==> rank_in(labels, #[trigger] order_by(s, labels)[i]) <= rank_in(labels, #[trigger] order_by(s, labels)[j]),
{
    assert forall|x: Seq<char>| #[trigger] count_of(order_by(s, labels), x) == count_of(s, x) by {
        lemma_order_from(s, labels, 0, x);
        lemma_rank(labels, x);
    }
    lemma_order_from(s, labels, 0, seq![]);
    lemma_len_by_counts(s, order_by(s, labels));
}

proof fn lemma_count_len(s: Seq<Seq<char>>, x: Seq<char>)
    ensures
        count_of(s, x) <= s.len(),
        s.len() > 0 ==> count_of(s, s.last()) >= 1,
    decreases s.len(),
{
    if s.len() > 0 {
        lemma_count_len(s.drop_last(), x);
    }
}

/// Sequences with the same counts have the same length.
proof fn lemma_len_by_counts(a: Seq<Seq<char>>, b: Seq<Seq<char>>)
    requires
        forall|x: Seq<char>| #[trigger] count_of(b, x) == count_of(a, x),
    ensures
        a.len() == b.len(),
    decreases a.len(),
{
    if a.len() == 0 {
        if b.len() > 0 {
            lemma_count_len(b, b.last());
            assert(count_of(a, b.last()) == 0);
        }
    } else {
        let x = a.last();
        lemma_count_len(a, x);
        assert(count_of(b, x) >= 1);
        let k = lemma_find(b, x);
        let b2 = b.remove(k);
        assert forall|y: Seq<char>| #[trigger] count_of(b2, y) == count_of(a.drop_last(), y) by {
            lemma_count_remove(b, k, y);
        }
        lemma_len_by_counts(a.drop_last(), b2);
    }
}

proof fn lemma_find(b: Seq<Seq<char>>, x: Seq<char>) -> (k: int)
    requires
        count_of(b, x) >= 1,
    ensures
        0 <= k < b.len(),
        b[k] == x,
    decreases b.len(),
{
    if b.last() == x {
        b.len() - 1
    } else {
        lemma_find(b.drop_last(), x)
    }
}

proof fn lemma_count_remove(b: Seq<Seq<char>>, k: int, y: Seq<char>)
    requires
        0 <= k < b.len(),
    ensures
        count_of(b.remove(k), y) + (if b[k] == y { 1int } else { 0int }) == count_of(b, y),
    decreases b.len(),
{
    if k == b.len() - 1 {
        assert(b.remove(k) == b.drop_last());
    } else {
        lemma_count_remove(b.drop_last(), k, y);
        assert(b.remove(k).drop_last() == b.drop_last().remove(k));
        assert(b.remove(k).last() == b.last());
    }
}

pub fn contains_label(labels: &Vec<&'static str>, x: &str) -> (r: bool)
    ensures
        r == str_views(labels@).contains(x@),
{
    let ghost lv = str_views(labels@);
    let mut i: usize = 0;
    while i < labels.len()
        invariant
            i <= labels.len(),
            lv == str_views(labels@),
            forall|j: int| 0 <= j < i ==> lv[j] != x@,
        decreases labels.len() - i,
    {
        if str_eq(labels[i], x) {
            proof {
                assert(lv[i as int] == x@);
            }
            return true;
        }
        i += 1;
    }
    false
}

/// `v` ordered by position in `labels` (stable; unlisted elements last).
pub fn order_by_labels<'a>(v: &Vec<&'a str>, labels: &Vec<&'static str>) -> (r: Vec<&'a str>)
    ensures
        str_views(r@) == order_by(str_views(v@), str_views(labels@)),
{
    let ghost sv = str_views(v@);
    let ghost lv = str_views(labels@);
    let mut out: Vec<&'a str> = Vec::new();
    let mut k: usize = 0;
    while k < labels.len()
        invariant
            k <= labels.len(),
            sv == str_views(v@),
            lv == str_views(labels@),
            str_views(out@) + order_by_from(sv, lv, k as int) == order_by(sv, lv),
        decreases labels.len() - k,
    {
        let ghost before = str_views(out@);
        let mut i: usize = 0;
        while i < v.len()
            invariant
                i <= v.len(),
                k < labels.len(),
                sv == str_views(v@),
                lv == str_views(labels@),
                str_views(out@) == before + keep_eq(sv.take(i as int), lv[k as int]),
            decreases v.len() - i,
        {
            proof {
                assert(sv.take(i + 1).drop_last() == sv.take(i as int));
                assert(sv.take(i + 1).last() == v@[i as int]@);
            }
            if str_eq(v[i], labels[k]) {
                let ghost o = str_views(out@);
                out.push(v[i]);
                proof {
                    assert(str_views(out@) =~= o.push(v@[i as int]@));
                    assert(str_views(out@) =~= before + keep_eq(sv.take(i + 1), lv[k as int]));
                }
            }
            i += 1;
        }
        proof {
            assert(sv.take(v@.len() as int) == sv);
            assert(str_views(out@) + order_by_from(sv, lv, k + 1) =~= before + order_by_from(sv, lv, k as int));
        }
        k += 1;
    }
    let ghost before = str_views(out@);
    let mut i: usize = 0;
    while i < v.len()
        invariant
            i <= v.len(),
            sv == str_views(v@),
            lv == str_views(labels@),
            str_views(out@) == before + keep_unlisted(sv.take(i as int), lv),
        decreases v.len() - i,
    {
        proof {
            assert(sv.take(i + 1).drop_last() == sv.take(i as int));
            assert(sv.take(i + 1).last() == v@[i as int]@);
        }
        if !contains_label(labels, v[i]) {
            let ghost o = str_views(out@);
            out.push(v[i]);
            proof {
                assert(str_views(out@) =~= o.push(v@[i as int]@));
                assert(str_views(out@) =~= before + keep_unlisted(sv.take(i + 1), lv));
            }
        }
        i += 1;
    }
    proof {
        assert(sv.take(v@.len() as int) == sv);
    }
    out
}

/// The elements of `s` whose position in `labels` is `k`, in order.
pub open spec fn with_rank(s: Seq<Seq<char>>, labels: Seq<Seq<char>>, k: int) -> Seq<Seq<char>>
    decreases s.len(),
{
    if s.len() == 0 {
        seq![]
    } else if rank_in(labels, s.last()) == k {
        with_rank(s.drop_last(), labels, k).push(s.last())
    } else {
        with_rank(s.drop_last(), labels, k)
    }
}

proof fn lemma_with_rank_concat(a: Seq<Seq<char>>, b: Seq<Seq<char>>, labels: Seq<Seq<char>>, k: int)
    ensures
        with_rank(a + b, labels, k) == with_rank(a, labels, k) + with_rank(b, labels, k),
    decreases b.len(),
{
    if b.len() == 0 {
        assert(a + b =~= a);
        assert(with_rank(a, labels, k) + Seq::<Seq<char>>::empty() =~= with_rank(a, labels, k));
    } else {
        lemma_with_rank_concat(a, b.drop_last(), labels, k);
        assert((a + b).drop_last() =~= a + b.drop_last());
        assert((a + b).last() == b.last());
        if rank_in(labels, b.last()) == k {
            assert(with_rank(a, labels, k) + with_rank(b.drop_last(), labels, k).push(b.last())
                =~= (with_rank(a, labels, k) + with_rank(b.drop_last(), labels, k)).push(b.last()));
        }
    }
}

proof fn lemma_with_rank_out_of_range(s: Seq<Seq<char>>, labels: Seq<Seq<char>>, k: int)
    requires
        k < 0 || k > labels.len(),
    ensures
        with_rank(s, labels, k) == Seq::<Seq<char>>::empty(),
    decreases s.len(),
{
    if s.len() > 0 {
        lemma_with_rank_out_of_range(s.drop_last(), labels, k);
        lemma_rank(labels, s.last());
    }
}

proof fn lemma_with_rank_keep_eq(s: Seq<Seq<char>>, labels: Seq<Seq<char>>, f: int, k: int)
    requires
        distinct_labels(labels),
        0 <= f < labels.len(),
    ensures
        with_rank(keep_eq(s, labels[f]), labels, k) == (if k == f { with_rank(s, labels, k) } else { Seq::<Seq<char>>::empty() }),
    decreases s.len(),
{
    if s.len() > 0 {
        lemma_with_rank_keep_eq(s.drop_last(), labels, f, k);
        lemma_rank(labels, s.last());
        lemma_rank(labels, labels[f]);
        let x = s.last();
        if x == labels[f] {
            assert(rank_in(labels, x) == f) by {
                if rank_in(labels, x) != f {
                    let r = rank_in(labels, x);
                    if r < f {
                        assert(labels[r] == x);
                    } else {
                        assert(labels.contains(x)) by { assert(labels[f] == x); }
                        assert(labels[f] != x);
                    }
                }
            }
            assert(keep_eq(s, labels[f]).drop_last() == keep_eq(s.drop_last(), labels[f]));
        } else {
            if rank_in(labels, x) == f {
                assert(labels[f] == x);
            }
        }
    }
}

proof fn lemma_with_rank_unlisted(s: Seq<Seq<char>>, labels: Seq<Seq<char>>, k: int)
    ensures
        with_rank(keep_unlisted(s, labels), labels, k)
            == (if k == labels.len() { with_rank(s, labels, k) } else { Seq::<Seq<char>>::empty() }),
    decreases s.len(),
{
    if s.len() > 0 {
        lemma_with_rank_unlisted(s.drop_last(), labels, k);
        lemma_rank(labels, s.last());
        let x = s.last();
        if !labels.contains(x) {
            assert(keep_unlisted(s, labels).drop_last() == keep_unlisted(s.drop_last(), labels));
        }
    }
}

proof fn lemma_with_rank_order_from(s: Seq<Seq<char>>, labels: Seq<Seq<char>>, from: int, k: int)
    requires
        distinct_labels(labels),
        0 <= from <= labels.len(),
        0 <= k,
    ensures
        with_rank(order_by_from(s, labels, from), labels, k)
            == (if from <= k { with_rank(s, labels, k) } else { Seq::<Seq<char>>::empty() }),
    decreases labels.len() - from,
{
    if from >= labels.len() {
        lemma_with_rank_unlisted(s, labels, k);
        if k > labels.len() {
            lemma_with_rank_out_of_range(s, labels, k);
        }
    } else {
        lemma_with_rank_order_from(s, labels, from + 1, k);
        lemma_with_rank_concat(keep_eq(s, labels[from]), order_by_from(s, labels, from + 1), labels, k);
        lemma_with_rank_keep_eq(s, labels, from, k);
        if k == from {
            assert(with_rank(s, labels, k) + Seq::<Seq<char>>::empty() =~= with_rank(s, labels, k));
        } else if from < k {
            assert(Seq::<Seq<char>>::empty() + with_rank(s, labels, k) =~= with_rank(s, labels, k));
        } else {
            assert(Seq::<Seq<char>>::empty() + Seq::<Seq<char>>::empty() =~= Seq::<Seq<char>>::empty());
        }
    }
}

/// Ordering is stable: the elements of one rank come out in the order in
/// which they came in.
pub proof fn lemma_order_by_stable(s: Seq<Seq<char>>, labels: Seq<Seq<char>>, k: int)
    requires
        distinct_labels(labels),
    ensures
        with_rank(order_by(s, labels), labels, k) == with_rank(s, labels, k),
{
    if k < 0 {
        lemma_with_rank_out_of_range(s, labels, k);
        lemma_with_rank_out_of_range(order_by(s, labels), labels, k);
    } else {
        lemma_with_rank_order_from(s, labels, 0, k);
    }
}

} // verus!
