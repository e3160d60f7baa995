//! The normal form of applicability trees: what `normalize` produces, and
//! that normalising a tree in normal form leaves it unchanged, so
//! normalisation is idempotent.

use vstd::prelude::*;
use crate::applicability::{
    combine, first_anyof, flatten, fold_siblings, is_anyof, match_codes, match_dim, merge_step, normalize_all,
    normalize_spec, sorted_set, spliced, lemma_sorted_set_is, Tree, MatchOp,
};
use crate::labelset::{lemma_lex_total, lemma_lex_transitive, lex_lt, strictly_sorted};

verus! {

// ---------------------------------------------------------------------------
// Sorted sets exist

/// `x` inserted into a strictly sorted sequence at its place (once).
pub open spec fn insert_sorted(r: Seq<Seq<char>>, x: Seq<char>) -> Seq<Seq<char>>
    decreases r.len(),
{
    if r.len() == 0 {
        seq![x]
    } else if x == r[0] {
        r
    } else if lex_lt(x, r[0]) {
        seq![x] + r
    } else {
        seq![r[0]] + insert_sorted(r.drop_first(), x)
    }
}

proof fn lemma_insert_sorted(r: Seq<Seq<char>>, x: Seq<char>)
    requires
        strictly_sorted(r),
    ensures
        strictly_sorted(insert_sorted(r, x)),
        insert_sorted(r, x).to_set() == r.to_set().insert(x),
        insert_sorted(r, x).len() > 0,
        insert_sorted(r, x)[0] == x || (r.len() > 0 && insert_sorted(r, x)[0] == r[0]),
    decreases r.len(),
{
    let s = insert_sorted(r, x);
    if r.len() == 0 {
        assert forall|y: Seq<char>| s.to_set().contains(y) <==> r.to_set().insert(x).contains(y) by {
            assert(s[0] == x);
            if s.to_set().contains(y) {
                let k = choose|k: int| 0 <= k < s.len() && s[k] == y;
                assert(k == 0);
            }
        }
        assert(s.to_set() =~= r.to_set().insert(x));
    } else if x == r[0] {
        assert(r.to_set().contains(r[0]));
        assert(s.to_set() =~= r.to_set().insert(x));
    } else if lex_lt(x, r[0]) {
        assert forall|i: int, j: int| 0 <= i < j < s.len() implies lex_lt(#[trigger] s[i], #[trigger] s[j]) by {
            if i == 0 {
                if j > 1 {
                    lemma_lex_transitive(x, r[0], r[j - 1]);
                }
            }
        }
        assert forall|y: Seq<char>| s.to_set().contains(y) <==> r.to_set().insert(x).contains(y) by {
            if s.to_set().contains(y) {
                let k = choose|k: int| 0 <= k < s.len() && s[k] == y;
                if k > 0 {
                    assert(r[k - 1] == y);
                }
            }
            if r.to_set().contains(y) {
                let k = choose|k: int| 0 <= k < r.len() && r[k] == y;
                assert(s[k + 1] == y);
            }
            if y == x {
                assert(s[0] == y);
            }
        }
        assert(s.to_set() =~= r.to_set().insert(x));
    } else {
        let t = r.drop_first();
        assert(strictly_sorted(t)) by {
            assert forall|i: int, j: int| 0 <= i < j < t.len() implies lex_lt(#[trigger] t[i], #[trigger] t[j]) by {
                assert(t[i] == r[i + 1] && t[j] == r[j + 1]);
            }
        }
        lemma_insert_sorted(t, x);
        let u = insert_sorted(t, x);
        assert(s == seq![r[0]] + u);
        lemma_lex_total(x, r[0]);
        assert(lex_lt(r[0], x));
        // every element of u is above r[0]
        assert forall|k: int| 0 <= k < u.len() implies lex_lt(r[0], #[trigger] u[k]) by {
            assert(u.to_set().contains(u[k]));
            assert(t.to_set().insert(x).contains(u[k]));
            if u[k] != x {
                let m = choose|m: int| 0 <= m < t.len() && t[m] == u[k];
                assert(r[m + 1] == u[k]);
            }
        }
        assert forall|i: int, j: int| 0 <= i < j < s.len() implies lex_lt(#[trigger] s[i], #[trigger] s[j]) by {
            if i == 0 {
                assert(s[j] == u[j - 1]);
            } else {
                assert(s[i] == u[i - 1] && s[j] == u[j - 1]);
            }
        }
        assert forall|y: Seq<char>| s.to_set().contains(y) <==> r.to_set().insert(x).contains(y) by {
            if s.to_set().contains(y) {
                let k = choose|k: int| 0 <= k < s.len() && s[k] == y;
                if k > 0 {
                    assert(u.to_set().contains(u[k - 1]));
                    if u[k - 1] != x {
                        let m = choose|m: int| 0 <= m < t.len() && t[m] == u[k - 1];
                        assert(r[m + 1] == y);
                    }
                } else {
                    assert(r.to_set().contains(r[0]));
                }
            }
            if r.to_set().insert(x).contains(y) {
                if y == r[0] {
                    assert(s[0] == y);
                } else {
                    if y != x {
                        let k = choose|k: int| 0 <= k < r.len() && r[k] == y;
                        assert(k > 0);
                        assert(t[k - 1] == y);
                        assert(t.to_set().contains(y));
                    }
                    assert(u.to_set().contains(y));
                    let m = choose|m: int| 0 <= m < u.len() && u[m] == y;
                    assert(s[m + 1] == y);
                }
            }
        }
        assert(s.to_set() =~= r.to_set().insert(x));
    }
}

/// The strictly sorted sequence of the elements of `s`.
pub open spec fn sort_dedup(s: Seq<Seq<char>>) -> Seq<Seq<char>>
    decreases s.len(),
{
    if s.len() == 0 {
        seq![]
    } else {
        insert_sorted(sort_dedup(s.drop_last()), s.last())
    }
}

proof fn lemma_sort_dedup(s: Seq<Seq<char>>)
    ensures
        strictly_sorted(sort_dedup(s)),
        sort_dedup(s).to_set() == s.to_set(),
    decreases s.len(),
{
    if s.len() == 0 {
        assert(sort_dedup(s).to_set() =~= s.to_set());
    } else {
        lemma_sort_dedup(s.drop_last());
        lemma_insert_sorted(sort_dedup(s.drop_last()), s.last());
        assert(s.to_set() =~= s.drop_last().to_set().insert(s.last())) by {
            assert forall|y: Seq<char>| s.to_set().contains(y) <==> s.drop_last().to_set().insert(s.last()).contains(y) by {
                if s.to_set().contains(y) {
                    let k = choose|k: int| 0 <= k < s.len() && s[k] == y;
                    if k < s.len() - 1 {
                        assert(s.drop_last()[k] == y);
                    }
                }
                if s.drop_last().to_set().contains(y) {
                    let k = choose|k: int| 0 <= k < s.len() - 1 && s.drop_last()[k] == y;
                    assert(s[k] == y);
                }
            }
        }
    }
}

/// `sorted_set` gives a strictly sorted sequence with the same elements.
pub proof fn lemma_sorted_set(s: Seq<Seq<char>>)
    ensures
        strictly_sorted(sorted_set(s)),
        sorted_set(s).to_set() == s.to_set(),
{
    lemma_sort_dedup(s);
    lemma_sorted_set_is(sort_dedup(s), s);
}


// ---------------------------------------------------------------------------
// The normal form

/// No two entries are equal.
pub open spec fn distinct(cs: Seq<Tree>) -> bool {
    forall|i: int, j: int| 0 <= i < j < cs.len() ==> #[trigger] cs[i] != #[trigger] cs[j]
}

/// No two `AnyOf` matches on the same dimension.
pub open spec fn dims_unique(cs: Seq<Tree>) -> bool {
    forall|i: int, j: int|
        0 <= i < j < cs.len() && is_anyof(#[trigger] cs[i]) && is_anyof(#[trigger] cs[j]) ==> match_dim(cs[i]) != match_dim(cs[j])
}

/// A node of the given group operator (`Or` when `is_or`, else `And`).
pub open spec fn same_op(t: Tree, is_or: bool) -> bool {
    if is_or { t is Or } else { t is And }
}

/// Siblings of a normalised group: each in normal form, none of the group's
/// own operator, no two equal, and under an `Or` no two `AnyOf` matches on
/// one dimension.
pub open spec fn good_siblings(cs: Seq<Tree>, is_or: bool) -> bool {
    &&& forall|i: int| 0 <= i < cs.len() ==> normal(#[trigger] cs[i]) && !same_op(cs[i], is_or)
    &&& distinct(cs)
    &&& is_or ==> dims_unique(cs)
}

/// The shape `normalize` produces: match codes strictly sorted; `And`/`Or`
/// with at least two children that are good siblings; no double negation.
pub open spec fn normal(t: Tree) -> bool
    decreases t,
{
    match t {
        Tree::Match { codes, .. } => strictly_sorted(codes),
        Tree::And { children } => {
            &&& children.len() >= 2
            &&& forall|i: int| 0 <= i < children.len() ==> normal(#[trigger] children[i]) && !(children[i] is And)
            &&& distinct(children)
        },
        Tree::Or { children } => {
            &&& children.len() >= 2
            &&& forall|i: int| 0 <= i < children.len() ==> normal(#[trigger] children[i]) && !(children[i] is Or)
            &&& distinct(children)
            &&& dims_unique(children)
        },
        Tree::Not { child } => !(*child is Not) && normal(*child),
        Tree::Conditional { condition, then } => normal(*condition) && normal(*then),
        Tree::TimeWindow { inner, .. } => match inner {
            Some(b) => normal(*b),
            None => true,
        },
    }
}

pub(crate) proof fn lemma_first_anyof(out: Seq<Tree>, d: Seq<char>)
    ensures
        first_anyof(out, d) >= 0 ==> {
            let k = first_anyof(out, d);
            &&& k < out.len()
            &&& is_anyof(out[k])
            &&& match_dim(out[k]) == d
        },
        first_anyof(out, d) < 0 ==> forall|i: int| 0 <= i < out.len() ==> !(is_anyof(#[trigger] out[i]) && match_dim(out[i]) == d),
    decreases out.len(),
{
    if out.len() > 0 {
        lemma_first_anyof(out.drop_last(), d);
        assert forall|i: int| 0 <= i < out.len() - 1 implies out.drop_last()[i] == out[i] by {}
    }
}


proof fn lemma_flatten_id(cs: Seq<Tree>, is_or: bool)
    requires
        forall|i: int| 0 <= i < cs.len() ==> !same_op(#[trigger] cs[i], is_or),
    ensures
        flatten(cs, is_or) == cs,
    decreases cs.len(),
{
    if cs.len() > 0 {
        lemma_flatten_id(cs.drop_last(), is_or);
        assert(!same_op(cs[cs.len() - 1], is_or));
        assert(spliced(cs.last(), is_or) == seq![cs.last()]);
        assert(cs.drop_last() + seq![cs.last()] =~= cs);
    }
}

proof fn lemma_fold_id(cs: Seq<Tree>, is_or: bool)
    requires
        distinct(cs),
        is_or ==> dims_unique(cs),
    ensures
        fold_siblings(cs, is_or) == cs,
    decreases cs.len(),
{
    if cs.len() > 0 {
        let init = cs.drop_last();
        let n = cs.len() - 1;
        let c = cs.last();
        assert forall|i: int| 0 <= i < init.len() implies init[i] == cs[i] by {}
        lemma_fold_id(init, is_or);
        lemma_first_anyof(init, match_dim(c));
        if is_or && is_anyof(c) {
            let k = first_anyof(init, match_dim(c));
            if k >= 0 {
                assert(is_anyof(cs[k]) && is_anyof(cs[n]));
                assert(match_dim(cs[k]) == match_dim(cs[n]));
            }
        }
        assert(!init.contains(c)) by {
            if init.contains(c) {
                let k = choose|k: int| 0 <= k < init.len() && init[k] == c;
                assert(cs[k] == cs[n]);
            }
        }
        assert(init.push(c) =~= cs);
    }
}

/// A tree in normal form is its own normal form.
pub proof fn lemma_normal_fixed(t: Tree)
    requires
        normal(t),
    ensures
        normalize_spec(t) == t,
    decreases t,
{
    match t {
        Tree::Match { dimension, codes, match_op } => {
            lemma_sorted_set_is(codes, codes);
        },
        Tree::And { children } => {
            assert forall|i: int| 0 <= i < children.len() implies normalize_spec(children[i]) == children[i] by {
                lemma_normal_fixed(children[i]);
            }
            assert(normalize_all(children) =~= children);
            assert forall|i: int| 0 <= i < children.len() implies !same_op(#[trigger] children[i], false) by {}
            lemma_flatten_id(children, false);
            lemma_fold_id(children, false);
        },
        Tree::Or { children } => {
            assert forall|i: int| 0 <= i < children.len() implies normalize_spec(children[i]) == children[i] by {
                lemma_normal_fixed(children[i]);
            }
            assert(normalize_all(children) =~= children);
            assert forall|i: int| 0 <= i < children.len() implies !same_op(#[trigger] children[i], true) by {}
            lemma_flatten_id(children, true);
            lemma_fold_id(children, true);
        },
        Tree::Not { child } => {
            lemma_normal_fixed(*child);
        },
        Tree::Conditional { condition, then } => {
            lemma_normal_fixed(*condition);
            lemma_normal_fixed(*then);
        },
        Tree::TimeWindow { from, to, inner } => {
            match inner {
                Some(b) => {
                    lemma_normal_fixed(*b);
                },
                None => {},
            }
        },
    }
}


// ---------------------------------------------------------------------------
// What `normalize` produces is in normal form

proof fn lemma_flatten_good(ns: Seq<Tree>, is_or: bool)
    requires
        forall|i: int| 0 <= i < ns.len() ==> normal(#[trigger] ns[i]),
    ensures
        forall|i: int| 0 <= i < flatten(ns, is_or).len() ==> normal(#[trigger] flatten(ns, is_or)[i]) && !same_op(
            flatten(ns, is_or)[i],
            is_or,
        ),
    decreases ns.len(),
{
    if ns.len() > 0 {
        let init = ns.drop_last();
        assert forall|i: int| 0 <= i < init.len() implies normal(#[trigger] init[i]) by {
            assert(init[i] == ns[i]);
        }
        lemma_flatten_good(init, is_or);
        let a = flatten(init, is_or);
        let last = ns[ns.len() - 1];
        let b = spliced(last, is_or);
        assert(normal(last));
        assert forall|j: int| 0 <= j < b.len() implies normal(#[trigger] b[j]) && !same_op(b[j], is_or) by {
            match last {
                Tree::And { children } => {
                    if !is_or {
                        assert(b[j] == children[j]);
                    }
                },
                Tree::Or { children } => {
                    if is_or {
                        assert(b[j] == children[j]);
                    }
                },
                _ => {},
            }
        }
        let f = flatten(ns, is_or);
        assert(f == a + b);
        assert forall|i: int| 0 <= i < f.len() implies normal(#[trigger] f[i]) && !same_op(f[i], is_or) by {
            if i < a.len() {
                assert(f[i] == a[i]);
            } else {
                assert(f[i] == b[i - a.len()]);
            }
        }
    }
}

proof fn lemma_merge_good(out: Seq<Tree>, c: Tree, is_or: bool)
    requires
        good_siblings(out, is_or),
        normal(c),
        !same_op(c, is_or),
    ensures
        good_siblings(merge_step(out, c, is_or), is_or),
{
    let d = match_dim(c);
    let k = first_anyof(out, d);
    lemma_first_anyof(out, d);
    let r = merge_step(out, c, is_or);
    if is_or && is_anyof(c) && k >= 0 {
        let codes = sorted_set(match_codes(out[k]) + match_codes(c));
        let m = Tree::Match { dimension: d, codes, match_op: MatchOp::AnyOf };
        lemma_sorted_set(match_codes(out[k]) + match_codes(c));
        assert(r == out.update(k, m));
        assert(normal(m));
        assert forall|i: int| 0 <= i < r.len() implies normal(#[trigger] r[i]) && !same_op(r[i], is_or) by {
            if i != k {
                assert(r[i] == out[i]);
            }
        }
        assert forall|i: int, j: int| 0 <= i < j < r.len() implies #[trigger] r[i] != #[trigger] r[j] by {
            if i == k {
                assert(r[j] == out[j]);
                if is_anyof(out[j]) {
                    assert(match_dim(out[j]) != match_dim(out[k]));
                }
            } else if j == k {
                assert(r[i] == out[i]);
                if is_anyof(out[i]) {
                    assert(match_dim(out[i]) != match_dim(out[k]));
                }
            } else {
                assert(r[i] == out[i] && r[j] == out[j]);
            }
        }
        assert forall|i: int, j: int|
            0 <= i < j < r.len() && is_anyof(#[trigger] r[i]) && is_anyof(#[trigger] r[j]) implies match_dim(r[i])
            != match_dim(r[j]) by {
            if i == k {
                assert(r[j] == out[j]);
            } else if j == k {
                assert(r[i] == out[i]);
            } else {
                assert(r[i] == out[i] && r[j] == out[j]);
            }
        }
    } else if out.contains(c) {
    } else {
        assert(r == out.push(c));
        assert forall|i: int| 0 <= i < r.len() implies normal(#[trigger] r[i]) && !same_op(r[i], is_or) by {
            if i < out.len() {
                assert(r[i] == out[i]);
            }
        }
        assert forall|i: int, j: int| 0 <= i < j < r.len() implies #[trigger] r[i] != #[trigger] r[j] by {
            assert(r[i] == out[i]);
            if j == out.len() {
                if r[i] == r[j] {
                    assert(out.contains(c));
                }
            } else {
                assert(r[j] == out[j]);
            }
        }
        if is_or {
            assert forall|i: int, j: int|
                0 <= i < j < r.len() && is_anyof(#[trigger] r[i]) && is_anyof(#[trigger] r[j]) implies match_dim(r[i])
                != match_dim(r[j]) by {
                assert(r[i] == out[i]);
                if j < out.len() {
                    assert(r[j] == out[j]);
                }
            }
        }
    }
}

proof fn lemma_fold_good(flat: Seq<Tree>, is_or: bool)
    requires
        forall|i: int| 0 <= i < flat.len() ==> normal(#[trigger] flat[i]) && !same_op(flat[i], is_or),
    ensures
        good_siblings(fold_siblings(flat, is_or), is_or),
    decreases flat.len(),
{
    if flat.len() > 0 {
        let init = flat.drop_last();
        assert forall|i: int| 0 <= i < init.len() implies normal(#[trigger] init[i]) && !same_op(init[i], is_or) by {
            assert(init[i] == flat[i]);
        }
        lemma_fold_good(init, is_or);
        assert(normal(flat[flat.len() - 1]));
        lemma_merge_good(fold_siblings(init, is_or), flat.last(), is_or);
    }
}

proof fn lemma_combine_normal(cs: Seq<Tree>, is_or: bool)
    requires
        good_siblings(cs, is_or),
    ensures
        normal(combine(cs, is_or)),
{
    if cs.len() == 0 {
        assert(strictly_sorted(Seq::<Seq<char>>::empty()));
    } else if cs.len() == 1 {
        assert(normal(cs[0]));
    } else if is_or {
        assert forall|i: int| 0 <= i < cs.len() implies normal(#[trigger] cs[i]) && !(cs[i] is Or) by {
            assert(!same_op(cs[i], true));
        }
    } else {
        assert forall|i: int| 0 <= i < cs.len() implies normal(#[trigger] cs[i]) && !(cs[i] is And) by {
            assert(!same_op(cs[i], false));
        }
    }
}

/// What `normalize` returns is in normal form.
pub proof fn lemma_normalize_normal(t: Tree)
    ensures
        normal(normalize_spec(t)),
    decreases t,
{
    match t {
        Tree::Match { dimension, codes, match_op } => {
            lemma_sorted_set(codes);
        },
        Tree::And { children } => {
            let ns = normalize_all(children);
            assert forall|i: int| 0 <= i < ns.len() implies normal(#[trigger] ns[i]) by {
                lemma_normalize_normal(children[i]);
            }
            lemma_flatten_good(ns, false);
            lemma_fold_good(flatten(ns, false), false);
            lemma_combine_normal(fold_siblings(flatten(ns, false), false), false);
        },
        Tree::Or { children } => {
            let ns = normalize_all(children);
            assert forall|i: int| 0 <= i < ns.len() implies normal(#[trigger] ns[i]) by {
                lemma_normalize_normal(children[i]);
            }
            lemma_flatten_good(ns, true);
            lemma_fold_good(flatten(ns, true), true);
            lemma_combine_normal(fold_siblings(flatten(ns, true), true), true);
        },
        Tree::Not { child } => {
            lemma_normalize_normal(*child);
        },
        Tree::Conditional { condition, then } => {
            lemma_normalize_normal(*condition);
            lemma_normalize_normal(*then);
        },
        Tree::TimeWindow { from, to, inner } => {
            match inner {
                Some(b) => {
                    lemma_normalize_normal(*b);
                },
                None => {},
            }
        },
    }
}

/// Normalising twice gives what normalising once gives.
pub proof fn lemma_normalize_idempotent(t: Tree)
    ensures
        normalize_spec(normalize_spec(t)) == normalize_spec(t),
{
    lemma_normalize_normal(t);
    lemma_normal_fixed(normalize_spec(t));
}

} // verus!
