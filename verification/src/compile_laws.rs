//! What a compiled applicability tree can hold: normalising never brings in a
//! code, and outside the root application gate no code of a compiled tree is
//! a government actor or a jurisdiction.

use vstd::prelude::*;
use crate::applicability::{
    and_spec, any_leaf, combine, first_anyof, flatten, fold_siblings, is_anyof, match_codes, match_dim, merge_step,
    normalize_all, normalize_spec, or_spec, sorted_set, spliced, Tree, MatchOp,
};
use crate::applicability_compile::{
    codes_all, codes_on, codes_spec, compile_spec, gather, gather_step, gov_actor_codes_spec, grounded, is_disapplies,
    keep_unshared, keeps_code, mention_node, mention_pairs, pair_dims, top_nodes, window_spec, Gathered, MentionView,
    CITATION_RE, LAW_COMMENCEMENT_RE, LAW_SUNSET_RE, is_applies, mention_dates,
};
use crate::application::jurisdiction_codes_spec;
use crate::labelset::{lemma_lex_irreflexive, lemma_lex_total, lemma_lex_transitive, lex_lt};
use crate::normal_form::{lemma_first_anyof, lemma_normalize_normal, lemma_sorted_set, normal};
use crate::order::str_views;
use crate::rx::{is_match_spec, replace_all_spec};
use crate::applicability_compile::{
    is_construction_code, keeps_repaired, non_windows, one_window, repair_all, repair_go, repair_spec, repaired_codes, seq_max, seq_min, window_froms,
    with_gate_spec,
};

verus! {

/// Some entry of `cs` holds code `c`.
pub open spec fn in_some(cs: Seq<Tree>, c: Seq<char>) -> bool {
    exists|i: int| 0 <= i < cs.len() && #[trigger] codes_spec(cs[i]).contains(c)
}

proof fn lemma_concat_contains(a: Seq<Seq<char>>, b: Seq<Seq<char>>, c: Seq<char>)
    ensures
        (a + b).contains(c) <==> (a.contains(c) || b.contains(c)),
{
    if (a + b).contains(c) {
        let k = choose|k: int| 0 <= k < (a + b).len() && (a + b)[k] == c;
        if k < a.len() {
            assert(a[k] == c);
        } else {
            assert(b[k - a.len()] == c);
        }
    }
    if a.contains(c) {
        let k = choose|k: int| 0 <= k < a.len() && a[k] == c;
        assert((a + b)[k] == c);
    }
    if b.contains(c) {
        let k = choose|k: int| 0 <= k < b.len() && b[k] == c;
        assert((a + b)[k + a.len()] == c);
    }
}

/// The codes of a list are the codes of its entries.
pub proof fn lemma_codes_all(cs: Seq<Tree>, c: Seq<char>)
    ensures
        codes_all(cs).contains(c) == in_some(cs, c),
    decreases cs.len(),
{
    if cs.len() > 0 {
        let init = cs.drop_last();
        lemma_codes_all(init, c);
        lemma_concat_contains(codes_all(init), codes_spec(cs[cs.len() - 1]), c);
        if in_some(cs, c) {
            let i = choose|i: int| 0 <= i < cs.len() && #[trigger] codes_spec(cs[i]).contains(c);
            if i < init.len() {
                assert(init[i] == cs[i]);
                assert(in_some(init, c));
            }
        }
        if in_some(init, c) {
            let i = choose|i: int| 0 <= i < init.len() && #[trigger] codes_spec(init[i]).contains(c);
            assert(init[i] == cs[i]);
        }
    }
}

proof fn lemma_flatten_codes(ns: Seq<Tree>, is_or: bool, c: Seq<char>)
    requires
        in_some(flatten(ns, is_or), c),
    ensures
        in_some(ns, c),
    decreases ns.len(),
{
    let init = ns.drop_last();
    let last = ns[ns.len() - 1];
    let a = flatten(init, is_or);
    let b = spliced(last, is_or);
    let f = flatten(ns, is_or);
    assert(f == a + b);
    let i = choose|i: int| 0 <= i < f.len() && #[trigger] codes_spec(f[i]).contains(c);
    if i < a.len() {
        assert(f[i] == a[i]);
        assert(in_some(a, c));
        lemma_flatten_codes(init, is_or, c);
        let j = choose|j: int| 0 <= j < init.len() && #[trigger] codes_spec(init[j]).contains(c);
        assert(init[j] == ns[j]);
    } else {
        let j = i - a.len();
        assert(f[i] == b[j]);
        match last {
            Tree::And { children } => {
                if !is_or {
                    assert(in_some(children, c));
                    lemma_codes_all(children, c);
                }
            },
            Tree::Or { children } => {
                if is_or {
                    assert(in_some(children, c));
                    lemma_codes_all(children, c);
                }
            },
            _ => {},
        }
        assert(codes_spec(ns[ns.len() - 1]).contains(c));
    }
}

proof fn lemma_merge_codes(out: Seq<Tree>, x: Tree, is_or: bool, c: Seq<char>)
    requires
        in_some(merge_step(out, x, is_or), c),
    ensures
        in_some(out, c) || codes_spec(x).contains(c),
{
    let d = match_dim(x);
    let k = first_anyof(out, d);
    lemma_first_anyof(out, d);
    let r = merge_step(out, x, is_or);
    let i = choose|i: int| 0 <= i < r.len() && #[trigger] codes_spec(r[i]).contains(c);
    if is_or && is_anyof(x) && k >= 0 {
        let both = match_codes(out[k]) + match_codes(x);
        lemma_sorted_set(both);
        if i == k {
            assert(codes_spec(r[i]) == sorted_set(both));
            assert(sorted_set(both).to_set().contains(c));
            assert(both.to_set().contains(c));
            lemma_concat_contains(match_codes(out[k]), match_codes(x), c);
            assert(match_codes(out[k]) == codes_spec(out[k]));
            assert(match_codes(x) == codes_spec(x));
        } else {
            assert(r[i] == out[i]);
        }
    } else if out.contains(x) {
    } else {
        if i < out.len() {
            assert(r[i] == out[i]);
        }
    }
}

proof fn lemma_fold_codes(flat: Seq<Tree>, is_or: bool, c: Seq<char>)
    requires
        in_some(fold_siblings(flat, is_or), c),
    ensures
        in_some(flat, c),
    decreases flat.len(),
{
    let init = flat.drop_last();
    lemma_merge_codes(fold_siblings(init, is_or), flat.last(), is_or, c);
    if in_some(fold_siblings(init, is_or), c) {
        lemma_fold_codes(init, is_or, c);
        let j = choose|j: int| 0 <= j < init.len() && #[trigger] codes_spec(init[j]).contains(c);
        assert(init[j] == flat[j]);
    } else {
        assert(codes_spec(flat[flat.len() - 1]).contains(c));
    }
}

proof fn lemma_combine_codes(cs: Seq<Tree>, is_or: bool, c: Seq<char>)
    requires
        codes_spec(combine(cs, is_or)).contains(c),
    ensures
        in_some(cs, c),
{
    if cs.len() == 0 {
        assert(codes_spec(any_leaf()) == Seq::<Seq<char>>::empty());
    } else if cs.len() == 1 {
        assert(codes_spec(cs[0]).contains(c));
    } else {
        lemma_codes_all(cs, c);
    }
}

/// Normalising keeps or drops codes, and brings in none.
pub proof fn lemma_normalize_codes(t: Tree, c: Seq<char>)
    requires
        codes_spec(normalize_spec(t)).contains(c),
    ensures
        codes_spec(t).contains(c),
    decreases t,
{
    match t {
        Tree::Match { dimension, codes, match_op } => {
            lemma_sorted_set(codes);
            assert(sorted_set(codes).to_set().contains(c));
        },
        Tree::And { children } => {
            let ns = normalize_all(children);
            lemma_combine_codes(fold_siblings(flatten(ns, false), false), false, c);
            lemma_fold_codes(flatten(ns, false), false, c);
            lemma_flatten_codes(ns, false, c);
            let i = choose|i: int| 0 <= i < ns.len() && #[trigger] codes_spec(ns[i]).contains(c);
            lemma_normalize_codes(children[i], c);
            assert(in_some(children, c));
            lemma_codes_all(children, c);
        },
        Tree::Or { children } => {
            let ns = normalize_all(children);
            lemma_combine_codes(fold_siblings(flatten(ns, true), true), true, c);
            lemma_fold_codes(flatten(ns, true), true, c);
            lemma_flatten_codes(ns, true, c);
            let i = choose|i: int| 0 <= i < ns.len() && #[trigger] codes_spec(ns[i]).contains(c);
            lemma_normalize_codes(children[i], c);
            assert(in_some(children, c));
            lemma_codes_all(children, c);
        },
        Tree::Not { child } => {
            let n = normalize_spec(*child);
            match n {
                Tree::Not { child: inner } => {
                    assert(codes_spec(n) == codes_spec(*inner));
                },
                _ => {},
            }
            lemma_normalize_codes(*child, c);
        },
        Tree::Conditional { condition, then } => {
            lemma_concat_contains(codes_spec(normalize_spec(*condition)), codes_spec(normalize_spec(*then)), c);
            lemma_concat_contains(codes_spec(*condition), codes_spec(*then), c);
            if codes_spec(normalize_spec(*condition)).contains(c) {
                lemma_normalize_codes(*condition, c);
            } else {
                lemma_normalize_codes(*then, c);
            }
        },
        Tree::TimeWindow { from, to, inner } => {
            match inner {
                Some(b) => {
                    lemma_normalize_codes(*b, c);
                },
                None => {},
            }
        },
    }
}


// ---------------------------------------------------------------------------
// Compiled trees

/// A code that may stand as a condition: neither a government actor nor a
/// jurisdiction.
pub open spec fn gate_free(c: Seq<char>) -> bool {
    &&& !str_views(gov_actor_codes_spec()).contains(c)
    &&& !str_views(jurisdiction_codes_spec()).contains(c)
}

pub open spec fn tree_free(t: Tree) -> bool {
    forall|c: Seq<char>| #[trigger] codes_spec(t).contains(c) ==> gate_free(c)
}

pub open spec fn all_free(cs: Seq<Tree>) -> bool {
    forall|i: int| 0 <= i < cs.len() ==> tree_free(#[trigger] cs[i])
}

proof fn lemma_in_some_free(cs: Seq<Tree>, c: Seq<char>)
    requires
        all_free(cs),
        in_some(cs, c),
    ensures
        gate_free(c),
{
    let i = choose|i: int| 0 <= i < cs.len() && #[trigger] codes_spec(cs[i]).contains(c);
    assert(tree_free(cs[i]));
}

proof fn lemma_pairs_kept(ents: Seq<Seq<char>>, stripped: Seq<char>, title: Seq<char>, dims: Map<Seq<char>, Seq<char>>, disapplies: bool)
    ensures
        forall|j: int| 0 <= j < mention_pairs(ents, stripped, title, dims, disapplies).len() ==> keeps_code(
            #[trigger] mention_pairs(ents, stripped, title, dims, disapplies)[j].1,
            stripped,
            title,
            disapplies,
        ),
    decreases ents.len(),
{
    if ents.len() > 0 {
        let prev = mention_pairs(ents.drop_last(), stripped, title, dims, disapplies);
        let pairs = mention_pairs(ents, stripped, title, dims, disapplies);
        lemma_pairs_kept(ents.drop_last(), stripped, title, dims, disapplies);
        assert forall|j: int| 0 <= j < pairs.len() implies keeps_code(#[trigger] pairs[j].1, stripped, title, disapplies) by {
            if j < prev.len() {
                assert(pairs[j] == prev[j]);
            }
        }
    }
}

proof fn lemma_codes_on(pairs: Seq<(Seq<char>, Seq<char>)>, d: Seq<char>, c: Seq<char>)
    requires
        codes_on(pairs, d).contains(c),
    ensures
        exists|j: int| 0 <= j < pairs.len() && #[trigger] pairs[j].1 == c,
    decreases pairs.len(),
{
    let init = pairs.drop_last();
    if pairs.last().0 == d {
        let k = choose|k: int| 0 <= k < codes_on(pairs, d).len() && codes_on(pairs, d)[k] == c;
        if k == codes_on(init, d).len() {
            assert(pairs[pairs.len() - 1].1 == c);
        } else {
            assert(codes_on(init, d)[k] == c);
            lemma_codes_on(init, d, c);
            let j = choose|j: int| 0 <= j < init.len() && #[trigger] init[j].1 == c;
            assert(pairs[j].1 == c);
        }
    } else {
        lemma_codes_on(init, d, c);
        let j = choose|j: int| 0 <= j < init.len() && #[trigger] init[j].1 == c;
        assert(pairs[j].1 == c);
    }
}

proof fn lemma_mention_node_free(ents: Seq<Seq<char>>, stripped: Seq<char>, title: Seq<char>, dims: Map<Seq<char>, Seq<char>>, disapplies: bool)
    ensures
        tree_free(mention_node(mention_pairs(ents, stripped, title, dims, disapplies))),
{
    let pairs = mention_pairs(ents, stripped, title, dims, disapplies);
    lemma_pairs_kept(ents, stripped, title, dims, disapplies);
    let ds = sorted_set(pair_dims(pairs));
    let ms = Seq::new(ds.len(), |i: int| Tree::Match { dimension: ds[i], codes: codes_on(pairs, ds[i]), match_op: MatchOp::AnyOf });
    assert forall|i: int| 0 <= i < ms.len() implies tree_free(#[trigger] ms[i]) by {
        assert forall|c: Seq<char>| #[trigger] codes_spec(ms[i]).contains(c) implies gate_free(c) by {
            lemma_codes_on(pairs, ds[i], c);
            let j = choose|j: int| 0 <= j < pairs.len() && #[trigger] pairs[j].1 == c;
            assert(keeps_code(pairs[j].1, stripped, title, disapplies));
        }
    }
    assert forall|c: Seq<char>| #[trigger] codes_spec(and_spec(ms)).contains(c) implies gate_free(c) by {
        if ms.len() == 0 {
            assert(codes_spec(any_leaf()) == Seq::<Seq<char>>::empty());
        } else if ms.len() == 1 {
            assert(tree_free(ms[0]));
        } else {
            lemma_codes_all(ms, c);
            lemma_in_some_free(ms, c);
        }
    }
}

/// Everything gathered from the mentions is free of government-actor and
/// jurisdiction codes.
proof fn lemma_gather_free(ms: Seq<MentionView>, dims: Map<Seq<char>, Seq<char>>, title: Seq<char>)
    ensures
        all_free(gather(ms, dims, title).0),
        all_free(gather(ms, dims, title).1),
    decreases ms.len(),
{
    if ms.len() > 0 {
        let g = gather(ms.drop_last(), dims, title);
        lemma_gather_free(ms.drop_last(), dims, title);
        let (pol, ents, text) = ms.last();
        let disapplies = is_disapplies(pol);
        let stripped = replace_all_spec(CITATION_RE@, text, " "@);
        lemma_mention_node_free(ents, stripped, title, dims, disapplies);
        let h = gather(ms, dims, title);
        assert(h == gather_step(g, ms.last(), dims, title));
        assert forall|i: int| 0 <= i < h.0.len() implies tree_free(#[trigger] h.0[i]) by {
            if i < g.0.len() {
                assert(h.0[i] == g.0[i]);
            }
        }
        assert forall|i: int| 0 <= i < h.1.len() implies tree_free(#[trigger] h.1[i]) by {
            if i < g.1.len() {
                assert(h.1[i] == g.1[i]);
            }
        }
    }
}

proof fn lemma_keep_unshared_free(ds: Seq<Tree>, set: Seq<Seq<char>>)
    requires
        all_free(ds),
    ensures
        all_free(keep_unshared(ds, set)),
    decreases ds.len(),
{
    if ds.len() > 0 {
        let init = ds.drop_last();
        assert forall|i: int| 0 <= i < init.len() implies tree_free(#[trigger] init[i]) by {
            assert(init[i] == ds[i]);
        }
        lemma_keep_unshared_free(init, set);
        assert(tree_free(ds[ds.len() - 1]));
    }
}

proof fn lemma_group_free(cs: Seq<Tree>, is_or: bool)
    requires
        all_free(cs),
    ensures
        tree_free(combine(cs, is_or)),
{
    assert forall|c: Seq<char>| #[trigger] codes_spec(combine(cs, is_or)).contains(c) implies gate_free(c) by {
        lemma_combine_codes(cs, is_or, c);
        lemma_in_some_free(cs, c);
    }
}

proof fn lemma_top_free(g: Gathered)
    requires
        all_free(g.0),
        all_free(g.1),
    ensures
        all_free(top_nodes(g)),
{
    let t = top_nodes(g);
    if g.0.len() > 0 {
        lemma_group_free(g.0, true);
        let kept = keep_unshared(g.1, codes_all(g.0));
        lemma_keep_unshared_free(g.1, codes_all(g.0));
        lemma_group_free(kept, true);
        let n = Tree::Not { child: Box::new(or_spec(kept)) };
        assert(codes_spec(n) == codes_spec(or_spec(kept)));
    }
    match window_spec(g.2, g.3) {
        Some(w) => {
            assert(codes_spec(w) == Seq::<Seq<char>>::empty());
        },
        None => {},
    }
    assert forall|i: int| 0 <= i < t.len() implies tree_free(#[trigger] t[i]) by {}
}

proof fn lemma_normalized_free(t: Tree)
    requires
        tree_free(t),
    ensures
        tree_free(normalize_spec(t)),
{
    assert forall|c: Seq<char>| #[trigger] codes_spec(normalize_spec(t)).contains(c) implies gate_free(c) by {
        lemma_normalize_codes(t, c);
    }
}

/// Outside the root application gate, no code of a compiled tree names a
/// government actor or a jurisdiction: every code is one of the law's
/// application codes or is free of both.
pub proof fn lemma_compiled_codes(
    ms: Seq<MentionView>,
    dims: Map<Seq<char>, Seq<char>>,
    title: Seq<char>,
    app: Option<Seq<Seq<char>>>,
    c: Seq<char>,
)
    requires
        compile_spec(ms, dims, title, app) is Some,
        codes_spec(compile_spec(ms, dims, title, app)->0).contains(c),
    ensures
        (app is Some && app->0.contains(c)) || gate_free(c),
{
    let g = gather(ms, dims, title);
    lemma_gather_free(ms, dims, title);
    lemma_top_free(g);
    let top = top_nodes(g);
    let tree = if top.len() == 0 { None } else { Some(normalize_spec(and_spec(top))) };
    if top.len() > 0 {
        lemma_group_free(top, false);
        lemma_normalized_free(and_spec(top));
        assert(tree_free(tree->0));
    }
    lemma_with_gate_free(tree, app, c);
}

/// A compiled tree is in normal form.
pub proof fn lemma_compiled_normal(
    ms: Seq<MentionView>,
    dims: Map<Seq<char>, Seq<char>>,
    title: Seq<char>,
    app: Option<Seq<Seq<char>>>,
)
    requires
        compile_spec(ms, dims, title, app) is Some,
    ensures
        normal(compile_spec(ms, dims, title, app)->0),
{
    let top = top_nodes(gather(ms, dims, title));
    if app is Some && app->0.len() > 0 {
        let gate = Tree::Match { dimension: "territorial"@, codes: app->0, match_op: MatchOp::AnyOf };
        let tree = if top.len() == 0 { None } else { Some(normalize_spec(and_spec(top))) };
        let rest: Seq<Tree> = match tree {
            Some(Tree::And { children }) => children,
            Some(other) => seq![other],
            None => seq![],
        };
        lemma_normalize_normal(and_spec(seq![gate] + rest));
    } else {
        lemma_normalize_normal(and_spec(top));
    }
}


// ---------------------------------------------------------------------------
// Rules every node of a compiled tree keeps

/// A rule on single nodes: a time window never ends before it starts; no
/// code under a negation is grounded in the given title; a time window holds
/// no inner tree; a time window has no end; the node is no time window.
pub enum NodeRule {
    WindowOrder,
    NoSubject(Seq<char>),
    BareWindow,
    OpenEnded,
    NoWindow,
}

pub open spec fn holds(rule: NodeRule, t: Tree) -> bool {
    match rule {
        NodeRule::WindowOrder => match t {
            Tree::TimeWindow { from: Some(f), to: Some(x), .. } => !lex_lt(x, f),
            _ => true,
        },
        NodeRule::NoSubject(title) => match t {
            Tree::Not { child } => forall|c: Seq<char>|
                #[trigger] codes_spec(*child).contains(c) ==> !(title.len() > 0 && grounded(c, title)),
            _ => true,
        },
        NodeRule::BareWindow => match t {
            Tree::TimeWindow { inner, .. } => inner is None,
            _ => true,
        },
        NodeRule::OpenEnded => match t {
            Tree::TimeWindow { to, .. } => to is None,
            _ => true,
        },
        NodeRule::NoWindow => !(t is TimeWindow),
    }
}

/// Every node of `t` keeps the rule.
pub open spec fn all_nodes(t: Tree, rule: NodeRule) -> bool
    decreases t,
{
    holds(rule, t) && match t {
        Tree::Match { .. } => true,
        Tree::And { children } => forall|i: int| 0 <= i < children.len() ==> all_nodes(#[trigger] children[i], rule),
        Tree::Or { children } => forall|i: int| 0 <= i < children.len() ==> all_nodes(#[trigger] children[i], rule),
        Tree::Not { child } => all_nodes(*child, rule),
        Tree::Conditional { condition, then } => all_nodes(*condition, rule) && all_nodes(*then, rule),
        Tree::TimeWindow { inner, .. } => match inner {
            Some(b) => all_nodes(*b, rule),
            None => true,
        },
    }
}

pub open spec fn all_kept(cs: Seq<Tree>, rule: NodeRule) -> bool {
    forall|i: int| 0 <= i < cs.len() ==> all_nodes(#[trigger] cs[i], rule)
}

proof fn lemma_flatten_kept(ns: Seq<Tree>, is_or: bool, rule: NodeRule)
    requires
        all_kept(ns, rule),
    ensures
        all_kept(flatten(ns, is_or), rule),
    decreases ns.len(),
{
    if ns.len() > 0 {
        let init = ns.drop_last();
        assert forall|i: int| 0 <= i < init.len() implies all_nodes(#[trigger] init[i], rule) by {
            assert(init[i] == ns[i]);
        }
        lemma_flatten_kept(init, is_or, rule);
        let a = flatten(init, is_or);
        let last = ns[ns.len() - 1];
        let b = spliced(last, is_or);
        assert(all_nodes(last, rule));
        assert forall|j: int| 0 <= j < b.len() implies all_nodes(#[trigger] b[j], rule) by {
            match last {
                Tree::And { children } => {
                    if !is_or {
                        assert(b[j] == children[j]);
                    }
                },
                Tree::Or { children } => {
                    if is_or {
                        assert(b[j] == children[j]);
                    }
                },
                _ => {},
            }
        }
        let f = flatten(ns, is_or);
        assert(f == a + b);
        assert forall|i: int| 0 <= i < f.len() implies all_nodes(#[trigger] f[i], rule) by {
            if i < a.len() {
                assert(f[i] == a[i]);
            } else {
                assert(f[i] == b[i - a.len()]);
            }
        }
    }
}

proof fn lemma_fold_kept(flat: Seq<Tree>, is_or: bool, rule: NodeRule)
    requires
        all_kept(flat, rule),
    ensures
        all_kept(fold_siblings(flat, is_or), rule),
    decreases flat.len(),
{
    if flat.len() > 0 {
        let init = flat.drop_last();
        assert forall|i: int| 0 <= i < init.len() implies all_nodes(#[trigger] init[i], rule) by {
            assert(init[i] == flat[i]);
        }
        lemma_fold_kept(init, is_or, rule);
        let out = fold_siblings(init, is_or);
        let x = flat.last();
        assert(all_nodes(flat[flat.len() - 1], rule));
        let d = match_dim(x);
        let k = first_anyof(out, d);
        lemma_first_anyof(out, d);
        let r = merge_step(out, x, is_or);
        assert(r == fold_siblings(flat, is_or));
        if is_or && is_anyof(x) && k >= 0 {
            let m = Tree::Match { dimension: d, codes: sorted_set(match_codes(out[k]) + match_codes(x)), match_op: MatchOp::AnyOf };
            assert(all_nodes(m, rule));
            assert forall|i: int| 0 <= i < r.len() implies all_nodes(#[trigger] r[i], rule) by {
                if i != k {
                    assert(r[i] == out[i]);
                }
            }
        } else if out.contains(x) {
        } else {
            assert(r == out.push(x));
            assert forall|i: int| 0 <= i < r.len() implies all_nodes(#[trigger] r[i], rule) by {
                if i < out.len() {
                    assert(r[i] == out[i]);
                }
            }
        }
    }
}

proof fn lemma_combine_kept(cs: Seq<Tree>, is_or: bool, rule: NodeRule)
    requires
        all_kept(cs, rule),
    ensures
        all_nodes(combine(cs, is_or), rule),
{
    if cs.len() == 1 {
        assert(all_nodes(cs[0], rule));
    }
}

/// Normalising keeps every node rule that the tree keeps.
pub proof fn lemma_normalize_kept(t: Tree, rule: NodeRule)
    requires
        all_nodes(t, rule),
    ensures
        all_nodes(normalize_spec(t), rule),
    decreases t,
{
    match t {
        Tree::Match { .. } => {},
        Tree::And { children } => {
            let ns = normalize_all(children);
            assert forall|i: int| 0 <= i < ns.len() implies all_nodes(#[trigger] ns[i], rule) by {
                lemma_normalize_kept(children[i], rule);
            }
            lemma_flatten_kept(ns, false, rule);
            lemma_fold_kept(flatten(ns, false), false, rule);
            lemma_combine_kept(fold_siblings(flatten(ns, false), false), false, rule);
        },
        Tree::Or { children } => {
            let ns = normalize_all(children);
            assert forall|i: int| 0 <= i < ns.len() implies all_nodes(#[trigger] ns[i], rule) by {
                lemma_normalize_kept(children[i], rule);
            }
            lemma_flatten_kept(ns, true, rule);
            lemma_fold_kept(flatten(ns, true), true, rule);
            lemma_combine_kept(fold_siblings(flatten(ns, true), true), true, rule);
        },
        Tree::Not { child } => {
            lemma_normalize_kept(*child, rule);
            let n = normalize_spec(*child);
            match rule {
                NodeRule::NoSubject(title) => {
                    assert forall|c: Seq<char>| #[trigger] codes_spec(n).contains(c) implies !(title.len() > 0 && grounded(c, title)) by {
                        lemma_normalize_codes(*child, c);
                    }
                },
                _ => {},
            }
        },
        Tree::Conditional { condition, then } => {
            lemma_normalize_kept(*condition, rule);
            lemma_normalize_kept(*then, rule);
        },
        Tree::TimeWindow { from, to, inner } => {
            match inner {
                Some(b) => {
                    lemma_normalize_kept(*b, rule);
                },
                None => {},
            }
        },
    }
}


proof fn lemma_mention_node_codes(pairs: Seq<(Seq<char>, Seq<char>)>, c: Seq<char>)
    requires
        codes_spec(mention_node(pairs)).contains(c),
    ensures
        exists|j: int| 0 <= j < pairs.len() && #[trigger] pairs[j].1 == c,
{
    let ds = sorted_set(pair_dims(pairs));
    let ms = Seq::new(ds.len(), |i: int| Tree::Match { dimension: ds[i], codes: codes_on(pairs, ds[i]), match_op: MatchOp::AnyOf });
    assert(mention_node(pairs) == and_spec(ms));
    if ms.len() == 0 {
        assert(codes_spec(any_leaf()) == Seq::<Seq<char>>::empty());
    } else if ms.len() == 1 {
        lemma_codes_on(pairs, ds[0], c);
    } else {
        lemma_codes_all(ms, c);
        let i = choose|i: int| 0 <= i < ms.len() && #[trigger] codes_spec(ms[i]).contains(c);
        lemma_codes_on(pairs, ds[i], c);
    }
}

proof fn lemma_mention_node_rules(pairs: Seq<(Seq<char>, Seq<char>)>, rule: NodeRule)
    ensures
        all_nodes(mention_node(pairs), rule),
{
    let ds = sorted_set(pair_dims(pairs));
    let ms = Seq::new(ds.len(), |i: int| Tree::Match { dimension: ds[i], codes: codes_on(pairs, ds[i]), match_op: MatchOp::AnyOf });
    assert(mention_node(pairs) == and_spec(ms));
    assert forall|i: int| 0 <= i < ms.len() implies all_nodes(#[trigger] ms[i], rule) by {}
    lemma_combine_kept(ms, false, rule);
}

/// No code of `t` is grounded in a non-empty title.
pub open spec fn subject_free(t: Tree, title: Seq<char>) -> bool {
    forall|c: Seq<char>| #[trigger] codes_spec(t).contains(c) ==> !(title.len() > 0 && grounded(c, title))
}

proof fn lemma_gather_rules(ms: Seq<MentionView>, dims: Map<Seq<char>, Seq<char>>, title: Seq<char>, rule: NodeRule)
    ensures
        all_kept(gather(ms, dims, title).0, rule),
        all_kept(gather(ms, dims, title).1, rule),
        forall|i: int| 0 <= i < gather(ms, dims, title).1.len() ==> subject_free(#[trigger] gather(ms, dims, title).1[i], title),
    decreases ms.len(),
{
    if ms.len() > 0 {
        let g = gather(ms.drop_last(), dims, title);
        lemma_gather_rules(ms.drop_last(), dims, title, rule);
        let (pol, ents, text) = ms.last();
        let disapplies = is_disapplies(pol);
        let stripped = replace_all_spec(CITATION_RE@, text, " "@);
        let pairs = mention_pairs(ents, stripped, title, dims, disapplies);
        let node = mention_node(pairs);
        lemma_mention_node_rules(pairs, rule);
        lemma_pairs_kept(ents, stripped, title, dims, disapplies);
        if disapplies {
            assert forall|c: Seq<char>| #[trigger] codes_spec(node).contains(c) implies !(title.len() > 0 && grounded(c, title)) by {
                lemma_mention_node_codes(pairs, c);
                let j = choose|j: int| 0 <= j < pairs.len() && #[trigger] pairs[j].1 == c;
                assert(keeps_code(pairs[j].1, stripped, title, disapplies));
            }
        }
        let h = gather(ms, dims, title);
        assert(h == gather_step(g, ms.last(), dims, title));
        assert forall|i: int| 0 <= i < h.0.len() implies all_nodes(#[trigger] h.0[i], rule) by {
            if i < g.0.len() {
                assert(h.0[i] == g.0[i]);
            }
        }
        assert forall|i: int| 0 <= i < h.1.len() implies all_nodes(#[trigger] h.1[i], rule) && subject_free(h.1[i], title) by {
            if i < g.1.len() {
                assert(h.1[i] == g.1[i]);
            }
        }
    }
}

proof fn lemma_keep_unshared_rules(ds: Seq<Tree>, set: Seq<Seq<char>>, rule: NodeRule, title: Seq<char>)
    requires
        all_kept(ds, rule),
        forall|i: int| 0 <= i < ds.len() ==> subject_free(#[trigger] ds[i], title),
    ensures
        all_kept(keep_unshared(ds, set), rule),
        forall|i: int| 0 <= i < keep_unshared(ds, set).len() ==> subject_free(#[trigger] keep_unshared(ds, set)[i], title),
    decreases ds.len(),
{
    if ds.len() > 0 {
        let init = ds.drop_last();
        assert forall|i: int| 0 <= i < init.len() implies all_nodes(#[trigger] init[i], rule) && subject_free(init[i], title) by {
            assert(init[i] == ds[i]);
        }
        lemma_keep_unshared_rules(init, set, rule, title);
        assert(all_nodes(ds[ds.len() - 1], rule) && subject_free(ds[ds.len() - 1], title));
    }
}

proof fn lemma_top_rules(g: Gathered, rule: NodeRule, title: Seq<char>)
    requires
        all_kept(g.0, rule),
        all_kept(g.1, rule),
        forall|i: int| 0 <= i < g.1.len() ==> subject_free(#[trigger] g.1[i], title),
        rule == NodeRule::WindowOrder || rule == NodeRule::NoSubject(title),
    ensures
        all_kept(top_nodes(g), rule),
{
    let t = top_nodes(g);
    if g.0.len() > 0 {
        lemma_combine_kept(g.0, true, rule);
        let kept = keep_unshared(g.1, codes_all(g.0));
        lemma_keep_unshared_rules(g.1, codes_all(g.0), rule, title);
        lemma_combine_kept(kept, true, rule);
        let n = Tree::Not { child: Box::new(or_spec(kept)) };
        assert forall|c: Seq<char>| #[trigger] codes_spec(or_spec(kept)).contains(c) implies !(title.len() > 0 && grounded(c, title)) by {
            lemma_combine_codes(kept, true, c);
            let i = choose|i: int| 0 <= i < kept.len() && #[trigger] codes_spec(kept[i]).contains(c);
            assert(subject_free(kept[i], title));
        }
        assert(all_nodes(n, rule));
    }
    match window_spec(g.2, g.3) {
        Some(w) => {
            assert(all_nodes(w, rule));
        },
        None => {},
    }
    assert forall|i: int| 0 <= i < t.len() implies all_nodes(#[trigger] t[i], rule) by {}
}

proof fn lemma_compiled_rule(
    ms: Seq<MentionView>,
    dims: Map<Seq<char>, Seq<char>>,
    title: Seq<char>,
    app: Option<Seq<Seq<char>>>,
    rule: NodeRule,
)
    requires
        compile_spec(ms, dims, title, app) is Some,
        rule == NodeRule::WindowOrder || rule == NodeRule::NoSubject(title),
    ensures
        all_nodes(compile_spec(ms, dims, title, app)->0, rule),
{
    let g = gather(ms, dims, title);
    lemma_gather_rules(ms, dims, title, rule);
    lemma_top_rules(g, rule, title);
    let top = top_nodes(g);
    let tree = if top.len() == 0 { None } else { Some(normalize_spec(and_spec(top))) };
    if top.len() > 0 {
        lemma_combine_kept(top, false, rule);
        lemma_normalize_kept(and_spec(top), rule);
    }
    lemma_with_gate_kept(tree, app, rule);
}

/// Every time window of a compiled tree ends no earlier than it starts.
pub proof fn lemma_compiled_windows(
    ms: Seq<MentionView>,
    dims: Map<Seq<char>, Seq<char>>,
    title: Seq<char>,
    app: Option<Seq<Seq<char>>>,
)
    requires
        compile_spec(ms, dims, title, app) is Some,
    ensures
        all_nodes(compile_spec(ms, dims, title, app)->0, NodeRule::WindowOrder),
{
    lemma_compiled_rule(ms, dims, title, app, NodeRule::WindowOrder);
}

/// A compiled tree never negates the subject its law's title names: no code
/// under a `Not` is grounded in the (non-empty) title.
pub proof fn lemma_compiled_keeps_subject(
    ms: Seq<MentionView>,
    dims: Map<Seq<char>, Seq<char>>,
    title: Seq<char>,
    app: Option<Seq<Seq<char>>>,
)
    requires
        compile_spec(ms, dims, title, app) is Some,
    ensures
        all_nodes(compile_spec(ms, dims, title, app)->0, NodeRule::NoSubject(title)),
{
    lemma_compiled_rule(ms, dims, title, app, NodeRule::NoSubject(title));
}

/// The application gate adds only the application's codes.
proof fn lemma_with_gate_free(tree: Option<Tree>, app: Option<Seq<Seq<char>>>, c: Seq<char>)
    requires
        tree is Some ==> tree_free(tree->0),
        with_gate_spec(tree, app) is Some,
        codes_spec(with_gate_spec(tree, app)->0).contains(c),
    ensures
        (app is Some && app->0.contains(c)) || gate_free(c),
{
    if app is Some && app->0.len() > 0 {
        let gate = Tree::Match { dimension: "territorial"@, codes: app->0, match_op: MatchOp::AnyOf };
        let rest: Seq<Tree> = match tree {
            Some(Tree::And { children }) => children,
            Some(other) => seq![other],
            None => seq![],
        };
        let all = seq![gate] + rest;
        lemma_normalize_codes(and_spec(all), c);
        lemma_combine_codes(all, false, c);
        let i = choose|i: int| 0 <= i < all.len() && #[trigger] codes_spec(all[i]).contains(c);
        if i > 0 {
            assert(all[i] == rest[i - 1]);
            match tree {
                Some(Tree::And { children }) => {
                    assert(in_some(children, c));
                    lemma_codes_all(children, c);
                    assert(codes_spec(tree->0).contains(c));
                },
                Some(other) => {
                    assert(codes_spec(other).contains(c));
                },
                None => {},
            }
        } else {
            assert(codes_spec(gate) == app->0);
        }
    }
}

/// The application gate keeps every node rule that the tree keeps.
proof fn lemma_with_gate_kept(tree: Option<Tree>, app: Option<Seq<Seq<char>>>, rule: NodeRule)
    requires
        tree is Some ==> all_nodes(tree->0, rule),
        with_gate_spec(tree, app) is Some,
    ensures
        all_nodes(with_gate_spec(tree, app)->0, rule),
{
    if app is Some && app->0.len() > 0 {
        let gate = Tree::Match { dimension: "territorial"@, codes: app->0, match_op: MatchOp::AnyOf };
        let rest: Seq<Tree> = match tree {
            Some(Tree::And { children }) => children,
            Some(other) => seq![other],
            None => seq![],
        };
        let all = seq![gate] + rest;
        assert forall|i: int| 0 <= i < all.len() implies all_nodes(#[trigger] all[i], rule) by {
            if i > 0 {
                assert(all[i] == rest[i - 1]);
            }
        }
        lemma_combine_kept(all, false, rule);
        lemma_normalize_kept(and_spec(all), rule);
    }
}

// ---------------------------------------------------------------------------
// Repaired trees

proof fn lemma_repaired_codes(cs: Seq<Seq<char>>, title: Seq<char>, negated: bool, c: Seq<char>)
    requires
        repaired_codes(cs, title, negated).contains(c),
    ensures
        keeps_repaired(c, title, negated),
    decreases cs.len(),
{
    let prev = repaired_codes(cs.drop_last(), title, negated);
    let r = repaired_codes(cs, title, negated);
    let k = choose|k: int| 0 <= k < r.len() && r[k] == c;
    if k < prev.len() {
        assert(prev[k] == c);
        lemma_repaired_codes(cs.drop_last(), title, negated, c);
    }
}

proof fn lemma_repair_all_elems(cs: Seq<Tree>, title: Seq<char>, negated: bool)
    ensures
        forall|i: int| 0 <= i < repair_all(cs, title, negated).len() ==> exists|j: int|
            0 <= j < cs.len() && repair_go(cs[j], title, negated) == Some(#[trigger] repair_all(cs, title, negated)[i]),
    decreases cs.len(),
{
    if cs.len() > 0 {
        let init = cs.drop_last();
        lemma_repair_all_elems(init, title, negated);
        let prev = repair_all(init, title, negated);
        let r = repair_all(cs, title, negated);
        assert forall|i: int| 0 <= i < r.len() implies exists|j: int|
            0 <= j < cs.len() && repair_go(cs[j], title, negated) == Some(#[trigger] r[i]) by {
            if i < prev.len() {
                assert(r[i] == prev[i]);
                let j = choose|j: int| 0 <= j < init.len() && repair_go(init[j], title, negated) == Some(#[trigger] prev[i]);
                assert(init[j] == cs[j]);
            } else {
                assert(repair_go(cs[cs.len() - 1], title, negated) == Some(r[i]));
            }
        }
    }
}

/// What the text-free fixes leave of a subtree holds no government-actor or
/// jurisdiction code, and none of its time windows has an end.
proof fn lemma_repair_go(t: Tree, title: Seq<char>, negated: bool)
    requires
        all_nodes(t, NodeRule::BareWindow),
    ensures
        repair_go(t, title, negated) is Some ==> tree_free(repair_go(t, title, negated)->0) && all_nodes(
            repair_go(t, title, negated)->0,
            NodeRule::OpenEnded,
        ),
    decreases t,
{
    match t {
        Tree::Match { dimension, codes, match_op } => {
            let k = repaired_codes(codes, title, negated);
            if k.len() > 0 {
                assert(repair_go(t, title, negated)->0 == Tree::Match { dimension, codes: k, match_op });
                assert forall|c: Seq<char>| #[trigger] codes_spec(repair_go(t, title, negated)->0).contains(c) implies gate_free(c) by {
                    lemma_repaired_codes(codes, title, negated, c);
                }
            }
        },
        Tree::And { children } => {
            let kids = repair_all(children, title, negated);
            lemma_repair_all_elems(children, title, negated);
            assert forall|i: int| 0 <= i < kids.len() implies tree_free(#[trigger] kids[i]) && all_nodes(kids[i], NodeRule::OpenEnded) by {
                let j = choose|j: int| 0 <= j < children.len() && repair_go(children[j], title, negated) == Some(#[trigger] kids[i]);
                lemma_repair_go(children[j], title, negated);
            }
            assert(all_free(kids));
            lemma_group_free(kids, false);
            lemma_combine_kept(kids, false, NodeRule::OpenEnded);
        },
        Tree::Or { children } => {
            let kids = repair_all(children, title, negated);
            lemma_repair_all_elems(children, title, negated);
            assert forall|i: int| 0 <= i < kids.len() implies tree_free(#[trigger] kids[i]) && all_nodes(kids[i], NodeRule::OpenEnded) by {
                let j = choose|j: int| 0 <= j < children.len() && repair_go(children[j], title, negated) == Some(#[trigger] kids[i]);
                lemma_repair_go(children[j], title, negated);
            }
            assert(all_free(kids));
            lemma_group_free(kids, true);
            lemma_combine_kept(kids, true, NodeRule::OpenEnded);
        },
        Tree::Not { child } => {
            lemma_repair_go(*child, title, !negated);
            if repair_go(*child, title, !negated) is Some {
                assert(codes_spec(repair_go(t, title, negated)->0) == codes_spec(repair_go(*child, title, !negated)->0));
            }
        },
        Tree::Conditional { condition, then } => {
            lemma_repair_go(*condition, title, negated);
            lemma_repair_go(*then, title, negated);
            match (repair_go(*condition, title, negated), repair_go(*then, title, negated)) {
                (Some(a), Some(b)) => {
                    assert forall|c: Seq<char>| #[trigger] codes_spec(repair_go(t, title, negated)->0).contains(c) implies gate_free(c) by {
                        lemma_concat_contains(codes_spec(a), codes_spec(b), c);
                    }
                },
                _ => {},
            }
        },
        Tree::TimeWindow { from, to, inner } => {
            assert(inner is None);
        },
    }
}

proof fn lemma_non_windows_elems(cs: Seq<Tree>)
    ensures
        forall|i: int| 0 <= i < non_windows(cs).len() ==> exists|j: int| 0 <= j < cs.len() && #[trigger] non_windows(cs)[i] == cs[j],
    decreases cs.len(),
{
    if cs.len() > 0 {
        let init = cs.drop_last();
        lemma_non_windows_elems(init);
        let prev = non_windows(init);
        let r = non_windows(cs);
        assert forall|i: int| 0 <= i < r.len() implies exists|j: int| 0 <= j < cs.len() && #[trigger] r[i] == cs[j] by {
            if i < prev.len() {
                assert(r[i] == prev[i]);
                let j = choose|j: int| 0 <= j < init.len() && #[trigger] prev[i] == init[j];
                assert(init[j] == cs[j]);
            } else {
                assert(r[i] == cs[cs.len() - 1]);
            }
        }
    }
}

proof fn lemma_one_window(t: Tree)
    requires
        tree_free(t),
        all_nodes(t, NodeRule::OpenEnded),
    ensures
        tree_free(one_window(t)),
        all_nodes(one_window(t), NodeRule::OpenEnded),
{
    match t {
        Tree::And { children } => {
            let rest = non_windows(children);
            lemma_non_windows_elems(children);
            assert forall|i: int| 0 <= i < rest.len() implies tree_free(#[trigger] rest[i]) && all_nodes(rest[i], NodeRule::OpenEnded) by {
                let j = choose|j: int| 0 <= j < children.len() && #[trigger] rest[i] == children[j];
                assert forall|c: Seq<char>| #[trigger] codes_spec(rest[i]).contains(c) implies gate_free(c) by {
                    assert(codes_spec(children[j]).contains(c));
                    assert(in_some(children, c));
                    lemma_codes_all(children, c);
                    assert(codes_spec(t).contains(c));
                }
            }
            let fs = window_froms(children);
            let all = if fs.len() > 0 {
                rest.push(Tree::TimeWindow { from: Some(seq_min(fs)), to: None, inner: None })
            } else {
                rest
            };
            assert forall|i: int| 0 <= i < all.len() implies tree_free(#[trigger] all[i]) && all_nodes(all[i], NodeRule::OpenEnded) by {
                if i < rest.len() {
                    assert(all[i] == rest[i]);
                } else {
                    assert(codes_spec(all[i]) == Seq::<Seq<char>>::empty());
                }
            }
            assert(all_free(all));
            lemma_group_free(all, false);
            lemma_combine_kept(all, false, NodeRule::OpenEnded);
        },
        _ => {},
    }
}

/// A repaired tree holds no government-actor or jurisdiction code outside its
/// application gate, for a stored tree whose time windows hold no inner tree.
pub proof fn lemma_repaired_codes_law(t: Tree, title: Seq<char>, app: Option<Seq<Seq<char>>>, c: Seq<char>)
    requires
        all_nodes(t, NodeRule::BareWindow),
        repair_spec(t, title, app) is Some,
        codes_spec(repair_spec(t, title, app)->0).contains(c),
    ensures
        (app is Some && app->0.contains(c)) || gate_free(c),
{
    lemma_repair_go(t, title, false);
    let n = repair_go(t, title, false)->0;
    lemma_normalized_free(n);
    lemma_normalize_kept(n, NodeRule::OpenEnded);
    lemma_one_window(normalize_spec(n));
    lemma_with_gate_free(Some(one_window(normalize_spec(n))), app, c);
}

/// No time window of a repaired tree has an end date, for a stored tree whose
/// time windows hold no inner tree.
pub proof fn lemma_repaired_open_ended(t: Tree, title: Seq<char>, app: Option<Seq<Seq<char>>>)
    requires
        all_nodes(t, NodeRule::BareWindow),
        repair_spec(t, title, app) is Some,
    ensures
        all_nodes(repair_spec(t, title, app)->0, NodeRule::OpenEnded),
{
    lemma_repair_go(t, title, false);
    let n = repair_go(t, title, false)->0;
    lemma_normalized_free(n);
    lemma_normalize_kept(n, NodeRule::OpenEnded);
    lemma_one_window(normalize_spec(n));
    lemma_with_gate_kept(Some(one_window(normalize_spec(n))), app, NodeRule::OpenEnded);
}

// ---------------------------------------------------------------------------
// The root gate

/// The territorial gate of an application: its codes in character order, once.
pub open spec fn gate_of(app: Seq<Seq<char>>) -> Tree {
    Tree::Match { dimension: "territorial"@, codes: sorted_set(app), match_op: MatchOp::AnyOf }
}

/// `t` is `g`, or an `And` whose first child is `g`.
pub open spec fn gate_first(t: Tree, g: Tree) -> bool {
    t == g || (t matches Tree::And { children } && children.len() > 0 && children[0] == g)
}

proof fn lemma_fold_and_keeps_first(flat: Seq<Tree>)
    requires
        flat.len() > 0,
    ensures
        fold_siblings(flat, false).len() > 0,
        fold_siblings(flat, false)[0] == flat[0],
    decreases flat.len(),
{
    let init = flat.drop_last();
    let out = fold_siblings(init, false);
    if init.len() == 0 {
        assert(out == Seq::<Tree>::empty());
        assert(!out.contains(flat.last()));
        assert(fold_siblings(flat, false) == out.push(flat.last()));
    } else {
        lemma_fold_and_keeps_first(init);
        assert(init[0] == flat[0]);
        let r = merge_step(out, flat.last(), false);
        if !out.contains(flat.last()) {
            assert(r == out.push(flat.last()));
        }
    }
}

proof fn lemma_flatten_and_keeps_first(ns: Seq<Tree>)
    requires
        ns.len() > 0,
        !(ns[0] is And),
    ensures
        flatten(ns, false).len() > 0,
        flatten(ns, false)[0] == ns[0],
    decreases ns.len(),
{
    let init = ns.drop_last();
    if init.len() == 0 {
        assert(flatten(init, false) == Seq::<Tree>::empty());
        assert(spliced(ns.last(), false) == seq![ns.last()]);
        assert(flatten(ns, false) == flatten(init, false) + spliced(ns.last(), false));
    } else {
        lemma_flatten_and_keeps_first(init);
        assert(init[0] == ns[0]);
        assert(flatten(ns, false) == flatten(init, false) + spliced(ns.last(), false));
    }
}

/// Normalising an `And` whose first child is a `Match` keeps that match,
/// normalised, as the result or as the result's first child.
proof fn lemma_and_keeps_first_match(first: Tree, rest: Seq<Tree>)
    requires
        first is Match,
    ensures
        gate_first(normalize_spec(and_spec(seq![first] + rest)), normalize_spec(first)),
{
    let all = seq![first] + rest;
    if all.len() == 1 {
        assert(all[0] == first);
    } else {
        let ns = normalize_all(all);
        assert(ns[0] == normalize_spec(first));
        lemma_flatten_and_keeps_first(ns);
        lemma_fold_and_keeps_first(flatten(ns, false));
    }
}

/// With a non-empty application, a compiled tree is the territorial gate of
/// the application's codes (sorted, each once), or an `And` whose first
/// child is that gate.
pub proof fn lemma_compiled_gate(
    ms: Seq<MentionView>,
    dims: Map<Seq<char>, Seq<char>>,
    title: Seq<char>,
    app: Seq<Seq<char>>,
)
    requires
        app.len() > 0,
    ensures
        compile_spec(ms, dims, title, Some(app)) is Some,
        ({
            let t = compile_spec(ms, dims, title, Some(app))->0;
            gate_first(t, gate_of(app))
        }),
{
    let gate = Tree::Match { dimension: "territorial"@, codes: app, match_op: MatchOp::AnyOf };
    let top = top_nodes(gather(ms, dims, title));
    let tree = if top.len() == 0 { None } else { Some(normalize_spec(and_spec(top))) };
    let rest: Seq<Tree> = match tree {
        Some(Tree::And { children }) => children,
        Some(other) => seq![other],
        None => seq![],
    };
    lemma_and_keeps_first_match(gate, rest);
}

/// With a non-empty application, a gated tree satisfies [`gate_first`] for
/// the territorial gate of that application.
pub proof fn lemma_with_gate_first(tree: Option<Tree>, app: Seq<Seq<char>>)
    requires
        app.len() > 0,
    ensures
        with_gate_spec(tree, Some(app)) is Some,
        gate_first(with_gate_spec(tree, Some(app))->0, gate_of(app)),
{
    let gate = Tree::Match { dimension: "territorial"@, codes: app, match_op: MatchOp::AnyOf };
    let rest: Seq<Tree> = match tree {
        Some(Tree::And { children }) => children,
        Some(other) => seq![other],
        None => seq![],
    };
    lemma_and_keeps_first_match(gate, rest);
}

/// A repaired tree, with a non-empty application, has the same root gate.
pub proof fn lemma_repaired_gate(t: Tree, title: Seq<char>, app: Seq<Seq<char>>)
    requires
        app.len() > 0,
        repair_spec(t, title, Some(app)) is Some,
    ensures
        gate_first(repair_spec(t, title, Some(app))->0, gate_of(app)),
{
    let n = repair_go(t, title, false)->0;
    lemma_with_gate_first(Some(one_window(normalize_spec(n))), app);
}

/// Every code of a gated tree is an application code or a code of the tree.
proof fn lemma_with_gate_codes(tree: Option<Tree>, app: Option<Seq<Seq<char>>>, c: Seq<char>)
    requires
        with_gate_spec(tree, app) is Some,
        codes_spec(with_gate_spec(tree, app)->0).contains(c),
    ensures
        (app is Some && app->0.contains(c)) || (tree is Some && codes_spec(tree->0).contains(c)),
{
    if app is Some && app->0.len() > 0 {
        let gate = Tree::Match { dimension: "territorial"@, codes: app->0, match_op: MatchOp::AnyOf };
        let rest: Seq<Tree> = match tree {
            Some(Tree::And { children }) => children,
            Some(other) => seq![other],
            None => seq![],
        };
        let all = seq![gate] + rest;
        lemma_normalize_codes(and_spec(all), c);
        lemma_combine_codes(all, false, c);
        let i = choose|i: int| 0 <= i < all.len() && #[trigger] codes_spec(all[i]).contains(c);
        if i > 0 {
            assert(all[i] == rest[i - 1]);
            match tree {
                Some(Tree::And { children }) => {
                    assert(in_some(children, c));
                    lemma_codes_all(children, c);
                },
                _ => {},
            }
        } else {
            assert(codes_spec(gate) == app->0);
        }
    }
}

/// Merging the time windows brings in no code.
proof fn lemma_one_window_codes(t: Tree, c: Seq<char>)
    requires
        codes_spec(one_window(t)).contains(c),
    ensures
        codes_spec(t).contains(c),
{
    match t {
        Tree::And { children } => {
            let rest = non_windows(children);
            lemma_non_windows_elems(children);
            let fs = window_froms(children);
            let all = if fs.len() > 0 {
                rest.push(Tree::TimeWindow { from: Some(seq_min(fs)), to: None, inner: None })
            } else {
                rest
            };
            lemma_combine_codes(all, false, c);
            let i = choose|i: int| 0 <= i < all.len() && #[trigger] codes_spec(all[i]).contains(c);
            if i < rest.len() {
                assert(all[i] == rest[i]);
                let j = choose|j: int| 0 <= j < children.len() && #[trigger] rest[i] == children[j];
                assert(codes_spec(children[j]).contains(c));
                assert(in_some(children, c));
                lemma_codes_all(children, c);
            } else {
                assert(codes_spec(all[i]) == Seq::<Seq<char>>::empty());
            }
        },
        _ => {},
    }
}

/// Every code the text-free fixes keep passes the code filter.
proof fn lemma_repair_code(t: Tree, title: Seq<char>, negated: bool, c: Seq<char>)
    requires
        all_nodes(t, NodeRule::BareWindow),
        repair_go(t, title, negated) is Some,
        codes_spec(repair_go(t, title, negated)->0).contains(c),
    ensures
        gate_free(c),
        !is_construction_code(c) || grounded(c, title),
    decreases t,
{
    match t {
        Tree::Match { dimension, codes, match_op } => {
            let k = repaired_codes(codes, title, negated);
            assert(repair_go(t, title, negated)->0 == Tree::Match { dimension, codes: k, match_op });
            lemma_repaired_codes(codes, title, negated, c);
        },
        Tree::And { children } => {
            let kids = repair_all(children, title, negated);
            lemma_repair_all_elems(children, title, negated);
            lemma_combine_codes(kids, false, c);
            let i = choose|i: int| 0 <= i < kids.len() && #[trigger] codes_spec(kids[i]).contains(c);
            let j = choose|j: int| 0 <= j < children.len() && repair_go(children[j], title, negated) == Some(#[trigger] kids[i]);
            lemma_repair_code(children[j], title, negated, c);
        },
        Tree::Or { children } => {
            let kids = repair_all(children, title, negated);
            lemma_repair_all_elems(children, title, negated);
            lemma_combine_codes(kids, true, c);
            let i = choose|i: int| 0 <= i < kids.len() && #[trigger] codes_spec(kids[i]).contains(c);
            let j = choose|j: int| 0 <= j < children.len() && repair_go(children[j], title, negated) == Some(#[trigger] kids[i]);
            lemma_repair_code(children[j], title, negated, c);
        },
        Tree::Not { child } => {
            assert(codes_spec(repair_go(t, title, negated)->0) == codes_spec(repair_go(*child, title, !negated)->0));
            lemma_repair_code(*child, title, !negated, c);
        },
        Tree::Conditional { condition, then } => {
            match (repair_go(*condition, title, negated), repair_go(*then, title, negated)) {
                (Some(a), Some(b)) => {
                    lemma_concat_contains(codes_spec(a), codes_spec(b), c);
                    if codes_spec(a).contains(c) {
                        lemma_repair_code(*condition, title, negated, c);
                    } else {
                        lemma_repair_code(*then, title, negated, c);
                    }
                },
                (None, Some(b)) => {
                    lemma_repair_code(*then, title, negated, c);
                },
                _ => {},
            }
        },
        Tree::TimeWindow { from, to, inner } => {
            assert(inner is None);
            assert(codes_spec(repair_go(t, title, negated)->0) == Seq::<Seq<char>>::empty());
        },
    }
}

/// Outside its application gate, a repaired tree keeps a `construction`
/// code only when the law's title grounds it, for a stored tree whose time
/// windows hold no inner tree.
pub proof fn lemma_repaired_construction(t: Tree, title: Seq<char>, app: Option<Seq<Seq<char>>>, c: Seq<char>)
    requires
        all_nodes(t, NodeRule::BareWindow),
        repair_spec(t, title, app) is Some,
        codes_spec(repair_spec(t, title, app)->0).contains(c),
        !(app is Some && app->0.contains(c)),
    ensures
        !is_construction_code(c) || grounded(c, title),
{
    let n = repair_go(t, title, false)->0;
    lemma_with_gate_codes(Some(one_window(normalize_spec(n))), app, c);
    lemma_one_window_codes(normalize_spec(n), c);
    lemma_normalize_codes(n, c);
    lemma_repair_code(t, title, false, c);
}

// ---------------------------------------------------------------------------
// The time window of a compiled law

/// The commencement dates of a law's mentions: the date entities of each
/// mention that applies or extends the law and says that the law comes into
/// force.
pub open spec fn from_dates(ms: Seq<MentionView>) -> Seq<Seq<char>>
    decreases ms.len(),
{
    if ms.len() == 0 {
        seq![]
    } else {
        let (pol, ents, text) = ms.last();
        from_dates(ms.drop_last()) + mention_dates(ents, is_applies(pol) && is_match_spec(LAW_COMMENCEMENT_RE@, text))
    }
}

/// The sunset dates of a law's mentions: the date entities of each mention
/// that disapplies the law and says that it ceases to have effect or expires
/// (and is no commencement).
pub open spec fn to_dates(ms: Seq<MentionView>) -> Seq<Seq<char>>
    decreases ms.len(),
{
    if ms.len() == 0 {
        seq![]
    } else {
        let (pol, ents, text) = ms.last();
        let take_from = is_applies(pol) && is_match_spec(LAW_COMMENCEMENT_RE@, text);
        to_dates(ms.drop_last()) + mention_dates(ents, !take_from && is_disapplies(pol) && is_match_spec(LAW_SUNSET_RE@, text))
    }
}

proof fn lemma_gather_dates(ms: Seq<MentionView>, dims: Map<Seq<char>, Seq<char>>, title: Seq<char>)
    ensures
        gather(ms, dims, title).2 == from_dates(ms),
        gather(ms, dims, title).3 == to_dates(ms),
    decreases ms.len(),
{
    if ms.len() > 0 {
        lemma_gather_dates(ms.drop_last(), dims, title);
    }
}

/// The top of a tree: the children of a root `And`, else the tree itself.
pub open spec fn top_level(t: Tree) -> Seq<Tree> {
    match t {
        Tree::And { children } => children,
        _ => seq![t],
    }
}

/// `x` is the window `w`, or holds no time window anywhere.
pub open spec fn window_or_free(x: Tree, w: Option<Tree>) -> bool {
    (w is Some && x == w->0) || all_nodes(x, NodeRule::NoWindow)
}

pub open spec fn all_window_or_free(cs: Seq<Tree>, w: Option<Tree>) -> bool {
    forall|i: int| 0 <= i < cs.len() ==> window_or_free(#[trigger] cs[i], w)
}

/// Every entry of `cs` is the window `w` or holds no time window, and `w`,
/// where there is one, is among them.
pub open spec fn windows_ok(cs: Seq<Tree>, w: Option<Tree>) -> bool {
    &&& all_window_or_free(cs, w)
    &&& (w is Some ==> cs.contains(w->0))
}

pub open spec fn bare_window(w: Option<Tree>) -> bool {
    w is Some ==> (w->0 matches Tree::TimeWindow { inner: None, .. })
}

proof fn lemma_flatten_windows(ns: Seq<Tree>, w: Option<Tree>)
    requires
        all_window_or_free(ns, w),
        bare_window(w),
    ensures
        all_window_or_free(flatten(ns, false), w),
        w is Some && ns.contains(w->0) ==> flatten(ns, false).contains(w->0),
    decreases ns.len(),
{
    if ns.len() > 0 {
        let init = ns.drop_last();
        assert forall|i: int| 0 <= i < init.len() implies window_or_free(#[trigger] init[i], w) by {
            assert(init[i] == ns[i]);
        }
        lemma_flatten_windows(init, w);
        let a = flatten(init, false);
        let last = ns[ns.len() - 1];
        let b = spliced(last, false);
        assert(window_or_free(last, w));
        assert forall|j: int| 0 <= j < b.len() implies window_or_free(#[trigger] b[j], w) by {
            if w is Some && last == w->0 {
                assert(b == seq![last]);
            } else {
                match last {
                    Tree::And { children } => {
                        assert(b[j] == children[j]);
                    },
                    _ => {},
                }
            }
        }
        let f = flatten(ns, false);
        assert(f == a + b);
        assert forall|i: int| 0 <= i < f.len() implies window_or_free(#[trigger] f[i], w) by {
            if i < a.len() {
                assert(f[i] == a[i]);
            } else {
                assert(f[i] == b[i - a.len()]);
            }
        }
        if w is Some && ns.contains(w->0) {
            let k = choose|k: int| 0 <= k < ns.len() && ns[k] == w->0;
            if k < init.len() {
                assert(init[k] == w->0);
                let m = choose|m: int| 0 <= m < a.len() && a[m] == w->0;
                assert(f[m] == w->0);
            } else {
                assert(b == seq![w->0]);
                assert(f[a.len() as int] == w->0);
            }
        }
    }
}

proof fn lemma_fold_and_members(flat: Seq<Tree>)
    ensures
        forall|i: int| 0 <= i < fold_siblings(flat, false).len() ==> flat.contains(#[trigger] fold_siblings(flat, false)[i]),
        forall|x: Tree| flat.contains(x) ==> #[trigger] fold_siblings(flat, false).contains(x),
    decreases flat.len(),
{
    if flat.len() > 0 {
        let init = flat.drop_last();
        lemma_fold_and_members(init);
        let out = fold_siblings(init, false);
        let x = flat.last();
        let r = fold_siblings(flat, false);
        assert(r == merge_step(out, x, false));
        assert forall|i: int| 0 <= i < r.len() implies flat.contains(#[trigger] r[i]) by {
            if i < out.len() {
                assert(r[i] == out[i]);
                assert(init.contains(out[i]));
                let j = choose|j: int| 0 <= j < init.len() && init[j] == out[i];
                assert(flat[j] == init[j]);
            } else {
                assert(r[i] == x);
                assert(flat[flat.len() - 1] == x);
            }
        }
        assert forall|y: Tree| flat.contains(y) implies #[trigger] r.contains(y) by {
            let j = choose|j: int| 0 <= j < flat.len() && flat[j] == y;
            if j < init.len() {
                assert(init[j] == y);
                assert(out.contains(y));
                let m = choose|m: int| 0 <= m < out.len() && out[m] == y;
                if !out.contains(x) {
                    assert(r[m] == y);
                }
            } else {
                if out.contains(x) {
                } else {
                    assert(r[out.len() as int] == x);
                }
            }
        }
    }
}

proof fn lemma_normalize_window_or_free(x: Tree, w: Option<Tree>)
    requires
        window_or_free(x, w),
        bare_window(w),
    ensures
        window_or_free(normalize_spec(x), w),
        w is Some && x == w->0 ==> normalize_spec(x) == x,
        !(w is Some && x == w->0) ==> all_nodes(normalize_spec(x), NodeRule::NoWindow),
{
    if w is Some && x == w->0 {
    } else {
        lemma_normalize_kept(x, NodeRule::NoWindow);
    }
}

/// Normalising an `And` of entries each the window `w` or window-free keeps
/// that at its top: every entry is `w` or window-free, and `w` stays there.
proof fn lemma_normalized_and_windows(cs: Seq<Tree>, w: Option<Tree>)
    requires
        all_window_or_free(cs, w),
        bare_window(w),
    ensures
        all_window_or_free(top_level(normalize_spec(and_spec(cs))), w),
        w is Some && cs.contains(w->0) ==> top_level(normalize_spec(and_spec(cs))).contains(w->0),
{
    let t = normalize_spec(and_spec(cs));
    if cs.len() == 0 {
        assert(top_level(t) == seq![t]);
        assert(all_nodes(t, NodeRule::NoWindow));
    } else if cs.len() == 1 {
        assert(window_or_free(cs[0], w));
        lemma_normalize_window_or_free(cs[0], w);
        if w is Some && cs[0] == w->0 {
            assert(t == w->0);
            assert(top_level(t) == seq![t]);
            assert(top_level(t)[0] == w->0);
        } else {
            assert(all_nodes(t, NodeRule::NoWindow));
            match t {
                Tree::And { children } => {
                    assert forall|i: int| 0 <= i < children.len() implies window_or_free(#[trigger] children[i], w) by {}
                },
                _ => {
                    assert(top_level(t) == seq![t]);
                },
            }
            if w is Some && cs.contains(w->0) {
                assert(cs[0] == w->0);
            }
        }
    } else {
        let ns = normalize_all(cs);
        assert forall|i: int| 0 <= i < ns.len() implies window_or_free(#[trigger] ns[i], w) by {
            assert(window_or_free(cs[i], w));
            lemma_normalize_window_or_free(cs[i], w);
        }
        if w is Some && cs.contains(w->0) {
            let k = choose|k: int| 0 <= k < cs.len() && cs[k] == w->0;
            lemma_normalize_window_or_free(cs[k], w);
            assert(ns[k] == w->0);
        }
        lemma_flatten_windows(ns, w);
        let fl = flatten(ns, false);
        lemma_fold_and_members(fl);
        let f = fold_siblings(fl, false);
        assert(t == combine(f, false));
        assert forall|i: int| 0 <= i < f.len() implies window_or_free(#[trigger] f[i], w) by {
            assert(fl.contains(f[i]));
            let j = choose|j: int| 0 <= j < fl.len() && fl[j] == f[i];
            assert(window_or_free(fl[j], w));
        }
        if f.len() == 0 {
            assert(top_level(t) == seq![t]);
            assert(all_nodes(t, NodeRule::NoWindow));
        } else if f.len() == 1 {
            assert(t == f[0]);
            assert(window_or_free(f[0], w));
            if w is Some && t == w->0 {
                assert(top_level(t) == seq![t]);
                assert(top_level(t)[0] == w->0);
            } else {
                match t {
                    Tree::And { children } => {
                        assert forall|i: int| 0 <= i < children.len() implies window_or_free(#[trigger] children[i], w) by {}
                    },
                    _ => {
                        assert(top_level(t) == seq![t]);
                    },
                }
            }
            if w is Some && cs.contains(w->0) {
                assert(f.contains(w->0));
                assert(f[0] == w->0);
            }
        } else {
            assert(top_level(t) == f);
        }
    }
}

/// The time window of a compiled law. Its tree has a time window at the top
/// (the tree itself, or a child of its root `And`) exactly when the law's
/// mentions give a commencement or a sunset date; that window starts at the
/// earliest commencement, ends at the latest sunset unless that falls before
/// the start, and holds no inner tree; every other entry at the top holds no
/// time window anywhere, so the window is the only one in the tree.
pub proof fn lemma_compiled_window(
    ms: Seq<MentionView>,
    dims: Map<Seq<char>, Seq<char>>,
    title: Seq<char>,
    app: Option<Seq<Seq<char>>>,
)
    ensures
        ({
            let w = window_spec(from_dates(ms), to_dates(ms));
            match compile_spec(ms, dims, title, app) {
                Some(t) => windows_ok(top_level(t), w),
                None => w is None,
            }
        }),
{
    let g = gather(ms, dims, title);
    lemma_gather_dates(ms, dims, title);
    let w = window_spec(g.2, g.3);
    lemma_gather_rules(ms, dims, title, NodeRule::NoWindow);
    let top = top_nodes(g);
    assert forall|i: int| 0 <= i < top.len() implies window_or_free(#[trigger] top[i], w) by {
        if g.0.len() > 0 {
            lemma_combine_kept(g.0, true, NodeRule::NoWindow);
            let kept = keep_unshared(g.1, codes_all(g.0));
            lemma_keep_unshared_rules(g.1, codes_all(g.0), NodeRule::NoWindow, title);
            lemma_combine_kept(kept, true, NodeRule::NoWindow);
        }
    }
    if w is Some {
        assert(top[top.len() - 1] == w->0);
    }
    let tree = if top.len() == 0 { None } else { Some(normalize_spec(and_spec(top))) };
    if top.len() > 0 {
        lemma_normalized_and_windows(top, w);
    }
    if app is Some && app->0.len() > 0 {
        let gate = Tree::Match { dimension: "territorial"@, codes: app->0, match_op: MatchOp::AnyOf };
        let rest: Seq<Tree> = match tree {
            Some(Tree::And { children }) => children,
            Some(other) => seq![other],
            None => seq![],
        };
        let all = seq![gate] + rest;
        if tree is Some {
            assert(rest == top_level(tree->0));
        }
        assert forall|i: int| 0 <= i < all.len() implies window_or_free(#[trigger] all[i], w) by {
            if i > 0 {
                assert(all[i] == rest[i - 1]);
            }
        }
        if w is Some {
            let k = choose|k: int| 0 <= k < rest.len() && rest[k] == w->0;
            assert(all[k + 1] == w->0);
        }
        lemma_normalized_and_windows(all, w);
    }
}

/// The earliest of a non-empty list of dates (by character order, which for
/// ISO dates is the calendar order) is one of them, and none comes before it.
pub proof fn lemma_seq_min_least(s: Seq<Seq<char>>)
    requires
        s.len() > 0,
    ensures
        s.contains(seq_min(s)),
        forall|i: int| 0 <= i < s.len() ==> !lex_lt(#[trigger] s[i], seq_min(s)),
    decreases s.len(),
{
    if s.len() == 1 {
        assert(s[0] == seq_min(s));
        lemma_lex_irreflexive(s[0]);
    } else {
        let init = s.drop_last();
        lemma_seq_min_least(init);
        let m = seq_min(init);
        let x = s.last();
        let k = choose|k: int| 0 <= k < init.len() && init[k] == m;
        assert(s[k] == m);
        lemma_lex_total(x, m);
        assert forall|i: int| 0 <= i < s.len() implies !lex_lt(#[trigger] s[i], seq_min(s)) by {
            if i < init.len() {
                assert(s[i] == init[i]);
                assert(!lex_lt(init[i], m));
                if lex_lt(x, m) {
                    lemma_lex_total(s[i], m);
                    if lex_lt(s[i], x) {
                        lemma_lex_transitive(s[i], x, m);
                    }
                }
            } else {
                lemma_lex_irreflexive(x);
            }
        }
        if lex_lt(x, m) {
            assert(s[s.len() - 1] == x);
        }
    }
}

/// The latest of a non-empty list of dates is one of them, and none comes
/// after it.
pub proof fn lemma_seq_max_greatest(s: Seq<Seq<char>>)
    requires
        s.len() > 0,
    ensures
        s.contains(seq_max(s)),
        forall|i: int| 0 <= i < s.len() ==> !lex_lt(seq_max(s), #[trigger] s[i]),
    decreases s.len(),
{
    if s.len() == 1 {
        assert(s[0] == seq_max(s));
        lemma_lex_irreflexive(s[0]);
    } else {
        let init = s.drop_last();
        lemma_seq_max_greatest(init);
        let m = seq_max(init);
        let x = s.last();
        let k = choose|k: int| 0 <= k < init.len() && init[k] == m;
        assert(s[k] == m);
        lemma_lex_total(x, m);
        assert forall|i: int| 0 <= i < s.len() implies !lex_lt(seq_max(s), #[trigger] s[i]) by {
            if i < init.len() {
                assert(s[i] == init[i]);
                assert(!lex_lt(m, init[i]));
                if lex_lt(m, x) {
                    if lex_lt(x, s[i]) {
                        lemma_lex_transitive(m, x, s[i]);
                    }
                }
            } else {
                lemma_lex_irreflexive(x);
            }
        }
        if lex_lt(m, x) {
            assert(s[s.len() - 1] == x);
        }
    }
}

// ---------------------------------------------------------------------------
// One time window in a repaired tree

/// No two entries of `cs` are time windows.
pub open spec fn at_most_one_window(cs: Seq<Tree>) -> bool {
    forall|i: int, j: int| 0 <= i < cs.len() && 0 <= j < cs.len() && (#[trigger] cs[i]) is TimeWindow && (#[trigger] cs[j]) is TimeWindow ==> i == j
}

proof fn lemma_non_windows_none(cs: Seq<Tree>)
    ensures
        forall|i: int| 0 <= i < non_windows(cs).len() ==> !(#[trigger] non_windows(cs)[i] is TimeWindow),
    decreases cs.len(),
{
    if cs.len() > 0 {
        let init = cs.drop_last();
        lemma_non_windows_none(init);
        let prev = non_windows(init);
        let r = non_windows(cs);
        assert forall|i: int| 0 <= i < r.len() implies !(#[trigger] r[i] is TimeWindow) by {
            if i < prev.len() {
                assert(r[i] == prev[i]);
            }
        }
    }
}

proof fn lemma_fold_and_distinct(flat: Seq<Tree>)
    ensures
        crate::normal_form::distinct(fold_siblings(flat, false)),
    decreases flat.len(),
{
    if flat.len() > 0 {
        let init = flat.drop_last();
        lemma_fold_and_distinct(init);
        let out = fold_siblings(init, false);
        let x = flat.last();
        let r = fold_siblings(flat, false);
        assert(r == merge_step(out, x, false));
        if !out.contains(x) {
            assert(r == out.push(x));
            assert forall|i: int, j: int| 0 <= i < j < r.len() implies #[trigger] r[i] != #[trigger] r[j] by {
                if j == out.len() {
                    assert(r[i] == out[i]);
                    assert(r[j] == x);
                } else {
                    assert(r[i] == out[i] && r[j] == out[j]);
                }
            }
        }
    }
}

proof fn lemma_flatten_and_plain(ns: Seq<Tree>)
    requires
        forall|i: int| 0 <= i < ns.len() ==> !(#[trigger] ns[i] is And),
    ensures
        flatten(ns, false) == ns,
    decreases ns.len(),
{
    if ns.len() > 0 {
        let init = ns.drop_last();
        assert forall|i: int| 0 <= i < init.len() implies !(#[trigger] init[i] is And) by {
            assert(init[i] == ns[i]);
        }
        lemma_flatten_and_plain(init);
        assert(!(ns[ns.len() - 1] is And));
        assert(spliced(ns.last(), false) == seq![ns.last()]);
        assert(flatten(ns, false) == init + seq![ns.last()]);
        assert(init + seq![ns.last()] =~= ns);
    }
}

/// Normalising an `And` of normal entries, none an `And`, with at most one
/// time window among them, leaves at most one time window at the top.
proof fn lemma_normalized_and_one_window(cs: Seq<Tree>)
    requires
        forall|i: int| 0 <= i < cs.len() ==> crate::normal_form::normal(#[trigger] cs[i]) && !(cs[i] is And),
        at_most_one_window(cs),
    ensures
        at_most_one_window(top_level(normalize_spec(and_spec(cs)))),
{
    let t = normalize_spec(and_spec(cs));
    if cs.len() == 0 {
        assert(top_level(t) == seq![t]);
    } else if cs.len() == 1 {
        crate::normal_form::lemma_normal_fixed(cs[0]);
        assert(t == cs[0]);
        assert(top_level(t) == seq![t]);
    } else {
        let ns = normalize_all(cs);
        assert forall|i: int| 0 <= i < ns.len() implies ns[i] == cs[i] by {
            crate::normal_form::lemma_normal_fixed(cs[i]);
        }
        assert(ns =~= cs);
        lemma_flatten_and_plain(cs);
        lemma_fold_and_members(cs);
        lemma_fold_and_distinct(cs);
        let f = fold_siblings(cs, false);
        assert(t == combine(f, false));
        assert forall|i: int, j: int| 0 <= i < f.len() && 0 <= j < f.len() && (#[trigger] f[i]) is TimeWindow && (#[trigger] f[j]) is TimeWindow implies i == j by {
            assert(cs.contains(f[i]));
            assert(cs.contains(f[j]));
            let a = choose|a: int| 0 <= a < cs.len() && cs[a] == f[i];
            let b = choose|b: int| 0 <= b < cs.len() && cs[b] == f[j];
            assert(a == b);
            if i != j {
                if i < j {
                    assert(f[i] != f[j]);
                } else {
                    assert(f[j] != f[i]);
                }
            }
        }
        if f.len() == 0 {
            assert(top_level(t) == seq![t]);
        } else if f.len() == 1 {
            assert(t == f[0]);
            assert(cs.contains(f[0]));
            let a = choose|a: int| 0 <= a < cs.len() && cs[a] == f[0];
            assert(!(t is And));
            assert(top_level(t) == seq![t]);
        } else {
            assert(top_level(t) == f);
        }
    }
}

/// A repaired tree has at most one time window at its top (the tree itself,
/// or a child of its root `And`).
pub proof fn lemma_repaired_one_window(t: Tree, title: Seq<char>, app: Option<Seq<Seq<char>>>)
    requires
        repair_spec(t, title, app) is Some,
    ensures
        at_most_one_window(top_level(repair_spec(t, title, app)->0)),
{
    let n = repair_go(t, title, false)->0;
    let m = normalize_spec(n);
    crate::normal_form::lemma_normalize_normal(n);
    let o = one_window(m);
    // At the top of `o`: normal entries, none an `And`, at most one window.
    let tops = top_level(o);
    assert(forall|i: int| 0 <= i < tops.len() ==> crate::normal_form::normal(#[trigger] tops[i]) && !(tops[i] is And)
        && at_most_one_window(tops)) by {
        match m {
            Tree::And { children } => {
                let rest = non_windows(children);
                lemma_non_windows_elems(children);
                lemma_non_windows_none(children);
                let fs = window_froms(children);
                let all = if fs.len() > 0 {
                    rest.push(Tree::TimeWindow { from: Some(seq_min(fs)), to: None, inner: None })
                } else {
                    rest
                };
                assert(o == and_spec(all));
                assert forall|i: int| 0 <= i < all.len() implies crate::normal_form::normal(#[trigger] all[i]) && !(all[i] is And) by {
                    if i < rest.len() {
                        assert(all[i] == rest[i]);
                        let j = choose|j: int| 0 <= j < children.len() && #[trigger] rest[i] == children[j];
                        assert(crate::normal_form::normal(children[j]) && !(children[j] is And));
                    }
                }
                assert forall|i: int, j: int| 0 <= i < all.len() && 0 <= j < all.len() && (#[trigger] all[i]) is TimeWindow && (#[trigger] all[j]) is TimeWindow implies i == j by {
                    if i < rest.len() {
                        assert(all[i] == rest[i]);
                    }
                    if j < rest.len() {
                        assert(all[j] == rest[j]);
                    }
                }
                if all.len() == 0 {
                    assert(tops == seq![any_leaf()]);
                    assert(crate::normal_form::normal(any_leaf())) by {
                        crate::normal_form::lemma_normalize_normal(any_leaf());
                        crate::normal_form::lemma_normal_fixed(normalize_spec(any_leaf()));
                        crate::applicability::lemma_sorted_set_is(Seq::<Seq<char>>::empty(), Seq::<Seq<char>>::empty());
                    }
                } else if all.len() == 1 {
                    assert(o == all[0]);
                    assert(tops == seq![all[0]]);
                } else {
                    assert(tops == all);
                }
            },
            _ => {
                assert(tops == seq![m]);
            },
        }
    }
    if app is Some && app->0.len() > 0 {
        let gate = Tree::Match { dimension: "territorial"@, codes: app->0, match_op: MatchOp::AnyOf };
        let rest: Seq<Tree> = match o {
            Tree::And { children } => children,
            other => seq![other],
        };
        assert(rest == tops);
        let ng = normalize_spec(gate);
        crate::normal_form::lemma_normalize_normal(gate);
        let all = seq![gate] + rest;
        let alln = seq![ng] + rest;
        assert(normalize_all(all) =~= normalize_all(alln)) by {
            crate::normal_form::lemma_normalize_idempotent(gate);
            assert forall|i: int| 0 <= i < all.len() implies normalize_spec(#[trigger] all[i]) == normalize_spec(alln[i]) by {
                if i > 0 {
                    assert(all[i] == alln[i]);
                }
            }
        }
        assert forall|i: int| 0 <= i < alln.len() implies crate::normal_form::normal(#[trigger] alln[i]) && !(alln[i] is And) by {
            if i > 0 {
                assert(alln[i] == rest[i - 1]);
            }
        }
        assert forall|i: int, j: int| 0 <= i < alln.len() && 0 <= j < alln.len() && (#[trigger] alln[i]) is TimeWindow && (#[trigger] alln[j]) is TimeWindow implies i == j by {
            if i > 0 {
                assert(alln[i] == rest[i - 1]);
            }
            if j > 0 {
                assert(alln[j] == rest[j - 1]);
            }
        }
        lemma_normalized_and_one_window(alln);
        assert(normalize_spec(and_spec(all)) == normalize_spec(and_spec(alln)));
    }
}

// ---------------------------------------------------------------------------
// Codes outside the root gate

/// The codes of a tree outside its root application gate. For a non-empty
/// application: the codes of the children of the root `And` after the first
/// one, and no codes for a tree that is a single match. For an empty or
/// missing application: every code of the tree.
pub open spec fn codes_outside_gate(t: Tree, app: Option<Seq<Seq<char>>>) -> Seq<Seq<char>> {
    if app is Some && app->0.len() > 0 {
        match t {
            Tree::And { children } => codes_all(children.skip(1)),
            _ => seq![],
        }
    } else {
        codes_spec(t)
    }
}

/// Every code of `t` satisfies `p`.
pub open spec fn codes_hold(t: Tree, p: spec_fn(Seq<char>) -> bool) -> bool {
    forall|c: Seq<char>| #[trigger] codes_spec(t).contains(c) ==> p(c)
}

proof fn lemma_flatten_hold(ns: Seq<Tree>, p: spec_fn(Seq<char>) -> bool)
    requires
        forall|i: int| 0 <= i < ns.len() ==> codes_hold(#[trigger] ns[i], p),
    ensures
        forall|i: int| 0 <= i < flatten(ns, false).len() ==> codes_hold(#[trigger] flatten(ns, false)[i], p),
    decreases ns.len(),
{
    if ns.len() > 0 {
        let init = ns.drop_last();
        assert forall|i: int| 0 <= i < init.len() implies codes_hold(#[trigger] init[i], p) by {
            assert(init[i] == ns[i]);
        }
        lemma_flatten_hold(init, p);
        let a = flatten(init, false);
        let last = ns[ns.len() - 1];
        let b = spliced(last, false);
        assert(codes_hold(last, p));
        assert forall|j: int| 0 <= j < b.len() implies codes_hold(#[trigger] b[j], p) by {
            match last {
                Tree::And { children } => {
                    assert(b[j] == children[j]);
                    assert forall|c: Seq<char>| #[trigger] codes_spec(children[j]).contains(c) implies p(c) by {
                        assert(in_some(children, c));
                        lemma_codes_all(children, c);
                        assert(codes_spec(last) == codes_all(children));
                        assert(codes_spec(last).contains(c));
                    }
                },
                _ => {
                    assert(b == seq![last]);
                },
            }
        }
        let f = flatten(ns, false);
        assert(f == a + b);
        assert forall|i: int| 0 <= i < f.len() implies codes_hold(#[trigger] f[i], p) by {
            if i < a.len() {
                assert(f[i] == a[i]);
            } else {
                assert(f[i] == b[i - a.len()]);
            }
        }
    }
}

/// When every code of a tree satisfies `p`, so does every code outside the
/// root gate of the gated tree.
proof fn lemma_with_gate_outside(tree: Option<Tree>, app: Option<Seq<Seq<char>>>, p: spec_fn(Seq<char>) -> bool, c: Seq<char>)
    requires
        tree is Some ==> codes_hold(tree->0, p),
        with_gate_spec(tree, app) is Some,
        codes_outside_gate(with_gate_spec(tree, app)->0, app).contains(c),
    ensures
        p(c),
{
    let res = with_gate_spec(tree, app)->0;
    if app is Some && app->0.len() > 0 {
        let gate = Tree::Match { dimension: "territorial"@, codes: app->0, match_op: MatchOp::AnyOf };
        let rest: Seq<Tree> = match tree {
            Some(Tree::And { children }) => children,
            Some(other) => seq![other],
            None => seq![],
        };
        assert forall|i: int| 0 <= i < rest.len() implies codes_hold(#[trigger] rest[i], p) by {
            match tree {
                Some(Tree::And { children }) => {
                    assert forall|x: Seq<char>| #[trigger] codes_spec(children[i]).contains(x) implies p(x) by {
                        assert(in_some(children, x));
                        lemma_codes_all(children, x);
                        assert(codes_spec(tree->0) == codes_all(children));
                        assert(codes_spec(tree->0).contains(x));
                    }
                },
                _ => {},
            }
        }
        let all = seq![gate] + rest;
        if all.len() == 1 {
            assert(all =~= seq![gate]);
            assert(res == normalize_spec(gate));
        } else {
            let ns = normalize_all(all);
            let ng = normalize_spec(gate);
            assert(ns[0] == ng);
            let tail = ns.skip(1);
            assert forall|i: int| 0 <= i < tail.len() implies codes_hold(#[trigger] tail[i], p) by {
                assert(tail[i] == ns[i + 1]);
                assert(all[i + 1] == rest[i]);
                assert forall|x: Seq<char>| #[trigger] codes_spec(tail[i]).contains(x) implies p(x) by {
                    lemma_normalize_codes(rest[i], x);
                }
            }
            lemma_flatten_hold(tail, p);
            assert(ns =~= seq![ng] + tail);
            let fl = flatten(ns, false);
            lemma_flatten_split(ng, tail);
            assert(fl == seq![ng] + flatten(tail, false));
            lemma_fold_and_members(fl);
            lemma_fold_and_distinct(fl);
            lemma_fold_and_keeps_first(fl);
            let f = fold_siblings(fl, false);
            assert(res == combine(f, false));
            if f.len() >= 2 {
                let kids = f.skip(1);
                assert(res == Tree::And { children: f });
                assert(codes_outside_gate(res, app) == codes_all(kids));
                lemma_codes_all(kids, c);
                let i = choose|i: int| 0 <= i < kids.len() && #[trigger] codes_spec(kids[i]).contains(c);
                assert(kids[i] == f[i + 1]);
                assert(f[i + 1] != f[0]);
                assert(fl.contains(f[i + 1]));
                let j = choose|j: int| 0 <= j < fl.len() && fl[j] == f[i + 1];
                assert(j != 0);
                assert(fl[j] == flatten(tail, false)[j - 1]);
                assert(codes_hold(flatten(tail, false)[j - 1], p));
            } else {
                assert(res == f[0]);
                assert(f[0] == ng);
            }
        }
    } else {
        assert(res == tree->0);
    }
}

/// Outside its root application gate a compiled tree holds no code that
/// names a government actor or a jurisdiction.
pub proof fn lemma_compiled_outside_gate(
    ms: Seq<MentionView>,
    dims: Map<Seq<char>, Seq<char>>,
    title: Seq<char>,
    app: Option<Seq<Seq<char>>>,
    c: Seq<char>,
)
    requires
        compile_spec(ms, dims, title, app) is Some,
        codes_outside_gate(compile_spec(ms, dims, title, app)->0, app).contains(c),
    ensures
        gate_free(c),
{
    let g = gather(ms, dims, title);
    lemma_gather_free(ms, dims, title);
    lemma_top_free(g);
    let top = top_nodes(g);
    let tree = if top.len() == 0 { None } else { Some(normalize_spec(and_spec(top))) };
    if top.len() > 0 {
        lemma_group_free(top, false);
        lemma_normalized_free(and_spec(top));
    }
    let p = |x: Seq<char>| gate_free(x);
    if tree is Some {
        assert(codes_hold(tree->0, p));
    }
    lemma_with_gate_outside(tree, app, p, c);
}

/// Outside its root application gate a repaired tree holds no code that
/// names a government actor or a jurisdiction, and no construction code that
/// the title does not ground (for a stored tree whose windows hold no inner
/// tree).
pub proof fn lemma_repaired_outside_gate(t: Tree, title: Seq<char>, app: Option<Seq<Seq<char>>>, c: Seq<char>)
    requires
        all_nodes(t, NodeRule::BareWindow),
        repair_spec(t, title, app) is Some,
        codes_outside_gate(repair_spec(t, title, app)->0, app).contains(c),
    ensures
        gate_free(c),
        !is_construction_code(c) || grounded(c, title),
{
    let n = repair_go(t, title, false)->0;
    let o = one_window(normalize_spec(n));
    assert(repair_spec(t, title, None) == Some(o));
    let p = |x: Seq<char>| gate_free(x) && (!is_construction_code(x) || grounded(x, title));
    assert forall|x: Seq<char>| #[trigger] codes_spec(o).contains(x) implies p(x) by {
        lemma_repaired_codes_law(t, title, None, x);
        lemma_repaired_construction(t, title, None, x);
    }
    lemma_with_gate_outside(Some(o), app, p, c);
}

proof fn lemma_flatten_split(x: Tree, rest: Seq<Tree>)
    requires
        !(x is And),
    ensures
        flatten(seq![x] + rest, false) == seq![x] + flatten(rest, false),
    decreases rest.len(),
{
    let all = seq![x] + rest;
    if rest.len() == 0 {
        assert(all =~= seq![x]);
        assert(all.drop_last() =~= Seq::<Tree>::empty());
        assert(spliced(x, false) == seq![x]);
        assert(flatten(all.drop_last(), false) == Seq::<Tree>::empty());
        assert(flatten(all, false) == flatten(all.drop_last(), false) + spliced(all.last(), false));
        assert(flatten(rest, false) == Seq::<Tree>::empty());
        assert(Seq::<Tree>::empty() + seq![x] =~= seq![x]);
        assert(seq![x] + Seq::<Tree>::empty() =~= seq![x]);
    } else {
        let init = rest.drop_last();
        lemma_flatten_split(x, init);
        assert(all.drop_last() =~= seq![x] + init);
        assert(all.last() == rest.last());
        assert(flatten(all, false) == flatten(seq![x] + init, false) + spliced(rest.last(), false));
        assert(flatten(rest, false) == flatten(init, false) + spliced(rest.last(), false));
        assert(seq![x] + flatten(init, false) + spliced(rest.last(), false) =~= seq![x] + (flatten(init, false) + spliced(rest.last(), false)));
    }
}

// ---------------------------------------------------------------------------
// The promises of compile_law and repair_tree, each in one statement

/// What a compiled law keeps: outside the root gate no code names a
/// government actor or a jurisdiction; no code under a negation is grounded
/// in the title; with a non-empty application the tree is the territorial
/// gate of its codes (sorted, each once) or an `And` with that gate first;
/// the top holds the one time window, from the earliest commencement to the
/// latest sunset (none that ends before it starts), exactly when there are
/// such dates, and nothing else is a window.
pub proof fn lemma_compile_law_promises(
    ms: Seq<MentionView>,
    dims: Map<Seq<char>, Seq<char>>,
    title: Seq<char>,
    app: Option<Seq<Seq<char>>>,
)
    ensures
        match compile_spec(ms, dims, title, app) {
            Some(t) => {
                &&& forall|c: Seq<char>| #[trigger] codes_outside_gate(t, app).contains(c) ==> gate_free(c)
                &&& all_nodes(t, NodeRule::NoSubject(title))
                &&& all_nodes(t, NodeRule::WindowOrder)
                &&& (app is Some && app->0.len() > 0 ==> gate_first(t, gate_of(app->0)))
                &&& windows_ok(top_level(t), window_spec(from_dates(ms), to_dates(ms)))
            },
            None => {
                &&& !(app is Some && app->0.len() > 0)
                &&& window_spec(from_dates(ms), to_dates(ms)) is None
            },
        },
{
    lemma_compiled_window(ms, dims, title, app);
    if app is Some && app->0.len() > 0 {
        lemma_compiled_gate(ms, dims, title, app->0);
    }
    if compile_spec(ms, dims, title, app) is Some {
        let t = compile_spec(ms, dims, title, app)->0;
        lemma_compiled_keeps_subject(ms, dims, title, app);
        lemma_compiled_windows(ms, dims, title, app);
        assert forall|c: Seq<char>| #[trigger] codes_outside_gate(t, app).contains(c) implies gate_free(c) by {
            lemma_compiled_outside_gate(ms, dims, title, app, c);
        }
    }
}

/// What a repaired tree keeps, for a stored tree whose time windows hold no
/// inner tree: no time window has an end; at most one time window stands at
/// the top; outside the root gate no code names a government actor or a
/// jurisdiction, and every construction code there is grounded in the title.
pub proof fn lemma_repair_tree_promises(t: Tree, title: Seq<char>, app: Option<Seq<Seq<char>>>)
    requires
        all_nodes(t, NodeRule::BareWindow),
    ensures
        match repair_spec(t, title, app) {
            Some(r) => {
                &&& all_nodes(r, NodeRule::OpenEnded)
                &&& at_most_one_window(top_level(r))
                &&& forall|c: Seq<char>| #[trigger] codes_outside_gate(r, app).contains(c)
                    ==> gate_free(c) && (!is_construction_code(c) || grounded(c, title))
            },
            None => true,
        },
{
    if repair_spec(t, title, app) is Some {
        let r = repair_spec(t, title, app)->0;
        lemma_repaired_open_ended(t, title, app);
        lemma_repaired_one_window(t, title, app);
        assert forall|c: Seq<char>| #[trigger] codes_outside_gate(r, app).contains(c)
            implies gate_free(c) && (!is_construction_code(c) || grounded(c, title)) by {
            lemma_repaired_outside_gate(t, title, app, c);
        }
    }
}

} // verus!
