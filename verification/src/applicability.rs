//! Applicability expression trees: the boolean tree that a law's fitness
//! mentions compile to, evaluated elsewhere against a customer profile.
//!
//! The mathematical model of a tree is [`Tree`], with strings as character
//! sequences; `node@` is the model of `node`.

use vstd::prelude::*;
use crate::labelset::{LabelSet, strictly_sorted, lex_lt, lemma_lex_irreflexive, lemma_lex_total, lemma_lex_transitive};
use crate::text::{owned, str_eq};

verus! {

/// How the codes of a `Match` leaf combine.
#[derive(Debug, Clone, Copy, PartialEq, Eq, Structural)]
pub enum MatchOp {
    AnyOf,
    AllOf,
}

/// The match operator a Match node has when none is given.
pub fn default_match_op() -> (r: MatchOp)
    ensures
        r == MatchOp::AnyOf,
{
    MatchOp::AnyOf
}

/// A node in the applicability expression tree.
#[derive(Debug, PartialEq)]
pub enum ApplicabilityNode {
    /// Leaf: does the customer match any/all of these codes in this dimension?
    Match { dimension: String, codes: Vec<String>, match_op: MatchOp },
    /// All children must match.
    And { children: Vec<ApplicabilityNode> },
    /// Any child must match.
    Or { children: Vec<ApplicabilityNode> },
    /// Child must not match.
    Not { child: Box<ApplicabilityNode> },
    /// Match `then` only if `condition` matches first.
    Conditional { condition: Box<ApplicabilityNode>, then: Box<ApplicabilityNode> },
    /// The law applies between `from` and `to` (`None`: unbounded that way).
    TimeWindow { from: Option<String>, to: Option<String>, inner: Option<Box<ApplicabilityNode>> },
}

/// The model of an [`ApplicabilityNode`].
pub enum Tree {
    Match { dimension: Seq<char>, codes: Seq<Seq<char>>, match_op: MatchOp },
    And { children: Seq<Tree> },
    Or { children: Seq<Tree> },
    Not { child: Box<Tree> },
    Conditional { condition: Box<Tree>, then: Box<Tree> },
    TimeWindow { from: Option<Seq<char>>, to: Option<Seq<char>>, inner: Option<Box<Tree>> },
}

pub open spec fn strings_view(v: Vec<String>) -> Seq<Seq<char>> {
    v@.map_values(|s: String| s@)
}

pub open spec fn opt_view(o: Option<String>) -> Option<Seq<char>> {
    match o {
        Some(s) => Some(s@),
        None => None,
    }
}

/// The model of a node.
pub open spec fn tree_of(n: ApplicabilityNode) -> Tree
    decreases n,
{
    match n {
        ApplicabilityNode::Match { dimension, codes, match_op } => Tree::Match {
            dimension: dimension@,
            codes: strings_view(codes),
            match_op,
        },
        ApplicabilityNode::And { children } => Tree::And { children: trees_of(children) },
        ApplicabilityNode::Or { children } => Tree::Or { children: trees_of(children) },
        ApplicabilityNode::Not { child } => Tree::Not { child: Box::new(tree_of(*child)) },
        ApplicabilityNode::Conditional { condition, then } => Tree::Conditional {
            condition: Box::new(tree_of(*condition)),
            then: Box::new(tree_of(*then)),
        },
        ApplicabilityNode::TimeWindow { from, to, inner } => Tree::TimeWindow {
            from: opt_view(from),
            to: opt_view(to),
            inner: match inner {
                Some(b) => Some(Box::new(tree_of(*b))),
                None => None,
            },
        },
    }
}

/// The models of a list of nodes.
pub open spec fn trees_of(v: Vec<ApplicabilityNode>) -> Seq<Tree>
    decreases v,
{
    Seq::new(v@.len(), |i: int| if 0 <= i < v@.len() { tree_of(v@[i]) } else { Tree::And { children: seq![] } })
}

impl View for ApplicabilityNode {
    type V = Tree;

    open spec fn view(&self) -> Tree {
        tree_of(*self)
    }
}


// ---------------------------------------------------------------------------
// Constructors

/// The leaf that an empty `And`/`Or` collapses to: `Match("any", [])`.
pub open spec fn any_leaf() -> Tree {
    Tree::Match { dimension: "any"@, codes: seq![], match_op: MatchOp::AnyOf }
}

/// `And` of the children, collapsed when there are fewer than two.
pub open spec fn and_spec(cs: Seq<Tree>) -> Tree {
    if cs.len() == 0 {
        any_leaf()
    } else if cs.len() == 1 {
        cs[0]
    } else {
        Tree::And { children: cs }
    }
}

/// `Or` of the children, collapsed when there are fewer than two.
pub open spec fn or_spec(cs: Seq<Tree>) -> Tree {
    if cs.len() == 0 {
        any_leaf()
    } else if cs.len() == 1 {
        cs[0]
    } else {
        Tree::Or { children: cs }
    }
}

pub open spec fn combine(cs: Seq<Tree>, is_or: bool) -> Tree {
    if is_or { or_spec(cs) } else { and_spec(cs) }
}

pub open spec fn opt_str_view(o: Option<&str>) -> Option<Seq<char>> {
    match o {
        Some(s) => Some(s@),
        None => None,
    }
}

proof fn lemma_trees_of_empty(v: Vec<ApplicabilityNode>)
    requires
        v@.len() == 0,
    ensures
        trees_of(v) == Seq::<Tree>::empty(),
{
    assert(trees_of(v) =~= Seq::<Tree>::empty());
}

impl ApplicabilityNode {
    /// A `Match` leaf with `AnyOf`.
    pub fn match_any(dimension: &str, codes: Vec<String>) -> (r: Self)
        ensures
            r@ == (Tree::Match { dimension: dimension@, codes: strings_view(codes), match_op: MatchOp::AnyOf }),
    {
        ApplicabilityNode::Match { dimension: owned(dimension), codes, match_op: MatchOp::AnyOf }
    }

    /// Wrap in a `Not` node.
    pub fn negate(self) -> (r: Self)
        ensures
            r@ == (Tree::Not { child: Box::new(self@) }),
    {
        ApplicabilityNode::Not { child: Box::new(self) }
    }

    /// Combine with `And`; a single child stands alone, no children give `Match("any", [])`.
    pub fn and(children: Vec<Self>) -> (r: Self)
        ensures
            r@ == and_spec(trees_of(children)),
    {
        Self::combine_exec(children, false)
    }

    /// Combine with `Or`; a single child stands alone, no children give `Match("any", [])`.
    pub fn or(children: Vec<Self>) -> (r: Self)
        ensures
            r@ == or_spec(trees_of(children)),
    {
        Self::combine_exec(children, true)
    }

    fn combine_exec(children: Vec<Self>, is_or: bool) -> (r: Self)
        ensures
            r@ == combine(trees_of(children), is_or),
    {
        let mut children = children;
        if children.len() == 0 {
            let empty: Vec<String> = Vec::new();
            proof {
                assert(strings_view(empty) =~= seq![]);
                lemma_trees_of_empty(children);
            }
            Self::match_any("any", empty)
        } else if children.len() == 1 {
            let ghost t = trees_of(children);
            let c = children.remove(0);
            proof {
                assert(t[0] == c@);
            }
            c
        } else if is_or {
            ApplicabilityNode::Or { children }
        } else {
            ApplicabilityNode::And { children }
        }
    }

    /// A `TimeWindow` with no inner node.
    pub fn time_window(from: Option<&str>, to: Option<&str>) -> (r: Self)
        ensures
            r@ == (Tree::TimeWindow { from: opt_str_view(from), to: opt_str_view(to), inner: None }),
    {
        let f = match from {
            Some(s) => Some(owned(s)),
            None => None,
        };
        let t = match to {
            Some(s) => Some(owned(s)),
            None => None,
        };
        ApplicabilityNode::TimeWindow { from: f, to: t, inner: None }
    }
}


// ---------------------------------------------------------------------------
// Normal form

/// The codes in character order, each once: the one strictly sorted sequence
/// with the same elements as `s`.
pub open spec fn sorted_set(s: Seq<Seq<char>>) -> Seq<Seq<char>> {
    choose|r: Seq<Seq<char>>| strictly_sorted(r) && r.to_set() == s.to_set()
}

/// Two strictly sorted sequences with the same elements are equal.
pub proof fn lemma_sorted_unique(a: Seq<Seq<char>>, b: Seq<Seq<char>>)
    requires
        strictly_sorted(a),
        strictly_sorted(b),
        a.to_set() == b.to_set(),
    ensures
        a == b,
    decreases a.len(),
{
    if a.len() == 0 {
        if b.len() > 0 {
            assert(b.to_set().contains(b[0]));
        }
        assert(a =~= b);
    } else {
        assert(a.to_set().contains(a[0]));
        assert(b.len() > 0);
        assert(b.to_set().contains(b[0]));
        let j = choose|j: int| 0 <= j < b.len() && b[j] == a[0];
        let k = choose|k: int| 0 <= k < a.len() && a[k] == b[0];
        if j > 0 {
            if k > 0 {
                lemma_lex_total(a[0], a[k]);
            } else {
                lemma_lex_irreflexive(b[0]);
            }
        }
        assert(a[0] == b[0]);
        let a1 = a.drop_first();
        let b1 = b.drop_first();
        assert forall|x: Seq<char>| a1.to_set().contains(x) <==> b1.to_set().contains(x) by {
            if a1.to_set().contains(x) {
                let i = choose|i: int| 0 <= i < a1.len() && a1[i] == x;
                assert(a[i + 1] == x);
                assert(a.to_set().contains(x));
                let m = choose|m: int| 0 <= m < b.len() && b[m] == x;
                if m == 0 {
                    lemma_lex_irreflexive(a[0]);
                    assert(lex_lt(a[0], a[i + 1]));
                }
                assert(b1[m - 1] == x);
            }
            if b1.to_set().contains(x) {
                let i = choose|i: int| 0 <= i < b1.len() && b1[i] == x;
                assert(b[i + 1] == x);
                assert(b.to_set().contains(x));
                let m = choose|m: int| 0 <= m < a.len() && a[m] == x;
                if m == 0 {
                    lemma_lex_irreflexive(b[0]);
                    assert(lex_lt(b[0], b[i + 1]));
                }
                assert(a1[m - 1] == x);
            }
        }
        assert(a1.to_set() =~= b1.to_set());
        lemma_sorted_unique(a1, b1);
        assert(a =~= seq![a[0]] + a1);
        assert(b =~= seq![b[0]] + b1);
    }
}

/// A strictly sorted sequence is the sorted set of anything with its elements.
pub proof fn lemma_sorted_set_is(r: Seq<Seq<char>>, s: Seq<Seq<char>>)
    requires
        strictly_sorted(r),
        r.to_set() == s.to_set(),
    ensures
        sorted_set(s) == r,
{
    let c = sorted_set(s);
    assert(strictly_sorted(c) && c.to_set() == s.to_set());
    lemma_sorted_unique(c, r);
}

pub open spec fn is_anyof(t: Tree) -> bool {
    t matches Tree::Match { match_op: MatchOp::AnyOf, .. }
}

pub open spec fn match_dim(t: Tree) -> Seq<char> {
    match t {
        Tree::Match { dimension, .. } => dimension,
        _ => seq![],
    }
}

pub open spec fn match_codes(t: Tree) -> Seq<Seq<char>> {
    match t {
        Tree::Match { codes, .. } => codes,
        _ => seq![],
    }
}

/// Index of the first `AnyOf` match on dimension `d`, or -1.
pub open spec fn first_anyof(out: Seq<Tree>, d: Seq<char>) -> int
    decreases out.len(),
{
    if out.len() == 0 {
        -1
    } else {
        let k = first_anyof(out.drop_last(), d);
        if k >= 0 {
            k
        } else if is_anyof(out.last()) && match_dim(out.last()) == d {
            out.len() - 1
        } else {
            -1
        }
    }
}

/// Add one flattened child to the siblings kept so far: under an `Or`, an
/// `AnyOf` match joins the codes of the first `AnyOf` sibling on its
/// dimension; otherwise the child is added unless an equal sibling is there.
pub open spec fn merge_step(out: Seq<Tree>, child: Tree, is_or: bool) -> Seq<Tree> {
    let k = first_anyof(out, match_dim(child));
    if is_or && is_anyof(child) && k >= 0 {
        out.update(k, Tree::Match {
            dimension: match_dim(child),
            codes: sorted_set(match_codes(out[k]) + match_codes(child)),
            match_op: MatchOp::AnyOf,
        })
    } else if out.contains(child) {
        out
    } else {
        out.push(child)
    }
}

pub open spec fn fold_siblings(flat: Seq<Tree>, is_or: bool) -> Seq<Tree>
    decreases flat.len(),
{
    if flat.len() == 0 {
        seq![]
    } else {
        merge_step(fold_siblings(flat.drop_last(), is_or), flat.last(), is_or)
    }
}

/// A child's contribution to its parent's list: a child of the same operator
/// gives its own children.
pub open spec fn spliced(t: Tree, is_or: bool) -> Seq<Tree> {
    match t {
        Tree::Or { children } => if is_or { children } else { seq![t] },
        Tree::And { children } => if !is_or { children } else { seq![t] },
        _ => seq![t],
    }
}

pub open spec fn flatten(ns: Seq<Tree>, is_or: bool) -> Seq<Tree>
    decreases ns.len(),
{
    if ns.len() == 0 {
        seq![]
    } else {
        flatten(ns.drop_last(), is_or) + spliced(ns.last(), is_or)
    }
}

/// An `And` (`is_or` false) or `Or` of already normalised children.
pub open spec fn group_spec(ns: Seq<Tree>, is_or: bool) -> Tree {
    combine(fold_siblings(flatten(ns, is_or), is_or), is_or)
}

/// The children's canonical forms, in order.
pub open spec fn normalize_all(cs: Seq<Tree>) -> Seq<Tree>
    decreases cs,
{
    Seq::new(cs.len(), |i: int| if 0 <= i < cs.len() { normalize_spec(cs[i]) } else { any_leaf() })
}

/// The canonical form of a tree.
pub open spec fn normalize_spec(t: Tree) -> Tree
    decreases t,
{
    match t {
        Tree::Match { dimension, codes, match_op } => Tree::Match {
            dimension,
            codes: sorted_set(codes),
            match_op,
        },
        Tree::And { children } => group_spec(normalize_all(children), false),
        Tree::Or { children } => group_spec(normalize_all(children), true),
        Tree::Not { child } => {
            let n = normalize_spec(*child);
            match n {
                Tree::Not { child: inner } => *inner,
                _ => Tree::Not { child: Box::new(n) },
            }
        },
        Tree::Conditional { condition, then } => Tree::Conditional {
            condition: Box::new(normalize_spec(*condition)),
            then: Box::new(normalize_spec(*then)),
        },
        Tree::TimeWindow { from, to, inner } => Tree::TimeWindow {
            from,
            to,
            inner: match inner {
                Some(b) => Some(Box::new(normalize_spec(*b))),
                None => None,
            },
        },
    }
}


/// A copy of a list of strings.
pub fn clone_strings(v: &Vec<String>) -> (r: Vec<String>)
    ensures
        strings_view(r) == strings_view(*v),
{
    let mut r: Vec<String> = Vec::new();
    let mut i: usize = 0;
    while i < v.len()
        invariant
            i <= v.len(),
            r.len() == i,
            strings_view(r) == strings_view(*v).take(i as int),
        decreases v.len() - i,
    {
        let ghost before = r@;
        r.push(owned(v[i].as_str()));
        proof {
            assert(r@ == before.push(r@[i as int]));
            assert(strings_view(r) =~= strings_view(*v).take(i + 1));
        }
        i += 1;
    }
    proof {
        assert(strings_view(*v).take(v.len() as int) =~= strings_view(*v));
    }
    r
}

/// The codes of `a` then `b`, sorted, each once.
fn sorted_union(a: &Vec<String>, b: &Vec<String>) -> (r: Vec<String>)
    ensures
        strings_view(r) == sorted_set(strings_view(*a) + strings_view(*b)),
{
    let ghost all = strings_view(*a) + strings_view(*b);
    let mut set = LabelSet::new();
    let mut i: usize = 0;
    proof {
        assert(set@.to_set() =~= all.take(0).to_set());
    }
    while i < a.len()
        invariant
            i <= a.len(),
            all == strings_view(*a) + strings_view(*b),
            set@.to_set() == all.take(i as int).to_set(),
        decreases a.len() - i,
    {
        proof {
            assert(a[i as int]@ == all[i as int]);
        }
        set.insert(a[i].as_str());
        proof {
            assert(all.take(i + 1) =~= all.take(i as int).push(all[i as int]));
            all.take(i as int).lemma_push_to_set_commute(all[i as int]);
        }
        i += 1;
    }
    let mut k: usize = 0;
    while k < b.len()
        invariant
            k <= b.len(),
            all == strings_view(*a) + strings_view(*b),
            set@.to_set() == all.take(a.len() + k).to_set(),
        decreases b.len() - k,
    {
        proof {
            assert(b[k as int]@ == all[a.len() + k]);
        }
        set.insert(b[k].as_str());
        proof {
            assert(all.take(a.len() + k + 1) =~= all.take(a.len() + k).push(all[a.len() + k]));
            all.take(a.len() + k).lemma_push_to_set_commute(all[a.len() + k]);
        }
        k += 1;
    }
    let items = set.items();
    let r = clone_strings(items);
    proof {
        assert(all.take(a.len() + k) =~= all);
        lemma_sorted_set_is(set@, all);
    }
    r
}

impl ApplicabilityNode {
    /// Structural equality of two nodes (equal models).
    pub fn same_as(&self, other: &Self) -> (r: bool)
        ensures
            r == (self@ == other@),
        decreases *self, 1nat,
    {
        match (self, other) {
            (
                ApplicabilityNode::Match { dimension: d1, codes: c1, match_op: o1 },
                ApplicabilityNode::Match { dimension: d2, codes: c2, match_op: o2 },
            ) => {
                proof {
                    assert(self@ == (Tree::Match { dimension: d1@, codes: strings_view(*c1), match_op: *o1 }));
                    assert(other@ == (Tree::Match { dimension: d2@, codes: strings_view(*c2), match_op: *o2 }));
                }
                if !str_eq(d1.as_str(), d2.as_str()) || *o1 != *o2 || c1.len() != c2.len() {
                    proof {
                        if self@ == other@ {
                            assert(strings_view(*c1).len() == strings_view(*c2).len());
                        }
                    }
                    return false;
                }
                let mut i: usize = 0;
                while i < c1.len()
                    invariant
                        i <= c1.len(),
                        c1.len() == c2.len(),
                        self@ == (Tree::Match { dimension: d1@, codes: strings_view(*c1), match_op: *o1 }),
                        other@ == (Tree::Match { dimension: d2@, codes: strings_view(*c2), match_op: *o2 }),
                        forall|j: int| 0 <= j < i ==> c1@[j]@ == c2@[j]@,
                    decreases c1.len() - i,
                {
                    if !str_eq(c1[i].as_str(), c2[i].as_str()) {
                        proof {
                            if self@ == other@ {
                                assert(strings_view(*c1)[i as int] == strings_view(*c2)[i as int]);
                            }
                        }
                        return false;
                    }
                    i += 1;
                }
                proof {
                    assert(strings_view(*c1) =~= strings_view(*c2));
                }
                true
            },
            (ApplicabilityNode::And { children: x }, ApplicabilityNode::And { children: y }) => {
                proof {
                    assert(decreases_to!(*self => self->And_children));
                    assert(self@ == (Tree::And { children: trees_of(*x) }));
                    assert(other@ == (Tree::And { children: trees_of(*y) }));
                }
                Self::children_same(x, y, Ghost(*self))
            },
            (ApplicabilityNode::Or { children: x }, ApplicabilityNode::Or { children: y }) => {
                proof {
                    assert(decreases_to!(*self => self->Or_children));
                    assert(self@ == (Tree::Or { children: trees_of(*x) }));
                    assert(other@ == (Tree::Or { children: trees_of(*y) }));
                }
                Self::children_same(x, y, Ghost(*self))
            },
            (ApplicabilityNode::Not { child: a }, ApplicabilityNode::Not { child: b }) => {
                a.same_as(b)
            },
            (
                ApplicabilityNode::Conditional { condition: c1, then: t1 },
                ApplicabilityNode::Conditional { condition: c2, then: t2 },
            ) => {
                c1.same_as(c2) && t1.same_as(t2)
            },
            (
                ApplicabilityNode::TimeWindow { from: f1, to: e1, inner: n1 },
                ApplicabilityNode::TimeWindow { from: f2, to: e2, inner: n2 },
            ) => {
                let same_from = match (f1, f2) {
                    (Some(a), Some(b)) => str_eq(a.as_str(), b.as_str()),
                    (None, None) => true,
                    _ => false,
                };
                let same_to = match (e1, e2) {
                    (Some(a), Some(b)) => str_eq(a.as_str(), b.as_str()),
                    (None, None) => true,
                    _ => false,
                };
                let same_inner = match (n1, n2) {
                    (Some(a), Some(b)) => a.same_as(b),
                    (None, None) => true,
                    _ => false,
                };
                same_from && same_to && same_inner
            },
            _ => false,
        }
    }

    /// Pairwise structural equality of two child lists.
    fn children_same(x: &Vec<Self>, y: &Vec<Self>, Ghost(parent): Ghost<Self>) -> (r: bool)
        requires
            decreases_to!(parent => *x),
        ensures
            r == (trees_of(*x) == trees_of(*y)),
        decreases parent, 0nat,
    {
        if x.len() != y.len() {
            proof {
                if trees_of(*x) == trees_of(*y) {
                    assert(trees_of(*x).len() == trees_of(*y).len());
                }
            }
            return false;
        }
        let mut i: usize = 0;
        while i < x.len()
            invariant
                i <= x.len(),
                x.len() == y.len(),
                decreases_to!(parent => *x),
                forall|j: int| 0 <= j < i ==> x@[j]@ == y@[j]@,
            decreases x.len() - i,
        {
            proof {
                assert(decreases_to!(*x => x@));
                assert(decreases_to!(x@ => x@[i as int]));
            }
            if !x[i].same_as(&y[i]) {
                proof {
                    if trees_of(*x) == trees_of(*y) {
                        assert(trees_of(*x)[i as int] == trees_of(*y)[i as int]);
                    }
                }
                return false;
            }
            i += 1;
        }
        proof {
            assert(trees_of(*x) =~= trees_of(*y));
        }
        true
    }
}


proof fn lemma_first_anyof_at(t: Seq<Tree>, d: Seq<char>, k: int)
    requires
        0 <= k < t.len(),
        is_anyof(t[k]) && match_dim(t[k]) == d,
        forall|j: int| 0 <= j < k ==> !(is_anyof(#[trigger] t[j]) && match_dim(t[j]) == d),
    ensures
        first_anyof(t, d) == k,
    decreases t.len(),
{
    if k < t.len() - 1 {
        lemma_first_anyof_at(t.drop_last(), d, k);
    } else {
        lemma_first_anyof_none(t.drop_last(), d);
    }
}

proof fn lemma_first_anyof_none(t: Seq<Tree>, d: Seq<char>)
    requires
        forall|j: int| 0 <= j < t.len() ==> !(is_anyof(#[trigger] t[j]) && match_dim(t[j]) == d),
    ensures
        first_anyof(t, d) == -1,
    decreases t.len(),
{
    if t.len() > 0 {
        lemma_first_anyof_none(t.drop_last(), d);
    }
}

proof fn lemma_first_anyof_range(t: Seq<Tree>, d: Seq<char>)
    ensures
        -1 <= first_anyof(t, d) < t.len(),
        first_anyof(t, d) >= 0 ==> is_anyof(t[first_anyof(t, d)]),
    decreases t.len(),
{
    if t.len() > 0 {
        lemma_first_anyof_range(t.drop_last(), d);
    }
}

proof fn lemma_trees_push(a: Vec<ApplicabilityNode>, b: Vec<ApplicabilityNode>, x: ApplicabilityNode)
    requires
        b@ == a@.push(x),
    ensures
        trees_of(b) == trees_of(a).push(x@),
{
    assert(trees_of(b) =~= trees_of(a).push(x@));
}

proof fn lemma_trees_append(a: Vec<ApplicabilityNode>, b: Vec<ApplicabilityNode>, c: Vec<ApplicabilityNode>)
    requires
        c@ == a@ + b@,
    ensures
        trees_of(c) == trees_of(a) + trees_of(b),
{
    assert(trees_of(c) =~= trees_of(a) + trees_of(b));
}

proof fn lemma_trees_remove_first(a: Vec<ApplicabilityNode>, b: Vec<ApplicabilityNode>)
    requires
        a@.len() > 0,
        b@ == a@.remove(0),
    ensures
        trees_of(b) == trees_of(a).drop_first(),
        trees_of(a)[0] == a@[0]@,
{
    assert(trees_of(b) =~= trees_of(a).drop_first());
}

proof fn lemma_trees_update(a: Vec<ApplicabilityNode>, b: Vec<ApplicabilityNode>, k: int, x: ApplicabilityNode)
    requires
        0 <= k < a@.len(),
        b@ == a@.update(k, x),
    ensures
        trees_of(b) == trees_of(a).update(k, x@),
{
    assert(trees_of(b) =~= trees_of(a).update(k, x@));
}

impl ApplicabilityNode {
    /// Index of the first `AnyOf` match on dimension `d`.
    fn find_anyof(out: &Vec<Self>, d: &str) -> (r: Option<usize>)
        ensures
            match r {
                Some(k) => k < out.len() && first_anyof(trees_of(*out), d@) == k,
                None => first_anyof(trees_of(*out), d@) < 0,
            },
    {
        let ghost t = trees_of(*out);
        let mut i: usize = 0;
        while i < out.len()
            invariant
                i <= out.len(),
                t == trees_of(*out),
                forall|j: int| 0 <= j < i ==> !(is_anyof(#[trigger] t[j]) && match_dim(t[j]) == d@),
            decreases out.len() - i,
        {
            let hit = match &out[i] {
                ApplicabilityNode::Match { dimension, match_op: MatchOp::AnyOf, .. } => str_eq(dimension.as_str(), d),
                _ => false,
            };
            proof {
                assert(t[i as int] == out@[i as int]@);
            }
            if hit {
                proof {
                    lemma_first_anyof_at(t, d@, i as int);
                }
                return Some(i);
            }
            i += 1;
        }
        proof {
            lemma_first_anyof_none(t, d@);
        }
        None
    }

    /// The codes of the `Match` node at `k`.
    fn codes_at(out: &Vec<Self>, k: usize) -> (r: Vec<String>)
        requires
            k < out.len(),
            is_anyof(trees_of(*out)[k as int]),
        ensures
            strings_view(r) == match_codes(trees_of(*out)[k as int]),
    {
        proof {
            assert(trees_of(*out)[k as int] == out@[k as int]@);
        }
        match &out[k] {
            ApplicabilityNode::Match { codes, .. } => clone_strings(codes),
            _ => Vec::new(),
        }
    }

    /// Is a node equal to `c` among `out`?
    fn contains_node(out: &Vec<Self>, c: &Self) -> (r: bool)
        ensures
            r == trees_of(*out).contains(c@),
    {
        let ghost t = trees_of(*out);
        let mut i: usize = 0;
        while i < out.len()
            invariant
                i <= out.len(),
                t == trees_of(*out),
                forall|j: int| 0 <= j < i ==> t[j] != c@,
            decreases out.len() - i,
        {
            proof {
                assert(t[i as int] == out@[i as int]@);
            }
            if out[i].same_as(c) {
                return true;
            }
            i += 1;
        }
        false
    }

    /// One step of sibling folding (see [`merge_step`]).
    fn merge_into(out: Vec<Self>, child: Self, is_or: bool) -> (r: Vec<Self>)
        ensures
            trees_of(r) == merge_step(trees_of(out), child@, is_or),
    {
        let mut out = out;
        let ghost t = trees_of(out);
        if is_or {
            match &child {
                ApplicabilityNode::Match { dimension, codes, match_op: MatchOp::AnyOf } => {
                    match Self::find_anyof(&out, dimension.as_str()) {
                        Some(k) => {
                            proof {
                                lemma_first_anyof_range(t, dimension@);
                            }
                            let existing = Self::codes_at(&out, k);
                            let merged = sorted_union(&existing, codes);
                            let node = ApplicabilityNode::Match {
                                dimension: owned(dimension.as_str()),
                                codes: merged,
                                match_op: MatchOp::AnyOf,
                            };
                            let ghost before = out;
                            out.set(k, node);
                            proof {
                                lemma_trees_update(before, out, k as int, node);
                            }
                            return out;
                        },
                        None => {},
                    }
                },
                _ => {},
            }
        }
        if !Self::contains_node(&out, &child) {
            let ghost before = out;
            out.push(child);
            proof {
                lemma_trees_push(before, out, child);
            }
        }
        out
    }
}



impl ApplicabilityNode {
    /// Canonicalise the tree without changing its meaning: codes sorted and
    /// deduplicated, nested `And`/`Or` of the same operator flattened, equal
    /// siblings removed, `AnyOf` matches on one dimension under an `Or`
    /// merged, single-child `And`/`Or` collapsed, `Not(Not(x))` to `x`.
    pub fn normalize(self) -> (r: Self)
        ensures
            r@ == normalize_spec(self@),
        decreases self, 1nat,
    {
        let ghost me = self;
        match self {
            ApplicabilityNode::Match { dimension, codes, match_op } => {
                let none: Vec<String> = Vec::new();
                let sorted = sorted_union(&codes, &none);
                proof {
                    assert(strings_view(codes) + strings_view(none) =~= strings_view(codes));
                }
                ApplicabilityNode::Match { dimension, codes: sorted, match_op }
            },
            ApplicabilityNode::And { children } => {
                proof {
                    assert(decreases_to!(me => me->And_children));
                }
                let ns = Self::normalize_children(children, Ghost(me));
                proof {
                    assert(trees_of(ns) =~= normalize_all(trees_of(children)));
                }
                Self::normalize_group(ns, false)
            },
            ApplicabilityNode::Or { children } => {
                proof {
                    assert(decreases_to!(me => me->Or_children));
                }
                let ns = Self::normalize_children(children, Ghost(me));
                proof {
                    assert(trees_of(ns) =~= normalize_all(trees_of(children)));
                }
                Self::normalize_group(ns, true)
            },
            ApplicabilityNode::Not { child } => {
                let n = (*child).normalize();
                match n {
                    ApplicabilityNode::Not { child: inner } => *inner,
                    other => other.negate(),
                }
            },
            ApplicabilityNode::Conditional { condition, then } => {
                let c = (*condition).normalize();
                let t = (*then).normalize();
                ApplicabilityNode::Conditional { condition: Box::new(c), then: Box::new(t) }
            },
            ApplicabilityNode::TimeWindow { from, to, inner } => {
                let inner = match inner {
                    Some(b) => Some(Box::new((*b).normalize())),
                    None => None,
                };
                ApplicabilityNode::TimeWindow { from, to, inner }
            },
        }
    }

    fn normalize_children(children: Vec<Self>, Ghost(parent): Ghost<Self>) -> (r: Vec<Self>)
        requires
            decreases_to!(parent => children),
        ensures
            trees_of(r) == normalize_all(trees_of(children)),
        decreases parent, 0nat,
    {
        let ghost orig = children;
        let ghost t = trees_of(children);
        let mut rest = children;
        let mut r: Vec<Self> = Vec::new();
        proof {
            assert(decreases_to!(orig => orig@));
            assert(rest@ =~= orig@.skip(0));
        }
        while rest.len() > 0
            invariant
                decreases_to!(parent => orig),
                decreases_to!(orig => orig@),
                t == trees_of(orig),
                r.len() + rest.len() == orig@.len(),
                rest@ == orig@.skip(r.len() as int),
                forall|j: int| 0 <= j < r.len() ==> (#[trigger] r@[j])@ == normalize_spec(t[j]),
            decreases rest.len(),
        {
            let ghost k = r.len() as int;
            let c = rest.remove(0);
            proof {
                assert(c == orig@[k]);
                assert(decreases_to!(orig@ => orig@[k]));
                assert(rest@ =~= orig@.skip(k + 1));
            }
            let n = c.normalize();
            r.push(n);
        }
        proof {
            assert(trees_of(r) =~= normalize_all(t));
        }
        r
    }

    /// `And` (`is_or` false) or `Or` of normalised children, in normal form.
    fn normalize_group(ns: Vec<Self>, is_or: bool) -> (r: Self)
        ensures
            r@ == group_spec(trees_of(ns), is_or),
    {
        let ghost t = trees_of(ns);
        let mut rest = ns;
        let total = rest.len();
        let mut flat: Vec<Self> = Vec::new();
        let mut k: usize = 0;
        proof {
            assert(t.take(0) =~= seq![]);
            assert(trees_of(flat) =~= seq![]);
            assert(trees_of(rest) =~= t.skip(0));
        }
        while rest.len() > 0
            invariant
                k <= t.len(),
                t.len() == total,
                rest.len() == t.len() - k,
                trees_of(rest) == t.skip(k as int),
                trees_of(flat) == flatten(t.take(k as int), is_or),
            decreases rest.len(),
        {
            let ghost before_rest = rest;
            let c = rest.remove(0);
            proof {
                lemma_trees_remove_first(before_rest, rest);
                assert(c@ == t[k as int]);
                assert(t.skip(k as int).drop_first() =~= t.skip(k + 1));
                assert(t.take(k + 1).drop_last() =~= t.take(k as int));
            }
            let ghost before = flat;
            match c {
                ApplicabilityNode::Or { children } => {
                    if is_or {
                        let mut cs = children;
                        let ghost cs0 = cs;
                        flat.append(&mut cs);
                        proof {
                            lemma_trees_append(before, cs0, flat);
                        }
                    } else {
                        let node = ApplicabilityNode::Or { children };
                        flat.push(node);
                        proof {
                            lemma_trees_push(before, flat, node);
                        }
                    }
                },
                ApplicabilityNode::And { children } => {
                    if !is_or {
                        let mut cs = children;
                        let ghost cs0 = cs;
                        flat.append(&mut cs);
                        proof {
                            lemma_trees_append(before, cs0, flat);
                        }
                    } else {
                        let node = ApplicabilityNode::And { children };
                        flat.push(node);
                        proof {
                            lemma_trees_push(before, flat, node);
                        }
                    }
                },
                other => {
                    flat.push(other);
                    proof {
                        lemma_trees_push(before, flat, other);
                    }
                },
            }
            k += 1;
        }
        proof {
            assert(t.take(k as int) =~= t);
        }
        let ghost f = trees_of(flat);
        let total_flat = flat.len();
        let mut out: Vec<Self> = Vec::new();
        let mut m: usize = 0;
        proof {
            assert(f.take(0) =~= seq![]);
            assert(trees_of(out) =~= seq![]);
            assert(trees_of(flat) =~= f.skip(0));
        }
        while flat.len() > 0
            invariant
                m <= f.len(),
                f.len() == total_flat,
                flat.len() == f.len() - m,
                trees_of(flat) == f.skip(m as int),
                trees_of(out) == fold_siblings(f.take(m as int), is_or),
            decreases flat.len(),
        {
            let ghost before_flat = flat;
            let c = flat.remove(0);
            proof {
                lemma_trees_remove_first(before_flat, flat);
                assert(c@ == f[m as int]);
                assert(f.skip(m as int).drop_first() =~= f.skip(m + 1));
                assert(f.take(m + 1).drop_last() =~= f.take(m as int));
            }
            out = Self::merge_into(out, c, is_or);
            m += 1;
        }
        proof {
            assert(f.take(m as int) =~= f);
        }
        Self::combine_exec(out, is_or)
    }
}


impl ApplicabilityNode {
    /// A copy of the tree.
    pub fn deep_copy(&self) -> (r: Self)
        ensures
            r@ == self@,
        decreases *self, 1nat,
    {
        match self {
            ApplicabilityNode::Match { dimension, codes, match_op } => ApplicabilityNode::Match {
                dimension: owned(dimension.as_str()),
                codes: clone_strings(codes),
                match_op: *match_op,
            },
            ApplicabilityNode::And { children } => {
                proof {
                    assert(decreases_to!(*self => self->And_children));
                }
                ApplicabilityNode::And { children: Self::copy_children(children, Ghost(*self)) }
            },
            ApplicabilityNode::Or { children } => {
                proof {
                    assert(decreases_to!(*self => self->Or_children));
                }
                ApplicabilityNode::Or { children: Self::copy_children(children, Ghost(*self)) }
            },
            ApplicabilityNode::Not { child } => ApplicabilityNode::Not { child: Box::new(child.deep_copy()) },
            ApplicabilityNode::Conditional { condition, then } => ApplicabilityNode::Conditional {
                condition: Box::new(condition.deep_copy()),
                then: Box::new(then.deep_copy()),
            },
            ApplicabilityNode::TimeWindow { from, to, inner } => {
                let f = match from {
                    Some(s) => Some(owned(s.as_str())),
                    None => None,
                };
                let t = match to {
                    Some(s) => Some(owned(s.as_str())),
                    None => None,
                };
                let n = match inner {
                    Some(b) => Some(Box::new(b.deep_copy())),
                    None => None,
                };
                ApplicabilityNode::TimeWindow { from: f, to: t, inner: n }
            },
        }
    }

    fn copy_children(x: &Vec<Self>, Ghost(parent): Ghost<Self>) -> (r: Vec<Self>)
        requires
            decreases_to!(parent => *x),
        ensures
            trees_of(r) == trees_of(*x),
        decreases parent, 0nat,
    {
        let mut r: Vec<Self> = Vec::new();
        let mut i: usize = 0;
        while i < x.len()
            invariant
                i <= x.len(),
                r.len() == i,
                decreases_to!(parent => *x),
                forall|j: int| 0 <= j < i ==> (#[trigger] r@[j])@ == x@[j]@,
            decreases x.len() - i,
        {
            proof {
                assert(decreases_to!(*x => x@));
                assert(decreases_to!(x@ => x@[i as int]));
            }
            r.push(x[i].deep_copy());
            i += 1;
        }
        proof {
            assert(trees_of(r) =~= trees_of(*x));
        }
        r
    }
}

impl Clone for ApplicabilityNode {
    fn clone(&self) -> (r: Self)
        ensures
            r@ == self@,
    {
        self.deep_copy()
    }
}

} // verus!
