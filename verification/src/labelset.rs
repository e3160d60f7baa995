//! An ordered set of labels (strings), kept sorted by character order, as
//! `BTreeSet<String>` keeps them.

use vstd::prelude::*;
use crate::text::{owned, to_chars};

verus! {

/// Lexicographic order of character sequences (the order of `String::cmp`,
/// since UTF-8 preserves code-point order).
pub open spec fn lex_lt(a: Seq<char>, b: Seq<char>) -> bool
    decreases a.len(),
{
    if a.len() == 0 {
        b.len() > 0
    } else if b.len() == 0 {
        false
    } else if a[0] != b[0] {
        a[0] < b[0]
    } else {
        lex_lt(a.drop_first(), b.drop_first())
    }
}

pub proof fn lemma_lex_irreflexive(a: Seq<char>)
    ensures
        !lex_lt(a, a),
    decreases a.len(),
{
    if a.len() > 0 {
        lemma_lex_irreflexive(a.drop_first());
    }
}

pub proof fn lemma_lex_total(a: Seq<char>, b: Seq<char>)
    ensures
        a != b ==> lex_lt(a, b) || lex_lt(b, a),
        !(lex_lt(a, b) && lex_lt(b, a)),
    decreases a.len(),
{
    if a.len() > 0 && b.len() > 0 {
        lemma_lex_total(a.drop_first(), b.drop_first());
        if a[0] == b[0] && a.drop_first() == b.drop_first() {
            assert(a == seq![a[0]] + a.drop_first());
            assert(b == seq![b[0]] + b.drop_first());
        }
    } else if a.len() == 0 && b.len() == 0 {
        assert(a == b);
    }
}

pub proof fn lemma_lex_transitive(a: Seq<char>, b: Seq<char>, c: Seq<char>)
    requires
        lex_lt(a, b),
        lex_lt(b, c),
    ensures
        lex_lt(a, c),
    decreases a.len(),
{
    if a.len() > 0 && b.len() > 0 && c.len() > 0 {
        if a[0] == b[0] && b[0] == c[0] {
            lemma_lex_transitive(a.drop_first(), b.drop_first(), c.drop_first());
        }
    }
}

/// Strictly increasing: sorted with no duplicates.
pub open spec fn strictly_sorted(s: Seq<Seq<char>>) -> bool {
    forall|i: int, j: int| 0 <= i < j < s.len() ==> lex_lt(#[trigger] s[i], #[trigger] s[j])
}

/// `a < b` in character order.
pub fn lex_less(a: &str, b: &str) -> (r: bool)
    ensures
        r == lex_lt(a@, b@),
{
    let x = to_chars(a);
    let y = to_chars(b);
    let mut i: usize = 0;
    proof {
        assert(x@.skip(0) == x@);
        assert(y@.skip(0) == y@);
    }
    while i < x.len() && i < y.len() && x[i] == y[i]
        invariant
            i <= x.len(),
            i <= y.len(),
            lex_lt(x@, y@) == lex_lt(x@.skip(i as int), y@.skip(i as int)),
        decreases x.len() - i,
    {
        proof {
            assert(x@.skip(i as int).drop_first() == x@.skip(i + 1));
            assert(y@.skip(i as int).drop_first() == y@.skip(i + 1));
        }
        i += 1;
    }
    proof {
        if i < x.len() && i < y.len() {
            assert(x@.skip(i as int)[0] == x@[i as int]);
            assert(y@.skip(i as int)[0] == y@[i as int]);
        }
    }
    if i == x.len() {
        i < y.len()
    } else if i == y.len() {
        false
    } else {
        x[i] < y[i]
    }
}

/// A set of labels, iterated in character order.
#[derive(Debug, PartialEq)]
pub struct LabelSet {
    items: Vec<String>,
}

impl View for LabelSet {
    type V = Seq<Seq<char>>;

    closed spec fn view(&self) -> Seq<Seq<char>> {
        self.items@.map_values(|s: String| s@)
    }
}

impl LabelSet {
    #[verifier::type_invariant]
    spec fn sorted(self) -> bool {
        strictly_sorted(self@)
    }

    pub fn new() -> (r: LabelSet)
        ensures
            r@ == Seq::<Seq<char>>::empty(),
    {
        let r = LabelSet { items: Vec::new() };
        proof {
            assert(r@ =~= Seq::<Seq<char>>::empty());
        }
        r
    }

    /// The labels, in character order.
    pub fn items(&self) -> (r: &Vec<String>)
        ensures
            r@.map_values(|s: String| s@) == self@,
            strictly_sorted(self@),
    {
        proof {
            use_type_invariant(self);
        }
        &self.items
    }

    pub fn len(&self) -> (r: usize)
        ensures
            r == self@.len(),
    {
        self.items.len()
    }

    pub fn is_empty(&self) -> (r: bool)
        ensures
            r == (self@.len() == 0),
    {
        self.items.len() == 0
    }

    /// Is `x` in the set?
    pub fn contains(&self, x: &str) -> (r: bool)
        ensures
            r == self@.contains(x@),
    {
        let ghost v = self@;
        let mut i: usize = 0;
        while i < self.items.len()
            invariant
                i <= self.items.len(),
                v == self.items@.map_values(|s: String| s@),
                forall|j: int| 0 <= j < i ==> v[j] != x@,
            decreases self.items.len() - i,
        {
            if crate::text::str_eq(self.items[i].as_str(), x) {
                proof {
                    assert(v[i as int] == x@);
                }
                return true;
            }
            i += 1;
        }
        false
    }

    /// Add `x`; the set keeps its order.  Returns whether `x` was new.
    pub fn insert(&mut self, x: &str) -> (r: bool)
        ensures
            r == !old(self)@.contains(x@),
            final(self)@.to_set() == old(self)@.to_set().insert(x@),
            strictly_sorted(final(self)@),
    {
        proof {
            use_type_invariant(&*self);
        }
        let ghost v = self@;
        let mut i: usize = 0;
        while i < self.items.len() && lex_less(self.items[i].as_str(), x)
            invariant
                i <= self.items.len(),
                v == self.items@.map_values(|s: String| s@),
                strictly_sorted(v),
                forall|j: int| 0 <= j < i ==> lex_lt(#[trigger] v[j], x@),
            decreases self.items.len() - i,
        {
            i += 1;
        }
        if i < self.items.len() && crate::text::str_eq(self.items[i].as_str(), x) {
            proof {
                assert(v[i as int] == x@);
                assert(v.to_set().insert(x@) =~= v.to_set());
            }
            return false;
        }
        proof {
            assert forall|j: int| 0 <= j < v.len() implies v[j] != x@ by {
                if j < i {
                    lemma_lex_irreflexive(x@);
                } else {
                    lemma_lex_total(v[i as int], x@);
                    if j > i {
                        lemma_lex_transitive(x@, v[i as int], v[j]);
                        lemma_lex_irreflexive(x@);
                    }
                }
            }
            if i < v.len() {
                lemma_lex_total(v[i as int], x@);
            }
            assert forall|k: int| i <= k < v.len() implies lex_lt(x@, #[trigger] v[k]) by {
                lemma_lex_total(v[i as int], x@);
                if k > i {
                    lemma_lex_transitive(x@, v[i as int], v[k]);
                }
            }
        }
        let s = owned(x);
        let mut items = Vec::new();
        std::mem::swap(&mut items, &mut self.items);
        items.insert(i, s);
        let ghost nv = items@.map_values(|s: String| s@);
        proof {
            assert(nv =~= v.insert(i as int, x@));
            assert forall|a: int, b: int| 0 <= a < b < nv.len() implies lex_lt(#[trigger] nv[a], #[trigger] nv[b]) by {
                if b < i {
                } else if b == i {
                } else if a < i {
                    assert(nv[b] == v[b - 1]);
                    lemma_lex_transitive(nv[a], x@, nv[b]);
                } else if a == i {
                    assert(nv[b] == v[b - 1]);
                } else {
                    assert(nv[b] == v[b - 1]);
                    assert(nv[a] == v[a - 1]);
                }
            }
            assert(nv.to_set() =~= v.to_set().insert(x@)) by {
                assert forall|e: Seq<char>| nv.to_set().contains(e) <==> v.to_set().insert(x@).contains(e) by {
                    if nv.contains(e) {
                        let k = choose|k: int| 0 <= k < nv.len() && nv[k] == e;
                        if k < i {
                            assert(v[k] == e);
                        } else if k > i {
                            assert(v[k - 1] == e);
                        }
                    }
                    if v.contains(e) {
                        let k = choose|k: int| 0 <= k < v.len() && v[k] == e;
                        if k < i {
                            assert(nv[k] == e);
                        } else {
                            assert(nv[k + 1] == e);
                        }
                    }
                    if e == x@ {
                        assert(nv[i as int] == e);
                    }
                }
            }
        }
        self.items = items;
        true
    }
}

impl Default for LabelSet {
    fn default() -> (r: LabelSet)
        ensures
            r@ == Seq::<Seq<char>>::empty(),
    {
        LabelSet::new()
    }
}

} // verus!
