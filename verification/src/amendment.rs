//! Amendment-insertion text: text that a law inserts into or substitutes in
//! another instrument belongs to the amended instrument, so a provision that is
//! an amendment instruction, or sits under one, bears no DRRP of its own.

use vstd::prelude::*;
use crate::rx::{is_match, is_match_spec};
use crate::text::{from_range, to_chars};

verus! {

/// Amendment instructions: "insert—", "for X substitute Y", "omit", "is amended",
/// "there is inserted", locator stems such as "In section 34 (duty of care)—".
pub const AMENDMENT_RE: &'static str = r"(?ix)
        \b(?:insert|substitute|add)(?:ed)?\s*[—–:-]\s*   # 'insert—' '... there is substituted–' introducing quoted text
        | \bfor\b[^.;]{0,160}?\bsubstitute\b             # 'for X substitute Y'
        | \b(?:after|before|at\s+the\s+end\s+of)\b[^.;]{0,160}?\binsert\b
        | \bomit\b
        | \b(?:is|are|shall\s+be)\s+(?:further\s+)?amended\b
        | \bthere\s+(?:is|are|shall\s+be)\s+(?:inserted|substituted|added)\b
        | \bhas\s+effect\s+as\s+if\b[^.;]{0,160}?\b(?:substituted|inserted)\b
        | ^\s*(?:\(\w+\)\s*)?in\s+(?:the\s+)?(?:section|subsection|regulation|paragraph|sub-paragraph|schedule|article|rule|part|chapter)\s+[^;\n]{0,160}[—–:-]\s*$
                                                          # locator stem: 'In section 34 (duty of care)—'
        ";

/// An operative provision that also announces amendments
/// ("...; and accordingly those Acts are amended as follows").
pub const MIXED_OPERATIVE_RE: &'static str = r"(?i)\S[^;]{20,}[;,]\s*and\s+accordingly\b[^.;]{0,160}\bamended\b";

pub open spec fn is_amendment_instruction_spec(text: Seq<char>) -> bool {
    is_match_spec(AMENDMENT_RE@, text) && !is_match_spec(MIXED_OPERATIVE_RE@, text)
}

/// Is this provision text an amendment instruction?
pub fn is_amendment_instruction(text: &str) -> (r: bool)
    ensures
        r == is_amendment_instruction_spec(text@),
{
    is_match(AMENDMENT_RE, text) && !is_match(MIXED_OPERATIVE_RE, text)
}

/// Index of the last `c` in `s`.
pub open spec fn last_index_of(s: Seq<char>, c: char) -> Option<int>
    decreases s.len(),
{
    if s.len() == 0 {
        None
    } else if s.last() == c {
        Some(s.len() - 1)
    } else {
        last_index_of(s.drop_last(), c)
    }
}

pub proof fn lemma_last_index_of(s: Seq<char>, c: char)
    ensures
        last_index_of(s, c) matches Some(i) ==> 0 <= i < s.len() && s[i] == c
            && forall|j: int| i < j < s.len() ==> s[j] != c,
        last_index_of(s, c) is None ==> forall|j: int| 0 <= j < s.len() ==> s[j] != c,
    decreases s.len(),
{
    if s.len() > 0 && s.last() != c {
        lemma_last_index_of(s.drop_last(), c);
        assert(forall|j: int| 0 <= j < s.len() - 1 ==> s.drop_last()[j] == s[j]);
    }
}

/// Ancestors of a section id, stripping trailing `(...)` groups one at a time:
/// `X:reg.2(3)(a)(ii)` gives `X:reg.2(3)(a)`, `X:reg.2(3)`, `X:reg.2`.
pub open spec fn ancestors_spec(id: Seq<char>) -> Seq<Seq<char>>
    decreases id.len(),
{
    if id.len() > 0 && id.last() == ')' {
        match last_index_of(id, '(') {
            Some(i) => if i > 0 && i < id.len() {
                seq![id.take(i)] + ancestors_spec(id.take(i))
            } else {
                seq![]
            },
            None => seq![],
        }
    } else {
        seq![]
    }
}

fn last_index_of_exec(v: &Vec<char>, n: usize, c: char) -> (r: Option<usize>)
    requires
        n <= v.len(),
    ensures
        match r {
            Some(i) => last_index_of(v@.take(n as int), c) == Some(i as int),
            None => last_index_of(v@.take(n as int), c) is None,
        },
{
    let mut k = n;
    while k > 0
        invariant
            k <= n <= v.len(),
            last_index_of(v@.take(n as int), c) == last_index_of(v@.take(k as int), c),
        decreases k,
    {
        proof {
            assert(v@.take(k as int).drop_last() == v@.take(k - 1));
            assert(v@.take(k as int).last() == v@[k - 1]);
        }
        if v[k - 1] == c {
            return Some(k - 1);
        }
        k -= 1;
    }
    None
}

/// Ancestors of a section id by stripping trailing `(...)` groups.
pub fn ancestors(section_id: &str) -> (r: Vec<String>)
    ensures
        r@.map_values(|s: String| s@) == ancestors_spec(section_id@),
{
    let v = to_chars(section_id);
    let mut out: Vec<String> = Vec::new();
    let mut n = v.len();
    proof {
        assert(v@.take(n as int) == section_id@);
    }
    while n > 0 && v[n - 1] == ')'
        invariant
            n <= v.len(),
            out@.map_values(|s: String| s@) + ancestors_spec(v@.take(n as int)) == ancestors_spec(section_id@),
        decreases n,
    {
        proof {
            assert(v@.take(n as int).last() == v@[n - 1]);
        }
        match last_index_of_exec(&v, n, '(') {
            Some(i) => {
                if i > 0 {
                    proof {
                        lemma_last_index_of(v@.take(n as int), '(');
                        assert(v@.take(n as int).take(i as int) == v@.take(i as int));
                    }
                    let s = from_range(&v, 0, i);
                    let ghost o = out@.map_values(|s: String| s@);
                    out.push(s);
                    proof {
                        assert(out@.map_values(|s: String| s@) =~= o.push(v@.take(i as int)));
                        assert(v@.subrange(0, i as int) == v@.take(i as int));
                    }
                    n = i;
                } else {
                    proof {
                        assert(ancestors_spec(v@.take(n as int)) == Seq::<Seq<char>>::empty());
                        assert(out@.map_values(|s: String| s@) + Seq::<Seq<char>>::empty() == out@.map_values(|s: String| s@));
                    }
                    return out;
                }
            },
            None => {
                proof {
                    assert(out@.map_values(|s: String| s@) + Seq::<Seq<char>>::empty() == out@.map_values(|s: String| s@));
                }
                return out;
            },
        }
    }
    proof {
        assert(ancestors_spec(v@.take(n as int)) == Seq::<Seq<char>>::empty());
        assert(out@.map_values(|s: String| s@) + Seq::<Seq<char>>::empty() == out@.map_values(|s: String| s@));
    }
    out
}

pub open spec fn opt_string_view(o: Option<String>) -> Option<Seq<char>> {
    match o {
        Some(t) => Some(t@),
        None => None,
    }
}

/// The lookup answers by the characters of the id alone.
pub open spec fn lookup_is_function<F: Fn(&str) -> Option<String>>(f: F) -> bool {
    forall|s1: &str, s2: &str, o1: Option<String>, o2: Option<String>|
        s1@ == s2@ && #[trigger] call_ensures(f, (s1,), o1) && #[trigger] call_ensures(f, (s2,), o2)
            ==> opt_string_view(o1) == opt_string_view(o2)
}

/// The lookup can be called on every id.
pub open spec fn lookup_total<F: Fn(&str) -> Option<String>>(f: F) -> bool {
    forall|s: &str| call_requires(f, (s,))
}

/// The provision with id `id` has a text, and that text is an amendment instruction.
pub open spec fn text_is_amendment<F: Fn(&str) -> Option<String>>(f: F, id: Seq<char>) -> bool {
    exists|s: &str, o: Option<String>|
        #[trigger] call_ensures(f, (s,), o) && s@ == id && o is Some && is_amendment_instruction_spec(o->0@)
}

/// `id` is amendment text: an amendment instruction itself, or under one.
pub open spec fn in_amendment<F: Fn(&str) -> Option<String>>(f: F, id: Seq<char>) -> bool {
    text_is_amendment(f, id) || exists|k: int|
        0 <= k < ancestors_spec(id).len() && text_is_amendment(f, #[trigger] ancestors_spec(id)[k])
}

/// Does the provision with this id have an amendment-instruction text?  Calls the
/// lookup once.
pub fn check_text<F: Fn(&str) -> Option<String>>(text_of: &F, id: &str) -> (r: bool)
    requires
        lookup_total(*text_of),
        lookup_is_function(*text_of),
    ensures
        r == text_is_amendment(*text_of, id@),
{
    let o = text_of(id);
    match o {
        Some(t) => {
            if is_amendment_instruction(t.as_str()) {
                return true;
            }
            proof {
                assert forall|s: &str, o2: Option<String>|
                    #[trigger] call_ensures(*text_of, (s,), o2) && s@ == id@
                    implies !(o2 is Some && is_amendment_instruction_spec(o2->0@)) by {
                    assert(opt_string_view(o2) == opt_string_view(Some(t)));
                }
            }
            false
        },
        None => {
            proof {
                assert forall|s: &str, o2: Option<String>|
                    #[trigger] call_ensures(*text_of, (s,), o2) && s@ == id@
                    implies !(o2 is Some && is_amendment_instruction_spec(o2->0@)) by {
                    assert(opt_string_view(o2) == opt_string_view(None::<String>));
                }
            }
            false
        },
    }
}

/// Is `section_id` amendment text: an amendment instruction itself, or under one?
/// `text_of` returns a provision's own text.
pub fn is_amendment_text<F: Fn(&str) -> Option<String>>(section_id: &str, text_of: F) -> (r: bool)
    requires
        lookup_total(text_of),
        lookup_is_function(text_of),
    ensures
        r == in_amendment(text_of, section_id@),
{
    if check_text(&text_of, section_id) {
        return true;
    }
    let anc = ancestors(section_id);
    let ghost av = anc@.map_values(|s: String| s@);
    let mut i: usize = 0;
    while i < anc.len()
        invariant
            i <= anc.len(),
            av == anc@.map_values(|s: String| s@),
            av == ancestors_spec(section_id@),
            lookup_total(text_of),
            lookup_is_function(text_of),
            forall|j: int| 0 <= j < i ==> !text_is_amendment(text_of, #[trigger] av[j]),
        decreases anc.len() - i,
    {
        if check_text(&text_of, anc[i].as_str()) {
            proof {
                assert(av[i as int] == anc@[i as int]@);
            }
            return true;
        }
        i += 1;
    }
    false
}

} // verus!
