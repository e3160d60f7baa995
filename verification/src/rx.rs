//! Regular-expression matching, through the `regex` crate.
//!
//! Every match is handed to the rest of the library as a pair of strings:
//! the text before the match and the matched text, so positions are counted
//! in characters.  Replacement and first-match helpers are built on top of
//! the list of all matches and are verified here.

use vstd::prelude::*;
use crate::text::{from_chars, to_chars};

verus! {

/// One match: the haystack text before the match, and the matched text.
pub type MatchPieces = (Seq<char>, Seq<char>);

/// All successive non-overlapping matches of `pattern` in `text`, as computed by
/// `regex::Regex::find_iter` (no match at all when `pattern` does not compile).
pub uninterp spec fn regex_find_iter(pattern: Seq<char>, text: Seq<char>) -> Seq<MatchPieces>;

/// All successive non-overlapping matches of `pattern` in `text` with their
/// capture groups (group 0 is the whole match), as computed by
/// `regex::Regex::captures_iter` (nothing when `pattern` does not compile).
pub uninterp spec fn regex_captures_iter(pattern: Seq<char>, text: Seq<char>) -> Seq<Seq<Option<MatchPieces>>>;

/// Character index where a match starts.
pub open spec fn mstart(m: MatchPieces) -> int {
    m.0.len() as int
}

/// Character index just past a match.
pub open spec fn mend(m: MatchPieces) -> int {
    (m.0.len() + m.1.len()) as int
}

/// A match lies in `text`: its prefix and its matched text are what `text` holds there.
pub open spec fn lies_in(m: MatchPieces, text: Seq<char>) -> bool {
    (m.0 + m.1).is_prefix_of(text)
}

/// The matches lie in `text`, in order, without overlapping.
pub open spec fn well_placed(ms: Seq<MatchPieces>, text: Seq<char>) -> bool {
    &&& forall|i: int| 0 <= i < ms.len() ==> lies_in(#[trigger] ms[i], text)
    &&& forall|i: int, j: int| 0 <= i < j < ms.len() ==> mend(#[trigger] ms[i]) <= mstart(#[trigger] ms[j])
}

pub open spec fn pieces_view(m: (String, String)) -> MatchPieces {
    (m.0@, m.1@)
}

/// `regex::Regex::new(pattern)` then `find_iter(text)`; each match is handed back
/// as (text before the match, matched text).  The contract names the result and
/// states what the crate documents of every match: it is a slice of the haystack,
/// and successive matches come in order without overlapping.
#[verifier::external_body]
pub(crate) fn find_iter(pattern: &str, text: &str) -> (r: Vec<(String, String)>)
    ensures
        r@.map_values(|m: (String, String)| pieces_view(m)) == regex_find_iter(pattern@, text@),
        well_placed(r@.map_values(|m: (String, String)| pieces_view(m)), text@),
{
    match regex::Regex::new(pattern) {
        Ok(re) => re.find_iter(text).map(|m| (text[..m.start()].to_string(), m.as_str().to_string())).collect(),
        Err(_) => Vec::new(),
    }
}

pub open spec fn group_view(g: Option<(String, String)>) -> Option<MatchPieces> {
    match g {
        Some(m) => Some(pieces_view(m)),
        None => None,
    }
}

pub open spec fn groups_view(gs: Vec<Option<(String, String)>>) -> Seq<Option<MatchPieces>> {
    gs@.map_values(|g: Option<(String, String)>| group_view(g))
}

/// `regex::Regex::new(pattern)` then `captures_iter(text)`; each participating
/// group is handed back as (text before the group, group text).  The contract names
/// the result and states that every participating group is a slice of the haystack,
/// and that group 0, the whole match, is always there.
#[verifier::external_body]
pub(crate) fn captures_iter(pattern: &str, text: &str) -> (r: Vec<Vec<Option<(String, String)>>>)
    ensures
        r@.map_values(|c: Vec<Option<(String, String)>>| groups_view(c)) == regex_captures_iter(pattern@, text@),
        forall|i: int, g: int| 0 <= i < r@.len() && 0 <= g < r@[i]@.len()
            && (#[trigger] r@[i]@[g]) is Some
            ==> lies_in(pieces_view(r@[i]@[g]->0), text@),
        forall|i: int| 0 <= i < r@.len() ==> (#[trigger] r@[i]@).len() > 0 && r@[i]@[0] is Some,
{
    match regex::Regex::new(pattern) {
        Ok(re) => re.captures_iter(text).map(|c| c.iter().map(|g| g.map(|m| (text[..m.start()].to_string(), m.as_str().to_string()))).collect()).collect(),
        Err(_) => Vec::new(),
    }
}

/// Does `pattern` match anywhere in `text`?
pub open spec fn is_match_spec(pattern: Seq<char>, text: Seq<char>) -> bool {
    regex_find_iter(pattern, text).len() > 0
}

pub fn is_match(pattern: &str, text: &str) -> (r: bool)
    ensures
        r == is_match_spec(pattern@, text@),
{
    let ms = find_iter(pattern, text);
    proof {
        assert(ms@.map_values(|m: (String, String)| pieces_view(m)).len() == ms@.len());
    }
    ms.len() > 0
}

/// Character span `(start, end)` of a match.
pub open spec fn span_of(m: MatchPieces) -> (int, int) {
    (mstart(m), mend(m))
}

/// The spans of all matches of `pattern` in `text`.
pub open spec fn spans_spec(pattern: Seq<char>, text: Seq<char>) -> Seq<(int, int)> {
    regex_find_iter(pattern, text).map_values(|m: MatchPieces| span_of(m))
}

/// Spans lie in a text of length `n`, in order, without overlapping.
pub open spec fn spans_ok(sp: Seq<(usize, usize)>, n: int) -> bool {
    &&& forall|i: int| 0 <= i < sp.len() ==> (#[trigger] sp[i]).0 <= sp[i].1 <= n
    &&& forall|i: int, j: int| 0 <= i < j < sp.len() ==> (#[trigger] sp[i]).1 <= (#[trigger] sp[j]).0
}

pub open spec fn spans_view(sp: Seq<(usize, usize)>) -> Seq<(int, int)> {
    sp.map_values(|p: (usize, usize)| (p.0 as int, p.1 as int))
}

/// Character spans of all matches of `pattern` in `text`.
pub fn find_spans(pattern: &str, text: &str) -> (r: Vec<(usize, usize)>)
    ensures
        spans_view(r@) == spans_spec(pattern@, text@),
        spans_ok(r@, text@.len() as int),
{
    let ms = find_iter(pattern, text);
    let tc = to_chars(text);
    let ghost g = ms@.map_values(|m: (String, String)| pieces_view(m));
    let mut out: Vec<(usize, usize)> = Vec::new();
    let mut k: usize = 0;
    while k < ms.len()
        invariant
            k <= ms.len(),
            g == ms@.map_values(|m: (String, String)| pieces_view(m)),
            g == regex_find_iter(pattern@, text@),
            well_placed(g, text@),
            tc@ == text@,
            out@.len() == k,
            forall|i: int| 0 <= i < k ==> (#[trigger] out@[i]).0 as int == mstart(g[i]) && out@[i].1 as int == mend(g[i]),
        decreases ms.len() - k,
    {
        let pre = to_chars(ms[k].0.as_str());
        let mat = to_chars(ms[k].1.as_str());
        proof {
            assert(g[k as int] == pieces_view(ms@[k as int]));
            assert(lies_in(g[k as int], text@));
            assert(pre@ == g[k as int].0);
            assert(mat@ == g[k as int].1);
            assert((pre@ + mat@).len() <= tc@.len());
            assert(pre.len() + mat.len() <= tc.len());
        }
        let a = pre.len();
        let b = pre.len() + mat.len();
        out.push((a, b));
        k += 1;
    }
    proof {
        assert(spans_view(out@) =~= spans_spec(pattern@, text@));
        assert forall|i: int| 0 <= i < out@.len() implies (#[trigger] out@[i]).0 <= out@[i].1 <= text@.len() by {
            assert(lies_in(g[i], text@));
        }
        assert forall|i: int, j: int| 0 <= i < j < out@.len() implies (#[trigger] out@[i]).1 <= (#[trigger] out@[j]).0 by {
            assert(mend(g[i]) <= mstart(g[j]));
        }
    }
    out
}

/// The text with every span `sp[k..]` replaced by `rep`, from character `pos` on.
pub open spec fn splice_from(text: Seq<char>, sp: Seq<(int, int)>, rep: Seq<char>, pos: int) -> Seq<char>
    decreases sp.len(),
{
    if sp.len() == 0 {
        text.subrange(pos, text.len() as int)
    } else {
        text.subrange(pos, sp[0].0) + rep + splice_from(text, sp.drop_first(), rep, sp[0].1)
    }
}

/// `text` with every match of `pattern` replaced by the literal `rep`.
pub open spec fn replace_all_spec(pattern: Seq<char>, text: Seq<char>, rep: Seq<char>) -> Seq<char> {
    splice_from(text, spans_spec(pattern, text), rep, 0)
}

/// `text` with the first match of `pattern` (if any) replaced by the literal `rep`.
pub open spec fn replace_first_spec(pattern: Seq<char>, text: Seq<char>, rep: Seq<char>) -> Seq<char> {
    let sp = spans_spec(pattern, text);
    if sp.len() == 0 {
        text
    } else {
        text.subrange(0, sp[0].0) + rep + text.subrange(sp[0].1, text.len() as int)
    }
}

fn push_range(out: &mut Vec<char>, v: &Vec<char>, lo: usize, hi: usize)
    requires
        lo <= hi <= v.len(),
    ensures
        final(out)@ == old(out)@ + v@.subrange(lo as int, hi as int),
{
    let mut i = lo;
    while i < hi
        invariant
            lo <= i <= hi <= v.len(),
            out@ == old(out)@ + v@.subrange(lo as int, i as int),
        decreases hi - i,
    {
        out.push(v[i]);
        proof {
            assert(v@.subrange(lo as int, i + 1) == v@.subrange(lo as int, i as int).push(v@[i as int]));
        }
        i += 1;
    }
}

/// `text` with every match of `pattern` replaced by `rep` (taken literally).
pub fn replace_all(pattern: &str, text: &str, rep: &str) -> (r: String)
    ensures
        r@ == replace_all_spec(pattern@, text@, rep@),
{
    let sp = find_spans(pattern, text);
    let t = to_chars(text);
    let rp = to_chars(rep);
    let ghost all = spans_view(sp@);
    let mut out: Vec<char> = Vec::new();
    let mut pos: usize = 0;
    let mut k: usize = 0;
    proof {
        assert(all.skip(0) == all);
        assert(out@ + splice_from(t@, all, rp@, 0) == splice_from(t@, all, rp@, 0));
    }
    while k < sp.len()
        invariant
            k <= sp.len(),
            t@ == text@,
            rp@ == rep@,
            all == spans_view(sp@),
            spans_ok(sp@, t@.len() as int),
            pos <= t@.len(),
            k > 0 ==> pos == sp@[k - 1].1,
            k == 0 ==> pos == 0,
            out@ + splice_from(t@, all.skip(k as int), rp@, pos as int) == splice_from(t@, all, rp@, 0),
        decreases sp.len() - k,
    {
        let (a, b) = sp[k];
        proof {
            if k > 0 {
                assert(sp@[k - 1].1 <= sp@[k as int].0);
            }
            assert(all.skip(k as int)[0] == (a as int, b as int));
            assert(all.skip(k as int).drop_first() == all.skip(k + 1));
        }
        push_range(&mut out, &t, pos, a);
        push_range(&mut out, &rp, 0, rp.len());
        proof {
            assert(rp@.subrange(0, rp@.len() as int) == rp@);
        }
        pos = b;
        k += 1;
    }
    push_range(&mut out, &t, pos, t.len());
    proof {
        assert(all.skip(k as int).len() == 0);
        assert(all.skip(0) == all);
    }
    from_chars(&out)
}

/// `text` with the first match of `pattern` replaced by `rep` (taken literally).
pub fn replace_first(pattern: &str, text: &str, rep: &str) -> (r: String)
    ensures
        r@ == replace_first_spec(pattern@, text@, rep@),
{
    let sp = find_spans(pattern, text);
    let t = to_chars(text);
    if sp.len() == 0 {
        return from_chars(&t);
    }
    let (a, b) = sp[0];
    let rp = to_chars(rep);
    let mut out: Vec<char> = Vec::new();
    push_range(&mut out, &t, 0, a);
    push_range(&mut out, &rp, 0, rp.len());
    push_range(&mut out, &t, b, t.len());
    proof {
        assert(rp@.subrange(0, rp@.len() as int) == rp@);
        assert(spans_view(sp@)[0] == (a as int, b as int));
    }
    from_chars(&out)
}

/// Span of the first match of `pattern` in `text`, if any.
pub fn find_first(pattern: &str, text: &str) -> (r: Option<(usize, usize)>)
    ensures
        match r {
            Some(p) => spans_spec(pattern@, text@).len() > 0
                && spans_spec(pattern@, text@)[0] == (p.0 as int, p.1 as int)
                && p.0 <= p.1 <= text@.len(),
            None => spans_spec(pattern@, text@).len() == 0,
        },
{
    let sp = find_spans(pattern, text);
    if sp.len() == 0 {
        None
    } else {
        proof {
            assert(spans_view(sp@)[0] == (sp@[0].0 as int, sp@[0].1 as int));
        }
        Some(sp[0])
    }
}

/// Text of capture group `g` in the first match of `pattern` in `text`, when the
/// group participates.
pub open spec fn first_group_spec(pattern: Seq<char>, text: Seq<char>, g: int) -> Option<Seq<char>> {
    let cs = regex_captures_iter(pattern, text);
    if cs.len() > 0 && 0 <= g < cs[0].len() && cs[0][g] is Some {
        Some((cs[0][g]->0).1)
    } else {
        None
    }
}

pub fn first_group(pattern: &str, text: &str, g: usize) -> (r: Option<String>)
    ensures
        match r {
            Some(s) => first_group_spec(pattern@, text@, g as int) == Some(s@),
            None => first_group_spec(pattern@, text@, g as int) is None,
        },
{
    let cs = captures_iter(pattern, text);
    proof {
        assert(cs@.map_values(|c: Vec<Option<(String, String)>>| groups_view(c)).len() == cs@.len());
    }
    if cs.len() == 0 {
        return None;
    }
    proof {
        assert(regex_captures_iter(pattern@, text@)[0] == groups_view(cs@[0]));
    }
    if g >= cs[0].len() {
        return None;
    }
    match &cs[0][g] {
        Some(m) => {
            proof {
                assert(groups_view(cs@[0])[g as int] == group_view(cs@[0]@[g as int]));
            }
            Some(crate::text::owned(m.1.as_str()))
        },
        None => {
            proof {
                assert(groups_view(cs@[0])[g as int] == group_view(cs@[0]@[g as int]));
            }
            None
        },
    }
}


/// A regular-expression meta character: `\ . + * ? ( ) | [ ] { } ^ $ # & - ~`.
pub open spec fn is_meta_char(c: char) -> bool {
    c == '\\' || c == '.' || c == '+' || c == '*' || c == '?' || c == '(' || c == ')' || c == '|'
        || c == '[' || c == ']' || c == '{' || c == '}' || c == '^' || c == '$' || c == '#' || c == '&'
        || c == '-' || c == '~'
}

/// `s` with a backslash before every meta character.
pub open spec fn escape_spec(s: Seq<char>) -> Seq<char>
    decreases s.len(),
{
    if s.len() == 0 {
        seq![]
    } else if is_meta_char(s.last()) {
        escape_spec(s.drop_last()).push('\\').push(s.last())
    } else {
        escape_spec(s.drop_last()).push(s.last())
    }
}

fn is_meta_char_exec(c: char) -> (r: bool)
    ensures
        r == is_meta_char(c),
{
    c == '\\' || c == '.' || c == '+' || c == '*' || c == '?' || c == '(' || c == ')' || c == '|'
        || c == '[' || c == ']' || c == '{' || c == '}' || c == '^' || c == '$' || c == '#' || c == '&'
        || c == '-' || c == '~'
}

/// What `regex::escape` does: a backslash before each meta character (the
/// crate's `is_meta_character` set), every other character copied.
pub(crate) fn escape(s: &str) -> (r: String)
    ensures
        r@ == escape_spec(s@),
{
    let v = crate::text::to_chars(s);
    let mut out = String::new();
    let mut i: usize = 0;
    while i < v.len()
        invariant
            i <= v.len(),
            v@ == s@,
            out@ == escape_spec(v@.take(i as int)),
        decreases v.len() - i,
    {
        let c = v[i];
        proof {
            assert(v@.take(i + 1).drop_last() == v@.take(i as int));
            assert(v@.take(i + 1).last() == c);
        }
        if is_meta_char_exec(c) {
            crate::text::string_push_pub(&mut out, '\\');
        }
        crate::text::string_push_pub(&mut out, c);
        i += 1;
    }
    proof {
        assert(v@.take(v@.len() as int) == v@);
    }
    out
}

} // verus!
