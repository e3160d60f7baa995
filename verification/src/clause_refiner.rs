//! Modal-window clause extraction: a clean "who must do what" clause around the
//! last modal verb of a raw pattern capture: the subject before the modal, the
//! modal, and the action after it up to the end of the sentence.
//!
//! Positions are counted in characters.

use vstd::prelude::*;
use crate::amendment::{last_index_of, lemma_last_index_of};
use crate::rx::{captures_iter, find_iter, find_spans, regex_captures_iter, regex_find_iter, spans_spec, MatchPieces};
use crate::text::{find_from, from_chars, from_range, is_ws, is_ws_exec, occurs_at, owned, to_chars, trim, trim_end, trim_start, trim_str};

verus! {

pub const MODAL_RE: &'static str = r"(?i)\b(shall|must|may(?:\s+(?:not|only))?)\b";
pub const SENTENCE_END_RE: &'static str = r"[.;]|\n\n";
/// A sentence boundary: period or semicolon, whitespace, then an uppercase letter
/// (captured, as the regex engine has no lookahead).
pub const SENTENCE_START_RE: &'static str = r"[.;]\s+([A-Z])";

// ── Modal detection ──────────────────────────────────────────────────

/// The last modal-verb match: (start, length, text).
pub open spec fn last_modal_spec(text: Seq<char>) -> Option<(int, int, Seq<char>)> {
    let ms = regex_find_iter(MODAL_RE@, text);
    if ms.len() == 0 {
        None
    } else {
        let m = ms.last();
        Some((m.0.len() as int, m.1.len() as int, m.1))
    }
}

/// The last modal verb in `text`: (start, length, matched text), in characters.
pub fn find_last_modal(text: &str) -> (r: Option<(usize, usize, String)>)
    ensures
        match r {
            Some(t) => last_modal_spec(text@) == Some((t.0 as int, t.1 as int, t.2@))
                && t.0 + t.1 <= text@.len(),
            None => last_modal_spec(text@) is None,
        },
{
    let ms = find_iter(MODAL_RE, text);
    let tc = to_chars(text);
    proof {
        assert(ms@.map_values(|m: (String, String)| crate::rx::pieces_view(m)).len() == ms@.len());
    }
    if ms.len() == 0 {
        return None;
    }
    let k = ms.len() - 1;
    let pre = to_chars(ms[k].0.as_str());
    let mat = to_chars(ms[k].1.as_str());
    proof {
        let g = regex_find_iter(MODAL_RE@, text@);
        assert(g[k as int] == crate::rx::pieces_view(ms@[k as int]));
        assert(crate::rx::lies_in(g[k as int], text@));
        assert((pre@ + mat@).len() <= tc@.len());
    }
    Some((pre.len(), mat.len(), owned(ms[k].1.as_str())))
}

// ── Subject extraction ───────────────────────────────────────────────

/// `s` without leading commas, semicolons, colons and whitespace.
pub open spec fn strip_leading_punct(s: Seq<char>) -> Seq<char>
    decreases s.len(),
{
    if s.len() > 0 && (s[0] == ',' || s[0] == ';' || s[0] == ':' || is_ws(s[0])) {
        strip_leading_punct(s.drop_first())
    } else {
        s
    }
}

fn clean_leading(text: &str) -> (r: String)
    ensures
        r@ == strip_leading_punct(text@),
{
    let v = to_chars(text);
    let mut i: usize = 0;
    proof {
        assert(v@.subrange(0, v@.len() as int) == v@);
    }
    while i < v.len() && (v[i] == ',' || v[i] == ';' || v[i] == ':' || is_ws_exec(v[i]))
        invariant
            i <= v.len(),
            v@ == text@,
            strip_leading_punct(v@) == strip_leading_punct(v@.subrange(i as int, v@.len() as int)),
        decreases v.len() - i,
    {
        proof {
            assert(v@.subrange(i as int, v@.len() as int).drop_first() == v@.subrange(i + 1, v@.len() as int));
        }
        i += 1;
    }
    from_range(&v, i, v.len())
}

/// Start of group 1 in the last sentence-boundary match.
pub open spec fn last_sentence_start(before: Seq<char>) -> Option<int> {
    let cs = regex_captures_iter(SENTENCE_START_RE@, before);
    last_group1_start(cs)
}

pub open spec fn last_group1_start(cs: Seq<Seq<Option<MatchPieces>>>) -> Option<int>
    decreases cs.len(),
{
    if cs.len() == 0 {
        None
    } else {
        let c = cs.last();
        if c.len() > 1 && c[1] is Some {
            Some((c[1]->0).0.len() as int)
        } else {
            last_group1_start(cs.drop_last())
        }
    }
}

pub open spec fn is_ascii_upper(c: char) -> bool {
    'A' <= c && c <= 'Z'
}

/// The subject before the modal: from the last sentence start, else the text
/// before the modal (without leading punctuation unless it starts uppercase).
pub open spec fn subject_spec(text: Seq<char>, modal_start: int) -> Seq<char> {
    let before = text.subrange(0, modal_start);
    match last_sentence_start(before) {
        Some(pos) => trim_start(before.subrange(pos, before.len() as int)),
        None => {
            let t = trim_start(before);
            if t.len() > 0 && is_ascii_upper(t[0]) {
                t
            } else {
                strip_leading_punct(t)
            }
        },
    }
}

fn trim_start_str(s: &str) -> (r: String)
    ensures
        r@ == trim_start(s@),
{
    let v = to_chars(s);
    let a = crate::text::skip_ws_forward(&v, 0, v.len());
    proof {
        assert(v@.subrange(0, v@.len() as int) == v@);
    }
    from_range(&v, a, v.len())
}

/// The subject (actor phrase) before the modal verb at `modal_start`.
pub fn extract_subject(text: &str, modal_start: usize) -> (r: String)
    requires
        modal_start <= text@.len(),
    ensures
        r@ == subject_spec(text@, modal_start as int),
{
    let v = to_chars(text);
    let before = from_range(&v, 0, modal_start);
    let bs = before.as_str();
    let cs = captures_iter(SENTENCE_START_RE, bs);
    proof {
        assert(bs@ == before@);
        assert(forall|i: int, g: int| 0 <= i < cs@.len() && 0 <= g < cs@[i]@.len() && (#[trigger] cs@[i]@[g]) is Some
            ==> crate::rx::lies_in(crate::rx::pieces_view(cs@[i]@[g]->0), before@));
    }
    let ghost g = regex_captures_iter(SENTENCE_START_RE@, before@);
    proof {
        assert(cs@.map_values(|c: Vec<Option<(String, String)>>| crate::rx::groups_view(c)).len() == cs@.len());
    }
    let bl = to_chars(before.as_str());
    let mut k = cs.len();
    let mut found: Option<usize> = None;
    proof {
        assert(g.take(g.len() as int) == g);
    }
    while k > 0 && found.is_none()
        invariant
            k <= cs@.len(),
            bl@ == before@,
            g == regex_captures_iter(SENTENCE_START_RE@, before@),
            g == cs@.map_values(|c: Vec<Option<(String, String)>>| crate::rx::groups_view(c)),
            found is None ==> last_group1_start(g) == last_group1_start(g.take(k as int)),
            found matches Some(p) ==> last_group1_start(g) == Some(p as int) && p <= before@.len(),
            forall|i: int, g: int| 0 <= i < cs@.len() && 0 <= g < cs@[i]@.len() && (#[trigger] cs@[i]@[g]) is Some
                ==> crate::rx::lies_in(crate::rx::pieces_view(cs@[i]@[g]->0), before@),
        decreases k,
    {
        proof {
            assert(g.take(k as int).drop_last() == g.take(k - 1));
            assert(g.take(k as int).last() == g[k - 1]);
            assert(g[k - 1] == crate::rx::groups_view(cs@[k - 1]));
        }
        if cs[k - 1].len() > 1 {
            proof {
                assert(g[k - 1][1] == crate::rx::group_view(cs@[k - 1]@[1]));
            }
            match &cs[k - 1][1] {
                Some(m) => {
                    let p = to_chars(m.0.as_str());
                    proof {
                        let ii = k - 1;
                        assert(0 <= ii < cs@.len());
                        assert(1 < cs@[ii]@.len());
                        assert(cs@[ii]@[1] is Some);
                        assert(crate::rx::lies_in(crate::rx::pieces_view(cs@[ii]@[1]->0), before@));
                        assert(cs@[ii]@[1]->0 == *m);
                        assert(p@.len() <= bl@.len());
                    }
                    found = Some(p.len());
                },
                None => {},
            }
        }
        k -= 1;
    }
    let bv = to_chars(before.as_str());
    match found {
        Some(pos) => {
            let rest = from_range(&bv, pos, bv.len());
            trim_start_str(rest.as_str())
        },
        None => {
            proof {
                assert(g.take(0).len() == 0);
            }
            let t = trim_start_str(before.as_str());
            let tv = to_chars(t.as_str());
            if tv.len() > 0 && 'A' <= tv[0] && tv[0] <= 'Z' {
                t
            } else {
                clean_leading(t.as_str())
            }
        },
    }
}

// ── Action extraction ────────────────────────────────────────────────

/// `text` up to its last whitespace, trimmed; the trimmed text when it has none.
pub open spec fn truncate_at_word_spec(text: Seq<char>) -> Seq<char> {
    let t = trim_end(text);
    match last_ws(t) {
        Some(p) => trim_end(t.subrange(0, p)),
        None => t,
    }
}

pub open spec fn last_ws(s: Seq<char>) -> Option<int>
    decreases s.len(),
{
    if s.len() == 0 {
        None
    } else if is_ws(s.last()) {
        Some(s.len() - 1)
    } else {
        last_ws(s.drop_last())
    }
}

fn truncate_at_word(text: &str) -> (r: String)
    ensures
        r@ == truncate_at_word_spec(text@),
{
    let v = to_chars(text);
    let e = crate::text::skip_ws_backward(&v, 0, v.len());
    proof {
        assert(v@.subrange(0, v@.len() as int) == v@);
    }
    let mut k = e;
    while k > 0 && !is_ws_exec(v[k - 1])
        invariant
            k <= e <= v.len(),
            last_ws(v@.subrange(0, e as int)) == last_ws(v@.subrange(0, k as int)),
        decreases k,
    {
        proof {
            assert(v@.subrange(0, k as int).drop_last() == v@.subrange(0, k - 1));
        }
        k -= 1;
    }
    if k == 0 {
        from_range(&v, 0, e)
    } else {
        proof {
            assert(v@.subrange(0, k as int).last() == v@[k - 1]);
            assert(v@.subrange(0, e as int).subrange(0, k - 1) == v@.subrange(0, k - 1));
        }
        let b = crate::text::skip_ws_backward(&v, 0, k - 1);
        from_range(&v, 0, b)
    }
}

/// A `;` (or paragraph break) is no sentence end when a sub-paragraph marker
/// follows: "(", or "and (" / "or (".
pub open spec fn continues_list(rest: Seq<char>) -> bool {
    let t = trim_start(rest);
    ||| (t.len() > 0 && t[0] == '(')
    ||| ((("and "@).is_prefix_of(t) || ("or "@).is_prefix_of(t))
        && trim_start(t.subrange(3, t.len() as int)).len() > 0
        && trim_start(t.subrange(3, t.len() as int))[0] == '(')
}

/// The text up to and including the first real sentence end after its first
/// character, scanning the sentence-end matches from index `k`.
pub open spec fn sentence_end_from(text: Seq<char>, sp: Seq<(int, int)>, k: int) -> Option<Seq<char>>
    decreases sp.len() - k,
{
    if k < 0 || k >= sp.len() {
        None
    } else {
        let s = sp[k].0;
        if s == 0 || s >= text.len() {
            sentence_end_from(text, sp, k + 1)
        } else if text[s] == '.' {
            Some(text.subrange(0, s + 1))
        } else if continues_list(text.subrange(s + 1, text.len() as int)) {
            sentence_end_from(text, sp, k + 1)
        } else {
            Some(text.subrange(0, s + 1))
        }
    }
}

#[verifier::opaque]
pub open spec fn to_sentence_end_spec(text: Seq<char>) -> Seq<char> {
    match sentence_end_from(text, spans_spec(SENTENCE_END_RE@, text), 0) {
        Some(t) => t,
        None => truncate_at_word_spec(text),
    }
}

fn continues_list_exec(v: &Vec<char>, from: usize) -> (r: bool)
    requires
        from <= v.len(),
    ensures
        r == continues_list(v@.subrange(from as int, v@.len() as int)),
{
    let a = crate::text::skip_ws_forward(v, from, v.len());
    if a < v.len() && v[a] == '(' {
        return true;
    }
    let t = from_range(v, a, v.len());
    let is_and = crate::text::starts_with_str(t.as_str(), "and ");
    let is_or = crate::text::starts_with_str(t.as_str(), "or ");
    if is_and || is_or {
        proof {
            reveal_strlit("and ");
            reveal_strlit("or ");
            assert(3 <= v@.subrange(a as int, v@.len() as int).len());
            assert(v@.subrange(a as int, v@.len() as int).subrange(3, (v@.len() - a) as int) == v@.subrange(a + 3, v@.len() as int));
        }
        let b = crate::text::skip_ws_forward(v, a + 3, v.len());
        b < v.len() && v[b] == '('
    } else {
        false
    }
}

fn extract_to_sentence_end(text: &str) -> (r: String)
    ensures
        r@ == to_sentence_end_spec(text@),
{
    let sp = find_spans(SENTENCE_END_RE, text);
    let v = to_chars(text);
    let ghost all = crate::rx::spans_view(sp@);
    let mut k: usize = 0;
    while k < sp.len()
        invariant
            k <= sp.len(),
            v@ == text@,
            all == crate::rx::spans_view(sp@),
            all == spans_spec(SENTENCE_END_RE@, text@),
            crate::rx::spans_ok(sp@, text@.len() as int),
            sentence_end_from(text@, all, 0) == sentence_end_from(text@, all, k as int),
        decreases sp.len() - k,
    {
        let (s, e) = sp[k];
        proof {
            assert(all[k as int] == (s as int, e as int));
        }
        if s != 0 && s < v.len() {
            if v[s] == '.' {
                proof {
                    reveal(to_sentence_end_spec);
                }
                return from_range(&v, 0, s + 1);
            }
            if !continues_list_exec(&v, s + 1) {
                proof {
                    reveal(to_sentence_end_spec);
                }
                return from_range(&v, 0, s + 1);
            }
        }
        k += 1;
    }
    proof {
        reveal(to_sentence_end_spec);
    }
    truncate_at_word(text)
}

/// The action after the modal in the raw clause, or from the section text when
/// nothing follows the modal in the clause.
pub open spec fn action_spec(raw: Seq<char>, modal_end: int, section: Option<Seq<char>>) -> Seq<char> {
    let after = raw.subrange(modal_end, raw.len() as int);
    if trim(after).len() == 0 {
        match section {
            Some(s) => action_from_section_spec(raw, s),
            None => seq![],
        }
    } else {
        to_sentence_end_spec(after)
    }
}

pub open spec fn clamp_sub(a: int, b: int) -> int {
    if a >= b { a - b } else { 0 }
}

pub open spec fn clamp_min(a: int, b: int) -> int {
    if a <= b { a } else { b }
}

/// First index at or after `from` where `needle` occurs in `hay`.
#[verifier::opaque]
pub open spec fn first_occurrence(hay: Seq<char>, needle: Seq<char>, from: int) -> Option<int> {
    if exists|i: int| from <= i && occurs_at(hay, needle, i) {
        Some(choose|i: int| from <= i && occurs_at(hay, needle, i)
            && forall|j: int| from <= j < i ==> !occurs_at(hay, needle, j))
    } else {
        None
    }
}

/// The window of up to 40 characters before to 60 after the last modal of the
/// raw clause, located in the section text; the action follows the modal there.
pub open spec fn action_from_section_spec(raw: Seq<char>, section: Seq<char>) -> Seq<char> {
    match last_modal_spec(raw) {
        Some((ms, _ml, mt)) => {
            let ctx = raw.subrange(clamp_sub(ms, 40), clamp_min(ms + 60, raw.len() as int));
            match first_occurrence(section, ctx, 0) {
                Some(pos) => {
                    let sc = section.subrange(pos, section.len() as int);
                    match first_occurrence(sc, mt, 0) {
                        Some(mp) => to_sentence_end_spec(sc.subrange(mp + mt.len(), sc.len() as int)),
                        None => seq![],
                    }
                },
                None => seq![],
            }
        },
        None => seq![],
    }
}

fn find_at(hay: &Vec<char>, needle: &Vec<char>) -> (r: Option<usize>)
    ensures
        match r {
            Some(i) => first_occurrence(hay@, needle@, 0) == Some(i as int) && occurs_at(hay@, needle@, i as int),
            None => first_occurrence(hay@, needle@, 0) is None,
        },
{
    let r = find_from(hay, needle, 0);
    proof {
        reveal(first_occurrence);
        match r {
            Some(i) => {
                let c = choose|c: int| 0 <= c && occurs_at(hay@, needle@, c)
                    && forall|j: int| 0 <= j < c ==> !occurs_at(hay@, needle@, j);
                assert(0 <= i && occurs_at(hay@, needle@, i as int));
                if c < i {
                } else if c > i {
                }
                assert(c == i);
            },
            None => {},
        }
    }
    r
}

/// Snap a character offset down into the text (characters are always whole).
fn snap_down(len: usize, offset: usize) -> (r: usize)
    ensures
        r == clamp_min(offset as int, len as int),
{
    if offset <= len { offset } else { len }
}

/// Snap a character offset up into the text (characters are always whole).
fn snap_up(len: usize, offset: usize) -> (r: usize)
    ensures
        r == clamp_min(offset as int, len as int),
{
    if offset <= len { offset } else { len }
}

/// The context window around the modal at `ms`: 40 characters before to 60 after.
fn context_window(rv: &Vec<char>, ms: usize) -> (r: String)
    requires
        ms <= rv.len(),
    ensures
        r@ == rv@.subrange(clamp_sub(ms as int, 40), clamp_min(ms + 60, rv@.len() as int)),
{
    let lo = if ms >= 40 { ms - 40 } else { 0 };
    let ctx_start = snap_down(rv.len(), lo);
    let hi = if rv.len() - ms >= 60 { ms + 60 } else { rv.len() };
    let ctx_end = snap_up(rv.len(), hi);
    from_range(rv, ctx_start, ctx_end)
}

/// The action following `mt` in `sc`.
fn action_in(sc: &str, mt: &str) -> (r: String)
    ensures
        r@ == match first_occurrence(sc@, mt@, 0) {
            Some(mp) => to_sentence_end_spec(sc@.subrange(mp + mt@.len(), sc@.len() as int)),
            None => seq![],
        },
{
    let scv = to_chars(sc);
    let mv = to_chars(mt);
    match find_at(&scv, &mv) {
        Some(mp) => {
            proof {
                assert(occurs_at(scv@, mv@, mp as int));
                assert(mp + mv@.len() <= scv@.len());
            }
            let ml = mv.len();
            let sl = scv.len();
            if mp > sl || ml > sl - mp {
                proof {
                    assert(false);
                }
                return String::new();
            }
            let tail = from_range(&scv, mp + ml, sl);
            extract_to_sentence_end(tail.as_str())
        },
        None => String::new(),
    }
}

/// The action following `mt` in the section text from the context's position.
fn action_after(section_text: &str, ctx: &str, mt: &str) -> (r: String)
    ensures
        r@ == match first_occurrence(section_text@, ctx@, 0) {
            Some(pos) => {
                let sc = section_text@.subrange(pos, section_text@.len() as int);
                match first_occurrence(sc, mt@, 0) {
                    Some(mp) => to_sentence_end_spec(sc.subrange(mp + mt@.len(), sc.len() as int)),
                    None => seq![],
                }
            },
            None => seq![],
        },
{
    let sv = to_chars(section_text);
    let cv = to_chars(ctx);
    match find_at(&sv, &cv) {
        Some(pos) => {
            proof {
                assert(occurs_at(sv@, cv@, pos as int));
            }
            let sc = from_range(&sv, pos, sv.len());
            action_in(sc.as_str(), mt)
        },
        None => String::new(),
    }
}

fn extract_action_from_section(raw_clause: &str, section_text: &str) -> (r: String)
    ensures
        r@ == action_from_section_spec(raw_clause@, section_text@),
{
    let (ms, _ml, mt) = match find_last_modal(raw_clause) {
        Some(t) => t,
        None => return String::new(),
    };
    let rv = to_chars(raw_clause);
    let ctx = context_window(&rv, ms);
    action_after(section_text, ctx.as_str(), mt.as_str())
}

fn extract_action(raw_clause: &str, modal_end: usize, section_text: Option<&str>) -> (r: String)
    requires
        modal_end <= raw_clause@.len(),
    ensures
        r@ == action_spec(raw_clause@, modal_end as int, match section_text {
            Some(s) => Some(s@),
            None => None,
        }),
{
    let v = to_chars(raw_clause);
    let after = from_range(&v, modal_end, v.len());
    let t = trim_str(after.as_str());
    if t.as_str().is_empty() {
        match section_text {
            Some(section) => extract_action_from_section(raw_clause, section),
            None => String::new(),
        }
    } else {
        extract_to_sentence_end(after.as_str())
    }
}

// ── Clause combination ───────────────────────────────────────────────

/// Runs of spaces collapsed to one space.
pub open spec fn collapse_spaces(s: Seq<char>) -> Seq<char>
    decreases s.len(),
{
    if s.len() == 0 {
        seq![]
    } else {
        let p = collapse_spaces(s.drop_last());
        if s.last() == ' ' && p.len() > 0 && p.last() == ' ' {
            p
        } else {
            p.push(s.last())
        }
    }
}

/// The non-empty trimmed parts joined by single spaces.
pub open spec fn join_parts(parts: Seq<Seq<char>>) -> Seq<char>
    decreases parts.len(),
{
    if parts.len() == 0 {
        seq![]
    } else {
        let p = join_parts(parts.drop_last());
        let x = parts.last();
        if x.len() == 0 {
            p
        } else if p.len() == 0 {
            x
        } else {
            p + seq![' '] + x
        }
    }
}

pub open spec fn combine_spec(subject: Seq<char>, modal: Seq<char>, action: Seq<char>) -> Seq<char> {
    collapse_spaces(join_parts(seq![trim(subject), trim(modal), trim(action)]))
}

fn combine_clause(subject: &str, modal: &str, action: &str) -> (r: String)
    ensures
        r@ == combine_spec(subject@, modal@, action@),
{
    let a = to_chars(trim_str(subject).as_str());
    let b = to_chars(trim_str(modal).as_str());
    let c = to_chars(trim_str(action).as_str());
    let mut joined: Vec<char> = Vec::new();
    let ghost parts = seq![a@, b@, c@];
    proof {
        assert(parts.take(0).len() == 0);
    }
    let mut pi: usize = 0;
    while pi < 3
        invariant
            pi <= 3,
            parts == seq![a@, b@, c@],
            joined@ == join_parts(parts.take(pi as int)),
        decreases 3 - pi,
    {
        let x = if pi == 0 { &a } else if pi == 1 { &b } else { &c };
        proof {
            assert(parts.take(pi + 1).drop_last() == parts.take(pi as int));
            assert(parts.take(pi + 1).last() == x@);
        }
        if x.len() > 0 {
            if joined.len() > 0 {
                joined.push(' ');
            }
            let mut i: usize = 0;
            let ghost base = joined@;
            while i < x.len()
                invariant
                    i <= x.len(),
                    joined@ == base + x@.take(i as int),
                decreases x.len() - i,
            {
                joined.push(x[i]);
                proof {
                    assert(x@.take(i + 1) == x@.take(i as int).push(x@[i as int]));
                }
                i += 1;
            }
            proof {
                assert(x@.take(x@.len() as int) == x@);
            }
        }
        pi += 1;
    }
    let mut out: Vec<char> = Vec::new();
    let mut i: usize = 0;
    while i < joined.len()
        invariant
            i <= joined.len(),
            out@ == collapse_spaces(joined@.take(i as int)),
        decreases joined.len() - i,
    {
        proof {
            assert(joined@.take(i + 1).drop_last() == joined@.take(i as int));
            assert(joined@.take(i + 1).last() == joined@[i as int]);
        }
        let ch = joined[i];
        if !(ch == ' ' && out.len() > 0 && out[out.len() - 1] == ' ') {
            out.push(ch);
        }
        i += 1;
    }
    proof {
        assert(joined@.take(joined@.len() as int) == joined@);
        assert(parts.take(3) == parts);
    }
    from_chars(&out)
}

// ── Public API ───────────────────────────────────────────────────────

pub open spec fn opt_str_view(o: Option<&str>) -> Option<Seq<char>> {
    match o {
        Some(s) => Some(s@),
        None => None,
    }
}

/// The refined clause of a raw capture.
/// The most characters a refined clause has.
pub const MAX_CLAUSE_CHARS: usize = 300;

/// Index of the first whitespace character of `s` at or after `i`, or
/// `s.len()`.
pub open spec fn first_ws_from(s: Seq<char>, i: int) -> int
    decreases s.len() - i,
{
    if i >= s.len() {
        s.len() as int
    } else if is_ws(s[i]) {
        i
    } else {
        first_ws_from(s, i + 1)
    }
}

/// A clause cut to at most [`MAX_CLAUSE_CHARS`] characters.  A longer one
/// keeps its end (where the modal verb and the action are): its last
/// [`MAX_CLAUSE_CHARS`] characters, from the first whole word on.
pub open spec fn cap_clause_spec(c: Seq<char>) -> Seq<char> {
    if c.len() <= MAX_CLAUSE_CHARS {
        c
    } else {
        let st = c.len() - MAX_CLAUSE_CHARS;
        let f = first_ws_from(c, st);
        let k = if is_ws(c[st - 1]) || f >= c.len() { st } else { f };
        trim_start(c.subrange(k, c.len() as int))
    }
}

proof fn lemma_first_ws_from(s: Seq<char>, i: int)
    requires
        0 <= i <= s.len(),
    ensures
        i <= first_ws_from(s, i) <= s.len(),
    decreases s.len() - i,
{
    if i < s.len() && !is_ws(s[i]) {
        lemma_first_ws_from(s, i + 1);
    }
}

proof fn lemma_trim_start_suffix(s: Seq<char>)
    ensures
        trim_start(s).len() <= s.len(),
        trim_start(s) == s.subrange(s.len() - trim_start(s).len(), s.len() as int),
    decreases s.len(),
{
    if s.len() > 0 && is_ws(s[0]) {
        lemma_trim_start_suffix(s.drop_first());
        assert(s.drop_first().subrange(s.drop_first().len() - trim_start(s).len(), s.drop_first().len() as int)
            == s.subrange(s.len() - trim_start(s).len(), s.len() as int));
    } else {
        assert(s.subrange(0, s.len() as int) == s);
    }
}

/// A capped clause has at most [`MAX_CLAUSE_CHARS`] characters and is a
/// suffix of the clause.
pub proof fn lemma_cap_clause(c: Seq<char>)
    ensures
        cap_clause_spec(c).len() <= MAX_CLAUSE_CHARS,
        cap_clause_spec(c).is_suffix_of(c),
{
    if c.len() > MAX_CLAUSE_CHARS {
        let st = c.len() - MAX_CLAUSE_CHARS;
        lemma_first_ws_from(c, st);
        let f = first_ws_from(c, st);
        let k = if is_ws(c[st - 1]) || f >= c.len() { st } else { f };
        let t = c.subrange(k, c.len() as int);
        lemma_trim_start_suffix(t);
        let r = trim_start(t);
        assert(r == c.subrange(c.len() - r.len(), c.len() as int));
    }
}

fn cap_clause(c: String) -> (r: String)
    ensures
        r@ == cap_clause_spec(c@),
{
    let v = to_chars(c.as_str());
    let n = v.len();
    if n <= MAX_CLAUSE_CHARS {
        return c;
    }
    let st = n - MAX_CLAUSE_CHARS;
    let mut f = st;
    while f < n && !is_ws_exec(v[f])
        invariant
            st <= f <= n,
            n == v@.len(),
            first_ws_from(v@, st as int) == first_ws_from(v@, f as int),
        decreases n - f,
    {
        f += 1;
    }
    let k = if is_ws_exec(v[st - 1]) || f >= n { st } else { f };
    let tail = from_range(&v, k, n);
    trim_start_str(tail.as_str())
}

/// The refined clause, capped at [`MAX_CLAUSE_CHARS`] characters.
pub open spec fn refine_spec(raw: Seq<char>, section: Option<Seq<char>>, captured: Option<Seq<char>>) -> Seq<char> {
    cap_clause_spec(uncapped_spec(raw, section, captured))
}

/// The refined clause before the length cap.
pub open spec fn uncapped_spec(raw: Seq<char>, section: Option<Seq<char>>, captured: Option<Seq<char>>) -> Seq<char> {
    if raw.len() == 0 {
        seq![]
    } else {
        match last_modal_spec(raw) {
            None => trim(raw),
            Some((ms, ml, mt)) => {
                let subject = subject_spec(raw, ms);
                let action = match captured {
                    Some(ca) => if ca.len() > 0 {
                        trim(ca)
                    } else {
                        action_spec(raw, ms + ml, section)
                    },
                    None => action_spec(raw, ms + ml, section),
                };
                combine_spec(subject, mt, action)
            },
        }
    }
}

/// Refine a raw clause capture into a focused clause: subject, last modal verb,
/// and action (the captured action when given and non-empty, else the text after
/// the modal up to the sentence end, or from the section text), at most
/// [`MAX_CLAUSE_CHARS`] characters long.
pub fn refine(raw_clause: &str, section_text: Option<&str>, captured_action: Option<&str>) -> (r: String)
    ensures
        r@ == refine_spec(raw_clause@, opt_str_view(section_text), opt_str_view(captured_action)),
        r@.len() <= MAX_CLAUSE_CHARS,
{
    let out = refine_uncapped(raw_clause, section_text, captured_action);
    proof {
        lemma_cap_clause(out@);
    }
    cap_clause(out)
}

fn refine_uncapped(raw_clause: &str, section_text: Option<&str>, captured_action: Option<&str>) -> (r: String)
    ensures
        r@ == uncapped_spec(raw_clause@, opt_str_view(section_text), opt_str_view(captured_action)),
{
    if raw_clause.is_empty() {
        return String::new();
    }
    match find_last_modal(raw_clause) {
        None => trim_str(raw_clause),
        Some((ms, ml, mt)) => {
            let rv = to_chars(raw_clause);
            proof {
                assert(ms + ml <= rv.len());
            }
            let subject = extract_subject(raw_clause, ms);
            let action = match captured_action {
                Some(ca) => if !ca.is_empty() {
                    trim_str(ca)
                } else {
                    extract_action(raw_clause, ms + ml, section_text)
                },
                None => extract_action(raw_clause, ms + ml, section_text),
            };
            combine_clause(subject.as_str(), mt.as_str(), action.as_str())
        },
    }
}

} // verus!
