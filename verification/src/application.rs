//! Law application: the nations where a law operates (as opposed to its
//! extent, the legal systems it forms part of).
//!
//! Derivation, first match wins: an application clause in the text ("These
//! Regulations apply to England"), nations named in a title parenthetical, the
//! devolved legislation type, then the extent (text clause, provision extents,
//! law extent).

use vstd::prelude::*;
use crate::applicability::strings_view;
use crate::order::str_views;
use crate::rx::{captures_iter, find_iter, groups_view, is_match, is_match_spec, mend, regex_captures_iter, regex_find_iter, MatchPieces, pieces_view};
use crate::text::{from_range, occurs_at, occurs_at_exec, string_push_pub, from_chars, owned, squash, squash_exec, str_eq, str_lowercase, str_uppercase, to_chars, to_lowercase, to_uppercase};

verus! {

pub const ENGLAND: &'static str = "england";
pub const WALES: &'static str = "wales";
pub const SCOTLAND: &'static str = "scotland";
pub const NORTHERN_IRELAND: &'static str = "northern_ireland";

/// Canonical nation order.
pub const NATIONS: [&'static str; 4] = [ENGLAND, WALES, SCOTLAND, NORTHERN_IRELAND];

/// Territorial codes that express jurisdiction; compiled trees carry them
/// only in the root application gate.
pub open spec fn jurisdiction_codes_spec() -> Seq<&'static str> {
    seq![ENGLAND, WALES, SCOTLAND, NORTHERN_IRELAND, "united_kingdom", "great_britain", "england_and_wales", "uk", "gb", "ni"]
}

pub fn jurisdiction_codes() -> (r: Vec<&'static str>)
    ensures
        r@ == jurisdiction_codes_spec(),
{
    vec![ENGLAND, WALES, SCOTLAND, NORTHERN_IRELAND, "united_kingdom", "great_britain", "england_and_wales", "uk", "gb", "ni"]
}

pub const APPLY_RE: &'static str = r#"(?i)\b(?:these\s+regulations|this\s+(?:act|order|measure|scheme|instrument)|these\s+(?:rules|byelaws))\b[^.;]{0,40}?\b(?:shall\s+|do\s+|does\s+)?(not\s+)?(?:only\s+)?appl(?:y|ies)[\s—–-]+(?:\([a-z]\)\s*)?(?:only\s+)?(?:in\s+relation\s+to|to|in)\s+((?:the\s+)?(?:united\s+kingdom|great\s+britain|england\s+and\s+wales|northern\s+ireland|england|wales|scotland)(?:\s*(?:,|and|or)\s*(?:the\s+)?(?:united\s+kingdom|great\s+britain|england\s+and\s+wales|northern\s+ireland|england|wales|scotland))*)"#;

pub const EXTEND_RE: &'static str = r#"(?i)\b(?:these\s+regulations|this\s+(?:act|order|measure|scheme|instrument)|these\s+(?:rules|byelaws))\b[^.;]{0,40}?\b(?:shall\s+|do\s+|does\s+)?(not\s+)?extends?[\s—–-]+(?:only\s+)?to\s+((?:the\s+)?(?:united\s+kingdom|great\s+britain|england\s+and\s+wales|northern\s+ireland|england|wales|scotland)(?:\s*(?:,|and|or)\s*(?:the\s+)?(?:united\s+kingdom|great\s+britain|england\s+and\s+wales|northern\s+ireland|england|wales|scotland))*)"#;

pub const TITLE_PAREN_RE: &'static str = r"\(([^()]*)\)";

pub const NATION_RE: &'static str = r"(?i)united\s+kingdom|great\s+britain|northern\s+ireland|england|wales|scotland";

pub const PARTIAL_SUBJECT_RE: &'static str = r"(?i)(?:\bof|\bto|\bonly\s+the\s+following\s+\w+|\bexcept|\bto\s+the\s+extent(?:\s+that)?|\bwhere|\bif|\bwhen|\bso\s+far\s+as|\binsofar\s+as)\s*$";

pub const DESCRIPTIVE_RE: &'static str = r"(?i)\bas\s+(?:it|they|that\s+\w+|those\s+\w+)\b|\bso\s+far\s+as\b|\bin\s*so\s+far\b|\binsofar\b";

pub const NOTHING_IN_RE: &'static str = r"(?i)\bnothing\s+in\s*$";

/// A set of the four nations; region lists are its members in canonical
/// order (England, Wales, Scotland, Northern Ireland).
#[derive(Debug, Clone, Copy, PartialEq, Eq, Structural)]
pub struct NationSet {
    pub england: bool,
    pub wales: bool,
    pub scotland: bool,
    pub northern_ireland: bool,
}

pub open spec fn no_nations() -> NationSet {
    NationSet { england: false, wales: false, scotland: false, northern_ireland: false }
}

pub open spec fn all_nations() -> NationSet {
    NationSet { england: true, wales: true, scotland: true, northern_ireland: true }
}

pub open spec fn is_empty_set(m: NationSet) -> bool {
    !m.england && !m.wales && !m.scotland && !m.northern_ireland
}

pub open spec fn union_set(a: NationSet, b: NationSet) -> NationSet {
    NationSet {
        england: a.england || b.england,
        wales: a.wales || b.wales,
        scotland: a.scotland || b.scotland,
        northern_ireland: a.northern_ireland || b.northern_ireland,
    }
}

pub open spec fn minus_set(a: NationSet, b: NationSet) -> NationSet {
    NationSet {
        england: a.england && !b.england,
        wales: a.wales && !b.wales,
        scotland: a.scotland && !b.scotland,
        northern_ireland: a.northern_ireland && !b.northern_ireland,
    }
}

/// The members, as nation codes in canonical order.
pub open spec fn regions_of(m: NationSet) -> Seq<Seq<char>> {
    (if m.england { seq![ENGLAND@] } else { seq![] })
        + (if m.wales { seq![WALES@] } else { seq![] })
        + (if m.scotland { seq![SCOTLAND@] } else { seq![] })
        + (if m.northern_ireland { seq![NORTHERN_IRELAND@] } else { seq![] })
}

impl NationSet {
    pub fn none() -> (r: NationSet)
        ensures
            r == no_nations(),
    {
        NationSet { england: false, wales: false, scotland: false, northern_ireland: false }
    }

    pub fn all() -> (r: NationSet)
        ensures
            r == all_nations(),
    {
        NationSet { england: true, wales: true, scotland: true, northern_ireland: true }
    }

    pub fn is_empty(&self) -> (r: bool)
        ensures
            r == is_empty_set(*self),
    {
        !self.england && !self.wales && !self.scotland && !self.northern_ireland
    }

    pub fn union(&self, other: &NationSet) -> (r: NationSet)
        ensures
            r == union_set(*self, *other),
    {
        NationSet {
            england: self.england || other.england,
            wales: self.wales || other.wales,
            scotland: self.scotland || other.scotland,
            northern_ireland: self.northern_ireland || other.northern_ireland,
        }
    }

    pub fn minus(&self, other: &NationSet) -> (r: NationSet)
        ensures
            r == minus_set(*self, *other),
    {
        NationSet {
            england: self.england && !other.england,
            wales: self.wales && !other.wales,
            scotland: self.scotland && !other.scotland,
            northern_ireland: self.northern_ireland && !other.northern_ireland,
        }
    }

    /// The members, as nation codes in canonical order.
    pub fn regions(&self) -> (r: Vec<String>)
        ensures
            strings_view(r) == regions_of(*self),
    {
        let mut r: Vec<String> = Vec::new();
        if self.england {
            r.push(owned(ENGLAND));
        }
        if self.wales {
            r.push(owned(WALES));
        }
        if self.scotland {
            r.push(owned(SCOTLAND));
        }
        if self.northern_ireland {
            r.push(owned(NORTHERN_IRELAND));
        }
        proof {
            assert(strings_view(r) =~= regions_of(*self));
        }
        r
    }
}

/// The nations a matched nation name adds.
pub open spec fn name_step(m: NationSet, key: Seq<char>) -> NationSet {
    if key == "united kingdom"@ {
        all_nations()
    } else if key == "great britain"@ {
        NationSet { england: true, wales: true, scotland: true, northern_ireland: m.northern_ireland }
    } else if key == "england"@ {
        NationSet { england: true, wales: m.wales, scotland: m.scotland, northern_ireland: m.northern_ireland }
    } else if key == "wales"@ {
        NationSet { england: m.england, wales: true, scotland: m.scotland, northern_ireland: m.northern_ireland }
    } else if key == "scotland"@ {
        NationSet { england: m.england, wales: m.wales, scotland: true, northern_ireland: m.northern_ireland }
    } else if key == "northern ireland"@ {
        NationSet { england: m.england, wales: m.wales, scotland: m.scotland, northern_ireland: true }
    } else {
        m
    }
}

pub open spec fn nations_fold(ms: Seq<MatchPieces>) -> NationSet
    decreases ms.len(),
{
    if ms.len() == 0 {
        no_nations()
    } else {
        name_step(nations_fold(ms.drop_last()), squash(str_lowercase(ms.last().1)))
    }
}

/// The nations named in a phrase.
pub open spec fn nations_in_spec(phrase: Seq<char>) -> NationSet {
    nations_fold(regex_find_iter(NATION_RE@, phrase))
}

fn nations_in_set(phrase: &str) -> (r: NationSet)
    ensures
        r == nations_in_spec(phrase@),
{
    let ms = find_iter(NATION_RE, phrase);
    let ghost mv = ms@.map_values(|m: (String, String)| pieces_view(m));
    let mut found = NationSet::none();
    let mut i: usize = 0;
    proof {
        assert(mv.take(0) =~= seq![]);
    }
    while i < ms.len()
        invariant
            i <= ms.len(),
            mv == ms@.map_values(|m: (String, String)| pieces_view(m)),
            mv == regex_find_iter(NATION_RE@, phrase@),
            found == nations_fold(mv.take(i as int)),
        decreases ms.len() - i,
    {
        proof {
            assert(mv.take(i + 1).drop_last() =~= mv.take(i as int));
            assert(mv.take(i + 1).last() == pieces_view(ms@[i as int]));
        }
        let lower = to_lowercase(ms[i].1.as_str());
        let kv = squash_exec(lower.as_str());
        let key = from_chars(&kv);
        let k = key.as_str();
        if str_eq(k, "united kingdom") {
            found = NationSet::all();
        } else if str_eq(k, "great britain") {
            found.england = true;
            found.wales = true;
            found.scotland = true;
        } else if str_eq(k, "england") {
            found.england = true;
        } else if str_eq(k, "wales") {
            found.wales = true;
        } else if str_eq(k, "scotland") {
            found.scotland = true;
        } else if str_eq(k, "northern ireland") {
            found.northern_ireland = true;
        }
        i += 1;
    }
    proof {
        assert(mv.take(ms.len() as int) =~= mv);
    }
    found
}

/// Nations named in a phrase ("England and Wales" gives england, wales), in canonical order.
pub fn nations_in(phrase: &str) -> (r: Vec<String>)
    ensures
        strings_view(r) == regions_of(nations_in_spec(phrase@)),
{
    nations_in_set(phrase).regions()
}

/// `s` without `.` and ` `.
pub open spec fn strip_dots_spaces(s: Seq<char>) -> Seq<char>
    decreases s.len(),
{
    if s.len() == 0 {
        seq![]
    } else if s.last() == '.' || s.last() == ' ' {
        strip_dots_spaces(s.drop_last())
    } else {
        strip_dots_spaces(s.drop_last()).push(s.last())
    }
}

/// The pieces of `s` split at `+` (empty pieces kept).
pub open spec fn plus_pieces(s: Seq<char>) -> Seq<Seq<char>>
    decreases s.len(),
{
    if s.len() == 0 {
        seq![seq![]]
    } else {
        let p = plus_pieces(s.drop_last());
        if s.last() == '+' {
            p.push(seq![])
        } else {
            p.update(p.len() - 1, p.last().push(s.last()))
        }
    }
}

proof fn lemma_plus_pieces_nonempty(s: Seq<char>)
    ensures
        plus_pieces(s).len() >= 1,
    decreases s.len(),
{
    if s.len() > 0 {
        lemma_plus_pieces_nonempty(s.drop_last());
    }
}

pub open spec fn extent_piece_step(m: NationSet, p: Seq<char>) -> NationSet {
    if p == "E"@ {
        NationSet { england: true, wales: m.wales, scotland: m.scotland, northern_ireland: m.northern_ireland }
    } else if p == "W"@ {
        NationSet { england: m.england, wales: true, scotland: m.scotland, northern_ireland: m.northern_ireland }
    } else if p == "S"@ {
        NationSet { england: m.england, wales: m.wales, scotland: true, northern_ireland: m.northern_ireland }
    } else if p == "NI"@ || p == "N"@ || crate::text::contains_seq(p, "NORTHERNIRELAND"@)
        || crate::text::contains_seq(p, "NOTHERNIRELAND"@) {
        NationSet { england: m.england, wales: m.wales, scotland: m.scotland, northern_ireland: true }
    } else {
        m
    }
}

pub open spec fn extent_pieces_fold(ps: Seq<Seq<char>>) -> NationSet
    decreases ps.len(),
{
    if ps.len() == 0 {
        no_nations()
    } else {
        extent_piece_step(extent_pieces_fold(ps.drop_last()), ps.last())
    }
}

/// Nations of an extent code ("E+W+S+NI", "E+W", "S", "NI", "UK", "GB" ...).
pub open spec fn extent_nations(code: Seq<char>) -> NationSet {
    let c = strip_dots_spaces(str_uppercase(code));
    if c == "UK"@ {
        all_nations()
    } else if c == "GB"@ {
        NationSet { england: true, wales: true, scotland: true, northern_ireland: false }
    } else {
        extent_pieces_fold(plus_pieces(c))
    }
}

fn extent_nations_exec(code: &str) -> (r: NationSet)
    ensures
        r == extent_nations(code@),
{
    let upper = to_uppercase(code);
    let uv = to_chars(upper.as_str());
    let mut cv: Vec<char> = Vec::new();
    let mut i: usize = 0;
    proof {
        assert(uv@.take(0) =~= seq![]);
    }
    while i < uv.len()
        invariant
            i <= uv.len(),
            cv@ == strip_dots_spaces(uv@.take(i as int)),
        decreases uv.len() - i,
    {
        proof {
            assert(uv@.take(i + 1).drop_last() =~= uv@.take(i as int));
        }
        if uv[i] != '.' && uv[i] != ' ' {
            cv.push(uv[i]);
        }
        i += 1;
    }
    proof {
        assert(uv@.take(uv.len() as int) =~= uv@);
    }
    let c = from_chars(&cv);
    if str_eq(c.as_str(), "UK") {
        return NationSet::all();
    }
    if str_eq(c.as_str(), "GB") {
        return NationSet { england: true, wales: true, scotland: true, northern_ireland: false };
    }
    let ghost ps = plus_pieces(cv@);
    let mut found = NationSet::none();
    let mut cur: Vec<char> = Vec::new();
    let mut k: usize = 0;
    proof {
        assert(cv@.take(0) =~= seq![]);
        assert(plus_pieces(cv@.take(0)) =~= seq![seq![]]);
    }
    while k < cv.len()
        invariant
            k <= cv.len(),
            plus_pieces(cv@.take(k as int)).len() >= 1,
            cur@ == plus_pieces(cv@.take(k as int)).last(),
            found == extent_pieces_fold(plus_pieces(cv@.take(k as int)).drop_last()),
        decreases cv.len() - k,
    {
        proof {
            assert(cv@.take(k + 1).drop_last() =~= cv@.take(k as int));
            lemma_plus_pieces_nonempty(cv@.take(k as int));
        }
        if cv[k] == '+' {
            proof {
                let p = plus_pieces(cv@.take(k as int));
                assert(plus_pieces(cv@.take(k + 1)).drop_last() =~= p);
                assert(p =~= p.drop_last().push(p.last()));
            }
            let piece = from_chars(&cur);
            found = piece_step_exec(found, piece.as_str());
            cur = Vec::new();
        } else {
            proof {
                let p = plus_pieces(cv@.take(k as int));
                assert(plus_pieces(cv@.take(k + 1)).drop_last() =~= p.drop_last());
            }
            cur.push(cv[k]);
        }
        k += 1;
    }
    proof {
        assert(cv@.take(cv.len() as int) =~= cv@);
        let p = plus_pieces(cv@);
        assert(p =~= p.drop_last().push(p.last()));
    }
    let piece = from_chars(&cur);
    piece_step_exec(found, piece.as_str())
}

fn piece_step_exec(m: NationSet, p: &str) -> (r: NationSet)
    ensures
        r == extent_piece_step(m, p@),
{
    let mut m = m;
    if str_eq(p, "E") {
        m.england = true;
    } else if str_eq(p, "W") {
        m.wales = true;
    } else if str_eq(p, "S") {
        m.scotland = true;
    } else if str_eq(p, "NI") || str_eq(p, "N") || crate::text::contains_str(p, "NORTHERNIRELAND")
        || crate::text::contains_str(p, "NOTHERNIRELAND") {
        m.northern_ireland = true;
    }
    m
}

/// Nations for an extent code, in canonical order.
pub fn nations_for_extent(code: &str) -> (r: Vec<String>)
    ensures
        strings_view(r) == regions_of(extent_nations(code@)),
{
    extent_nations_exec(code).regions()
}

/// Devolved legislation types and the nation they apply in.
pub open spec fn type_code_nations(t: Seq<char>) -> Option<NationSet> {
    if t == "wsi"@ || t == "anaw"@ || t == "asc"@ || t == "mwa"@ || t == "wlc"@ {
        Some(NationSet { england: false, wales: true, scotland: false, northern_ireland: false })
    } else if t == "ssi"@ || t == "asp"@ || t == "ssa"@ || t == "aosp"@ {
        Some(NationSet { england: false, wales: false, scotland: true, northern_ireland: false })
    } else if t == "nisr"@ || t == "nia"@ || t == "apni"@ || t == "nisi"@ || t == "nisro"@ || t == "aip"@ {
        Some(NationSet { england: false, wales: false, scotland: false, northern_ireland: true })
    } else {
        None
    }
}

fn type_code_regions(t: &str) -> (r: Option<NationSet>)
    ensures
        r == type_code_nations(t@),
{
    if str_eq(t, "wsi") || str_eq(t, "anaw") || str_eq(t, "asc") || str_eq(t, "mwa") || str_eq(t, "wlc") {
        Some(NationSet { england: false, wales: true, scotland: false, northern_ireland: false })
    } else if str_eq(t, "ssi") || str_eq(t, "asp") || str_eq(t, "ssa") || str_eq(t, "aosp") {
        Some(NationSet { england: false, wales: false, scotland: true, northern_ireland: false })
    } else if str_eq(t, "nisr") || str_eq(t, "nia") || str_eq(t, "apni") || str_eq(t, "nisi") || str_eq(t, "nisro")
        || str_eq(t, "aip") {
        Some(NationSet { england: false, wales: false, scotland: false, northern_ireland: true })
    } else {
        None
    }
}


// ---------------------------------------------------------------------------
// Clause scanning

/// First index at or after `from` where `needle` occurs in `hay`, or -1.
pub open spec fn first_occ(hay: Seq<char>, needle: Seq<char>, from: int) -> int
    decreases hay.len() + 1 - from,
{
    if from < 0 || from > hay.len() {
        -1
    } else if occurs_at(hay, needle, from) {
        from
    } else {
        first_occ(hay, needle, from + 1)
    }
}

proof fn lemma_first_occ_range(hay: Seq<char>, needle: Seq<char>, from: int)
    ensures
        first_occ(hay, needle, from) == -1 || (from <= first_occ(hay, needle, from) <= hay.len()
            && occurs_at(hay, needle, first_occ(hay, needle, from))),
    decreases hay.len() + 1 - from,
{
    if 0 <= from <= hay.len() && !occurs_at(hay, needle, from) {
        lemma_first_occ_range(hay, needle, from + 1);
    }
}

/// `first_occ` is -1 or an occurrence at or after `from`.
pub proof fn lemma_first_occ_range_pub(hay: Seq<char>, needle: Seq<char>, from: int)
    ensures
        first_occ(hay, needle, from) == -1 || (from <= first_occ(hay, needle, from) <= hay.len()
            && occurs_at(hay, needle, first_occ(hay, needle, from))),
{
    lemma_first_occ_range(hay, needle, from);
}

pub fn first_occ_exec(hay: &Vec<char>, needle: &Vec<char>) -> (r: Option<usize>)
    ensures
        match r {
            Some(i) => i as int == first_occ(hay@, needle@, 0),
            None => first_occ(hay@, needle@, 0) == -1,
        },
{
    let mut i: usize = 0;
    while i < hay.len()
        invariant
            i <= hay.len(),
            first_occ(hay@, needle@, 0) == first_occ(hay@, needle@, i as int),
        decreases hay.len() - i,
    {
        if occurs_at_exec(hay, needle, i) {
            return Some(i);
        }
        i += 1;
    }
    if occurs_at_exec(hay, needle, i) {
        return Some(i);
    }
    proof {
        assert(first_occ(hay@, needle@, i + 1) == -1);
    }
    None
}

/// The (up to) `n` characters of `text` before index `k`.
pub open spec fn window_before(text: Seq<char>, k: int, n: int) -> Seq<char> {
    text.subrange(if k > n { k - n } else { 0 }, k)
}

/// "Only the following provisions of this Act extend to ..." / "section 3 of
/// these Regulations applies to ...": the subject is part of the law.
pub open spec fn partial_at(text: Seq<char>, k: int) -> bool {
    is_match_spec(PARTIAL_SUBJECT_RE@, window_before(text, k, 41))
}

/// "Nothing in these Regulations applies to Wales" negates.
pub open spec fn nothing_at(text: Seq<char>, k: int) -> bool {
    is_match_spec(NOTHING_IN_RE@, window_before(text, k, 21))
}

/// "these Regulations as they apply in relation to England" describes, it
/// doesn't declare: the words before the verb say so.
pub open spec fn descriptive_spec(matched: Seq<char>) -> bool {
    let lower = str_lowercase(matched);
    let a = first_occ(lower, "appl"@, 0);
    let e = first_occ(lower, "extend"@, 0);
    let verb = if a >= 0 { a } else if e >= 0 { e } else { matched.len() as int };
    is_match_spec(DESCRIPTIVE_RE@, matched.take(if verb < matched.len() { verb } else { matched.len() as int }))
}

fn window_match(pattern: &str, text: &Vec<char>, k: usize, n: usize) -> (r: bool)
    requires
        k <= text.len(),
    ensures
        r == is_match_spec(pattern@, window_before(text@, k as int, n as int)),
{
    let lo = if k > n { k - n } else { 0 };
    let w = from_range(text, lo, k);
    is_match(pattern, w.as_str())
}

fn is_descriptive(matched: &str) -> (r: bool)
    ensures
        r == descriptive_spec(matched@),
{
    let lower = to_lowercase(matched);
    let lv = to_chars(lower.as_str());
    let mv = to_chars(matched);
    let appl = to_chars("appl");
    let extend = to_chars("extend");
    let verb: usize = match first_occ_exec(&lv, &appl) {
        Some(a) => a,
        None => match first_occ_exec(&lv, &extend) {
            Some(e) => e,
            None => mv.len(),
        },
    };
    let cut = if verb < mv.len() { verb } else { mv.len() };
    let head = from_range(&mv, 0, cut);
    proof {
        assert(mv@.subrange(0, cut as int) =~= matched@.take(cut as int));
    }
    is_match(DESCRIPTIVE_RE, head.as_str())
}

/// Start of the clause holding index `k`: just past the last `.` or `;` before it.
pub open spec fn clause_start(text: Seq<char>, k: int) -> int
    decreases k,
{
    if k <= 0 {
        0
    } else if text[k - 1] == '.' || text[k - 1] == ';' {
        k
    } else {
        clause_start(text, k - 1)
    }
}

/// The section id after its first `:` (the whole id when there is none).
pub open spec fn local_id(sid: Seq<char>) -> Seq<char> {
    let c = first_occ(sid, ":"@, 0);
    if c >= 0 { sid.skip(c + 1) } else { sid }
}

/// `local: "clause"`, the clause from its start to the end of the match,
/// whitespace squashed.
pub open spec fn snippet_spec(sid: Seq<char>, text: Seq<char>, k: int, e: int) -> Seq<char> {
    local_id(sid) + ": \""@ + squash(text.subrange(clause_start(text, k), e)) + "\""@
}

fn push_all(out: &mut String, v: &Vec<char>, lo: usize)
    requires
        lo <= v.len(),
    ensures
        final(out)@ == old(out)@ + v@.skip(lo as int),
{
    let ghost start = out@;
    let mut i = lo;
    while i < v.len()
        invariant
            lo <= i <= v.len(),
            out@ == start + v@.subrange(lo as int, i as int),
        decreases v.len() - i,
    {
        string_push_pub(out, v[i]);
        i += 1;
        proof {
            assert(out@ =~= start + v@.subrange(lo as int, i as int));
        }
    }
    proof {
        assert(v@.subrange(lo as int, v.len() as int) =~= v@.skip(lo as int));
    }
}

fn snippet(sid: &str, text: &Vec<char>, k: usize, e: usize) -> (r: String)
    requires
        k <= e <= text.len(),
    ensures
        r@ == snippet_spec(sid@, text@, k as int, e as int),
{
    let sv = to_chars(sid);
    let colon = to_chars(":");
    let lo: usize = match first_occ_exec(&sv, &colon) {
        Some(c) => {
            proof {
                lemma_first_occ_range(sv@, colon@, 0);
                reveal_strlit(":");
            }
            c + 1
        },
        None => 0,
    };
    let mut start = k;
    while start > 0 && text[start - 1] != '.' && text[start - 1] != ';'
        invariant
            start <= k <= text.len(),
            clause_start(text@, k as int) == clause_start(text@, start as int),
        decreases start,
    {
        start -= 1;
    }
    let clause_text = from_range(text, start, e);
    let clause = squash_exec(clause_text.as_str());
    let mut out = String::new();
    push_all(&mut out, &sv, lo);
    string_push_pub(&mut out, ':');
    string_push_pub(&mut out, ' ');
    string_push_pub(&mut out, '"');
    push_all(&mut out, &clause, 0);
    string_push_pub(&mut out, '"');
    proof {
        reveal_strlit(": \"");
        reveal_strlit("\"");
        assert(sv@.skip(lo as int) == local_id(sid@)) by {
            if lo == 0 {
                assert(sv@.skip(0) =~= sv@);
            }
        }
        assert(clause@.skip(0) =~= clause@);
        assert(out@ =~= snippet_spec(sid@, text@, k as int, e as int));
    }
    out
}

/// Items joined by `sep`.
pub open spec fn join_spec(items: Seq<Seq<char>>, sep: Seq<char>) -> Seq<char>
    decreases items.len(),
{
    if items.len() == 0 {
        seq![]
    } else if items.len() == 1 {
        items[0]
    } else {
        join_spec(items.drop_last(), sep) + sep + items.last()
    }
}

fn join_exec(items: &Vec<String>, sep: &str) -> (r: String)
    ensures
        r@ == join_spec(strings_view(*items), sep@),
{
    let ghost iv = strings_view(*items);
    let sepv = to_chars(sep);
    let mut out = String::new();
    let mut i: usize = 0;
    proof {
        assert(iv.take(0) =~= seq![]);
    }
    while i < items.len()
        invariant
            i <= items.len(),
            iv == strings_view(*items),
            sepv@ == sep@,
            out@ == join_spec(iv.take(i as int), sep@),
        decreases items.len() - i,
    {
        proof {
            assert(iv.take(i + 1).drop_last() =~= iv.take(i as int));
        }
        if i > 0 {
            push_all(&mut out, &sepv, 0);
            proof {
                assert(sepv@.skip(0) =~= sepv@);
            }
        }
        let iv_chars = to_chars(items[i].as_str());
        push_all(&mut out, &iv_chars, 0);
        proof {
            assert(iv_chars@.skip(0) =~= iv_chars@);
            if i == 0 {
                assert(out@ =~= iv[0]);
                assert(iv.take(1) =~= seq![iv[0]]);
            }
        }
        i += 1;
    }
    proof {
        assert(iv.take(items.len() as int) =~= iv);
    }
    out
}


/// (positive nations, negative nations, positive evidence, negative evidence, all evidence)
pub type Scan = (NationSet, NationSet, Seq<Seq<char>>, Seq<Seq<char>>, Seq<Seq<char>>);

pub open spec fn empty_scan() -> Scan {
    (no_nations(), no_nations(), seq![], seq![], seq![])
}

/// One clause match: group 0 the whole match, group 1 a `not`, group 2 the
/// nation phrase.  A clause naming no nation, about part of the law, or
/// descriptive is skipped; a `not` or a preceding "nothing in" makes it negative.
pub open spec fn cap_step(st: Scan, sid: Seq<char>, text: Seq<char>, c: Seq<Option<MatchPieces>>) -> Scan {
    if c.len() < 3 || c[0] is None || c[2] is None {
        st
    } else {
        let m = c[0]->0;
        let regions = nations_in_spec((c[2]->0).1);
        let k = m.0.len() as int;
        if is_empty_set(regions) || partial_at(text, k) || descriptive_spec(m.1) {
            st
        } else {
            let ev = snippet_spec(sid, text, k, mend(m));
            if c[1] is Some || nothing_at(text, k) {
                (st.0, union_set(st.1, regions), st.2, st.3.push(ev), st.4.push(ev))
            } else {
                (union_set(st.0, regions), st.1, st.2.push(ev), st.3, st.4.push(ev))
            }
        }
    }
}

pub open spec fn caps_fold(st: Scan, sid: Seq<char>, text: Seq<char>, caps: Seq<Seq<Option<MatchPieces>>>) -> Scan
    decreases caps.len(),
{
    if caps.len() == 0 {
        st
    } else {
        cap_step(caps_fold(st, sid, text, caps.drop_last()), sid, text, caps.last())
    }
}

/// Clause matches of `pattern` over all provisions, in order.
pub open spec fn scan_spec(provs: Seq<(Seq<char>, Seq<char>)>, pattern: Seq<char>) -> Scan
    decreases provs.len(),
{
    if provs.len() == 0 {
        empty_scan()
    } else {
        let p = provs.last();
        caps_fold(scan_spec(provs.drop_last(), pattern), p.0, p.1, regex_captures_iter(pattern, p.1))
    }
}

pub open spec fn provs_view(ps: Seq<(String, String)>) -> Seq<(Seq<char>, Seq<char>)> {
    ps.map_values(|p: (String, String)| (p.0@, p.1@))
}

fn scan(provisions: &[(String, String)], pattern: &str) -> (r: (NationSet, NationSet, Vec<String>, Vec<String>, Vec<String>))
    ensures
        (r.0, r.1, strings_view(r.2), strings_view(r.3), strings_view(r.4)) == scan_spec(provs_view(provisions@), pattern@),
{
    let ghost pv = provs_view(provisions@);
    let mut pos = NationSet::none();
    let mut neg = NationSet::none();
    let mut ev_pos: Vec<String> = Vec::new();
    let mut ev_neg: Vec<String> = Vec::new();
    let mut ev_all: Vec<String> = Vec::new();
    let mut i: usize = 0;
    proof {
        assert(pv.take(0) =~= seq![]);
        assert(strings_view(ev_pos) =~= seq![]);
        assert(strings_view(ev_neg) =~= seq![]);
        assert(strings_view(ev_all) =~= seq![]);
    }
    while i < provisions.len()
        invariant
            i <= provisions.len(),
            pv == provs_view(provisions@),
            (pos, neg, strings_view(ev_pos), strings_view(ev_neg), strings_view(ev_all)) == scan_spec(pv.take(i as int), pattern@),
        decreases provisions.len() - i,
    {
        let sid = provisions[i].0.as_str();
        let text = provisions[i].1.as_str();
        proof {
            assert(pv.take(i + 1).drop_last() =~= pv.take(i as int));
            assert(pv.take(i + 1).last() == (sid@, text@));
        }
        let tv = to_chars(text);
        let caps = captures_iter(pattern, text);
        let ghost cv = caps@.map_values(|c: Vec<Option<(String, String)>>| groups_view(c));
        let ghost st0: Scan = (pos, neg, strings_view(ev_pos), strings_view(ev_neg), strings_view(ev_all));
        let mut j: usize = 0;
        proof {
            assert(cv.take(0) =~= seq![]);
        }
        while j < caps.len()
            invariant
                j <= caps.len(),
                tv@ == text@,
                cv == caps@.map_values(|c: Vec<Option<(String, String)>>| groups_view(c)),
                cv == regex_captures_iter(pattern@, text@),
                forall|a: int, g: int| 0 <= a < caps@.len() && 0 <= g < caps@[a]@.len()
                    && (#[trigger] caps@[a]@[g]) is Some
                    ==> crate::rx::lies_in(pieces_view(caps@[a]@[g]->0), text@),
                (pos, neg, strings_view(ev_pos), strings_view(ev_neg), strings_view(ev_all))
                    == caps_fold(st0, sid@, text@, cv.take(j as int)),
            decreases caps.len() - j,
        {
            let c = &caps[j];
            proof {
                assert(cv.take(j + 1).drop_last() =~= cv.take(j as int));
                assert(cv.take(j + 1).last() == groups_view(caps@[j as int]));
            }
            if c.len() >= 3 {
                proof {
                    assert(groups_view(*c)[0] == crate::rx::group_view(c@[0]));
                    assert(groups_view(*c)[1] == crate::rx::group_view(c@[1]));
                    assert(groups_view(*c)[2] == crate::rx::group_view(c@[2]));
                }
                match (&c[0], &c[2]) {
                    (Some(m), Some(g2)) => {
                        proof {
                            assert(crate::rx::lies_in(pieces_view(c@[0]->0), text@));
                        }
                        let regions = nations_in_set(g2.1.as_str());
                        let pre = to_chars(m.0.as_str());
                        let mt = to_chars(m.1.as_str());
                        let k = pre.len();
                        proof {
                            assert(pieces_view(c@[0]->0) == (m.0@, m.1@));
                            assert((m.0@ + m.1@).is_prefix_of(text@));
                            assert((m.0@ + m.1@).len() <= text@.len());
                            assert(k + mt.len() <= tv.len());
                        }
                        let e = k + mt.len();
                        if !(regions.is_empty() || window_match(PARTIAL_SUBJECT_RE, &tv, k, 41)
                            || is_descriptive(m.1.as_str())) {
                            let ev = snippet(sid, &tv, k, e);
                            let negative = c[1].is_some() || window_match(NOTHING_IN_RE, &tv, k, 21);
                            let ghost a0 = strings_view(ev_all);
                            ev_all.push(owned(ev.as_str()));
                            if negative {
                                neg = neg.union(&regions);
                                let ghost n0 = strings_view(ev_neg);
                                ev_neg.push(ev);
                                proof {
                                    assert(strings_view(ev_neg) =~= n0.push(snippet_spec(sid@, text@, k as int, e as int)));
                                }
                            } else {
                                pos = pos.union(&regions);
                                let ghost p0 = strings_view(ev_pos);
                                ev_pos.push(ev);
                                proof {
                                    assert(strings_view(ev_pos) =~= p0.push(snippet_spec(sid@, text@, k as int, e as int)));
                                }
                            }
                            proof {
                                assert(strings_view(ev_all) =~= a0.push(snippet_spec(sid@, text@, k as int, e as int)));
                            }
                        }
                    },
                    _ => {},
                }
            }
            j += 1;
        }
        proof {
            assert(cv.take(caps.len() as int) =~= cv);
        }
        i += 1;
    }
    proof {
        assert(pv.take(provisions.len() as int) =~= pv);
    }
    (pos, neg, ev_pos, ev_neg, ev_all)
}


// ---------------------------------------------------------------------------
// Derivation

/// Which step decided a law's application.
#[derive(Debug, Clone, Copy, PartialEq, Eq, Structural)]
pub enum ApplicationSource {
    TextClause,
    Title,
    TypeCode,
    ExtentFallback,
}

pub open spec fn source_str(s: ApplicationSource) -> Seq<char> {
    match s {
        ApplicationSource::TextClause => "text_clause"@,
        ApplicationSource::Title => "title"@,
        ApplicationSource::TypeCode => "type_code"@,
        ApplicationSource::ExtentFallback => "extent_fallback"@,
    }
}

impl ApplicationSource {
    pub fn as_str(&self) -> (r: &'static str)
        ensures
            r@ == source_str(*self),
    {
        match self {
            ApplicationSource::TextClause => "text_clause",
            ApplicationSource::Title => "title",
            ApplicationSource::TypeCode => "type_code",
            ApplicationSource::ExtentFallback => "extent_fallback",
        }
    }
}

/// A law's application.
#[derive(Debug, Clone, PartialEq)]
pub struct Application {
    /// Nations, canonical order, non-empty
    pub regions: Vec<String>,
    pub source: ApplicationSource,
    pub evidence: String,
}

/// (regions, source, evidence)
pub type ApplicationView = (Seq<Seq<char>>, ApplicationSource, Seq<char>);

impl View for Application {
    type V = ApplicationView;

    open spec fn view(&self) -> ApplicationView {
        (strings_view(self.regions), self.source, self.evidence@)
    }
}

/// Inputs for one law.
#[derive(Debug)]
pub struct ApplicationInput<'a> {
    pub type_code: &'a str,
    pub title: &'a str,
    /// (section id, text) of the law's provisions
    pub provisions: &'a [(String, String)],
    /// Distinct provision-level extent codes ("E+W", "S" ...)
    pub lat_extents: &'a [String],
    /// Law-level extent ("UK", "E+W", "GB" ...)
    pub lrt_extent: Option<&'a str>,
}

impl<'a> Default for ApplicationInput<'a> {
    fn default() -> (r: ApplicationInput<'a>)
        ensures
            r.type_code@ == Seq::<char>::empty(),
            r.title@ == Seq::<char>::empty(),
            r.provisions@.len() == 0,
            r.lat_extents@.len() == 0,
            r.lrt_extent is None,
    {
        proof {
            reveal_strlit("");
        }
        ApplicationInput { type_code: "", title: "", provisions: &[], lat_extents: &[], lrt_extent: None }
    }
}

/// Nations named in the title's parentheticals.
pub open spec fn title_fold(caps: Seq<Seq<Option<MatchPieces>>>) -> NationSet
    decreases caps.len(),
{
    if caps.len() == 0 {
        no_nations()
    } else {
        let c = caps.last();
        let prev = title_fold(caps.drop_last());
        if c.len() > 1 && c[1] is Some {
            union_set(prev, nations_in_spec((c[1]->0).1))
        } else {
            prev
        }
    }
}

/// Nations of all the provision-level extent codes.
pub open spec fn lat_fold(codes: Seq<Seq<char>>) -> NationSet
    decreases codes.len(),
{
    if codes.len() == 0 {
        no_nations()
    } else {
        union_set(lat_fold(codes.drop_last()), extent_nations(codes.last()))
    }
}

/// Steps 2-4: title parenthetical, devolved type code, extent (text extent
/// clause, else provision extents, else the law's extent; "does not extend
/// to" subtracts).
pub open spec fn without_clause_spec(
    tc: Seq<char>,
    title: Seq<char>,
    provs: Seq<(Seq<char>, Seq<char>)>,
    lat: Seq<Seq<char>>,
    lrt: Option<Seq<char>>,
) -> Option<(NationSet, ApplicationSource, Seq<char>)> {
    let tm = title_fold(regex_captures_iter(TITLE_PAREN_RE@, title));
    if !is_empty_set(tm) {
        Some((tm, ApplicationSource::Title, title))
    } else if type_code_nations(tc) is Some {
        Some((type_code_nations(tc)->0, ApplicationSource::TypeCode, tc))
    } else {
        let sc = scan_spec(provs, EXTEND_RE@);
        let lm = lat_fold(lat);
        let base: Option<(NationSet, Seq<char>)> = if !is_empty_set(sc.0) {
            None
        } else if !is_empty_set(lm) {
            Some((lm, "LAT extent "@ + join_spec(lat, ","@)))
        } else if lrt is Some && !is_empty_set(extent_nations(lrt->0)) {
            Some((extent_nations(lrt->0), "LRT extent "@ + lrt->0))
        } else {
            None
        };
        let regions = match base {
            Some(b) => b.0,
            None => sc.0,
        };
        let base_ev: Seq<Seq<char>> = match base {
            Some(b) => seq![b.1],
            None => seq![],
        };
        let fin = minus_set(regions, sc.1);
        if is_empty_set(fin) {
            None
        } else {
            Some((fin, ApplicationSource::ExtentFallback, join_spec(sc.4 + base_ev, " | "@)))
        }
    }
}

/// A law's application, first match wins: an application clause in the
/// text, then steps 2-4; a "do not apply to" clause subtracts from what
/// they give (from all four nations when they give nothing).
pub open spec fn application_spec(
    tc: Seq<char>,
    title: Seq<char>,
    provs: Seq<(Seq<char>, Seq<char>)>,
    lat: Seq<Seq<char>>,
    lrt: Option<Seq<char>>,
) -> Option<(NationSet, ApplicationSource, Seq<char>)> {
    let sc = scan_spec(provs, APPLY_RE@);
    let p2 = minus_set(sc.0, sc.1);
    if !is_empty_set(sc.0) && !is_empty_set(p2) {
        Some((p2, ApplicationSource::TextClause, join_spec(sc.2 + sc.3, " | "@)))
    } else {
        let base = without_clause_spec(tc, title, provs, lat, lrt);
        if is_empty_set(sc.1) {
            base
        } else {
            let base_set = match base {
                Some(b) => b.0,
                None => all_nations(),
            };
            let regions = minus_set(base_set, sc.1);
            if is_empty_set(regions) {
                base
            } else {
                let extra: Seq<Seq<char>> = match base {
                    Some(b) => seq!["base "@ + source_str(b.1) + ": "@ + b.2],
                    None => seq![],
                };
                Some((regions, ApplicationSource::TextClause, join_spec(sc.3 + extra, " | "@)))
            }
        }
    }
}


/// A devolved legislation type decides the application where no text clause
/// and no title parenthetical names nations: Scottish types (`ssi`, `asp`,
/// `ssa`, `aosp`) apply in Scotland only, Welsh types (`wsi`, `anaw`, `asc`,
/// `mwa`, `wlc`) in Wales only, Northern Irish types (`nisr`, `nia`, `apni`,
/// `nisi`, `nisro`, `aip`) in Northern Ireland only; the source is the type
/// code and the evidence is the code itself, whatever the extents say.
pub proof fn lemma_devolved_type_code(
    tc: Seq<char>,
    title: Seq<char>,
    provs: Seq<(Seq<char>, Seq<char>)>,
    lat: Seq<Seq<char>>,
    lrt: Option<Seq<char>>,
)
    requires
        is_empty_set(title_fold(regex_captures_iter(TITLE_PAREN_RE@, title))),
        is_empty_set(scan_spec(provs, APPLY_RE@).0),
        is_empty_set(scan_spec(provs, APPLY_RE@).1),
    ensures
        (tc == "ssi"@ || tc == "asp"@ || tc == "ssa"@ || tc == "aosp"@)
            ==> application_view(application_spec(tc, title, provs, lat, lrt))
                == Some((seq!["scotland"@], ApplicationSource::TypeCode, tc)),
        (tc == "wsi"@ || tc == "anaw"@ || tc == "asc"@ || tc == "mwa"@ || tc == "wlc"@)
            ==> application_view(application_spec(tc, title, provs, lat, lrt))
                == Some((seq!["wales"@], ApplicationSource::TypeCode, tc)),
        (tc == "nisr"@ || tc == "nia"@ || tc == "apni"@ || tc == "nisi"@ || tc == "nisro"@ || tc == "aip"@)
            ==> application_view(application_spec(tc, title, provs, lat, lrt))
                == Some((seq!["northern_ireland"@], ApplicationSource::TypeCode, tc)),
{
    reveal_strlit("ssi");
    reveal_strlit("asp");
    reveal_strlit("ssa");
    reveal_strlit("aosp");
    reveal_strlit("wsi");
    reveal_strlit("anaw");
    reveal_strlit("asc");
    reveal_strlit("mwa");
    reveal_strlit("wlc");
    reveal_strlit("nisr");
    reveal_strlit("nia");
    reveal_strlit("apni");
    reveal_strlit("nisi");
    reveal_strlit("nisro");
    reveal_strlit("aip");
    assert("ssi"@ != "wsi"@) by { assert("ssi"@[0] != "wsi"@[0]); }
    assert("ssi"@ != "anaw"@) by { assert("ssi"@[0] != "anaw"@[0]); }
    assert("ssi"@ != "asc"@) by { assert("ssi"@[0] != "asc"@[0]); }
    assert("ssi"@ != "mwa"@) by { assert("ssi"@[0] != "mwa"@[0]); }
    assert("ssi"@ != "wlc"@) by { assert("ssi"@[0] != "wlc"@[0]); }
    assert("asp"@ != "wsi"@) by { assert("asp"@[0] != "wsi"@[0]); }
    assert("asp"@ != "anaw"@) by { assert("asp"@[1] != "anaw"@[1]); }
    assert("asp"@ != "asc"@) by { assert("asp"@[2] != "asc"@[2]); }
    assert("asp"@ != "mwa"@) by { assert("asp"@[0] != "mwa"@[0]); }
    assert("asp"@ != "wlc"@) by { assert("asp"@[0] != "wlc"@[0]); }
    assert("ssa"@ != "wsi"@) by { assert("ssa"@[0] != "wsi"@[0]); }
    assert("ssa"@ != "anaw"@) by { assert("ssa"@[0] != "anaw"@[0]); }
    assert("ssa"@ != "asc"@) by { assert("ssa"@[0] != "asc"@[0]); }
    assert("ssa"@ != "mwa"@) by { assert("ssa"@[0] != "mwa"@[0]); }
    assert("ssa"@ != "wlc"@) by { assert("ssa"@[0] != "wlc"@[0]); }
    assert("aosp"@ != "wsi"@) by { assert("aosp"@[0] != "wsi"@[0]); }
    assert("aosp"@ != "anaw"@) by { assert("aosp"@[1] != "anaw"@[1]); }
    assert("aosp"@ != "asc"@) by { assert("aosp"@[1] != "asc"@[1]); }
    assert("aosp"@ != "mwa"@) by { assert("aosp"@[0] != "mwa"@[0]); }
    assert("aosp"@ != "wlc"@) by { assert("aosp"@[0] != "wlc"@[0]); }
    assert("nisr"@ != "wsi"@) by { assert("nisr"@[0] != "wsi"@[0]); }
    assert("nisr"@ != "anaw"@) by { assert("nisr"@[0] != "anaw"@[0]); }
    assert("nisr"@ != "asc"@) by { assert("nisr"@[0] != "asc"@[0]); }
    assert("nisr"@ != "mwa"@) by { assert("nisr"@[0] != "mwa"@[0]); }
    assert("nisr"@ != "wlc"@) by { assert("nisr"@[0] != "wlc"@[0]); }
    assert("nisr"@ != "ssi"@) by { assert("nisr"@[0] != "ssi"@[0]); }
    assert("nisr"@ != "asp"@) by { assert("nisr"@[0] != "asp"@[0]); }
    assert("nisr"@ != "ssa"@) by { assert("nisr"@[0] != "ssa"@[0]); }
    assert("nisr"@ != "aosp"@) by { assert("nisr"@[0] != "aosp"@[0]); }
    assert("nia"@ != "wsi"@) by { assert("nia"@[0] != "wsi"@[0]); }
    assert("nia"@ != "anaw"@) by { assert("nia"@[0] != "anaw"@[0]); }
    assert("nia"@ != "asc"@) by { assert("nia"@[0] != "asc"@[0]); }
    assert("nia"@ != "mwa"@) by { assert("nia"@[0] != "mwa"@[0]); }
    assert("nia"@ != "wlc"@) by { assert("nia"@[0] != "wlc"@[0]); }
    assert("nia"@ != "ssi"@) by { assert("nia"@[0] != "ssi"@[0]); }
    assert("nia"@ != "asp"@) by { assert("nia"@[0] != "asp"@[0]); }
    assert("nia"@ != "ssa"@) by { assert("nia"@[0] != "ssa"@[0]); }
    assert("nia"@ != "aosp"@) by { assert("nia"@[0] != "aosp"@[0]); }
    assert("apni"@ != "wsi"@) by { assert("apni"@[0] != "wsi"@[0]); }
    assert("apni"@ != "anaw"@) by { assert("apni"@[1] != "anaw"@[1]); }
    assert("apni"@ != "asc"@) by { assert("apni"@[1] != "asc"@[1]); }
    assert("apni"@ != "mwa"@) by { assert("apni"@[0] != "mwa"@[0]); }
    assert("apni"@ != "wlc"@) by { assert("apni"@[0] != "wlc"@[0]); }
    assert("apni"@ != "ssi"@) by { assert("apni"@[0] != "ssi"@[0]); }
    assert("apni"@ != "asp"@) by { assert("apni"@[1] != "asp"@[1]); }
    assert("apni"@ != "ssa"@) by { assert("apni"@[0] != "ssa"@[0]); }
    assert("apni"@ != "aosp"@) by { assert("apni"@[1] != "aosp"@[1]); }
    assert("nisi"@ != "wsi"@) by { assert("nisi"@[0] != "wsi"@[0]); }
    assert("nisi"@ != "anaw"@) by { assert("nisi"@[0] != "anaw"@[0]); }
    assert("nisi"@ != "asc"@) by { assert("nisi"@[0] != "asc"@[0]); }
    assert("nisi"@ != "mwa"@) by { assert("nisi"@[0] != "mwa"@[0]); }
    assert("nisi"@ != "wlc"@) by { assert("nisi"@[0] != "wlc"@[0]); }
    assert("nisi"@ != "ssi"@) by { assert("nisi"@[0] != "ssi"@[0]); }
    assert("nisi"@ != "asp"@) by { assert("nisi"@[0] != "asp"@[0]); }
    assert("nisi"@ != "ssa"@) by { assert("nisi"@[0] != "ssa"@[0]); }
    assert("nisi"@ != "aosp"@) by { assert("nisi"@[0] != "aosp"@[0]); }
    assert("nisro"@ != "wsi"@) by { assert("nisro"@[0] != "wsi"@[0]); }
    assert("nisro"@ != "anaw"@) by { assert("nisro"@[0] != "anaw"@[0]); }
    assert("nisro"@ != "asc"@) by { assert("nisro"@[0] != "asc"@[0]); }
    assert("nisro"@ != "mwa"@) by { assert("nisro"@[0] != "mwa"@[0]); }
    assert("nisro"@ != "wlc"@) by { assert("nisro"@[0] != "wlc"@[0]); }
    assert("nisro"@ != "ssi"@) by { assert("nisro"@[0] != "ssi"@[0]); }
    assert("nisro"@ != "asp"@) by { assert("nisro"@[0] != "asp"@[0]); }
    assert("nisro"@ != "ssa"@) by { assert("nisro"@[0] != "ssa"@[0]); }
    assert("nisro"@ != "aosp"@) by { assert("nisro"@[0] != "aosp"@[0]); }
    assert("aip"@ != "wsi"@) by { assert("aip"@[0] != "wsi"@[0]); }
    assert("aip"@ != "anaw"@) by { assert("aip"@[1] != "anaw"@[1]); }
    assert("aip"@ != "asc"@) by { assert("aip"@[1] != "asc"@[1]); }
    assert("aip"@ != "mwa"@) by { assert("aip"@[0] != "mwa"@[0]); }
    assert("aip"@ != "wlc"@) by { assert("aip"@[0] != "wlc"@[0]); }
    assert("aip"@ != "ssi"@) by { assert("aip"@[0] != "ssi"@[0]); }
    assert("aip"@ != "asp"@) by { assert("aip"@[1] != "asp"@[1]); }
    assert("aip"@ != "ssa"@) by { assert("aip"@[0] != "ssa"@[0]); }
    assert("aip"@ != "aosp"@) by { assert("aip"@[1] != "aosp"@[1]); }
    assert(application_spec(tc, title, provs, lat, lrt) == without_clause_spec(tc, title, provs, lat, lrt));
    let sco = NationSet { england: false, wales: false, scotland: true, northern_ireland: false };
    let wal = NationSet { england: false, wales: true, scotland: false, northern_ireland: false };
    let nir = NationSet { england: false, wales: false, scotland: false, northern_ireland: true };
    assert(regions_of(sco) =~= seq![SCOTLAND@]);
    assert(regions_of(wal) =~= seq![WALES@]);
    assert(regions_of(nir) =~= seq![NORTHERN_IRELAND@]);
}

pub open spec fn application_view(a: Option<(NationSet, ApplicationSource, Seq<char>)>) -> Option<ApplicationView> {
    match a {
        Some(x) => Some((regions_of(x.0), x.1, x.2)),
        None => None,
    }
}

pub open spec fn opt_app_view(a: Option<Application>) -> Option<ApplicationView> {
    match a {
        Some(x) => Some(x@),
        None => None,
    }
}

/// `a` followed by `b`.
fn cat(a: &str, b: &str) -> (r: String)
    ensures
        r@ == a@ + b@,
{
    let av = to_chars(a);
    let bv = to_chars(b);
    let mut out = String::new();
    push_all(&mut out, &av, 0);
    push_all(&mut out, &bv, 0);
    proof {
        assert(av@.skip(0) =~= av@);
        assert(bv@.skip(0) =~= bv@);
        assert(out@ =~= a@ + b@);
    }
    out
}

fn derive_without_clause(input: &ApplicationInput) -> (r: Option<(NationSet, ApplicationSource, String)>)
    ensures
        match r {
            Some(x) => without_clause_spec(input.type_code@, input.title@, provs_view(input.provisions@),
                input.lat_extents@.map_values(|s: String| s@), opt_str(input.lrt_extent)) == Some((x.0, x.1, x.2@)),
            None => without_clause_spec(input.type_code@, input.title@, provs_view(input.provisions@),
                input.lat_extents@.map_values(|s: String| s@), opt_str(input.lrt_extent)) is None,
        },
{
    // title parentheticals
    let caps = captures_iter(TITLE_PAREN_RE, input.title);
    let ghost cv = caps@.map_values(|c: Vec<Option<(String, String)>>| groups_view(c));
    let mut tm = NationSet::none();
    let mut j: usize = 0;
    proof {
        assert(cv.take(0) =~= seq![]);
    }
    while j < caps.len()
        invariant
            j <= caps.len(),
            cv == caps@.map_values(|c: Vec<Option<(String, String)>>| groups_view(c)),
            tm == title_fold(cv.take(j as int)),
        decreases caps.len() - j,
    {
        let c = &caps[j];
        proof {
            assert(cv.take(j + 1).drop_last() =~= cv.take(j as int));
            assert(cv.take(j + 1).last() == groups_view(caps@[j as int]));
        }
        if c.len() > 1 {
            proof {
                assert(groups_view(*c)[1] == crate::rx::group_view(c@[1]));
            }
            match &c[1] {
                Some(g) => {
                    let n = nations_in_set(g.1.as_str());
                    tm = tm.union(&n);
                },
                None => {},
            }
        }
        j += 1;
    }
    proof {
        assert(cv.take(caps.len() as int) =~= cv);
    }
    if !tm.is_empty() {
        return Some((tm, ApplicationSource::Title, owned(input.title)));
    }
    // type code
    match type_code_regions(input.type_code) {
        Some(n) => {
            return Some((n, ApplicationSource::TypeCode, owned(input.type_code)));
        },
        None => {},
    }
    // extent
    let (pos, neg, _ep, _en, ev_all) = scan(input.provisions, EXTEND_RE);
    let ghost latv = input.lat_extents@.map_values(|s: String| s@);
    let mut base: Option<(NationSet, String)> = None;
    if pos.is_empty() {
        let mut lm = NationSet::none();
        let mut k: usize = 0;
        proof {
            assert(latv.take(0) =~= seq![]);
        }
        while k < input.lat_extents.len()
            invariant
                k <= input.lat_extents.len(),
                latv == input.lat_extents@.map_values(|s: String| s@),
                lm == lat_fold(latv.take(k as int)),
            decreases input.lat_extents.len() - k,
        {
            proof {
                assert(latv.take(k + 1).drop_last() =~= latv.take(k as int));
            }
            let n = extent_nations_exec(input.lat_extents[k].as_str());
            lm = lm.union(&n);
            k += 1;
        }
        proof {
            assert(latv.take(input.lat_extents.len() as int) =~= latv);
        }
        if !lm.is_empty() {
            let mut lat_list: Vec<String> = Vec::new();
            let mut q: usize = 0;
            while q < input.lat_extents.len()
                invariant
                    q <= input.lat_extents.len(),
                    lat_list.len() == q,
                    forall|t: int| 0 <= t < q ==> (#[trigger] lat_list@[t])@ == input.lat_extents@[t]@,
                decreases input.lat_extents.len() - q,
            {
                lat_list.push(owned(input.lat_extents[q].as_str()));
                q += 1;
            }
            proof {
                assert(strings_view(lat_list) =~= latv);
            }
            let joined = join_exec(&lat_list, ",");
            let ev = cat("LAT extent ", joined.as_str());
            base = Some((lm, ev));
        } else {
            match input.lrt_extent {
                Some(e) => {
                    let n = extent_nations_exec(e);
                    if !n.is_empty() {
                        let ev = cat("LRT extent ", e);
                        base = Some((n, ev));
                    }
                },
                None => {},
            }
        }
    }
    let regions = match &base {
        Some(b) => b.0,
        None => pos,
    };
    let fin = regions.minus(&neg);
    if fin.is_empty() {
        return None;
    }
    let mut evidence = ev_all;
    let ghost e0 = strings_view(evidence);
    match base {
        Some(b) => {
            let ghost bv = b.1@;
            evidence.push(b.1);
            proof {
                assert(strings_view(evidence) =~= e0 + seq![bv]);
            }
        },
        None => {
            proof {
                assert(strings_view(evidence) =~= e0 + Seq::<Seq<char>>::empty());
            }
        },
    }
    Some((fin, ApplicationSource::ExtentFallback, join_exec(&evidence, " | ")))
}

pub open spec fn opt_str(o: Option<&str>) -> Option<Seq<char>> {
    match o {
        Some(s) => Some(s@),
        None => None,
    }
}

/// Derive a law's application; `None` when no source says anything.
pub fn derive_application(input: &ApplicationInput) -> (r: Option<Application>)
    ensures
        opt_app_view(r) == application_view(application_spec(input.type_code@, input.title@,
            provs_view(input.provisions@), input.lat_extents@.map_values(|s: String| s@), opt_str(input.lrt_extent))),
{
    let (pos, neg, ev_pos, ev_neg, _ev_all) = scan(input.provisions, APPLY_RE);
    let p2 = pos.minus(&neg);
    if !pos.is_empty() && !p2.is_empty() {
        let mut evidence = ev_pos;
        let mut more = ev_neg;
        let ghost a = strings_view(evidence);
        let ghost b = strings_view(more);
        let ghost ev0 = evidence;
        let ghost mv0 = more;
        evidence.append(&mut more);
        proof {
            assert(strings_view(evidence) =~= strings_view(ev0) + strings_view(mv0));
        }
        return Some(Application { regions: p2.regions(), source: ApplicationSource::TextClause, evidence: join_exec(&evidence, " | ") });
    }
    let base = derive_without_clause(input);
    if neg.is_empty() {
        return match base {
            Some(b) => Some(Application { regions: b.0.regions(), source: b.1, evidence: b.2 }),
            None => None,
        };
    }
    let base_set = match &base {
        Some(b) => b.0,
        None => NationSet::all(),
    };
    let regions = base_set.minus(&neg);
    if regions.is_empty() {
        return match base {
            Some(b) => Some(Application { regions: b.0.regions(), source: b.1, evidence: b.2 }),
            None => None,
        };
    }
    let mut evidence = ev_neg;
    let ghost e0 = strings_view(evidence);
    match &base {
        Some(b) => {
            let l1 = cat("base ", b.1.as_str());
            let l2 = cat(l1.as_str(), ": ");
            let line = cat(l2.as_str(), b.2.as_str());
            let ghost lv = line@;
            evidence.push(line);
            proof {
                assert(strings_view(evidence) =~= e0 + seq![lv]);
            }
        },
        None => {
            proof {
                assert(strings_view(evidence) =~= e0 + Seq::<Seq<char>>::empty());
            }
        },
    }
    Some(Application { regions: regions.regions(), source: ApplicationSource::TextClause, evidence: join_exec(&evidence, " | ") })
}


/// The nation codes in canonical order.
pub open spec fn nations_spec() -> Seq<Seq<char>> {
    seq![ENGLAND@, WALES@, SCOTLAND@, NORTHERN_IRELAND@]
}

/// `s` lists nations in canonical order, each once.
pub open spec fn canonical_regions(s: Seq<Seq<char>>) -> bool {
    exists|idx: Seq<int>| #![trigger idx.len()]
        idx.len() == s.len()
        && (forall|i: int| 0 <= i < idx.len() ==> 0 <= #[trigger] idx[i] < 4 && s[i] == nations_spec()[idx[i]])
        && (forall|i: int, j: int| 0 <= i < j < idx.len() ==> #[trigger] idx[i] < #[trigger] idx[j])
}

proof fn lemma_regions_canonical(m: NationSet)
    ensures
        canonical_regions(regions_of(m)),
        !is_empty_set(m) ==> regions_of(m).len() > 0,
{
    let idx: Seq<int> = (if m.england { seq![0int] } else { seq![] }) + (if m.wales { seq![1int] } else { seq![] })
        + (if m.scotland { seq![2int] } else { seq![] }) + (if m.northern_ireland { seq![3int] } else { seq![] });
    let r = regions_of(m);
    reveal_strlit("england");
    reveal_strlit("wales");
    reveal_strlit("scotland");
    reveal_strlit("northern_ireland");
    assert(idx.len() == r.len());
    assert forall|i: int| 0 <= i < idx.len() implies 0 <= #[trigger] idx[i] < 4 && r[i] == nations_spec()[idx[i]] by {}
    assert forall|i: int, j: int| 0 <= i < j < idx.len() implies #[trigger] idx[i] < #[trigger] idx[j] by {}
}

/// A derived application lists at least one nation, in canonical order,
/// each once.
pub proof fn lemma_application_regions(
    tc: Seq<char>,
    title: Seq<char>,
    provs: Seq<(Seq<char>, Seq<char>)>,
    lat: Seq<Seq<char>>,
    lrt: Option<Seq<char>>,
)
    ensures
        application_view(application_spec(tc, title, provs, lat, lrt)) matches Some(a)
            ==> a.0.len() > 0 && canonical_regions(a.0),
{
    let r = application_spec(tc, title, provs, lat, lrt);
    let b = without_clause_spec(tc, title, provs, lat, lrt);
    if let Some(x) = r {
        lemma_regions_canonical(x.0);
        assert(!is_empty_set(x.0));
    }
}

} // verus!
