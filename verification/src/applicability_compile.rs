//! Compile a law's fitness mentions into an [`ApplicabilityNode`] tree.
//!
//! Applies-to mentions are disjunctive; law-level disapplications become a
//! root `Not(Or(..))` unless their codes also appear among the applies-to
//! codes; dates become one time window, `from` only from a law-level
//! commencement and `to` only from a law-level sunset, never before `from`.
//! A code must be grounded in the provision text (citations of other
//! legislation stripped) or in the law's own title; government actors and
//! jurisdiction codes never gate; a law never disapplies the subject its own
//! title names; the law's application becomes a single root territorial gate.

use vstd::prelude::*;
use vstd::string::StringSliceAdditionalSpecFns;
use std::collections::HashMap;
use crate::applicability::{
    and_spec, normalize_spec, or_spec, sorted_set, strings_view, trees_of, ApplicabilityNode, MatchOp, Tree,
};
use crate::labelset::{lex_lt, lex_less, LabelSet, strictly_sorted};
use crate::application::{jurisdiction_codes, jurisdiction_codes_spec};
use crate::order::{contains_label, str_views};
use crate::rx::{first_group, first_group_spec, is_match, is_match_spec, replace_all, replace_all_spec};
use crate::text::{
    from_chars, occurs_at, occurs_at_exec, owned, str_eq, str_lowercase, starts_with_str, to_chars,
    to_lowercase, trim, trim_start, trim_start_str, trim_str,
};

verus! {

/// One fitness mention with the text it was extracted from.
#[derive(Debug, Clone)]
pub struct MentionInput {
    /// `AppliesTo`, `ExtendsTo` or `DisappliesTo`
    pub polarity: String,
    /// Reconciled entity names (display form) and ISO dates
    pub entities: Vec<String>,
    /// Text of the provision plus its sub-provisions
    pub text: String,
}

/// Law-level context for compilation.
#[derive(Debug, Clone)]
pub struct LawContext {
    /// The law's own title (a code in the title is the law's subject)
    pub title: String,
    /// Nations where the law applies (root gate); `None`: unknown, no gate.
    pub application: Option<Vec<String>>,
}

impl Default for LawContext {
    fn default() -> (r: LawContext)
        ensures
            r.title@ == Seq::<char>::empty(),
            r.application is None,
    {
        LawContext { title: String::new(), application: None }
    }
}

/// Is `code` a jurisdiction code?
pub fn is_jurisdiction(code: &str) -> (r: bool)
    ensures
        r == str_views(jurisdiction_codes_spec()).contains(code@),
{
    contains_label(&jurisdiction_codes(), code)
}

/// Codes for government actors: they regulate, they are not the persons a
/// law applies to, so they never appear as applicability conditions.
pub open spec fn gov_actor_codes_spec() -> Seq<&'static str> {
    seq![
        "secretary_of_state", "local_authority", "scottish_ministers", "welsh_ministers",
        "enforcement_authority", "public_authority", "local_planning_authority", "planning_authority",
        "appropriate_authority", "competent_authority", "national_park_authority", "national_authority",
        "relevant_authority", "responsible_authority", "charging_authority", "highway_authority",
        "authority", "public_body", "statutory_body", "nature_conservation_body", "regulator",
        "local_government", "inspector", "chief_inspector", "authorised_officer", "council", "sepa",
        "scottish_environment_protection_agency", "national_river_authority", "appropriate_agency",
        "agency", "executive", "commission", "assembly", "minister", "ministers", "magistrates_court",
        "rule-making_authority",
    ]
}

pub fn gov_actor_codes() -> (r: Vec<&'static str>)
    ensures
        r@ == gov_actor_codes_spec(),
{
    vec![
        "secretary_of_state", "local_authority", "scottish_ministers", "welsh_ministers",
        "enforcement_authority", "public_authority", "local_planning_authority", "planning_authority",
        "appropriate_authority", "competent_authority", "national_park_authority", "national_authority",
        "relevant_authority", "responsible_authority", "charging_authority", "highway_authority",
        "authority", "public_body", "statutory_body", "nature_conservation_body", "regulator",
        "local_government", "inspector", "chief_inspector", "authorised_officer", "council", "sepa",
        "scottish_environment_protection_agency", "national_river_authority", "appropriate_agency",
        "agency", "executive", "commission", "assembly", "minister", "ministers", "magistrates_court",
        "rule-making_authority",
    ]
}

pub fn is_gov_actor(code: &str) -> (r: bool)
    ensures
        r == str_views(gov_actor_codes_spec()).contains(code@),
{
    contains_label(&gov_actor_codes(), code)
}

pub open spec fn stopwords_spec() -> Seq<&'static str> {
    seq!["of", "the", "and", "or", "for", "in", "to", "a", "an", "at", "on", "by", "with"]
}

fn stopwords() -> (r: Vec<&'static str>)
    ensures
        r@ == stopwords_spec(),
{
    vec!["of", "the", "and", "or", "for", "in", "to", "a", "an", "at", "on", "by", "with"]
}

/// "These Regulations / this Act ... come into force".
pub const LAW_COMMENCEMENT_RE: &'static str = r#"(?i)\b(?:these\s+regulations|this\s+(?:act|order|measure|scheme|instrument)|these\s+(?:rules|byelaws))\b[^.;]{0,80}\b(?:come|comes|came|shall\s+come)\s+into\s+(?:force|operation)"#;

/// "These Regulations / this Order ... cease to have effect / expire".
pub const LAW_SUNSET_RE: &'static str = r#"(?i)\b(?:these\s+regulations|this\s+(?:act|order|measure|scheme|instrument)|these\s+(?:rules|byelaws))\b[^.;]{0,80}\b(?:(?:cease|ceases|shall\s+cease)\s+to\s+have\s+effect|expire|expires|shall\s+expire)\b"#;

/// "These Regulations do not apply to ..." / "Nothing in this Act applies to ...".
pub const LAW_DISAPPLY_RE: &'static str = r#"(?i)(?:^|[.;:—–]\s*|\(\d+\)\s*|\bsubject\s+to\s+[^,]{0,60},\s*)\b(?:these\s+regulations|this\s+(?:act|order|measure|scheme|instrument)|these\s+(?:rules|byelaws))\b[^.;]{0,60}?\b(?:do|does|shall|will)\s+not\s+(?:apply|extend)|\bnothing\s+in\s+\b(?:these\s+regulations|this\s+(?:act|order|measure|scheme|instrument)|these\s+(?:rules|byelaws))\b[^.;]{0,60}?\b(?:appl|extend|prevent|affect)"#;

/// "construction" meaning interpretation.
pub const CONSTRUCTION_INTERPRETATION_RE: &'static str = r"(?i)\binterpretation\s+and\s+construction\b|\bconstruction\s+of\s+(?:this|these|the|any|references?)\b|\bconstrued\b";

/// "construction" in the building and civil-engineering sense.
pub const CONSTRUCTION_BUILDING_RE: &'static str = r"(?i)\bconstruction\s+(?:work|works|site|sites|industry|project|projects|products?|phase|operations?|activities|\(design)|\bbuilding\s+work|\bdemolition\b|\bconstruct(?:ion|ing)\s+(?:of\s+)?(?:a|an|the|any|new)?\s*(?:building|road|sewer|dam|bridge|tunnel|pipe-?line|dwelling|reservoir|railway|harbour|structure)s?\b";

/// "construction" meaning how a product is built.
pub const CONSTRUCTION_PRODUCT_RE: &'static str = r"(?i)\bconstruction\s+and\s+use\b|\bconstruct(?:ed|ion)\s+(?:of|so\s+as|or\s+adapted|and\s+equipment)\b|\b(?:vehicle|trailer|ship|vessel|aircraft|appliance|equipment|machinery)\b[^.;]{0,40}\bconstruct";

/// Citation of another instrument: "the Mines Regulations 2014".
pub const CITATION_RE: &'static str = r#"(?:[A-Z][\w’'\-]*|\([A-Z][^)]*\)|and|of|for|the|in|to|on|at|etc\.?|&)(?:\s+(?:[A-Z][\w’'\-]*|\([A-Z][^)]*\)|and|of|for|the|in|to|on|at|etc\.?|&))*\s+(?:Act|Regulations|Order|Rules|Measure)(?:\s+\([A-Z][^)]*\))?\s+\d{4}"#;

/// "... may be cited as the X Regulations 2015"; group 1 is the title.
pub const CITED_AS_RE: &'static str = r#"(?i)\bmay\s+be\s+cited\s+as\s+(?:the\s+)?["“‘']?([^"“”‘’.;]+?(?:Act|Regulations|Order|Rules|Measure|Scheme)(?:\s+\((?:Northern\s+Ireland|Scotland|Wales|England)\))?(?:\s+\d{4})?)"#;

pub const CONSTRUCTION_WORD_RE: &'static str = r"(?i)\bconstruct(?:ion|ions|ing|ed|s)?\b";

/// Is this a law-level disapplication (the law itself is the subject)?
pub fn is_law_level_disapplication(text: &str) -> (r: bool)
    ensures
        r == is_match_spec(LAW_DISAPPLY_RE@, trim_start(text@)),
{
    let t = trim_start_str(text);
    is_match(LAW_DISAPPLY_RE, t.as_str())
}

pub fn is_law_commencement(text: &str) -> (r: bool)
    ensures
        r == is_match_spec(LAW_COMMENCEMENT_RE@, text@),
{
    is_match(LAW_COMMENCEMENT_RE, text)
}

pub fn is_law_sunset(text: &str) -> (r: bool)
    ensures
        r == is_match_spec(LAW_SUNSET_RE@, text@),
{
    is_match(LAW_SUNSET_RE, text)
}

/// The short title from a citation provision, trimmed.
pub fn title_from_citation(text: &str) -> (r: Option<String>)
    ensures
        match first_group_spec(CITED_AS_RE@, text@, 1) {
            Some(g) => r is Some && r->0@ == trim(g),
            None => r is None,
        },
{
    match first_group(CITED_AS_RE, text, 1) {
        Some(g) => Some(trim_str(g.as_str())),
        None => None,
    }
}

/// Remove citations of other legislation (each replaced by a space) so their
/// titles don't ground codes.
pub fn strip_citations(text: &str) -> (r: String)
    ensures
        r@ == replace_all_spec(CITATION_RE@, text@, " "@),
{
    replace_all(CITATION_RE, text, " ")
}

/// `s` with every space replaced by an underscore.
pub open spec fn underscored(s: Seq<char>) -> Seq<char> {
    Seq::new(s.len(), |i: int| if s[i] == ' ' { '_' } else { s[i] })
}

/// Normalise an entity display name to a tree code: lower case, spaces to underscores.
pub fn to_code(entity: &str) -> (r: String)
    ensures
        r@ == underscored(str_lowercase(entity@)),
{
    let lower = to_lowercase(entity);
    let v = to_chars(lower.as_str());
    let mut out: Vec<char> = Vec::new();
    let mut i: usize = 0;
    while i < v.len()
        invariant
            i <= v.len(),
            out@ == underscored(v@).take(i as int),
        decreases v.len() - i,
    {
        if v[i] == ' ' {
            out.push('_');
        } else {
            out.push(v[i]);
        }
        i += 1;
        proof {
            assert(out@ =~= underscored(v@).take(i as int));
        }
    }
    proof {
        assert(underscored(v@).take(v.len() as int) =~= underscored(v@));
    }
    from_chars(&out)
}

/// `YYYY-MM-DD` shape: ten bytes, `-` at bytes 4 and 7, ASCII digits in the first four.
pub open spec fn iso_date_shape(b: Seq<u8>) -> bool {
    &&& b.len() == 10
    &&& b[4] == 45u8
    &&& b[7] == 45u8
    &&& forall|i: int| 0 <= i < 4 ==> 48u8 <= #[trigger] b[i] <= 57u8
}

pub fn is_iso_date(s: &str) -> (r: bool)
    ensures
        r == iso_date_shape(s.spec_bytes()),
{
    let b = s.as_bytes();
    if b.len() != 10 || b[4] != 45u8 || b[7] != 45u8 {
        return false;
    }
    let mut i: usize = 0;
    while i < 4
        invariant
            i <= 4,
            b@ == s.spec_bytes(),
            b@.len() == 10,
            forall|j: int| 0 <= j < i ==> 48u8 <= #[trigger] b@[j] <= 57u8,
        decreases 4 - i,
    {
        if b[i] < 48u8 || b[i] > 57u8 {
            return false;
        }
        i += 1;
    }
    true
}


// ---------------------------------------------------------------------------
// Grounding

pub open spec fn is_sep(c: char) -> bool {
    c == '_' || c == ' ' || c == '-'
}

/// The pieces of `s` split at `_`, ` ` and `-` (`str::split` with those
/// characters: empty pieces kept).
pub open spec fn split_pieces(s: Seq<char>) -> Seq<Seq<char>>
    decreases s.len(),
{
    if s.len() == 0 {
        seq![seq![]]
    } else {
        let p = split_pieces(s.drop_last());
        if is_sep(s.last()) {
            p.push(seq![])
        } else {
            p.update(p.len() - 1, p.last().push(s.last()))
        }
    }
}

proof fn lemma_split_nonempty(s: Seq<char>)
    ensures
        split_pieces(s).len() >= 1,
    decreases s.len(),
{
    if s.len() > 0 {
        lemma_split_nonempty(s.drop_last());
    }
}

/// The first piece that is not empty and not a stopword.
pub open spec fn first_head(ps: Seq<Seq<char>>) -> Option<Seq<char>>
    decreases ps.len(),
{
    if ps.len() == 0 {
        None
    } else if ps[0].len() > 0 && !str_views(stopwords_spec()).contains(ps[0]) {
        Some(ps[0])
    } else {
        first_head(ps.drop_first())
    }
}

proof fn lemma_first_head_nonempty(ps: Seq<Seq<char>>)
    ensures
        first_head(ps) matches Some(h) ==> h.len() > 0,
    decreases ps.len(),
{
    if ps.len() > 0 {
        lemma_first_head_nonempty(ps.drop_first());
    }
}

/// The head word of a code: its first piece that is not a stopword.
pub open spec fn head_word(code: Seq<char>) -> Option<Seq<char>> {
    first_head(split_pieces(code))
}

/// Bytes of `c` in UTF-8.
pub open spec fn char_utf8_len(c: char) -> nat {
    if (c as u32) < 0x80 {
        1
    } else if (c as u32) < 0x800 {
        2
    } else if (c as u32) < 0x10000 {
        3
    } else {
        4
    }
}

/// Bytes of `s` in UTF-8.
pub open spec fn utf8_len(s: Seq<char>) -> nat
    decreases s.len(),
{
    if s.len() == 0 {
        0
    } else {
        utf8_len(s.drop_last()) + char_utf8_len(s.last())
    }
}

proof fn lemma_utf8_len_grows(s: Seq<char>, i: int)
    requires
        0 <= i <= s.len(),
    ensures
        utf8_len(s.take(i)) <= utf8_len(s),
    decreases s.len(),
{
    if i < s.len() {
        assert(s.drop_last().take(i) =~= s.take(i));
        lemma_utf8_len_grows(s.drop_last(), i);
    } else {
        assert(s.take(i) =~= s);
    }
}

pub open spec fn ascii_alnum(c: char) -> bool {
    ('a' <= c && c <= 'z') || ('A' <= c && c <= 'Z') || ('0' <= c && c <= '9')
}

/// An occurrence of `prefix` at `at` starts a word (and ends one, with `whole`).
pub open spec fn word_ok(text: Seq<char>, prefix: Seq<char>, whole: bool, at: int) -> bool {
    &&& (at == 0 || !ascii_alnum(text[at - 1]))
    &&& (!whole || at + prefix.len() == text.len() || !ascii_alnum(text[at + prefix.len()]))
}

/// Scan from `i` for an occurrence of `prefix` at or after `allowed` that
/// starts a word; a rejected occurrence moves `allowed` past its end.
pub open spec fn word_prefix_from(text: Seq<char>, prefix: Seq<char>, whole: bool, i: int, allowed: int) -> bool
    decreases text.len() + 1 - i,
{
    if i < 0 || i + prefix.len() > text.len() {
        false
    } else if i >= allowed && occurs_at(text, prefix, i) {
        if word_ok(text, prefix, whole, i) {
            true
        } else {
            word_prefix_from(text, prefix, whole, i + 1, i + prefix.len())
        }
    } else {
        word_prefix_from(text, prefix, whole, i + 1, allowed)
    }
}

/// Does `text` contain a word starting with `prefix` (whole word, with `whole`)?
pub open spec fn has_word_prefix_spec(text: Seq<char>, prefix: Seq<char>, whole: bool) -> bool {
    word_prefix_from(text, prefix, whole, 0, 0)
}

fn is_ascii_alnum(c: char) -> (r: bool)
    ensures
        r == ascii_alnum(c),
{
    ('a' <= c && c <= 'z') || ('A' <= c && c <= 'Z') || ('0' <= c && c <= '9')
}

fn has_word_prefix(text: &Vec<char>, prefix: &Vec<char>, whole: bool) -> (r: bool)
    requires
        prefix.len() > 0,
    ensures
        r == has_word_prefix_spec(text@, prefix@, whole),
{
    if prefix.len() > text.len() {
        return false;
    }
    let last = text.len() - prefix.len();
    let mut i: usize = 0;
    let mut allowed: usize = 0;
    while i <= last
        invariant
            prefix.len() > 0,
            last + prefix.len() == text.len(),
            i <= last + 1,
            has_word_prefix_spec(text@, prefix@, whole) == word_prefix_from(text@, prefix@, whole, i as int, allowed as int),
        decreases last + 1 - i,
    {
        if i >= allowed && occurs_at_exec(text, prefix, i) {
            let before_ok = i == 0 || !is_ascii_alnum(text[i - 1]);
            let end = i + prefix.len();
            let after_ok = !whole || end == text.len() || !is_ascii_alnum(text[end]);
            if before_ok && after_ok {
                return true;
            }
            allowed = end;
        }
        i += 1;
    }
    false
}

/// The construction sense a `construction*` code needs: the word is there, in
/// the building sense, or at least not in the interpretation or product sense.
pub open spec fn construction_grounded(text: Seq<char>) -> bool {
    &&& is_match_spec(CONSTRUCTION_WORD_RE@, text)
    &&& (is_match_spec(CONSTRUCTION_BUILDING_RE@, text) || (!is_match_spec(CONSTRUCTION_INTERPRETATION_RE@, text)
        && !is_match_spec(CONSTRUCTION_PRODUCT_RE@, text)))
}

pub open spec fn is_construction_code(code: Seq<char>) -> bool {
    code == "construction"@ || "construction_"@.is_prefix_of(code)
}

/// Is `code` anchored in `text`?  The head word must begin a word of the
/// lower-cased text (its first six characters; the whole word when the head
/// is under four bytes); a code with no head word is grounded.
pub open spec fn grounded(code: Seq<char>, text: Seq<char>) -> bool {
    if is_construction_code(code) {
        construction_grounded(text)
    } else {
        match head_word(code) {
            None => true,
            Some(h) => if utf8_len(h) < 4 {
                has_word_prefix_spec(str_lowercase(text), h, true)
            } else {
                has_word_prefix_spec(str_lowercase(text), h.take(if h.len() < 6 { h.len() as int } else { 6 }), false)
            },
        }
    }
}

/// The pieces of `code` (see [`split_pieces`]).
fn pieces_of(code: &Vec<char>) -> (r: Vec<Vec<char>>)
    ensures
        r@.map_values(|p: Vec<char>| p@) == split_pieces(code@),
{
    let mut r: Vec<Vec<char>> = Vec::new();
    r.push(Vec::new());
    let mut i: usize = 0;
    proof {
        assert(code@.take(0) =~= seq![]);
        assert(r@.map_values(|p: Vec<char>| p@) =~= seq![seq![]]);
    }
    while i < code.len()
        invariant
            i <= code.len(),
            r.len() >= 1,
            r@.map_values(|p: Vec<char>| p@) == split_pieces(code@.take(i as int)),
        decreases code.len() - i,
    {
        let c = code[i];
        let ghost before = r@.map_values(|p: Vec<char>| p@);
        proof {
            assert(code@.take(i + 1).drop_last() =~= code@.take(i as int));
            assert(code@.take(i + 1).last() == c);
        }
        if c == '_' || c == ' ' || c == '-' {
            r.push(Vec::new());
            proof {
                assert(r@.map_values(|p: Vec<char>| p@) =~= before.push(seq![]));
            }
        } else {
            let k = r.len() - 1;
            let mut cur = r.pop().unwrap();
            cur.push(c);
            r.push(cur);
            proof {
                assert(r@.map_values(|p: Vec<char>| p@) =~= before.update(k as int, before[k as int].push(c)));
            }
        }
        i += 1;
    }
    proof {
        assert(code@.take(code.len() as int) =~= code@);
    }
    r
}

/// The head word of `code`, if any.
fn head_of(code: &str) -> (r: Option<Vec<char>>)
    ensures
        match head_word(code@) {
            Some(h) => r is Some && r->0@ == h,
            None => r is None,
        },
{
    let cv = to_chars(code);
    let ps = pieces_of(&cv);
    let ghost pv = ps@.map_values(|p: Vec<char>| p@);
    let sw = stopwords();
    let mut i: usize = 0;
    proof {
        assert(pv.skip(0) =~= pv);
    }
    while i < ps.len()
        invariant
            i <= ps.len(),
            pv == ps@.map_values(|p: Vec<char>| p@),
            pv == split_pieces(cv@),
            cv@ == code@,
            sw@ == stopwords_spec(),
            first_head(pv) == first_head(pv.skip(i as int)),
        decreases ps.len() - i,
    {
        let p = &ps[i];
        proof {
            assert(pv.skip(i as int)[0] == p@);
            assert(pv.skip(i as int).drop_first() =~= pv.skip(i + 1));
        }
        if p.len() > 0 {
            let word = from_chars(p);
            if !contains_label(&sw, word.as_str()) {
                let mut out: Vec<char> = Vec::new();
                let mut k: usize = 0;
                while k < p.len()
                    invariant
                        k <= p.len(),
                        out@ == p@.take(k as int),
                    decreases p.len() - k,
                {
                    out.push(p[k]);
                    k += 1;
                    proof {
                        assert(out@ =~= p@.take(k as int));
                    }
                }
                proof {
                    assert(p@.take(p.len() as int) =~= p@);
                }
                return Some(out);
            }
        }
        i += 1;
    }
    None
}

/// Is the UTF-8 length of `h` under `limit` bytes?
pub(crate) fn utf8_shorter_than(h: &Vec<char>, limit: usize) -> (r: bool)
    ensures
        r == (utf8_len(h@) < limit),
{
    if limit == 0 {
        return false;
    }
    let mut total: usize = 0;
    let mut i: usize = 0;
    proof {
        assert(h@.take(0) =~= seq![]);
    }
    while i < h.len()
        invariant
            i <= h.len(),
            total == utf8_len(h@.take(i as int)),
            total < limit,
        decreases h.len() - i,
    {
        let c = h[i];
        let w: usize = if (c as u32) < 0x80 {
            1
        } else if (c as u32) < 0x800 {
            2
        } else if (c as u32) < 0x10000 {
            3
        } else {
            4
        };
        proof {
            assert(h@.take(i + 1).drop_last() =~= h@.take(i as int));
        }
        if w >= limit - total {
            proof {
                lemma_utf8_len_grows(h@, i + 1);
            }
            return false;
        }
        total = total + w;
        i += 1;
    }
    proof {
        assert(h@.take(h.len() as int) =~= h@);
    }
    true
}

/// Is `code` anchored in `text`?  `construction*` codes need the building
/// sense of the word.
pub fn is_grounded(code: &str, text: &str) -> (r: bool)
    ensures
        r == grounded(code@, text@),
{
    if str_eq(code, "construction") || starts_with_str(code, "construction_") {
        if !is_match(CONSTRUCTION_WORD_RE, text) {
            return false;
        }
        if is_match(CONSTRUCTION_BUILDING_RE, text) {
            return true;
        }
        return !is_match(CONSTRUCTION_INTERPRETATION_RE, text) && !is_match(CONSTRUCTION_PRODUCT_RE, text);
    }
    let lower = to_lowercase(text);
    let lv = to_chars(lower.as_str());
    proof {
        lemma_first_head_nonempty(split_pieces(code@));
    }
    match head_of(code) {
        None => true,
        Some(h) => {
            if utf8_shorter_than(&h, 4) {
                has_word_prefix(&lv, &h, true)
            } else {
                let n = if h.len() < 6 { h.len() } else { 6 };
                let mut cut: Vec<char> = Vec::new();
                let mut k: usize = 0;
                while k < n
                    invariant
                        k <= n <= h.len(),
                        cut@ == h@.take(k as int),
                    decreases n - k,
                {
                    cut.push(h[k]);
                    k += 1;
                    proof {
                        assert(cut@ =~= h@.take(k as int));
                    }
                }
                has_word_prefix(&lv, &cut, false)
            }
        },
    }
}

/// Is `code` part of the subject named by the law's own title?
pub fn is_title_subject(code: &str, ctx: &LawContext) -> (r: bool)
    ensures
        r == (ctx.title@.len() > 0 && grounded(code@, ctx.title@)),
{
    let t = to_chars(ctx.title.as_str());
    t.len() > 0 && is_grounded(code, ctx.title.as_str())
}


// ---------------------------------------------------------------------------
// Compilation model

/// (polarity, entities, text)
pub type MentionView = (Seq<char>, Seq<Seq<char>>, Seq<char>);

impl View for MentionInput {
    type V = MentionView;

    open spec fn view(&self) -> MentionView {
        (self.polarity@, strings_view(self.entities), self.text@)
    }
}

pub open spec fn opt_strings_view(o: Option<Vec<String>>) -> Option<Seq<Seq<char>>> {
    match o {
        Some(v) => Some(strings_view(v)),
        None => None,
    }
}

/// The entries of a string-keyed map, by the characters of key and value.
pub open spec fn string_map(m: Map<String, String>) -> Map<Seq<char>, Seq<char>> {
    Map::new(
        |k: Seq<char>| exists|s: String| m.dom().contains(s) && s@ == k,
        |k: Seq<char>| m[choose|s: String| m.dom().contains(s) && s@ == k]@,
    )
}

/// `HashMap::get`, looked up with a string slice: the value stored under the
/// key with these characters, if there is one.
#[verifier::external_body]
fn lookup(map: &HashMap<String, String>, key: &str) -> (r: Option<String>)
    ensures
        match r {
            Some(v) => string_map(map@).contains_key(key@) && string_map(map@)[key@] == v@,
            None => !string_map(map@).contains_key(key@),
        },
{
    map.get(key).cloned()
}

pub open spec fn is_applies(pol: Seq<char>) -> bool {
    pol == "AppliesTo"@ || pol == "ExtendsTo"@
}

pub open spec fn is_disapplies(pol: Seq<char>) -> bool {
    pol == "DisappliesTo"@
}

pub open spec fn is_date_entity(e: Seq<char>) -> bool {
    iso_date_shape(vstd::utf8::encode_utf8(e))
}

/// The dimension of an entity: its entry in `dims` (by lower-cased name), else `material`.
pub open spec fn dim_for(dims: Map<Seq<char>, Seq<char>>, e: Seq<char>) -> Seq<char> {
    let k = str_lowercase(e);
    if dims.contains_key(k) { dims[k] } else { "material"@ }
}

/// A code that may gate: grounded in the stripped text or the title, not a
/// government actor, not a jurisdiction, and (in a disapplication) not the
/// subject of the law's title.
pub open spec fn keeps_code(code: Seq<char>, stripped: Seq<char>, title: Seq<char>, disapplies: bool) -> bool {
    &&& (grounded(code, stripped) || grounded(code, title))
    &&& !str_views(gov_actor_codes_spec()).contains(code)
    &&& !str_views(jurisdiction_codes_spec()).contains(code)
    &&& !(disapplies && title.len() > 0 && grounded(code, title))
}

/// (dimension, code) of each kept entity, in entity order.
pub open spec fn mention_pairs(
    ents: Seq<Seq<char>>,
    stripped: Seq<char>,
    title: Seq<char>,
    dims: Map<Seq<char>, Seq<char>>,
    disapplies: bool,
) -> Seq<(Seq<char>, Seq<char>)>
    decreases ents.len(),
{
    if ents.len() == 0 {
        seq![]
    } else {
        let prev = mention_pairs(ents.drop_last(), stripped, title, dims, disapplies);
        let e = ents.last();
        let code = underscored(str_lowercase(e));
        if !is_date_entity(e) && keeps_code(code, stripped, title, disapplies) {
            prev.push((dim_for(dims, e), code))
        } else {
            prev
        }
    }
}

/// The codes of the pairs on dimension `d`, in order.
pub open spec fn codes_on(pairs: Seq<(Seq<char>, Seq<char>)>, d: Seq<char>) -> Seq<Seq<char>>
    decreases pairs.len(),
{
    if pairs.len() == 0 {
        seq![]
    } else if pairs.last().0 == d {
        codes_on(pairs.drop_last(), d).push(pairs.last().1)
    } else {
        codes_on(pairs.drop_last(), d)
    }
}

pub open spec fn pair_dims(pairs: Seq<(Seq<char>, Seq<char>)>) -> Seq<Seq<char>> {
    Seq::new(pairs.len(), |i: int| pairs[i].0)
}

/// One `AnyOf` match per dimension (dimensions in character order), under an `And`.
pub open spec fn mention_node(pairs: Seq<(Seq<char>, Seq<char>)>) -> Tree {
    let ds = sorted_set(pair_dims(pairs));
    and_spec(Seq::new(ds.len(), |i: int| Tree::Match { dimension: ds[i], codes: codes_on(pairs, ds[i]), match_op: MatchOp::AnyOf }))
}

/// Dates collected from one mention's entities: commencement dates of an
/// applies-to law-level commencement, sunset dates of a law-level sunset.
pub open spec fn mention_dates(ents: Seq<Seq<char>>, take: bool) -> Seq<Seq<char>>
    decreases ents.len(),
{
    if ents.len() == 0 {
        seq![]
    } else if take && is_date_entity(ents.last()) {
        mention_dates(ents.drop_last(), take).push(ents.last())
    } else {
        mention_dates(ents.drop_last(), take)
    }
}

/// (applies nodes, law-level disapplies nodes, from dates, to dates)
pub type Gathered = (Seq<Tree>, Seq<Tree>, Seq<Seq<char>>, Seq<Seq<char>>);

pub open spec fn gather_step(g: Gathered, m: MentionView, dims: Map<Seq<char>, Seq<char>>, title: Seq<char>) -> Gathered {
    let (pol, ents, text) = m;
    let applies = is_applies(pol);
    let disapplies = is_disapplies(pol);
    let stripped = replace_all_spec(CITATION_RE@, text, " "@);
    let take_from = applies && is_match_spec(LAW_COMMENCEMENT_RE@, text);
    let take_to = !take_from && disapplies && is_match_spec(LAW_SUNSET_RE@, text);
    let pairs = mention_pairs(ents, stripped, title, dims, disapplies);
    let node = mention_node(pairs);
    let ap = if pairs.len() > 0 && !disapplies && applies { g.0.push(node) } else { g.0 };
    let dp = if pairs.len() > 0 && disapplies && is_match_spec(LAW_DISAPPLY_RE@, trim_start(text)) { g.1.push(node) } else { g.1 };
    (ap, dp, g.2 + mention_dates(ents, take_from), g.3 + mention_dates(ents, take_to))
}

pub open spec fn gather(ms: Seq<MentionView>, dims: Map<Seq<char>, Seq<char>>, title: Seq<char>) -> Gathered
    decreases ms.len(),
{
    if ms.len() == 0 {
        (seq![], seq![], seq![], seq![])
    } else {
        gather_step(gather(ms.drop_last(), dims, title), ms.last(), dims, title)
    }
}

/// All codes in a subtree, in order.
pub open spec fn codes_spec(t: Tree) -> Seq<Seq<char>>
    decreases t,
{
    match t {
        Tree::Match { codes, .. } => codes,
        Tree::And { children } => codes_all(children),
        Tree::Or { children } => codes_all(children),
        Tree::Not { child } => codes_spec(*child),
        Tree::Conditional { condition, then } => codes_spec(*condition) + codes_spec(*then),
        Tree::TimeWindow { inner, .. } => match inner {
            Some(b) => codes_spec(*b),
            None => seq![],
        },
    }
}

pub open spec fn codes_all(cs: Seq<Tree>) -> Seq<Seq<char>>
    decreases cs,
{
    if cs.len() == 0 {
        seq![]
    } else {
        codes_all(cs.drop_last()) + (if 0 < cs.len() { codes_spec(cs[cs.len() - 1]) } else { seq![] })
    }
}


pub open spec fn seq_min(s: Seq<Seq<char>>) -> Seq<char>
    decreases s.len(),
{
    if s.len() <= 1 {
        s[0]
    } else {
        let m = seq_min(s.drop_last());
        if lex_lt(s.last(), m) { s.last() } else { m }
    }
}

pub open spec fn seq_max(s: Seq<Seq<char>>) -> Seq<char>
    decreases s.len(),
{
    if s.len() <= 1 {
        s[0]
    } else {
        let m = seq_max(s.drop_last());
        if lex_lt(m, s.last()) { s.last() } else { m }
    }
}

/// Does any of `codes` occur in `set`?
pub open spec fn shares_code(codes: Seq<Seq<char>>, set: Seq<Seq<char>>) -> bool {
    exists|i: int| 0 <= i < codes.len() && set.contains(#[trigger] codes[i])
}

/// The nodes none of whose codes occurs in `set`.
pub open spec fn keep_unshared(ds: Seq<Tree>, set: Seq<Seq<char>>) -> Seq<Tree>
    decreases ds.len(),
{
    if ds.len() == 0 {
        seq![]
    } else if shares_code(codes_spec(ds.last()), set) {
        keep_unshared(ds.drop_last(), set)
    } else {
        keep_unshared(ds.drop_last(), set).push(ds.last())
    }
}

/// The time window: `from` the earliest commencement, `to` the latest sunset
/// unless it falls before `from`.
pub open spec fn window_spec(from: Seq<Seq<char>>, to: Seq<Seq<char>>) -> Option<Tree> {
    let f: Option<Seq<char>> = if from.len() > 0 { Some(seq_min(from)) } else { None };
    let t: Option<Seq<char>> = if to.len() > 0 && (f is None || !lex_lt(seq_max(to), f->0)) { Some(seq_max(to)) } else { None };
    if f is Some || t is Some {
        Some(Tree::TimeWindow { from: f, to: t, inner: None })
    } else {
        None
    }
}

/// The conditions under the root `And`: `Or` of the applies nodes, then the
/// negated `Or` of the law-level disapplications that share no code with them
/// (only when there are applies nodes), then the time window.
pub open spec fn top_nodes(g: Gathered) -> Seq<Tree> {
    let a: Seq<Tree> = if g.0.len() > 0 {
        let kept = keep_unshared(g.1, codes_all(g.0));
        if kept.len() > 0 {
            seq![or_spec(g.0), Tree::Not { child: Box::new(or_spec(kept)) }]
        } else {
            seq![or_spec(g.0)]
        }
    } else {
        seq![]
    };
    match window_spec(g.2, g.3) {
        Some(w) => a.push(w),
        None => a,
    }
}

/// The root application gate, first under the root `And`.
pub open spec fn with_gate_spec(tree: Option<Tree>, app: Option<Seq<Seq<char>>>) -> Option<Tree> {
    if app is Some && app->0.len() > 0 {
        let gate = Tree::Match { dimension: "territorial"@, codes: app->0, match_op: MatchOp::AnyOf };
        let rest: Seq<Tree> = match tree {
            Some(Tree::And { children }) => children,
            Some(other) => seq![other],
            None => seq![],
        };
        Some(normalize_spec(and_spec(seq![gate] + rest)))
    } else {
        tree
    }
}

/// The tree compiled from a law's mentions.
pub open spec fn compile_spec(
    ms: Seq<MentionView>,
    dims: Map<Seq<char>, Seq<char>>,
    title: Seq<char>,
    app: Option<Seq<Seq<char>>>,
) -> Option<Tree> {
    let top = top_nodes(gather(ms, dims, title));
    let tree = if top.len() == 0 { None } else { Some(normalize_spec(and_spec(top))) };
    with_gate_spec(tree, app)
}

pub open spec fn pairs_view(v: Vec<(String, String)>) -> Seq<(Seq<char>, Seq<char>)> {
    v@.map_values(|p: (String, String)| (p.0@, p.1@))
}


/// The kept (dimension, code) pairs of one mention's entities.
fn mention_pairs_exec(
    ents: &Vec<String>,
    stripped: &str,
    title: &str,
    dims: &HashMap<String, String>,
    disapplies: bool,
) -> (r: Vec<(String, String)>)
    ensures
        pairs_view(r) == mention_pairs(strings_view(*ents), stripped@, title@, string_map(dims@), disapplies),
{
    let ghost ev = strings_view(*ents);
    let title_chars = to_chars(title);
    let mut out: Vec<(String, String)> = Vec::new();
    let mut i: usize = 0;
    proof {
        assert(ev.take(0) =~= seq![]);
        assert(pairs_view(out) =~= seq![]);
    }
    while i < ents.len()
        invariant
            i <= ents.len(),
            ev == strings_view(*ents),
            title_chars@ == title@,
            pairs_view(out) == mention_pairs(ev.take(i as int), stripped@, title@, string_map(dims@), disapplies),
        decreases ents.len() - i,
    {
        let e = ents[i].as_str();
        proof {
            assert(ev.take(i + 1).drop_last() =~= ev.take(i as int));
            assert(ev.take(i + 1).last() == e@);
        }
        if !is_iso_date(e) {
            let code = to_code(e);
            let c = code.as_str();
            let keep = (is_grounded(c, stripped) || is_grounded(c, title)) && !is_gov_actor(c) && !is_jurisdiction(c)
                && !(disapplies && title_chars.len() > 0 && is_grounded(c, title));
            if keep {
                let lower = to_lowercase(e);
                let dim = match lookup(dims, lower.as_str()) {
                    Some(d) => d,
                    None => owned("material"),
                };
                let ghost before = pairs_view(out);
                out.push((dim, code));
                proof {
                    assert(pairs_view(out) =~= before.push((dim_for(string_map(dims@), e@), underscored(str_lowercase(e@)))));
                }
            }
        }
        i += 1;
    }
    proof {
        assert(ev.take(ents.len() as int) =~= ev);
    }
    out
}

/// Append the date entities of `ents` to `out` when `take`.
fn push_dates(out: &mut Vec<String>, ents: &Vec<String>, take: bool)
    ensures
        strings_view(*final(out)) == strings_view(*old(out)) + mention_dates(strings_view(*ents), take),
{
    let ghost ev = strings_view(*ents);
    let ghost start = strings_view(*out);
    let mut i: usize = 0;
    proof {
        assert(ev.take(0) =~= seq![]);
        assert(strings_view(*out) =~= start + seq![]);
    }
    while i < ents.len()
        invariant
            i <= ents.len(),
            ev == strings_view(*ents),
            strings_view(*out) == start + mention_dates(ev.take(i as int), take),
        decreases ents.len() - i,
    {
        let e = ents[i].as_str();
        proof {
            assert(ev.take(i + 1).drop_last() =~= ev.take(i as int));
            assert(ev.take(i + 1).last() == e@);
        }
        if take && is_iso_date(e) {
            let ghost before = strings_view(*out);
            out.push(owned(e));
            proof {
                assert(strings_view(*out) =~= before.push(e@));
            }
        }
        i += 1;
    }
    proof {
        assert(ev.take(ents.len() as int) =~= ev);
    }
}

/// One `AnyOf` match per dimension of `pairs`, under an `And`.
fn mention_node_exec(pairs: &Vec<(String, String)>) -> (r: ApplicabilityNode)
    ensures
        r@ == mention_node(pairs_view(*pairs)),
{
    let ghost pv = pairs_view(*pairs);
    let mut set = LabelSet::new();
    let mut i: usize = 0;
    proof {
        assert(set@.to_set() =~= pair_dims(pv).take(0).to_set());
    }
    while i < pairs.len()
        invariant
            i <= pairs.len(),
            pv == pairs_view(*pairs),
            set@.to_set() == pair_dims(pv).take(i as int).to_set(),
        decreases pairs.len() - i,
    {
        set.insert(pairs[i].0.as_str());
        proof {
            assert(pair_dims(pv).take(i + 1) =~= pair_dims(pv).take(i as int).push(pairs@[i as int].0@));
            pair_dims(pv).take(i as int).lemma_push_to_set_commute(pairs@[i as int].0@);
        }
        i += 1;
    }
    let ds = set.items();
    proof {
        assert(pair_dims(pv).take(pairs.len() as int) =~= pair_dims(pv));
        crate::applicability::lemma_sorted_set_is(set@, pair_dims(pv));
    }
    let ghost dsv = sorted_set(pair_dims(pv));
    let mut nodes: Vec<ApplicabilityNode> = Vec::new();
    let mut k: usize = 0;
    while k < ds.len()
        invariant
            k <= ds.len(),
            pv == pairs_view(*pairs),
            strings_view(*ds) == dsv,
            nodes.len() == k,
            forall|j: int| 0 <= j < k ==> (#[trigger] nodes@[j])@ == (Tree::Match {
                dimension: dsv[j],
                codes: codes_on(pv, dsv[j]),
                match_op: MatchOp::AnyOf,
            }),
        decreases ds.len() - k,
    {
        let d = ds[k].as_str();
        proof {
            assert(d@ == dsv[k as int]);
        }
        let mut codes: Vec<String> = Vec::new();
        let mut m: usize = 0;
        proof {
            assert(pv.take(0) =~= seq![]);
            assert(strings_view(codes) =~= seq![]);
        }
        while m < pairs.len()
            invariant
                m <= pairs.len(),
                pv == pairs_view(*pairs),
                strings_view(codes) == codes_on(pv.take(m as int), d@),
            decreases pairs.len() - m,
        {
            proof {
                assert(pv.take(m + 1).drop_last() =~= pv.take(m as int));
                assert(pv.take(m + 1).last() == (pairs@[m as int].0@, pairs@[m as int].1@));
            }
            if str_eq(pairs[m].0.as_str(), d) {
                let ghost before = strings_view(codes);
                codes.push(owned(pairs[m].1.as_str()));
                proof {
                    assert(strings_view(codes) =~= before.push(pairs@[m as int].1@));
                }
            }
            m += 1;
        }
        proof {
            assert(pv.take(pairs.len() as int) =~= pv);
        }
        nodes.push(ApplicabilityNode::match_any(d, codes));
        k += 1;
    }
    proof {
        assert(trees_of(nodes) =~= Seq::new(dsv.len(), |i: int| Tree::Match { dimension: dsv[i], codes: codes_on(pv, dsv[i]), match_op: MatchOp::AnyOf }));
    }
    ApplicabilityNode::and(nodes)
}


proof fn lemma_strings_append(a: Vec<String>, b: Vec<String>, c: Vec<String>)
    requires
        c@ == a@ + b@,
    ensures
        strings_view(c) == strings_view(a) + strings_view(b),
{
    assert(strings_view(c) =~= strings_view(a) + strings_view(b));
}

/// All codes in a subtree, in order.
pub fn codes_of(node: &ApplicabilityNode) -> (r: Vec<String>)
    ensures
        strings_view(r) == codes_spec(node@),
    decreases *node, 1nat,
{
    match node {
        ApplicabilityNode::Match { codes, .. } => {
            let mut out: Vec<String> = Vec::new();
            let mut i: usize = 0;
            while i < codes.len()
                invariant
                    i <= codes.len(),
                    out.len() == i,
                    forall|j: int| 0 <= j < i ==> (#[trigger] out@[j])@ == codes@[j]@,
                decreases codes.len() - i,
            {
                out.push(owned(codes[i].as_str()));
                i += 1;
            }
            proof {
                assert(strings_view(out) =~= strings_view(*codes));
            }
            out
        },
        ApplicabilityNode::And { children } => {
            proof {
                assert(decreases_to!(*node => node->And_children));
            }
            codes_of_children(children, Ghost(*node))
        },
        ApplicabilityNode::Or { children } => {
            proof {
                assert(decreases_to!(*node => node->Or_children));
            }
            codes_of_children(children, Ghost(*node))
        },
        ApplicabilityNode::Not { child } => codes_of(child),
        ApplicabilityNode::Conditional { condition, then } => {
            let mut a = codes_of(condition);
            let mut b = codes_of(then);
            let ghost a0 = a;
            let ghost b0 = b;
            a.append(&mut b);
            proof {
                lemma_strings_append(a0, b0, a);
            }
            a
        },
        ApplicabilityNode::TimeWindow { inner, .. } => match inner {
            Some(b) => codes_of(b),
            None => {
                let out: Vec<String> = Vec::new();
                proof {
                    assert(strings_view(out) =~= seq![]);
                }
                out
            },
        },
    }
}

fn codes_of_children(x: &Vec<ApplicabilityNode>, Ghost(parent): Ghost<ApplicabilityNode>) -> (r: Vec<String>)
    requires
        decreases_to!(parent => *x),
    ensures
        strings_view(r) == codes_all(trees_of(*x)),
    decreases parent, 0nat,
{
    let ghost t = trees_of(*x);
    let mut out: Vec<String> = Vec::new();
    let mut i: usize = 0;
    proof {
        assert(t.take(0) =~= seq![]);
        assert(strings_view(out) =~= seq![]);
    }
    while i < x.len()
        invariant
            i <= x.len(),
            t == trees_of(*x),
            decreases_to!(parent => *x),
            strings_view(out) == codes_all(t.take(i as int)),
        decreases x.len() - i,
    {
        proof {
            assert(decreases_to!(*x => x@));
            assert(decreases_to!(x@ => x@[i as int]));
        }
        let mut sub = codes_of(&x[i]);
        let ghost o0 = out;
        let ghost s0 = sub;
        out.append(&mut sub);
        proof {
            lemma_strings_append(o0, s0, out);
            assert(t.take(i + 1).drop_last() =~= t.take(i as int));
            assert(t.take(i + 1)[i as int] == x@[i as int]@);
        }
        i += 1;
    }
    proof {
        assert(t.take(x.len() as int) =~= t);
    }
    out
}

/// Is a string with the characters of `x` among `v`?
fn has_string(v: &Vec<String>, x: &str) -> (r: bool)
    ensures
        r == strings_view(*v).contains(x@),
{
    let ghost sv = strings_view(*v);
    let mut i: usize = 0;
    while i < v.len()
        invariant
            i <= v.len(),
            sv == strings_view(*v),
            forall|j: int| 0 <= j < i ==> sv[j] != x@,
        decreases v.len() - i,
    {
        if str_eq(v[i].as_str(), x) {
            proof {
                assert(sv[i as int] == x@);
            }
            return true;
        }
        i += 1;
    }
    false
}

/// Does any code of `node` occur in `set`?
fn shares_code_exec(node: &ApplicabilityNode, set: &Vec<String>) -> (r: bool)
    ensures
        r == shares_code(codes_spec(node@), strings_view(*set)),
{
    let cs = codes_of(node);
    let ghost cv = codes_spec(node@);
    let mut i: usize = 0;
    while i < cs.len()
        invariant
            i <= cs.len(),
            strings_view(cs) == cv,
            cv == codes_spec(node@),
            forall|j: int| 0 <= j < i ==> !strings_view(*set).contains(#[trigger] cv[j]),
        decreases cs.len() - i,
    {
        if has_string(set, cs[i].as_str()) {
            proof {
                assert(strings_view(cs)[i as int] == cs@[i as int]@);
                assert(cv[i as int] == cs@[i as int]@);
                assert(0 <= i < cv.len());
                assert(strings_view(*set).contains(cv[i as int]));
            }
            return true;
        }
        i += 1;
    }
    false
}

/// The nodes none of whose codes occurs in `set`, in order.
fn keep_unshared_exec(ds: Vec<ApplicabilityNode>, set: &Vec<String>) -> (r: Vec<ApplicabilityNode>)
    ensures
        trees_of(r) == keep_unshared(trees_of(ds), strings_view(*set)),
{
    let ghost t = trees_of(ds);
    let mut rest = ds;
    let total = rest.len();
    let mut out: Vec<ApplicabilityNode> = Vec::new();
    let mut k: usize = 0;
    proof {
        assert(t.take(0) =~= seq![]);
        assert(trees_of(out) =~= seq![]);
        assert(trees_of(rest) =~= t.skip(0));
    }
    while rest.len() > 0
        invariant
            k <= t.len(),
            t.len() == total,
            rest.len() == t.len() - k,
            trees_of(rest) == t.skip(k as int),
            trees_of(out) == keep_unshared(t.take(k as int), strings_view(*set)),
        decreases rest.len(),
    {
        let ghost before_rest = rest;
        let c = rest.remove(0);
        proof {
            assert(trees_of(rest) =~= trees_of(before_rest).drop_first());
            assert(trees_of(before_rest)[0] == c@);
            assert(t.skip(k as int).drop_first() =~= t.skip(k + 1));
            assert(t.take(k + 1).drop_last() =~= t.take(k as int));
        }
        if !shares_code_exec(&c, set) {
            let ghost before = out;
            out.push(c);
            proof {
                assert(trees_of(out) =~= trees_of(before).push(c@));
            }
        }
        k += 1;
    }
    proof {
        assert(t.take(k as int) =~= t);
    }
    out
}

/// The smallest string of `v`, in character order.
fn min_string(v: &Vec<String>) -> (r: String)
    requires
        v.len() > 0,
    ensures
        r@ == seq_min(strings_view(*v)),
{
    let ghost sv = strings_view(*v);
    let mut best: usize = 0;
    let mut i: usize = 1;
    proof {
        assert(sv.take(1).drop_last().len() == 0);
    }
    while i < v.len()
        invariant
            1 <= i <= v.len(),
            best < v.len(),
            sv == strings_view(*v),
            v@[best as int]@ == seq_min(sv.take(i as int)),
        decreases v.len() - i,
    {
        proof {
            assert(sv.take(i + 1).drop_last() =~= sv.take(i as int));
        }
        if lex_less(v[i].as_str(), v[best].as_str()) {
            best = i;
        }
        i += 1;
    }
    proof {
        assert(sv.take(v.len() as int) =~= sv);
    }
    owned(v[best].as_str())
}

/// The largest string of `v`, in character order.
fn max_string(v: &Vec<String>) -> (r: String)
    requires
        v.len() > 0,
    ensures
        r@ == seq_max(strings_view(*v)),
{
    let ghost sv = strings_view(*v);
    let mut best: usize = 0;
    let mut i: usize = 1;
    proof {
        assert(sv.take(1).drop_last().len() == 0);
    }
    while i < v.len()
        invariant
            1 <= i <= v.len(),
            best < v.len(),
            sv == strings_view(*v),
            v@[best as int]@ == seq_max(sv.take(i as int)),
        decreases v.len() - i,
    {
        proof {
            assert(sv.take(i + 1).drop_last() =~= sv.take(i as int));
        }
        if lex_less(v[best].as_str(), v[i].as_str()) {
            best = i;
        }
        i += 1;
    }
    proof {
        assert(sv.take(v.len() as int) =~= sv);
    }
    owned(v[best].as_str())
}


pub open spec fn opt_tree_view(o: Option<ApplicabilityNode>) -> Option<Tree> {
    match o {
        Some(n) => Some(n@),
        None => None,
    }
}

/// All codes of a list of nodes, in order.
fn codes_of_list(x: &Vec<ApplicabilityNode>) -> (r: Vec<String>)
    ensures
        strings_view(r) == codes_all(trees_of(*x)),
{
    let ghost t = trees_of(*x);
    let mut out: Vec<String> = Vec::new();
    let mut i: usize = 0;
    proof {
        assert(t.take(0) =~= seq![]);
        assert(strings_view(out) =~= seq![]);
    }
    while i < x.len()
        invariant
            i <= x.len(),
            t == trees_of(*x),
            strings_view(out) == codes_all(t.take(i as int)),
        decreases x.len() - i,
    {
        let mut sub = codes_of(&x[i]);
        let ghost o0 = out;
        let ghost s0 = sub;
        out.append(&mut sub);
        proof {
            lemma_strings_append(o0, s0, out);
            assert(t.take(i + 1).drop_last() =~= t.take(i as int));
            assert(t.take(i + 1)[i as int] == x@[i as int]@);
        }
        i += 1;
    }
    proof {
        assert(t.take(x.len() as int) =~= t);
    }
    out
}

/// Put the law's application, as a territorial gate, first under the root `And`.
fn with_application_gate(tree: Option<ApplicabilityNode>, ctx: &LawContext) -> (r: Option<ApplicabilityNode>)
    ensures
        opt_tree_view(r) == with_gate_spec(opt_tree_view(tree), opt_strings_view(ctx.application)),
{
    let regions: &Vec<String> = match &ctx.application {
        Some(rs) => {
            if rs.len() == 0 {
                return tree;
            }
            rs
        },
        None => {
            return tree;
        },
    };
    let gate = ApplicabilityNode::match_any("territorial", crate::applicability::clone_strings(regions));
    let mut top: Vec<ApplicabilityNode> = Vec::new();
    top.push(gate);
    let ghost g = gate@;
    proof {
        assert(trees_of(top) =~= seq![g]);
    }
    match tree {
        Some(ApplicabilityNode::And { children }) => {
            let mut cs = children;
            let ghost t0 = top;
            let ghost c0 = cs;
            top.append(&mut cs);
            proof {
                assert(trees_of(top) =~= trees_of(t0) + trees_of(c0));
            }
        },
        Some(other) => {
            let ghost t0 = top;
            top.push(other);
            proof {
                assert(trees_of(top) =~= trees_of(t0).push(other@));
                assert(seq![g] + seq![other@] =~= seq![g].push(other@));
            }
        },
        None => {
            proof {
                assert(seq![g] + Seq::<Tree>::empty() =~= seq![g]);
            }
        },
    }
    Some(ApplicabilityNode::and(top).normalize())
}

pub open spec fn mentions_view(ms: Seq<MentionInput>) -> Seq<MentionView> {
    ms.map_values(|m: MentionInput| m@)
}

/// Compile all mentions of one law; `None` when nothing survives and the law
/// has no application to gate on.
pub fn compile_law(mentions: &[MentionInput], entity_dims: &HashMap<String, String>, ctx: &LawContext) -> (r: Option<ApplicabilityNode>)
    ensures
        opt_tree_view(r) == compile_spec(mentions_view(mentions@), string_map(entity_dims@), ctx.title@, opt_strings_view(ctx.application)),
{
    let ghost mv = mentions_view(mentions@);
    let ghost dm = string_map(entity_dims@);
    let ghost title = ctx.title@;
    let mut applies_nodes: Vec<ApplicabilityNode> = Vec::new();
    let mut disapplies_nodes: Vec<ApplicabilityNode> = Vec::new();
    let mut from_dates: Vec<String> = Vec::new();
    let mut to_dates: Vec<String> = Vec::new();
    let mut i: usize = 0;
    proof {
        assert(mv.take(0) =~= seq![]);
        assert(trees_of(applies_nodes) =~= seq![]);
        assert(trees_of(disapplies_nodes) =~= seq![]);
        assert(strings_view(from_dates) =~= seq![]);
        assert(strings_view(to_dates) =~= seq![]);
    }
    while i < mentions.len()
        invariant
            i <= mentions.len(),
            mv == mentions_view(mentions@),
            dm == string_map(entity_dims@),
            title == ctx.title@,
            (trees_of(applies_nodes), trees_of(disapplies_nodes), strings_view(from_dates), strings_view(to_dates))
                == gather(mv.take(i as int), dm, title),
        decreases mentions.len() - i,
    {
        let m = &mentions[i];
        proof {
            assert(mv.take(i + 1).drop_last() =~= mv.take(i as int));
            assert(mv.take(i + 1).last() == m@);
        }
        let pol = m.polarity.as_str();
        let text = m.text.as_str();
        let applies = str_eq(pol, "AppliesTo") || str_eq(pol, "ExtendsTo");
        let disapplies = str_eq(pol, "DisappliesTo");
        let stripped = strip_citations(text);
        let take_from = applies && is_law_commencement(text);
        let take_to = !take_from && disapplies && is_law_sunset(text);
        push_dates(&mut from_dates, &m.entities, take_from);
        push_dates(&mut to_dates, &m.entities, take_to);
        let pairs = mention_pairs_exec(&m.entities, stripped.as_str(), ctx.title.as_str(), entity_dims, disapplies);
        if pairs.len() > 0 {
            let node = mention_node_exec(&pairs);
            if disapplies {
                if is_law_level_disapplication(text) {
                    let ghost d0 = disapplies_nodes;
                    disapplies_nodes.push(node);
                    proof {
                        assert(trees_of(disapplies_nodes) =~= trees_of(d0).push(node@));
                    }
                }
            } else if applies {
                let ghost a0 = applies_nodes;
                applies_nodes.push(node);
                proof {
                    assert(trees_of(applies_nodes) =~= trees_of(a0).push(node@));
                }
            }
        }
        i += 1;
    }
    proof {
        assert(mv.take(mentions.len() as int) =~= mv);
    }
    let ghost g = gather(mv, dm, title);
    let mut top: Vec<ApplicabilityNode> = Vec::new();
    if applies_nodes.len() > 0 {
        let applies_codes = codes_of_list(&applies_nodes);
        let kept = keep_unshared_exec(disapplies_nodes, &applies_codes);
        let or_node = ApplicabilityNode::or(applies_nodes);
        top.push(or_node);
        if kept.len() > 0 {
            let not_node = ApplicabilityNode::or(kept).negate();
            top.push(not_node);
            proof {
                assert(trees_of(top) =~= seq![or_node@, not_node@]);
            }
        } else {
            proof {
                assert(trees_of(top) =~= seq![or_node@]);
            }
        }
    } else {
        proof {
            assert(trees_of(top) =~= seq![]);
        }
    }
    let from: Option<String> = if from_dates.len() > 0 { Some(min_string(&from_dates)) } else { None };
    let to: Option<String> = if to_dates.len() > 0 {
        let mx = max_string(&to_dates);
        let keep = match &from {
            Some(f) => !lex_less(mx.as_str(), f.as_str()),
            None => true,
        };
        if keep { Some(mx) } else { None }
    } else {
        None
    };
    if from.is_some() || to.is_some() {
        let fs: Option<&str> = match &from {
            Some(f) => Some(f.as_str()),
            None => None,
        };
        let ts: Option<&str> = match &to {
            Some(t) => Some(t.as_str()),
            None => None,
        };
        let w = ApplicabilityNode::time_window(fs, ts);
        let ghost t0 = top;
        top.push(w);
        proof {
            assert(trees_of(top) =~= trees_of(t0).push(w@));
        }
    }
    let tree = if top.len() == 0 {
        None
    } else {
        Some(ApplicabilityNode::and(top).normalize())
    };
    with_application_gate(tree, ctx)
}


// ---------------------------------------------------------------------------
// Repair of stored trees

/// A code a repaired tree keeps: not a government actor or jurisdiction, not
/// the title's subject under a `Not`, and `construction*` only when the title
/// grounds it.
pub open spec fn keeps_repaired(c: Seq<char>, title: Seq<char>, negated: bool) -> bool {
    &&& !str_views(gov_actor_codes_spec()).contains(c)
    &&& !str_views(jurisdiction_codes_spec()).contains(c)
    &&& !(negated && title.len() > 0 && grounded(c, title))
    &&& (!is_construction_code(c) || grounded(c, title))
}

pub open spec fn repaired_codes(cs: Seq<Seq<char>>, title: Seq<char>, negated: bool) -> Seq<Seq<char>>
    decreases cs.len(),
{
    if cs.len() == 0 {
        seq![]
    } else if keeps_repaired(cs.last(), title, negated) {
        repaired_codes(cs.drop_last(), title, negated).push(cs.last())
    } else {
        repaired_codes(cs.drop_last(), title, negated)
    }
}

/// A subtree with the text-free fixes applied; `None` when nothing is left.
pub open spec fn repair_go(t: Tree, title: Seq<char>, negated: bool) -> Option<Tree>
    decreases t,
{
    match t {
        Tree::Match { dimension, codes, match_op } => {
            let k = repaired_codes(codes, title, negated);
            if k.len() == 0 { None } else { Some(Tree::Match { dimension, codes: k, match_op }) }
        },
        Tree::And { children } => {
            let kids = repair_all(children, title, negated);
            if kids.len() == 0 { None } else { Some(and_spec(kids)) }
        },
        Tree::Or { children } => {
            let kids = repair_all(children, title, negated);
            if kids.len() == 0 { None } else { Some(or_spec(kids)) }
        },
        Tree::Not { child } => match repair_go(*child, title, !negated) {
            Some(n) => Some(Tree::Not { child: Box::new(n) }),
            None => None,
        },
        Tree::Conditional { condition, then } => match (repair_go(*condition, title, negated), repair_go(*then, title, negated)) {
            (Some(c), Some(n)) => Some(Tree::Conditional { condition: Box::new(c), then: Box::new(n) }),
            (None, Some(n)) => Some(n),
            _ => None,
        },
        Tree::TimeWindow { from, inner, .. } => match from {
            Some(f) => Some(Tree::TimeWindow { from: Some(f), to: None, inner }),
            None => None,
        },
    }
}

pub open spec fn repair_all(cs: Seq<Tree>, title: Seq<char>, negated: bool) -> Seq<Tree>
    decreases cs,
{
    if cs.len() == 0 {
        seq![]
    } else {
        let prev = repair_all(cs.drop_last(), title, negated);
        match (if 0 < cs.len() { repair_go(cs[cs.len() - 1], title, negated) } else { None }) {
            Some(n) => prev.push(n),
            None => prev,
        }
    }
}

/// The `from` dates of the time windows among `cs`, in order.
pub open spec fn window_froms(cs: Seq<Tree>) -> Seq<Seq<char>>
    decreases cs.len(),
{
    if cs.len() == 0 {
        seq![]
    } else {
        match cs.last() {
            Tree::TimeWindow { from: Some(f), .. } => window_froms(cs.drop_last()).push(f),
            _ => window_froms(cs.drop_last()),
        }
    }
}

/// The children of `cs` that are not time windows, in order.
pub open spec fn non_windows(cs: Seq<Tree>) -> Seq<Tree>
    decreases cs.len(),
{
    if cs.len() == 0 {
        seq![]
    } else if cs.last() is TimeWindow {
        non_windows(cs.drop_last())
    } else {
        non_windows(cs.drop_last()).push(cs.last())
    }
}

/// Several time windows under the root `And` become one, from the earliest date.
pub open spec fn one_window(t: Tree) -> Tree {
    match t {
        Tree::And { children } => {
            let rest = non_windows(children);
            let fs = window_froms(children);
            and_spec(if fs.len() > 0 {
                rest.push(Tree::TimeWindow { from: Some(seq_min(fs)), to: None, inner: None })
            } else {
                rest
            })
        },
        other => other,
    }
}

pub open spec fn repair_spec(t: Tree, title: Seq<char>, app: Option<Seq<Seq<char>>>) -> Option<Tree> {
    match repair_go(t, title, false) {
        Some(n) => with_gate_spec(Some(one_window(normalize_spec(n))), app),
        None => None,
    }
}

fn repaired_codes_exec(codes: Vec<String>, title: &str, negated: bool) -> (r: Vec<String>)
    ensures
        strings_view(r) == repaired_codes(strings_view(codes), title@, negated),
{
    let ghost cv = strings_view(codes);
    let title_chars = to_chars(title);
    let mut out: Vec<String> = Vec::new();
    let mut i: usize = 0;
    proof {
        assert(cv.take(0) =~= seq![]);
        assert(strings_view(out) =~= seq![]);
    }
    while i < codes.len()
        invariant
            i <= codes.len(),
            cv == strings_view(codes),
            title_chars@ == title@,
            strings_view(out) == repaired_codes(cv.take(i as int), title@, negated),
        decreases codes.len() - i,
    {
        let c = codes[i].as_str();
        proof {
            assert(cv.take(i + 1).drop_last() =~= cv.take(i as int));
            assert(cv.take(i + 1).last() == c@);
        }
        let construction = str_eq(c, "construction") || starts_with_str(c, "construction_");
        let keep = !is_gov_actor(c) && !is_jurisdiction(c)
            && !(negated && title_chars.len() > 0 && is_grounded(c, title))
            && (!construction || is_grounded(c, title));
        if keep {
            let ghost before = strings_view(out);
            out.push(owned(c));
            proof {
                assert(strings_view(out) =~= before.push(c@));
            }
        }
        i += 1;
    }
    proof {
        assert(cv.take(codes.len() as int) =~= cv);
    }
    out
}

fn repair_node(node: ApplicabilityNode, title: &str, negated: bool) -> (r: Option<ApplicabilityNode>)
    ensures
        opt_tree_view(r) == repair_go(node@, title@, negated),
    decreases node, 1nat,
{
    let ghost me = node;
    match node {
        ApplicabilityNode::Match { dimension, codes, match_op } => {
            let k = repaired_codes_exec(codes, title, negated);
            if k.len() == 0 {
                None
            } else {
                Some(ApplicabilityNode::Match { dimension, codes: k, match_op })
            }
        },
        ApplicabilityNode::And { children } => {
            proof {
                assert(decreases_to!(me => me->And_children));
            }
            let kids = repair_children(children, title, negated, Ghost(me));
            if kids.len() == 0 {
                None
            } else {
                Some(ApplicabilityNode::and(kids))
            }
        },
        ApplicabilityNode::Or { children } => {
            proof {
                assert(decreases_to!(me => me->Or_children));
            }
            let kids = repair_children(children, title, negated, Ghost(me));
            if kids.len() == 0 {
                None
            } else {
                Some(ApplicabilityNode::or(kids))
            }
        },
        ApplicabilityNode::Not { child } => match repair_node(*child, title, !negated) {
            Some(n) => Some(n.negate()),
            None => None,
        },
        ApplicabilityNode::Conditional { condition, then } => {
            let c = repair_node(*condition, title, negated);
            let t = repair_node(*then, title, negated);
            match (c, t) {
                (Some(c), Some(t)) => Some(ApplicabilityNode::Conditional { condition: Box::new(c), then: Box::new(t) }),
                (None, Some(t)) => Some(t),
                _ => None,
            }
        },
        ApplicabilityNode::TimeWindow { from, inner, .. } => match from {
            Some(f) => Some(ApplicabilityNode::TimeWindow { from: Some(f), to: None, inner }),
            None => None,
        },
    }
}

fn repair_children(children: Vec<ApplicabilityNode>, title: &str, negated: bool, Ghost(parent): Ghost<ApplicabilityNode>) -> (r: Vec<ApplicabilityNode>)
    requires
        decreases_to!(parent => children),
    ensures
        trees_of(r) == repair_all(trees_of(children), title@, negated),
    decreases parent, 0nat,
{
    let ghost orig = children;
    let ghost t = trees_of(children);
    let mut rest = children;
    let total = rest.len();
    let mut out: Vec<ApplicabilityNode> = Vec::new();
    let mut k: usize = 0;
    proof {
        assert(decreases_to!(orig => orig@));
        assert(rest@ =~= orig@.skip(0));
        assert(t.take(0) =~= seq![]);
        assert(trees_of(out) =~= seq![]);
    }
    while rest.len() > 0
        invariant
            decreases_to!(parent => orig),
            decreases_to!(orig => orig@),
            t == trees_of(orig),
            total == orig@.len(),
            k <= total,
            rest.len() == total - k,
            rest@ == orig@.skip(k as int),
            trees_of(out) == repair_all(t.take(k as int), title@, negated),
        decreases rest.len(),
    {
        let c = rest.remove(0);
        proof {
            assert(c == orig@[k as int]);
            assert(decreases_to!(orig@ => orig@[k as int]));
            assert(rest@ =~= orig@.skip(k + 1));
            assert(t.take(k + 1).drop_last() =~= t.take(k as int));
            assert(t.take(k + 1)[k as int] == c@);
        }
        match repair_node(c, title, negated) {
            Some(n) => {
                let ghost before = out;
                out.push(n);
                proof {
                    assert(trees_of(out) =~= trees_of(before).push(n@));
                }
            },
            None => {},
        }
        k += 1;
    }
    proof {
        assert(t.take(k as int) =~= t);
    }
    out
}

/// Keep one time window under the root `And`, from the earliest date.
fn one_window_exec(node: ApplicabilityNode) -> (r: ApplicabilityNode)
    ensures
        r@ == one_window(node@),
{
    match node {
        ApplicabilityNode::And { children } => {
            let ghost t = trees_of(children);
            let mut rest = children;
            let total = rest.len();
            let mut kept: Vec<ApplicabilityNode> = Vec::new();
            let mut froms: Vec<String> = Vec::new();
            let mut k: usize = 0;
            proof {
                assert(t.take(0) =~= seq![]);
                assert(trees_of(kept) =~= seq![]);
                assert(strings_view(froms) =~= seq![]);
                assert(trees_of(rest) =~= t.skip(0));
            }
            while rest.len() > 0
                invariant
                    k <= t.len(),
                    t.len() == total,
                    rest.len() == t.len() - k,
                    trees_of(rest) == t.skip(k as int),
                    trees_of(kept) == non_windows(t.take(k as int)),
                    strings_view(froms) == window_froms(t.take(k as int)),
                decreases rest.len(),
            {
                let ghost before_rest = rest;
                let c = rest.remove(0);
                proof {
                    assert(trees_of(rest) =~= trees_of(before_rest).drop_first());
                    assert(trees_of(before_rest)[0] == c@);
                    assert(t.skip(k as int).drop_first() =~= t.skip(k + 1));
                    assert(t.take(k + 1).drop_last() =~= t.take(k as int));
                }
                match c {
                    ApplicabilityNode::TimeWindow { from, to, inner } => {
                        match from {
                            Some(f) => {
                                let ghost before = strings_view(froms);
                                froms.push(f);
                                proof {
                                    assert(strings_view(froms) =~= before.push(f@));
                                }
                            },
                            None => {},
                        }
                    },
                    other => {
                        let ghost before = kept;
                        kept.push(other);
                        proof {
                            assert(trees_of(kept) =~= trees_of(before).push(other@));
                        }
                    },
                }
                k += 1;
            }
            proof {
                assert(t.take(k as int) =~= t);
            }
            if froms.len() > 0 {
                let f = min_string(&froms);
                let w = ApplicabilityNode::time_window(Some(f.as_str()), None);
                let ghost before = kept;
                kept.push(w);
                proof {
                    assert(trees_of(kept) =~= trees_of(before).push(w@));
                }
            }
            ApplicabilityNode::and(kept)
        },
        other => other,
    }
}

/// Repair a previously compiled tree without its source mentions: normalise,
/// drop `to` dates, drop `construction*` codes the title does not ground,
/// drop government actors, jurisdictions and negated title subjects, keep
/// one time window from the earliest date, then gate on the application.
pub fn repair_tree(node: ApplicabilityNode, ctx: &LawContext) -> (r: Option<ApplicabilityNode>)
    ensures
        opt_tree_view(r) == repair_spec(node@, ctx.title@, opt_strings_view(ctx.application)),
{
    match repair_node(node, ctx.title.as_str(), false) {
        Some(n) => {
            let fixed = one_window_exec(n.normalize());
            with_application_gate(Some(fixed), ctx)
        },
        None => None,
    }
}

} // verus!
