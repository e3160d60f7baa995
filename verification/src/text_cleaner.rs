//! Normalise raw legislative text before classification: strip HTML tags and
//! entities, collapse whitespace, normalise quotation marks and dashes, strip a
//! leading provision number, and trim.

use vstd::prelude::*;
use crate::rx::{replace_all, replace_all_spec, replace_first, replace_first_spec};
use crate::text::{from_chars, to_chars, trim, trim_str};

verus! {

pub const HTML_TAG: &'static str = r"<[^>]+>";
pub const HTML_NAMED_ENTITY: &'static str = r"&[a-z]+;";
pub const HTML_NUMERIC_ENTITY: &'static str = r"&#\d+;";
pub const MULTI_WHITESPACE: &'static str = r"\s+";
/// Leading provision numbering in UK legislation: `(1)`, `2.`, `9.-(1)`, `-(1)`,
/// `- [F3 (1)`, `5. - [F3 (1)`, `5.- [F13 (1)`, `[F18 5`.
pub const LEADING_NUMBERING: &'static str =
    r"^\s*(?:\d+[a-z]?\s*\.?\s*)?-?\s*(?:\[F\d+\s*]?\s*)?-?\s*(?:\d+[a-z]?\s*\.?\s*)?(?:\(\d+[a-z]?\)\s*\.?\s*)?";

/// HTML tags, then named entities, then numeric entities, each replaced by a space.
pub open spec fn strip_html_spec(text: Seq<char>) -> Seq<char> {
    let s1 = replace_all_spec(HTML_TAG@, text, " "@);
    let s2 = replace_all_spec(HTML_NAMED_ENTITY@, s1, " "@);
    replace_all_spec(HTML_NUMERIC_ENTITY@, s2, " "@)
}

/// No-break, en and em spaces become ASCII spaces.
pub open spec fn space_variant(c: char) -> char {
    if c == '\u{a0}' || c == '\u{2002}' || c == '\u{2003}' {
        ' '
    } else {
        c
    }
}

/// Space variants become spaces, then every run of whitespace becomes one space.
pub open spec fn normalise_whitespace_spec(text: Seq<char>) -> Seq<char> {
    replace_all_spec(MULTI_WHITESPACE@, text.map_values(|c: char| space_variant(c)), " "@)
}

/// Smart quotes and dashes become their ASCII forms.
pub open spec fn ascii_punct(c: char) -> char {
    if c == '\u{2018}' || c == '\u{2019}' {
        '\''
    } else if c == '\u{201c}' || c == '\u{201d}' {
        '"'
    } else if c == '\u{2013}' || c == '\u{2014}' {
        '-'
    } else {
        c
    }
}

pub open spec fn normalise_punctuation_spec(text: Seq<char>) -> Seq<char> {
    text.map_values(|c: char| ascii_punct(c))
}

pub open spec fn strip_leading_numbering_spec(text: Seq<char>) -> Seq<char> {
    replace_first_spec(LEADING_NUMBERING@, text, ""@)
}

/// The cleaned form of `raw`.
pub open spec fn clean_spec(raw: Seq<char>) -> Seq<char> {
    trim(
        strip_leading_numbering_spec(
            normalise_punctuation_spec(normalise_whitespace_spec(strip_html_spec(raw))),
        ),
    )
}

/// Clean and normalise raw legislative text for classification: HTML stripped,
/// whitespace collapsed, punctuation normalised, leading numbering removed, trimmed.
pub fn clean(raw: &str) -> (r: String)
    ensures
        r@ == clean_spec(raw@),
{
    let s = strip_html(raw);
    let s = normalise_whitespace(s.as_str());
    let s = normalise_punctuation(s.as_str());
    let s = strip_leading_numbering(s.as_str());
    trim_str(s.as_str())
}

fn strip_html(text: &str) -> (r: String)
    ensures
        r@ == strip_html_spec(text@),
{
    let s = replace_all(HTML_TAG, text, " ");
    let s = replace_all(HTML_NAMED_ENTITY, s.as_str(), " ");
    replace_all(HTML_NUMERIC_ENTITY, s.as_str(), " ")
}

fn normalise_whitespace(text: &str) -> (r: String)
    ensures
        r@ == normalise_whitespace_spec(text@),
{
    let v = to_chars(text);
    let mut w: Vec<char> = Vec::new();
    let mut i: usize = 0;
    while i < v.len()
        invariant
            i <= v.len(),
            w@ == v@.subrange(0, i as int).map_values(|c: char| space_variant(c)),
        decreases v.len() - i,
    {
        let c = v[i];
        let d = if c == '\u{a0}' || c == '\u{2002}' || c == '\u{2003}' { ' ' } else { c };
        w.push(d);
        proof {
            assert(v@.subrange(0, i + 1).map_values(|c: char| space_variant(c))
                =~= v@.subrange(0, i as int).map_values(|c: char| space_variant(c)).push(d));
        }
        i += 1;
    }
    proof {
        assert(v@.subrange(0, v@.len() as int) == v@);
    }
    let s = from_chars(&w);
    replace_all(MULTI_WHITESPACE, s.as_str(), " ")
}

fn normalise_punctuation(text: &str) -> (r: String)
    ensures
        r@ == normalise_punctuation_spec(text@),
{
    let v = to_chars(text);
    let mut w: Vec<char> = Vec::new();
    let mut i: usize = 0;
    while i < v.len()
        invariant
            i <= v.len(),
            w@ == v@.subrange(0, i as int).map_values(|c: char| ascii_punct(c)),
        decreases v.len() - i,
    {
        let c = v[i];
        let d = if c == '\u{2018}' || c == '\u{2019}' {
            '\''
        } else if c == '\u{201c}' || c == '\u{201d}' {
            '"'
        } else if c == '\u{2013}' || c == '\u{2014}' {
            '-'
        } else {
            c
        };
        w.push(d);
        proof {
            assert(v@.subrange(0, i + 1).map_values(|c: char| ascii_punct(c))
                =~= v@.subrange(0, i as int).map_values(|c: char| ascii_punct(c)).push(d));
        }
        i += 1;
    }
    proof {
        assert(v@.subrange(0, v@.len() as int) == v@);
    }
    from_chars(&w)
}

fn strip_leading_numbering(text: &str) -> (r: String)
    ensures
        r@ == strip_leading_numbering_spec(text@),
{
    replace_first(LEADING_NUMBERING, text, "")
}

} // verus!
