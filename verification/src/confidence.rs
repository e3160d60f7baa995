//! Confidence of a regex-extracted clause, in hundredths.
//!
//! Signals add up from a base of 0: a captured action gives 25, a clean end
//! ('.' or ';') 25, a clause longer than 30 bytes 20, a strong modal (shall,
//! must) 15.  At most 85 comes from the regex pipeline alone; the remaining
//! 15 are left to AI refinement.

use vstd::prelude::*;
use crate::applicability_compile::{utf8_len, utf8_shorter_than};
use crate::rx::{is_match, is_match_spec};
use crate::text::to_chars;

verus! {

/// A strong modal verb as a whole word.
pub const STRONG_MODAL: &'static str = r"(?i)\b(?:shall|must)\b";

/// Does the clause end cleanly, with '.' or ';'?
pub open spec fn ends_cleanly(clause: Seq<char>) -> bool {
    clause.len() > 0 && (clause.last() == '.' || clause.last() == ';')
}

/// The confidence of a clause, in hundredths: 0 for an empty clause, else
/// the sum of the signals that hold.
pub open spec fn score_spec(clause: Seq<char>, has_captured_action: bool) -> int {
    if clause.len() == 0 {
        0
    } else {
        (if has_captured_action { 25int } else { 0int })
            + (if ends_cleanly(clause) { 25int } else { 0int })
            + (if utf8_len(clause) > 30 { 20int } else { 0int })
            + (if is_match_spec(STRONG_MODAL@, clause) { 15int } else { 0int })
    }
}

/// Score the confidence of a regex-extracted clause, in hundredths (0 to 85).
pub fn score(clause: &str, has_captured_action: bool) -> (r: u32)
    ensures
        r == score_spec(clause@, has_captured_action),
        r <= 85,
{
    let chars = to_chars(clause);
    if chars.len() == 0 {
        return 0;
    }
    let mut s: u32 = 0;
    if has_captured_action {
        s = s + 25;
    }
    let last = chars[chars.len() - 1];
    if last == '.' || last == ';' {
        s = s + 25;
    }
    if !utf8_shorter_than(&chars, 31) {
        s = s + 20;
    }
    if is_match(STRONG_MODAL, clause) {
        s = s + 15;
    }
    s
}

} // verus!
