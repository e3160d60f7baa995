//! Pipeline-level gates of the Taxa classifier: which provisions skip DRRP
//! classification, legal-fiction "shall", descriptive summaries, and whether
//! a provision's purposes can bear a duty.

use vstd::prelude::*;
use crate::order::str_views;
use crate::purpose::{
    AMENDMENT, APPLICATION_SCOPE, ENACTMENT, EXTENT, INTERPRETATION, OFFENCE, REPEAL_REVOCATION,
};
use crate::rx::{is_match, is_match_spec};
use crate::text::str_eq;

verus! {

/// Purposes that, alone, mean a provision has no DRRP of its own.
pub open spec fn skip_purposes() -> Seq<Seq<char>> {
    seq![ENACTMENT@, INTERPRETATION@, AMENDMENT@, REPEAL_REVOCATION@]
}

/// Should DRRP classification be skipped for these purposes?  Amendments
/// and repeals always skip; offences skip unless a government actor is
/// present; only an all-structural list (every purpose Enactment,
/// Interpretation, Amendment or Repeal) skips for want of an actor, so a
/// mixed list such as Interpretation + Process+Rule is still classified; an
/// Application+Scope-first list skips unless a government actor is present.
pub open spec fn skip_drrp_spec(purposes: Seq<Seq<char>>, governed: bool, government: bool) -> bool {
    let any_actor = governed || government;
    if purposes.len() == 0 {
        false
    } else if purposes.contains(AMENDMENT@) || purposes.contains(REPEAL_REVOCATION@) {
        true
    } else if purposes.contains(OFFENCE@) {
        !government
    } else if forall|i: int| 0 <= i < purposes.len() ==> skip_purposes().contains(#[trigger] purposes[i]) {
        !any_actor
    } else if purposes[0] == APPLICATION_SCOPE@ {
        !government
    } else {
        false
    }
}

/// Amendment and repeal provisions never bear their own DRRP, whatever
/// actors they mention: obligations in quoted text belong to the target.
pub proof fn lemma_amendment_always_skips(purposes: Seq<Seq<char>>, governed: bool, government: bool)
    requires
        purposes.contains(AMENDMENT@) || purposes.contains(REPEAL_REVOCATION@),
    ensures
        skip_drrp_spec(purposes, governed, government),
{
}

/// A provision with no purpose is never skipped.
pub proof fn lemma_no_purpose_never_skips(governed: bool, government: bool)
    ensures
        !skip_drrp_spec(Seq::<Seq<char>>::empty(), governed, government),
{
}

fn has_label(v: &[&str], x: &str) -> (r: bool)
    ensures
        r == str_views(v@).contains(x@),
{
    let mut i: usize = 0;
    while i < v.len()
        invariant
            i <= v.len(),
            forall|j: int| 0 <= j < i ==> v@[j]@ != x@,
        decreases v.len() - i,
    {
        if str_eq(v[i], x) {
            proof {
                assert(str_views(v@)[i as int] == x@);
            }
            return true;
        }
        i += 1;
    }
    proof {
        assert forall|j: int| 0 <= j < v@.len() implies str_views(v@)[j] != x@ by {
            assert(str_views(v@)[j] == v@[j]@);
        }
    }
    false
}

pub fn should_skip_drrp(purposes: &[&str], has_governed_actor: bool, has_government_actor: bool) -> (r: bool)
    ensures
        r == skip_drrp_spec(str_views(purposes@), has_governed_actor, has_government_actor),
{
    let ghost pv = str_views(purposes@);
    if purposes.len() == 0 {
        return false;
    }
    let has_any_actor = has_governed_actor || has_government_actor;
    if has_label(purposes, AMENDMENT) || has_label(purposes, REPEAL_REVOCATION) {
        return true;
    }
    if has_label(purposes, OFFENCE) {
        return !has_government_actor;
    }
    let skip = vec![ENACTMENT, INTERPRETATION, AMENDMENT, REPEAL_REVOCATION];
    let mut all_skip = true;
    let mut i: usize = 0;
    while i < purposes.len()
        invariant
            i <= purposes.len(),
            pv == str_views(purposes@),
            str_views(skip@) == skip_purposes(),
            all_skip == (forall|j: int| 0 <= j < i ==> skip_purposes().contains(#[trigger] pv[j])),
        decreases purposes.len() - i,
    {
        let inside = has_label(skip.as_slice(), purposes[i]);
        proof {
            assert(pv[i as int] == purposes@[i as int]@);
            if !inside {
                assert(!skip_purposes().contains(pv[i as int]));
            }
        }
        all_skip = all_skip && inside;
        i += 1;
    }
    if all_skip {
        return !has_any_actor;
    }
    proof {
        assert(pv[0] == purposes@[0]@);
    }
    if str_eq(purposes[0], APPLICATION_SCOPE) {
        return !has_government_actor;
    }
    false
}

/// "shall" in the legal-fiction or interpretive sense ("shall be treated as",
/// "shall not affect", "Nothing in ...").
pub const LEGAL_FICTION_RE: &'static str = r"(?i)\bshall\b\s+(?:be\s+(?:treated|deemed|construed|read|applied)|have\s+(?:the\s+)?effect|not\s+(?:affect|authorise|prejudice|apply\b|prevent|be\s+taken))|(?:^|[.;]\s*)Nothing\s+in\b";

/// Immunity and right-preservation wording, which expresses a liberty.
pub const IMMUNITY_RE: &'static str = r"(?i)Nothing\s+in\b.{0,60}\bshall\b.{0,30}\b(?:compel|require|oblige)|\bshall\s+not\s+affect\b.{0,40}\b(?:entitlement|right|privilege)|Nothing\s+in\b.{0,60}\b(?:taken|construed)\s+to\s+(?:compel|require)";

/// Legal-fiction wording that is not an immunity.
pub fn is_legal_fiction(text: &str) -> (r: bool)
    ensures
        r == (is_match_spec(LEGAL_FICTION_RE@, text@) && !is_match_spec(IMMUNITY_RE@, text@)),
{
    if !is_match(LEGAL_FICTION_RE, text) {
        return false;
    }
    !is_match(IMMUNITY_RE, text)
}

/// Purposes that never bear a duty.
pub open spec fn non_duty_purposes() -> Seq<Seq<char>> {
    seq![ENACTMENT@, INTERPRETATION@, AMENDMENT@, REPEAL_REVOCATION@, APPLICATION_SCOPE@, EXTENT@]
}

/// Some purpose can bear a duty.
pub fn is_duty_bearing_purpose(purposes: &[String]) -> (r: bool)
    ensures
        r == exists|i: int| 0 <= i < purposes@.len() && !non_duty_purposes().contains(#[trigger] purposes@[i]@),
{
    let non_duty = vec![ENACTMENT, INTERPRETATION, AMENDMENT, REPEAL_REVOCATION, APPLICATION_SCOPE, EXTENT];
    let mut i: usize = 0;
    while i < purposes.len()
        invariant
            i <= purposes.len(),
            str_views(non_duty@) == non_duty_purposes(),
            forall|j: int| 0 <= j < i ==> non_duty_purposes().contains(#[trigger] purposes@[j]@),
        decreases purposes.len() - i,
    {
        if !has_label(non_duty.as_slice(), purposes[i].as_str()) {
            return true;
        }
        i += 1;
    }
    false
}

/// "The Regulations impose / This Act provides ...": a description of the
/// instrument, not an obligation.
pub const DESCRIPTIVE_SUMMARY_RE: &'static str = r"(?i)^(?:the(?:se)?|this) (?:regulations?|act|order|rules?)\s+(?:impose|require|provide|give effect|implement|extend|place|create|establish|set out|supplement|make provision)";

pub fn is_descriptive_summary(text: &str) -> (r: bool)
    ensures
        r == is_match_spec(DESCRIPTIVE_SUMMARY_RE@, text@),
{
    is_match(DESCRIPTIVE_SUMMARY_RE, text)
}

} // verus!
