//! Actor-anchored DRRP patterns for governed actors: each actor keyword is
//! anchored to the obligation language within a character window, actor
//! first (subject position), so an actor mentioned as an object or a
//! beneficiary does not make a duty.
//!
//! All positions are character offsets in the (lower-cased) text.

use vstd::prelude::*;
use crate::actors::{matches_view, ActorMatch, ActorMatchView};
use crate::duty_patterns::{
    DutyClassification, DutyFamily, DutySubType, MatchSpan, C50, C50_MINUS_15, C55, C60, C65, C70, C70_MINUS_15, C75, C80,
    C80_PLUS_10, C85, C85_MINUS_15, C90,
};
use crate::applicability_compile::{utf8_len, utf8_shorter_than};
use crate::rx::{escape, escape_spec, find_first, is_match, is_match_spec, spans_spec};
use crate::text::{
    cat,
    from_range, occurs_at, starts_with_str, str_lowercase, to_chars, to_lowercase, trim_start, trim_start_str,
    contains_seq, contains_str, str_eq,
};

verus! {

/// Modal verbs, to locate the modal inside a matched span.
pub const MODAL_LOCATOR: &'static str = r"(?i)\b(?:shall not|must not|shall|must|is required to|has a duty|may not|may|power to|entitled to|authorise|authorize)\b";

/// "Ind: Person" only anchors in these compound predicates.
pub const PERSON_QUALIFIERS: &'static str = r"(?i)(?:a person (?:who|with a duty|must|shall)|every person|no person|(?:each|any) person (?:who|at work|with)|the duty of (?:every|any|each) person)";

/// "may" meaning "might".
pub const EPISTEMIC_MAY: &'static str = r"(?i)\bmay\s+(?:be\b|need\b|have\b|require\b|also\s+be\b)";

pub const SUBORDINATE_CLAUSE_START: &'static str = r"(?i)^(?:where|if|unless|when|in any case where)\b";

pub const SHALL_RE: &'static str = r"(?i)\bshall\b";
pub const PROHIBITION_MODAL_RE: &'static str = r"(?i)\b(?:shall not|must not)\b";
pub const ENABLING_MODAL_RE: &'static str = r"(?i)\b(?:may|power to|entitled to)\b";
pub const OBLIGATION_MODAL_RE: &'static str = r"(?i)\b(?:shall|must|is required to|has a duty)\b";

pub const SFAIRP_RE: &'static str = r"(?i)(?:so far as is reasonably practicable|sfairp)";
pub const RISK_RE: &'static str = r"(?i)\b(?:assess|assessment)\b.{0,40}\brisks?\b";
pub const INFO_RE: &'static str = r"(?i)\b(?:provide|give|supply)\b.{0,40}\binformation\b";
pub const TRAINING_RE: &'static str = r"(?i)\b(?:training|instruction|instruct|competent)\b";
pub const ENSURE_HSW_RE: &'static str = r"(?i)\b(?:ensure|duty)\b.{0,60}\b(?:health|safety|welfare)\b";

/// Characters within which the actor must precede the obligation language.
pub const PRIMARY_WINDOW: usize = 120;
/// The lower-confidence fallback window.
pub const EXTENDED_WINDOW: usize = 200;

/// (sub-type, confidence in the primary window, confidence in the extended
/// window, obligation pattern), most specific first.
pub open spec fn sub_type_patterns() -> Seq<(DutySubType, u32, u32, &'static str)> {
    seq![
        (DutySubType::Prohibitive, C85, C85_MINUS_15, r"\b(?:shall not|must not|may not)\b"),
        (DutySubType::SfairpDuty, C80, C65, r"\b(?:shall|must|is required to)\b.{0,120}(?:so far as is reasonably practicable|sfairp)"),
        (DutySubType::RiskAssessment, C80, C65, r"\b(?:shall|must|is required to)\b.{0,80}\b(?:assess|assessment)\b.{0,40}\brisks?\b"),
        (DutySubType::GeneralDuty, C90, C75, r"\b(?:shall ensure|ensure|has a duty)\b.{0,60}\b(?:health|safety|welfare)\b"),
        (DutySubType::InformationDuty, C75, C60, r"\b(?:shall|must|is required to)\b.{0,60}\b(?:provide|give|supply|furnish)\b.{0,40}\binformation\b"),
        (DutySubType::TrainingDuty, C75, C60, r"\b(?:shall|must|is required to)\b.{0,80}\b(?:training|instruction|instruct|competent|competence)\b"),
        (DutySubType::Prescriptive, C70, C70_MINUS_15, r"\b(?:shall|must|is required to|has a duty)\b"),
        (DutySubType::Enabling, C50, C50_MINUS_15, r"\b(?:may|power to|entitled to|authorise|authorize)\b"),
    ]
}

fn sub_type_patterns_exec() -> (r: Vec<(DutySubType, u32, u32, &'static str)>)
    ensures
        r@ == sub_type_patterns(),
{
    vec![
        (DutySubType::Prohibitive, C85, C85_MINUS_15, r"\b(?:shall not|must not|may not)\b"),
        (DutySubType::SfairpDuty, C80, C65, r"\b(?:shall|must|is required to)\b.{0,120}(?:so far as is reasonably practicable|sfairp)"),
        (DutySubType::RiskAssessment, C80, C65, r"\b(?:shall|must|is required to)\b.{0,80}\b(?:assess|assessment)\b.{0,40}\brisks?\b"),
        (DutySubType::GeneralDuty, C90, C75, r"\b(?:shall ensure|ensure|has a duty)\b.{0,60}\b(?:health|safety|welfare)\b"),
        (DutySubType::InformationDuty, C75, C60, r"\b(?:shall|must|is required to)\b.{0,60}\b(?:provide|give|supply|furnish)\b.{0,40}\binformation\b"),
        (DutySubType::TrainingDuty, C75, C60, r"\b(?:shall|must|is required to)\b.{0,80}\b(?:training|instruction|instruct|competent|competence)\b"),
        (DutySubType::Prescriptive, C70, C70_MINUS_15, r"\b(?:shall|must|is required to|has a duty)\b"),
        (DutySubType::Enabling, C50, C50_MINUS_15, r"\b(?:may|power to|entitled to|authorise|authorize)\b"),
    ]
}

// ---------------------------------------------------------------------------
// Helpers on spans

/// First match of `pattern` in `text` from index `k` on (the pattern sees
/// only that suffix), as absolute positions.
pub open spec fn first_from(pattern: Seq<char>, text: Seq<char>, k: int) -> Option<(int, int)> {
    let sp = spans_spec(pattern, text.skip(k));
    if sp.len() == 0 { None } else { Some((k + sp[0].0, k + sp[0].1)) }
}

fn first_from_exec(pattern: &str, tv: &Vec<char>, k: usize) -> (r: Option<(usize, usize)>)
    requires
        k <= tv.len(),
    ensures
        match r {
            Some(p) => first_from(pattern@, tv@, k as int) == Some((p.0 as int, p.1 as int)) && k <= p.0 <= p.1 <= tv.len(),
            None => first_from(pattern@, tv@, k as int) is None,
        },
{
    let suffix = from_range(tv, k, tv.len());
    proof {
        assert(tv@.subrange(k as int, tv@.len() as int) =~= tv@.skip(k as int));
    }
    match find_first(pattern, suffix.as_str()) {
        Some((a, b)) => Some((k + a, k + b)),
        None => None,
    }
}

/// `(?i)\b{keyword}\b.{0,window}{obligation}` with the keyword escaped.
pub open spec fn anchored(keyword: Seq<char>, obligation: Seq<char>, window: Seq<char>) -> Seq<char> {
    r"(?i)\b"@ + escape_spec(keyword) + r"\b.{0,"@ + window + "}"@ + obligation
}

/// `(?i)\b{keyword}\b` with the keyword escaped.
pub open spec fn keyword_re(keyword: Seq<char>) -> Seq<char> {
    r"(?i)\b"@ + escape_spec(keyword) + r"\b"@
}

fn build_anchored(keyword: &str, obligation: &str, window: &str) -> (r: String)
    ensures
        r@ == anchored(keyword@, obligation@, window@),
{
    let esc = escape(keyword);
    let a = cat(r"(?i)\b", esc.as_str());
    let b = cat(a.as_str(), r"\b.{0,");
    let c = cat(b.as_str(), window);
    let d = cat(c.as_str(), "}");
    cat(d.as_str(), obligation)
}

fn keyword_re_exec(keyword: &str) -> (r: String)
    ensures
        r@ == keyword_re(keyword@),
{
    let esc = escape(keyword);
    let a = cat(r"(?i)\b", esc.as_str());
    cat(a.as_str(), r"\b")
}

// ---------------------------------------------------------------------------
// Obligation type after a modal

/// `base` + 0.10 in `f32` (for the bases the matchers use).
pub open spec fn plus_10(base: u32) -> u32 {
    if base == C80 { C80_PLUS_10 } else if base == C75 { C85 } else if base == C65 { C75 } else { C60 }
}

/// `base` + 0.05 in `f32` (for the bases the matchers use).
pub open spec fn plus_05(base: u32) -> u32 {
    if base == C80 { C85 } else if base == C75 { C80 } else if base == C65 { C70 } else { C55 }
}

/// The obligation type named by the text after a modal, at `base` confidence:
/// ensure-health/safety/welfare, SFAIRP, risk assessment, information,
/// training, else prescriptive.
pub open spec fn after_modal_spec(t: Seq<char>, base: u32) -> DutyClassification {
    let (st, c) = if is_match_spec(ENSURE_HSW_RE@, t) {
        (DutySubType::GeneralDuty, plus_10(base))
    } else if is_match_spec(SFAIRP_RE@, t) {
        (DutySubType::SfairpDuty, plus_05(base))
    } else if is_match_spec(RISK_RE@, t) {
        (DutySubType::RiskAssessment, plus_05(base))
    } else if is_match_spec(INFO_RE@, t) {
        (DutySubType::InformationDuty, base)
    } else if is_match_spec(TRAINING_RE@, t) {
        (DutySubType::TrainingDuty, base)
    } else {
        (DutySubType::Prescriptive, base)
    };
    DutyClassification { family: DutyFamily::Governed, sub_type: st, confidence: c, span: None }
}

fn plus_10_exec(base: u32) -> (r: u32)
    ensures
        r == plus_10(base),
{
    if base == C80 { C80_PLUS_10 } else if base == C75 { C85 } else if base == C65 { C75 } else { C60 }
}

fn plus_05_exec(base: u32) -> (r: u32)
    ensures
        r == plus_05(base),
{
    if base == C80 { C85 } else if base == C75 { C80 } else if base == C65 { C70 } else { C55 }
}

fn classify_after_modal(t: &str, base: u32) -> (r: DutyClassification)
    ensures
        r == after_modal_spec(t@, base),
{
    let (st, c) = if is_match(ENSURE_HSW_RE, t) {
        (DutySubType::GeneralDuty, plus_10_exec(base))
    } else if is_match(SFAIRP_RE, t) {
        (DutySubType::SfairpDuty, plus_05_exec(base))
    } else if is_match(RISK_RE, t) {
        (DutySubType::RiskAssessment, plus_05_exec(base))
    } else if is_match(INFO_RE, t) {
        (DutySubType::InformationDuty, base)
    } else if is_match(TRAINING_RE, t) {
        (DutySubType::TrainingDuty, base)
    } else {
        (DutySubType::Prescriptive, base)
    };
    DutyClassification { family: DutyFamily::Governed, sub_type: st, confidence: c, span: None }
}

pub open spec fn with_span(dc: DutyClassification, span: Option<MatchSpan>) -> DutyClassification {
    DutyClassification { span, ..dc }
}

pub open spec fn mk_span(a: int, s: int, e: int) -> MatchSpan {
    MatchSpan { actor_start: a as usize, modal_start: s as usize, modal_end: e as usize }
}

// ---------------------------------------------------------------------------
// "it shall be the duty of every {actor}" and "must be done by the {actor}"

pub open spec fn duty_of_re(keyword: Seq<char>) -> Seq<char> {
    r"(?i)\b(?:shall be the duty of)\b.{0,40}\b"@ + escape_spec(keyword) + r"\b"@
}

pub open spec fn passive_by_re(keyword: Seq<char>) -> Seq<char> {
    r"(?i)\b(?:shall|must)\b\s+be\s+.{0,60}\bby\b.{0,20}\b"@ + escape_spec(keyword) + r"\b"@
}

/// The duty-of formulation: the modal is the `shall` of the phrase, the
/// actor is the keyword's first occurrence from the phrase on, and the
/// obligation type comes from the text after it.
pub open spec fn duty_of_spec(text: Seq<char>, keyword: Seq<char>) -> Option<DutyClassification> {
    match first_from(duty_of_re(keyword), text, 0) {
        None => None,
        Some(full) => match (first_from(SHALL_RE@, text, full.0), first_from(keyword_re(keyword), text, full.0)) {
            (Some(modal), Some(actor)) => Some(with_span(
                after_modal_spec(text.skip(actor.1), C80),
                Some(mk_span(actor.0, modal.0, modal.1)),
            )),
            _ => None,
        },
    }
}

/// Passive voice "must be prepared by the {actor}": the actor is the agent.
pub open spec fn passive_by_spec(text: Seq<char>, keyword: Seq<char>) -> Option<DutyClassification> {
    match first_from(passive_by_re(keyword), text, 0) {
        None => None,
        Some(full) => {
            let modal = first_from(MODAL_LOCATOR@, text, full.0);
            let inner = spans_spec(keyword_re(keyword), text.subrange(full.0, full.1));
            if modal is None || inner.len() == 0 {
                None
            } else {
                Some(DutyClassification {
                    family: DutyFamily::Governed,
                    sub_type: DutySubType::Prescriptive,
                    confidence: C65,
                    span: Some(mk_span(full.0 + inner[0].0, full.0, (modal->0).1)),
                })
            }
        },
    }
}

fn match_duty_of_pattern(tv: &Vec<char>, text: &str, keyword: &str) -> (r: Option<DutyClassification>)
    requires
        tv@ == text@,
    ensures
        r == duty_of_spec(text@, keyword@),
{
    let esc = escape(keyword);
    let a = cat(r"(?i)\b(?:shall be the duty of)\b.{0,40}\b", esc.as_str());
    let re = cat(a.as_str(), r"\b");
    let full = match first_from_exec(re.as_str(), tv, 0) {
        Some(f) => f,
        None => {
            return None;
        },
    };
    let modal = first_from_exec(SHALL_RE, tv, full.0);
    let kre = keyword_re_exec(keyword);
    let actor = first_from_exec(kre.as_str(), tv, full.0);
    match (modal, actor) {
        (Some(m), Some(a)) => {
            let after = from_range(tv, a.1, tv.len());
            proof {
                assert(tv@.subrange(a.1 as int, tv@.len() as int) =~= text@.skip(a.1 as int));
            }
            let mut dc = classify_after_modal(after.as_str(), C80);
            dc.span = Some(MatchSpan { actor_start: a.0, modal_start: m.0, modal_end: m.1 });
            Some(dc)
        },
        _ => None,
    }
}

fn match_passive_by_pattern(tv: &Vec<char>, text: &str, keyword: &str) -> (r: Option<DutyClassification>)
    requires
        tv@ == text@,
    ensures
        r == passive_by_spec(text@, keyword@),
{
    let esc = escape(keyword);
    let a = cat(r"(?i)\b(?:shall|must)\b\s+be\s+.{0,60}\bby\b.{0,20}\b", esc.as_str());
    let re = cat(a.as_str(), r"\b");
    let full = match first_from_exec(re.as_str(), tv, 0) {
        Some(f) => f,
        None => {
            return None;
        },
    };
    let modal = first_from_exec(MODAL_LOCATOR, tv, full.0);
    let kre = keyword_re_exec(keyword);
    let inner_text = from_range(tv, full.0, full.1);
    let inner = find_first(kre.as_str(), inner_text.as_str());
    match (modal, inner) {
        (Some(m), Some(a)) => {
            proof {
                assert(a.0 <= full.1 - full.0);
            }
            Some(DutyClassification {
                family: DutyFamily::Governed,
                sub_type: DutySubType::Prescriptive,
                confidence: C65,
                span: Some(MatchSpan { actor_start: full.0 + a.0, modal_start: full.0, modal_end: m.1 }),
            })
        },
        _ => None,
    }
}


// ---------------------------------------------------------------------------
// Anchored matching

/// The actor sits in a leading "Where/If/Unless ..." clause: the text before
/// it (leading whitespace trimmed) is under 30 bytes and opens with a
/// subordinator, and a comma lies between the actor and the modal.
pub open spec fn in_subordinate(text: Seq<char>, a: int, m: int) -> bool {
    let before = trim_start(text.take(a));
    &&& utf8_len(before) < 30
    &&& is_match_spec(SUBORDINATE_CLAUSE_START@, before)
    &&& text.subrange(a, m).contains(',')
}

/// Epistemic "may" ("may be", "may need") in the 20 characters before to
/// the 30 after the end of a match.
pub open spec fn epistemic_at(text: Seq<char>, e: int) -> bool {
    let lo = if e > 20 { e - 20 } else { 0 };
    let hi = if e + 30 < text.len() { e + 30 } else { text.len() as int };
    is_match_spec(EPISTEMIC_MAY@, text.subrange(lo, hi))
}

/// The span of an anchored match `[s, e)`: the actor at `s`, the first modal
/// inside the match (else the end of the match).
pub open spec fn anchored_span(text: Seq<char>, s: int, e: int) -> MatchSpan {
    let sp = spans_spec(MODAL_LOCATOR@, text.subrange(s, e));
    if sp.len() > 0 { mk_span(s, s + sp[0].0, s + sp[0].1) } else { mk_span(s, e, e) }
}

/// The first match of `pattern` from `offset` on that is neither an
/// epistemic "may" (for Enabling) nor an actor in a subordinate clause;
/// after a rejected match the search resumes just past the actor keyword.
pub open spec fn valid_from(
    text: Seq<char>,
    kwlen: int,
    pattern: Seq<char>,
    sub_type: DutySubType,
    confidence: u32,
    offset: int,
) -> Option<DutyClassification>
    decreases text.len() - offset,
{
    if offset < 0 || offset >= text.len() {
        None
    } else {
        match first_from(pattern, text, offset) {
            None => None,
            Some(m) => {
                let sp = anchored_span(text, m.0, m.1);
                let next = if m.0 + kwlen > offset { m.0 + kwlen } else { offset + 1 };
                if (sub_type == DutySubType::Enabling && epistemic_at(text, m.1))
                    || in_subordinate(text, sp.actor_start as int, sp.modal_start as int) {
                    if next >= text.len() {
                        None
                    } else {
                        valid_from(text, kwlen, pattern, sub_type, confidence, next)
                    }
                } else {
                    Some(DutyClassification { family: DutyFamily::Governed, sub_type, confidence, span: Some(sp) })
                }
            },
        }
    }
}

/// The first sub-type pattern (in table order) with a valid anchored match.
pub open spec fn anchored_search(
    text: Seq<char>,
    keyword: Seq<char>,
    table: Seq<(DutySubType, u32, u32, &'static str)>,
    window: Seq<char>,
    extended: bool,
) -> Option<DutyClassification>
    decreases table.len(),
{
    if table.len() == 0 {
        None
    } else {
        let e = table[0];
        let conf = if extended { e.2 } else { e.1 };
        match valid_from(text, keyword.len() as int, anchored(keyword, e.3@, window), e.0, conf, 0) {
            Some(d) => Some(d),
            None => anchored_search(text, keyword, table.drop_first(), window, extended),
        }
    }
}

/// One actor keyword: the duty-of formulation, the passive formulation, then
/// the sub-type patterns in the primary window, then in the extended window
/// at reduced confidence.
pub open spec fn actor_anchored_spec(text: Seq<char>, keyword: Seq<char>) -> Option<DutyClassification> {
    if duty_of_spec(text, keyword) is Some {
        duty_of_spec(text, keyword)
    } else if passive_by_spec(text, keyword) is Some {
        passive_by_spec(text, keyword)
    } else if anchored_search(text, keyword, sub_type_patterns(), "120"@, false) is Some {
        anchored_search(text, keyword, sub_type_patterns(), "120"@, false)
    } else {
        anchored_search(text, keyword, sub_type_patterns(), "200"@, true)
    }
}

fn is_actor_in_subordinate(tv: &Vec<char>, a: usize, m: usize) -> (r: bool)
    requires
        a <= m <= tv.len(),
    ensures
        r == in_subordinate(tv@, a as int, m as int),
{
    let before = from_range(tv, 0, a);
    let trimmed = trim_start_str(before.as_str());
    proof {
        assert(tv@.subrange(0, a as int) =~= tv@.take(a as int));
    }
    let tchars = to_chars(trimmed.as_str());
    let short = utf8_shorter_than(&tchars, 30);
    if !(short && is_match(SUBORDINATE_CLAUSE_START, trimmed.as_str())) {
        return false;
    }
    let mut i = a;
    while i < m
        invariant
            a <= i <= m <= tv.len(),
            trimmed@ == trim_start(tv@.take(a as int)),
            utf8_len(trimmed@) < 30,
            is_match_spec(SUBORDINATE_CLAUSE_START@, trimmed@),
            forall|j: int| a <= j < i ==> tv@[j] != ',',
        decreases m - i,
    {
        if tv[i] == ',' {
            proof {
                assert(tv@.subrange(a as int, m as int)[i - a] == ',');
                assert(tv@.subrange(a as int, m as int).contains(','));
            }
            return true;
        }
        i += 1;
    }
    proof {
        assert forall|j: int| 0 <= j < tv@.subrange(a as int, m as int).len() implies tv@.subrange(a as int, m as int)[j] != ',' by {
            assert(tv@.subrange(a as int, m as int)[j] == tv@[a + j]);
        }
    }
    false
}

fn is_epistemic_may(tv: &Vec<char>, e: usize) -> (r: bool)
    requires
        e <= tv.len(),
    ensures
        r == epistemic_at(tv@, e as int),
{
    let lo = if e > 20 { e - 20 } else { 0 };
    let hi = if e < tv.len() && tv.len() - e > 30 { e + 30 } else { tv.len() };
    let region = from_range(tv, lo, hi);
    is_match(EPISTEMIC_MAY, region.as_str())
}

fn extract_span_from_anchored(tv: &Vec<char>, s: usize, e: usize) -> (r: MatchSpan)
    requires
        s <= e <= tv.len(),
    ensures
        r == anchored_span(tv@, s as int, e as int),
        s <= r.modal_start <= e,
        r.actor_start == s,
{
    let matched = from_range(tv, s, e);
    match find_first(MODAL_LOCATOR, matched.as_str()) {
        Some((a, b)) => MatchSpan { actor_start: s, modal_start: s + a, modal_end: s + b },
        None => MatchSpan { actor_start: s, modal_start: e, modal_end: e },
    }
}

fn find_valid_match(
    tv: &Vec<char>,
    kwlen: usize,
    pattern: &str,
    sub_type: DutySubType,
    confidence: u32,
) -> (r: Option<DutyClassification>)
    ensures
        r == valid_from(tv@, kwlen as int, pattern@, sub_type, confidence, 0),
{
    let mut offset: usize = 0;
    while offset < tv.len()
        invariant
            offset <= tv.len(),
            valid_from(tv@, kwlen as int, pattern@, sub_type, confidence, 0)
                == valid_from(tv@, kwlen as int, pattern@, sub_type, confidence, offset as int),
        decreases tv.len() - offset,
    {
        let m = match first_from_exec(pattern, tv, offset) {
            Some(m) => m,
            None => {
                return None;
            },
        };
        let sp = extract_span_from_anchored(tv, m.0, m.1);
        let next: usize = if m.0 < tv.len() && tv.len() - m.0 > kwlen {
            if m.0 + kwlen > offset { m.0 + kwlen } else { offset + 1 }
        } else {
            tv.len()
        };
        let rejected = (sub_type == DutySubType::Enabling && is_epistemic_may(tv, m.1))
            || is_actor_in_subordinate(tv, sp.actor_start, sp.modal_start);
        if !rejected {
            return Some(DutyClassification { family: DutyFamily::Governed, sub_type, confidence, span: Some(sp) });
        }
        proof {
            let n = if m.0 + kwlen > offset { m.0 + kwlen } else { offset + 1 };
            if next != n {
                assert(n >= tv.len());
                assert(valid_from(tv@, kwlen as int, pattern@, sub_type, confidence, n as int) is None);
                assert(valid_from(tv@, kwlen as int, pattern@, sub_type, confidence, next as int) is None);
            }
        }
        offset = next;
    }
    None
}

fn anchored_search_exec(
    tv: &Vec<char>,
    keyword: &str,
    table: &Vec<(DutySubType, u32, u32, &'static str)>,
    window: &str,
    extended: bool,
) -> (r: Option<DutyClassification>)
    ensures
        r == anchored_search(tv@, keyword@, table@, window@, extended),
{
    let kwv = to_chars(keyword);
    let mut i: usize = 0;
    proof {
        assert(table@.skip(0) =~= table@);
    }
    while i < table.len()
        invariant
            i <= table.len(),
            kwv@ == keyword@,
            anchored_search(tv@, keyword@, table@, window@, extended)
                == anchored_search(tv@, keyword@, table@.skip(i as int), window@, extended),
        decreases table.len() - i,
    {
        proof {
            assert(table@.skip(i as int)[0] == table@[i as int]);
            assert(table@.skip(i as int).drop_first() =~= table@.skip(i + 1));
        }
        let conf = if extended { table[i].2 } else { table[i].1 };
        let pat = build_anchored(keyword, table[i].3, window);
        match find_valid_match(tv, kwv.len(), pat.as_str(), table[i].0, conf) {
            Some(d) => {
                return Some(d);
            },
            None => {},
        }
        i += 1;
    }
    None
}

fn match_actor_anchored(tv: &Vec<char>, text: &str, keyword: &str) -> (r: Option<DutyClassification>)
    requires
        tv@ == text@,
    ensures
        r == actor_anchored_spec(text@, keyword@),
{
    match match_duty_of_pattern(tv, text, keyword) {
        Some(dc) => {
            return Some(dc);
        },
        None => {},
    }
    match match_passive_by_pattern(tv, text, keyword) {
        Some(dc) => {
            return Some(dc);
        },
        None => {},
    }
    let table = sub_type_patterns_exec();
    match anchored_search_exec(tv, keyword, &table, "120", false) {
        Some(dc) => {
            return Some(dc);
        },
        None => {},
    }
    anchored_search_exec(tv, keyword, &table, "200", true)
}


// ---------------------------------------------------------------------------
// "Ind: Person": compound predicates only

/// `a + b`, or `usize::MAX` where it would not fit.
pub open spec fn sat_add(a: int, b: int) -> int {
    if a + b <= usize::MAX { a + b } else { usize::MAX as int }
}

fn sat_add_exec(a: usize, b: usize) -> (r: usize)
    ensures
        r == sat_add(a as int, b as int),
{
    if b <= usize::MAX - a { a + b } else { usize::MAX }
}

pub open spec fn governed(sub_type: DutySubType, confidence: u32, span: Option<MatchSpan>) -> DutyClassification {
    DutyClassification { family: DutyFamily::Governed, sub_type, confidence, span }
}

/// A person compound without a modal of its own ("a person who", "every
/// person"): the first prohibition after it; else an enabling modal within
/// the primary window that is not epistemic; else an obligation modal within
/// the primary window, then within the extended window at lower confidence.
/// `after` is the lower-cased text after the compound, which ends at `e`.
pub open spec fn person_modal_after(after: Seq<char>, s: int, e: int) -> Option<DutyClassification> {
    let p = spans_spec(PROHIBITION_MODAL_RE@, after);
    let en = spans_spec(ENABLING_MODAL_RE@, after);
    let ob = spans_spec(OBLIGATION_MODAL_RE@, after);
    if p.len() > 0 {
        Some(governed(DutySubType::Prohibitive, C80, Some(mk_span(s, sat_add(e, p[0].0), sat_add(e, p[0].1)))))
    } else if en.len() > 0 && en[0].0 <= PRIMARY_WINDOW && !is_match_spec(EPISTEMIC_MAY@, after.skip(en[0].0)) {
        Some(governed(DutySubType::Enabling, C50, Some(mk_span(s, sat_add(e, en[0].0), sat_add(e, en[0].1)))))
    } else if ob.len() > 0 && ob[0].0 <= EXTENDED_WINDOW {
        let base = if ob[0].0 <= PRIMARY_WINDOW { C65 } else { C50 };
        Some(with_span(
            after_modal_spec(after.skip(ob[0].1), base),
            Some(mk_span(s, sat_add(e, ob[0].0), sat_add(e, ob[0].1))),
        ))
    } else {
        None
    }
}

/// "Ind: Person" by its first compound predicate `[s, e)`:
/// "the duty of every person" classifies what follows, the modal being the
/// first one before it; "no person" is a prohibition; a compound with its own
/// "must"/"shall" is a prohibition before "not", definitional before
/// "be regarded"/"be treated" (no duty), else classified by what follows;
/// other compounds look for a modal after them.
pub open spec fn person_spec(text: Seq<char>) -> Option<DutyClassification> {
    let sp = spans_spec(PERSON_QUALIFIERS@, text);
    if sp.len() == 0 {
        None
    } else {
        let s = sp[0].0;
        let e = sp[0].1;
        let compound = str_lowercase(text.subrange(s, e));
        let after = str_lowercase(text.skip(e));
        if "the duty of"@.is_prefix_of(compound) {
            let ms = spans_spec(MODAL_LOCATOR@, text.take(s));
            let span = if ms.len() > 0 { Some(mk_span(s, ms[0].0, ms[0].1)) } else { None };
            Some(with_span(after_modal_spec(after, C80), span))
        } else if "no person"@.is_prefix_of(compound) {
            let span = match first_from(MODAL_LOCATOR@, text, s) {
                Some(p) => Some(mk_span(s, p.0, p.1)),
                None => None,
            };
            Some(governed(DutySubType::Prohibitive, C80, span))
        } else if contains_seq(compound, "must"@) || contains_seq(compound, "shall"@) {
            let ms = spans_spec(MODAL_LOCATOR@, text.subrange(s, e));
            let span = if ms.len() > 0 { Some(mk_span(s, s + ms[0].0, s + ms[0].1)) } else { None };
            let trimmed = trim_start(after);
            if "not "@.is_prefix_of(trimmed) {
                Some(governed(DutySubType::Prohibitive, C80, span))
            } else if "be regarded "@.is_prefix_of(trimmed) || "be treated "@.is_prefix_of(trimmed) {
                None
            } else {
                Some(with_span(after_modal_spec(after, C75), span))
            }
        } else {
            person_modal_after(after, s, e)
        }
    }
}

/// The first match of `pattern` in `text`.
pub open spec fn first_of(pattern: Seq<char>, text: Seq<char>) -> Option<(int, int)> {
    let sp = spans_spec(pattern, text);
    if sp.len() > 0 { Some(sp[0]) } else { None }
}

/// What the modal search after a person compound `[s, e)` decides, given the
/// first prohibition, enabling and obligation modals in the text after the
/// compound (positions relative to `e`), whether the enabling modal opens an
/// epistemic "may", and what the words after the obligation modal give at
/// confidence 65 and at 50.
pub open spec fn person_modal_decision(
    s: int,
    e: int,
    prohibition: Option<(int, int)>,
    enabling: Option<(int, int)>,
    epistemic: bool,
    obligation: Option<(int, int)>,
    follow65: DutyClassification,
    follow50: DutyClassification,
) -> Option<DutyClassification> {
    match prohibition {
        Some(p) => Some(governed(DutySubType::Prohibitive, C80, Some(mk_span(s, sat_add(e, p.0), sat_add(e, p.1))))),
        None => {
            if enabling is Some && (enabling->0).0 <= PRIMARY_WINDOW && !epistemic {
                let en = enabling->0;
                Some(governed(DutySubType::Enabling, C50, Some(mk_span(s, sat_add(e, en.0), sat_add(e, en.1)))))
            } else {
                match obligation {
                    Some(ob) => if ob.0 <= EXTENDED_WINDOW {
                        let follow = if ob.0 <= PRIMARY_WINDOW { follow65 } else { follow50 };
                        Some(with_span(follow, Some(mk_span(s, sat_add(e, ob.0), sat_add(e, ob.1)))))
                    } else {
                        None
                    },
                    None => None,
                }
            }
        },
    }
}

/// The modal search after a compound is the decision on what it finds.
pub proof fn lemma_person_modal_decided(after: Seq<char>, s: int, e: int)
    ensures
        ({
            let en = first_of(ENABLING_MODAL_RE@, after);
            let ob = first_of(OBLIGATION_MODAL_RE@, after);
            let rest = match ob { Some(o) => after.skip(o.1), None => after };
            person_modal_after(after, s, e) == person_modal_decision(
                s,
                e,
                first_of(PROHIBITION_MODAL_RE@, after),
                en,
                match en { Some(x) => is_match_spec(EPISTEMIC_MAY@, after.skip(x.0)), None => false },
                ob,
                after_modal_spec(rest, C65),
                after_modal_spec(rest, C50),
            )
        }),
{
}

/// The modal-search decision on its findings.
pub fn decide_person_modal(
    s: usize,
    e: usize,
    prohibition: Option<(usize, usize)>,
    enabling: Option<(usize, usize)>,
    epistemic: bool,
    obligation: Option<(usize, usize)>,
    follow65: DutyClassification,
    follow50: DutyClassification,
) -> (r: Option<DutyClassification>)
    ensures
        r == person_modal_decision(
            s as int,
            e as int,
            match prohibition { Some(p) => Some((p.0 as int, p.1 as int)), None => None },
            match enabling { Some(p) => Some((p.0 as int, p.1 as int)), None => None },
            epistemic,
            match obligation { Some(p) => Some((p.0 as int, p.1 as int)), None => None },
            follow65,
            follow50,
        ),
{
    match prohibition {
        Some((a, b)) => {
            return Some(DutyClassification {
                family: DutyFamily::Governed,
                sub_type: DutySubType::Prohibitive,
                confidence: C80,
                span: Some(MatchSpan { actor_start: s, modal_start: sat_add_exec(e, a), modal_end: sat_add_exec(e, b) }),
            });
        },
        None => {},
    }
    match enabling {
        Some((a, b)) => {
            if a <= PRIMARY_WINDOW && !epistemic {
                return Some(DutyClassification {
                    family: DutyFamily::Governed,
                    sub_type: DutySubType::Enabling,
                    confidence: C50,
                    span: Some(MatchSpan { actor_start: s, modal_start: sat_add_exec(e, a), modal_end: sat_add_exec(e, b) }),
                });
            }
        },
        None => {},
    }
    match obligation {
        Some((a, b)) => {
            if a <= EXTENDED_WINDOW {
                let mut dc = if a <= PRIMARY_WINDOW { follow65 } else { follow50 };
                dc.span = Some(MatchSpan { actor_start: s, modal_start: sat_add_exec(e, a), modal_end: sat_add_exec(e, b) });
                Some(dc)
            } else {
                None
            }
        },
        None => None,
    }
}

fn person_modal_after_exec(after: &str, s: usize, e: usize) -> (r: Option<DutyClassification>)
    ensures
        r == person_modal_after(after@, s as int, e as int),
{
    let av = to_chars(after);
    let prohibition = find_first(PROHIBITION_MODAL_RE, after);
    let enabling = find_first(ENABLING_MODAL_RE, after);
    let epistemic = match enabling {
        Some((a, _)) => {
            let rest = from_range(&av, a, av.len());
            proof {
                assert(av@.subrange(a as int, av@.len() as int) =~= after@.skip(a as int));
            }
            is_match(EPISTEMIC_MAY, rest.as_str())
        },
        None => false,
    };
    let obligation = find_first(OBLIGATION_MODAL_RE, after);
    let rest_from: usize = match obligation {
        Some((_, b)) => b,
        None => 0,
    };
    let rest = from_range(&av, rest_from, av.len());
    proof {
        assert(av@.subrange(rest_from as int, av@.len() as int) =~= after@.skip(rest_from as int));
        assert(after@.skip(0) =~= after@);
        lemma_person_modal_decided(after@, s as int, e as int);
    }
    let follow65 = classify_after_modal(rest.as_str(), C65);
    let follow50 = classify_after_modal(rest.as_str(), C50);
    decide_person_modal(s, e, prohibition, enabling, epistemic, obligation, follow65, follow50)
}


/// What the person-compound classifier decides, given what was found for the
/// first compound predicate `[s, e)`: `compound` and `after`, the compound and
/// the text after it, lower-cased; the first modal before the compound, the
/// first at or after its start, and the first inside it (relative to `s`);
/// what the words after a modal give for `after` at confidence 80 and 75; and
/// what the modal search after the compound gives.
pub open spec fn person_decision(
    s: int,
    e: int,
    compound: Seq<char>,
    after: Seq<char>,
    modal_before: Option<(int, int)>,
    modal_from: Option<(int, int)>,
    modal_in: Option<(int, int)>,
    follow80: DutyClassification,
    follow75: DutyClassification,
    after_modals: Option<DutyClassification>,
) -> Option<DutyClassification> {
    if "the duty of"@.is_prefix_of(compound) {
        let span = match modal_before { Some(p) => Some(mk_span(s, p.0, p.1)), None => None };
        Some(with_span(follow80, span))
    } else if "no person"@.is_prefix_of(compound) {
        let span = match modal_from { Some(p) => Some(mk_span(s, p.0, p.1)), None => None };
        Some(governed(DutySubType::Prohibitive, C80, span))
    } else if contains_seq(compound, "must"@) || contains_seq(compound, "shall"@) {
        let span = match modal_in { Some(p) => Some(mk_span(s, s + p.0, s + p.1)), None => None };
        let trimmed = trim_start(after);
        if "not "@.is_prefix_of(trimmed) {
            Some(governed(DutySubType::Prohibitive, C80, span))
        } else if "be regarded "@.is_prefix_of(trimmed) || "be treated "@.is_prefix_of(trimmed) {
            None
        } else {
            Some(with_span(follow75, span))
        }
    } else {
        after_modals
    }
}

/// The person-compound classifier on a text is the decision on what the
/// text's searches find, and nothing where no compound predicate occurs.
pub proof fn lemma_person_decided(text: Seq<char>)
    ensures
        ({
            let sp = spans_spec(PERSON_QUALIFIERS@, text);
            if sp.len() == 0 {
                person_spec(text) is None
            } else {
                let s = sp[0].0;
                let e = sp[0].1;
                let after = str_lowercase(text.skip(e));
                person_spec(text) == person_decision(
                    s,
                    e,
                    str_lowercase(text.subrange(s, e)),
                    after,
                    first_of(MODAL_LOCATOR@, text.take(s)),
                    first_from(MODAL_LOCATOR@, text, s),
                    first_of(MODAL_LOCATOR@, text.subrange(s, e)),
                    after_modal_spec(after, C80),
                    after_modal_spec(after, C75),
                    person_modal_after(after, s, e),
                )
            }
        }),
{
}

/// The person-compound decision on the findings for a compound at `[s, e)`.
pub fn decide_person(
    s: usize,
    e: usize,
    compound: &str,
    after: &str,
    modal_before: Option<(usize, usize)>,
    modal_from: Option<(usize, usize)>,
    modal_in: Option<(usize, usize)>,
    follow80: DutyClassification,
    follow75: DutyClassification,
    after_modals: Option<DutyClassification>,
) -> (r: Option<DutyClassification>)
    requires
        modal_in matches Some(p) ==> p.0 <= p.1 && s + p.1 <= usize::MAX,
    ensures
        r == person_decision(
            s as int,
            e as int,
            compound@,
            after@,
            match modal_before { Some(p) => Some((p.0 as int, p.1 as int)), None => None },
            match modal_from { Some(p) => Some((p.0 as int, p.1 as int)), None => None },
            match modal_in { Some(p) => Some((p.0 as int, p.1 as int)), None => None },
            follow80,
            follow75,
            after_modals,
        ),
{
    if starts_with_str(compound, "the duty of") {
        let span = match modal_before {
            Some((a, b)) => Some(MatchSpan { actor_start: s, modal_start: a, modal_end: b }),
            None => None,
        };
        let mut dc = follow80;
        dc.span = span;
        return Some(dc);
    }
    if starts_with_str(compound, "no person") {
        let span = match modal_from {
            Some((a, b)) => Some(MatchSpan { actor_start: s, modal_start: a, modal_end: b }),
            None => None,
        };
        return Some(DutyClassification {
            family: DutyFamily::Governed,
            sub_type: DutySubType::Prohibitive,
            confidence: C80,
            span,
        });
    }
    if contains_str(compound, "must") || contains_str(compound, "shall") {
        let span = match modal_in {
            Some((a, b)) => Some(MatchSpan { actor_start: s, modal_start: s + a, modal_end: s + b }),
            None => None,
        };
        let trimmed = trim_start_str(after);
        if starts_with_str(trimmed.as_str(), "not ") {
            return Some(DutyClassification {
                family: DutyFamily::Governed,
                sub_type: DutySubType::Prohibitive,
                confidence: C80,
                span,
            });
        }
        if starts_with_str(trimmed.as_str(), "be regarded ") || starts_with_str(trimmed.as_str(), "be treated ") {
            return None;
        }
        let mut dc = follow75;
        dc.span = span;
        return Some(dc);
    }
    after_modals
}

/// "Ind: Person" by compound predicate.
fn match_person_compound(tv: &Vec<char>, text: &str) -> (r: Option<DutyClassification>)
    requires
        tv@ == text@,
    ensures
        r == person_spec(text@),
{
    let (s, e) = match find_first(PERSON_QUALIFIERS, text) {
        Some(p) => p,
        None => {
            proof {
                lemma_person_decided(text@);
            }
            return None;
        },
    };
    let compound_raw = from_range(tv, s, e);
    let compound = to_lowercase(compound_raw.as_str());
    let after_raw = from_range(tv, e, tv.len());
    proof {
        assert(tv@.subrange(e as int, tv@.len() as int) =~= text@.skip(e as int));
    }
    let after = to_lowercase(after_raw.as_str());
    let before = from_range(tv, 0, s);
    proof {
        assert(tv@.subrange(0, s as int) =~= text@.take(s as int));
    }
    let modal_before = find_first(MODAL_LOCATOR, before.as_str());
    let modal_from = first_from_exec(MODAL_LOCATOR, tv, s);
    let modal_in = find_first(MODAL_LOCATOR, compound_raw.as_str());
    let follow80 = classify_after_modal(after.as_str(), C80);
    let follow75 = classify_after_modal(after.as_str(), C75);
    let after_modals = person_modal_after_exec(after.as_str(), s, e);
    proof {
        lemma_person_decided(text@);
    }
    decide_person(s, e, compound.as_str(), after.as_str(), modal_before, modal_from, modal_in, follow80, follow75, after_modals)
}

// ---------------------------------------------------------------------------
// Governed actors

/// Labels for which the bare keyword is too broad to anchor.
pub const BROAD_LABEL: &'static str = "Ind: Person";

/// What one governed actor yields: the person compounds for "Ind: Person",
/// else its keyword anchored to the obligation language.
pub open spec fn actor_result(text: Seq<char>, actor: ActorMatchView) -> Option<DutyClassification> {
    if actor.0 == BROAD_LABEL@ {
        person_spec(text)
    } else {
        actor_anchored_spec(text, actor.1)
    }
}

/// The best classification over `actors` in order: a later actor replaces
/// the best so far only with a strictly higher confidence.
pub open spec fn governed_best(text: Seq<char>, actors: Seq<ActorMatchView>) -> Option<DutyClassification>
    decreases actors.len(),
{
    if actors.len() == 0 {
        None
    } else {
        let best = governed_best(text, actors.drop_last());
        match actor_result(text, actors.last()) {
            Some(dc) => if best is None || dc.confidence > (best->0).confidence { Some(dc) } else { best },
            None => best,
        }
    }
}

pub open spec fn actors_view(actors: Seq<ActorMatch>) -> Seq<ActorMatchView> {
    actors.map_values(|m: ActorMatch| m@)
}

/// Actor-anchored classification of a (lower-cased) text for its governed
/// actors: the highest-confidence match over all actors, the first listed
/// among equals.
pub fn match_governed_v2(text: &str, governed_actors: &[ActorMatch]) -> (r: Option<DutyClassification>)
    ensures
        r == governed_best(text@, actors_view(governed_actors@)),
{
    let tv = to_chars(text);
    let ghost av = actors_view(governed_actors@);
    let mut best: Option<DutyClassification> = None;
    let mut i: usize = 0;
    proof {
        assert(av.take(0) =~= Seq::<ActorMatchView>::empty());
    }
    while i < governed_actors.len()
        invariant
            i <= governed_actors.len(),
            tv@ == text@,
            av == actors_view(governed_actors@),
            best == governed_best(text@, av.take(i as int)),
        decreases governed_actors.len() - i,
    {
        let actor = &governed_actors[i];
        proof {
            assert(av.take(i + 1).drop_last() =~= av.take(i as int));
            assert(av.take(i + 1).last() == actor@);
        }
        let result = if str_eq(actor.label.as_str(), BROAD_LABEL) {
            match_person_compound(&tv, text)
        } else {
            match_actor_anchored(&tv, text, actor.keyword.as_str())
        };
        match result {
            Some(dc) => {
                let better = match &best {
                    None => true,
                    Some(b) => dc.confidence > b.confidence,
                };
                if better {
                    best = Some(dc);
                }
            },
            None => {},
        }
        i += 1;
    }
    proof {
        assert(av.take(governed_actors.len() as int) =~= av);
    }
    best
}

/// The result is the highest-confidence actor result: every actor that
/// matches does so at no more than the returned confidence, the result is
/// one of the actors' results, and there is none only when no actor matches.
pub proof fn lemma_governed_best_is_max(text: Seq<char>, actors: Seq<ActorMatchView>)
    ensures
        governed_best(text, actors) is None <==> (forall|i: int| 0 <= i < actors.len() ==> actor_result(text, #[trigger] actors[i]) is None),
        governed_best(text, actors) is Some ==> exists|i: int| 0 <= i < actors.len() && actor_result(text, #[trigger] actors[i]) == governed_best(text, actors),
        governed_best(text, actors) is Some ==> forall|i: int| 0 <= i < actors.len() && actor_result(text, #[trigger] actors[i]) is Some
            ==> (actor_result(text, actors[i])->0).confidence <= (governed_best(text, actors)->0).confidence,
    decreases actors.len(),
{
    if actors.len() > 0 {
        let init = actors.drop_last();
        lemma_governed_best_is_max(text, init);
        assert forall|i: int| 0 <= i < init.len() implies init[i] == actors[i] by {}
        let last = actors.len() - 1;
        assert(actors[last] == actors.last());
        if governed_best(text, init) is Some {
            let j = choose|j: int| 0 <= j < init.len() && actor_result(text, #[trigger] init[j]) == governed_best(text, init);
            assert(actors[j] == init[j]);
        }
    }
}

} // verus!
