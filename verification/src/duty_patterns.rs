//! Duty-pattern vocabulary shared by the classifiers: duty families and
//! sub-types, match spans, and the modal keyword checks.

use vstd::prelude::*;
use crate::rx::{find_first, is_match, is_match_spec, spans_spec};
use crate::text::{contains_seq, contains_str, to_chars};
use crate::application::{first_occ, first_occ_exec};
use crate::signals::{signal_from, signal_of, signals_view, PatternSignal, SignalTier, SignalView};

verus! {

/// Top-level duty family: who bears the obligation.
#[derive(Debug, Clone, Copy, PartialEq, Eq, Structural, Hash)]
pub enum DutyFamily {
    Government,
    Governed,
    Rule,
    Unknown,
}

/// Specific sub-type within a duty family.
#[derive(Debug, Clone, Copy, PartialEq, Eq, Structural, Hash)]
pub enum DutySubType {
    RegulationMaking,
    CodeApproval,
    Enforcement,
    Direction,
    Guidance,
    ConsultationObligation,
    Appointment,
    Delegation,
    Fees,
    ParliamentaryReporting,
    GeneralDuty,
    Prohibitive,
    SfairpDuty,
    InformationDuty,
    RiskAssessment,
    TrainingDuty,
    Prescriptive,
    Enabling,
    ThingObligation,
    Unclassified,
}

impl DutySubType {
    /// Lowercase label for keyword checks.
    pub fn as_str_lower(self) -> (r: &'static str)
        ensures
            r@ == sub_type_lower(self),
    {
        match self {
            DutySubType::RegulationMaking => "regulation making",
            DutySubType::CodeApproval => "code approval",
            DutySubType::Enforcement => "enforcement",
            DutySubType::Direction => "direction",
            DutySubType::Guidance => "guidance",
            DutySubType::ConsultationObligation => "consultation obligation",
            DutySubType::Appointment => "appointment",
            DutySubType::Delegation => "delegation",
            DutySubType::Fees => "fees",
            DutySubType::ParliamentaryReporting => "parliamentary reporting",
            DutySubType::GeneralDuty => "general duty",
            DutySubType::Prohibitive => "prohibitive",
            DutySubType::SfairpDuty => "sfairp duty",
            DutySubType::InformationDuty => "information duty",
            DutySubType::RiskAssessment => "risk assessment",
            DutySubType::TrainingDuty => "training duty",
            DutySubType::Prescriptive => "prescriptive",
            DutySubType::Enabling => "enabling",
            DutySubType::ThingObligation => "thing obligation",
            DutySubType::Unclassified => "unclassified",
        }
    }
}

pub open spec fn sub_type_lower(t: DutySubType) -> Seq<char> {
    match t {
        DutySubType::RegulationMaking => "regulation making"@,
        DutySubType::CodeApproval => "code approval"@,
        DutySubType::Enforcement => "enforcement"@,
        DutySubType::Direction => "direction"@,
        DutySubType::Guidance => "guidance"@,
        DutySubType::ConsultationObligation => "consultation obligation"@,
        DutySubType::Appointment => "appointment"@,
        DutySubType::Delegation => "delegation"@,
        DutySubType::Fees => "fees"@,
        DutySubType::ParliamentaryReporting => "parliamentary reporting"@,
        DutySubType::GeneralDuty => "general duty"@,
        DutySubType::Prohibitive => "prohibitive"@,
        DutySubType::SfairpDuty => "sfairp duty"@,
        DutySubType::InformationDuty => "information duty"@,
        DutySubType::RiskAssessment => "risk assessment"@,
        DutySubType::TrainingDuty => "training duty"@,
        DutySubType::Prescriptive => "prescriptive"@,
        DutySubType::Enabling => "enabling"@,
        DutySubType::ThingObligation => "thing obligation"@,
        DutySubType::Unclassified => "unclassified"@,
    }
}

/// Positions of the actor keyword and modal verb of a matched pattern.  The
/// library counts them in characters of the text.
#[derive(Debug, Clone, Copy, PartialEq, Eq, Structural)]
pub struct MatchSpan {
    pub actor_start: usize,
    pub modal_start: usize,
    pub modal_end: usize,
}

/// Strong obligation modal.
pub const OBLIGATION: &'static str = r"(?i)\bshall\b|\bmust\b|\bis required to\b|\bhas a duty\b";
/// Prohibition.
pub const PROHIBITION: &'static str = r"(?i)\bshall not\b|\bmust not\b|\bno person shall\b|\bprohibit";
/// Enabling / empowering keyword.
pub const ENABLING: &'static str = r"(?i)\bmay\b|\bpower to\b|\bauthori[sz]e|\benable|\bentitled\b";

/// True if text contains a strong obligation modal.
pub fn has_obligation(text: &str) -> (r: bool)
    ensures
        r == is_match_spec(OBLIGATION@, text@),
{
    is_match(OBLIGATION, text)
}

/// True if text contains a prohibition.
pub fn has_prohibition(text: &str) -> (r: bool)
    ensures
        r == is_match_spec(PROHIBITION@, text@),
{
    is_match(PROHIBITION, text)
}

/// True if text contains an enabling / empowering keyword.
pub fn has_enabling(text: &str) -> (r: bool)
    ensures
        r == is_match_spec(ENABLING@, text@),
{
    is_match(ENABLING, text)
}

/// True when the (downcased) text contains one of the government keywords.
pub open spec fn has_government_actor_spec(keywords: Seq<Seq<char>>, text: Seq<char>) -> bool {
    exists|i: int| 0 <= i < keywords.len() && contains_seq(text, #[trigger] keywords[i])
}

/// True when downcased text mentions a government-side actor, given the
/// dictionary's downcased government keywords.
pub fn has_government_actor(keywords: &Vec<String>, text: &str) -> (r: bool)
    ensures
        r == has_government_actor_spec(keywords@.map_values(|k: String| k@), text@),
{
    let ghost kv = keywords@.map_values(|k: String| k@);
    let mut i: usize = 0;
    while i < keywords.len()
        invariant
            i <= keywords.len(),
            kv == keywords@.map_values(|k: String| k@),
            forall|j: int| 0 <= j < i ==> !contains_seq(text@, #[trigger] kv[j]),
        decreases keywords.len() - i,
    {
        if contains_str(text, keywords[i].as_str()) {
            proof {
                assert(kv[i as int] == keywords@[i as int]@);
            }
            return true;
        }
        i += 1;
    }
    false
}

/// The first modal of the text is enabling: an enabling keyword occurs, and no
/// obligation modal starts before it.
pub open spec fn first_modal_is_enabling_spec(text: Seq<char>) -> bool {
    let e = spans_spec(ENABLING@, text);
    let o = spans_spec(OBLIGATION@, text);
    e.len() > 0 && (o.len() == 0 || e[0].0 < o[0].0)
}

/// Is the first modal verb enabling (may / power to / entitled) rather than
/// obligatory (shall / must)?
pub fn first_modal_is_enabling(text: &str) -> (r: bool)
    ensures
        r == first_modal_is_enabling_spec(text@),
{
    let e = find_first(ENABLING, text);
    let o = find_first(OBLIGATION, text);
    match (e, o) {
        (Some(_), None) => true,
        (Some(ep), Some(op)) => ep.0 < op.0,
        _ => false,
    }
}


// ---------------------------------------------------------------------------
// Confidence

/// A confidence in billionths, truncated from the 32-bit float the scoring
/// was designed with, so that comparisons come out as they do in `f32`
/// (0.8 + 0.1 is just above 0.9 there, and here).
pub type Confidence = u32;

pub const C30: u32 = 300000011;
pub const C50: u32 = 500000000;
pub const C55: u32 = 550000011;
pub const C60: u32 = 600000023;
pub const C65: u32 = 649999976;
pub const C70: u32 = 699999988;
pub const C75: u32 = 750000000;
pub const C80: u32 = 800000011;
pub const C85: u32 = 850000023;
pub const C90: u32 = 899999976;
/// 0.8 + 0.1 in `f32`.
pub const C80_PLUS_10: u32 = 900000035;
/// 0.85 - 0.15 in `f32`.
pub const C85_MINUS_15: u32 = 700000047;
/// 0.70 - 0.15 in `f32`.
pub const C70_MINUS_15: u32 = 549999952;
/// 0.50 - 0.15 in `f32`.
pub const C50_MINUS_15: u32 = 349999994;

/// Result of a pattern match attempt.
#[derive(Debug, Clone, Copy, PartialEq, Eq, Structural)]
pub struct DutyClassification {
    pub family: DutyFamily,
    pub sub_type: DutySubType,
    pub confidence: u32,
    /// Where in the text the pattern matched (character offsets), if captured.
    pub span: Option<MatchSpan>,
}

impl DutyClassification {
    pub fn unknown() -> (r: DutyClassification)
        ensures
            r == (DutyClassification { family: DutyFamily::Unknown, sub_type: DutySubType::Unclassified, confidence: 0, span: None }),
    {
        DutyClassification { family: DutyFamily::Unknown, sub_type: DutySubType::Unclassified, confidence: 0, span: None }
    }
}

// ---------------------------------------------------------------------------
// Government patterns

pub const GOV_REG_MAKING_1: &'static str = r"(?i)secretary of state\b.*\bshall\b.*\bmake\b.*\bregulations\b";
pub const GOV_REG_MAKING_2: &'static str = r"(?i)\bpower to make regulations\b";
pub const GOV_CODE_APPROVAL: &'static str = r"(?i)\bapprove\b.*\bcode of practice\b";
pub const GOV_ENFORCEMENT_1: &'static str = r"(?i)\b(?:inspector|enforcing authority)\b.*\b(?:serve|issue)\b.*\b(?:notice|prohibition)\b";
pub const GOV_ENFORCEMENT_2: &'static str = r"(?i)\bimprovement notice\b|\bprohibition notice\b";
/// EU directive wording: "Member States shall ensure/require ...".
pub const GOV_EU_ENSURE: &'static str = r"(?i)\bmember states?\b.*\bshall\b.*\b(?:ensure|require|establish|provide|take)\b";
pub const GOV_DIRECTION: &'static str = r"(?i)\b(?:secretary of state|minister|authority)\b.*\bgive\b.*\bdirection";
pub const GOV_GUIDANCE: &'static str = r"(?i)\bissue\b.*\bguidance\b";
pub const GOV_CONSULTATION: &'static str = r"(?i)\b(?:secretary of state|minister)\b.*\bconsult\b";
pub const GOV_APPOINTMENT: &'static str = r"(?i)\bappoint\b.*\binspector";
pub const GOV_DELEGATION: &'static str = r"(?i)\bdelegate\b|\btransfer\b.*\bfunction";
pub const GOV_FEES: &'static str = r"(?i)\bfees?\b|\bcharges?\b|\blevy\b";
pub const GOV_PARL_REPORTING: &'static str = r"(?i)\breport\b.*\bparliament\b|\blaid? before parliament\b";

/// (pattern, sub-type, confidence) of the specific government v1 patterns, in order.
pub open spec fn gov_v1_table() -> Seq<(&'static str, DutySubType, u32)> {
    seq![
        (GOV_EU_ENSURE, DutySubType::Prescriptive, C85),
        (GOV_REG_MAKING_1, DutySubType::RegulationMaking, C90),
        (GOV_REG_MAKING_2, DutySubType::RegulationMaking, C85),
        (GOV_CODE_APPROVAL, DutySubType::CodeApproval, C85),
        (GOV_ENFORCEMENT_1, DutySubType::Enforcement, C85),
        (GOV_ENFORCEMENT_2, DutySubType::Enforcement, C80),
    ]
}

fn gov_v1_table_exec() -> (r: Vec<(&'static str, DutySubType, u32)>)
    ensures
        r@ == gov_v1_table(),
{
    vec![
        (GOV_EU_ENSURE, DutySubType::Prescriptive, C85),
        (GOV_REG_MAKING_1, DutySubType::RegulationMaking, C90),
        (GOV_REG_MAKING_2, DutySubType::RegulationMaking, C85),
        (GOV_CODE_APPROVAL, DutySubType::CodeApproval, C85),
        (GOV_ENFORCEMENT_1, DutySubType::Enforcement, C85),
        (GOV_ENFORCEMENT_2, DutySubType::Enforcement, C80),
    ]
}

/// (pattern, sub-type, confidence, needs a government keyword) of the
/// government v2 patterns, in order.
pub open spec fn gov_v2_table() -> Seq<(&'static str, DutySubType, u32, bool)> {
    seq![
        (GOV_DIRECTION, DutySubType::Direction, C80, false),
        (GOV_GUIDANCE, DutySubType::Guidance, C75, true),
        (GOV_CONSULTATION, DutySubType::ConsultationObligation, C75, false),
        (GOV_APPOINTMENT, DutySubType::Appointment, C80, false),
        (GOV_DELEGATION, DutySubType::Delegation, C70, true),
        (GOV_FEES, DutySubType::Fees, C65, true),
        (GOV_PARL_REPORTING, DutySubType::ParliamentaryReporting, C80, false),
    ]
}

fn gov_v2_table_exec() -> (r: Vec<(&'static str, DutySubType, u32, bool)>)
    ensures
        r@ == gov_v2_table(),
{
    vec![
        (GOV_DIRECTION, DutySubType::Direction, C80, false),
        (GOV_GUIDANCE, DutySubType::Guidance, C75, true),
        (GOV_CONSULTATION, DutySubType::ConsultationObligation, C75, false),
        (GOV_APPOINTMENT, DutySubType::Appointment, C80, false),
        (GOV_DELEGATION, DutySubType::Delegation, C70, true),
        (GOV_FEES, DutySubType::Fees, C65, true),
        (GOV_PARL_REPORTING, DutySubType::ParliamentaryReporting, C80, false),
    ]
}

/// Earliest position at which one of the keywords occurs in `text`, or -1.
pub open spec fn earliest_keyword(keys: Seq<Seq<char>>, text: Seq<char>) -> int
    decreases keys.len(),
{
    if keys.len() == 0 {
        -1
    } else {
        let m = earliest_keyword(keys.drop_last(), text);
        let o = first_occ(text, keys.last(), 0);
        if o < 0 { m } else if m < 0 || o < m { o } else { m }
    }
}

/// Span of a government match: the earliest government keyword, and the
/// first obligation modal (else the first enabling one).
pub open spec fn gov_span_spec(keys: Seq<Seq<char>>, text: Seq<char>) -> Option<MatchSpan> {
    let a = earliest_keyword(keys, text);
    let ob = spans_spec(OBLIGATION@, text);
    let en = spans_spec(ENABLING@, text);
    if a < 0 {
        None
    } else if ob.len() > 0 {
        Some(MatchSpan { actor_start: a as usize, modal_start: ob[0].0 as usize, modal_end: ob[0].1 as usize })
    } else if en.len() > 0 {
        Some(MatchSpan { actor_start: a as usize, modal_start: en[0].0 as usize, modal_end: en[0].1 as usize })
    } else {
        None
    }
}

pub open spec fn keys_view(keys: Vec<String>) -> Seq<Seq<char>> {
    keys@.map_values(|k: String| k@)
}

proof fn lemma_earliest_range(keys: Seq<Seq<char>>, text: Seq<char>)
    ensures
        -1 <= earliest_keyword(keys, text) <= text.len(),
    decreases keys.len(),
{
    if keys.len() > 0 {
        lemma_earliest_range(keys.drop_last(), text);
        crate::application::lemma_first_occ_range_pub(text, keys.last(), 0);
    }
}

fn find_government_span(keywords: &Vec<String>, text: &str) -> (r: Option<MatchSpan>)
    ensures
        r == gov_span_spec(keys_view(*keywords), text@),
{
    let ghost kv = keys_view(*keywords);
    let tv = to_chars(text);
    let mut best: Option<usize> = None;
    let mut i: usize = 0;
    proof {
        assert(kv.take(0) =~= seq![]);
    }
    while i < keywords.len()
        invariant
            i <= keywords.len(),
            kv == keys_view(*keywords),
            tv@ == text@,
            match best {
                Some(b) => earliest_keyword(kv.take(i as int), text@) == b as int,
                None => earliest_keyword(kv.take(i as int), text@) == -1,
            },
        decreases keywords.len() - i,
    {
        proof {
            assert(kv.take(i + 1).drop_last() =~= kv.take(i as int));
            assert(kv.take(i + 1).last() == keywords@[i as int]@);
        }
        let kw = to_chars(keywords[i].as_str());
        match first_occ_exec(&tv, &kw) {
            Some(o) => {
                best = match best {
                    Some(b) => if o < b { Some(o) } else { Some(b) },
                    None => Some(o),
                };
            },
            None => {},
        }
        i += 1;
    }
    proof {
        assert(kv.take(keywords.len() as int) =~= kv);
    }
    let a = match best {
        Some(b) => b,
        None => {
            return None;
        },
    };
    match find_first(OBLIGATION, text) {
        Some((s, e)) => Some(MatchSpan { actor_start: a, modal_start: s, modal_end: e }),
        None => match find_first(ENABLING, text) {
            Some((s, e)) => Some(MatchSpan { actor_start: a, modal_start: s, modal_end: e }),
            None => None,
        },
    }
}

/// A government classification whose text's first modal is enabling becomes Enabling.
pub open spec fn modal_context(dc: DutyClassification, text: Seq<char>) -> DutyClassification {
    if dc.sub_type != DutySubType::Enabling && first_modal_is_enabling_spec(text) {
        DutyClassification { sub_type: DutySubType::Enabling, ..dc }
    } else {
        dc
    }
}

fn apply_modal_context(dc: DutyClassification, text: &str) -> (r: DutyClassification)
    ensures
        r == modal_context(dc, text@),
{
    let mut dc = dc;
    if dc.sub_type != DutySubType::Enabling && first_modal_is_enabling(text) {
        dc.sub_type = DutySubType::Enabling;
    }
    dc
}

/// Index of the first entry of the v1 table whose pattern matches, or -1.
pub open spec fn first_v1_hit(t: Seq<(&'static str, DutySubType, u32)>, text: Seq<char>) -> int
    decreases t.len(),
{
    if t.len() == 0 {
        -1
    } else {
        let k = first_v1_hit(t.drop_last(), text);
        if k >= 0 { k } else if is_match_spec(t.last().0@, text) { t.len() - 1 } else { -1 }
    }
}

/// The blunt government gate: a government keyword with an obligation
/// and/or enabling modal.
pub open spec fn gov_blunt(keys: Seq<Seq<char>>, text: Seq<char>) -> Option<DutyClassification> {
    let span = gov_span_spec(keys, text);
    let obl = is_match_spec(OBLIGATION@, text);
    let ena = is_match_spec(ENABLING@, text);
    let enabling = DutyClassification { family: DutyFamily::Government, sub_type: DutySubType::Enabling, confidence: C55, span };
    let prescriptive = DutyClassification { family: DutyFamily::Government, sub_type: DutySubType::Prescriptive, confidence: C60, span };
    if !has_government_actor_spec(keys, text) {
        None
    } else if obl && ena {
        if first_modal_is_enabling_spec(text) { Some(enabling) } else { Some(prescriptive) }
    } else if obl {
        Some(prescriptive)
    } else if ena {
        Some(enabling)
    } else {
        None
    }
}

/// Government v1: the first specific pattern that matches (modal context
/// applied), else the blunt gate.
pub open spec fn gov_v1_spec(keys: Seq<Seq<char>>, text: Seq<char>) -> Option<DutyClassification> {
    let t = gov_v1_table();
    let k = first_v1_hit(t, text);
    if k >= 0 {
        Some(modal_context(DutyClassification {
            family: DutyFamily::Government, sub_type: t[k].1, confidence: t[k].2, span: gov_span_spec(keys, text),
        }, text))
    } else {
        gov_blunt(keys, text)
    }
}

proof fn lemma_first_v1_hit_at(t: Seq<(&'static str, DutySubType, u32)>, text: Seq<char>, k: int)
    requires
        0 <= k < t.len(),
        is_match_spec(t[k].0@, text),
        forall|j: int| 0 <= j < k ==> !is_match_spec((#[trigger] t[j]).0@, text),
    ensures
        first_v1_hit(t, text) == k,
    decreases t.len(),
{
    if k < t.len() - 1 {
        lemma_first_v1_hit_at(t.drop_last(), text, k);
    } else {
        lemma_first_v1_hit_none(t.drop_last(), text);
    }
}

proof fn lemma_first_v1_hit_none(t: Seq<(&'static str, DutySubType, u32)>, text: Seq<char>)
    requires
        forall|j: int| 0 <= j < t.len() ==> !is_match_spec((#[trigger] t[j]).0@, text),
    ensures
        first_v1_hit(t, text) == -1,
    decreases t.len(),
{
    if t.len() > 0 {
        lemma_first_v1_hit_none(t.drop_last(), text);
    }
}

/// What the government v1 patterns decide, given what was found in the text:
/// `hit`, the index in [`gov_v1_table`] of the first specific pattern that
/// matches; the government span; whether a government keyword occurs; whether
/// an obligation and an enabling modal occur; whether the first modal is an
/// enabling one. A specific hit gives its sub-type and confidence (Enabling
/// where the first modal is enabling); else a government keyword with modals
/// gives Prescriptive (60) or Enabling (55), mixed modals going by the first.
pub open spec fn gov_v1_decision(
    hit: Option<int>,
    span: Option<MatchSpan>,
    gov: bool,
    obl: bool,
    ena: bool,
    first_enabling: bool,
) -> Option<DutyClassification> {
    let enabling = DutyClassification { family: DutyFamily::Government, sub_type: DutySubType::Enabling, confidence: C55, span };
    let prescriptive = DutyClassification { family: DutyFamily::Government, sub_type: DutySubType::Prescriptive, confidence: C60, span };
    match hit {
        Some(k) => {
            let e = gov_v1_table()[k];
            let sub = if e.1 != DutySubType::Enabling && first_enabling { DutySubType::Enabling } else { e.1 };
            Some(DutyClassification { family: DutyFamily::Government, sub_type: sub, confidence: e.2, span })
        },
        None => if !gov {
            None
        } else if obl && ena {
            if first_enabling { Some(enabling) } else { Some(prescriptive) }
        } else if obl {
            Some(prescriptive)
        } else if ena {
            Some(enabling)
        } else {
            None
        },
    }
}

/// The government v1 decision on the findings in a text.
pub fn decide_government_v1(
    hit: Option<usize>,
    span: Option<MatchSpan>,
    gov: bool,
    obl: bool,
    ena: bool,
    first_enabling: bool,
) -> (r: Option<DutyClassification>)
    requires
        hit is Some ==> hit->0 < gov_v1_table().len(),
    ensures
        r == gov_v1_decision(
            match hit { Some(k) => Some(k as int), None => None },
            span, gov, obl, ena, first_enabling,
        ),
{
    match hit {
        Some(k) => {
            let t = gov_v1_table_exec();
            let sub = if t[k].1 != DutySubType::Enabling && first_enabling { DutySubType::Enabling } else { t[k].1 };
            Some(DutyClassification { family: DutyFamily::Government, sub_type: sub, confidence: t[k].2, span })
        },
        None => {
            if !gov {
                None
            } else if obl && ena {
                if first_enabling {
                    Some(DutyClassification { family: DutyFamily::Government, sub_type: DutySubType::Enabling, confidence: C55, span })
                } else {
                    Some(DutyClassification { family: DutyFamily::Government, sub_type: DutySubType::Prescriptive, confidence: C60, span })
                }
            } else if obl {
                Some(DutyClassification { family: DutyFamily::Government, sub_type: DutySubType::Prescriptive, confidence: C60, span })
            } else if ena {
                Some(DutyClassification { family: DutyFamily::Government, sub_type: DutySubType::Enabling, confidence: C55, span })
            } else {
                None
            }
        },
    }
}

/// Government v1 on a text is the decision on what the text's searches find.
pub proof fn lemma_gov_v1_decided(keys: Seq<Seq<char>>, text: Seq<char>)
    ensures
        gov_v1_spec(keys, text) == gov_v1_decision(
            if first_v1_hit(gov_v1_table(), text) >= 0 { Some(first_v1_hit(gov_v1_table(), text)) } else { None },
            gov_span_spec(keys, text),
            has_government_actor_spec(keys, text),
            is_match_spec(OBLIGATION@, text),
            is_match_spec(ENABLING@, text),
            first_modal_is_enabling_spec(text),
        ),
{
}

/// Government duty patterns (v1) on downcased text, given the dictionary's
/// government keywords.
pub fn match_government_v1(keywords: &Vec<String>, text: &str) -> (r: Option<DutyClassification>)
    ensures
        r == gov_v1_spec(keys_view(*keywords), text@),
{
    let t = gov_v1_table_exec();
    let mut hit: Option<usize> = None;
    let mut i: usize = 0;
    while i < t.len() && hit.is_none()
        invariant
            i <= t.len(),
            t@ == gov_v1_table(),
            hit is None ==> forall|j: int| 0 <= j < i ==> !is_match_spec((#[trigger] t@[j]).0@, text@),
            hit matches Some(k) ==> k < t.len() && first_v1_hit(t@, text@) == k,
        decreases t.len() - i + (if hit is None { 1int } else { 0int }),
    {
        if is_match(t[i].0, text) {
            proof {
                lemma_first_v1_hit_at(t@, text@, i as int);
            }
            hit = Some(i);
        } else {
            i += 1;
        }
    }
    proof {
        if hit is None {
            lemma_first_v1_hit_none(t@, text@);
        }
    }
    let span = find_government_span(keywords, text);
    let gov = has_government_actor(keywords, text);
    let obl = has_obligation(text);
    let ena = has_enabling(text);
    let first_enabling = first_modal_is_enabling(text);
    proof {
        lemma_gov_v1_decided(keys_view(*keywords), text@);
    }
    decide_government_v1(hit, span, gov, obl, ena, first_enabling)
}

/// Index of the first v2 entry that applies (pattern matches, and a
/// government keyword is present when the entry needs one), or -1.
pub open spec fn first_v2_hit(t: Seq<(&'static str, DutySubType, u32, bool)>, keys: Seq<Seq<char>>, text: Seq<char>) -> int
    decreases t.len(),
{
    if t.len() == 0 {
        -1
    } else {
        let k = first_v2_hit(t.drop_last(), keys, text);
        let e = t.last();
        if k >= 0 {
            k
        } else if is_match_spec(e.0@, text) && (!e.3 || has_government_actor_spec(keys, text)) {
            t.len() - 1
        } else {
            -1
        }
    }
}

pub open spec fn v2_applies(e: (&'static str, DutySubType, u32, bool), keys: Seq<Seq<char>>, text: Seq<char>) -> bool {
    is_match_spec(e.0@, text) && (!e.3 || has_government_actor_spec(keys, text))
}

/// Government v2: the first extended pattern that applies, modal context applied.
pub open spec fn gov_v2_spec(keys: Seq<Seq<char>>, text: Seq<char>) -> Option<DutyClassification> {
    let t = gov_v2_table();
    let k = first_v2_hit(t, keys, text);
    if k >= 0 {
        Some(modal_context(DutyClassification {
            family: DutyFamily::Government, sub_type: t[k].1, confidence: t[k].2, span: gov_span_spec(keys, text),
        }, text))
    } else {
        None
    }
}

/// Index of the first entry of `t` whose pattern matched (`matched[j]`) and
/// that needs no government keyword or has one (`gov`), or -1.
pub open spec fn first_applying(t: Seq<(&'static str, DutySubType, u32, bool)>, matched: Seq<bool>, gov: bool) -> int
    decreases t.len(),
{
    if t.len() == 0 {
        -1
    } else {
        let k = first_applying(t.drop_last(), matched, gov);
        if k >= 0 {
            k
        } else if matched[t.len() - 1] && (!t.last().3 || gov) {
            t.len() - 1
        } else {
            -1
        }
    }
}

/// What the government v2 patterns decide, given which of the patterns of
/// [`gov_v2_table`] matched, whether a government keyword occurs, the
/// government span and whether the first modal is enabling: the first entry
/// that applies gives its sub-type and confidence (Enabling where the first
/// modal is enabling); none gives nothing.
pub open spec fn gov_v2_decision(matched: Seq<bool>, gov: bool, span: Option<MatchSpan>, first_enabling: bool) -> Option<DutyClassification> {
    let t = gov_v2_table();
    let k = first_applying(t, matched, gov);
    if k >= 0 {
        let sub = if t[k].1 != DutySubType::Enabling && first_enabling { DutySubType::Enabling } else { t[k].1 };
        Some(DutyClassification { family: DutyFamily::Government, sub_type: sub, confidence: t[k].2, span })
    } else {
        None
    }
}

proof fn lemma_first_applying_hit(t: Seq<(&'static str, DutySubType, u32, bool)>, matched: Seq<bool>, keys: Seq<Seq<char>>, text: Seq<char>)
    requires
        matched.len() >= t.len(),
        forall|j: int| 0 <= j < t.len() ==> matched[j] == is_match_spec((#[trigger] t[j]).0@, text),
    ensures
        first_applying(t, matched, has_government_actor_spec(keys, text)) == first_v2_hit(t, keys, text),
    decreases t.len(),
{
    if t.len() > 0 {
        let init = t.drop_last();
        assert forall|j: int| 0 <= j < init.len() implies matched[j] == is_match_spec((#[trigger] init[j]).0@, text) by {
            assert(init[j] == t[j]);
        }
        lemma_first_applying_hit(init, matched, keys, text);
        assert(matched[t.len() - 1] == is_match_spec(t[t.len() - 1].0@, text));
    }
}

/// The government v2 decision on which patterns matched.
pub fn decide_government_v2(matched: &Vec<bool>, gov: bool, span: Option<MatchSpan>, first_enabling: bool) -> (r: Option<DutyClassification>)
    requires
        matched.len() == gov_v2_table().len(),
    ensures
        r == gov_v2_decision(matched@, gov, span, first_enabling),
{
    let t = gov_v2_table_exec();
    let mut i: usize = 0;
    while i < t.len()
        invariant
            i <= t.len(),
            t@ == gov_v2_table(),
            matched.len() == t.len(),
            first_applying(t@.take(i as int), matched@, gov) == -1,
        decreases t.len() - i,
    {
        proof {
            assert(t@.take(i + 1).drop_last() == t@.take(i as int));
            assert(t@.take(i + 1).last() == t@[i as int]);
        }
        if matched[i] && (!t[i].3 || gov) {
            proof {
                lemma_first_applying_prefix(t@, matched@, gov, i as int + 1);
            }
            let sub = if t[i].1 != DutySubType::Enabling && first_enabling { DutySubType::Enabling } else { t[i].1 };
            return Some(DutyClassification { family: DutyFamily::Government, sub_type: sub, confidence: t[i].2, span });
        }
        i += 1;
    }
    proof {
        assert(t@.take(t.len() as int) == t@);
    }
    None
}

proof fn lemma_first_applying_prefix(t: Seq<(&'static str, DutySubType, u32, bool)>, matched: Seq<bool>, gov: bool, n: int)
    requires
        0 <= n <= t.len(),
        first_applying(t.take(n), matched, gov) >= 0,
    ensures
        first_applying(t, matched, gov) == first_applying(t.take(n), matched, gov),
    decreases t.len(),
{
    if n < t.len() {
        assert(t.drop_last().take(n) == t.take(n));
        lemma_first_applying_prefix(t.drop_last(), matched, gov, n);
    } else {
        assert(t.take(n) == t);
    }
}

/// Government v2 on a text is the decision on which of its patterns match.
pub proof fn lemma_gov_v2_decided(keys: Seq<Seq<char>>, text: Seq<char>, matched: Seq<bool>)
    requires
        matched.len() == gov_v2_table().len(),
        forall|j: int| 0 <= j < matched.len() ==> matched[j] == is_match_spec((#[trigger] gov_v2_table()[j]).0@, text),
    ensures
        gov_v2_spec(keys, text) == gov_v2_decision(
            matched,
            has_government_actor_spec(keys, text),
            gov_span_spec(keys, text),
            first_modal_is_enabling_spec(text),
        ),
{
    lemma_first_applying_hit(gov_v2_table(), matched, keys, text);
}

/// Extended government duty patterns (v2) on downcased text.
pub fn match_government_v2(keywords: &Vec<String>, text: &str) -> (r: Option<DutyClassification>)
    ensures
        r == gov_v2_spec(keys_view(*keywords), text@),
{
    let t = gov_v2_table_exec();
    let mut matched: Vec<bool> = Vec::new();
    let mut i: usize = 0;
    while i < t.len()
        invariant
            i <= t.len(),
            t@ == gov_v2_table(),
            matched.len() == i,
            forall|j: int| 0 <= j < i ==> matched@[j] == is_match_spec((#[trigger] t@[j]).0@, text@),
        decreases t.len() - i,
    {
        matched.push(is_match(t[i].0, text));
        i += 1;
    }
    let gov = has_government_actor(keywords, text);
    let span = find_government_span(keywords, text);
    let first_enabling = first_modal_is_enabling(text);
    proof {
        lemma_gov_v2_decided(keys_view(*keywords), text@, matched@);
    }
    decide_government_v2(&matched, gov, span, first_enabling)
}

// ---------------------------------------------------------------------------
// All government signals (not only the first match)

/// A government classification of `t`'s entry, modal context applied.
pub open spec fn gov_class(keys: Seq<Seq<char>>, text: Seq<char>, sub_type: DutySubType, confidence: u32) -> DutyClassification {
    modal_context(
        DutyClassification { family: DutyFamily::Government, sub_type, confidence, span: gov_span_spec(keys, text) },
        text,
    )
}

/// A signal for each specific v1 pattern that matches, in order.
pub open spec fn v1_signals_from(
    keys: Seq<Seq<char>>,
    text: Seq<char>,
    t: Seq<(&'static str, DutySubType, u32)>,
) -> Seq<SignalView>
    decreases t.len(),
{
    if t.len() == 0 {
        seq![]
    } else {
        let rest = v1_signals_from(keys, text, t.drop_first());
        if is_match_spec(t[0].0@, text) {
            seq![signal_of(SignalTier::GovernmentV1, gov_class(keys, text, t[0].1, t[0].2))] + rest
        } else {
            rest
        }
    }
}

/// Every government v1 signal: each specific pattern that matches, then the
/// blunt gate's obligation signal and its enabling signal, each where a
/// government keyword and the modal occur.
pub open spec fn gov_v1_signals_spec(keys: Seq<Seq<char>>, text: Seq<char>) -> Seq<SignalView> {
    let gov = has_government_actor_spec(keys, text);
    let span = gov_span_spec(keys, text);
    v1_signals_from(keys, text, gov_v1_table())
        + (if gov && is_match_spec(OBLIGATION@, text) {
            seq![signal_of(SignalTier::GovernmentV1, DutyClassification {
                family: DutyFamily::Government, sub_type: DutySubType::Prescriptive, confidence: C60, span,
            })]
        } else {
            seq![]
        })
        + (if gov && is_match_spec(ENABLING@, text) {
            seq![signal_of(SignalTier::GovernmentV1, DutyClassification {
                family: DutyFamily::Government, sub_type: DutySubType::Enabling, confidence: C55, span,
            })]
        } else {
            seq![]
        })
}

/// Every government v1 signal of a (lower-cased) text.
pub fn extract_government_v1_signals(keywords: &Vec<String>, text: &str) -> (r: Vec<PatternSignal>)
    ensures
        signals_view(r@) == gov_v1_signals_spec(keys_view(*keywords), text@),
{
    let ghost keys = keys_view(*keywords);
    let t = gov_v1_table_exec();
    let mut out: Vec<PatternSignal> = Vec::new();
    let mut i: usize = 0;
    proof {
        assert(t@.skip(0) =~= t@);
        assert(seq![] + v1_signals_from(keys, text@, t@) =~= v1_signals_from(keys, text@, t@));
    }
    while i < t.len()
        invariant
            i <= t.len(),
            t@ == gov_v1_table(),
            keys == keys_view(*keywords),
            v1_signals_from(keys, text@, gov_v1_table()) == signals_view(out@) + v1_signals_from(keys, text@, t@.skip(i as int)),
        decreases t.len() - i,
    {
        proof {
            assert(t@.skip(i as int)[0] == t@[i as int]);
            assert(t@.skip(i as int).drop_first() =~= t@.skip(i + 1));
        }
        let ghost prev = signals_view(out@);
        if is_match(t[i].0, text) {
            let span = find_government_span(keywords, text);
            let dc = apply_modal_context(
                DutyClassification { family: DutyFamily::Government, sub_type: t[i].1, confidence: t[i].2, span },
                text,
            );
            out.push(signal_from(SignalTier::GovernmentV1, dc));
            proof {
                assert(signals_view(out@) =~= prev.push(signal_of(SignalTier::GovernmentV1, dc)));
                let rest = v1_signals_from(keys, text@, t@.skip(i + 1));
                assert(prev.push(signal_of(SignalTier::GovernmentV1, dc)) + rest
                    =~= prev + (seq![signal_of(SignalTier::GovernmentV1, dc)] + rest));
            }
        }
        i += 1;
    }
    proof {
        assert(t@.skip(t@.len() as int) =~= seq![]);
        assert(signals_view(out@) + seq![] =~= signals_view(out@));
    }
    let gov = has_government_actor(keywords, text);
    let span = find_government_span(keywords, text);
    let ghost base = signals_view(out@);
    if gov && has_obligation(text) {
        out.push(signal_from(SignalTier::GovernmentV1, DutyClassification {
            family: DutyFamily::Government, sub_type: DutySubType::Prescriptive, confidence: C60, span,
        }));
    }
    let ghost mid = signals_view(out@);
    if gov && has_enabling(text) {
        out.push(signal_from(SignalTier::GovernmentV1, DutyClassification {
            family: DutyFamily::Government, sub_type: DutySubType::Enabling, confidence: C55, span,
        }));
    }
    proof {
        let obl_part: Seq<SignalView> = if gov && is_match_spec(OBLIGATION@, text@) {
            seq![signal_of(SignalTier::GovernmentV1, DutyClassification {
                family: DutyFamily::Government, sub_type: DutySubType::Prescriptive, confidence: C60, span,
            })]
        } else {
            seq![]
        };
        let ena_part: Seq<SignalView> = if gov && is_match_spec(ENABLING@, text@) {
            seq![signal_of(SignalTier::GovernmentV1, DutyClassification {
                family: DutyFamily::Government, sub_type: DutySubType::Enabling, confidence: C55, span,
            })]
        } else {
            seq![]
        };
        assert(mid =~= base + obl_part);
        assert(signals_view(out@) =~= mid + ena_part);
    }
    out
}

/// A signal for each v2 pattern that applies, in order.
pub open spec fn v2_signals_from(
    keys: Seq<Seq<char>>,
    text: Seq<char>,
    t: Seq<(&'static str, DutySubType, u32, bool)>,
) -> Seq<SignalView>
    decreases t.len(),
{
    if t.len() == 0 {
        seq![]
    } else {
        let rest = v2_signals_from(keys, text, t.drop_first());
        if v2_applies(t[0], keys, text) {
            seq![signal_of(SignalTier::GovernmentV2, gov_class(keys, text, t[0].1, t[0].2))] + rest
        } else {
            rest
        }
    }
}

pub open spec fn gov_v2_signals_spec(keys: Seq<Seq<char>>, text: Seq<char>) -> Seq<SignalView> {
    v2_signals_from(keys, text, gov_v2_table())
}

/// Every government v2 signal of a (lower-cased) text.
pub fn extract_government_v2_signals(keywords: &Vec<String>, text: &str) -> (r: Vec<PatternSignal>)
    ensures
        signals_view(r@) == gov_v2_signals_spec(keys_view(*keywords), text@),
{
    let ghost keys = keys_view(*keywords);
    let t = gov_v2_table_exec();
    let gov = has_government_actor(keywords, text);
    let mut out: Vec<PatternSignal> = Vec::new();
    let mut i: usize = 0;
    proof {
        assert(t@.skip(0) =~= t@);
        assert(seq![] + v2_signals_from(keys, text@, t@) =~= v2_signals_from(keys, text@, t@));
    }
    while i < t.len()
        invariant
            i <= t.len(),
            t@ == gov_v2_table(),
            keys == keys_view(*keywords),
            gov == has_government_actor_spec(keys, text@),
            v2_signals_from(keys, text@, gov_v2_table()) == signals_view(out@) + v2_signals_from(keys, text@, t@.skip(i as int)),
        decreases t.len() - i,
    {
        proof {
            assert(t@.skip(i as int)[0] == t@[i as int]);
            assert(t@.skip(i as int).drop_first() =~= t@.skip(i + 1));
        }
        let ghost prev = signals_view(out@);
        if is_match(t[i].0, text) && (!t[i].3 || gov) {
            let span = find_government_span(keywords, text);
            let dc = apply_modal_context(
                DutyClassification { family: DutyFamily::Government, sub_type: t[i].1, confidence: t[i].2, span },
                text,
            );
            out.push(signal_from(SignalTier::GovernmentV2, dc));
            proof {
                assert(signals_view(out@) =~= prev.push(signal_of(SignalTier::GovernmentV2, dc)));
                let rest = v2_signals_from(keys, text@, t@.skip(i + 1));
                assert(prev.push(signal_of(SignalTier::GovernmentV2, dc)) + rest
                    =~= prev + (seq![signal_of(SignalTier::GovernmentV2, dc)] + rest));
            }
        }
        i += 1;
    }
    proof {
        assert(t@.skip(t@.len() as int) =~= seq![]);
        assert(signals_view(out@) + seq![] =~= signals_view(out@));
    }
    out
}

} // verus!
