//! The top-level duty-type classifier: runs the pattern tiers in order
//! (governed actors anchored to the modal, government v1, government v2,
//! offence-as-duty, thing-subject rule) and maps the first hit to DRRP duty
//! types: Obligation, Liberty or Rule.

use vstd::prelude::*;
use crate::actors::ActorMatch;
use crate::duty_patterns::{
    gov_v1_spec, gov_v2_spec, has_enabling, keys_view, match_government_v1, match_government_v2, sub_type_lower,
    DutyClassification, DutyFamily, DutySubType, ENABLING,
};
use crate::duty_patterns_offence::{match_offence_as_duty, offence_spec};
use crate::duty_patterns_rule::{match_rule, rule_spec};
use crate::duty_patterns_v2::{actors_view, governed_best, match_governed_v2};
use crate::rx::is_match_spec;

verus! {

/// The three duty-type labels.
#[derive(Debug, Clone, Copy, PartialEq, Eq, Structural, Hash, PartialOrd, Ord)]
pub enum DutyType {
    Obligation,
    Liberty,
    Rule,
}

pub open spec fn duty_type_name(t: DutyType) -> Seq<char> {
    match t {
        DutyType::Obligation => "Obligation"@,
        DutyType::Liberty => "Liberty"@,
        DutyType::Rule => "Rule"@,
    }
}

pub open spec fn duty_type_priority(t: DutyType) -> u8 {
    match t {
        DutyType::Obligation => 1,
        DutyType::Liberty => 2,
        DutyType::Rule => 3,
    }
}

impl DutyType {
    /// Display label.
    pub fn as_str(self) -> (r: &'static str)
        ensures
            r@ == duty_type_name(self),
    {
        match self {
            DutyType::Obligation => "Obligation",
            DutyType::Liberty => "Liberty",
            DutyType::Rule => "Rule",
        }
    }

    /// Sort priority (lower = higher priority).
    pub fn priority(self) -> (r: u8)
        ensures
            r == duty_type_priority(self),
    {
        match self {
            DutyType::Obligation => 1,
            DutyType::Liberty => 2,
            DutyType::Rule => 3,
        }
    }
}

/// The classification of one piece of text.
#[derive(Debug, Clone, PartialEq)]
pub struct ClassificationResult {
    /// DRRP types found, by priority.
    pub duty_types: Vec<DutyType>,
    /// The pattern classification behind them, if any.
    pub classification: Option<DutyClassification>,
}

/// Duty types of a classification: Government and Governed give Liberty for
/// enabling and Obligation for prohibitions and other sub-types (Liberty for
/// a sub-type whose label reads as enabling); Rule gives Liberty for enabling,
/// else Obligation; Unknown gives none.
pub open spec fn duty_types_of(dc: DutyClassification) -> Seq<DutyType> {
    match dc.family {
        DutyFamily::Government | DutyFamily::Governed => match dc.sub_type {
            DutySubType::Enabling => seq![DutyType::Liberty],
            DutySubType::Prohibitive => seq![DutyType::Obligation],
            _ => if is_match_spec(ENABLING@, sub_type_lower(dc.sub_type)) {
                seq![DutyType::Liberty]
            } else {
                seq![DutyType::Obligation]
            },
        },
        DutyFamily::Rule => match dc.sub_type {
            DutySubType::Enabling => seq![DutyType::Liberty],
            _ => seq![DutyType::Obligation],
        },
        DutyFamily::Unknown => seq![],
    }
}

/// Map a classification to DRRP duty types.
pub fn map_to_duty_type(dc: &DutyClassification) -> (r: Vec<DutyType>)
    ensures
        r@ == duty_types_of(*dc),
{
    match dc.family {
        DutyFamily::Government | DutyFamily::Governed => match dc.sub_type {
            DutySubType::Enabling => vec![DutyType::Liberty],
            DutySubType::Prohibitive => vec![DutyType::Obligation],
            _ => if has_enabling(dc.sub_type.as_str_lower()) {
                vec![DutyType::Liberty]
            } else {
                vec![DutyType::Obligation]
            },
        },
        DutyFamily::Rule => match dc.sub_type {
            DutySubType::Enabling => vec![DutyType::Liberty],
            _ => vec![DutyType::Obligation],
        },
        DutyFamily::Unknown => vec![],
    }
}

/// The classification the tiers give, first hit wins: governed actors
/// anchored to the modal, government v1, government v2, offence as duty,
/// thing-subject rule.
pub open spec fn classify_spec(keys: Seq<Seq<char>>, text: Seq<char>, governed: Seq<ActorMatch>) -> Option<DutyClassification> {
    let g = governed_best(text, actors_view(governed));
    if g is Some {
        g
    } else if gov_v1_spec(keys, text) is Some {
        gov_v1_spec(keys, text)
    } else if gov_v2_spec(keys, text) is Some {
        gov_v2_spec(keys, text)
    } else if offence_spec(text) is Some {
        offence_spec(text)
    } else {
        rule_spec(text)
    }
}

fn to_result(dc: DutyClassification) -> (r: ClassificationResult)
    ensures
        r.classification == Some(dc),
        r.duty_types@ == duty_types_of(dc),
{
    let dt = map_to_duty_type(&dc);
    ClassificationResult { duty_types: dt, classification: Some(dc) }
}

/// Classify a lower-cased legal text into DRRP duty types.
/// `government_keywords` are the dictionary's government actor keywords.
pub fn classify(
    government_keywords: &Vec<String>,
    text: &str,
    governed_actors: &[ActorMatch],
    government_actors: &[ActorMatch],
) -> (r: ClassificationResult)
    ensures
        r.classification == classify_spec(keys_view(*government_keywords), text@, governed_actors@),
        r.duty_types@ == match r.classification {
            Some(dc) => duty_types_of(dc),
            None => seq![],
        },
{
    match match_governed_v2(text, governed_actors) {
        Some(dc) => {
            return to_result(dc);
        },
        None => {},
    }
    match match_government_v1(government_keywords, text) {
        Some(dc) => {
            return to_result(dc);
        },
        None => {},
    }
    match match_government_v2(government_keywords, text) {
        Some(dc) => {
            return to_result(dc);
        },
        None => {},
    }
    match match_offence_as_duty(text) {
        Some(dc) => {
            return to_result(dc);
        },
        None => {},
    }
    match match_rule(text) {
        Some(dc) => {
            return to_result(dc);
        },
        None => {},
    }
    ClassificationResult { duty_types: Vec::new(), classification: None }
}

/// The duty types present in `s`, each once, by priority.
pub open spec fn sorted_types(s: Seq<DutyType>) -> Seq<DutyType> {
    (if s.contains(DutyType::Obligation) { seq![DutyType::Obligation] } else { seq![] })
        + (if s.contains(DutyType::Liberty) { seq![DutyType::Liberty] } else { seq![] })
        + (if s.contains(DutyType::Rule) { seq![DutyType::Rule] } else { seq![] })
}

proof fn lemma_take_contains(s: Seq<DutyType>, i: int, x: DutyType)
    requires
        0 <= i < s.len(),
    ensures
        s.take(i + 1).contains(x) == (s.take(i).contains(x) || s[i] == x),
{
    let t = s.take(i + 1);
    if s[i] == x {
        assert(t[i] == x);
    }
    if s.take(i).contains(x) {
        let j = choose|j: int| 0 <= j < i && s.take(i)[j] == x;
        assert(t[j] == x);
    }
    if t.contains(x) {
        let j = choose|j: int| 0 <= j < i + 1 && t[j] == x;
        if j < i {
            assert(s.take(i)[j] == x);
        }
    }
}

/// Sort duty types by priority (Obligation, Liberty, Rule) and drop repeats.
pub fn sort_duty_types(types: &mut Vec<DutyType>)
    ensures
        final(types)@ == sorted_types(old(types)@),
        forall|i: int, j: int|
            0 <= i < j < final(types)@.len() ==> duty_type_priority(#[trigger] final(types)@[i]) < duty_type_priority(
                #[trigger] final(types)@[j],
            ),
        final(types)@.to_set() == old(types)@.to_set(),
{
    let ghost s = types@;
    let mut has_o = false;
    let mut has_l = false;
    let mut has_r = false;
    let mut i: usize = 0;
    while i < types.len()
        invariant
            i <= types.len(),
            types@ == s,
            has_o == s.take(i as int).contains(DutyType::Obligation),
            has_l == s.take(i as int).contains(DutyType::Liberty),
            has_r == s.take(i as int).contains(DutyType::Rule),
        decreases types.len() - i,
    {
        proof {
            lemma_take_contains(s, i as int, DutyType::Obligation);
            lemma_take_contains(s, i as int, DutyType::Liberty);
            lemma_take_contains(s, i as int, DutyType::Rule);
        }
        match types[i] {
            DutyType::Obligation => {
                has_o = true;
            },
            DutyType::Liberty => {
                has_l = true;
            },
            DutyType::Rule => {
                has_r = true;
            },
        }
        i += 1;
    }
    proof {
        assert(s.take(s.len() as int) =~= s);
    }
    let mut out: Vec<DutyType> = Vec::new();
    if has_o {
        out.push(DutyType::Obligation);
    }
    if has_l {
        out.push(DutyType::Liberty);
    }
    if has_r {
        out.push(DutyType::Rule);
    }
    proof {
        assert(out@ =~= sorted_types(s));
        assert forall|x: DutyType| out@.to_set().contains(x) <==> s.to_set().contains(x) by {
            if out@.contains(x) {
                let j = choose|j: int| 0 <= j < out@.len() && out@[j] == x;
                assert(s.contains(out@[j]));
            }
            if s.contains(x) {
                match x {
                    DutyType::Obligation => {
                        assert(out@[0] == x);
                    },
                    DutyType::Liberty => {
                        assert(out@[if has_o { 1int } else { 0 }] == x);
                    },
                    DutyType::Rule => {
                        assert(out@[out@.len() - 1] == x);
                    },
                }
            }
        }
        assert(out@.to_set() =~= s.to_set());
    }
    *types = out;
}

} // verus!
