use fractalaw_taxa::duty_patterns::{DutyFamily, DutySubType};
use fractalaw_taxa::duty_patterns_rule::{match_rule, rule_from_spans};

#[test]
fn traffic_routes_must_be_suitable() {
    let text = "every traffic routes must be suitable for the persons or vehicles using them";
    assert_eq!(match_rule(text).map(|dc| dc.family), Some(DutyFamily::Rule));
}

#[test]
fn cofferdam_must_be_suitable() {
    let text = "a cofferdam must be of suitable design and construction";
    let result = match_rule(text).unwrap();
    assert_eq!(result.family, DutyFamily::Rule);
    assert_eq!(result.sub_type, DutySubType::ThingObligation);
}

#[test]
fn equipment_must_be_provided() {
    let text = "suitable and sufficient fire-fighting equipment must be provided";
    let result = match_rule(text).unwrap();
    assert_eq!(result.family, DutyFamily::Rule);
}

#[test]
fn workplace_shall_be_ventilated() {
    let text = "every workplace shall be ventilated by a sufficient quantity of fresh air";
    let result = match_rule(text).unwrap();
    assert_eq!(result.family, DutyFamily::Rule);
}

#[test]
fn scaffolding_must_be_inspected() {
    let text = "scaffolding must be inspected before being taken into use";
    let result = match_rule(text).unwrap();
    assert_eq!(result.family, DutyFamily::Rule);
}

#[test]
fn person_subject_not_captured_as_rule() {
    // Person-subject should not match — belongs to Governed tier
    let text = "every employer shall ensure the health, safety and welfare of employees";
    assert!(match_rule(text).is_none());
}

#[test]
fn no_modal_no_rule() {
    let text = "the equipment is suitable for its intended purpose";
    assert!(match_rule(text).is_none());
}

#[test]
fn person_closer_than_thing_rejects() {
    // "employer" is between "equipment" and "must" — person takes precedence
    let text = "where equipment is used, the employer must ensure it is maintained";
    assert!(match_rule(text).is_none());
}

#[test]
fn government_actor_rejects() {
    let text = "the equipment used by the authority must be approved";
    assert!(match_rule(text).is_none());
}

#[test]
fn lighting_shall_be_sufficient() {
    let text = "suitable and sufficient lighting shall be provided in every workplace";
    let result = match_rule(text).unwrap();
    assert_eq!(result.family, DutyFamily::Rule);
}

#[test]
fn rule_decision_on_modal_spans() {
    let text = "a cofferdam must be of suitable design and construction";
    // "must" sits at characters 12..16.
    let r = rule_from_spans(text, &vec![(12, 16)]).unwrap();
    assert_eq!((r.family, r.sub_type), (DutyFamily::Rule, DutySubType::ThingObligation));
    // A span with no thing keyword before it makes no rule; the next one does.
    assert_eq!(rule_from_spans(text, &vec![(0, 1), (12, 16)]).map(|d| d.sub_type), Some(DutySubType::ThingObligation));
    assert!(rule_from_spans(text, &vec![(0, 1)]).is_none());
    assert!(rule_from_spans(text, &Vec::new()).is_none());
}
