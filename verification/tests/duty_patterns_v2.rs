use fractalaw_taxa::duty_patterns::C50;
use fractalaw_taxa::duty_patterns::{DutyClassification, MatchSpan};
use fractalaw_taxa::duty_patterns_v2::{decide_person, decide_person_modal};
use fractalaw_taxa::actors::ActorMatch;
use fractalaw_taxa::duty_patterns::{DutyFamily, DutySubType, C65, C70, C80, C85};
use fractalaw_taxa::duty_patterns_v2::match_governed_v2;

fn actor(label: &str, keyword: &str) -> ActorMatch {
    ActorMatch {
        label: label.to_string(),
        keyword: keyword.to_string(),
        offset: 0,
    }
}

// ── Actor-as-subject (should match) ─────────────────────────────

#[test]
fn employer_shall_ensure_general_duty() {
    let text = "every employer shall ensure the health, safety and welfare of employees";
    let actors = vec![actor("Org: Employer", "employer")];
    let dc = match_governed_v2(text, &actors).unwrap();
    assert_eq!(dc.sub_type, DutySubType::GeneralDuty);
    assert!(dc.confidence >= C85);
}

#[test]
fn contractor_must_plan() {
    let text = "a contractor must plan, manage and monitor construction work";
    let actors = vec![actor("SC: C: Contractor", "contractor")];
    let dc = match_governed_v2(text, &actors).unwrap();
    assert_eq!(dc.sub_type, DutySubType::Prescriptive);
    assert!(dc.confidence >= C65);
}

#[test]
fn employer_sfairp() {
    let text =
        "the employer must ensure, so far as is reasonably practicable, the safety of workers";
    let actors = vec![actor("Org: Employer", "employer")];
    let dc = match_governed_v2(text, &actors).unwrap();
    assert_eq!(dc.sub_type, DutySubType::SfairpDuty);
}

#[test]
fn contractor_must_not_prohibition() {
    let text = "a contractor must not carry out construction work unless satisfied";
    let actors = vec![actor("SC: C: Contractor", "contractor")];
    let dc = match_governed_v2(text, &actors).unwrap();
    assert_eq!(dc.sub_type, DutySubType::Prohibitive);
}

#[test]
fn employer_risk_assessment() {
    let text = "every employer shall make a suitable and sufficient assessment of the risks";
    let actors = vec![actor("Org: Employer", "employer")];
    let dc = match_governed_v2(text, &actors).unwrap();
    assert_eq!(dc.sub_type, DutySubType::RiskAssessment);
}

#[test]
fn client_must_provide_information() {
    let text = "a client must provide pre-construction information as soon as is practicable";
    let actors = vec![actor("SC: Client", "client")];
    let dc = match_governed_v2(text, &actors).unwrap();
    assert_eq!(dc.sub_type, DutySubType::InformationDuty);
}

#[test]
fn employer_training() {
    // Pure training provision (no health/safety/welfare keywords)
    let text = "every employer shall ensure that adequate instruction and training is provided to employees";
    let actors = vec![actor("Org: Employer", "employer")];
    let dc = match_governed_v2(text, &actors).unwrap();
    assert_eq!(dc.sub_type, DutySubType::TrainingDuty);
}

#[test]
fn employer_training_with_hsw_is_general_duty() {
    // When both h&s and training keywords present, GeneralDuty wins
    // because ensure+health/safety is the higher-priority specific pattern
    let text = "every employer shall ensure that his employees are provided with adequate health and safety training";
    let actors = vec![actor("Org: Employer", "employer")];
    let dc = match_governed_v2(text, &actors).unwrap();
    assert_eq!(dc.sub_type, DutySubType::GeneralDuty);
}

#[test]
fn employee_may_enabling() {
    let text = "the employee may request a review of the assessment";
    let actors = vec![actor("Ind: Employee", "employee")];
    let dc = match_governed_v2(text, &actors).unwrap();
    assert_eq!(dc.sub_type, DutySubType::Enabling);
}

// ── Subordinate clause rejection ──────────────────────────────

#[test]
fn actor_in_where_clause_no_match() {
    // "Where an employee is required..., an individual record shall be made"
    // The employee is in the subordinate clause, not the main subject.
    let text = "where an employee is required by regulation 10 to be under \
                 medical surveillance, an individual record of any monitoring \
                 carried out in accordance with this regulation shall be made, \
                 maintained and kept in respect of that employee";
    let actors = vec![actor("Ind: Employee", "employee")];
    let result = match_governed_v2(text, &actors);
    assert!(
        result.is_none(),
        "actor in Where-clause should not match, got: {:?}",
        result
    );
}

#[test]
fn actor_after_where_clause_matches() {
    // "Where the risk assessment shows..., the employer shall ensure..."
    // The employer is the main subject AFTER the comma.
    let text = "where the risk assessment shows it to be necessary, \
                 the employer shall ensure that employees are provided \
                 with suitable health surveillance";
    let actors = vec![actor("Org: Employer", "employer")];
    let dc = match_governed_v2(text, &actors).unwrap();
    assert_eq!(dc.family, DutyFamily::Governed);
}

// ── Epistemic "may" rejection ───────────────────────────────────

#[test]
fn epistemic_may_be_not_enabling() {
    // "employer may need" is epistemic (= might need), not permission
    let text = "the risk assessment shall include such additional information \
                 as the employer may need in order to complete the risk assessment";
    let actors = vec![actor("Org: Employer", "employer")];
    let result = match_governed_v2(text, &actors);
    assert!(
        result.is_none() || result.as_ref().unwrap().sub_type != DutySubType::Enabling,
        "epistemic 'may need' should not produce Enabling, got: {:?}",
        result
    );
}

#[test]
fn epistemic_may_be_reduced_not_enabling() {
    // "the frequency of monitoring may be reduced" — epistemic, not permission
    let text = "biological monitoring shall be carried out at intervals not \
                 exceeding those set out below- (a) in respect of an employee \
                 other than a young person or a woman of reproductive capacity, \
                 at least every 6 months, but where the results of the \
                 measurements for individuals or for groups of workers have \
                 shown on the previous two consecutive occasions on which \
                 monitoring was carried out a lead in air exposure greater \
                 than 0.075 mg/m 3 but less than 0.100 mg/m 3 and where the \
                 blood-lead concentration of any individual employee is less \
                 than 30, the frequency of monitoring may be reduced to once \
                 a year";
    let actors = vec![actor("Ind: Employee", "employee")];
    let result = match_governed_v2(text, &actors);
    assert!(
        result.is_none() || result.as_ref().unwrap().sub_type != DutySubType::Enabling,
        "epistemic 'may be reduced' should not produce Enabling, got: {:?}",
        result
    );
}

#[test]
fn epistemic_may_be_exposed_not_enabling() {
    // "employees who may be exposed" — epistemic, not permission
    let text = "the regulations impose duties on employers to protect \
                 employees who may be exposed to risk from vibration";
    let actors = vec![actor("Org: Employer", "employer")];
    let result = match_governed_v2(text, &actors);
    assert!(
        result.is_none() || result.as_ref().unwrap().sub_type != DutySubType::Enabling,
        "epistemic 'may be' should not produce Enabling, got: {:?}",
        result
    );
}

// ── Actor-as-object (should NOT match) ──────────────────────────

#[test]
fn contractor_as_object_no_match() {
    // Modal "must" comes BEFORE "contractor" — contractor is the recipient
    let text = "information must be provided to the contractor before work begins";
    let actors = vec![actor("SC: C: Contractor", "contractor")];
    let result = match_governed_v2(text, &actors);
    assert!(
        result.is_none(),
        "contractor-as-object should not match, got: {:?}",
        result
    );
}

#[test]
fn worker_as_beneficiary_no_match() {
    // "worker" appears but is the beneficiary, not the duty-holder
    // The duty-holder (hirer) is not in the actor list
    let text =
        "suitable and sufficient changing rooms must be provided if a worker needs to change";
    let actors = vec![actor("Ind: Worker", "worker")];
    let result = match_governed_v2(text, &actors);
    assert!(
        result.is_none(),
        "worker-as-beneficiary should not match, got: {:?}",
        result
    );
}

#[test]
fn employer_after_modal_no_match() {
    let text = "a report must be sent to the employer within 14 days";
    let actors = vec![actor("Org: Employer", "employer")];
    let result = match_governed_v2(text, &actors);
    assert!(
        result.is_none(),
        "employer-after-modal should not match, got: {:?}",
        result
    );
}

// ── Person compound predicates ──────────────────────────────────

#[test]
fn person_must_not_ride_compound() {
    let text = "a person must not ride, or be required or permitted to ride, on any vehicle";
    let actors = vec![actor("Ind: Person", "person")];
    let dc = match_governed_v2(text, &actors).unwrap();
    assert_eq!(dc.sub_type, DutySubType::Prohibitive);
}

#[test]
fn every_person_shall_comply() {
    let text = "every person shall comply with the requirements of these regulations";
    let actors = vec![actor("Ind: Person", "person")];
    let dc = match_governed_v2(text, &actors).unwrap();
    assert_eq!(dc.sub_type, DutySubType::Prescriptive);
}

#[test]
fn no_person_shall_prohibition() {
    let text = "no person shall carry out work at height unless properly trained";
    let actors = vec![actor("Ind: Person", "person")];
    let dc = match_governed_v2(text, &actors).unwrap();
    assert_eq!(dc.sub_type, DutySubType::Prohibitive);
}

#[test]
fn person_who_must_report() {
    let text = "a person who discovers a defect must report it immediately";
    let actors = vec![actor("Ind: Person", "person")];
    let dc = match_governed_v2(text, &actors).unwrap();
    assert_eq!(dc.sub_type, DutySubType::Prescriptive);
}

#[test]
fn bare_person_no_match() {
    // Bare "person" without compound qualifier — should NOT match
    let text = "information shall be disclosed to a person under subsection (1)";
    let actors = vec![actor("Ind: Person", "person")];
    let result = match_governed_v2(text, &actors);
    assert!(
        result.is_none(),
        "bare person should not match, got: {:?}",
        result
    );
}

#[test]
fn person_definitional_no_match() {
    let text = "a person shall be regarded as competent where he has sufficient training";
    let actors = vec![actor("Ind: Person", "person")];
    // "a person" doesn't match PERSON_QUALIFIERS (no "who"/"must"/"with a duty" after it)
    // But it might match "a person...shall" — let's verify the compound predicate blocks it
    let result = match_governed_v2(text, &actors);
    // Note: PERSON_QUALIFIERS doesn't match "a person shall be regarded" because
    // it requires "a person who|with a duty|must", not "a person shall"
    assert!(
        result.is_none(),
        "definitional person should not match, got: {:?}",
        result
    );
}

// ── Multiple actors — best match wins ───────────────────────────

#[test]
fn multiple_actors_best_match() {
    let text = "the employer shall ensure that every worker is provided with training";
    let actors = vec![
        actor("Org: Employer", "employer"),
        actor("Ind: Worker", "worker"),
    ];
    let dc = match_governed_v2(text, &actors).unwrap();
    // Employer is before "shall" — matches GeneralDuty or Training
    // Worker is after "shall" — no anchored match
    assert!(dc.confidence >= C70);
}

// ── Extended window ─────────────────────────────────────────────

#[test]
fn long_preamble_primary_window() {
    // Actor-to-modal gap is 114 chars (within 120 primary window)
    let text = "a designer (including a principal designer) or contractor \
                 (including a principal contractor) appointed to work on a \
                 project must have the skills, knowledge and experience";
    let actors = vec![actor("SC: C: Designer", "designer")];
    let dc = match_governed_v2(text, &actors).unwrap();
    assert_eq!(dc.sub_type, DutySubType::Prescriptive);
    assert_eq!(dc.confidence, C70); // Primary window confidence
}

#[test]
fn extended_window_reduced_confidence() {
    // Actor-to-modal gap is ~145 chars — beyond primary (120), within extended (200)
    let text = "a designer who has been appointed under the provisions of \
                 regulation 5 and who is responsible for coordinating the \
                 pre-construction phase of the relevant project in question \
                 must prepare the health and safety file";
    let actors = vec![actor("SC: C: Designer", "designer")];
    let dc = match_governed_v2(text, &actors).unwrap();
    assert_eq!(dc.sub_type, DutySubType::Prescriptive);
    assert!(
        dc.confidence < C70,
        "extended window should reduce confidence, got: {}",
        dc.confidence
    );
}

// ── No actor match ──────────────────────────────────────────────

#[test]
fn empty_actors_no_match() {
    let text = "the employer shall ensure safety";
    let result = match_governed_v2(text, &[]);
    assert!(result.is_none());
}

#[test]
fn no_modal_no_match() {
    let text = "the employer is responsible for safety matters";
    let actors = vec![actor("Org: Employer", "employer")];
    let result = match_governed_v2(text, &actors);
    assert!(result.is_none());
}

// ── "It shall be the duty of" reverse anchor ────────────────────

#[test]
fn hswa_duty_of_employer_general() {
    let text = "it shall be the duty of every employer to ensure, so far as \
                 is reasonably practicable, the health, safety and welfare at \
                 work of all his employees";
    let actors = vec![actor("Org: Employer", "employer")];
    let dc = match_governed_v2(text, &actors).unwrap();
    // SFAIRP or GeneralDuty — both acceptable; key is it matches at all
    assert!(
        dc.sub_type == DutySubType::SfairpDuty || dc.sub_type == DutySubType::GeneralDuty,
        "expected SFAIRP or GeneralDuty, got: {:?}",
        dc.sub_type
    );
    assert!(dc.confidence >= C80);
}

#[test]
fn hswa_duty_of_person_sfairp() {
    let text = "it shall be the duty of any person who designs, manufactures, \
                 imports or supplies any article for use at work to ensure, so \
                 far as is reasonably practicable, that the article is so \
                 designed and constructed that it will be safe";
    let actors = vec![actor("Ind: Person", "person")];
    let dc = match_governed_v2(text, &actors).unwrap();
    assert_eq!(dc.sub_type, DutySubType::SfairpDuty);
}

#[test]
fn hswa_duty_of_self_employed() {
    let text = "it shall be the duty of every self-employed person to conduct \
                 his undertaking in such a way as to ensure, so far as is \
                 reasonably practicable, that he and other persons are not \
                 exposed to risks to their health or safety";
    let actors = vec![actor("Ind: Self-employed Worker", "self-employed")];
    let dc = match_governed_v2(text, &actors).unwrap();
    assert!(dc.confidence >= C80);
}

// ── "A person shall not" ────────────────────────────────────────

#[test]
fn person_shall_not_disclose() {
    let text = "a person shall not disclose any information obtained by him";
    let actors = vec![actor("Ind: Person", "person")];
    let dc = match_governed_v2(text, &actors).unwrap();
    assert_eq!(dc.sub_type, DutySubType::Prohibitive);
}

// ── "A person who ... may" (enabling) ───────────────────────────

#[test]
fn person_who_may_enabling() {
    let text = "a person who has obtained such information may disclose the \
                 information for the purpose of any legal proceedings";
    let actors = vec![actor("Ind: Person", "person")];
    let dc = match_governed_v2(text, &actors).unwrap();
    assert_eq!(dc.sub_type, DutySubType::Enabling);
}


#[test]
fn any_person_who_long_preamble_shall_ensure() {
    // Pressure Systems s.4: "Any person who designs, manufactures,
    // to modal, beyond PRIMARY_WINDOW (120) but within EXTENDED (200).
    let text = "Any person who designs, manufactures, imports or supplies \
                 any pressure system or any article which is intended to be \
                 a component part of any pressure system shall ensure that \
                 paragraphs (2) to (5) are complied with";
    let actors = vec![actor("Ind: Person", "person")];
    let dc = match_governed_v2(text, &actors).unwrap();
    assert_eq!(dc.family, DutyFamily::Governed);
    assert!(dc.confidence > 0);
}

// True-negative: person who + offence provision (not a duty)
#[test]
fn person_offence_provision_no_match() {
    // "shall be guilty" is not an obligation on the person — it's a penalty
    let text = "Where a contravention of these regulations by any person \
                 is due to the act or default of the other person, that \
                 other person shall be guilty of the offence";
    let actors = vec![actor("Ind: Person", "person")];
    // This may or may not match — the key thing is it shouldn't crash.
    // If it matches, it's a low-priority FP to address later.
    let _result = match_governed_v2(text, &actors);
}


#[test]
fn reverse_passive_must_be_prepared_by_operator() {
    // COMAH s.12: "An internal emergency plan must be prepared by the operator"
    let text = "An internal emergency plan must be prepared by the operator";
    let actors = vec![actor("Operator", "operator")];
    let dc = match_governed_v2(text, &actors).unwrap();
    assert_eq!(dc.family, DutyFamily::Governed);
    assert_eq!(dc.sub_type, DutySubType::Prescriptive);
}

#[test]
fn reverse_passive_must_be_reviewed_by_operator() {
    // revised by the operator"
    let text = "a safety report must be reviewed and, where necessary, \
                 revised by the operator";
    let actors = vec![actor("Operator", "operator")];
    let dc = match_governed_v2(text, &actors).unwrap();
    assert_eq!(dc.family, DutyFamily::Governed);
}

// True-negative: "must be provided to the actor" (actor is recipient, not agent)
#[test]
fn passive_must_be_provided_to_no_match() {
    let text = "adequate information must be provided to the contractor \
                 before work begins on site";
    let actors = vec![actor("SC: C: Contractor", "contractor")];
    let result = match_governed_v2(text, &actors);
    assert!(
        result.is_none(),
        "provided TO actor should not match, got: {:?}",
        result
    );
}

// ── Subordinate clause retry (same actor in both clauses) ───────

#[test]
fn duty_holder_repeated_in_subordinate_and_main_clause() {
    // UK_nisr_2016_406:30 — "duty holder" appears in both the subordinate
    // Where-clause and the main clause. The first occurrence is rejected
    // by is_actor_in_subordinate, but the second should still match.
    let text = "where the duty holder has adopted other measures, the duty holder \
                 shall perform the internal emergency response duties so as to \
                 secure a good prospect of personal safety and survival, taking \
                 into account the adoption of those other measures";
    let actors = vec![actor("Ind: Duty Holder", "duty holder")];
    let dc = match_governed_v2(text, &actors).unwrap();
    assert_eq!(dc.family, DutyFamily::Governed);
    assert_eq!(dc.sub_type, DutySubType::Prescriptive);
}

#[test]
fn employer_repeated_where_clause_and_main() {
    // Same pattern: "Where an employer ..., the employer shall ensure..."
    let text = "where an employer has made an assessment, the employer shall \
                 ensure that the risk is eliminated or controlled";
    let actors = vec![actor("Org: Employer", "employer")];
    let dc = match_governed_v2(text, &actors).unwrap();
    assert_eq!(dc.family, DutyFamily::Governed);
}

#[test]
fn actor_keyword_is_matched_literally() {
    // A dot in the keyword stands for itself, not for any character.
    let actors = vec![actor("Org: C.S. Operator", "c.s operator")];
    assert!(match_governed_v2("the c.s operator shall ensure the safety of workers", &actors).is_some());
    assert!(match_governed_v2("the cxs operator shall ensure the safety of workers", &actors).is_none());
}

#[test]
fn person_decision_on_findings() {
    let follow = |c: u32| DutyClassification { family: DutyFamily::Governed, sub_type: DutySubType::GeneralDuty, confidence: c, span: None };
    let no_person = decide_person(3, 12, "no person", " shall smoke", None, Some((13, 18)), None, follow(C80), follow(C70), None).unwrap();
    assert_eq!(no_person.sub_type, DutySubType::Prohibitive);
    assert_eq!(no_person.confidence, C80);
    assert_eq!(no_person.span, Some(MatchSpan { actor_start: 3, modal_start: 13, modal_end: 18 }));
    let must_not = decide_person(0, 11, "person must", "  not smoke", None, None, Some((7, 11)), follow(C80), follow(C70), None).unwrap();
    assert_eq!(must_not.sub_type, DutySubType::Prohibitive);
    assert_eq!(must_not.span, Some(MatchSpan { actor_start: 0, modal_start: 7, modal_end: 11 }));
    assert!(decide_person(0, 11, "person must", " be regarded as", None, None, Some((7, 11)), follow(C80), follow(C70), None).is_none());
    let must_do = decide_person(2, 13, "person shall", " ensure", None, None, Some((7, 12)), follow(C80), follow(C70), None).unwrap();
    assert_eq!(must_do.confidence, C70);
    assert_eq!(must_do.span, Some(MatchSpan { actor_start: 2, modal_start: 9, modal_end: 14 }));
    let duty_of = decide_person(30, 48, "the duty of every person", " to", Some((3, 8)), None, None, follow(C80), follow(C70), None).unwrap();
    assert_eq!(duty_of.confidence, C80);
    assert_eq!(duty_of.span, Some(MatchSpan { actor_start: 30, modal_start: 3, modal_end: 8 }));
    let later = follow(C65);
    assert_eq!(decide_person(0, 12, "every person", " may", None, None, None, follow(C80), follow(C70), Some(later)).map(|d| d.confidence), Some(C65));
}

#[test]
fn person_modal_decision_on_findings() {
    let follow = |c: u32| DutyClassification { family: DutyFamily::Governed, sub_type: DutySubType::GeneralDuty, confidence: c, span: None };
    let p = decide_person_modal(2, 10, Some((1, 10)), Some((0, 3)), false, Some((0, 5)), follow(C65), follow(C50)).unwrap();
    assert_eq!((p.sub_type, p.confidence), (DutySubType::Prohibitive, C80));
    assert_eq!(p.span, Some(MatchSpan { actor_start: 2, modal_start: 11, modal_end: 20 }));
    let en = decide_person_modal(2, 10, None, Some((4, 7)), false, Some((0, 5)), follow(C65), follow(C50)).unwrap();
    assert_eq!((en.sub_type, en.confidence), (DutySubType::Enabling, C50));
    let epistemic = decide_person_modal(2, 10, None, Some((4, 7)), true, Some((150, 155)), follow(C65), follow(C50)).unwrap();
    assert_eq!(epistemic.confidence, C50);
    assert_eq!(epistemic.sub_type, DutySubType::GeneralDuty);
    assert_eq!(epistemic.span, Some(MatchSpan { actor_start: 2, modal_start: 160, modal_end: 165 }));
    let near = decide_person_modal(2, 10, None, Some((130, 133)), false, Some((5, 10)), follow(C65), follow(C50)).unwrap();
    assert_eq!(near.confidence, C65);
    assert!(decide_person_modal(2, 10, None, None, false, Some((201, 206)), follow(C65), follow(C50)).is_none());
    assert!(decide_person_modal(2, 10, None, None, false, None, follow(C65), follow(C50)).is_none());
}
