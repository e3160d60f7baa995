use fractalaw_taxa::actors::ActorMatch;
use fractalaw_taxa::duty_patterns::DutyFamily;
use fractalaw_taxa::decision::decide;
use fractalaw_taxa::duty_type::{classify, sort_duty_types, DutyType};
use fractalaw_taxa::signals::extract_all;

/// Government actor keywords of the actor dictionary that these texts use.
fn gov_keywords() -> Vec<String> {
    ["secretary of state", "minister", "commission", "authority", "inspector", "executive"]
        .iter()
        .map(|s| s.to_string())
        .collect()
}
fn actor(label: &str, keyword: &str) -> ActorMatch {
    ActorMatch {
        label: label.into(),
        keyword: keyword.into(),
        offset: 0,
    }
}

#[test]
fn classify_employer_obligation() {
    let text = "every employer shall ensure the health, safety and welfare of employees";
    let actors = vec![actor("Org: Employer", "employer")];
    let result = classify(&gov_keywords(), text, &actors, &[]);
    assert_eq!(result.duty_types, vec![DutyType::Obligation]);
}

#[test]
fn classify_government_obligation() {
    let text = "the secretary of state shall have power to make regulations";
    let result = classify(&gov_keywords(), text, &[], &[]);
    assert_eq!(result.duty_types, vec![DutyType::Obligation]);
}

#[test]
fn classify_government_liberty() {
    let text = "the commission may authorise any person to carry out";
    let result = classify(&gov_keywords(), text, &[], &[]);
    assert_eq!(result.duty_types, vec![DutyType::Liberty]);
}

#[test]
fn classify_governed_liberty() {
    let text = "the employee may request a review of the assessment";
    let actors = vec![actor("Ind: Employee", "employee")];
    let result = classify(&gov_keywords(), text, &actors, &[]);
    assert_eq!(result.duty_types, vec![DutyType::Liberty]);
}

#[test]
fn classify_unknown_text() {
    let text = "the quick brown fox jumped over the lazy dog";
    let result = classify(&gov_keywords(), text, &[], &[]);
    assert!(result.duty_types.is_empty());
    assert!(result.classification.is_none());
}

#[test]
fn classify_prohibition_is_obligation() {
    let text = "no person shall carry out work at height unless properly trained";
    let actors = vec![actor("Ind: Person", "person")];
    let result = classify(&gov_keywords(), text, &actors, &[]);
    assert_eq!(result.duty_types, vec![DutyType::Obligation]);
}

#[test]
fn classify_gov_direction_is_liberty() {
    let text = "the secretary of state may give directions to the executive";
    let result = classify(&gov_keywords(), text, &[], &[]);
    assert!(!result.duty_types.is_empty());
}

#[test]
fn classify_rejects_actor_as_object() {
    let text = "information must be provided to the contractor before work begins";
    let actors = vec![actor("SC: C: Contractor", "contractor")];
    let result = classify(&gov_keywords(), text, &actors, &[]);
    assert!(
        result.duty_types.is_empty(),
        "actor-as-object should not produce DRRP, got: {:?}",
        result.duty_types
    );
}

#[test]
fn sort_deduplicates() {
    let mut types = vec![
        DutyType::Liberty,
        DutyType::Obligation,
        DutyType::Obligation,
        DutyType::Rule,
    ];
    sort_duty_types(&mut types);
    assert_eq!(
        types,
        vec![DutyType::Obligation, DutyType::Liberty, DutyType::Rule]
    );
}

#[test]
fn duty_type_as_str() {
    assert_eq!(DutyType::Obligation.as_str(), "Obligation");
    assert_eq!(DutyType::Liberty.as_str(), "Liberty");
    assert_eq!(DutyType::Rule.as_str(), "Rule");
}

// ── Offence-as-duty tier ─────────────────────────────────────────

#[test]
fn classify_offence_for_person_as_obligation() {
    let text = "it is an offence for a person to fail to comply with a condition subject to which a firearm certificate is held by him.";
    let result = classify(&gov_keywords(), text, &[], &[]);
    assert_eq!(result.duty_types, vec![DutyType::Obligation]);
}

#[test]
fn classify_commits_offence_as_obligation() {
    let text = "a person commits an offence if the person passes any relevant substance from trade premises into a public sewer.";
    let result = classify(&gov_keywords(), text, &[], &[]);
    assert_eq!(result.duty_types, vec![DutyType::Obligation]);
}

#[test]
fn classify_unlawful_for_as_obligation() {
    let text =
        "it shall be unlawful for any person to keep a dog unless he holds a dog licence.";
    let result = classify(&gov_keywords(), text, &[], &[]);
    assert_eq!(result.duty_types, vec![DutyType::Obligation]);
}

#[test]
fn classify_penalty_not_duty() {
    let text = "a person guilty of an offence under this section is liable on summary conviction to a fine not exceeding level 5.";
    let result = classify(&gov_keywords(), text, &[], &[]);
    assert!(
        result.duty_types.is_empty(),
        "penalty provision should not classify, got: {:?}",
        result.duty_types
    );
}

#[test]
fn governed_v2_takes_precedence_over_offence() {
    let text = "every employer shall ensure that no person commits an offence if the workplace is unsafe.";
    let actors = vec![actor("Org: Employer", "employer")];
    let result = classify(&gov_keywords(), text, &actors, &[]);
    assert_eq!(result.duty_types, vec![DutyType::Obligation]);
    assert_eq!(result.classification.unwrap().family, DutyFamily::Governed);
}

#[test]
fn classify_thing_subject_as_obligation() {
    // — implied duty-holder resolved by classifier/LLM tiers
    let text = "every traffic routes must be suitable for the persons using them";
    let result = classify(&gov_keywords(), text, &[], &[]);
    assert_eq!(result.duty_types, vec![DutyType::Obligation]);
}

#[test]
fn person_takes_precedence_over_thing() {
    // "employer" is a governed actor → Governed tier wins over Rule
    let text = "the employer shall ensure that equipment is suitable";
    let actors = vec![actor("Org: Employer", "employer")];
    let result = classify(&gov_keywords(), text, &actors, &[]);
    assert_eq!(result.duty_types, vec![DutyType::Obligation]);
}

#[test]
fn enforcing_authority_may_is_liberty() {
    // "enforcing authority may serve" = enabling/Liberty, not Obligation
    let text = "the enforcing authority may serve on the responsible person a notice \
                 if the authority is of the opinion that the premises constitute a serious risk";
    let actors = vec![
        actor("Gvt: Authority: Enforcement", "enforcing authority"),
        actor("Ind: Responsible Person", "responsible person"),
    ];
    let result = classify(&gov_keywords(), text, &actors, &[]);
    assert_eq!(
        result.duty_types,
        vec![DutyType::Liberty],
        "got {:?} from {:?}",
        result.duty_types,
        result.classification,
    );
}

#[test]
fn decision_over_all_signals_matches_cascade() {
    let cases: Vec<(&str, Vec<ActorMatch>)> = vec![
        ("every employer shall ensure the health, safety and welfare of employees", vec![actor("Org: Employer", "employer")]),
        ("the secretary of state shall have power to make regulations", vec![]),
        ("the commission may authorise any person to carry out", vec![]),
        ("a person who fails to comply with this regulation shall be guilty of an offence", vec![]),
        ("every traffic route must be suitable for the persons using them", vec![]),
        ("this act may be cited as the health and safety at work etc. act 1974", vec![]),
        ("", vec![]),
    ];
    for (text, actors) in cases {
        let cascade = classify(&gov_keywords(), text, &actors, &[]);
        let signals = extract_all(&gov_keywords(), text, &actors, &[], &[], false, false, false);
        let (decided, _) = decide(&signals);
        assert_eq!(decided.classification, cascade.classification, "for: {text}");
        assert_eq!(decided.duty_types, cascade.duty_types, "for: {text}");
    }
}
