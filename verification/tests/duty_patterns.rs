use fractalaw_taxa::duty_patterns::{
    decide_government_v1, decide_government_v2, DutyClassification, DutyFamily, DutySubType, MatchSpan, C55, C60,
    C75, C80, C90,
};
use fractalaw_taxa::duty_patterns::{has_enabling, has_government_actor, has_obligation, has_prohibition};

#[test]
fn obligation_detection() {
    assert!(has_obligation("the employer shall ensure"));
    assert!(has_obligation("every person must comply"));
    assert!(!has_obligation("the employer may decide"));
}

#[test]
fn prohibition_detection() {
    assert!(has_prohibition("no person shall carry out"));
    assert!(has_prohibition("the employer must not permit"));
    assert!(!has_prohibition("the employer shall ensure"));
}

#[test]
fn enabling_detection() {
    assert!(has_enabling("the secretary of state may make"));
    assert!(has_enabling("power to authorise"));
    assert!(!has_enabling("the employer shall ensure"));
}

/// Government keywords of the actor dictionary that these texts use.
fn government_keywords() -> Vec<String> {
    [
        "secretary of state",
        "inspector",
        "ofcom",
        "chief officer of police",
        "constable",
        "sheriff",
        "procurator fiscal",
        "department",
        "police",
    ]
    .iter()
    .map(|s| s.to_string())
    .collect()
}

#[test]
fn government_actor_detection() {
    let k = government_keywords();
    assert!(has_government_actor(&k, "the secretary of state may"));
    assert!(has_government_actor(&k, "the inspector shall"));
    assert!(!has_government_actor(&k, "every employer shall"));
}

#[test]
fn government_actor_detection_public_family() {
    let k = government_keywords();
    assert!(has_government_actor(&k, "ofcom must prepare a code of practice"));
    assert!(has_government_actor(&k, "the chief officer of police shall"));
    assert!(has_government_actor(&k, "a constable may seize the dog"));
    assert!(has_government_actor(&k, "the sheriff may make an order"));
    assert!(has_government_actor(&k, "the procurator fiscal must investigate"));
    assert!(has_government_actor(&k, "the department may by order require"));
    assert!(has_government_actor(&k, "police force for the area"));
}

#[test]
fn government_v1_decision_on_findings() {
    let span = Some(MatchSpan { actor_start: 4, modal_start: 20, modal_end: 25 });
    let hit = decide_government_v1(Some(1), span, false, false, false, false).unwrap();
    assert_eq!(hit.family, DutyFamily::Government);
    assert_eq!(hit.sub_type, DutySubType::RegulationMaking);
    assert_eq!(hit.confidence, C90);
    assert_eq!(hit.span, span);
    let hit_enabling = decide_government_v1(Some(1), span, false, false, false, true).unwrap();
    assert_eq!(hit_enabling.sub_type, DutySubType::Enabling);
    assert_eq!(hit_enabling.confidence, C90);
    let mixed_first_may = decide_government_v1(None, span, true, true, true, true).unwrap();
    assert_eq!((mixed_first_may.sub_type, mixed_first_may.confidence), (DutySubType::Enabling, C55));
    let mixed_first_shall = decide_government_v1(None, span, true, true, true, false).unwrap();
    assert_eq!((mixed_first_shall.sub_type, mixed_first_shall.confidence), (DutySubType::Prescriptive, C60));
    let only_may: Option<DutyClassification> = decide_government_v1(None, None, true, false, true, false);
    assert_eq!(only_may.map(|d| d.sub_type), Some(DutySubType::Enabling));
    assert!(decide_government_v1(None, span, false, true, true, true).is_none());
    assert!(decide_government_v1(None, span, true, false, false, false).is_none());
}

#[test]
fn government_v2_decision_on_matches() {
    let guidance_only = vec![false, true, false, false, false, false, false];
    assert!(decide_government_v2(&guidance_only, false, None, false).is_none());
    let g = decide_government_v2(&guidance_only, true, None, false).unwrap();
    assert_eq!((g.family, g.sub_type, g.confidence), (DutyFamily::Government, DutySubType::Guidance, C75));
    let direction_and_guidance = vec![true, true, false, false, false, false, false];
    let d = decide_government_v2(&direction_and_guidance, true, None, true).unwrap();
    assert_eq!((d.sub_type, d.confidence), (DutySubType::Enabling, C80));
    assert!(decide_government_v2(&vec![false; 7], true, None, false).is_none());
}
