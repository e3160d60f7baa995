use fractalaw_taxa::duty_patterns::{DutyFamily, DutySubType};
use fractalaw_taxa::duty_patterns_offence::match_offence_as_duty;

// ── True positives ──────────────────────────────────────────────

#[test]
fn offence_for_person_to_contravene() {
    let text =
        "it is an offence for a person to contravene any byelaws made under section 26 or 29.";
    let dc = match_offence_as_duty(text).unwrap();
    assert_eq!(dc.family, DutyFamily::Governed);
    assert_eq!(dc.sub_type, DutySubType::Prohibitive);
}

#[test]
fn offence_for_person_to_fail() {
    let text = "it is an offence for a person to fail to comply with a condition subject to which a firearm certificate is held by him.";
    let dc = match_offence_as_duty(text).unwrap();
    assert_eq!(dc.family, DutyFamily::Governed);
}

#[test]
fn shall_be_offence_for() {
    let text = "it shall be an offence for any person to contravene or fail to comply with any requirement of regulations 5 to 15.";
    let dc = match_offence_as_duty(text).unwrap();
    assert_eq!(dc.sub_type, DutySubType::Prohibitive);
}

#[test]
fn person_commits_offence_if() {
    let text = "a person commits an offence if the person passes, or permits to be passed, any relevant substance from trade premises into a public sewer.";
    let dc = match_offence_as_duty(text).unwrap();
    assert_eq!(dc.family, DutyFamily::Governed);
    assert_eq!(dc.sub_type, DutySubType::Prohibitive);
}

#[test]
fn commits_offence_if_fails() {
    let text = "a person commits an offence if he fails to give his name and address when required to do so.";
    let dc = match_offence_as_duty(text).unwrap();
    assert_eq!(dc.sub_type, DutySubType::Prohibitive);
}

#[test]
fn guilty_of_offence_if() {
    let text = "any person shall be guilty of an offence if he uses on a road a vehicle which does not comply with these regulations.";
    let dc = match_offence_as_duty(text).unwrap();
    assert_eq!(dc.family, DutyFamily::Governed);
    assert_eq!(dc.sub_type, DutySubType::Prohibitive);
}

#[test]
fn unlawful_for_person_to_keep() {
    let text = "except as permitted by this order, it shall be unlawful for any person to keep a dog of any description unless he holds a dog licence.";
    let dc = match_offence_as_duty(text).unwrap();
    assert_eq!(dc.family, DutyFamily::Governed);
    assert_eq!(dc.sub_type, DutySubType::Prohibitive);
}

#[test]
fn unlawful_for_is_variant() {
    let text = "it is unlawful for any person except with the consent of the building control authority to close or obstruct the means of access.";
    let dc = match_offence_as_duty(text).unwrap();
    assert_eq!(dc.sub_type, DutySubType::Prohibitive);
}

#[test]
fn pawnbroker_offence() {
    let text = "it is an offence for a pawnbroker to take in pawn any firearm or ammunition to which section 1 of this act applies.";
    let dc = match_offence_as_duty(text).unwrap();
    assert_eq!(dc.family, DutyFamily::Governed);
}

#[test]
fn offence_for_holder_to_fail() {
    let text = "it is an offence for the holder to fail to surrender the certificate within twenty-one days from the date of the notice.";
    let dc = match_offence_as_duty(text).unwrap();
    assert_eq!(dc.sub_type, DutySubType::Prohibitive);
}

// ── True negatives ──────────────────────────────────────────────

#[test]
fn penalty_provision_no_match() {
    let text = "a person guilty of an offence under this section is liable on summary conviction to a fine not exceeding level 5 on the standard scale.";
    assert!(
        match_offence_as_duty(text).is_none(),
        "penalty provision should not match"
    );
}

#[test]
fn liable_to_imprisonment_no_match() {
    let text = "a person guilty of an offence is liable on conviction on indictment to imprisonment for a term not exceeding two years.";
    assert!(
        match_offence_as_duty(text).is_none(),
        "imprisonment penalty should not match"
    );
}

#[test]
fn no_offence_language() {
    let text = "the employer shall ensure the health and safety of employees.";
    assert!(match_offence_as_duty(text).is_none());
}

#[test]
fn offence_as_mere_reference() {
    // "an offence" mentioned but not in a duty-creating pattern
    let text = "a constable may arrest without warrant any person who he has reasonable cause to suspect is committing an offence.";
    assert!(match_offence_as_duty(text).is_none());
}

#[test]
fn penalty_before_offence_rejects() {
    // Penalty language dominates — "liable" appears first, then "offence"
    let text = "shall be liable on summary conviction to a fine. it is an offence for a person to fail to comply.";
    // The penalty at the start should not block the genuine duty in the second sentence
    // This is a combined provision — the offence pattern at pos 50+ should still match
    // because is_penalty_dominant checks if penalty is BEFORE the offence position
    let result = match_offence_as_duty(text);
    assert!(
        result.is_none(),
        "penalty-first provision should be excluded"
    );
}
