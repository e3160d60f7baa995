use fractalaw_taxa::fitness::{FitnessRule, PDimension, RulePolarity, extract};

// Helper: check that a rule has a tag with the given dimension and term.
fn has_tag(rule: &FitnessRule, dim: PDimension, term: &str) -> bool {
    rule.tags
        .iter()
        .any(|t| t.dimension == dim && t.term == term)
}

// ── Polarity detection ──────────────────────────────────────────

#[test]
fn positive_applies_to() {
    let text =
        "These Regulations shall apply to every employer and every self-employed person.";
    let rules = extract(text, None);
    assert_eq!(rules.len(), 1);
    assert_eq!(rules[0].polarity, RulePolarity::AppliesTo);
    assert!(has_tag(&rules[0], PDimension::Person, "employer"));
    assert!(has_tag(
        &rules[0],
        PDimension::Person,
        "self-employed person"
    ));
}

#[test]
fn negative_disapplies() {
    let text = "These Regulations shall not apply to or in relation to the master or crew of a sea-going ship.";
    let rules = extract(text, None);
    assert_eq!(rules.len(), 1);
    assert_eq!(rules[0].polarity, RulePolarity::DisappliesTo);
    assert!(has_tag(&rules[0], PDimension::Person, "master of ship"));
    assert!(has_tag(&rules[0], PDimension::Person, "crew"));
}

#[test]
fn does_not_apply() {
    let text =
        "This regulation does not apply to construction work carried out by the armed forces.";
    let rules = extract(text, None);
    assert_eq!(rules.len(), 1);
    assert_eq!(rules[0].polarity, RulePolarity::DisappliesTo);
    assert!(has_tag(&rules[0], PDimension::Process, "construction work"));
}

#[test]
fn extends_to() {
    let text = "These Regulations extend to Northern Ireland.";
    let rules = extract(text, None);
    assert_eq!(rules.len(), 1);
    assert_eq!(rules[0].polarity, RulePolarity::ExtendsTo);
    assert!(has_tag(&rules[0], PDimension::Place, "Northern Ireland"));
}

// ── Geographic patterns ─────────────────────────────────────────

#[test]
fn geographic_applies_to_england() {
    let text = "These Regulations apply to England only.";
    let rules = extract(text, None);
    assert_eq!(rules.len(), 1);
    assert_eq!(rules[0].polarity, RulePolarity::AppliesTo);
    assert!(has_tag(&rules[0], PDimension::Place, "England"));
}

#[test]
fn geographic_great_britain() {
    let text = "These Regulations shall apply in Great Britain.";
    let rules = extract(text, None);
    assert_eq!(rules.len(), 1);
    assert!(has_tag(&rules[0], PDimension::Place, "Great Britain"));
}

#[test]
fn extends_outside_gb() {
    let text = "These Regulations extend to outside Great Britain as sections 1 to 59 and 80 to 82 of the 1974 Act apply.";
    let rules = extract(text, None);
    assert_eq!(rules.len(), 1);
    assert_eq!(rules[0].polarity, RulePolarity::ExtendsTo);
    assert!(has_tag(
        &rules[0],
        PDimension::Place,
        "outside Great Britain"
    ));
}

// ── Person patterns ─────────────────────────────────────────────

#[test]
fn self_employed_extension() {
    let text = "These Regulations shall apply to a self-employed person as they apply to an employer and an employee.";
    let rules = extract(text, None);
    assert_eq!(rules.len(), 1);
    assert_eq!(rules[0].polarity, RulePolarity::AppliesTo);
    assert!(has_tag(
        &rules[0],
        PDimension::Person,
        "self-employed person"
    ));
    assert!(has_tag(&rules[0], PDimension::Person, "employer"));
    assert!(has_tag(&rules[0], PDimension::Person, "employee"));
}

#[test]
fn like_duty() {
    let text = "The employer shall, so far as is reasonably practicable, be under a like duty in respect of any other person at work.";
    let rules = extract(text, None);
    assert_eq!(rules.len(), 1);
    assert_eq!(rules[0].polarity, RulePolarity::AppliesTo);
    assert!(has_tag(&rules[0], PDimension::Person, "employer"));
    assert!(has_tag(&rules[0], PDimension::Person, "person at work"));
}

#[test]
fn crown_application() {
    let text = "The provisions of these Regulations shall apply to persons in the public service of the Crown as they apply to other persons.";
    let rules = extract(text, None);
    assert_eq!(rules.len(), 1);
    assert!(has_tag(&rules[0], PDimension::Person, "Crown service"));
}

// ── Process/activity patterns ───────────────────────────────────

#[test]
fn activity_scoped() {
    let text = "These Regulations apply to construction work.";
    let rules = extract(text, None);
    assert_eq!(rules.len(), 1);
    assert!(has_tag(&rules[0], PDimension::Process, "construction work"));
}

#[test]
fn diving_operations() {
    let text = "These Regulations shall apply to and in relation to any diving project.";
    let rules = extract(text, None);
    assert_eq!(rules.len(), 1);
    assert!(has_tag(&rules[0], PDimension::Process, "diving operations"));
}

// ── Place patterns ──────────────────────────────────────────────

#[test]
fn quarry_scope() {
    let text = "These Regulations shall apply to all quarries where persons work.";
    let rules = extract(text, None);
    assert_eq!(rules.len(), 1);
    assert!(has_tag(&rules[0], PDimension::Place, "quarry"));
    assert!(has_tag(&rules[0], PDimension::Person, "person at work"));
}

#[test]
fn mine_exclusion() {
    let text = "These Regulations shall not apply to any place below ground in a mine.";
    let rules = extract(text, None);
    assert_eq!(rules.len(), 1);
    assert_eq!(rules[0].polarity, RulePolarity::DisappliesTo);
    assert!(has_tag(&rules[0], PDimension::Place, "mine"));
}

// ── Compound provisions ─────────────────────────────────────────

#[test]
fn compound_disapplies_then_applies() {
    let text = "These Regulations shall not apply in relation to such premises, but they shall apply in relation to premises used for domestic purposes.";
    let rules = extract(text, None);
    assert_eq!(rules.len(), 2);
    assert_eq!(rules[0].polarity, RulePolarity::DisappliesTo);
    assert_eq!(rules[1].polarity, RulePolarity::AppliesTo);
    assert!(has_tag(&rules[0], PDimension::Place, "premises"));
    assert!(has_tag(&rules[1], PDimension::Place, "premises"));
}

// ── Plant patterns ──────────────────────────────────────────────

#[test]
fn gas_fittings() {
    let text = "These Regulations shall apply to gas fittings used in connection with gas which has been conveyed through a distribution main.";
    let rules = extract(text, None);
    assert_eq!(rules.len(), 1);
    assert!(has_tag(&rules[0], PDimension::Plant, "gas fittings"));
}

#[test]
fn dangerous_substances() {
    let text =
        "These Regulations apply where a dangerous substance is present at the workplace.";
    let rules = extract(text, None);
    assert_eq!(rules.len(), 1);
    assert!(has_tag(
        &rules[0],
        PDimension::Plant,
        "dangerous substances"
    ));
    assert!(has_tag(&rules[0], PDimension::Place, "workplace"));
}

// ── Property patterns ───────────────────────────────────────────

#[test]
fn ship_board_activities() {
    let text = "These Regulations shall not apply to normal ship-board activities of a ship's crew under the direction of the master.";
    let rules = extract(text, None);
    assert_eq!(rules.len(), 1);
    assert_eq!(rules[0].polarity, RulePolarity::DisappliesTo);
    assert!(has_tag(
        &rules[0],
        PDimension::Property,
        "normal shipboard activities"
    ));
    assert!(has_tag(&rules[0], PDimension::Person, "crew"));
}

// ── Edge cases ──────────────────────────────────────────────────

#[test]
fn empty_returns_empty() {
    assert!(extract("", None).is_empty());
    assert!(extract("   ", None).is_empty());
}

#[test]
fn no_polarity_returns_empty() {
    let text = "Citation, commencement and interpretation.";
    assert!(extract(text, None).is_empty());
}

#[test]
fn ceases_to_have_effect() {
    let text = "This regulation ceases to have effect on 1st April 2025.";
    let rules = extract(text, None);
    assert_eq!(rules.len(), 1);
    assert_eq!(rules[0].polarity, RulePolarity::DisappliesTo);
}

#[test]
fn bind_the_crown() {
    let text = "This Act shall bind the Crown.";
    let rules = extract(text, None);
    assert_eq!(rules.len(), 1);
    assert_eq!(rules[0].polarity, RulePolarity::AppliesTo);
}

#[test]
fn multiple_places() {
    let text = "These Regulations apply in relation to England and Wales.";
    let rules = extract(text, None);
    assert_eq!(rules.len(), 1);
    assert!(has_tag(&rules[0], PDimension::Place, "England"));
    assert!(has_tag(&rules[0], PDimension::Place, "Wales"));
}

// ── OH&S specialist dictionary tests ────────────────────────────

#[test]
fn ohs_lifting_operations_with_family() {
    let text = "These Regulations shall apply to lifting operations.";
    // Without family: no Process tag (not in core dict)
    let rules = extract(text, None);
    assert_eq!(rules.len(), 1);
    assert!(!has_tag(
        &rules[0],
        PDimension::Process,
        "lifting operations"
    ));
    // With OH&S family: Process tag found
    let rules = extract(text, Some("OH&S: Occupational / Personal Safety"));
    assert_eq!(rules.len(), 1);
    assert!(has_tag(
        &rules[0],
        PDimension::Process,
        "lifting operations"
    ));
}

#[test]
fn ohs_pressure_equipment_with_family() {
    let text = "These Regulations apply to pressure equipment used at work.";
    let rules = extract(text, None);
    assert!(!has_tag(&rules[0], PDimension::Plant, "pressure equipment"));
    let rules = extract(text, Some("OH&S: Mines & Quarries"));
    assert!(has_tag(&rules[0], PDimension::Plant, "pressure equipment"));
}

#[test]
fn ohs_young_person_with_family() {
    let text =
        "These Regulations shall not apply to a young person employed in a family undertaking.";
    let rules = extract(text, None);
    assert!(!has_tag(&rules[0], PDimension::Person, "young person"));
    let rules = extract(text, Some("OH&S: Occupational / Personal Safety"));
    assert!(has_tag(&rules[0], PDimension::Person, "young person"));
}

#[test]
fn ohs_confined_spaces_with_family() {
    let text = "These Regulations apply where work in confined spaces is carried out.";
    let rules = extract(text, None);
    assert!(!has_tag(&rules[0], PDimension::Process, "confined spaces"));
    let rules = extract(text, Some("OH&S: Occupational / Personal Safety"));
    assert!(has_tag(&rules[0], PDimension::Process, "confined spaces"));
}

#[test]
fn non_ohs_family_no_specialist() {
    let text = "These Regulations apply to lifting operations.";
    // Non-OH&S family should not get specialist tags
    let rules = extract(text, Some("AGRICULTURE"));
    assert!(!has_tag(
        &rules[0],
        PDimension::Process,
        "lifting operations"
    ));
}

// ── FIRE specialist dictionary tests ─────────────────────────────

#[test]
fn fire_fireworks_with_family() {
    let text = "This regulation does not apply to a person who is transporting fireworks on behalf of another person.";
    // Without family: no Plant tag for fireworks (not in core dict)
    let rules = extract(text, None);
    assert_eq!(rules.len(), 1);
    assert!(!has_tag(&rules[0], PDimension::Plant, "fireworks"));
    // With FIRE family: Plant tag found
    let rules = extract(text, Some("FIRE: Dangerous and Explosive Substances"));
    assert!(has_tag(&rules[0], PDimension::Plant, "fireworks"));
    assert!(has_tag(
        &rules[0],
        PDimension::Process,
        "transporting dangerous goods"
    ));
}

#[test]
fn fire_small_arms_ammunition_with_family() {
    let text = "This regulation shall not apply to the transfer of any component of small arms ammunition by a person for his own sporting use.";
    let rules = extract(text, Some("FIRE: Dangerous and Explosive Substances"));
    assert!(has_tag(
        &rules[0],
        PDimension::Plant,
        "small arms ammunition"
    ));
    assert!(has_tag(
        &rules[0],
        PDimension::Process,
        "transfer of explosives"
    ));
}

#[test]
fn fire_pyrotechnic_articles_with_family() {
    let text = "This regulation does not apply to pyrotechnic articles for vehicles.";
    let rules = extract(text, None);
    assert!(!has_tag(
        &rules[0],
        PDimension::Plant,
        "pyrotechnic articles"
    ));
    let rules = extract(text, Some("FIRE"));
    assert!(has_tag(
        &rules[0],
        PDimension::Plant,
        "pyrotechnic articles"
    ));
}

#[test]
fn fire_harbour_area_with_family() {
    let text = "This regulation applies where the harbour area in respect of which the licence was issued becomes a nuclear harbour area.";
    let rules = extract(text, Some("FIRE: Dangerous and Explosive Substances"));
    assert!(has_tag(&rules[0], PDimension::Place, "harbour area"));
}

#[test]
fn fire_authority_with_family() {
    let text = "These Regulations shall apply to every fire and rescue authority in England.";
    let rules = extract(text, Some("FIRE"));
    assert!(has_tag(&rules[0], PDimension::Person, "fire authority"));
    assert!(has_tag(&rules[0], PDimension::Place, "England"));
}

#[test]
fn fire_specialist_not_on_ohs() {
    let text = "This regulation does not apply to fireworks.";
    let rules = extract(text, Some("OH&S: Occupational / Personal Safety"));
    assert!(!has_tag(&rules[0], PDimension::Plant, "fireworks"));
}

#[test]
fn ohs_machinery_with_family() {
    let text = "These Regulations shall apply to machinery used at work.";
    let rules = extract(text, Some("OH&S: Occupational / Personal Safety"));
    assert!(has_tag(&rules[0], PDimension::Plant, "machinery"));
}

// ── Cross-reference detection ────────────────────────────────────

#[test]
fn cross_ref_regulation_detected() {
    let text = "Regulation 11(11) shall not apply in relation to any visiting force.";
    let rules = extract(text, None);
    assert_eq!(rules.len(), 1);
    assert_eq!(rules[0].cross_refs, vec!["Regulation 11(11)"]);
}

#[test]
fn cross_ref_paragraph_detected() {
    let text = "paragraph (2) shall not apply to fumigations using the fumigant specified in Column 1.";
    let rules = extract(text, None);
    assert_eq!(rules.len(), 1);
    assert_eq!(rules[0].cross_refs, vec!["paragraph (2)"]);
}

#[test]
fn cross_ref_schedule_detected() {
    let text = "Schedule 5 shall have effect.";
    let rules = extract(text, None);
    assert_eq!(rules.len(), 1);
    assert_eq!(rules[0].cross_refs, vec!["Schedule 5"]);
}

#[test]
fn cross_ref_multiple_deduplicated() {
    let text = "Regulation 16A and regulation 17A do not apply in circumstances where regulation 16 and regulation 17 apply to the same premises.";
    let rules = extract(text, None);
    assert_eq!(rules.len(), 1);
    assert_eq!(rules[0].cross_refs.len(), 4);
    assert!(rules[0].cross_refs.contains(&"Regulation 16A".to_string()));
    assert!(rules[0].cross_refs.contains(&"regulation 17A".to_string()));
    assert!(rules[0].cross_refs.contains(&"regulation 16".to_string()));
    assert!(rules[0].cross_refs.contains(&"regulation 17".to_string()));
}

#[test]
fn cross_ref_plural_regulations() {
    let text = "This regulation shall not apply to regulations 21 and 28(2), which expressly say on whom the duties are imposed.";
    let rules = extract(text, None);
    assert_eq!(rules.len(), 1);
    // "regulations 21" matches; "28(2)" has no prefix so is not detected
    assert!(rules[0].cross_refs.contains(&"regulations 21".to_string()));
}

#[test]
fn no_cross_ref_when_none_present() {
    let text = "These Regulations shall apply to every employer and self-employed person.";
    let rules = extract(text, None);
    assert_eq!(rules.len(), 1);
    assert!(rules[0].cross_refs.is_empty());
}
