use fractalaw_taxa::actors::{
    all_actor_labels, compile_dictionary, extract_actors, extract_actors_for_family, extract_governed,
    extract_government, government_keywords, ActorDef, ActorDictionary, ActorMatch,
};

fn def(label: &str, ty: &str, patterns: &[&str], keywords: &[&str], families: &[&str]) -> ActorDef {
    ActorDef {
        label: label.into(),
        actor_type: ty.into(),
        regex_patterns: patterns.iter().map(|s| s.to_string()).collect(),
        triggers: vec![],
        drrp_keywords: keywords.iter().map(|s| s.to_string()).collect(),
        families: families.iter().map(|s| s.to_string()).collect(),
        category: String::new(),
    }
}

fn sample_dictionary() -> ActorDictionary {
    compile_dictionary(&[
        def("Org: Employer", "governed", &["[Ee]mployers?"], &[], &[]),
        def("Ind: Employee", "governed", &["[Ee]mployees?"], &[], &[]),
        def("Gvt: Minister", "government", &["[Ss]ecretary of [Ss]tate"], &["secretary of state"], &[]),
        def("Gvt: Authority: Local", "government", &["[Ll]ocal [Aa]uthority"], &["local authority"], &[]),
        def("Public", "governed", &["[Pp]ublic"], &[], &[]),
        def("Spc: Licensee", "governed", &["[Ll]icensee"], &[], &["OH&S: Offshore"]),
        def("Trigger Only", "governed", &[], &[], &[]),
    ])
}

#[test]
fn dictionary_routes_definitions() {
    let d = sample_dictionary();
    assert_eq!(d.governed.len(), 3);
    assert_eq!(d.government.len(), 2);
    assert_eq!(d.specialist.len(), 1);
    assert_eq!(d.specialist[0].0, "OH&S: Offshore");
    assert_eq!(government_keywords(&d), vec!["secretary of state", "local authority"]);
    assert_eq!(all_actor_labels(&d).len(), 7);
    assert_eq!(d.governed[0].1, r"(?:[\s[:punct:]])[Ee]mployers?(?:[\s[:punct:]])");
}

#[test]
fn extracts_governed_and_government_with_keywords() {
    let d = sample_dictionary();
    let a = extract_actors(&d, "The Secretary of State may direct an employer.");
    assert_eq!(a.government.len(), 1);
    assert_eq!(a.government[0].label, "Gvt: Minister");
    assert_eq!(a.government[0].keyword, "secretary of state");
    assert_eq!(a.governed.len(), 1);
    assert_eq!(a.governed[0].keyword, "employer");
    assert_eq!(a.governed[0].offset, 38);
}

#[test]
fn keyword_at_both_ends_of_text() {
    let d = sample_dictionary();
    assert_eq!(extract_governed(&d, "Employer shall ensure safety.").len(), 1);
    assert_eq!(extract_governed(&d, "duties of the employer").len(), 1);
    assert!(extract_governed(&d, "").is_empty());
    assert!(extract_government(&d, "").is_empty());
}

#[test]
fn labels_sorted_and_deduplicated() {
    let d = sample_dictionary();
    let a = extract_actors(&d, " The employer shall consult the employee and every employer. ");
    assert_eq!(a.governed_labels(), vec!["Ind: Employee", "Org: Employer"]);
    assert_eq!(a.government_labels(), Vec::<String>::new());
}

#[test]
fn blacklisted_phrases_do_not_match() {
    let d = sample_dictionary();
    let a = extract_actors(&d, " This is in the public interest. ");
    assert!(a.governed.iter().all(|m| m.label != "Public"));
    let a = extract_actors(&d, " the public shall be told ");
    assert!(a.governed.iter().any(|m| m.label == "Public"));
}

#[test]
fn specialist_patterns_need_the_family() {
    let d = sample_dictionary();
    let text = " The licensee shall inform the employer. ";
    let with = extract_actors_for_family(&d, text, Some("OH&S: Offshore Safety"));
    assert_eq!(with.governed.iter().map(|m| m.label.as_str()).collect::<Vec<_>>(), vec!["Org: Employer", "Spc: Licensee"]);
    let without = extract_actors_for_family(&d, text, None);
    assert!(without.governed.iter().all(|m| m.label != "Spc: Licensee"));
    let other = extract_actors_for_family(&d, text, Some("PUBLIC"));
    assert!(other.governed.iter().all(|m| m.label != "Spc: Licensee"));
    assert_eq!(without, extract_actors(&d, text));
}

/// A stand-in actor dictionary with the entries these texts need, in the
/// order the compiled dictionary tries them (specific before generic).
fn dictionary() -> ActorDictionary {
    compile_dictionary(&[
        def("Org: Employer", "governed", &["[Ee]mployers?"], &[], &[]),
        def("Ind: Employee", "governed", &["[Ee]mployees?"], &[], &[]),
        def("SC: C: Contractor", "governed", &["[Cc]ontractors?"], &[], &[]),
        def("Public", "governed", &["[Pp]ublic"], &[], &[]),
        def("SC: Registrant", "governed", &["[Rr]egistrants?"], &[], &[]),
        def("SC: Downstream User", "governed", &["[Dd]ownstream users?"], &[], &[]),
        def("SC: Applicant", "governed", &["[Aa]pplicants?"], &[], &[]),
        def("SC: Authorised Representative", "governed", &["[Aa]uthorised representatives?"], &[], &[]),
        def("SC: Notified Body", "governed", &["[Nn]otified bod(?:y|ies)"], &[], &[]),
        def("SC: Distributor", "governed", &["[Dd]istributors?"], &[], &[]),
        def("SC: Manufacturer", "governed", &["[Mm]anufacturers?"], &[], &[]),
        def("Spc: Authorised Person", "governed", &["[Aa]uthorised persons?"], &[], &[]),
        def("Spc: Administrator", "governed", &["[Ss]cheme administrators?"], &[], &[]),
        def("Spc: Compliance Body", "governed", &["[Cc]ompliance bod(?:y|ies)"], &[], &[]),
        def("Spc: Certification Body", "governed", &["[Cc]ertification bod(?:y|ies)"], &[], &[]),
        def("Org: Responsible Undertaking", "governed", &["[Rr]esponsible undertakings?"], &[], &[]),
        def("Ind: Responsible Person", "governed", &["[Rr]esponsible persons?"], &[], &[]),
        def("Ind: Person", "governed", &["[Pp]ersons?"], &[], &[]),
        def("Offshore: Licensee", "governed", &["[Ll]icensees?"], &[], &["OH&S: Offshore"]),
        def("Public: Provider", "governed", &["[Pp]roviders?"], &[], &["PUBLIC"]),
        def("Public: Keeper", "governed", &["[Kk]eepers?"], &[], &["PUBLIC"]),
        def("Public: Dealer", "governed", &["[Dd]ealers?"], &[], &["PUBLIC"]),
        def("Gvt: Minister", "government", &["[Ss]ecretary of [Ss]tate", "[Mm]inisters?"], &["secretary of state", "minister"], &[]),
        def("Gvt: Agency: Health and Safety Executive", "government", &["Health and Safety Executive", "HSE"], &["health and safety executive"], &[]),
        def("Gvt: Authority: Local", "government", &["[Ll]ocal [Aa]uthority"], &["local authority"], &[]),
        def("Gvt: Agency: Maritime and Coastguard Agency", "government", &["Maritime and Coastguard Agency"], &[], &[]),
        def("Gvt: Agency: Oil and Gas Authority", "government", &["Oil and Gas Authority", "NSTA"], &[], &[]),
        def(
            "Gvt: Ministry: Department of Enterprise, Trade and Investment",
            "government",
            &["Department of Enterprise, Trade and Investment"],
            &[],
            &[],
        ),
        def("EU: Member State", "government", &["Member States?"], &["member state"], &[]),
        def("EU: Agency: ECHA", "government", &["European Chemicals Agency", "ECHA"], &[], &[]),
        def("Gvt: Agency: NDA", "government", &["NDA"], &[], &[]),
        def("Gvt: Agency", "government", &["[Aa]gency"], &[], &[]),
    ])
}

/// Helper: check if an actor list contains a label.
fn has_label(actors: &[ActorMatch], label: &str) -> bool {
    actors.iter().any(|a| a.label == label)
}

/// Helper: check if any actor label contains a substring.
fn any_label_contains(actors: &[ActorMatch], substr: &str) -> bool {
    actors.iter().any(|a| a.label.contains(substr))
}

#[test]
fn extract_employer() {
    let actors = extract_actors(&dictionary(), " The employer shall ensure safety. ");
    assert!(has_label(&actors.governed, "Org: Employer"));
}

#[test]
fn extract_employer_captures_keyword() {
    let actors = extract_actors(&dictionary(), " The employer shall ensure safety. ");
    let m = actors
        .governed
        .iter()
        .find(|a| a.label == "Org: Employer")
        .unwrap();
    assert_eq!(m.keyword, "employer");
}

#[test]
fn extract_secretary_of_state() {
    let actors = extract_actors(&dictionary(), " The Secretary of State may make regulations. ");
    assert!(has_label(&actors.government, "Gvt: Minister"));
}

#[test]
fn extract_secretary_of_state_captures_keyword() {
    let actors = extract_actors(&dictionary(), " The Secretary of State may make regulations. ");
    let m = actors
        .government
        .iter()
        .find(|a| a.label == "Gvt: Minister")
        .unwrap();
    assert_eq!(m.keyword, "secretary of state");
}

#[test]
fn extract_hse() {
    let actors = extract_actors(&dictionary(), " The Health and Safety Executive shall. ");
    assert!(any_label_contains(
        &actors.government,
        "Health and Safety Executive"
    ));
}

#[test]
fn extract_multiple_actors() {
    let text = " The employer shall consult the inspector and the employee. ";
    let actors = extract_actors(&dictionary(), text);
    assert!(has_label(&actors.governed, "Org: Employer"));
    assert!(has_label(&actors.governed, "Ind: Employee"));
}

#[test]
fn blacklist_removes_false_positives() {
    // "public interest" should be blacklisted
    let actors = extract_actors(&dictionary(), " This is in the public interest. ");
    assert!(!has_label(&actors.governed, "Public"));
}

#[test]
fn empty_text_returns_empty() {
    let actors = extract_actors(&dictionary(), "");
    assert!(actors.governed.is_empty());
    assert!(actors.government.is_empty());
}

#[test]
fn extract_contractor() {
    let actors = extract_actors(&dictionary(), " The contractor shall comply with requirements. ");
    assert!(any_label_contains(&actors.governed, "Contractor"));
}

#[test]
fn extract_local_authority() {
    let actors = extract_actors(&dictionary(), " The local authority may issue a notice. ");
    assert!(any_label_contains(&actors.government, "Local"));
}

#[test]
fn extract_maritime_and_coastguard_agency() {
    let actors =
        extract_actors(&dictionary(), " send the arrangements to the Maritime and Coastguard Agency. ");
    assert!(has_label(
        &actors.government,
        "Gvt: Agency: Maritime and Coastguard Agency"
    ));
}

#[test]
fn extract_oil_and_gas_authority() {
    let actors = extract_actors(&dictionary(), 
        " before the submission of a field development plan to the Oil and Gas Authority ",
    );
    assert!(has_label(
        &actors.government,
        "Gvt: Agency: Oil and Gas Authority"
    ));
}

#[test]
fn extract_nsta() {
    let actors = extract_actors(&dictionary(), " a plan submitted to the NSTA for approval ");
    assert!(has_label(
        &actors.government,
        "Gvt: Agency: Oil and Gas Authority"
    ));
}

#[test]
fn extract_dept_enterprise_trade_investment() {
    let actors = extract_actors(&dictionary(), 
        " Sealed with the Official Seal of the Department of Enterprise, Trade and Investment ",
    );
    assert!(has_label(
        &actors.government,
        "Gvt: Ministry: Department of Enterprise, Trade and Investment"
    ));
}

// ── Backward-compat label accessors ─────────────────────────────

#[test]
fn governed_labels_returns_sorted_strings() {
    let actors = extract_actors(&dictionary(), " The employer shall consult the employee. ");
    let labels = actors.governed_labels();
    assert!(labels.contains(&"Org: Employer".to_string()));
    assert!(labels.contains(&"Ind: Employee".to_string()));
}

// ── Boundary matching tests ─────────────────────────────────────

#[test]
fn keyword_at_start_of_string() {
    let actors = extract_actors(&dictionary(), "Employer shall ensure safety.");
    assert!(
        has_label(&actors.governed, "Org: Employer"),
        "keyword at start of string should still be extracted, got: {:?}",
        actors.governed
    );
}

#[test]
fn keyword_at_end_of_string() {
    let actors = extract_actors(&dictionary(), " duties of the employer");
    assert!(
        has_label(&actors.governed, "Org: Employer"),
        "keyword at end of string should still be extracted, got: {:?}",
        actors.governed
    );
}

#[test]
fn agency_worker_not_government_agency() {
    let actors = extract_actors(&dictionary(), 
        " Where, in the case of an individual agency worker, the taking \
          of any other action the hirer is required to take. ",
    );
    assert!(
        !has_label(&actors.government, "Gvt: Agency"),
        "agency worker should not be classified as Gvt: Agency, got: {:?}",
        actors.government
    );
}

#[test]
fn temporary_work_agency_not_government_agency() {
    let actors = extract_actors(&dictionary(), 
        " the hirer shall inform the temporary work agency, who shall \
          then end the supply of the agency worker. ",
    );
    assert!(
        !has_label(&actors.government, "Gvt: Agency"),
        "temporary work agency should not be classified as Gvt: Agency, got: {:?}",
        actors.government
    );
}

// ── Family-gated specialist actors ───────────────────────────────

#[test]
fn licensee_extracted_for_offshore_family() {
    let text = "The licensee shall ensure that any operator is capable.";
    let actors = extract_actors_for_family(&dictionary(), text, Some("OH&S: Offshore Safety"));
    assert!(
        has_label(&actors.governed, "Offshore: Licensee"),
        "licensee should be extracted for offshore family, got: {:?}",
        actors.governed
    );
}

#[test]
fn licensee_not_extracted_without_family() {
    let text = "The licensee shall ensure that any operator is capable.";
    let actors = extract_actors(&dictionary(), text);
    assert!(
        !has_label(&actors.governed, "Offshore: Licensee"),
        "licensee should not be extracted without family, got: {:?}",
        actors.governed
    );
}

#[test]
fn licensee_not_extracted_for_other_family() {
    let text = "The licensee shall ensure that any operator is capable.";
    let actors = extract_actors_for_family(&dictionary(), text, Some("AGRICULTURE"));
    assert!(
        !has_label(&actors.governed, "Offshore: Licensee"),
        "licensee should not be extracted for AGRICULTURE, got: {:?}",
        actors.governed
    );
}

#[test]
fn offshore_family_still_extracts_core_actors() {
    let text = "The employer shall ensure safety. The licensee must comply.";
    let actors = extract_actors_for_family(&dictionary(), text, Some("OH&S: Offshore Safety"));
    assert!(
        has_label(&actors.governed, "Org: Employer"),
        "core actors should still be extracted, got: {:?}",
        actors.governed
    );
    assert!(
        has_label(&actors.governed, "Offshore: Licensee"),
        "specialist actors should also be extracted, got: {:?}",
        actors.governed
    );
}

#[test]
fn family_none_same_as_extract_actors() {
    let text = "The employer shall ensure safety.";
    let with_none = extract_actors_for_family(&dictionary(), text, None);
    let without = extract_actors(&dictionary(), text);
    assert_eq!(with_none.governed_labels(), without.governed_labels());
    assert_eq!(with_none.government_labels(), without.government_labels());
}

// ── PUBLIC family-gated specialist actors ────────────────────────

#[test]
fn provider_extracted_for_public_family() {
    let text =
        "A provider of a Part 3 service must carry out the first children's access assessment.";
    let actors = extract_actors_for_family(&dictionary(), text, Some("PUBLIC"));
    assert!(
        has_label(&actors.governed, "Public: Provider"),
        "provider should be extracted for PUBLIC family, got: {:?}",
        actors.governed
    );
}

#[test]
fn provider_not_extracted_without_family() {
    let text = "A provider of a Part 3 service must carry out the assessment.";
    let actors = extract_actors(&dictionary(), text);
    assert!(
        !has_label(&actors.governed, "Public: Provider"),
        "provider should not be extracted without family, got: {:?}",
        actors.governed
    );
}

#[test]
fn keeper_extracted_for_public_family() {
    let text = "The keeper of a dog shall ensure it is under control.";
    let actors = extract_actors_for_family(&dictionary(), text, Some("PUBLIC"));
    assert!(
        has_label(&actors.governed, "Public: Keeper"),
        "keeper should be extracted for PUBLIC family, got: {:?}",
        actors.governed
    );
}

#[test]
fn dealer_extracted_for_public_family() {
    let text = "A registered firearms dealer shall comply with this requirement.";
    let actors = extract_actors_for_family(&dictionary(), text, Some("PUBLIC"));
    assert!(
        has_label(&actors.governed, "Public: Dealer"),
        "dealer should be extracted for PUBLIC family, got: {:?}",
        actors.governed
    );
}

// ── EU actors ─────────────────────────────────────────────────

#[test]
fn extract_member_states() {
    let actors = extract_actors(&dictionary(), " Member States shall ensure compliance. ");
    assert!(has_label(&actors.government, "EU: Member State"));
}

#[test]
fn extract_member_state_singular() {
    let actors = extract_actors(&dictionary(), " Each Member State shall designate an authority. ");
    assert!(has_label(&actors.government, "EU: Member State"));
}

#[test]
fn extract_echa() {
    let actors =
        extract_actors(&dictionary(), " The applicant shall submit to the European Chemicals Agency. ");
    assert!(has_label(&actors.government, "EU: Agency: ECHA"));
}

#[test]
fn extract_echa_abbreviation() {
    let actors = extract_actors(&dictionary(), " ECHA shall publish the decision. ");
    assert!(has_label(&actors.government, "EU: Agency: ECHA"));
}

#[test]
fn extract_registrant() {
    let actors = extract_actors(&dictionary(), " The registrant shall submit a registration dossier. ");
    assert!(has_label(&actors.governed, "SC: Registrant"));
}

#[test]
fn extract_downstream_user() {
    let actors = extract_actors(&dictionary(), " A downstream user shall identify applicable conditions. ");
    assert!(has_label(&actors.governed, "SC: Downstream User"));
}

#[test]
fn extract_applicant() {
    let actors = extract_actors(&dictionary(), " The applicant shall provide sufficient information. ");
    assert!(has_label(&actors.governed, "SC: Applicant"));
}

#[test]
fn extract_authorised_representative() {
    let actors = extract_actors(&dictionary(), " An authorised representative shall fulfil the obligations. ");
    assert!(has_label(&actors.governed, "SC: Authorised Representative"));
}

#[test]
fn extract_notified_body() {
    let actors = extract_actors(&dictionary(), " The notified body shall assess conformity. ");
    assert!(has_label(&actors.governed, "SC: Notified Body"));
}

#[test]
fn extract_distributor() {
    let actors = extract_actors(&dictionary(), " A distributor shall verify the labelling. ");
    assert!(has_label(&actors.governed, "SC: Distributor"));
}

#[test]
fn public_specialists_not_extracted_for_ohs() {
    let text = "The provider shall ensure the keeper is informed.";
    let actors = extract_actors_for_family(&dictionary(), text, Some("OH&S: Occupational / Personal Safety"));
    assert!(
        !has_label(&actors.governed, "Public: Provider"),
        "provider should not be extracted for OH&S, got: {:?}",
        actors.governed
    );
    assert!(
        !has_label(&actors.governed, "Public: Keeper"),
        "keeper should not be extracted for OH&S, got: {:?}",
        actors.governed
    );
}

#[test]
fn extract_nda() {
    let actors = extract_actors(&dictionary(), " The NDA must prepare a plan. ");
    assert!(has_label(&actors.government, "Gvt: Agency: NDA"));
}

#[test]
fn extract_authorised_person() {
    let actors = extract_actors(&dictionary(), " An authorised person must consult. ");
    assert!(has_label(&actors.governed, "Spc: Authorised Person"));
}

#[test]
fn extract_scheme_administrator() {
    let actors = extract_actors(&dictionary(), " The scheme administrator must publish. ");
    assert!(has_label(&actors.governed, "Spc: Administrator"));
}

#[test]
fn extract_compliance_body() {
    let actors = extract_actors(&dictionary(), " A compliance body must verify. ");
    assert!(has_label(&actors.governed, "Spc: Compliance Body"));
}

#[test]
fn extract_certification_body() {
    let actors = extract_actors(&dictionary(), " A certification body must provide details. ");
    assert!(has_label(&actors.governed, "Spc: Certification Body"));
}

#[test]
fn extract_responsible_undertaking() {
    let actors = extract_actors(&dictionary(), " The responsible undertaking must comply. ");
    assert!(has_label(&actors.governed, "Org: Responsible Undertaking"));
}

#[test]
fn extract_manufacturers_plural() {
    let actors = extract_actors(&dictionary(), " Manufacturers must ensure compliance. ");
    assert!(has_label(&actors.governed, "SC: Manufacturer"));
}

#[test]
fn authorised_person_before_generic_person() {
    // Spc: Authorised Person should match before generic Ind: Person
    let actors = extract_actors(&dictionary(), " The authorised person must inspect the premises. ");
    assert!(
        has_label(&actors.governed, "Spc: Authorised Person"),
        "should extract Spc: Authorised Person, got: {:?}",
        actors.governed.iter().map(|a| &a.label).collect::<Vec<_>>()
    );
}

#[test]
fn family_extraction_keeps_every_core_label() {
    let d = sample_dictionary();
    for text in [
        " The licensee shall inform the employer. ",
        " The employer and the licensee shall cooperate with the public. ",
        " Nothing here. ",
    ] {
        let core = extract_actors(&d, text);
        for family in [Some("OH&S: Offshore Safety"), Some("PUBLIC"), Some("OH&S"), None] {
            let with = extract_actors_for_family(&d, text, family);
            for m in &core.governed {
                assert!(with.governed.iter().any(|w| w.label == m.label), "{} lost for {family:?}", m.label);
            }
            assert_eq!(with.government, core.government);
        }
    }
}
