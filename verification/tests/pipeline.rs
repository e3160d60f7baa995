use fractalaw_taxa::actors::{compile_dictionary, ActorDef, ActorDictionary};
use fractalaw_taxa::duty_type::DutyType;
use fractalaw_taxa::decision::DecisionReason;
use fractalaw_taxa::confidence::score;
use fractalaw_taxa::pipeline::{analyse_miss, parse, parse_v2, parse_v2_with_trail, TaxaRecord};
use fractalaw_taxa::purpose::{AMENDMENT, APPLICATION_SCOPE, INTERPRETATION, PROCESS_RULE, REPEAL_REVOCATION};

fn def(label: &str, ty: &str, patterns: &[&str], keywords: &[&str], families: &[&str]) -> ActorDef {
    ActorDef {
        label: label.into(),
        actor_type: ty.into(),
        regex_patterns: patterns.iter().map(|s| s.to_string()).collect(),
        triggers: vec![],
        drrp_keywords: keywords.iter().map(|s| s.to_string()).collect(),
        families: families.iter().map(|s| s.to_string()).collect(),
        category: String::new(),
    }
}

/// A stand-in actor dictionary with the entries these provisions need, in
/// the order the compiled dictionary tries them (specific before generic).
fn dictionary() -> ActorDictionary {
    compile_dictionary(&[
        def("Org: Employer", "governed", &["[Ee]mployers?"], &[], &[]),
        def("Ind: Employee", "governed", &["[Ee]mployees?"], &[], &[]),
        def("Ind: Worker", "governed", &["[Ww]orkers?"], &[], &[]),
        def("SC: C: Principal Contractor", "governed", &["[Pp]rincipal contractors?"], &[], &[]),
        def("SC: C: Contractor", "governed", &["[Cc]ontractors?"], &[], &[]),
        def("SC: Client", "governed", &["[Cc]lients?"], &[], &[]),
        def("Operator", "governed", &["[Oo]perators?"], &[], &[]),
        def("Ind: Duty Holder", "governed", &["[Dd]uty holders?"], &[], &[]),
        def("Ind: Self-employed Worker", "governed", &["[Ss]elf-employed(?: persons?)?"], &[], &[]),
        def("Ind: Licensee", "governed", &["[Ll]icensees?"], &[], &[]),
        def("Ind: Responsible Person", "governed", &["[Rr]esponsible persons?"], &[], &[]),
        def("Ind: Person", "governed", &["[Pp]ersons?"], &[], &[]),
        def("SC: Manufacturer", "governed", &["[Mm]anufacturers?"], &[], &[]),
        def("Offshore: Licensee", "governed", &["[Ll]icensees?"], &[], &["OH&S: Offshore"]),
        def("Gvt: Minister", "government", &["[Ss]ecretary of [Ss]tate", "[Mm]inisters?"], &["secretary of state", "minister"], &[]),
        def("Gvt: Agency: Health and Safety Executive", "government", &["Health and Safety Executive", "Executive"], &["executive"], &[]),
        def("Gvt: Authority: Enforcement", "government", &["[Ee]nforcing authority"], &["enforcing authority"], &[]),
        def("Gvt: Authority", "government", &["[Aa]uthority"], &["authority"], &[]),
        def("Gvt: Inspector", "government", &["[Ii]nspectors?"], &["inspector"], &[]),
        def("EU: Member State", "government", &["Member States?"], &["member state"], &[]),
    ])
}

/// The position recorded for an actor label.
fn position<'a>(record: &'a TaxaRecord, label: &str) -> Option<&'a str> {
    record.actor_positions.iter().find(|(l, _)| l == label).map(|(_, p)| *p)
}

#[test]
fn parse_employer_duty() {
    let record = parse(&dictionary(), "The employer shall ensure the health and safety of employees.");
    assert!(record.duty_types.contains(&DutyType::Obligation));
    assert!(
        record
            .governed_actors
            .iter()
            .any(|a| a.contains("Employer"))
    );
    assert!(!record.popimar.is_empty());
}

#[test]
fn parse_government_responsibility() {
    let record = parse(&dictionary(), "The Secretary of State shall have power to make regulations.");
    assert!(record.duty_types.contains(&DutyType::Obligation));
    assert!(
        record
            .government_actors
            .iter()
            .any(|a| a.contains("Minister"))
    );
}

#[test]
fn parse_html_cleaned() {
    let record = parse(&dictionary(), "<p>The employer <b>shall</b> ensure safety.</p>");
    assert!(!record.cleaned_text.contains('<'));
    assert!(record.duty_types.contains(&DutyType::Obligation));
}

#[test]
fn parse_empty() {
    let record = parse(&dictionary(), "");
    assert!(record.duty_types.is_empty());
    assert!(record.governed_actors.is_empty());
}

#[test]
fn parse_purpose_detected() {
    let record = parse(&dictionary(), "This Act may be cited as the Health and Safety at Work etc. Act 1974.");
    assert!(record.purposes.iter().any(|p| p.contains("Enactment")));
}

#[test]
fn parse_full_pipeline_hswa_s2() {
    let text = "It shall be the duty of every employer to ensure, so far as \
                is reasonably practicable, the health, safety and welfare at \
                work of all his employees.";
    let record = parse(&dictionary(), text);
    assert!(record.duty_types.contains(&DutyType::Obligation));
    assert!(!record.popimar.is_empty());
    assert!(!record.purposes.is_empty());
}

// ── Purpose-based pre-filtering tests ───────────────────────────

#[test]
fn skip_interpretation_section() {
    // Pure definition — only INTERPRETATION purpose, no modal verbs.
    // ALL-structural gate fires, DRRP is skipped.
    let text =
        r#"In these Regulations— "employer" means a person who employs one or more employees."#;
    let record = parse(&dictionary(), text);
    // Purpose detected
    assert!(record.purposes.contains(&INTERPRETATION));
    // DRRP classification skipped (ALL-structural gate)
    assert!(record.duty_types.is_empty());
    assert!(record.popimar.is_empty());
    assert!(
        record
            .governed_actors
            .iter()
            .any(|a| a.contains("Employer")),
        "actors should be extracted even for gated provisions"
    );
}

#[test]
fn skip_amendment_section() {
    let text = "In section 3, for subsection (2) substitute the following provisions.";
    let record = parse(&dictionary(), text);
    // Purpose detected
    assert!(record.purposes.contains(&AMENDMENT));
    // DRRP classification skipped
    assert!(record.duty_types.is_empty());
    assert!(record.governed_actors.is_empty());
    assert!(record.government_actors.is_empty());
    assert!(record.popimar.is_empty());
}

#[test]
fn skip_repeal_section() {
    let text = "The following Acts shall cease to have effect and are hereby repealed.";
    let record = parse(&dictionary(), text);
    // Purpose detected
    assert!(record.purposes.contains(&REPEAL_REVOCATION));
    // DRRP classification skipped
    assert!(record.duty_types.is_empty());
}

#[test]
fn process_drrp_section() {
    let text = "Every employer shall ensure the health and safety of employees.";
    let record = parse(&dictionary(), text);
    // Purpose detected (Process+Rule)
    assert!(record.purposes.contains(&PROCESS_RULE));
    // DRRP classification runs
    assert!(!record.duty_types.is_empty());
    assert!(!record.governed_actors.is_empty());
}

#[test]
fn amendment_with_quoted_duty_skipped() {
    // Amendment text containing "shall" in quoted substitution text.
    // The duty belongs to the destination section, not this amendment
    // provision.  Interpretation pattern also fires on the quoted text,
    // making Interpretation primary — correctly skipped.
    let text = r#"In section 3, for subsection (2) substitute— "The Scottish Ministers shall ensure targets are met.""#;
    let record = parse(&dictionary(), text);
    assert!(record.purposes.contains(&AMENDMENT));
    // Interpretation-primary due to quoted text — DRRP skipped
    assert!(record.duty_types.is_empty());
}

#[test]
fn pure_amendment_skipped() {
    // A pure amendment provision with no modal verbs — only Amendment purpose.
    let text = "In section 3, for subsection (2) substitute the following provisions.";
    let record = parse(&dictionary(), text);
    assert!(record.purposes.contains(&AMENDMENT));
    assert!(!record.purposes.contains(&PROCESS_RULE));
    // Pure amendment — gate skips DRRP
    assert!(record.duty_types.is_empty());
}

#[test]
fn interpretation_primary_with_actor_override() {
    let text = r#"For the purposes of interpretation, "employer" means a person who shall ensure safety."#;
    let record = parse(&dictionary(), text);
    assert!(record.purposes.contains(&INTERPRETATION));
    // Gate overridden — DRRP extraction runs because governed actor present
    assert!(
        !record.governed_actors.is_empty(),
        "governed actor should be extracted"
    );
}

#[test]
fn pure_definition_with_actor_mentions_skipped() {
    // Pure Interpretation+Definition provision that mentions actors
    // (e.g., "approved by the Health and Safety Executive") should
    // still skip DRRP — the actor mention is noise, not a duty.
    let text = r#"In these Regulations "the approved poster" means a poster in the form approved and published by the Health and Safety Executive."#;
    let record = parse(&dictionary(), text);
    assert!(record.purposes.contains(&INTERPRETATION));
    assert!(
        record.duty_types.is_empty(),
        "pure definition should have no DRRP even with actor mention, got: {:?}",
        record.duty_types
    );
}

#[test]
fn interpretation_primary_without_actor_still_skipped() {
    // When Interpretation is primary with NO governed actor, gate still fires.
    let text = r#"For the purposes of these Regulations, "workplace" means any premises or part of premises which are not domestic premises."#;
    let record = parse(&dictionary(), text);
    assert!(record.purposes.contains(&INTERPRETATION));
    // No governed actor → gate fires → DRRP skipped
    assert!(record.duty_types.is_empty());
}

#[test]
fn pure_skip_purposes_skipped() {
    // Provision with ONLY skip-purposes should still be skipped.
    let text =
        r#"In these Regulations— "employer" means a person who employs one or more employees."#;
    let record = parse(&dictionary(), text);
    assert!(record.purposes.contains(&INTERPRETATION));
    // No non-skip purposes present — gate triggers
    assert!(record.duty_types.is_empty());
}








// ── Descriptive summary filter tests ────────────────────────────

#[test]
fn descriptive_regulations_impose_duties_no_drrp() {
    // UK_uksi_2005_1093 Reg 1 — descriptive summary of what the Regulations do
    let text = "The Regulations impose duties on employers to protect \
                employees who may be exposed to risk from exposure to \
                vibration at work, and other persons who might be affected \
                by the work, whether they are at work or not.";
    let record = parse(&dictionary(), text);
    assert!(
        record.duty_types.is_empty(),
        "descriptive summary should not produce DRRP, got: {:?}",
        record.duty_types
    );
}

#[test]
fn descriptive_regulations_require_no_drrp() {
    let text = "These Regulations require employers to make a suitable and \
                sufficient assessment of the risks to the health and safety \
                of employees.";
    let record = parse(&dictionary(), text);
    assert!(
        record.duty_types.is_empty(),
        "descriptive 'require' summary should not produce DRRP, got: {:?}",
        record.duty_types
    );
}

#[test]
fn descriptive_act_provides_no_drrp() {
    let text = "This Act provides for the making of health, safety and \
                welfare regulations and the issuing of approved codes of practice.";
    let record = parse(&dictionary(), text);
    assert!(
        record.duty_types.is_empty(),
        "descriptive 'provides' summary should not produce DRRP, got: {:?}",
        record.duty_types
    );
}

#[test]
fn descriptive_regulations_implement_no_drrp() {
    let text = "The Regulations implement Council Directive 89/391/EEC on \
                the introduction of measures to encourage improvements in \
                the safety and health of workers at work.";
    let record = parse(&dictionary(), text);
    assert!(
        record.duty_types.is_empty(),
        "descriptive 'implement' summary should not produce DRRP, got: {:?}",
        record.duty_types
    );
}

#[test]
fn direct_duty_the_employer_shall_not_filtered() {
    // "The" + employer + modal is a direct duty, not a descriptive summary
    let text = "The employer shall ensure the health and safety of employees.";
    let record = parse(&dictionary(), text);
    assert!(
        !record.duty_types.is_empty(),
        "direct duty starting with 'The employer' should still produce DRRP"
    );
}


#[test]
fn parse_v2_employer_duty() {
    let record = parse_v2(&dictionary(), 
        "The employer shall ensure the health and safety of employees.",
        None,
    );
    assert!(record.duty_types.contains(&DutyType::Obligation));
    assert!(
        record
            .governed_actors
            .iter()
            .any(|a| a.contains("Employer"))
    );
}

#[test]
fn parse_v2_rejects_actor_as_object() {
    let record = parse_v2(&dictionary(), 
        "information must be provided to the contractor before work begins",
        None,
    );
    assert!(
        record.duty_types.is_empty(),
        "v2 should reject contractor-as-object, got: {:?}",
        record.duty_types
    );
}


#[test]
fn mixed_content_provision_employer_duty_extracted() {
    // Product safety SI pattern: Interpretation-primary provision that
    // starts with definitions but contains real employer duties.
    // The governed-actor gate override lets DRRP extraction run.
    let text = "In this regulation, \"the relevant statutory provisions\" means \
                sections 2 to 7 of the 1974 Act. Every employer shall ensure \
                that exposure of his employees to substances hazardous to health \
                is either prevented or, where this is not reasonably practicable, \
                adequately controlled.";
    let record = parse_v2(&dictionary(), text, None);
    assert!(
        record.purposes.contains(&INTERPRETATION),
        "should detect Interpretation purpose"
    );
    assert!(
        !record.governed_actors.is_empty(),
        "should extract governed actors"
    );
    assert!(
        !record.duty_types.is_empty(),
        "mixed-content provision with real employer duty should produce DRRP, \
         got purposes: {:?}, actors: {:?}",
        record.purposes,
        record.governed_actors
    );
}

#[test]
fn pure_definition_with_actor_keyword_no_drrp() {
    // Pure definition mentioning an actor keyword but no modal verb.
    // ALL-structural gate fires (only Interpretation purpose).
    let text = r#"In these Regulations— "employer" means a person who employs \
                one or more employees under a contract of employment."#;
    let record = parse_v2(&dictionary(), text, None);
    assert!(record.purposes.contains(&INTERPRETATION));
    // ALL-structural gate fires — no DRRP despite actor keyword
    assert!(
        record.duty_types.is_empty(),
        "pure definition should not produce DRRP, got: {:?}",
        record.duty_types
    );
}


#[test]
fn person_regarded_as_competent_no_drrp() {
    // MHSWR reg 7 — definitional: "a person shall be regarded as competent"
    let text = "A person shall be regarded as competent for the purposes of \
                paragraphs (1) and (8) where he has sufficient training and \
                experience or knowledge and other qualities to enable him \
                properly to assist in undertaking the measures referred to \
                in that paragraph.";
    let record = parse(&dictionary(), text);
    assert!(
        record.duty_types.is_empty(),
        "definitional 'shall be regarded' should not produce DRRP, got: {:?}",
        record.duty_types
    );
}

#[test]
fn person_scope_exclusion_no_drrp() {
    // PUWER reg 3 — application/scope: "shall not apply to a person"
    let text = "The requirements imposed by these Regulations shall not apply \
                to a person in respect of work equipment supplied by him by \
                way of sale, agreement for sale or hire-purchase agreement.";
    let record = parse(&dictionary(), text);
    assert!(
        record.duty_types.is_empty(),
        "scope exclusion mentioning 'a person' should not produce DRRP, got: {:?}",
        record.duty_types
    );
}


#[test]
fn contractor_definition_no_drrp() {
    // CDM 2015 reg 2 interpretation — defines "contractor", not a duty
    let text = r#"In these Regulations— "contractor" means any person (including a non-domestic client) who, in the course or furtherance of a business, carries out, manages or controls construction work."#;
    let record = parse(&dictionary(), text);
    assert!(record.purposes.contains(&INTERPRETATION));
    assert!(record.duty_types.is_empty());
}

#[test]
fn contractor_appointment_cross_ref_no_drrp() {
    // CDM 2015 reg 8(1) — transitional, states who IS principal contractor
    let text = "Where, immediately before 6th April 2015 there is a principal \
                contractor appointed for a relevant project under regulation \
                14(2) of the 2007 Regulations, for the purposes of these \
                Regulations that person is the principal contractor.";
    let record = parse(&dictionary(), text);
    // No modal verb — no DRRP even though "contractor" is present
    assert!(record.duty_types.is_empty());
}


#[test]
fn contractor_duty_plan_manage_monitor() {
    // CDM 2015 reg 15(2) — clear duty on contractor
    let text = "a contractor must plan, manage and monitor construction work \
                carried out either by the contractor or by workers under the \
                contractor's control, to ensure that, so far as is reasonably \
                practicable, it is carried out without risks to health and safety.";
    let record = parse(&dictionary(), text);
    assert!(
        record.duty_types.contains(&DutyType::Obligation),
        "contractor obligation should classify as Duty, got: {:?}",
        record.duty_types
    );
}

#[test]
fn principal_contractor_duty_construction_phase_plan() {
    // CDM 2015 reg 12(1) — duty on principal contractor
    let text = "during the pre-construction phase, and before setting up a \
                construction site, the principal contractor must draw up a \
                construction phase plan, or make arrangements for a \
                construction phase plan to be drawn up.";
    let record = parse(&dictionary(), text);
    assert!(
        record.duty_types.contains(&DutyType::Obligation),
        "principal contractor obligation should classify as Duty, got: {:?}",
        record.duty_types
    );
}

#[test]
fn contractor_prohibition() {
    // CDM 2015 reg 15(1) — prohibition on contractor
    let text = "a contractor must not carry out construction work in relation \
                to a project unless satisfied that the client is aware of the \
                duties owed by the client under these regulations.";
    let record = parse(&dictionary(), text);
    assert!(
        record.duty_types.contains(&DutyType::Obligation),
        "contractor prohibition should classify as Duty, got: {:?}",
        record.duty_types
    );
}


#[test]
fn client_definition_no_drrp() {
    // CDM 2015 reg 4(8) — definitional, no modal
    let text = "Where there is more than one client in relation to a project, \
                one or more of the clients may agree in writing to be treated \
                for the purposes of these Regulations as the only client.";
    let record = parse(&dictionary(), text);
    assert!(record.duty_types.is_empty());
}


#[test]
fn person_must_not_ride_prohibition() {
    // CDM 2015 reg 28(1) — "a person must not ride"
    let text = "A person must not ride, or be required or permitted to ride, \
                on any vehicle being used for the purposes of construction \
                work unless that vehicle is suitable for carrying that person.";
    let record = parse(&dictionary(), text);
    assert!(
        record.duty_types.contains(&DutyType::Obligation),
        "person prohibition should classify as Duty, got: {:?}",
        record.duty_types
    );
}

#[test]
fn person_must_not_remain_prohibition() {
    // CDM 2015 reg 28(2) — "a person must not remain"
    let text = "A person must not remain, or be required or permitted to \
                remain, on any vehicle during the loading or unloading of \
                any loose material unless a safe place of work is provided \
                and maintained for that person.";
    let record = parse(&dictionary(), text);
    assert!(
        record.duty_types.contains(&DutyType::Obligation),
        "person prohibition should classify as Duty, got: {:?}",
        record.duty_types
    );
}

#[test]
fn person_must_not_carry_out_work_prohibition() {
    // CDM 2015 reg 32(2) — "a person must not carry out work"
    let text = "Where a work activity may give rise to a particular risk of \
                fire, a person must not carry out work unless suitably \
                instructed.";
    let record = parse(&dictionary(), text);
    assert!(
        record.duty_types.contains(&DutyType::Obligation),
        "person fire prohibition should classify as Duty, got: {:?}",
        record.duty_types
    );
}


#[test]
fn client_duty_manage_project() {
    // CDM 2015 reg 4(1) — clear duty on client
    let text = "a client must make suitable arrangements for managing a \
                project, including the allocation of sufficient time and \
                other resources.";
    let record = parse(&dictionary(), text);
    assert!(
        record.duty_types.contains(&DutyType::Obligation),
        "client obligation should classify as Duty, got: {:?}",
        record.duty_types
    );
}

#[test]
fn client_duty_maintain_arrangements() {
    // CDM 2015 reg 4(3) — duty on client
    let text = "a client must ensure that these arrangements are maintained \
                and reviewed throughout the project.";
    let record = parse(&dictionary(), text);
    assert!(
        record.duty_types.contains(&DutyType::Obligation),
        "client obligation should classify as Duty, got: {:?}",
        record.duty_types
    );
}

// ── Clause extraction tests ─────────────────────────────────────

#[test]
fn clause_refined_simple_employer_duty() {
    let record = parse_v2(&dictionary(), 
        "The employer shall ensure the health and safety of employees.",
        None,
    );
    let clause = record.clause_refined.unwrap();
    assert!(
        clause.contains("employer"),
        "clause should contain actor: {clause}"
    );
    assert!(
        clause.contains("shall"),
        "clause should contain modal: {clause}"
    );
    assert!(
        clause.contains("ensure"),
        "clause should contain action: {clause}"
    );
}

#[test]
fn clause_refined_long_provision_is_truncated() {
    let text = "It shall be the duty of every employer to ensure, so far as \
                is reasonably practicable, the health, safety and welfare at \
                work of all his employees. The matters to which that duty \
                extends include in particular the provision and maintenance \
                of plant and systems of work that are, so far as is reasonably \
                practicable, safe and without risks to health. The arrangement \
                for ensuring, so far as is reasonably practicable, safety and \
                absence of risks to health in connection with the use, handling, \
                storage and transport of articles and substances.";
    let record = parse_v2(&dictionary(), text, None);
    let clause = record.clause_refined.unwrap();
    assert!(
        clause.contains("employer"),
        "clause should contain actor: {clause}"
    );
    // Should end at the first sentence boundary, not truncate mid-sentence
    assert!(
        clause.ends_with('.') || clause.ends_with(';'),
        "clause should end at sentence boundary: {clause}"
    );
}

#[test]
fn clause_refined_person_compound() {
    let text = "A person must not ride, or be required or permitted to ride, \
                on any vehicle being used for the purposes of construction work.";
    let record = parse_v2(&dictionary(), text, None);
    let clause = record.clause_refined.unwrap();
    assert!(
        clause.contains("person"),
        "clause should contain actor: {clause}"
    );
    assert!(
        clause.contains("must not"),
        "clause should contain modal: {clause}"
    );
}

#[test]
fn clause_refined_government_fallback() {
    let text = "The Secretary of State shall have power to make regulations.";
    let record = parse_v2(&dictionary(), text, None);
    let clause = record.clause_refined.unwrap();
    assert!(
        clause.contains("Secretary"),
        "clause should contain actor: {clause}"
    );
    assert!(
        clause.contains("shall"),
        "clause should contain modal: {clause}"
    );
}

#[test]
fn clause_refined_none_for_empty() {
    let record = parse_v2(&dictionary(), "", None);
    assert!(record.clause_refined.is_none());
}

#[test]
fn clause_refined_none_for_no_drrp() {
    let record = parse_v2(&dictionary(), "the quick brown fox jumped over the lazy dog", None);
    assert!(record.clause_refined.is_none());
}

#[test]
fn clause_refined_passive_by_pattern() {
    let text = "An internal emergency plan must be prepared by the operator \
                before the establishment is put into operation.";
    let record = parse_v2(&dictionary(), text, None);
    let clause = record.clause_refined.unwrap();
    assert!(
        clause.contains("operator"),
        "clause should contain actor: {clause}"
    );
    assert!(
        clause.contains("must"),
        "clause should contain modal: {clause}"
    );
}

#[test]
fn clause_refined_duty_of_pattern() {
    let text = "It shall be the duty of every employer to ensure, so far as \
                is reasonably practicable, the health, safety and welfare at \
                work of all his employees.";
    let record = parse_v2(&dictionary(), text, None);
    let clause = record.clause_refined.unwrap();
    assert!(
        clause.contains("employer"),
        "clause should contain actor: {clause}"
    );
    assert!(
        clause.contains("shall"),
        "clause should contain modal: {clause}"
    );
}

// ── Sentence-start regression tests ─────────────────────────────

#[test]
fn clause_no_mid_sentence_start_long_preamble() {
    // Real-world case: actor is >100 chars from the sentence start.
    // The clause should NOT start mid-word or mid-sentence.
    let text = "Subject to the provisions of Part II, for any activity to \
                which the conditions of Schedule 3 relate, the \
                appropriate registration authority shall enter in its register \
                the particulars furnished to it pursuant to that provision.";
    let record = parse_v2(&dictionary(), text, None);
    let clause = record.clause_refined.unwrap();
    assert!(
        !clause.starts_with("..."),
        "clause should not start mid-sentence: {clause}"
    );
    assert!(
        clause.starts_with("Subject") || clause.starts_with("the appropriate"),
        "clause should start at sentence boundary: {clause}"
    );
}



#[test]
fn scope_extension_like_duty_skipped() {
    // Noise 2005 Reg 3 — scope extension, not a new duty
    let text = "Where a duty is placed by these Regulations on an employer in \
                respect of his employees, the employer shall, so far as is reasonably \
                practicable, be under a like duty in respect of any other person at \
                work who may be affected by the work carried out by the employer.";
    let record = parse(&dictionary(), text);
    assert!(
        record.purposes.contains(&APPLICATION_SCOPE),
        "should detect Application+Scope, got: {:?}",
        record.purposes
    );
    assert!(
        record.duty_types.is_empty(),
        "scope extension should not produce DRRP, got: {:?}",
        record.duty_types
    );
}

#[test]
fn scope_extension_self_employed_skipped() {
    // Noise 2005 / Vibration 2005 / Lead 2002 Reg 3
    let text = "These Regulations shall apply to a self-employed person as they \
                apply to an employer and an employee and as if that self-employed \
                person were both an employer and an employee, except that regulation \
                9 shall not apply to a self-employed person.";
    let record = parse(&dictionary(), text);
    assert!(
        record.purposes.contains(&APPLICATION_SCOPE),
        "should detect Application+Scope, got: {:?}",
        record.purposes
    );
    assert!(
        record.duty_types.is_empty(),
        "scope extension to self-employed should not produce DRRP, got: {:?}",
        record.duty_types
    );
}

#[test]
fn transitional_non_application_skipped() {
    // Vibration 2005 Reg 3(2) — transitional scope
    let text = "Subject to paragraph (3), regulation 6(4) shall not apply until \
                6th July 2010 where work equipment is used which was first provided \
                to employees prior to 6th July 2007 by any employer.";
    let record = parse(&dictionary(), text);
    assert!(
        record.purposes.contains(&APPLICATION_SCOPE),
        "should detect Application+Scope, got: {:?}",
        record.purposes
    );
    assert!(
        record.duty_types.is_empty(),
        "transitional non-application should not produce DRRP, got: {:?}",
        record.duty_types
    );
}

#[test]
fn requirement_extends_to_self_employed_skipped() {
    // Pressure Systems Reg 3(1) — scope extension
    let text = "Any requirement or prohibition imposed by these Regulations on an \
                employer in respect of the activities of his employees shall also \
                extend to a self-employed person in respect of his own activities \
                at work.";
    let record = parse(&dictionary(), text);
    assert!(
        record.purposes.contains(&APPLICATION_SCOPE),
        "should detect Application+Scope, got: {:?}",
        record.purposes
    );
    assert!(
        record.duty_types.is_empty(),
        "requirement-extends scope should not produce DRRP, got: {:?}",
        record.duty_types
    );
}

#[test]
fn genuine_employer_duty_not_application_scope() {
    // Genuine duty — mentions "these Regulations" incidentally but the
    // core text is an obligation on the employer to DO something.
    let text = "The employer shall ensure that risk from the exposure of his \
                employees to noise is either eliminated at source or, where this \
                is not reasonably practicable, reduced to as low a level as is \
                reasonably practicable.";
    let record = parse(&dictionary(), text);
    assert!(
        !record.duty_types.is_empty(),
        "genuine employer duty should produce DRRP, got empty"
    );
}

#[test]
fn genuine_employer_risk_assessment_not_application_scope() {
    // Genuine duty that mentions "requirements of these Regulations"
    let text = "An employer who carries out work which is liable to expose any \
                employees to noise at or above a lower exposure action value shall \
                make a suitable and sufficient assessment of the risk from that \
                noise to the health and safety of those employees, and the risk \
                assessment shall identify the measures which need to be taken to \
                meet the requirements of these Regulations.";
    let record = parse(&dictionary(), text);
    assert!(
        !record.duty_types.is_empty(),
        "genuine risk assessment duty should produce DRRP, got empty"
    );
}

// ── Relative-clause Application+Scope false-positive regressions ──


#[test]
fn operator_to_which_these_regs_apply_produces_drrp() {
    // COMAH operator notification — "to which these Regulations apply" is
    // a relative clause, not scope.
    let text = "The operator of any establishment to which these Regulations \
                apply must notify the competent authority in advance of a \
                significant increase or decrease in the quantity of dangerous \
                substances notified under this regulation.";
    let record = parse(&dictionary(), text);
    assert!(
        !record.duty_types.is_empty(),
        "'to which these Regulations apply' duty should produce DRRP, got empty"
    );
}


#[test]
fn secondary_application_scope_gets_fitness_rules() {
    // When APPLICATION_SCOPE is a secondary purpose (not first),
    let text = "These Regulations shall not apply to the master or crew \
                of a sea-going ship or to the employer of such persons \
                in respect of the normal ship-board activities of a \
                ship's crew under the direction of the master.";
    let record = parse(&dictionary(), text);
    assert!(
        !record.fitness_rules.is_empty(),
        "secondary APPLICATION_SCOPE should produce fitness_rules, got empty"
    );
}



#[test]
fn licensee_duty_offshore_family_produces_drrp() {
    // Real offshore provision: licensee is the duty-holder.
    // With OH&S: Offshore family, licensee should be extracted as a
    // specialist actor and produce DRRP classification.
    let text = "The licensee shall ensure that any operator appointed \
                by him is capable of satisfactorily carrying out his \
                functions under these Regulations.";
    let record = parse_v2(&dictionary(), text, Some("OH&S: Offshore Safety"));
    assert!(
        record
            .governed_actors
            .iter()
            .any(|a| a.contains("Licensee")),
        "licensee should be extracted for offshore family, got: {:?}",
        record.governed_actors
    );
    assert!(
        !record.duty_types.is_empty(),
        "licensee duty should produce DRRP for offshore family, got empty"
    );
}

#[test]
fn licensee_duty_no_family_extracts_general_licensee() {
    // the Offshore specialist (Offshore: Licensee). Without family context,
    // the general label should be extracted.
    let text = "The licensee shall ensure that any operator appointed \
                by him is capable of satisfactorily carrying out his \
                functions under these Regulations.";
    let record = parse_v2(&dictionary(), text, None);
    assert!(
        record
            .governed_actors
            .iter()
            .any(|a| a.contains("Licensee")),
        "licensee should be extracted as Ind: Licensee, got: {:?}",
        record.governed_actors
    );
}

// ── Subordinate clause retry (actor in both clauses) ─────────────

#[test]
fn duty_holder_where_clause_repeat_produces_drrp() {
    // UK_nisr_2016_406:30 — "duty holder" in both subordinate Where-clause
    // and main clause. Should produce DRRP from the main clause occurrence.
    let text = "Where the duty holder has adopted other measures, the duty holder \
                shall perform the internal emergency response duties so as to \
                secure a good prospect of personal safety and survival, taking \
                into account the adoption of those other measures.";
    let record = parse(&dictionary(), text);
    assert!(
        record.duty_types.contains(&DutyType::Obligation),
        "repeated actor in Where+main clause should produce Duty, got: {:?}",
        record.duty_types
    );
    assert!(
        record
            .governed_actors
            .iter()
            .any(|a| a.contains("Duty Holder")),
        "should extract Duty Holder, got: {:?}",
        record.governed_actors
    );
}

// ── Actor position heuristic tests ─────────────────────────────

#[test]
fn position_employer_active_employee_counterparty() {
    let text = "The employer shall ensure the health and safety of employees.";
    let record = parse(&dictionary(), text);
    assert_eq!(
        position(&record, "Org: Employer"),
        Some("active")
    );
    assert_eq!(
        position(&record, "Ind: Employee"),
        Some("counterparty")
    );
}

#[test]
fn position_employer_shall_provide_training_to_employee() {
    let text =
        "Every employer shall ensure that adequate training is provided to each employee.";
    let record = parse(&dictionary(), text);
    assert_eq!(
        position(&record, "Org: Employer"),
        Some("active")
    );
    assert_eq!(
        position(&record, "Ind: Employee"),
        Some("counterparty")
    );
}

#[test]
fn position_single_actor_is_active() {
    let text = "The employer shall ensure a safe workplace.";
    let record = parse(&dictionary(), text);
    assert_eq!(
        position(&record, "Org: Employer"),
        Some("active")
    );
}

#[test]
fn position_government_pattern_has_active_actor() {
    // Government pattern — "secretary of state shall make regulations"
    let text = "The Secretary of State shall by regulations make provision for the safety of employees.";
    let record = parse(&dictionary(), text);
    assert!(
        !record.actor_positions.is_empty(),
        "government pattern should now populate actor_positions"
    );
    assert_eq!(
        position(&record, "Gvt: Minister"),
        Some("active"),
        "Secretary of State should be active, got: {:?}",
        record.actor_positions
    );
}

// ── EU Directive patterns ────────────────────────────────────────

#[test]
fn eu_directive_member_state_shall_ensure() {
    let text = "Member States shall ensure that the medical surveillance of exposed workers is based on the principles that govern occupational medicine generally.";
    let record = parse(&dictionary(), text);
    assert!(
        record.duty_types.contains(&DutyType::Obligation),
        "EU Directive 'shall ensure' should be Responsibility, got: {:?}",
        record.duty_types
    );
    assert!(
        record
            .government_actors
            .iter()
            .any(|a| a.contains("Member State")),
        "should extract Member State, got: {:?}",
        record.government_actors
    );
}

#[test]
fn eu_directive_member_state_active_worker_counterparty() {
    let text = "Member States shall ensure that the undertaking is responsible for assessing and implementing arrangements for the radiation protection of exposed workers.";
    let record = parse(&dictionary(), text);
    assert_eq!(
        position(&record, "EU: Member State"),
        Some("active"),
        "Member State should be active, got: {:?}",
        record.actor_positions
    );
    // Worker is mentioned in subordinate clause — should NOT be active
    if let Some(pos) = position(&record, "Ind: Worker") {
        assert_ne!(
            pos, "active",
            "Worker in subordinate clause should not be active"
        );
    }
}

#[test]
fn eu_directive_member_state_shall_require() {
    let text = "Member States shall require that the manufacturer, the supplier, and each undertaking ensures that high-activity sealed sources comply with the requirements.";
    let record = parse(&dictionary(), text);
    assert!(
        record.duty_types.contains(&DutyType::Obligation),
        "'shall require' should be Responsibility, got: {:?}",
        record.duty_types
    );
}

// ── Purpose gate: actor override tests ───────────────────────────

#[test]
fn enactment_with_government_actor_gets_drrp() {
    // Commencement provision with Secretary of State power
    let text = "This Act shall come into operation on such day as the Secretary of State may by order appoint.";
    let record = parse(&dictionary(), text);
    assert!(
        !record.duty_types.is_empty(),
        "Enactment with government actor should get DRRP, got empty"
    );
}

#[test]
fn interpretation_with_government_actor_gets_drrp() {
    // Definition provision that also contains a government obligation
    let text = "Member States shall ensure the establishment, regular review and use of diagnostic reference levels for radiodiagnostic examinations.";
    let record = parse(&dictionary(), text);
    assert!(
        !record.duty_types.is_empty(),
        "Interpretation with government actor should get DRRP, got empty"
    );
}

#[test]
fn all_skip_with_government_actor_gets_drrp() {
    // Interpretation-only provision with government obligation
    let text = "For the purpose of obtaining information, the Executive may serve on any person a notice requiring that person to furnish information.";
    let record = parse(&dictionary(), text);
    // Executive is a government actor — gate should let this through
    assert!(
        !record.government_actors.is_empty(),
        "should extract government actor, got: {:?}",
        record.government_actors
    );
}

#[test]
fn amendment_with_government_actor_still_skipped() {
    // Amendment provisions should always skip — obligations belong to target
    let text = r#"In section 3, for subsection (2) substitute— "The Secretary of State shall ensure compliance.""#;
    let record = parse(&dictionary(), text);
    assert!(
        record.duty_types.is_empty(),
        "amendment should skip DRRP even with government actor"
    );
}

#[test]
fn app_scope_with_governed_only_still_skipped() {
    // Scope extension with governed actors but no government actors
    let text = "These Regulations shall apply to a self-employed person as they apply to an employer and an employee.";
    let record = parse(&dictionary(), text);
    assert!(
        record.duty_types.is_empty(),
        "scope extension with governed-only actors should skip"
    );
}

#[test]
fn app_scope_with_government_actor_gets_drrp() {
    // Application+Scope provision with government obligation
    let text = "The Executive shall submit under subsection (4)(b)(i) a report on the application of these provisions.";
    let record = parse(&dictionary(), text);
    // Executive is a government actor — should not be blocked
    assert!(
        !record.government_actors.is_empty(),
        "should extract government actor"
    );
}


/// across a representative set of provision texts.
#[test]
fn shadow_mode_parse_v2_with_trail_matches() {
    let texts = [
        "The employer shall ensure the health and safety of employees.",
        "The Secretary of State shall have power to make regulations.",
        "<p>The employer <b>shall</b> ensure safety.</p>",
        "",
        "This Act may be cited as the Health and Safety at Work etc. Act 1974.",
        "It shall be the duty of every employer to ensure, so far as is reasonably practicable, the health, safety and welfare at work of all his employees.",
        r#"In these Regulations— "employer" means a person who employs one or more employees."#,
        "In section 3, for subsection (2) substitute the following provisions.",
        "Every employer shall ensure the health and safety of employees.",
        "The enforcing authority may serve on the responsible person a notice.",
        "An inspector may serve an improvement notice.",
        "Every traffic route must be suitable for the persons using them.",
        "It is an offence for a person to fail to comply with the requirement.",
        "The authority may appoint any suitably qualified person as an inspector.",
        "The secretary of state may give directions to the executive.",
        "Nothing in this section shall be taken to compel production of a document.",
        "The Regulations impose duties on employers.",
    ];

    for text in texts {
        let old = parse_v2(&dictionary(), text, None);
        let (new, _trail) = parse_v2_with_trail(&dictionary(), text, None);

        assert_eq!(
            old.duty_types, new.duty_types,
            "duty_types mismatch for: {text:.80}"
        );
        assert_eq!(
            old.governed_actors, new.governed_actors,
            "governed_actors mismatch for: {text:.80}"
        );
        assert_eq!(
            old.government_actors, new.government_actors,
            "government_actors mismatch for: {text:.80}"
        );
        assert_eq!(
            old.purposes, new.purposes,
            "purposes mismatch for: {text:.80}"
        );
        assert_eq!(
            old.popimar, new.popimar,
            "popimar mismatch for: {text:.80}"
        );
        assert_eq!(
            old.clause_refined, new.clause_refined,
            "clause_refined mismatch for: {text:.80}"
        );
        // Confidence: epsilon comparison for f32
        let (old_conf, new_conf) = (old.taxa_confidence as f32 / 100.0, new.taxa_confidence as f32 / 100.0);
        assert!(
            (old_conf - new_conf).abs() < 1e-6,
            "taxa_confidence mismatch for {text:.80}: old={} new={}",
            old_conf,
            new_conf,
        );
        assert_eq!(
            old.actor_positions, new.actor_positions,
            "actor_positions mismatch for: {text:.80}"
        );
    }
}

// ── Miss analysis ───────────────────────────────────────────────────

#[test]
fn miss_heat_for_employer_duty() {
    let m = analyse_miss(&dictionary(), "The employer shall ensure the health and safety of employees.");
    // modal +3, governed actor +2, operative purpose +1
    assert!(m.has_modal);
    assert!(!m.has_enabling);
    assert_eq!(m.signals, vec!["modal", "governed_actor", "operative_purpose"]);
    assert_eq!(m.heat, 6);
}

#[test]
fn miss_heat_for_short_definition() {
    let m = analyse_miss(&dictionary(), r#""work" means work as an employee."#);
    // governed actor +2, structural purpose -2, short text -1
    assert_eq!(m.signals, vec!["governed_actor", "structural_purpose", "short_text"]);
    assert_eq!(m.heat, -1);
    assert_eq!(m.governed_actors, vec!["Ind: Employee"]);
}

#[test]
fn miss_heat_for_government_power() {
    let m = analyse_miss(&dictionary(), "The Secretary of State may by order appoint a day for the purposes of this section.");
    assert!(m.has_enabling);
    assert!(!m.has_modal);
    assert!(m.signals.contains(&"enabling_modal"));
    assert!(m.signals.contains(&"government_actor"));
    assert_eq!(m.government_actors, vec!["Gvt: Minister"]);
}

#[test]
fn empty_text_trail_reason() {
    let (record, trail) = parse_v2_with_trail(&dictionary(), "   ", None);
    assert!(record.cleaned_text.is_empty());
    assert_eq!(trail.reason, DecisionReason::EmptyText);
    assert_eq!(trail.candidates_count, 0);
}

#[test]
fn gated_provision_trail_reason() {
    let (record, trail) = parse_v2_with_trail(&dictionary(), "In section 3, for subsection (2) substitute the following provisions.", None);
    assert!(record.duty_types.is_empty());
    assert_eq!(trail.reason, DecisionReason::PurposeGated);
    assert!(trail.winner.is_none());
}

#[test]
fn legal_fiction_trail_reason() {
    let (record, trail) =
        parse_v2_with_trail(&dictionary(), "The employer shall be treated as the occupier of the premises.", None);
    assert!(record.duty_types.is_empty());
    assert_eq!(trail.reason, DecisionReason::LegalFiction);
    assert!(trail.rejections_count >= 1);
}

#[test]
fn record_confidence_scores_focused_clause() {
    let rec = parse_v2(&dictionary(), "The employer shall ensure the health and safety of employees.", None);
    match &rec.clause_refined {
        Some(c) => {
            let has_span = rec.classification.as_ref().and_then(|d| d.span).is_some();
            assert_eq!(rec.taxa_confidence, score(c, has_span));
            assert!(rec.taxa_confidence > 0);
        }
        None => assert_eq!(rec.taxa_confidence, 0),
    }
    assert_eq!(parse_v2(&dictionary(), "   ", None).taxa_confidence, 0);
}

#[test]
fn miss_heat_transitional_only_is_not_structural() {
    let m = analyse_miss(&dictionary(), "These are the transitional arrangements for existing licences.");
    assert_eq!(m.purposes, vec!["Transitional Arrangement"]);
    assert!(!m.signals.contains(&"structural_purpose"));
    assert_eq!(m.heat, 0);
}
