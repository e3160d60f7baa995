use fractalaw_taxa::actors::{compile_dictionary, ActorDef, ActorDictionary};
use fractalaw_taxa::making::{
    decimal_string, metadata_signals, provision_signals, triage_provisions, LawMetadata, MakingClassification, Signal, SignalDirection,
    TriageCounts,
};

fn def(label: &str, ty: &str, patterns: &[&str], keywords: &[&str]) -> ActorDef {
    ActorDef {
        label: label.into(),
        actor_type: ty.into(),
        regex_patterns: patterns.iter().map(|s| s.to_string()).collect(),
        triggers: vec![],
        drrp_keywords: keywords.iter().map(|s| s.to_string()).collect(),
        families: vec![],
        category: String::new(),
    }
}

/// A stand-in actor dictionary with the entries these provisions need.
fn dictionary() -> ActorDictionary {
    compile_dictionary(&[
        def("Org: Employer", "governed", &["[Ee]mployers?"], &[]),
        def("Ind: Employee", "governed", &["[Ee]mployees?"], &[]),
        def("Gvt: Minister", "government", &["[Ss]ecretary of [Ss]tate"], &["secretary of state"]),
    ])
}

#[test]
fn triage_provisions_counts_obligations() {
    let texts = vec![
        "The employer shall ensure the health and safety of employees.",
        "These Regulations may be cited as the Example Regulations 2024.",
        "The employer must carry out a suitable and sufficient assessment.",
    ];
    let counts = triage_provisions(&dictionary(), &texts, None);
    assert_eq!(counts.total, 3);
    assert_eq!(counts.with_obligation, 2);
    assert!(counts.with_actor >= 2); // "employer" extracted
}

#[test]
fn triage_provisions_amendment_text() {
    let texts = vec![
        "For regulation 3 substitute the following regulation.",
        "In regulation 5(2), for paragraph (a) substitute—",
        "Regulation 7 is revoked.",
    ];
    let counts = triage_provisions(&dictionary(), &texts, None);
    assert!(counts.amendment >= 2);
    assert_eq!(counts.with_obligation, 0);
}

#[test]
fn triage_skips_blank_provisions() {
    let texts = vec!["", "   ", "<p></p>", "The Secretary of State may make regulations."];
    let counts = triage_provisions(&dictionary(), &texts, None);
    assert_eq!(counts.total, 1);
    assert_eq!(counts.with_actor, 1);
    assert_eq!(counts.with_enabling, 1);
    assert_eq!(counts.with_obligation, 0);
}

#[test]
fn triage_of_nothing_is_default() {
    let counts = triage_provisions(&dictionary(), &[], None);
    let d = TriageCounts::default();
    assert_eq!(counts.total, d.total);
    assert_eq!(counts.process_rule, 0);
    assert_eq!(counts.interpretation, 0);
}

#[test]
fn triage_counts_interpretation_and_process_rule() {
    let texts = vec![
        r#"In these Regulations— "employer" means a person who employs one or more employees."#,
        "Every employer shall ensure the health and safety of employees.",
    ];
    let counts = triage_provisions(&dictionary(), &texts, None);
    assert_eq!(counts.total, 2);
    assert_eq!(counts.interpretation, 1);
    assert_eq!(counts.process_rule, 1);
}

#[test]
fn making_classification_labels() {
    assert_eq!(MakingClassification::Making.as_str(), "making");
    assert_eq!(MakingClassification::NotMaking.as_str(), "not_making");
    assert_eq!(MakingClassification::Uncertain.as_str(), "uncertain");
}

fn meta(title: &str) -> LawMetadata<'_> {
    LawMetadata { title: Some(title), description: None, body_paras: None, schedule_paras: None }
}

fn names(signals: &[Signal]) -> Vec<&'static str> {
    signals.iter().map(|s| s.name).collect()
}

#[test]
fn commencement_title_is_definitive() {
    let title = "The Environmental Protection Act 1990 (Commencement No. 1) Order 1990";
    let signals = metadata_signals(&meta(title));
    assert_eq!(names(&signals), vec!["title_commencement"]);
    assert_eq!(signals[0].tier, 1);
    assert_eq!(signals[0].confidence, 99);
    assert_eq!(signals[0].direction, SignalDirection::NotMaking);
    assert_eq!(signals[0].value, title);
}

#[test]
fn appointed_day_wins_over_commencement() {
    let signals = metadata_signals(&meta("The Act (Appointed Day) (Commencement) Order"));
    assert_eq!(names(&signals), vec!["title_appointed_day"]);
    assert_eq!(signals[0].confidence, 100);
}

#[test]
fn amendment_title_is_strong_not_making() {
    let signals = metadata_signals(&meta("The Workplace (Health, Safety and Welfare) (Amendment) Regulations 2024"));
    assert_eq!(names(&signals), vec!["title_amendment"]);
    assert_eq!(signals[0].tier, 2);
    assert_eq!(signals[0].confidence, 80);
}

#[test]
fn substantive_title_alone_gives_no_signal() {
    assert!(metadata_signals(&meta("Health and Safety at Work etc. Act 1974")).is_empty());
}

#[test]
fn high_body_and_securing_description() {
    let signals = metadata_signals(&LawMetadata {
        title: Some("Health and Safety at Work etc. Act 1974"),
        description: Some(
            "An Act to make further provision for securing the health, safety and welfare of persons at work",
        ),
        body_paras: Some(85),
        schedule_paras: Some(12),
    });
    // 0.50 + 85/500 = 0.67
    assert_eq!(names(&signals), vec!["high_body_paras", "provision_securing", "provision_for"]);
    assert_eq!(signals[0].confidence, 67);
    assert_eq!(signals[0].value, "85");
    assert_eq!(signals[1].confidence, 90);
    assert_eq!(signals[2].confidence, 70);
    assert_eq!(signals[1].direction, SignalDirection::Making);
}

#[test]
fn body_confidence_rounds_and_caps() {
    let body = |b: u32| {
        let signals = metadata_signals(&LawMetadata { title: None, description: None, body_paras: Some(b), schedule_paras: None });
        signals[0].confidence
    };
    assert_eq!(body(52), 60); // 0.604
    assert_eq!(body(53), 61); // 0.606
    assert_eq!(body(120), 74);
    assert_eq!(body(174), 85); // 0.848
    assert_eq!(body(175), 85);
    assert_eq!(body(4000), 85);
}

#[test]
fn low_body_high_schedule_signals() {
    let signals = metadata_signals(&LawMetadata {
        title: Some("Some Regulations 2024"),
        description: None,
        body_paras: Some(2),
        schedule_paras: Some(100),
    });
    assert_eq!(names(&signals), vec!["low_body_high_schedule", "very_low_body_paras"]);
    assert_eq!(signals[0].value, "body=2,sched=100");
    assert_eq!(signals[0].confidence, 90);
    assert_eq!(signals[1].confidence, 60);
}

#[test]
fn description_not_making_phrases_and_value_cut() {
    let long = format!("An Order to amend the Regulations {}", "x".repeat(300));
    let signals = metadata_signals(&LawMetadata {
        title: None,
        description: Some(&long),
        body_paras: None,
        schedule_paras: None,
    });
    assert_eq!(names(&signals), vec!["desc_to_amend"]);
    assert_eq!(signals[0].value.chars().count(), 200);
    assert!(metadata_signals(&LawMetadata { title: None, description: Some(""), body_paras: None, schedule_paras: None }).is_empty());
}

#[test]
fn decimal_strings() {
    assert_eq!(decimal_string(0), "0");
    assert_eq!(decimal_string(7), "7");
    assert_eq!(decimal_string(100), "100");
    assert_eq!(decimal_string(4294967295), "4294967295");
}

fn counts(total: u32, process_rule: u32, amendment: u32, with_actor: u32, with_obligation: u32) -> TriageCounts {
    TriageCounts {
        total,
        process_rule,
        amendment,
        enactment: 0,
        interpretation: 0,
        with_actor,
        with_obligation,
        with_enabling: 0,
    }
}

#[test]
fn provision_signals_for_a_making_law() {
    let hits = provision_signals(&counts(50, 30, 2, 20, 15));
    let names: Vec<&str> = hits.iter().map(|h| h.name).collect();
    assert_eq!(names, vec!["provisions_with_obligations", "high_process_rule"]);
    assert_eq!(hits[0].value, "obligations=15/50 actors=20/50 process_rule=30/50");
    assert_eq!(hits[0].direction, SignalDirection::Making);
    assert_eq!(hits[1].value, "process_rule=30/50");
}

#[test]
fn provision_signals_for_an_amending_law() {
    let hits = provision_signals(&counts(20, 1, 18, 0, 0));
    let names: Vec<&str> = hits.iter().map(|h| h.name).collect();
    assert_eq!(names, vec!["mostly_amendment", "no_obligations_found"]);
    assert_eq!(hits[0].value, "amendment=18/20");
    assert_eq!(hits[1].value, "0 obligations in 20 provisions");
    assert!(provision_signals(&counts(0, 0, 0, 0, 0)).is_empty());
}

#[test]
fn provision_thresholds_are_strict() {
    // exactly 10% obligations does not fire; just over does
    assert!(provision_signals(&counts(30, 0, 0, 30, 3)).iter().all(|h| h.name != "provisions_with_obligations"));
    assert!(provision_signals(&counts(29, 0, 0, 29, 3)).iter().any(|h| h.name == "provisions_with_obligations"));
    // exactly 60% amendments does not fire
    assert!(provision_signals(&counts(10, 0, 6, 0, 1)).iter().all(|h| h.name != "mostly_amendment"));
}
