use fractalaw_taxa::taxa::{is_descriptive_summary, is_duty_bearing_purpose, is_legal_fiction, should_skip_drrp};

#[test]
fn duty_bearing_process_rule() {
    let purposes = vec!["Process+Rule+Constraint+Condition".to_string()];
    assert!(is_duty_bearing_purpose(&purposes));
}

#[test]
fn duty_bearing_mixed_with_interpretation() {
    let purposes = vec![
        "Interpretation+Definition".to_string(),
        "Process+Rule+Constraint+Condition".to_string(),
    ];
    assert!(is_duty_bearing_purpose(&purposes));
}

#[test]
fn not_duty_bearing_pure_interpretation() {
    let purposes = vec!["Interpretation+Definition".to_string()];
    assert!(!is_duty_bearing_purpose(&purposes));
}

#[test]
fn not_duty_bearing_amendment() {
    let purposes = vec!["Amendment".to_string()];
    assert!(!is_duty_bearing_purpose(&purposes));
}

#[test]
fn not_duty_bearing_empty() {
    let purposes: Vec<String> = vec![];
    assert!(!is_duty_bearing_purpose(&purposes));
}

#[test]
fn duty_bearing_offence() {
    let purposes = vec!["Offence".to_string()];
    assert!(is_duty_bearing_purpose(&purposes));
}

#[test]
fn skip_drrp_amendment_always() {
    assert!(should_skip_drrp(&["Amendment"], true, true));
    assert!(should_skip_drrp(&["Process+Rule+Constraint+Condition", "Repeal+Revocation"], true, true));
}

#[test]
fn skip_drrp_offence_unless_government() {
    assert!(should_skip_drrp(&["Offence"], true, false));
    assert!(!should_skip_drrp(&["Offence"], false, true));
}

#[test]
fn skip_drrp_structural_unless_actor() {
    assert!(should_skip_drrp(&["Interpretation+Definition"], false, false));
    assert!(!should_skip_drrp(&["Interpretation+Definition"], true, false));
    assert!(should_skip_drrp(&["Application+Scope", "Process+Rule+Constraint+Condition"], true, false));
    assert!(!should_skip_drrp(&["Application+Scope", "Process+Rule+Constraint+Condition"], false, true));
    assert!(!should_skip_drrp(&["Process+Rule+Constraint+Condition"], false, false));
    assert!(!should_skip_drrp(&[], false, false));
}

#[test]
fn legal_fiction_and_immunity() {
    assert!(is_legal_fiction("the authority shall be treated as a local authority"));
    assert!(!is_legal_fiction("the employer shall ensure safety"));
    assert!(!is_legal_fiction("Nothing in these Regulations shall compel any person to give evidence"));
}

#[test]
fn descriptive_summary_detection() {
    assert!(is_descriptive_summary("The Regulations impose duties on employers"));
    assert!(!is_descriptive_summary("Every employer shall ensure"));
}

#[test]
fn mixed_interpretation_and_rule_is_not_skipped() {
    // Only all-structural purpose lists skip for want of an actor.
    let purposes = ["Interpretation+Definition", "Process+Rule+Constraint+Condition"];
    assert!(!should_skip_drrp(&purposes, false, false));
    let enactment = ["Enactment+Citation+Commencement", "Process+Rule+Constraint+Condition"];
    assert!(!should_skip_drrp(&enactment, false, false));
    let structural = ["Enactment+Citation+Commencement", "Interpretation+Definition"];
    assert!(should_skip_drrp(&structural, false, false));
    assert!(!should_skip_drrp(&structural, true, false));
}
