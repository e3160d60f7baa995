use fractalaw_taxa::purpose::{AMENDMENT, APPLICATION_SCOPE, ENACTMENT, INTERPRETATION, OFFENCE, PROCESS_RULE, classify, classify_title, sort_purposes};

#[test]
fn classify_enactment() {
    let result =
        classify("This Act may be cited as the Health and Safety at Work etc. Act 1974.");
    assert!(result.contains(&ENACTMENT));
}

#[test]
fn classify_interpretation() {
    let result = classify(r#"In these Regulations— "employer" means a person who employs"#);
    assert!(result.contains(&INTERPRETATION));
}

#[test]
fn classify_application_scope() {
    let result =
        classify("These Regulations apply to every employer and self-employed person.");
    assert!(result.contains(&APPLICATION_SCOPE));
}

#[test]
fn classify_amendment() {
    let result = classify("In section 3, for subsection (2) substitute the following.");
    assert!(result.contains(&AMENDMENT));
}

#[test]
fn classify_offence() {
    let result = classify("It is an offence for any person to contravene this regulation.");
    assert!(result.contains(&OFFENCE));
}

#[test]
fn classify_default_process_rule() {
    let result = classify("some general text about workplace safety procedures.");
    assert!(result.contains(&PROCESS_RULE));
}

#[test]
fn classify_empty() {
    assert!(classify("").is_empty());
}

#[test]
fn classify_title_amendment() {
    assert_eq!(
        classify_title("The Health and Safety (Amendment) Regulations 2024"),
        vec![AMENDMENT]
    );
}

#[test]
fn classify_title_commencement() {
    assert_eq!(
        classify_title("The Environmental Protection Act 1990 (Commencement No. 1) Order"),
        vec![ENACTMENT]
    );
}

#[test]
fn classify_title_no_match() {
    assert!(
        classify_title("The Workplace (Health, Safety and Welfare) Regulations 1992")
            .is_empty()
    );
}

#[test]
fn multiple_purposes() {
    let text = "This Act may be cited as the Act 1974. The employer shall ensure safety.";
    let result = classify(text);
    assert!(result.len() >= 2);
    assert!(result.contains(&ENACTMENT));
    assert!(result.contains(&PROCESS_RULE));
}

#[test]
fn sort_order() {
    let mut purposes = vec![AMENDMENT, ENACTMENT, PROCESS_RULE];
    sort_purposes(&mut purposes);
    assert_eq!(purposes, vec![ENACTMENT, PROCESS_RULE, AMENDMENT]);
}
