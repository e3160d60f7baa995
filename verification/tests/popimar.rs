use fractalaw_taxa::popimar::{classify, classify_with_duty_types, sort_categories};

#[test]
fn policy_match() {
    let result = classify("The organisation shall establish a health and safety policy.");
    assert!(result.contains(&"Policy"));
}

#[test]
fn risk_control_match() {
    let result =
        classify("The employer shall take such measures as are necessary to reduce the risk.");
    assert!(result.contains(&"Risk Control"));
}

#[test]
fn training_competence_match() {
    let result =
        classify("The employer shall ensure every employee receives adequate training.");
    assert!(result.contains(&"Organisation - Competence"));
}

#[test]
fn risk_assessment_match() {
    let result =
        classify("Every employer shall make a suitable and sufficient assessment of risks.");
    assert!(result.contains(&"Planning & Risk / Impact Assessment"));
}

#[test]
fn notification_match() {
    let result = classify("The employer shall notify the enforcing authority of any accident.");
    assert!(result.contains(&"Notification"));
}

#[test]
fn records_match() {
    let result = classify("A record of the assessment must be kept available for inspection.");
    assert!(result.contains(&"Records"));
    assert!(result.contains(&"Checking, Monitoring"));
}

#[test]
fn multiple_categories() {
    let text = "The employer shall provide training and maintain a record of risk assessments.";
    let result = classify(text);
    assert!(result.len() >= 2);
}

#[test]
fn empty_text() {
    assert!(classify("").is_empty());
}

#[test]
fn default_risk_control_with_duty_types() {
    let result = classify_with_duty_types("some generic text without keywords", &["Duty"]);
    assert_eq!(result, vec!["Risk Control"]);
}

#[test]
fn no_default_without_relevant_duty_types() {
    let result = classify_with_duty_types("some generic text", &["Transitional Arrangement"]);
    assert!(result.is_empty());
}

#[test]
fn category_sort_order() {
    let mut cats = vec!["Review", "Policy", "Risk Control"];
    sort_categories(&mut cats);
    assert_eq!(cats, vec!["Policy", "Risk Control", "Review"]);
}
