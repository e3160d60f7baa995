use fractalaw_taxa::confidence::score;

/// The score as a fraction, as the pipeline reports it.
fn fraction(clause: &str, has_captured_action: bool) -> f32 {
    score(clause, has_captured_action) as f32 / 100.0
}

#[test]
fn empty_clause() {
    assert_eq!(fraction("", false), 0.0);
}

#[test]
fn short_no_ending_no_capture() {
    // < 30 chars, no sentence-end punctuation, no capture, no modal
    assert_eq!(fraction("employer may do things", false), 0.0);
}

#[test]
fn full_quality_clause() {
    let clause = "The employer shall ensure the health and safety of all employees.";
    let s = fraction(clause, true);
    // span + clean ending + adequate length + strong modal = 0.25 + 0.25 + 0.20 + 0.15
    assert!((s - 0.85).abs() < 0.01);
}

#[test]
fn no_capture_but_clean() {
    let clause = "The employer shall ensure the health and safety of employees.";
    let s = fraction(clause, false);
    // clean ending + adequate length + strong modal = 0.25 + 0.20 + 0.15 = 0.60
    assert!((s - 0.60).abs() < 0.01);
}

#[test]
fn no_sentence_end_with_capture() {
    let clause = "The employer shall ensure safety and welfare for all";
    let s = fraction(clause, true);
    // capture + adequate length + strong modal = 0.25 + 0.20 + 0.15 = 0.60
    assert!((s - 0.60).abs() < 0.01);
}

#[test]
fn may_only_clause() {
    let clause = "The employee may request a review of the assessment.";
    let s = fraction(clause, false);
    // clean ending + adequate length = 0.25 + 0.20 = 0.45
    assert!((s - 0.45).abs() < 0.01);
}

#[test]
fn exact_hundredths_per_signal() {
    // each signal alone, on the same words
    assert_eq!(score("no", true), 25);
    assert_eq!(score("no.", false), 25);
    assert_eq!(score("no;", false), 25);
    assert_eq!(score("a clause of more than thirty bytes", false), 20);
    assert_eq!(score("you must", false), 15);
    assert_eq!(score("you mustard", false), 0);
    // thirty bytes exactly is not more than thirty
    assert_eq!(score("abcdefghijabcdefghijabcdefghij", false), 0);
    assert_eq!(score("abcdefghijabcdefghijabcdefghijk", false), 20);
}
