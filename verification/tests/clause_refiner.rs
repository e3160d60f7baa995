use fractalaw_taxa::clause_refiner::{extract_subject, find_last_modal, refine};

#[test]
fn refine_simple_clause() {
    let raw = "The employer shall ensure";
    let result = refine(raw, None, None);
    assert!(result.contains("employer"));
    assert!(result.contains("shall"));
}

#[test]
fn refine_with_section_text() {
    let raw = "The planning authority must";
    let section = "Some preamble. The planning authority must consult the relevant bodies.";
    let result = refine(raw, Some(section), None);
    assert!(result.contains("must"));
}

#[test]
fn refine_with_captured_action() {
    let raw = "The employer shall";
    let action = "ensure the health and safety of employees.";
    let result = refine(raw, None, Some(action));
    assert!(result.contains("ensure the health"));
}

#[test]
fn refine_empty_input() {
    assert!(refine("", None, None).is_empty());
}

#[test]
fn refine_no_modal() {
    let result = refine("some text without a modal verb", None, None);
    assert!(!result.is_empty());
}

#[test]
fn refine_long_preamble_finds_sentence_start() {
    let preamble = "a ".repeat(200);
    let raw = format!("{preamble}The employer shall ensure safety.");
    let result = refine(&raw, None, None);
    assert!(
        result.contains("employer"),
        "should contain actor: {result}"
    );
    assert!(result.contains("shall"), "should contain modal: {result}");
}

#[test]
fn refine_long_action_not_truncated() {
    let long_text = "The employer shall ensure safety and welfare. Done.";
    let result = refine(long_text, None, None);
    assert!(
        result.contains("ensure safety and welfare."),
        "should reach sentence end: {result}"
    );
}

#[test]
fn find_last_modal_works() {
    let text = "The employer shall ensure employees must comply";
    let (start, _, modal) = find_last_modal(text).unwrap();
    assert_eq!(modal, "must");
    assert!(start > 0);
}

#[test]
fn extract_subject_sentence_start() {
    let text = "Some context. The employer shall ensure safety.";
    let subject = extract_subject(text, text.find("shall").unwrap());
    assert!(subject.starts_with("The employer"));
}

#[test]
fn refined_clause_is_at_most_300_chars() {
    let raw = format!("{}The employer shall ensure safety.", "a ".repeat(200));
    let r = refine(&raw, None, None);
    assert!(r.chars().count() <= 300, "{} chars", r.chars().count());
    // the end of the clause is kept, from a whole word on
    assert!(raw.ends_with(r.as_str()));
    assert!(r.starts_with("a ") && r.ends_with("The employer shall ensure safety."));
    // a short clause is untouched by the cap
    assert_eq!(refine("The employer shall ensure safety.", None, None), "The employer shall ensure safety.");
}
