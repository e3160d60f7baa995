use fractalaw_taxa::training::{clause_span, find_qualifier, longest_common_substring, parse_article_to_provision};

#[test]
fn parse_section_slash() {
    assert_eq!(parse_article_to_provision("section/2"), Some("2"));
}

#[test]
fn parse_section_dash() {
    assert_eq!(parse_article_to_provision("section-2"), Some("2"));
}

#[test]
fn parse_regulation_slash() {
    assert_eq!(parse_article_to_provision("regulation/4"), Some("4"));
}

#[test]
fn parse_rule_dash() {
    assert_eq!(parse_article_to_provision("rule-3"), Some("3"));
}

#[test]
fn parse_compound_provision() {
    // e.g. "section/2(1)" → "2(1)"
    assert_eq!(parse_article_to_provision("section/2(1)"), Some("2(1)"));
}

#[test]
fn parse_bare_number() {
    assert_eq!(parse_article_to_provision("42"), Some("42"));
}

#[test]
fn training_parse_empty() {
    assert_eq!(parse_article_to_provision(""), None);
}

#[test]
fn parse_trailing_slash() {
    assert_eq!(parse_article_to_provision("section/"), None);
}

#[test]
fn lcs_exact_match() {
    let a: Vec<char> = "hello world".chars().collect();
    let b: Vec<char> = "hello world".chars().collect();
    let (pa, pb, len) = longest_common_substring(&a, &b);
    assert_eq!(len, 11);
    assert_eq!(pa, 0);
    assert_eq!(pb, 0);
}

#[test]
fn lcs_substring() {
    let a: Vec<char> = "world".chars().collect();
    let b: Vec<char> = "hello world!".chars().collect();
    let (_, pb, len) = longest_common_substring(&a, &b);
    assert_eq!(len, 5);
    assert_eq!(pb, 6);
}

#[test]
fn lcs_partial() {
    let a: Vec<char> = "employer shall ensure".chars().collect();
    let b: Vec<char> = "every employer shall ensure the safety".chars().collect();
    let (_, pb, len) = longest_common_substring(&a, &b);
    // "employer shall ensure" = 21 chars, found at position 6 in b.
    assert_eq!(len, 21);
    assert_eq!(pb, 6);
}

#[test]
fn lcs_no_match() {
    let a: Vec<char> = "abc".chars().collect();
    let b: Vec<char> = "xyz".chars().collect();
    let (_, _, len) = longest_common_substring(&a, &b);
    assert_eq!(len, 0);
}

#[test]
fn lcs_empty() {
    let a: Vec<char> = Vec::new();
    let b: Vec<char> = "hello".chars().collect();
    let (_, _, len) = longest_common_substring(&a, &b);
    assert_eq!(len, 0);
}

#[test]
fn qualifier_sfairp() {
    let source = "shall ensure, so far as is reasonably practicable, \
                   the health and safety";
    let q = find_qualifier(source, 0, 13).unwrap();
    assert_eq!(q.text, "so far as is reasonably practicable");
}

#[test]
fn qualifier_unless() {
    let source = "No person shall do X unless the inspector approves.";
    let q = find_qualifier(source, 0, 25).unwrap();
    assert_eq!(q.text, "unless");
}

#[test]
fn qualifier_subject_to() {
    let source = "Subject to paragraph (2), every employer shall ensure safety.";
    let q = find_qualifier(source, 30, 60).unwrap();
    assert_eq!(q.text, "Subject to");
}

#[test]
fn qualifier_none() {
    let source = "Every employer shall ensure the safety of employees.";
    let q = find_qualifier(source, 0, source.len());
    assert!(q.is_none());
}

#[test]
fn qualifier_nearest_to_clause() {
    // Two qualifiers; should pick the one nearest to the clause span.
    let source = "Unless X, the employer shall, so far as is reasonably \
                   practicable, ensure safety.";
    // Clause is "the employer shall ... ensure safety" starting around char 10.
    let q = find_qualifier(source, 10, 80).unwrap();
    // Both overlap with the clause span (distance 0), but SFAIRP is more specific.
    // Either is acceptable — just check we get one.
    assert!(!q.text.is_empty());
}

#[test]
fn clause_span_threshold_is_a_fifth_of_the_clause() {
    // min(10, 5 / 5) = 1: a two-character match counts.
    let (start, end, matched, clause_len) = clause_span("abcde", "xxab").unwrap();
    assert_eq!((start, end, matched.as_str(), clause_len), (2, 4, "ab", 5));
    // a long clause needs 10 characters
    assert!(clause_span(&"q".repeat(60), "xx qqqqqqqqq xx").is_none());
    assert!(clause_span(&"q".repeat(60), "xx qqqqqqqqqq xx").is_some());
}
