use fractalaw_taxa::correlatives::{apply_rules, CorrelativeRule, SectionActor};

fn employee_rule() -> CorrelativeRule {
    CorrelativeRule {
        trigger_actor: "Ind: Employee".to_string(),
        trigger_position: "active".to_string(),
        trigger_drrp: None,
        inferred_actor: "Org: Employer".to_string(),
        inferred_category: "Org".to_string(),
        inferred_position: "counterparty".to_string(),
        inferred_drrp: None,
    }
}

fn actor(label: &str, cat: &str, drrp: Option<&str>, pos: Option<&str>) -> SectionActor {
    (label.to_string(), cat.to_string(), drrp.map(|s| s.to_string()), pos.map(|s| s.to_string()))
}

#[test]
fn employee_rule_infers_employer_with_inherited_drrp() {
    let sections = vec![("test:s.1".to_string(), vec![actor("Ind: Employee", "Ind", Some("Obligation"), Some("active"))])];
    let inferred = apply_rules(&[employee_rule()], &sections);
    assert_eq!(inferred.len(), 1);
    assert_eq!(inferred[0].section_id, "test:s.1");
    assert_eq!(inferred[0].actor_label, "Org: Employer");
    assert_eq!(inferred[0].actor_category, "Org");
    assert_eq!(inferred[0].position, "counterparty");
    assert_eq!(inferred[0].drrp, Some("Obligation".to_string()));
}

#[test]
fn existing_actor_is_not_inferred_again() {
    let sections = vec![(
        "test:s.1".to_string(),
        vec![
            actor("Ind: Employee", "Ind", Some("Obligation"), Some("active")),
            actor("Org: Employer", "Org", Some("Obligation"), Some("counterparty")),
        ],
    )];
    assert_eq!(apply_rules(&[employee_rule()], &sections).len(), 0);
}

#[test]
fn wrong_position_or_drrp_does_not_fire() {
    let sections = vec![("s".to_string(), vec![actor("Ind: Employee", "Ind", Some("Liberty"), Some("counterparty"))])];
    assert!(apply_rules(&[employee_rule()], &sections).is_empty());
    let mut rule = employee_rule();
    rule.trigger_drrp = Some("Obligation".to_string());
    let sections = vec![("s".to_string(), vec![actor("Ind: Employee", "Ind", Some("Liberty"), Some("active"))])];
    assert!(apply_rules(&[rule], &sections).is_empty());
}

#[test]
fn rule_drrp_overrides_inherited_and_sections_keep_order() {
    let mut rule = employee_rule();
    rule.inferred_drrp = Some("Liberty".to_string());
    let sections = vec![
        ("a".to_string(), vec![actor("Ind: Employee", "Ind", Some("Obligation"), Some("active"))]),
        ("b".to_string(), vec![actor("Ind: Employee", "Ind", None, Some("active"))]),
    ];
    let inferred = apply_rules(&[rule, employee_rule()], &sections);
    assert_eq!(inferred.len(), 2);
    assert_eq!(inferred[0].section_id, "a");
    assert_eq!(inferred[0].drrp, Some("Liberty".to_string()));
    assert_eq!(inferred[1].section_id, "b");
    assert_eq!(inferred[1].drrp, Some("Liberty".to_string()));
}

#[test]
fn inherited_drrp_of_first_trigger_labelled_actor() {
    let sections = vec![(
        "s".to_string(),
        vec![
            actor("Ind: Employee", "Ind", None, Some("mentioned")),
            actor("Ind: Employee", "Ind", Some("Obligation"), Some("active")),
        ],
    )];
    let inferred = apply_rules(&[employee_rule()], &sections);
    assert_eq!(inferred.len(), 1);
    assert_eq!(inferred[0].drrp, None);
}
