use fractalaw_taxa::drrp_prompt::parse_drrp_prompt;

#[test]
fn single_type_layout() {
    let prompt = "DRRP type: Duty\nArticle reference: s.2(1)\n- Holder: every employer\nFull section text:\n  It shall be the duty of every employer to ensure safety.\n";
    let p = parse_drrp_prompt(prompt).unwrap();
    assert_eq!(p.drrp_type, "Duty");
    assert_eq!(p.holder, "every employer");
    assert_eq!(p.article, "s.2(1)");
    assert_eq!(p.source_text, "It shall be the duty of every employer to ensure safety.");
}

#[test]
fn context_layout_prefers_refined_clause() {
    let prompt = "DRRP types: Duty, Right\nProvision: reg.4\nGoverned actors: Org: Employer, Ind: Employee\nGovernment actors: Gvt: Minister\nRegex-refined clause:\nThe employer shall\nensure safety.\nFull section text:\nThe whole section.";
    let p = parse_drrp_prompt(prompt).unwrap();
    assert_eq!(p.drrp_type, "Duty");
    assert_eq!(p.holder, "Org: Employer");
    assert_eq!(p.article, "reg.4");
    assert_eq!(p.source_text, "The employer shall\nensure safety.");
}

#[test]
fn government_actor_is_holder_when_no_governed() {
    let prompt = "DRRP types: Power\r\nGovernment actors: Gvt: Minister, Gvt: Authority\r\nFull section text:\r\nThe Secretary of State may make regulations.\r\n";
    let p = parse_drrp_prompt(prompt).unwrap();
    assert_eq!(p.drrp_type, "Power");
    assert_eq!(p.holder, "Gvt: Minister");
    assert_eq!(p.article, "unknown");
    assert_eq!(p.source_text, "The Secretary of State may make regulations.");
}

#[test]
fn explicit_holder_wins_over_actor_lists() {
    let prompt = "- Holder: the operator\nGoverned actors: Org: Employer\nDRRP type: Duty\nFull section text:\nx";
    let p = parse_drrp_prompt(prompt).unwrap();
    assert_eq!(p.holder, "the operator");
}

#[test]
fn missing_fields_give_none() {
    // no text
    assert!(parse_drrp_prompt("DRRP type: Duty\n- Holder: employer").is_none());
    // no type
    assert!(parse_drrp_prompt("- Holder: employer\nFull section text:\nx").is_none());
    // no holder
    assert!(parse_drrp_prompt("DRRP type: Duty\nFull section text:\nx").is_none());
    assert!(parse_drrp_prompt("").is_none());
}

#[test]
fn lines_after_full_text_are_all_text() {
    let prompt = "DRRP type: Duty\n- Holder: h\nFull section text:\nline one\nDRRP type: Right\n";
    let p = parse_drrp_prompt(prompt).unwrap();
    assert_eq!(p.drrp_type, "Duty");
    assert_eq!(p.source_text, "line one\nDRRP type: Right");
}
