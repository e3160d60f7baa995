use fractalaw_taxa::application::{Application, ApplicationInput, ApplicationSource, NATIONS, derive_application, nations_for_extent, nations_in};

fn provs(items: &[(&str, &str)]) -> Vec<(String, String)> {
    items.iter().map(|(a, b)| (a.to_string(), b.to_string())).collect()
}

fn regions(a: &Option<Application>) -> Vec<&str> {
    a.as_ref().map(|a| a.regions.iter().map(|s| s.as_str()).collect()).unwrap_or_default()
}

#[test]
fn nations_parsing() {
    assert_eq!(nations_in("England and Wales"), vec!["england", "wales"]);
    assert_eq!(nations_in("Great Britain"), vec!["england", "wales", "scotland"]);
    assert_eq!(nations_in("the United Kingdom"), NATIONS.to_vec());
    assert_eq!(nations_for_extent("E+W+S+N.I."), NATIONS.to_vec());
    assert_eq!(nations_for_extent("E+W"), vec!["england", "wales"]);
    assert_eq!(nations_for_extent("GB"), vec!["england", "wales", "scotland"]);
}

#[test]
fn application_clause_beats_extent() {
    // UK_uksi_2006_3368: extends E+W, applies to England only
    let p = provs(&[
        ("UK_uksi_2006_3368:reg.1(2)", "These Regulations apply in relation to England only."),
        ("UK_uksi_2006_3368:reg.1(9)", "These Regulations extend to England and Wales."),
    ]);
    let a = derive_application(&ApplicationInput {
        type_code: "uksi",
        title: "Smoke-free (Premises and Enforcement) Regulations",
        provisions: &p,
        lat_extents: &["E+W".into()],
        lrt_extent: Some("UK"),
    });
    assert_eq!(regions(&a), vec!["england"]);
    let a = a.unwrap();
    assert_eq!(a.source, ApplicationSource::TextClause);
    assert_eq!(a.evidence, "reg.1(2): \"These Regulations apply in relation to England\"");
}

#[test]
fn title_parenthetical() {
    // UK_uksi_2025_140: text only says "extend to England and Wales"
    let p = provs(&[("UK_uksi_2025_140:reg.1(3)", "These Regulations extend to England and Wales.")]);
    let a = derive_application(&ApplicationInput {
        type_code: "uksi",
        title: "Separation of Waste (England) Regulations",
        provisions: &p,
        lat_extents: &["E+W".into()],
        lrt_extent: Some("UK"),
    });
    assert_eq!(regions(&a), vec!["england"]);
    assert_eq!(a.unwrap().source, ApplicationSource::Title);
    let a = derive_application(&ApplicationInput {
        type_code: "uksi",
        title: "Keeping and Introduction of Fish (England and River Esk Catchment Area) Regulations",
        ..Default::default()
    });
    assert_eq!(regions(&a), vec!["england"]);
}

#[test]
fn devolved_type_code_ignores_placeholder_extent() {
    // Unrevised NISR: legislation.gov.uk placeholder E+W+S+N.I.
    let a = derive_application(&ApplicationInput {
        type_code: "nisr",
        title: "Dangerous Substances in Harbour Areas Regulations",
        lrt_extent: Some("UK"),
        ..Default::default()
    });
    assert_eq!(regions(&a), vec!["northern_ireland"]);
    assert_eq!(a.unwrap().source, ApplicationSource::TypeCode);
    let a = derive_application(&ApplicationInput { type_code: "wsi", lrt_extent: Some("E+W"), ..Default::default() });
    assert_eq!(regions(&a), vec!["wales"]);
}

#[test]
fn extent_fallback_order() {
    let p = provs(&[("UK_uksi_1:reg.1(3)", "These Regulations extend to Great Britain.")]);
    let a = derive_application(&ApplicationInput {
        type_code: "uksi",
        provisions: &p,
        lat_extents: &["E+W+S+NI".into()],
        lrt_extent: Some("UK"),
        ..Default::default()
    });
    assert_eq!(regions(&a), vec!["england", "wales", "scotland"]);
    let a = derive_application(&ApplicationInput {
        type_code: "uksi",
        lat_extents: &["E+W".into()],
        lrt_extent: Some("UK"),
        ..Default::default()
    });
    assert_eq!(regions(&a), vec!["england", "wales"]);
    let a = derive_application(&ApplicationInput { type_code: "ukpga", lrt_extent: Some("GB"), ..Default::default() });
    assert_eq!(a.unwrap().evidence, "LRT extent GB");
    assert!(derive_application(&ApplicationInput { type_code: "ukpga", ..Default::default() }).is_none());
}

#[test]
fn negative_extent_subtracts() {
    // UK_ukpga_1974_37 s.84(1)
    let p = provs(&[("UK_ukpga_1974_37:s.84(1)", "This Act, except— does not extend to Northern Ireland.")]);
    let a = derive_application(&ApplicationInput {
        type_code: "ukpga",
        provisions: &p,
        lat_extents: &["E+W+S+NI".into(), "E+W".into()],
        lrt_extent: Some("UK"),
        ..Default::default()
    });
    assert_eq!(regions(&a), vec!["england", "wales", "scotland"]);
}

#[test]
fn application_clause_across_sub_paragraphs() {
    // UK_uksi_2015_51 reg.3 with its sub-paragraphs joined
    let p = provs(&[(
        "UK_uksi_2015_51:reg.3",
        "These Regulations apply— (a) in Great Britain; and (b) to premises and activities outside Great Britain",
    )]);
    let a = derive_application(&ApplicationInput {
        type_code: "uksi",
        provisions: &p,
        lat_extents: &["E+W+S+NI".into()],
        ..Default::default()
    });
    assert_eq!(regions(&a), vec!["england", "wales", "scotland"]);
    assert_eq!(a.unwrap().source, ApplicationSource::TextClause);
}

#[test]
fn partial_extent_clause_ignored() {
    // UK_ukpga_1990_43 s.164(4)
    let p = provs(&[(
        "UK_ukpga_1990_43:s.164(4)",
        "(4) Only the following provisions of this Act (together with this section) extend to Northern Ireland—",
    )]);
    let a = derive_application(&ApplicationInput {
        type_code: "ukpga",
        provisions: &p,
        lat_extents: &["E+W+S".into(), "E+W".into(), "S".into()],
        ..Default::default()
    });
    assert_eq!(regions(&a), vec!["england", "wales", "scotland"]);
    let p = provs(&[("UK_x:reg.9", "Regulation 5 of these Regulations applies to Scotland only.")]);
    let a = derive_application(&ApplicationInput { type_code: "uksi", provisions: &p, lrt_extent: Some("GB"), ..Default::default() });
    assert_eq!(a.unwrap().source, ApplicationSource::ExtentFallback);
}

#[test]
fn descriptive_and_nothing_in_clauses() {
    // UK_uksi_2009_3344 reg.26(1)(a), UK_uksi_2016_1092 reg.38D(4)
    let p = provs(&[
        ("UK_a:reg.26(1)(a)", "for the purposes of enforcing these Regulations as they apply in relation to England"),
        ("UK_a:reg.38D(4)", "has the meaning given to it in regulation 2(1) of these Regulations as it applies in Northern Ireland"),
    ]);
    let a = derive_application(&ApplicationInput { type_code: "uksi", provisions: &p, lrt_extent: Some("E+W"), ..Default::default() });
    assert_eq!(a.unwrap().source, ApplicationSource::ExtentFallback);
    // UK_uksi_2005_894 reg.1(3)
    let p = provs(&[("UK_uksi_2005_894:reg.1(3)", "Nothing in these Regulations applies to Wales.")]);
    let a = derive_application(&ApplicationInput { type_code: "uksi", provisions: &p, lat_extents: &["E+W".into()], ..Default::default() });
    assert_eq!(regions(&a), vec!["england"]);
}

#[test]
fn conditional_clauses_ignored() {
    // UK_uksi_2015_627 reg.35(1)(a), UK_uksi_2016_1092 reg.38D(4)
    let p = provs(&[
        ("UK_a:reg.35(1)(a)", "(and to the extent that these Regulations apply in relation to Wales and Scotland);"),
        ("UK_a:reg.38D(4)", "paragraph 2(2)(c) of Schedule 2 to these Regulations, as that Schedule applies in Northern Ireland."),
    ]);
    let a = derive_application(&ApplicationInput { type_code: "uksi", provisions: &p, lrt_extent: Some("E+W"), ..Default::default() });
    assert_eq!(a.unwrap().source, ApplicationSource::ExtentFallback);
}

#[test]
fn subtractive_clause() {
    let p = provs(&[("UK_ukpga_1:s.99", "This Act does not apply to Northern Ireland.")]);
    let a = derive_application(&ApplicationInput {
        type_code: "ukpga",
        provisions: &p,
        lrt_extent: Some("UK"),
        ..Default::default()
    });
    assert_eq!(regions(&a), vec!["england", "wales", "scotland"]);
    assert_eq!(a.unwrap().source, ApplicationSource::TextClause);
}

#[test]
fn partial_application_is_not_law_level() {
    // UK_uksi_2015_1360 reg.1(2)
    let p = provs(&[("UK_uksi_2015_1360:reg.1(2)", "Regulations 7 to 9 and 11 apply to England only.")]);
    let a = derive_application(&ApplicationInput {
        type_code: "uksi",
        provisions: &p,
        lat_extents: &["E+W".into()],
        ..Default::default()
    });
    assert_eq!(regions(&a), vec!["england", "wales"]);
    assert_eq!(a.unwrap().source, ApplicationSource::ExtentFallback);
}

#[test]
fn scottish_act_title_and_cross_references() {
    // "(Scotland)" in the title; a cross-reference to another Act must not count
    let p = provs(&[("UK_asp_2021_4:s.1", "The Scottish Ministers may by regulations make provision corresponding to EU law.")]);
    let a = derive_application(&ApplicationInput {
        type_code: "asp",
        title: "UK Withdrawal from the European Union (Continuity) (Scotland) Act",
        provisions: &p,
        lrt_extent: Some("S"),
        ..Default::default()
    });
    assert_eq!(regions(&a), vec!["scotland"]);
}
