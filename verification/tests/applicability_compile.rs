use std::collections::HashMap;

use fractalaw_taxa::applicability::ApplicabilityNode;
use fractalaw_taxa::applicability_compile::{LawContext, MentionInput, compile_law, is_grounded, is_law_commencement, is_law_level_disapplication, is_law_sunset, repair_tree, strip_citations, title_from_citation};

fn mention(polarity: &str, entities: &[&str], text: &str) -> MentionInput {
    MentionInput {
        polarity: polarity.into(),
        entities: entities.iter().map(|s| s.to_string()).collect(),
        text: text.into(),
    }
}

fn dims() -> HashMap<String, String> {
    [
        ("employer", "personal"),
        ("secretary of state", "personal"),
        ("local authority", "personal"),
        ("scotland", "territorial"),
        ("premises", "territorial"),
        ("construction", "material"),
        ("construction work", "material"),
        ("waste", "material"),
    ]
    .into_iter()
    .map(|(k, v)| (k.to_string(), v.to_string()))
    .collect()
}

fn m(dim: &str, codes: &[&str]) -> ApplicabilityNode {
    ApplicabilityNode::match_any(dim, codes.iter().map(|c| c.to_string()).collect())
}

#[test]
fn grounding_accepts_head_word_prefix() {
    assert!(is_grounded("employer", "Every employer shall ensure"));
    assert!(is_grounded("employer", "the employers of such persons"));
    assert!(is_grounded("waste", "controlled waste"));
    assert!(!is_grounded("waste", "This section does not apply to regulations under section 51."));
}

#[test]
fn grounding_short_words_need_whole_word() {
    assert!(is_grounded("gas", "a gas appliance"));
    assert!(!is_grounded("gas", "the gasket shall be"));
}

#[test]
fn construction_hallucination_dropped() {
    // UK_asp_2021_4 s.49(2): the fine-tuned model emitted `construction`
    assert!(!is_grounded("construction", "This section does not apply to regulations under section 51."));
    assert!(!is_grounded("construction_work", "Subsection (1) does not apply to—"));
}

#[test]
fn construction_interpretation_sense_dropped() {
    assert!(!is_grounded("construction", "Interpretation and construction"));
    assert!(!is_grounded("construction", "In the construction of these Regulations, references are to be construed"));
}

#[test]
fn construction_product_sense_dropped() {
    // UK_uksi_1986_1078 Road Vehicles (Construction and Use) Regulations
    assert!(!is_grounded("construction_work", "Road Vehicles (Construction and Use) Regulations"));
    assert!(!is_grounded("construction_work", "a windscreen shall be constructed of specified safety glass"));
    assert!(!is_grounded("construction", "a vehicle constructed or adapted to carry more than 8 passengers"));
}

#[test]
fn construction_building_sense_kept() {
    assert!(is_grounded("construction", "Construction (Design and Management) Regulations"));
    assert!(is_grounded("construction", "These Regulations apply to construction work."));
    assert!(is_grounded("construction_work", "does not apply to construction work carried out by the armed forces"));
    assert!(is_grounded("construction", "the construction of a building"));
}

#[test]
fn commencement_and_sunset_need_self_reference() {
    assert!(is_law_commencement("These Regulations come into force on 1st April 2024."));
    assert!(is_law_commencement("This Act comes into force on the day after Royal Assent."));
    assert!(!is_law_commencement("This Part comes into force on the day after Royal Assent."));
    assert!(is_law_sunset("These Regulations cease to have effect on 1st January 2030."));
    assert!(is_law_sunset("This Order expires at the end of 31st March 2022."));
    assert!(!is_law_sunset("Paragraph (2) ceases to have effect on 26th November 2016."));
    assert!(!is_law_sunset("a stop notice ceases to have effect at the end of the period of 7 days"));
}

#[test]
fn gov_actors_never_gate() {
    let tree = compile_law(
        &[
            mention("AppliesTo", &["employer"], "These Regulations apply to every employer"),
            mention("AppliesTo", &["local authority", "waste"], "a local authority shall collect waste"),
        ],
        &dims(),
        &LawContext::default(),
    )
    .unwrap();
    assert_eq!(tree, ApplicabilityNode::or(vec![m("personal", &["employer"]), m("material", &["waste"])]));
}

#[test]
fn gov_only_mention_dropped() {
    // UK_uksi_2019_421: only `enforcement_authority` was extracted; it must not gate
    let tree = compile_law(
        &[
            mention("AppliesTo", &["enforcement authority"], "An enforcement authority must enforce these Regulations"),
            mention("AppliesTo", &["employer"], "Every employer shall"),
        ],
        &dims(),
        &LawContext::default(),
    )
    .unwrap();
    assert_eq!(tree, m("personal", &["employer"]));
}

#[test]
fn repair_applies_text_free_fixes() {
    let branch = ApplicabilityNode::and(vec![m("personal", &["secretary_of_state", "employer"]), m("material", &["construction"])]);
    let tree = ApplicabilityNode::and(vec![
        ApplicabilityNode::or(vec![branch.clone(), branch]),
        ApplicabilityNode::time_window(Some("2015-04-01"), None),
        ApplicabilityNode::time_window(None, Some("2016-11-26")),
        ApplicabilityNode::time_window(Some("2013-11-26"), None),
    ]);
    let repaired = repair_tree(tree, &LawContext::default()).unwrap();
    assert_eq!(
        repaired,
        ApplicabilityNode::and(vec![
            m("personal", &["employer"]),
            ApplicabilityNode::time_window(Some("2013-11-26"), None),
        ])
    );
}

#[test]
fn application_gate_at_root_and_jurisdiction_lifted() {
    // UK_asp_2021_4: Not(scotland) disapplied the law's own jurisdiction (L3)
    let ctx = LawContext { application: Some(vec!["scotland".into()]), ..Default::default() };
    let tree = compile_law(
        &[
            mention("AppliesTo", &["employer", "Scotland"], "Every employer in Scotland shall"),
            mention("DisappliesTo", &["Scotland"], "Section 3 does not apply in Scotland to a relevant body"),
            mention("AppliesTo", &["waste"], "waste collected in England and Wales"),
        ],
        &dims(),
        &ctx,
    )
    .unwrap();
    assert_eq!(
        tree,
        ApplicabilityNode::and(vec![
            m("territorial", &["scotland"]),
            ApplicabilityNode::or(vec![m("personal", &["employer"]), m("material", &["waste"])]),
        ])
    );
}

#[test]
fn jurisdiction_only_law_is_gate_only() {
    let ctx = LawContext { application: Some(vec!["england".into()]), ..Default::default() };
    let tree = compile_law(
        &[mention("AppliesTo", &["England"], "These Regulations apply in relation to England only.")],
        &dims(),
        &ctx,
    );
    assert_eq!(tree, Some(m("territorial", &["england"])));
    // Without an application, nothing to publish
    let tree = compile_law(
        &[mention("AppliesTo", &["England"], "These Regulations apply in relation to England only.")],
        &dims(),
        &LawContext::default(),
    );
    assert!(tree.is_none());
}

#[test]
fn law_level_disapplication_detection() {
    assert!(is_law_level_disapplication("These Regulations do not apply to domestic premises."));
    assert!(is_law_level_disapplication("(2) These Regulations shall not apply to the master or crew of a ship"));
    assert!(is_law_level_disapplication("Subject to paragraph (3), these Regulations do not apply to work on a ship"));
    assert!(is_law_level_disapplication("Nothing in these Regulations applies to the armed forces"));
    assert!(!is_law_level_disapplication("Regulation 9 does not apply to construction work on domestic premises"));
    assert!(!is_law_level_disapplication("This regulation does not apply to a domestic client."));
    assert!(!is_law_level_disapplication("Paragraph (2) of this regulation does not apply where these Regulations apply"));
}

#[test]
fn law_never_disapplies_its_title_subject() {
    // UK_uksi_2007_3075 reg.4(6): boundary with the land-based Noise at Work Regs
    let ctx = LawContext {
        title: "Merchant Shipping and Fishing Vessels (Control of Noise at Work) Regulations".into(),
        application: Some(vec!["england".into()]),
    };
    let mut d = dims();
    d.insert("at work".into(), "conditional".into());
    let tree = compile_law(
        &[
            mention("AppliesTo", &["employer"], "Every employer shall"),
            mention(
                "DisappliesTo",
                &["at work", "waste"],
                "These regulations shall not apply to activities to which the Control of Noise at Work Regulations 2005 apply, or to waste",
            ),
        ],
        &d,
        &ctx,
    )
    .unwrap();
    assert_eq!(
        tree,
        ApplicabilityNode::and(vec![
            m("territorial", &["england"]),
            m("personal", &["employer"]),
            m("material", &["waste"]).negate(),
        ])
    );
    // repair_tree applies the same guard to stored trees
    let stored = ApplicabilityNode::and(vec![
        m("personal", &["employer"]),
        m("conditional", &["at_work"]).negate(),
    ]);
    assert_eq!(
        repair_tree(stored, &ctx),
        Some(ApplicabilityNode::and(vec![m("territorial", &["england"]), m("personal", &["employer"])]))
    );
}

#[test]
fn citations_do_not_ground() {
    let text = "These Regulations come into force immediately after the Mines Regulations 2014.";
    assert!(!is_grounded("mine", &strip_citations(text)));
    let text = "orders made under section 17 of the Water (Scotland) Act 1980";
    assert!(!is_grounded("scotland", &strip_citations(text)));
    assert!(is_grounded("scotland", &strip_citations("These Regulations extend to Scotland only.")));
}

#[test]
fn title_extracted_from_citation_provision() {
    assert_eq!(
        title_from_citation("These Regulations may be cited as the Construction (Design and Management) Regulations 2015 and come into force on 6th April 2015"),
        Some("Construction (Design and Management) Regulations 2015".into())
    );
    assert_eq!(
        title_from_citation("This Act may be cited as the Explosives Act (Northern Ireland) 1970."),
        Some("Explosives Act (Northern Ireland) 1970".into())
    );
    assert_eq!(title_from_citation("These Regulations come into force on 1st April 2004."), None);
}

#[test]
fn title_grounds_the_law_subject() {
    // CDM 2015: transitional provisions don't repeat "construction" but the title does
    let ctx = LawContext { title: "Construction (Design and Management) Regulations".into(), ..Default::default() };
    let tree = compile_law(
        &[mention("AppliesTo", &["construction project"], "These Regulations apply to a relevant project with the modifications")],
        &dims(),
        &ctx,
    );
    assert_eq!(tree, Some(m("material", &["construction_project"])));
}

#[test]
fn duplicate_mentions_compile_once() {
    let text = "does not apply to any vehicle on the premises of a waste site";
    let tree = compile_law(
        &[
            mention("AppliesTo", &["waste"], text),
            mention("AppliesTo", &["waste"], text),
            mention("AppliesTo", &["waste"], text),
        ],
        &dims(),
        &LawContext::default(),
    )
    .unwrap();
    assert_eq!(tree, m("material", &["waste"]));
}

#[test]
fn provision_sunset_and_non_commencement_dates_ignored() {
    // UK_anaw_2017_2: `to 2017-04-15` came from a provision-level "ceases to have effect"
    let tree = compile_law(
        &[
            mention("AppliesTo", &["employer"], "Every employer shall"),
            mention("AppliesTo", &["2017-04-03"], "The following provisions come into force on the day on which this Act receives Royal Assent—"),
            mention("DisappliesTo", &["2017-04-15"], "the prohibition imposed under subsection (3)(c) ceases to have effect"),
            mention("AppliesTo", &["2021-03-04"], "No regulations may be made under section 1(1) after the end of the period"),
        ],
        &dims(),
        &LawContext::default(),
    )
    .unwrap();
    assert_eq!(tree, m("personal", &["employer"]));
}

#[test]
fn law_commencement_earliest_and_law_sunset_kept() {
    let tree = compile_law(
        &[
            mention("AppliesTo", &["employer"], "Every employer shall"),
            mention("AppliesTo", &["2024-10-01"], "These Regulations come into force on 1st October 2024 except regulation 5"),
            mention("AppliesTo", &["2024-04-06"], "This regulation and regulation 3 of these Regulations come into force on 6th April 2024"),
            mention("DisappliesTo", &["2029-10-01"], "These Regulations cease to have effect on 1st October 2029."),
        ],
        &dims(),
        &LawContext::default(),
    )
    .unwrap();
    assert_eq!(
        tree,
        ApplicabilityNode::and(vec![
            m("personal", &["employer"]),
            ApplicabilityNode::time_window(Some("2024-04-06"), Some("2029-10-01")),
        ])
    );
}

#[test]
fn sunset_before_commencement_dropped() {
    let tree = compile_law(
        &[
            mention("AppliesTo", &["employer"], "Every employer shall"),
            mention("AppliesTo", &["2024-10-01"], "These Regulations come into force on 1st October 2024"),
            mention("DisappliesTo", &["2020-01-01"], "These Regulations cease to have effect on 1st January 2020"),
        ],
        &dims(),
        &LawContext::default(),
    )
    .unwrap();
    assert_eq!(
        tree,
        ApplicabilityNode::and(vec![
            m("personal", &["employer"]),
            ApplicabilityNode::time_window(Some("2024-10-01"), None),
        ])
    );
}

#[test]
fn disapplies_conflicting_with_applies_filtered() {
    let tree = compile_law(
        &[
            mention("AppliesTo", &["construction work"], "These Regulations apply to construction work"),
            mention("DisappliesTo", &["construction work"], "Regulation 9 does not apply to construction work on domestic premises"),
            mention("DisappliesTo", &["waste"], "These Regulations do not apply to waste"),
            mention("DisappliesTo", &["employer"], "Regulation 5 does not apply to an employer of fewer than 5"),
        ],
        &dims(),
        &LawContext::default(),
    )
    .unwrap();
    assert_eq!(
        tree,
        ApplicabilityNode::and(vec![m("material", &["construction_work"]), m("material", &["waste"]).negate()])
    );
}

#[test]
fn nothing_grounded_returns_none() {
    let tree = compile_law(
        &[mention("AppliesTo", &["construction"], "This section does not apply to regulations under section 51.")],
        &dims(),
        &LawContext::default(),
    );
    assert!(tree.is_none());
}

#[test]
fn compiled_tree_is_already_normal() {
    let ctx = LawContext { application: Some(vec!["scotland".into()]), ..Default::default() };
    let tree = compile_law(
        &[
            mention("AppliesTo", &["waste", "employer"], "These Regulations apply to every employer handling waste"),
            mention("AppliesTo", &["employer"], "These Regulations apply to every employer"),
            mention("AppliesTo", &["2015-04-01"], "These Regulations come into force on 1st April 2015"),
        ],
        &dims(),
        &ctx,
    )
    .unwrap();
    assert_eq!(tree.clone().normalize(), tree);
}

#[test]
fn repaired_tree_keeps_no_end_date_or_government_code() {
    let tree = ApplicabilityNode::and(vec![
        m("personal", &["local_authority", "employer"]),
        ApplicabilityNode::time_window(Some("2015-04-01"), Some("2020-01-01")),
    ]);
    let ctx = LawContext { application: Some(vec!["scotland".into()]), ..Default::default() };
    let repaired = repair_tree(tree, &ctx).unwrap();
    assert_eq!(
        repaired,
        ApplicabilityNode::and(vec![
            m("territorial", &["scotland"]),
            m("personal", &["employer"]),
            ApplicabilityNode::time_window(Some("2015-04-01"), None),
        ])
    );
}
