use std::collections::HashMap;

use fractalaw_taxa::law_drrp::{aggregate, ancestors, is_amendment_instruction, ActorSignal, LawDrrp, Verdict};


fn sig(sid: &str, label: &str, drrp: &str) -> ActorSignal {
    ActorSignal { section_id: sid.into(), actor_label: label.into(), drrp: drrp.into() }
}

#[test]
fn law_drrp_ancestors_strip_brackets() {
    assert_eq!(ancestors("L:reg.2(3)(a)(ii)"), vec!["L:reg.2(3)(a)", "L:reg.2(3)", "L:reg.2"]);
    assert!(ancestors("L:sch.2.para.226").is_empty());
}

#[test]
fn law_drrp_amendment_instructions() {
    assert!(is_amendment_instruction("After section 97B of the 1968 Act insert—"));
    assert!(is_amendment_instruction("in subsection (5), for “the duty imposed by subsection (1)” substitute “a duty”"));
    assert!(is_amendment_instruction("for sub paragraphs (1) and (2) there is substituted– Subject to sub paragraph (3) below, it shall be an offence"));
    assert!(is_amendment_instruction("The Environmental Protection Act 1990 is amended as follows."));
    assert!(is_amendment_instruction("In regulation 65 (offences), omit paragraph (b)."));
    assert!(!is_amendment_instruction("A person has a duty to provide information to SEPA in writing"));
    assert!(!is_amendment_instruction("Every employer shall ensure that a suitable notice is displayed"));
}

#[test]
fn inserted_duties_excluded_own_duties_kept() {
    // UK_ssi_2012_148-like: duty inside an 'insert—' subtree; UK_ssi_2010_435-like own duty
    let texts: HashMap<&str, &str> = [
        ("L:reg.2(3)", "In section 34 (duty of care etc. as respects waste)—"),
        ("L:reg.2(3)(a)", "in subsection (2), after paragraph (aa) insert—"),
        ("L:reg.2(3)(a)(ii)", "to prevent any contravention by any other person"),
        ("L:reg.5(1)", "A person has a duty to provide information to SEPA in writing"),
    ]
    .into_iter()
    .collect();
    let law = aggregate(
        &[sig("L:reg.2(3)(a)(ii)", "Ind: Person", "Obligation"), sig("L:reg.5(1)", "Ind: Person", "Obligation")],
        |s| texts.get(s).map(|t| t.to_string()),
    );
    assert_eq!(law.excluded_amendment, 1);
    assert_eq!(law.duties.len(), 1);
    assert_eq!(law.duties[0].3, "reg.5(1)");
    assert_eq!(law.verdict(), Verdict::Making);
}

#[test]
fn government_obligations_are_responsibilities() {
    let law = aggregate(
        &[sig("L:reg.3(3)", "Gvt: Devolved Admin", "Obligation"), sig("L:reg.3(1)", "Gvt: Devolved Admin", "Liberty")],
        |_| Some("The National Assembly must consult".into()),
    );
    assert_eq!(law.responsibilities.len(), 1);
    assert_eq!(law.powers.len(), 1);
    assert!(law.duty_types.contains("Responsibility") && law.duty_types.contains("Power"));
    assert_eq!(law.verdict(), Verdict::Making);
}

#[test]
fn verdicts() {
    let rights_only = aggregate(&[sig("L:reg.2", "Operator", "Liberty")], |_| Some("may make available".into()));
    assert_eq!(rights_only.verdict(), Verdict::Empowering);
    let none = aggregate(&[sig("L:reg.2", "Operator", "none")], |_| Some("definitions".into()));
    assert_eq!(none.verdict(), Verdict::NoObligations);
    assert_eq!(none, LawDrrp::default());
}
