use fractalaw_taxa::clause_structure::{Modal, Qualifier, decompose};
use fractalaw_taxa::duty_patterns::MatchSpan;

#[test]
fn direct_shall() {
    let clause =
        "Every employer shall ensure that personal protective equipment is compatible.";
    let cs = decompose(clause, None).unwrap();
    assert_eq!(cs.modal, Modal::Shall);
    assert!(cs.applicability.is_none());
    assert!(cs.qualifiers.is_empty());
    assert!(cs.action.starts_with("ensure that"));
}

#[test]
fn direct_must_not() {
    let clause = "A person must not damage, interfere with, or obstruct an eel pass.";
    let cs = decompose(clause, None).unwrap();
    assert_eq!(cs.modal, Modal::MustNot);
    assert!(cs.applicability.is_none());
    assert!(cs.action.starts_with("damage"));
}

#[test]
fn qualified_sfairp() {
    let clause = "Each employer shall ensure, so far as is reasonably practicable, the safety of employees.";
    let cs = decompose(clause, None).unwrap();
    assert_eq!(cs.modal, Modal::Shall);
    assert!(cs.qualifiers.contains(&Qualifier::Sfairp));
    assert!(cs.action.starts_with("ensure"));
}

#[test]
fn conditional_lead() {
    let clause = "Where a dangerous substance is present at the workplace, the employer shall make a suitable and sufficient assessment of the risks.";
    let cs = decompose(clause, None).unwrap();
    assert_eq!(cs.modal, Modal::Shall);
    assert!(cs.applicability.is_some());
    assert!(
        cs.applicability
            .as_ref()
            .unwrap()
            .starts_with("Where a dangerous substance")
    );
    assert!(cs.qualifiers.contains(&Qualifier::SuitableAndSufficient));
    assert!(cs.action.starts_with("make a"));
}

#[test]
fn reverse_duty() {
    let clause = "It shall be the duty of each licensing authority to establish and maintain a register.";
    let cs = decompose(clause, None).unwrap();
    assert_eq!(cs.modal, Modal::HasDutyTo);
    assert!(cs.action.starts_with("establish and maintain"));
}

#[test]
fn with_span() {
    let clause = "The operator shall immediately notify the Agency of any obstruction.";
    // "The operator shall..."
    //  0123456789012345678
    //  ^actor=4   ^modal=13..18
    let span = MatchSpan {
        actor_start: 4,
        modal_start: 13,
        modal_end: 18,
    };
    let cs = decompose(clause, Some(span)).unwrap();
    assert_eq!(cs.modal, Modal::Shall);
    assert!(cs.qualifiers.contains(&Qualifier::Immediately));
}

#[test]
fn multiple_qualifiers() {
    let clause = "The employer shall immediately provide, in writing, a suitable and sufficient assessment.";
    let cs = decompose(clause, None).unwrap();
    assert_eq!(cs.modal, Modal::Shall);
    assert!(cs.qualifiers.contains(&Qualifier::Immediately));
    assert!(cs.qualifiers.contains(&Qualifier::InWriting));
    assert!(cs.qualifiers.contains(&Qualifier::SuitableAndSufficient));
}

#[test]
fn is_required_to() {
    let clause = "The operator is required to maintain records of all inspections.";
    let cs = decompose(clause, None).unwrap();
    assert_eq!(cs.modal, Modal::IsRequiredTo);
    assert!(cs.action.starts_with("maintain records"));
}

#[test]
fn may_permissive() {
    let clause = "An operator may apply to the regulator for the variation of conditions.";
    let cs = decompose(clause, None).unwrap();
    assert_eq!(cs.modal, Modal::May);
    assert!(cs.action.starts_with("apply to"));
}

#[test]
fn empty_clause_returns_none() {
    assert!(decompose("", None).is_none());
    assert!(decompose("   ", None).is_none());
}

#[test]
fn no_modal_returns_none() {
    assert!(decompose("Citation and commencement.", None).is_none());
}

#[test]
fn conditional_with_qualifier() {
    let clause = "Where the employer employs five or more employees, the employer shall record, in writing, the significant findings of the assessment.";
    let cs = decompose(clause, None).unwrap();
    assert!(cs.applicability.is_some());
    assert!(cs.qualifiers.contains(&Qualifier::InWriting));
    assert_eq!(cs.modal, Modal::Shall);
}
