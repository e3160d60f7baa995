use fractalaw_taxa::applicability::ApplicabilityNode;

fn m(dim: &str, codes: &[&str]) -> ApplicabilityNode {
    ApplicabilityNode::match_any(dim, codes.iter().map(|c| c.to_string()).collect())
}

#[test]
fn normalize_removes_duplicate_siblings() {
    let branch = ApplicabilityNode::and(vec![m("material", &["vehicle"]), m("territorial", &["premises"])]);
    let tree = ApplicabilityNode::or(vec![branch.clone(), branch.clone(), branch.clone()]);
    assert_eq!(tree.normalize(), branch);
}

#[test]
fn normalize_merges_or_matches_on_same_dimension() {
    let tree = ApplicabilityNode::or(vec![
        m("personal", &["employer"]),
        m("material", &["waste"]),
        m("personal", &["employee", "employer"]),
    ]);
    assert_eq!(
        tree.normalize(),
        ApplicabilityNode::or(vec![m("personal", &["employee", "employer"]), m("material", &["waste"])])
    );
}

#[test]
fn normalize_does_not_merge_and_matches() {
    // And(AnyOf a, AnyOf b) is not AnyOf(a ∪ b): leave both.
    let tree = ApplicabilityNode::and(vec![m("personal", &["employer"]), m("personal", &["operator"])]);
    assert_eq!(tree.clone().normalize(), tree);
}

#[test]
fn normalize_flattens_nested_same_op_and_single_child() {
    let tree = ApplicabilityNode::And {
        children: vec![
            ApplicabilityNode::And { children: vec![m("personal", &["employer"])] },
            ApplicabilityNode::Or { children: vec![m("material", &["waste"])] },
        ],
    };
    assert_eq!(
        tree.normalize(),
        ApplicabilityNode::and(vec![m("personal", &["employer"]), m("material", &["waste"])])
    );
}

#[test]
fn normalize_double_negation_and_code_order() {
    let tree = m("material", &["waste", "asbestos", "waste"]).negate().negate();
    assert_eq!(tree.normalize(), m("material", &["asbestos", "waste"]));
}

#[test]
fn single_child_and_flattens() {
    let tree = ApplicabilityNode::and(vec![
        ApplicabilityNode::match_any("personal", vec!["employer".into()]),
    ]);
    match tree {
        ApplicabilityNode::Match { .. } => {} // flattened to Match, not And
        _ => panic!("single-child And should flatten"),
    }
}

#[test]
fn normalize_twice_equals_once() {
    let tree = ApplicabilityNode::Or {
        children: vec![
            ApplicabilityNode::Or { children: vec![m("personal", &["operator", "employer"]), m("material", &["waste"])] },
            m("personal", &["employee", "employer"]),
            m("material", &["waste"]).negate().negate(),
            ApplicabilityNode::And { children: vec![m("territorial", &["premises"])] },
        ],
    };
    let once = tree.normalize();
    let twice = once.clone().normalize();
    assert_eq!(twice, once);
    assert_eq!(
        once,
        ApplicabilityNode::or(vec![
            m("personal", &["employee", "employer", "operator"]),
            m("material", &["waste"]),
            m("territorial", &["premises"]),
        ])
    );
}
