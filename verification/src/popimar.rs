//! POPIMAR (Policy, Organisation, Planning, Implementation, Monitoring, Audit,
//! Review) classification: the type of management action a requirement mandates.

use vstd::prelude::*;
use crate::order::{contains_label, order_by, order_by_labels, str_views};
use crate::purpose::{lemma_matched_labels, match_table, matched_indices, matched_labels};
use crate::rx::is_match_spec;

verus! {

/// All sixteen POPIMAR categories in display/priority order.
pub open spec fn categories_spec() -> Seq<&'static str> {
    seq!["Policy", "Organisation", "Organisation - Control", "Organisation - Communication & Consultation", "Organisation - Collaboration, Coordination, Cooperation", "Organisation - Competence", "Organisation - Costs", "Records", "Permit, Authorisation, License", "Aspects and Hazards", "Planning & Risk / Impact Assessment", "Risk Control", "Notification", "Maintenance, Examination and Testing", "Checking, Monitoring", "Review"]
}

pub fn categories() -> (r: Vec<&'static str>)
    ensures
        r@ == categories_spec(),
{
    vec!["Policy", "Organisation", "Organisation - Control", "Organisation - Communication & Consultation", "Organisation - Collaboration, Coordination, Cooperation", "Organisation - Competence", "Organisation - Costs", "Records", "Permit, Authorisation, License", "Aspects and Hazards", "Planning & Risk / Impact Assessment", "Risk Control", "Notification", "Maintenance, Examination and Testing", "Checking, Monitoring", "Review"]
}

/// Duty types that trigger the Risk Control default.
pub open spec fn relevant_duty_types_spec() -> Seq<&'static str> {
    seq!["Duty", "Right", "Responsibility", "Discretionary", "Process, Rule, Constraint, Condition"]
}

fn relevant_duty_types() -> (r: Vec<&'static str>)
    ensures
        r@ == relevant_duty_types_spec(),
{
    vec!["Duty", "Right", "Responsibility", "Discretionary", "Process, Rule, Constraint, Condition"]
}

/// (category, pattern) pairs, one per category, in priority order.
pub open spec fn patterns_spec() -> Seq<(&'static str, &'static str)> {
    seq![
        ("Policy", r"(?i)(?:[Pp]olicy?i?e?s?|[Oo]bjectives?|[Ss]trateg)"),
        ("Organisation", r"(?i)(?:[Oo]rg.? chart|[Oo]rganisation chart|making of appointments?|(?:must|may|shall)\s?(?:jointly)?\s?appoint|person.*?appointed|appoint a person)"),
        ("Organisation - Control", r"(?i)(?:[Pp]rocess|[Pp]rocedure|[Ww]ork instruction|[Mm]ethod statement|[Ii]nstruction|comply?i?e?s? with.*?(?:duties|requirements)|is responsible for|has control over|(?:supervised?|supervising))"),
        ("Organisation - Communication & Consultation", r"(?i)(?:[Cc]ommunicat|[Cc]onsult|(?:send a copy of it|be sent) to|must identify to|publish a report|must (?:immediately )?inform|report to|(?:by|to) provide?i?n?g?.*?information|made available to (?:the public)|supplied (?:in writing|with a copy)|aware of the contents of)"),
        ("Organisation - Collaboration, Coordination, Cooperation", r"(?i)(?:[Cc]ollaborat|[Cc]oordinat|[Cc]ooperat)"),
        ("Organisation - Competence", r"(?i)(?:[Cc]ompeten(?:t|ce|cy)\s|[Tt]raining|[Ii]nformation, instruction and training|[Ii]nformation.*?provided to every person|provide.*?information|person satisfies the criteria|skills, knowledge and experience|organisational capability|instructe?d?)"),
        ("Organisation - Costs", r"(?i)(?:[Cc]ost[- ]benefit|[Nn]ett? cost|[Ff]ee[\s[:punct:]]|[Cc]harge|[Ff]inancial loss)"),
        ("Records", r"(?i)(?:(?:[Rr]ecord|[Rr]eport [^t]|[Rr]egister)|[Ll]ogbook|[Ii]nventory|[Dd]atabase|(?:[Ee]nforcement|[Pp]rohibition|[Ii]mprovement) notice|[Dd]ocuments?|(?:marke?d?i?n?g?|labelled)|must be kept|certificate|health and safety file)"),
        ("Permit, Authorisation, License", r"(?i)(?:[Pp]ermit[\s[:punct:]]|[Aa]uthorisation|[Aa]uthorised [^r]|[Ll]i[sc]en[sc]ed?|[Ll]i[sc]en[sc]ing)"),
        ("Aspects and Hazards", r"(?i)(?:[Aa]spects and impacts|[Hh]azard)"),
        ("Planning & Risk / Impact Assessment", r"(?i)(?:[Aa]nnual plan|[Ss]trategic plan|[Bb]usiness plan|[Pp]lan of work|construction phase plan|written plan|measures? to be specified in the plan|(?:project|action) plan|project is planned|[Ii]mpact [Aa]ssessment|[Rr]isk [Aa]ssessment|assessment of any risks|suitable and sufficient assessment|[Ii]n making the assessment|(?:reassess|reassessed|reassessment)|general principles of prevention|identify and eliminate)"),
        ("Risk Control", r"(?i)(?:avoid the need|suitable and sufficient steps|steps as are reasonable in the circumstances must be taken|taken? all reasonable steps|takes immediate steps|[Rr]isk [Cc]ontrol|control.*?risk|[Rr]isk mitigation|use the best available techniques not entailing excessive cost|eliminates.*?the risk|reduces? the risk|provided to.*?employees|provision and use of|safety management system|corrective measures?|meets the requirements?|standards for the construction|shall make full and proper use|measures?.*?specified.*?plan|take such measures)"),
        ("Notification", r"(?i)(?:given?.*?notice|accident report|[Nn]otify|[Nn]otification|[Aa]pplication for|publish.*?a notice)"),
        ("Maintenance, Examination and Testing", r"(?i)(?:[Mm]aintenance|[Mm]aintaine?d?|[Ee]xamination|[Tt]esting|[Ii]nspecti?o?n?e?d?)"),
        ("Checking, Monitoring", r"(?i)(?:[Cc]heck|[Mm]onitor|medical exam|at least once every.*?years|kept available for inspection)"),
        ("Review", r"(?i)(?:[Mm]anagement review|(?:[Rr]eviewed|is [Rr]evised)|(?:conduct|carry out|carrying out) (?:a|the) review|review the (?:assessment))"),
    ]
}

fn patterns() -> (r: Vec<(&'static str, &'static str)>)
    ensures
        r@ == patterns_spec(),
{
    vec![
        ("Policy", r"(?i)(?:[Pp]olicy?i?e?s?|[Oo]bjectives?|[Ss]trateg)"),
        ("Organisation", r"(?i)(?:[Oo]rg.? chart|[Oo]rganisation chart|making of appointments?|(?:must|may|shall)\s?(?:jointly)?\s?appoint|person.*?appointed|appoint a person)"),
        ("Organisation - Control", r"(?i)(?:[Pp]rocess|[Pp]rocedure|[Ww]ork instruction|[Mm]ethod statement|[Ii]nstruction|comply?i?e?s? with.*?(?:duties|requirements)|is responsible for|has control over|(?:supervised?|supervising))"),
        ("Organisation - Communication & Consultation", r"(?i)(?:[Cc]ommunicat|[Cc]onsult|(?:send a copy of it|be sent) to|must identify to|publish a report|must (?:immediately )?inform|report to|(?:by|to) provide?i?n?g?.*?information|made available to (?:the public)|supplied (?:in writing|with a copy)|aware of the contents of)"),
        ("Organisation - Collaboration, Coordination, Cooperation", r"(?i)(?:[Cc]ollaborat|[Cc]oordinat|[Cc]ooperat)"),
        ("Organisation - Competence", r"(?i)(?:[Cc]ompeten(?:t|ce|cy)\s|[Tt]raining|[Ii]nformation, instruction and training|[Ii]nformation.*?provided to every person|provide.*?information|person satisfies the criteria|skills, knowledge and experience|organisational capability|instructe?d?)"),
        ("Organisation - Costs", r"(?i)(?:[Cc]ost[- ]benefit|[Nn]ett? cost|[Ff]ee[\s[:punct:]]|[Cc]harge|[Ff]inancial loss)"),
        ("Records", r"(?i)(?:(?:[Rr]ecord|[Rr]eport [^t]|[Rr]egister)|[Ll]ogbook|[Ii]nventory|[Dd]atabase|(?:[Ee]nforcement|[Pp]rohibition|[Ii]mprovement) notice|[Dd]ocuments?|(?:marke?d?i?n?g?|labelled)|must be kept|certificate|health and safety file)"),
        ("Permit, Authorisation, License", r"(?i)(?:[Pp]ermit[\s[:punct:]]|[Aa]uthorisation|[Aa]uthorised [^r]|[Ll]i[sc]en[sc]ed?|[Ll]i[sc]en[sc]ing)"),
        ("Aspects and Hazards", r"(?i)(?:[Aa]spects and impacts|[Hh]azard)"),
        ("Planning & Risk / Impact Assessment", r"(?i)(?:[Aa]nnual plan|[Ss]trategic plan|[Bb]usiness plan|[Pp]lan of work|construction phase plan|written plan|measures? to be specified in the plan|(?:project|action) plan|project is planned|[Ii]mpact [Aa]ssessment|[Rr]isk [Aa]ssessment|assessment of any risks|suitable and sufficient assessment|[Ii]n making the assessment|(?:reassess|reassessed|reassessment)|general principles of prevention|identify and eliminate)"),
        ("Risk Control", r"(?i)(?:avoid the need|suitable and sufficient steps|steps as are reasonable in the circumstances must be taken|taken? all reasonable steps|takes immediate steps|[Rr]isk [Cc]ontrol|control.*?risk|[Rr]isk mitigation|use the best available techniques not entailing excessive cost|eliminates.*?the risk|reduces? the risk|provided to.*?employees|provision and use of|safety management system|corrective measures?|meets the requirements?|standards for the construction|shall make full and proper use|measures?.*?specified.*?plan|take such measures)"),
        ("Notification", r"(?i)(?:given?.*?notice|accident report|[Nn]otify|[Nn]otification|[Aa]pplication for|publish.*?a notice)"),
        ("Maintenance, Examination and Testing", r"(?i)(?:[Mm]aintenance|[Mm]aintaine?d?|[Ee]xamination|[Tt]esting|[Ii]nspecti?o?n?e?d?)"),
        ("Checking, Monitoring", r"(?i)(?:[Cc]heck|[Mm]onitor|medical exam|at least once every.*?years|kept available for inspection)"),
        ("Review", r"(?i)(?:[Mm]anagement review|(?:[Rr]eviewed|is [Rr]evised)|(?:conduct|carry out|carrying out) (?:a|the) review|review the (?:assessment))"),
    ]
}

/// Categories of `text`: those whose pattern matches, in priority order.
pub open spec fn classify_spec(text: Seq<char>) -> Seq<Seq<char>> {
    if text.len() == 0 {
        seq![]
    } else {
        matched_labels(patterns_spec(), text)
    }
}

/// The category labels of the pattern table are distinct.
pub proof fn lemma_category_labels_distinct()
    ensures
        forall|a: int, b: int| 0 <= a < b < patterns_spec().len() ==> #[trigger] patterns_spec()[a].0@ != #[trigger] patterns_spec()[b].0@,
{
    reveal_strlit("Policy");
    reveal_strlit("Organisation");
    reveal_strlit("Organisation - Control");
    reveal_strlit("Organisation - Communication & Consultation");
    reveal_strlit("Organisation - Collaboration, Coordination, Cooperation");
    reveal_strlit("Organisation - Competence");
    reveal_strlit("Organisation - Costs");
    reveal_strlit("Records");
    reveal_strlit("Permit, Authorisation, License");
    reveal_strlit("Aspects and Hazards");
    reveal_strlit("Planning & Risk / Impact Assessment");
    reveal_strlit("Risk Control");
    reveal_strlit("Notification");
    reveal_strlit("Maintenance, Examination and Testing");
    reveal_strlit("Checking, Monitoring");
    reveal_strlit("Review");
    let t = patterns_spec();
    assert forall|a: int, b: int| 0 <= a < b < t.len() implies #[trigger] t[a].0@ != #[trigger] t[b].0@ by {
        assert(t[a].0@.len() != t[b].0@.len() || t[a].0@[0] != t[b].0@[0]);
    }
}

/// What `classify` returns: nothing for empty text; else the categories whose
/// pattern matches, each once, in the table's priority order.
pub proof fn lemma_classify_law(text: Seq<char>)
    ensures
        text.len() == 0 ==> classify_spec(text).len() == 0,
        text.len() > 0 ==> {
            let r = classify_spec(text);
            let ks = matched_indices(patterns_spec(), text);
            &&& r.len() == ks.len()
            &&& forall|i: int| 0 <= i < ks.len() ==> 0 <= #[trigger] ks[i] < patterns_spec().len()
                && r[i] == patterns_spec()[ks[i]].0@ && is_match_spec(patterns_spec()[ks[i]].1@, text)
            &&& forall|i: int, j: int| 0 <= i < j < ks.len() ==> #[trigger] ks[i] < #[trigger] ks[j]
            &&& forall|k: int| 0 <= k < patterns_spec().len() && is_match_spec(patterns_spec()[k].1@, text)
                ==> exists|i: int| 0 <= i < ks.len() && #[trigger] ks[i] == k
            &&& forall|i: int, j: int| 0 <= i < j < r.len() ==> #[trigger] r[i] != #[trigger] r[j]
        },
{
    lemma_matched_labels(patterns_spec(), text);
    lemma_category_labels_distinct();
}

proof fn lemma_popimar_member(text: Seq<char>, k: int)
    requires
        text.len() > 0,
        0 <= k < patterns_spec().len(),
    ensures
        classify_spec(text).contains(patterns_spec()[k].0@) <==> is_match_spec(patterns_spec()[k].1@, text),
{
    lemma_classify_law(text);
    lemma_category_labels_distinct();
    let r = classify_spec(text);
    let ks = matched_indices(patterns_spec(), text);
    if is_match_spec(patterns_spec()[k].1@, text) {
        let i = choose|i: int| 0 <= i < ks.len() && #[trigger] ks[i] == k;
        assert(r[i] == patterns_spec()[k].0@);
    }
    if r.contains(patterns_spec()[k].0@) {
        let i = choose|i: int| 0 <= i < r.len() && r[i] == patterns_spec()[k].0@;
        let k2 = ks[i];
        assert(r[i] == patterns_spec()[k2].0@);
        if k2 != k {
            if k2 < k {
                assert(patterns_spec()[k2].0@ != patterns_spec()[k].0@);
            } else {
                assert(patterns_spec()[k].0@ != patterns_spec()[k2].0@);
            }
        }
    }
}

/// The POPIMAR categories of a non-empty text, each with the pattern that
/// decides it: a category is among the results exactly when the text matches
/// its pattern. "Aspects and Hazards", for one, is decided by "aspects and
/// impacts" or "hazard", in either case.
pub proof fn lemma_popimar_categories(text: Seq<char>)
    ensures
        text.len() > 0 ==> (classify_spec(text).contains("Policy"@) <==> is_match_spec(r"(?i)(?:[Pp]olicy?i?e?s?|[Oo]bjectives?|[Ss]trateg)"@, text)),
        text.len() > 0 ==> (classify_spec(text).contains("Organisation"@) <==> is_match_spec(r"(?i)(?:[Oo]rg.? chart|[Oo]rganisation chart|making of appointments?|(?:must|may|shall)\s?(?:jointly)?\s?appoint|person.*?appointed|appoint a person)"@, text)),
        text.len() > 0 ==> (classify_spec(text).contains("Organisation - Control"@) <==> is_match_spec(r"(?i)(?:[Pp]rocess|[Pp]rocedure|[Ww]ork instruction|[Mm]ethod statement|[Ii]nstruction|comply?i?e?s? with.*?(?:duties|requirements)|is responsible for|has control over|(?:supervised?|supervising))"@, text)),
        text.len() > 0 ==> (classify_spec(text).contains("Organisation - Communication & Consultation"@) <==> is_match_spec(r"(?i)(?:[Cc]ommunicat|[Cc]onsult|(?:send a copy of it|be sent) to|must identify to|publish a report|must (?:immediately )?inform|report to|(?:by|to) provide?i?n?g?.*?information|made available to (?:the public)|supplied (?:in writing|with a copy)|aware of the contents of)"@, text)),
        text.len() > 0 ==> (classify_spec(text).contains("Organisation - Collaboration, Coordination, Cooperation"@) <==> is_match_spec(r"(?i)(?:[Cc]ollaborat|[Cc]oordinat|[Cc]ooperat)"@, text)),
        text.len() > 0 ==> (classify_spec(text).contains("Organisation - Competence"@) <==> is_match_spec(r"(?i)(?:[Cc]ompeten(?:t|ce|cy)\s|[Tt]raining|[Ii]nformation, instruction and training|[Ii]nformation.*?provided to every person|provide.*?information|person satisfies the criteria|skills, knowledge and experience|organisational capability|instructe?d?)"@, text)),
        text.len() > 0 ==> (classify_spec(text).contains("Organisation - Costs"@) <==> is_match_spec(r"(?i)(?:[Cc]ost[- ]benefit|[Nn]ett? cost|[Ff]ee[\s[:punct:]]|[Cc]harge|[Ff]inancial loss)"@, text)),
        text.len() > 0 ==> (classify_spec(text).contains("Records"@) <==> is_match_spec(r"(?i)(?:(?:[Rr]ecord|[Rr]eport [^t]|[Rr]egister)|[Ll]ogbook|[Ii]nventory|[Dd]atabase|(?:[Ee]nforcement|[Pp]rohibition|[Ii]mprovement) notice|[Dd]ocuments?|(?:marke?d?i?n?g?|labelled)|must be kept|certificate|health and safety file)"@, text)),
        text.len() > 0 ==> (classify_spec(text).contains("Permit, Authorisation, License"@) <==> is_match_spec(r"(?i)(?:[Pp]ermit[\s[:punct:]]|[Aa]uthorisation|[Aa]uthorised [^r]|[Ll]i[sc]en[sc]ed?|[Ll]i[sc]en[sc]ing)"@, text)),
        text.len() > 0 ==> (classify_spec(text).contains("Aspects and Hazards"@) <==> is_match_spec(r"(?i)(?:[Aa]spects and impacts|[Hh]azard)"@, text)),
        text.len() > 0 ==> (classify_spec(text).contains("Planning & Risk / Impact Assessment"@) <==> is_match_spec(r"(?i)(?:[Aa]nnual plan|[Ss]trategic plan|[Bb]usiness plan|[Pp]lan of work|construction phase plan|written plan|measures? to be specified in the plan|(?:project|action) plan|project is planned|[Ii]mpact [Aa]ssessment|[Rr]isk [Aa]ssessment|assessment of any risks|suitable and sufficient assessment|[Ii]n making the assessment|(?:reassess|reassessed|reassessment)|general principles of prevention|identify and eliminate)"@, text)),
        text.len() > 0 ==> (classify_spec(text).contains("Risk Control"@) <==> is_match_spec(r"(?i)(?:avoid the need|suitable and sufficient steps|steps as are reasonable in the circumstances must be taken|taken? all reasonable steps|takes immediate steps|[Rr]isk [Cc]ontrol|control.*?risk|[Rr]isk mitigation|use the best available techniques not entailing excessive cost|eliminates.*?the risk|reduces? the risk|provided to.*?employees|provision and use of|safety management system|corrective measures?|meets the requirements?|standards for the construction|shall make full and proper use|measures?.*?specified.*?plan|take such measures)"@, text)),
        text.len() > 0 ==> (classify_spec(text).contains("Notification"@) <==> is_match_spec(r"(?i)(?:given?.*?notice|accident report|[Nn]otify|[Nn]otification|[Aa]pplication for|publish.*?a notice)"@, text)),
        text.len() > 0 ==> (classify_spec(text).contains("Maintenance, Examination and Testing"@) <==> is_match_spec(r"(?i)(?:[Mm]aintenance|[Mm]aintaine?d?|[Ee]xamination|[Tt]esting|[Ii]nspecti?o?n?e?d?)"@, text)),
        text.len() > 0 ==> (classify_spec(text).contains("Checking, Monitoring"@) <==> is_match_spec(r"(?i)(?:[Cc]heck|[Mm]onitor|medical exam|at least once every.*?years|kept available for inspection)"@, text)),
        text.len() > 0 ==> (classify_spec(text).contains("Review"@) <==> is_match_spec(r"(?i)(?:[Mm]anagement review|(?:[Rr]eviewed|is [Rr]evised)|(?:conduct|carry out|carrying out) (?:a|the) review|review the (?:assessment))"@, text)),
{
    if text.len() > 0 { lemma_popimar_member(text, 0); }
    if text.len() > 0 { lemma_popimar_member(text, 1); }
    if text.len() > 0 { lemma_popimar_member(text, 2); }
    if text.len() > 0 { lemma_popimar_member(text, 3); }
    if text.len() > 0 { lemma_popimar_member(text, 4); }
    if text.len() > 0 { lemma_popimar_member(text, 5); }
    if text.len() > 0 { lemma_popimar_member(text, 6); }
    if text.len() > 0 { lemma_popimar_member(text, 7); }
    if text.len() > 0 { lemma_popimar_member(text, 8); }
    if text.len() > 0 { lemma_popimar_member(text, 9); }
    if text.len() > 0 { lemma_popimar_member(text, 10); }
    if text.len() > 0 { lemma_popimar_member(text, 11); }
    if text.len() > 0 { lemma_popimar_member(text, 12); }
    if text.len() > 0 { lemma_popimar_member(text, 13); }
    if text.len() > 0 { lemma_popimar_member(text, 14); }
    if text.len() > 0 { lemma_popimar_member(text, 15); }
}

/// Classify text into POPIMAR categories, in priority order.
pub fn classify(text: &str) -> (r: Vec<&'static str>)
    ensures
        str_views(r@) == classify_spec(text@),
{
    if text.is_empty() {
        return Vec::new();
    }
    let table = patterns();
    match_table(&table, text)
}

/// Does any duty type appear in the relevant list?
pub open spec fn has_relevant_spec(duty_types: Seq<Seq<char>>) -> bool {
    exists|i: int| 0 <= i < duty_types.len() && str_views(relevant_duty_types_spec()).contains(#[trigger] duty_types[i])
}

fn has_relevant_duty_types(duty_types: &[&str]) -> (r: bool)
    ensures
        r == has_relevant_spec(str_views(duty_types@)),
{
    let rel = relevant_duty_types();
    let ghost dv = str_views(duty_types@);
    let mut i: usize = 0;
    while i < duty_types.len()
        invariant
            i <= duty_types.len(),
            rel@ == relevant_duty_types_spec(),
            dv == str_views(duty_types@),
            forall|j: int| 0 <= j < i ==> !str_views(relevant_duty_types_spec()).contains(#[trigger] dv[j]),
        decreases duty_types.len() - i,
    {
        if contains_label(&rel, duty_types[i]) {
            proof {
                assert(dv[i as int] == duty_types@[i as int]@);
            }
            return true;
        }
        i += 1;
    }
    false
}

/// Categories of `text`, or Risk Control alone when none matches and a relevant
/// duty type is present.
pub open spec fn classify_with_duty_types_spec(text: Seq<char>, duty_types: Seq<Seq<char>>) -> Seq<Seq<char>> {
    if classify_spec(text).len() == 0 && has_relevant_spec(duty_types) {
        seq!["Risk Control"@]
    } else {
        classify_spec(text)
    }
}

/// Classify text, defaulting to "Risk Control" if nothing matches but relevant
/// duty types are present.
pub fn classify_with_duty_types(text: &str, duty_types: &[&str]) -> (r: Vec<&'static str>)
    ensures
        str_views(r@) == classify_with_duty_types_spec(text@, str_views(duty_types@)),
{
    let result = classify(text);
    if result.len() == 0 && has_relevant_duty_types(duty_types) {
        let v = vec!["Risk Control"];
        proof {
            assert(str_views(v@) =~= seq!["Risk Control"@]);
        }
        v
    } else {
        result
    }
}

/// Sort categories by the canonical POPIMAR order (stable; unknown labels last).
pub fn sort_categories(cats: &mut Vec<&str>)
    ensures
        str_views(final(cats)@) == order_by(str_views(old(cats)@), str_views(categories_spec())),
{
    let labels = categories();
    let sorted = order_by_labels(cats, &labels);
    *cats = sorted;
}

} // verus!
