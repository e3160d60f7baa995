//! Purpose classification: WHAT a provision does (function-based), as opposed
//! to duty types, which say WHO bears obligations. Fifteen purpose labels,
//! using `+` as separator.

use vstd::prelude::*;
use crate::order::{count_of, distinct_labels, lemma_order_by, lemma_order_by_stable, order_by, order_by_labels, rank_in, str_views, with_rank};
use crate::rx::{is_match, is_match_spec};
use crate::text::{contains_seq, contains_str};

verus! {

pub const ENACTMENT: &'static str = "Enactment+Citation+Commencement";
pub const INTERPRETATION: &'static str = "Interpretation+Definition";
pub const APPLICATION_SCOPE: &'static str = "Application+Scope";
pub const EXTENT: &'static str = "Extent";
pub const EXEMPTION: &'static str = "Exemption";
pub const PROCESS_RULE: &'static str = "Process+Rule+Constraint+Condition";
pub const POWER_CONFERRED: &'static str = "Power Conferred";
pub const CHARGE_FEE: &'static str = "Charge+Fee";
pub const OFFENCE: &'static str = "Offence";
pub const ENFORCEMENT: &'static str = "Enforcement+Prosecution";
pub const DEFENCE_APPEAL: &'static str = "Defence+Appeal";
pub const LIABILITY: &'static str = "Liability";
pub const REPEAL_REVOCATION: &'static str = "Repeal+Revocation";
pub const AMENDMENT: &'static str = "Amendment";
pub const TRANSITIONAL: &'static str = "Transitional Arrangement";

/// All purpose labels in priority order.
pub open spec fn all_purposes_spec() -> Seq<&'static str> {
    seq![ENACTMENT, INTERPRETATION, APPLICATION_SCOPE, EXTENT, EXEMPTION, PROCESS_RULE, POWER_CONFERRED, CHARGE_FEE, OFFENCE, ENFORCEMENT, DEFENCE_APPEAL, LIABILITY, REPEAL_REVOCATION, AMENDMENT, TRANSITIONAL]
}

pub fn all_purposes() -> (r: Vec<&'static str>)
    ensures
        r@ == all_purposes_spec(),
{
    vec![ENACTMENT, INTERPRETATION, APPLICATION_SCOPE, EXTENT, EXEMPTION, PROCESS_RULE, POWER_CONFERRED, CHARGE_FEE, OFFENCE, ENFORCEMENT, DEFENCE_APPEAL, LIABILITY, REPEAL_REVOCATION, AMENDMENT, TRANSITIONAL]
}

/// (purpose, pattern) pairs, in priority order.
pub open spec fn patterns_spec() -> Seq<(&'static str, &'static str)> {
    seq![
        (ENACTMENT, r"(?i)(?:(?:Act|Regulations?|Order) may be cited as|(?:Act|Regulations?|Order).*?shall have effect|(?:Act|Regulations?|Order) shall come into (?:force|operation)|comes? into force|has effect.*?on or after|commencement)"),
        (INTERPRETATION, r#"(?i)(?:[A-Za-z\d ][""\u{201c}].*?(?:means|includes|does not include|is (?:information|the)|are|to be read as|are references to|consists)|[""\u{201c}].*?[""\u{201d}] is|In thi?e?se? [Rr]egulations?.*?[\u{2014}\u{2014}\u{2014}]|has?v?e? the (?:same )?(?:respective )?meanings?|[Ff]or the purposes? of (?:this Act|determining|these Regulations)|(?:any reference|references?).*?to|[Ii]nterpretation|for the meaning of)"#),
        (APPLICATION_SCOPE, r"(?i)(?:Application|(?:Act|Part|Chapter|[Ss]ections?|[Rr]egulations?|[Pp]aragraphs?|Article).*?apply?i?e?s?|(?:Act|Part|Chapter|[Ss]ections?|[Rr]egulations?|[Pp]aragraphs?|[Ss]chedules?).*?has effect|does not apply|shall.*?apply|shall have effect|shall have no effect|ceases to have effect|provisions of.*?apply|apply to any work outside|apply to a self-employed person|shall bind the Crown)"),
        (EXTENT, r"(?i)(?:(?:Act|Regulation|section)(?: does not | do not | )extends? to|(?:Act|Regulations?|Section).*?extends? (?:only )?to|[Oo]nly.*?extend to|do not extend to|shall not (?:extend|apply) to (?:Scotland|Wales|Northern Ireland))"),
        (EXEMPTION, r"(?i)(?:shall not apply in any case where|by a certificate in writing exempt|\bexemption\b)"),
        (PROCESS_RULE, r"(?i)(?:\bshall\b|\bmust\b|\brequired\b|\brequirements?\b|\bobligations?\b|\bprocedures?\b|\brules?\b|\bconditions?\b|\bduty\b|\bduties\b|\bcomply\b|\bprohibited\b|\bpermitted\b|\bmay not\b|\bstandards?\b|\bensure\b|\bmaintain\b|\bresponsible\b)"),
        (POWER_CONFERRED, r"(?i)(?:functions.*(?:exercis(?:ed|able)|conferred)|exercising.*functions|power to make regulations|[Tt]he power under (?:subsection))"),
        (CHARGE_FEE, r"(?i)(?:fees and charges|(?:fees?|charges?).*?(?:paid|payable)|by the (?:fee|charge)|failed to pay a (?:fee|charge)|fee.*?may not exceed|may charge.*?a fee|[Aa] fee charged)"),
        (OFFENCE, r"(?i)(?:[Oo]ffences?[\s.,\u{2014}:]|(?:[Ff]ixed|liable to a) penalty)"),
        (ENFORCEMENT, r"(?i)(?:proceedings|conviction)"),
        (DEFENCE_APPEAL, r"(?i)(?:\b[Aa]ppeal\b|[Ii]t is a defence for a|may not rely on a defence|shall not be (?:guilty|liable)|[Ii]t shall (?:also )?.*?be a defence|rebuttable)"),
        (LIABILITY, r"(?i)(?:\bliability\b|\bliable\b)"),
        (REPEAL_REVOCATION, r"(?i)(?:\.\s+\.\s+\.\s+\.\s+\.\s+\.\s+\.|(?:revoked|repealed)|(?:[Rr]epeals|revocations)|following Acts shall cease to have effect)"),
        (AMENDMENT, r"(?i)(?:shall be inserted|there is inserted|insert the following after|shall be (?:inserted|substituted) the words|for.*?substitute|omit the (?:words?|entr(?:y|ies))|shall be amended|[Aa]mendments?|[Aa]mended as follows)"),
        (TRANSITIONAL, r"(?i)(?:transitional provision|transitional arrangements?)"),
    ]
}

fn patterns() -> (r: Vec<(&'static str, &'static str)>)
    ensures
        r@ == patterns_spec(),
{
    vec![
        (ENACTMENT, r"(?i)(?:(?:Act|Regulations?|Order) may be cited as|(?:Act|Regulations?|Order).*?shall have effect|(?:Act|Regulations?|Order) shall come into (?:force|operation)|comes? into force|has effect.*?on or after|commencement)"),
        (INTERPRETATION, r#"(?i)(?:[A-Za-z\d ][""\u{201c}].*?(?:means|includes|does not include|is (?:information|the)|are|to be read as|are references to|consists)|[""\u{201c}].*?[""\u{201d}] is|In thi?e?se? [Rr]egulations?.*?[\u{2014}\u{2014}\u{2014}]|has?v?e? the (?:same )?(?:respective )?meanings?|[Ff]or the purposes? of (?:this Act|determining|these Regulations)|(?:any reference|references?).*?to|[Ii]nterpretation|for the meaning of)"#),
        (APPLICATION_SCOPE, r"(?i)(?:Application|(?:Act|Part|Chapter|[Ss]ections?|[Rr]egulations?|[Pp]aragraphs?|Article).*?apply?i?e?s?|(?:Act|Part|Chapter|[Ss]ections?|[Rr]egulations?|[Pp]aragraphs?|[Ss]chedules?).*?has effect|does not apply|shall.*?apply|shall have effect|shall have no effect|ceases to have effect|provisions of.*?apply|apply to any work outside|apply to a self-employed person|shall bind the Crown)"),
        (EXTENT, r"(?i)(?:(?:Act|Regulation|section)(?: does not | do not | )extends? to|(?:Act|Regulations?|Section).*?extends? (?:only )?to|[Oo]nly.*?extend to|do not extend to|shall not (?:extend|apply) to (?:Scotland|Wales|Northern Ireland))"),
        (EXEMPTION, r"(?i)(?:shall not apply in any case where|by a certificate in writing exempt|\bexemption\b)"),
        (PROCESS_RULE, r"(?i)(?:\bshall\b|\bmust\b|\brequired\b|\brequirements?\b|\bobligations?\b|\bprocedures?\b|\brules?\b|\bconditions?\b|\bduty\b|\bduties\b|\bcomply\b|\bprohibited\b|\bpermitted\b|\bmay not\b|\bstandards?\b|\bensure\b|\bmaintain\b|\bresponsible\b)"),
        (POWER_CONFERRED, r"(?i)(?:functions.*(?:exercis(?:ed|able)|conferred)|exercising.*functions|power to make regulations|[Tt]he power under (?:subsection))"),
        (CHARGE_FEE, r"(?i)(?:fees and charges|(?:fees?|charges?).*?(?:paid|payable)|by the (?:fee|charge)|failed to pay a (?:fee|charge)|fee.*?may not exceed|may charge.*?a fee|[Aa] fee charged)"),
        (OFFENCE, r"(?i)(?:[Oo]ffences?[\s.,\u{2014}:]|(?:[Ff]ixed|liable to a) penalty)"),
        (ENFORCEMENT, r"(?i)(?:proceedings|conviction)"),
        (DEFENCE_APPEAL, r"(?i)(?:\b[Aa]ppeal\b|[Ii]t is a defence for a|may not rely on a defence|shall not be (?:guilty|liable)|[Ii]t shall (?:also )?.*?be a defence|rebuttable)"),
        (LIABILITY, r"(?i)(?:\bliability\b|\bliable\b)"),
        (REPEAL_REVOCATION, r"(?i)(?:\.\s+\.\s+\.\s+\.\s+\.\s+\.\s+\.|(?:revoked|repealed)|(?:[Rr]epeals|revocations)|following Acts shall cease to have effect)"),
        (AMENDMENT, r"(?i)(?:shall be inserted|there is inserted|insert the following after|shall be (?:inserted|substituted) the words|for.*?substitute|omit the (?:words?|entr(?:y|ies))|shall be amended|[Aa]mendments?|[Aa]mended as follows)"),
        (TRANSITIONAL, r"(?i)(?:transitional provision|transitional arrangements?)"),
    ]
}

/// The labels of the table entries whose pattern matches `text`, in table order.
pub open spec fn matched_labels(table: Seq<(&'static str, &'static str)>, text: Seq<char>) -> Seq<Seq<char>>
    decreases table.len(),
{
    if table.len() == 0 {
        seq![]
    } else if is_match_spec(table.last().1@, text) {
        matched_labels(table.drop_last(), text).push(table.last().0@)
    } else {
        matched_labels(table.drop_last(), text)
    }
}

/// The labels of a pattern table, in table order.
pub open spec fn table_labels(table: Seq<(&'static str, &'static str)>) -> Seq<Seq<char>> {
    Seq::new(table.len(), |i: int| table[i].0@)
}

/// The indices of the table entries whose pattern matches `text`, in order.
pub open spec fn matched_indices(table: Seq<(&'static str, &'static str)>, text: Seq<char>) -> Seq<int>
    decreases table.len(),
{
    if table.len() == 0 {
        seq![]
    } else if is_match_spec(table.last().1@, text) {
        matched_indices(table.drop_last(), text).push(table.len() - 1)
    } else {
        matched_indices(table.drop_last(), text)
    }
}

/// The matched labels are the labels of the matching entries, each entry
/// once, in table order; with distinct table labels no label comes twice.
pub proof fn lemma_matched_labels(table: Seq<(&'static str, &'static str)>, text: Seq<char>)
    ensures
        ({
            let ks = matched_indices(table, text);
            let r = matched_labels(table, text);
            &&& r.len() == ks.len()
            &&& forall|i: int| 0 <= i < ks.len() ==> 0 <= #[trigger] ks[i] < table.len()
                && r[i] == table[ks[i]].0@ && is_match_spec(table[ks[i]].1@, text)
            &&& forall|i: int, j: int| 0 <= i < j < ks.len() ==> #[trigger] ks[i] < #[trigger] ks[j]
            &&& forall|k: int| 0 <= k < table.len() && is_match_spec(table[k].1@, text)
                ==> exists|i: int| 0 <= i < ks.len() && #[trigger] ks[i] == k
            &&& (forall|a: int, b: int| 0 <= a < b < table.len() ==> #[trigger] table[a].0@ != #[trigger] table[b].0@)
                ==> forall|i: int, j: int| 0 <= i < j < r.len() ==> #[trigger] r[i] != #[trigger] r[j]
        }),
    decreases table.len(),
{
    if table.len() > 0 {
        let init = table.drop_last();
        lemma_matched_labels(init, text);
        let k0 = matched_indices(init, text);
        let r0 = matched_labels(init, text);
        let ks = matched_indices(table, text);
        let r = matched_labels(table, text);
        assert forall|i: int| 0 <= i < k0.len() implies table[k0[i]] == init[k0[i]] by {}
        assert forall|k: int| 0 <= k < table.len() && is_match_spec(table[k].1@, text)
            implies exists|i: int| 0 <= i < ks.len() && #[trigger] ks[i] == k by {
            if k < init.len() {
                assert(init[k] == table[k]);
                let i = choose|i: int| 0 <= i < k0.len() && #[trigger] k0[i] == k;
                assert(ks[i] == k0[i]);
            } else {
                assert(ks[ks.len() - 1] == k);
            }
        }
        if forall|a: int, b: int| 0 <= a < b < table.len() ==> #[trigger] table[a].0@ != #[trigger] table[b].0@ {
            assert forall|a: int, b: int| 0 <= a < b < init.len() implies #[trigger] init[a].0@ != #[trigger] init[b].0@ by {
                assert(init[a] == table[a] && init[b] == table[b]);
            }
            assert forall|i: int, j: int| 0 <= i < j < r.len() implies #[trigger] r[i] != #[trigger] r[j] by {
                if j < r0.len() {
                    assert(r[i] == r0[i] && r[j] == r0[j]);
                } else {
                    assert(r[i] == table[ks[i]].0@);
                    assert(r[j] == table[table.len() - 1].0@);
                    assert(ks[i] < ks[j]);
                }
            }
        }
    }
}

/// The purpose labels of the pattern table are distinct.
pub proof fn lemma_purpose_labels_distinct()
    ensures
        forall|a: int, b: int| 0 <= a < b < patterns_spec().len() ==> #[trigger] patterns_spec()[a].0@ != #[trigger] patterns_spec()[b].0@,
{
    reveal_strlit("Enactment+Citation+Commencement");
    reveal_strlit("Interpretation+Definition");
    reveal_strlit("Application+Scope");
    reveal_strlit("Extent");
    reveal_strlit("Exemption");
    reveal_strlit("Process+Rule+Constraint+Condition");
    reveal_strlit("Power Conferred");
    reveal_strlit("Charge+Fee");
    reveal_strlit("Offence");
    reveal_strlit("Enforcement+Prosecution");
    reveal_strlit("Defence+Appeal");
    reveal_strlit("Liability");
    reveal_strlit("Repeal+Revocation");
    reveal_strlit("Amendment");
    reveal_strlit("Transitional Arrangement");
    let t = patterns_spec();
    assert forall|a: int, b: int| 0 <= a < b < t.len() implies #[trigger] t[a].0@ != #[trigger] t[b].0@ by {
        assert(t[a].0@.len() != t[b].0@.len() || t[a].0@[0] != t[b].0@[0] || t[a].0@[1] != t[b].0@[1]
            || t[a].0@[2] != t[b].0@[2]);
    }
}

/// What `classify` returns: nothing for empty text; else the purposes whose
/// pattern matches, each once, in priority order (the table's order, which is
/// [`all_purposes_spec`]'s), or Process+Rule alone when none matches.
pub proof fn lemma_classify_law(text: Seq<char>)
    ensures
        text.len() == 0 ==> classify_spec(text).len() == 0,
        text.len() > 0 && matched_indices(patterns_spec(), text).len() == 0 ==> classify_spec(text) == seq![PROCESS_RULE@],
        text.len() > 0 && matched_indices(patterns_spec(), text).len() > 0 ==> {
            let r = classify_spec(text);
            let ks = matched_indices(patterns_spec(), text);
            &&& r.len() == ks.len()
            &&& forall|i: int| 0 <= i < ks.len() ==> 0 <= #[trigger] ks[i] < all_purposes_spec().len()
                && r[i] == all_purposes_spec()[ks[i]]@ && is_match_spec(patterns_spec()[ks[i]].1@, text)
            &&& forall|i: int, j: int| 0 <= i < j < ks.len() ==> #[trigger] ks[i] < #[trigger] ks[j]
            &&& forall|k: int| 0 <= k < patterns_spec().len() && is_match_spec(patterns_spec()[k].1@, text)
                ==> exists|i: int| 0 <= i < ks.len() && #[trigger] ks[i] == k
            &&& forall|i: int, j: int| 0 <= i < j < r.len() ==> #[trigger] r[i] != #[trigger] r[j]
        },
{
    lemma_matched_labels(patterns_spec(), text);
    lemma_purpose_labels_distinct();
    assert forall|k: int| 0 <= k < patterns_spec().len() implies #[trigger] patterns_spec()[k].0 == all_purposes_spec()[k] by {}
}

/// `sort_purposes` is a stable permutation sorted by priority: every purpose
/// keeps its number of occurrences, each comes no earlier than one of higher
/// priority (labels outside the list last), and purposes of equal priority
/// keep their order.
pub proof fn lemma_sort_purposes(purposes: Seq<Seq<char>>)
    ensures
        ({
            let r = order_by(purposes, str_views(all_purposes_spec()));
            &&& r.len() == purposes.len()
            &&& forall|x: Seq<char>| #[trigger] count_of(r, x) == count_of(purposes, x)
            &&& forall|i: int, j: int| 0 <= i < j < r.len()
                ==> rank_in(str_views(all_purposes_spec()), #[trigger] r[i]) <= rank_in(str_views(all_purposes_spec()), #[trigger] r[j])
            &&& forall|k: int| #[trigger] with_rank(r, str_views(all_purposes_spec()), k)
                == with_rank(purposes, str_views(all_purposes_spec()), k)
        }),
{
    lemma_purpose_labels_distinct();
    let ls = str_views(all_purposes_spec());
    assert forall|a: int, b: int| 0 <= a < b < ls.len() implies #[trigger] ls[a] != #[trigger] ls[b] by {
        assert(ls[a] == patterns_spec()[a].0@ && ls[b] == patterns_spec()[b].0@);
    }
    assert(distinct_labels(ls));
    lemma_order_by(purposes, ls);
    assert forall|k: int| #[trigger] with_rank(order_by(purposes, ls), ls, k) == with_rank(purposes, ls, k) by {
        lemma_order_by_stable(purposes, ls, k);
    }
}

/// Labels of `table` whose pattern matches `text`, in table order.
pub fn match_table(table: &Vec<(&'static str, &'static str)>, text: &str) -> (r: Vec<&'static str>)
    ensures
        str_views(r@) == matched_labels(table@, text@),
{
    let mut out: Vec<&'static str> = Vec::new();
    let mut i: usize = 0;
    while i < table.len()
        invariant
            i <= table.len(),
            str_views(out@) == matched_labels(table@.take(i as int), text@),
        decreases table.len() - i,
    {
        proof {
            assert(table@.take(i + 1).drop_last() == table@.take(i as int));
            assert(table@.take(i + 1).last() == table@[i as int]);
        }
        if is_match(table[i].1, text) {
            let ghost o = str_views(out@);
            out.push(table[i].0);
            proof {
                assert(str_views(out@) =~= o.push(table@[i as int].0@));
            }
        }
        i += 1;
    }
    proof {
        assert(table@.take(table@.len() as int) == table@);
    }
    out
}

/// Purposes of `text`: every purpose whose pattern matches, in priority order;
/// Process+Rule when none matches; nothing for empty text.
pub open spec fn classify_spec(text: Seq<char>) -> Seq<Seq<char>> {
    if text.len() == 0 {
        seq![]
    } else if matched_labels(patterns_spec(), text).len() == 0 {
        seq![PROCESS_RULE@]
    } else {
        matched_labels(patterns_spec(), text)
    }
}

/// Classify legal text and return all matching purposes, in priority order.
/// Defaults to Process+Rule when no pattern matches.
pub fn classify(text: &str) -> (r: Vec<&'static str>)
    ensures
        str_views(r@) == classify_spec(text@),
{
    if text.is_empty() {
        return Vec::new();
    }
    let table = patterns();
    let mut result = match_table(&table, text);
    if result.len() == 0 {
        result.push(PROCESS_RULE);
        proof {
            assert(str_views(result@) =~= seq![PROCESS_RULE@]);
        }
    }
    result
}

/// Purpose of a law title by the first parenthesised marker it holds.
pub open spec fn classify_title_spec(title: Seq<char>) -> Seq<Seq<char>> {
    if title.len() == 0 {
        seq![]
    } else if contains_seq(title, "(Amendment"@) {
        seq![AMENDMENT@]
    } else if contains_seq(title, "(Revocation)"@) || contains_seq(title, "(Repeal)"@) {
        seq![REPEAL_REVOCATION@]
    } else if contains_seq(title, "(Commencement"@) {
        seq![ENACTMENT@]
    } else if contains_seq(title, "(Application)"@) {
        seq![APPLICATION_SCOPE@]
    } else if contains_seq(title, "(Transitional"@) {
        seq![TRANSITIONAL@]
    } else if contains_seq(title, "(Extent)"@) || contains_seq(title, "(Extension"@) {
        seq![EXTENT@]
    } else {
        seq![]
    }
}

/// Classify a law title to determine purpose (quick heuristic).
pub fn classify_title(title: &str) -> (r: Vec<&'static str>)
    ensures
        str_views(r@) == classify_title_spec(title@),
{
    let r: Vec<&'static str> = if title.is_empty() {
        Vec::new()
    } else if contains_str(title, "(Amendment") {
        vec![AMENDMENT]
    } else if contains_str(title, "(Revocation)") || contains_str(title, "(Repeal)") {
        vec![REPEAL_REVOCATION]
    } else if contains_str(title, "(Commencement") {
        vec![ENACTMENT]
    } else if contains_str(title, "(Application)") {
        vec![APPLICATION_SCOPE]
    } else if contains_str(title, "(Transitional") {
        vec![TRANSITIONAL]
    } else if contains_str(title, "(Extent)") || contains_str(title, "(Extension") {
        vec![EXTENT]
    } else {
        Vec::new()
    };
    proof {
        assert(str_views(r@) =~= classify_title_spec(title@));
    }
    r
}

/// Sort purposes by priority order (stable; labels outside the list last).
pub fn sort_purposes(purposes: &mut Vec<&str>)
    ensures
        str_views(final(purposes)@) == order_by(str_views(old(purposes)@), str_views(all_purposes_spec())),
{
    let labels = all_purposes();
    let sorted = order_by_labels(purposes, &labels);
    *purposes = sorted;
}

} // verus!
