//! Clause structure decomposition: a refined clause split into a conditional
//! preamble (applicability), its modal verb, standard legal qualifiers, and the
//! action.

use vstd::prelude::*;
use crate::amendment::{last_index_of, lemma_last_index_of};
use crate::duty_patterns::MatchSpan;
use crate::rx::{find_first, first_group, first_group_spec, is_match, is_match_spec, spans_spec};
use crate::text::{from_range, is_ws, is_ws_exec, squash, squash_exec, str_lowercase, to_chars, to_lowercase, trim, trim_bounds, trim_str};

verus! {

/// Modal verb: obligation strength only, not the action verb.
#[derive(Debug, Clone, Copy, PartialEq, Eq, Structural, Hash)]
pub enum Modal {
    Shall,
    Must,
    May,
    ShallNot,
    MustNot,
    MayNot,
    IsRequiredTo,
    HasDutyTo,
}

impl Modal {
    pub fn as_str(&self) -> (r: &'static str)
        ensures
            r@ == match *self {
                Modal::Shall => "Shall"@,
                Modal::Must => "Must"@,
                Modal::May => "May"@,
                Modal::ShallNot => "ShallNot"@,
                Modal::MustNot => "MustNot"@,
                Modal::MayNot => "MayNot"@,
                Modal::IsRequiredTo => "IsRequiredTo"@,
                Modal::HasDutyTo => "HasDutyTo"@,
            },
    {
        match self {
            Modal::Shall => "Shall",
            Modal::Must => "Must",
            Modal::May => "May",
            Modal::ShallNot => "ShallNot",
            Modal::MustNot => "MustNot",
            Modal::MayNot => "MayNot",
            Modal::IsRequiredTo => "IsRequiredTo",
            Modal::HasDutyTo => "HasDutyTo",
        }
    }
}

/// Standard legal qualifier on an obligation.
#[derive(Debug, Clone, Copy, PartialEq, Eq, Structural, Hash)]
pub enum Qualifier {
    Sfairp,
    Sfaip,
    SuitableAndSufficient,
    AdequateAndAppropriate,
    Immediately,
    AsSoonAsReasonablyPracticable,
    AsSoonAsPracticable,
    WithoutDelay,
    WhereNecessary,
    WhereAppropriate,
    InWriting,
    InSoFarAs,
}

impl Qualifier {
    pub fn as_str(&self) -> (r: &'static str)
        ensures
            r@ == match *self {
                Qualifier::Sfairp => "Sfairp"@,
                Qualifier::Sfaip => "Sfaip"@,
                Qualifier::SuitableAndSufficient => "SuitableAndSufficient"@,
                Qualifier::AdequateAndAppropriate => "AdequateAndAppropriate"@,
                Qualifier::Immediately => "Immediately"@,
                Qualifier::AsSoonAsReasonablyPracticable => "AsSoonAsReasonablyPracticable"@,
                Qualifier::AsSoonAsPracticable => "AsSoonAsPracticable"@,
                Qualifier::WithoutDelay => "WithoutDelay"@,
                Qualifier::WhereNecessary => "WhereNecessary"@,
                Qualifier::WhereAppropriate => "WhereAppropriate"@,
                Qualifier::InWriting => "InWriting"@,
                Qualifier::InSoFarAs => "InSoFarAs"@,
            },
    {
        match self {
            Qualifier::Sfairp => "Sfairp",
            Qualifier::Sfaip => "Sfaip",
            Qualifier::SuitableAndSufficient => "SuitableAndSufficient",
            Qualifier::AdequateAndAppropriate => "AdequateAndAppropriate",
            Qualifier::Immediately => "Immediately",
            Qualifier::AsSoonAsReasonablyPracticable => "AsSoonAsReasonablyPracticable",
            Qualifier::AsSoonAsPracticable => "AsSoonAsPracticable",
            Qualifier::WithoutDelay => "WithoutDelay",
            Qualifier::WhereNecessary => "WhereNecessary",
            Qualifier::WhereAppropriate => "WhereAppropriate",
            Qualifier::InWriting => "InWriting",
            Qualifier::InSoFarAs => "InSoFarAs",
        }
    }
}

/// Decomposed structure of a legal clause.
#[derive(Debug, Clone)]
pub struct ClauseStructure {
    /// Conditional preamble, if any ("Where X applies...", "Subject to Y...").
    pub applicability: Option<String>,
    /// The modal verb.
    pub modal: Modal,
    /// Standard legal qualifiers modifying the obligation.
    pub qualifiers: Vec<Qualifier>,
    /// The core obligation or action.
    pub action: String,
}

/// (applicability, modal, qualifiers, action)
pub type ClauseView = (Option<Seq<char>>, Modal, Seq<Qualifier>, Seq<char>);

impl View for ClauseStructure {
    type V = ClauseView;

    open spec fn view(&self) -> ClauseView {
        (
            match self.applicability {
                Some(a) => Some(a@),
                None => None,
            },
            self.modal,
            self.qualifiers@,
            self.action@,
        )
    }
}

/// Modal verb pattern: negated forms before positive ones.
pub const MODAL_RE: &'static str = r"(?i)\b(shall\s+not|must\s+not|may\s+not|shall|must|may|(?:is|are)\s+required\s+to|has\s+a\s+duty\s+to)\b";
/// "It shall be the duty of [actor] to [action]".
pub const REVERSE_DUTY_RE: &'static str = r"(?i)\b[Ii]t\s+shall\s+be\s+the\s+duty\s+of\s+(.+?)\s+to\s+(.+)";
/// Conditional preamble at the start of the clause.
pub const CONDITIONAL_START_RE: &'static str = r"(?i)^(?:Where|When|If|Subject to)\b";

/// Qualifier patterns, most specific first.
pub open spec fn qualifier_patterns_spec() -> Seq<(&'static str, Qualifier)> {
    seq![
        (r"(?i)so far as is reasonably practicable", Qualifier::Sfairp),
        (r"(?i)so far as is practicable", Qualifier::Sfaip),
        (r"(?i)suitable and sufficient", Qualifier::SuitableAndSufficient),
        (r"(?i)adequate and appropriate", Qualifier::AdequateAndAppropriate),
        (r"(?i)as soon as (?:is )?reasonably practicable", Qualifier::AsSoonAsReasonablyPracticable),
        (r"(?i)as soon as (?:is )?practicable", Qualifier::AsSoonAsPracticable),
        (r"(?i)\bimmediately\b", Qualifier::Immediately),
        (r"(?i)without (?:undue |unreasonable )?delay", Qualifier::WithoutDelay),
        (r"(?i)\bwhere necessary\b", Qualifier::WhereNecessary),
        (r"(?i)\bwhere appropriate\b", Qualifier::WhereAppropriate),
        (r"(?i)\bin writing\b", Qualifier::InWriting),
        (r"(?i)(?:in )?so far as(?: is necessary)?", Qualifier::InSoFarAs),
    ]
}

fn qualifier_patterns() -> (r: Vec<(&'static str, Qualifier)>)
    ensures
        r@ == qualifier_patterns_spec(),
{
    vec![
        (r"(?i)so far as is reasonably practicable", Qualifier::Sfairp),
        (r"(?i)so far as is practicable", Qualifier::Sfaip),
        (r"(?i)suitable and sufficient", Qualifier::SuitableAndSufficient),
        (r"(?i)adequate and appropriate", Qualifier::AdequateAndAppropriate),
        (r"(?i)as soon as (?:is )?reasonably practicable", Qualifier::AsSoonAsReasonablyPracticable),
        (r"(?i)as soon as (?:is )?practicable", Qualifier::AsSoonAsPracticable),
        (r"(?i)\bimmediately\b", Qualifier::Immediately),
        (r"(?i)without (?:undue |unreasonable )?delay", Qualifier::WithoutDelay),
        (r"(?i)\bwhere necessary\b", Qualifier::WhereNecessary),
        (r"(?i)\bwhere appropriate\b", Qualifier::WhereAppropriate),
        (r"(?i)\bin writing\b", Qualifier::InWriting),
        (r"(?i)(?:in )?so far as(?: is necessary)?", Qualifier::InSoFarAs),
    ]
}

/// The qualifiers whose pattern matches, in table order, each once.
pub open spec fn collect_qualifiers(table: Seq<(&'static str, Qualifier)>, text: Seq<char>) -> Seq<Qualifier>
    decreases table.len(),
{
    if table.len() == 0 {
        seq![]
    } else {
        let prev = collect_qualifiers(table.drop_last(), text);
        let e = table.last();
        if is_match_spec(e.0@, text) && !prev.contains(e.1) {
            prev.push(e.1)
        } else {
            prev
        }
    }
}

pub open spec fn qualifiers_spec(text: Seq<char>) -> Seq<Qualifier> {
    collect_qualifiers(qualifier_patterns_spec(), text)
}

/// All qualifiers found in the clause text.
fn extract_qualifiers(clause: &str) -> (r: Vec<Qualifier>)
    ensures
        r@ == qualifiers_spec(clause@),
{
    let table = qualifier_patterns();
    let mut found: Vec<Qualifier> = Vec::new();
    let mut i: usize = 0;
    while i < table.len()
        invariant
            i <= table.len(),
            table@ == qualifier_patterns_spec(),
            found@ == collect_qualifiers(table@.take(i as int), clause@),
        decreases table.len() - i,
    {
        proof {
            assert(table@.take(i + 1).drop_last() == table@.take(i as int));
            assert(table@.take(i + 1).last() == table@[i as int]);
        }
        let (pat, q) = table[i];
        if is_match(pat, clause) {
            let mut present = false;
            let mut j: usize = 0;
            while j < found.len()
                invariant
                    j <= found.len(),
                    present == exists|k: int| 0 <= k < j && found@[k] == q,
                decreases found.len() - j,
            {
                if found[j] == q {
                    present = true;
                }
                j += 1;
            }
            if !present {
                found.push(q);
            }
        }
        i += 1;
    }
    proof {
        assert(table@.take(table@.len() as int) == table@);
    }
    found
}

/// `s` without leading commas, semicolons and whitespace.
pub open spec fn strip_lead(s: Seq<char>) -> Seq<char>
    decreases s.len(),
{
    if s.len() > 0 && (s[0] == ',' || s[0] == ';' || is_ws(s[0])) {
        strip_lead(s.drop_first())
    } else {
        s
    }
}

/// The action text: leading commas, semicolons and whitespace removed, and
/// trailing whitespace.
pub open spec fn clean_action_spec(raw: Seq<char>) -> Seq<char> {
    crate::text::trim_end(strip_lead(raw))
}

fn clean_action(raw: &str) -> (r: String)
    ensures
        r@ == clean_action_spec(raw@),
{
    let v = to_chars(raw);
    let mut i: usize = 0;
    proof {
        assert(v@.subrange(0, v@.len() as int) == v@);
    }
    while i < v.len() && (v[i] == ',' || v[i] == ';' || is_ws_exec(v[i]))
        invariant
            i <= v.len(),
            strip_lead(v@) == strip_lead(v@.subrange(i as int, v@.len() as int)),
            v@ == raw@,
        decreases v.len() - i,
    {
        proof {
            assert(v@.subrange(i as int, v@.len() as int).drop_first() == v@.subrange(i + 1, v@.len() as int));
        }
        i += 1;
    }
    let j = crate::text::skip_ws_backward(&v, i, v.len());
    from_range(&v, i, j)
}

/// The modal named by a (lowercased, whitespace-normalised) verb text.
pub open spec fn modal_of(n: Seq<char>) -> Option<Modal> {
    if n == "shall not"@ {
        Some(Modal::ShallNot)
    } else if n == "must not"@ {
        Some(Modal::MustNot)
    } else if n == "may not"@ {
        Some(Modal::MayNot)
    } else if n == "shall"@ {
        Some(Modal::Shall)
    } else if n == "must"@ {
        Some(Modal::Must)
    } else if n == "may"@ {
        Some(Modal::May)
    } else if n == "is required to"@ || n == "are required to"@ {
        Some(Modal::IsRequiredTo)
    } else if n == "has a duty to"@ {
        Some(Modal::HasDutyTo)
    } else {
        None
    }
}

pub open spec fn classify_modal_spec(text: Seq<char>) -> Option<Modal> {
    modal_of(squash(str_lowercase(text)))
}

/// Classify a modal verb string.
fn classify_modal(text: &str) -> (r: Option<Modal>)
    ensures
        r == classify_modal_spec(text@),
{
    let lower = to_lowercase(text);
    let n = squash_exec(lower.as_str());
    let s = crate::text::from_chars(&n);
    let t = s.as_str();
    if crate::text::str_eq(t, "shall not") {
        Some(Modal::ShallNot)
    } else if crate::text::str_eq(t, "must not") {
        Some(Modal::MustNot)
    } else if crate::text::str_eq(t, "may not") {
        Some(Modal::MayNot)
    } else if crate::text::str_eq(t, "shall") {
        Some(Modal::Shall)
    } else if crate::text::str_eq(t, "must") {
        Some(Modal::Must)
    } else if crate::text::str_eq(t, "may") {
        Some(Modal::May)
    } else if crate::text::str_eq(t, "is required to") || crate::text::str_eq(t, "are required to") {
        Some(Modal::IsRequiredTo)
    } else if crate::text::str_eq(t, "has a duty to") {
        Some(Modal::HasDutyTo)
    } else {
        None
    }
}

/// The span, when given, must lie within the text.
pub open spec fn span_fits(span: Option<MatchSpan>, len: int) -> bool {
    match span {
        Some(sp) => sp.modal_start <= sp.modal_end <= len,
        None => true,
    }
}

/// The modal of the clause with its character span: from the match span when
/// given, else from the first modal-verb match.
pub open spec fn find_modal_spec(clause: Seq<char>, span: Option<MatchSpan>) -> Option<(Modal, int, int)> {
    match span {
        Some(sp) => match classify_modal_spec(clause.subrange(sp.modal_start as int, sp.modal_end as int)) {
            Some(m) => Some((m, sp.modal_start as int, sp.modal_end as int)),
            None => None,
        },
        None => {
            let sp = spans_spec(MODAL_RE@, clause);
            if sp.len() == 0 {
                None
            } else {
                match classify_modal_spec(clause.subrange(sp[0].0, sp[0].1)) {
                    Some(m) => Some((m, sp[0].0, sp[0].1)),
                    None => None,
                }
            }
        },
    }
}

fn find_modal(clause: &str, span: Option<MatchSpan>) -> (r: Option<(Modal, usize, usize)>)
    requires
        span_fits(span, clause@.len() as int),
    ensures
        match r {
            Some(t) => find_modal_spec(clause@, span) == Some((t.0, t.1 as int, t.2 as int))
                && t.1 <= t.2 <= clause@.len(),
            None => find_modal_spec(clause@, span) is None,
        },
{
    let v = to_chars(clause);
    match span {
        Some(sp) => {
            let t = from_range(&v, sp.modal_start, sp.modal_end);
            match classify_modal(t.as_str()) {
                Some(m) => Some((m, sp.modal_start, sp.modal_end)),
                None => None,
            }
        },
        None => {
            match find_first(MODAL_RE, clause) {
                Some((a, b)) => {
                    let t = from_range(&v, a, b);
                    match classify_modal(t.as_str()) {
                        Some(m) => Some((m, a, b)),
                        None => None,
                    }
                },
                None => None,
            }
        },
    }
}

/// Conditional preamble: the clause starts with Where/When/If/Subject to, and the
/// text before the modal, cut at its last comma and trimmed, is not empty.
pub open spec fn applicability_spec(clause: Seq<char>, modal_start: int) -> Option<Seq<char>> {
    if !is_match_spec(CONDITIONAL_START_RE@, clause) {
        None
    } else {
        let before = clause.subrange(0, modal_start);
        match last_index_of(before, ',') {
            Some(c) => if trim(before.subrange(0, c)).len() == 0 {
                None
            } else {
                Some(trim(before.subrange(0, c)))
            },
            None => None,
        }
    }
}

fn extract_applicability(clause: &str, modal_start: usize) -> (r: Option<String>)
    requires
        modal_start <= clause@.len(),
    ensures
        match r {
            Some(s) => applicability_spec(clause@, modal_start as int) == Some(s@),
            None => applicability_spec(clause@, modal_start as int) is None,
        },
{
    if !is_match(CONDITIONAL_START_RE, clause) {
        return None;
    }
    let v = to_chars(clause);
    let mut k = modal_start;
    proof {
        assert(v@.take(modal_start as int) == clause@.subrange(0, modal_start as int));
    }
    while k > 0 && v[k - 1] != ','
        invariant
            k <= modal_start <= v.len(),
            v@ == clause@,
            last_index_of(v@.take(modal_start as int), ',') == last_index_of(v@.take(k as int), ','),
        decreases k,
    {
        proof {
            assert(v@.take(k as int).drop_last() == v@.take(k - 1));
            assert(v@.take(k as int).last() == v@[k - 1]);
        }
        k -= 1;
    }
    if k == 0 {
        proof {
            assert(v@.take(0).len() == 0);
        }
        return None;
    }
    proof {
        assert(v@.take(k as int).last() == v@[k - 1]);
        assert(v@.take(modal_start as int).subrange(0, k - 1) == v@.subrange(0, k - 1));
    }
    let (a, b) = trim_bounds(&v, 0, k - 1);
    if a == b {
        return None;
    }
    Some(from_range(&v, a, b))
}

/// Decomposition of a (trimmed) clause: the reverse-duty form, else the modal
/// with what precedes and follows it.
pub open spec fn reverse_duty_spec(clause: Seq<char>) -> Option<ClauseView> {
    match first_group_spec(REVERSE_DUTY_RE@, clause, 2) {
        Some(g) => {
            let action = clean_action_spec(trim(g));
            if action.len() == 0 {
                None
            } else {
                Some((None, Modal::HasDutyTo, qualifiers_spec(clause), action))
            }
        },
        None => None,
    }
}

pub open spec fn decompose_trimmed(clause: Seq<char>, span: Option<MatchSpan>) -> Option<ClauseView> {
    if clause.len() == 0 {
        None
    } else if reverse_duty_spec(clause) is Some {
        reverse_duty_spec(clause)
    } else {
        match find_modal_spec(clause, span) {
            Some((modal, ms, me)) => {
                let action = clean_action_spec(trim(clause.subrange(me, clause.len() as int)));
                if action.len() == 0 {
                    None
                } else {
                    Some((applicability_spec(clause, ms), modal, qualifiers_spec(clause), action))
                }
            },
            None => None,
        }
    }
}

fn try_reverse_duty(clause: &str) -> (r: Option<ClauseStructure>)
    ensures
        match r {
            Some(cs) => reverse_duty_spec(clause@) == Some(cs@),
            None => reverse_duty_spec(clause@) is None,
        },
{
    let g = match first_group(REVERSE_DUTY_RE, clause, 2) {
        Some(g) => g,
        None => return None,
    };
    let raw = trim_str(g.as_str());
    let action = clean_action(raw.as_str());
    if action.as_str().is_empty() {
        return None;
    }
    let qualifiers = extract_qualifiers(clause);
    Some(ClauseStructure { applicability: None, modal: Modal::HasDutyTo, qualifiers, action })
}

/// Decompose a clause into applicability, modal, qualifiers and action.
///
/// `span`, when given, locates the modal verb (character positions in the
/// trimmed clause); otherwise the first modal-verb match is used.  `None` when
/// no modal verb is found or no action follows it.
pub fn decompose(clause: &str, span: Option<MatchSpan>) -> (r: Option<ClauseStructure>)
    requires
        span_fits(span, trim(clause@).len() as int),
    ensures
        match r {
            Some(cs) => decompose_trimmed(trim(clause@), span) == Some(cs@),
            None => decompose_trimmed(trim(clause@), span) is None,
        },
{
    let c = trim_str(clause);
    let cl = c.as_str();
    if cl.is_empty() {
        return None;
    }
    if let Some(cs) = try_reverse_duty(cl) {
        return Some(cs);
    }
    let (modal, ms, me) = match find_modal(cl, span) {
        Some(t) => t,
        None => return None,
    };
    let applicability = extract_applicability(cl, ms);
    let v = to_chars(cl);
    let rest = from_range(&v, me, v.len());
    let raw = trim_str(rest.as_str());
    let action = clean_action(raw.as_str());
    if action.as_str().is_empty() {
        return None;
    }
    let qualifiers = extract_qualifiers(cl);
    let cs = ClauseStructure { applicability, modal, qualifiers, action };
    Some(cs)
}

} // verus!
