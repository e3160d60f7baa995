//! The provision pipeline: clean the text, classify its purposes, extract its
//! actors, gate it, collect the signals of every pattern tier, decide, and
//! derive the POPIMAR categories, the focused clause and its structure, the
//! fitness rules and the actors' positions.  Also the analysis of provisions
//! the pipeline did not classify.
//!
//! Positions are character offsets in the cleaned text.

use vstd::prelude::*;
use crate::actors::{
    blacklist_spec, blacklisted, distinct_labels, extract_actors, extract_actors_for_family, governed_for_family,
    labels_of, matches_view, run_spec, ActorDictionary, ActorMatch, ActorMatchView, DictView, ExtractedActors,
};
use crate::applicability::sorted_set;
use crate::order::str_views;
use crate::purpose::{classify as classify_purposes, classify_spec as purpose_spec};
use crate::rx::{is_match, is_match_spec};
use crate::text_cleaner::{clean, clean_spec};
use crate::purpose::{APPLICATION_SCOPE, AMENDMENT, INTERPRETATION, PROCESS_RULE, REPEAL_REVOCATION};
use crate::applicability_compile::{utf8_len, utf8_shorter_than};
use crate::clause_refiner::{refine, refine_spec};
use crate::confidence::{score as score_clause, score_spec};
use crate::duty_patterns::{DutyClassification, MatchSpan};
use crate::clause_structure::{decompose, decompose_trimmed, span_fits, ClauseStructure, ClauseView};
use crate::decision::{class_of, decide, decide_reason, decide_winner, DecisionReason, DecisionTrail};
use crate::duty_patterns::keys_view;
use crate::duty_patterns_v2::actors_view;
use crate::duty_type::{duty_type_name, duty_types_of, ClassificationResult, DutyType};
use crate::fitness::{extract as fitness_extract, extract_spec as fitness_spec, opt_view, FitnessRule, RuleView};
use crate::popimar::{classify_with_duty_types as popimar_classify, classify_with_duty_types_spec as popimar_spec};
use crate::signals::{extract_all, rejected_view, signals_view, tier_hits_v, SignalView};
use crate::taxa::{
    is_descriptive_summary, is_legal_fiction, lemma_amendment_always_skips, should_skip_drrp, skip_drrp_spec,
    DESCRIPTIVE_SUMMARY_RE, IMMUNITY_RE,
    LEGAL_FICTION_RE,
};

use crate::text::{
    char_uppercase, from_range, is_uppercase, owned, str_lowercase, to_lowercase, skip_ws_forward, str_eq, to_chars, trim, trim_start,
    trim_str,
};

verus! {

// ---------------------------------------------------------------------------
// Sentence boundaries

pub open spec fn is_stop(c: char) -> bool {
    c == '.' || c == ';'
}

/// The sentence that starts after the stop at `i`: past the whitespace, when
/// an upper-case letter follows.
pub open spec fn sentence_start_at(w: Seq<char>, i: int) -> Option<int> {
    let rest = w.skip(i + 1);
    let t = trim_start(rest);
    if t.len() > 0 && char_uppercase(t[0]) { Some(i + 1 + (rest.len() - t.len())) } else { None }
}

/// The last sentence start after a stop below `n`.
pub open spec fn last_start_below(w: Seq<char>, n: int) -> Option<int>
    decreases n,
{
    if n <= 0 {
        None
    } else if is_stop(w[n - 1]) && sentence_start_at(w, n - 1) is Some {
        sentence_start_at(w, n - 1)
    } else {
        last_start_below(w, n - 1)
    }
}

/// Where the last sentence of `w` starts (after ". " or "; " and an
/// upper-case letter), if any.
pub open spec fn last_sentence_start(w: Seq<char>) -> Option<int> {
    last_start_below(w, w.len() as int)
}

fn find_last_sentence_start(v: &Vec<char>, n: usize) -> (r: Option<usize>)
    requires
        n <= v.len(),
    ensures
        match r {
            Some(p) => last_sentence_start(v@.take(n as int)) == Some(p as int) && p <= n,
            None => last_sentence_start(v@.take(n as int)) is None,
        },
{
    let ghost w = v@.take(n as int);
    let mut k = n;
    while k > 0
        invariant
            k <= n <= v.len(),
            w == v@.take(n as int),
            last_sentence_start(w) == last_start_below(w, k as int),
        decreases k,
    {
        let c = v[k - 1];
        if c == '.' || c == ';' {
            let r = skip_ws_forward(v, k, n);
            proof {
                assert(w.skip(k as int) =~= v@.subrange(k as int, n as int));
                assert(v@.subrange(r as int, n as int).len() == n - r);
            }
            if r < n && is_uppercase(v[r]) {
                proof {
                    assert(v@.subrange(r as int, n as int)[0] == v@[r as int]);
                }
                return Some(r);
            }
        }
        k -= 1;
    }
    None
}

/// A ';' followed by a list marker ("(a)", "and (b)", "or (ii)") separates
/// list items rather than sentences.
pub open spec fn before_list_item(w: Seq<char>, p: int) -> bool {
    let t = trim_start(w.skip(p + 1));
    "("@.is_prefix_of(t) || (("and "@.is_prefix_of(t) || "or "@.is_prefix_of(t)) && "("@.is_prefix_of(
        trim_start(t.skip(3)),
    ))
}

/// The first sentence end at or after `k`: a '.', or a ';' not before a list item.
pub open spec fn end_from(w: Seq<char>, k: int) -> Option<int>
    decreases w.len() - k,
{
    if k < 0 || k >= w.len() {
        None
    } else if w[k] == '.' || (w[k] == ';' && !before_list_item(w, k)) {
        Some(k)
    } else {
        end_from(w, k + 1)
    }
}

pub open spec fn first_sentence_end(w: Seq<char>) -> Option<int> {
    end_from(w, 0)
}

fn starts_with_open_paren(v: &Vec<char>, lo: usize) -> (r: bool)
    requires
        lo <= v.len(),
    ensures
        r == "("@.is_prefix_of(trim_start(v@.skip(lo as int))),
{
    let r = skip_ws_forward(v, lo, v.len());
    let ghost x = v@.subrange(r as int, v@.len() as int);
    proof {
        assert(v@.subrange(lo as int, v@.len() as int) =~= v@.skip(lo as int));
        reveal_strlit("(");
        assert(x.len() > 0 ==> x[0] == v@[r as int]);
        if "("@.is_prefix_of(x) {
            assert(x[0] == "("@[0]);
        }
    }
    let b = r < v.len() && v[r] == '(';
    proof {
        if b {
            assert(x.subrange(0, 1) =~= "("@);
        }
    }
    b
}

fn is_list_separator(v: &Vec<char>, p: usize) -> (r: bool)
    requires
        p < v.len(),
    ensures
        r == before_list_item(v@, p as int),
{
    let n = v.len();
    let a = skip_ws_forward(v, p + 1, n);
    let ghost t = trim_start(v@.skip(p + 1));
    proof {
        assert(v@.subrange(p + 1, n as int) =~= v@.skip(p + 1));
        assert(t =~= v@.skip(a as int));
        reveal_strlit("(");
        reveal_strlit("and ");
        reveal_strlit("or ");
    }
    if a < n && v[a] == '(' {
        return true;
    }
    let and_ = n - a >= 4 && v[a] == 'a' && v[a + 1] == 'n' && v[a + 2] == 'd' && v[a + 3] == ' ';
    let or_ = n - a >= 3 && v[a] == 'o' && v[a + 1] == 'r' && v[a + 2] == ' ';
    proof {
        if and_ {
            assert(t.subrange(0, 4) =~= "and "@);
        }
        if "and "@.is_prefix_of(t) {
            assert(t[0] == "and "@[0] && t[1] == "and "@[1] && t[2] == "and "@[2] && t[3] == "and "@[3]);
        }
        if or_ {
            assert(t.subrange(0, 3) =~= "or "@);
        }
        if "or "@.is_prefix_of(t) {
            assert(t[0] == "or "@[0] && t[1] == "or "@[1] && t[2] == "or "@[2]);
        }
    }
    if and_ || or_ {
        proof {
            assert(t.skip(3) =~= v@.skip(a + 3));
        }
        starts_with_open_paren(v, a + 3)
    } else {
        proof {
            if "("@.is_prefix_of(t) {
                assert(t[0] == "("@[0]);
                assert(v@[a as int] == t[0]);
            }
        }
        false
    }
}

fn find_first_sentence_end(v: &Vec<char>, lo: usize) -> (r: Option<usize>)
    requires
        lo <= v.len(),
    ensures
        match r {
            Some(p) => first_sentence_end(v@.skip(lo as int)) == Some(p - lo) && lo <= p < v.len(),
            None => first_sentence_end(v@.skip(lo as int)) is None,
        },
{
    let ghost w = v@.skip(lo as int);
    let mut k = lo;
    while k < v.len()
        invariant
            lo <= k <= v.len(),
            w == v@.skip(lo as int),
            first_sentence_end(w) == end_from(w, k - lo),
        decreases v.len() - k,
    {
        proof {
            assert(w[k - lo] == v@[k as int]);
            assert(w.skip(k - lo + 1) =~= v@.skip(k + 1));
            assert(trim_start(w.skip(k - lo + 1)) == trim_start(v@.skip(k + 1)));
        }
        let c = v[k];
        if c == '.' {
            return Some(k);
        }
        if c == ';' && !is_list_separator(v, k) {
            return Some(k);
        }
        k += 1;
    }
    None
}

// ---------------------------------------------------------------------------
// The focused clause

/// The "who must do what" extract of a classified text: with a match span,
/// from the last sentence start before the actor to the first sentence end
/// after the modal (punctuation included), trimmed; without a span, the
/// modal-window refinement of the text.  None when that is empty.
pub open spec fn clause_spec(text: Seq<char>, dc: Option<DutyClassification>) -> Option<Seq<char>> {
    match dc {
        None => None,
        Some(d) => match d.span {
            Some(sp) => {
                let n = text.len() as int;
                let a = if sp.actor_start < n { sp.actor_start as int } else { n };
                let me = if sp.modal_end < n { sp.modal_end as int } else { n };
                let start = match last_sentence_start(text.take(a)) {
                    Some(p) => p,
                    None => 0,
                };
                let end = match first_sentence_end(text.skip(me)) {
                    Some(pos) => if me + pos + 1 < n { me + pos + 1 } else { n },
                    None => n,
                };
                let c = if start <= end { trim(text.subrange(start, end)) } else { trim(text.subrange(end, start)) };
                if c.len() == 0 { None } else { Some(c) }
            },
            None => {
                let r = refine_spec(text, Some(text), None);
                if r.len() == 0 { None } else { Some(r) }
            },
        },
    }
}

/// The focused clause of a cleaned text for its classification.
pub fn extract_clause(cleaned: &str, classification: Option<DutyClassification>) -> (r: Option<String>)
    ensures
        match r {
            Some(c) => clause_spec(cleaned@, classification) == Some(c@),
            None => clause_spec(cleaned@, classification) is None,
        },
{
    let dc = match classification {
        Some(d) => d,
        None => {
            return None;
        },
    };
    match dc.span {
        Some(sp) => {
            let v = to_chars(cleaned);
            let n = v.len();
            let a = if sp.actor_start < n { sp.actor_start } else { n };
            let me = if sp.modal_end < n { sp.modal_end } else { n };
            let start = match find_last_sentence_start(&v, a) {
                Some(p) => p,
                None => 0,
            };
            let end = match find_first_sentence_end(&v, me) {
                Some(p) => if p + 1 < n { p + 1 } else { n },
                None => n,
            };
            let (lo, hi) = if start <= end { (start, end) } else { (end, start) };
            let piece = from_range(&v, lo, hi);
            let c = trim_str(piece.as_str());
            if to_chars(c.as_str()).len() == 0 {
                None
            } else {
                Some(c)
            }
        },
        None => {
            let refined = refine(cleaned, Some(cleaned), None);
            if to_chars(refined.as_str()).len() == 0 {
                None
            } else {
                Some(refined)
            }
        },
    }
}


// ---------------------------------------------------------------------------
// Actor positions

/// The actor sits at the start of the match span (three characters' slack).
pub open spec fn near_start(a: ActorMatchView, sp: MatchSpan) -> bool {
    a.2 <= sp.actor_start + 3 && a.2 + a.1.len() + 3 >= sp.actor_start
}

/// The position of a label: "active" for an actor at the span's start (or,
/// when none is, for the first actor listed), else "counterparty".
pub open spec fn position_of(all: Seq<ActorMatchView>, sp: MatchSpan, label: Seq<char>) -> Seq<char> {
    let active = exists|i: int| 0 <= i < all.len() && (#[trigger] all[i]).0 == label && near_start(all[i], sp);
    let any_active = exists|i: int| 0 <= i < all.len() && near_start(#[trigger] all[i], sp);
    if active || (!any_active && all.len() > 0 && all[0].0 == label) {
        "active"@
    } else {
        "counterparty"@
    }
}

/// Each distinct actor label (in character order) with its position; none
/// without a match span.
pub open spec fn positions_spec(all: Seq<ActorMatchView>, dc: Option<DutyClassification>) -> Seq<(Seq<char>, Seq<char>)> {
    match dc {
        Some(d) => match d.span {
            Some(sp) => {
                let ls = sorted_set(labels_of(all));
                Seq::new(ls.len(), |i: int| (ls[i], position_of(all, sp, ls[i])))
            },
            None => seq![],
        },
        None => seq![],
    }
}

pub open spec fn positions_view(v: Seq<(String, &'static str)>) -> Seq<(Seq<char>, Seq<char>)> {
    v.map_values(|p: (String, &'static str)| (p.0@, p.1@))
}

fn near_start_exec(a: &ActorMatch, sp: MatchSpan) -> (r: bool)
    ensures
        r == near_start(a@, sp),
{
    let kw = to_chars(a.keyword.as_str());
    let first = a.offset <= sp.actor_start || a.offset - sp.actor_start <= 3;
    let second = sp.actor_start <= 3 || kw.len() >= sp.actor_start - 3 || a.offset >= sp.actor_start - 3 - kw.len();
    first && second
}

fn all_actors(extracted: &ExtractedActors) -> (r: Vec<ActorMatch>)
    ensures
        matches_view(r) == matches_view(extracted.governed) + matches_view(extracted.government),
{
    let mut out: Vec<ActorMatch> = Vec::new();
    let ghost g = matches_view(extracted.governed);
    let ghost h = matches_view(extracted.government);
    let mut i: usize = 0;
    while i < extracted.governed.len()
        invariant
            i <= extracted.governed.len(),
            g == matches_view(extracted.governed),
            out@.len() == i,
            matches_view(out) == g.take(i as int),
        decreases extracted.governed.len() - i,
    {
        let ghost prev = out@;
        out.push(crate::actors::copy_match(&extracted.governed[i]));
        proof {
            assert forall|j: int| 0 <= j < i + 1 implies matches_view(out)[j] == g.take(i + 1)[j] by {
                if j < i {
                    assert(out@[j] == prev[j]);
                    assert(matches_view(out)[j] == out@[j]@);
                }
            }
            assert(matches_view(out) =~= g.take(i + 1));
        }
        i += 1;
    }
    let mut k: usize = 0;
    while k < extracted.government.len()
        invariant
            k <= extracted.government.len(),
            g == matches_view(extracted.governed),
            h == matches_view(extracted.government),
            out@.len() == g.len() + k,
            matches_view(out) == g + h.take(k as int),
        decreases extracted.government.len() - k,
    {
        let ghost prev = out@;
        let ghost prev_v = matches_view(out);
        out.push(crate::actors::copy_match(&extracted.government[k]));
        proof {
            assert(h[k as int] == extracted.government@[k as int]@);
            assert forall|j: int| 0 <= j < g.len() + k + 1 implies matches_view(out)[j] == (g + h.take(k + 1))[j] by {
                assert(matches_view(out)[j] == out@[j]@);
                if j < g.len() + k {
                    assert(out@[j] == prev[j]);
                    assert(matches_view(out).len() == out@.len());
                    assert((g + h.take(k as int))[j] == prev_v[j]);
                    assert(prev_v[j] == prev[j]@);
                    if j < g.len() {
                        assert((g + h.take(k + 1))[j] == g[j]);
                    } else {
                        assert((g + h.take(k + 1))[j] == h[j - g.len()]);
                    }
                } else {
                    assert((g + h.take(k + 1))[j] == h[k as int]);
                }
            }
            assert(matches_view(out) =~= g + h.take(k + 1));
        }
        k += 1;
    }
    proof {
        assert(g.take(extracted.governed.len() as int) =~= g);
        assert(h.take(extracted.government.len() as int) =~= h);
    }
    out
}

/// Hohfeldian positions of the extracted actors relative to the match span:
/// the actor at the span's start is "active" (the first actor when none
/// is), the others "counterparty".  None without a span.
pub fn derive_actor_positions(
    extracted: &ExtractedActors,
    classification: Option<DutyClassification>,
) -> (r: Vec<(String, &'static str)>)
    ensures
        positions_view(r@) == positions_spec(
            matches_view(extracted.governed) + matches_view(extracted.government),
            classification,
        ),
{
    let ghost all_v = matches_view(extracted.governed) + matches_view(extracted.government);
    let sp = match classification {
        Some(d) => match d.span {
            Some(sp) => sp,
            None => {
                proof {
                    assert(positions_view(Seq::<(String, &'static str)>::empty()) =~= seq![]);
                }
                return Vec::new();
            },
        },
        None => {
            proof {
                assert(positions_view(Seq::<(String, &'static str)>::empty()) =~= seq![]);
            }
            return Vec::new();
        },
    };
    let all = all_actors(extracted);
    let labels = distinct_labels(&all);
    let ghost av = matches_view(all);
    let mut any_active = false;
    let mut j: usize = 0;
    while j < all.len()
        invariant
            j <= all.len(),
            av == matches_view(all),
            any_active == exists|i: int| 0 <= i < j && near_start(#[trigger] av[i], sp),
        decreases all.len() - j,
    {
        proof {
            assert(av[j as int] == all@[j as int]@);
        }
        if near_start_exec(&all[j], sp) {
            any_active = true;
        }
        j += 1;
    }
    let mut out: Vec<(String, &'static str)> = Vec::new();
    let ghost ls = crate::applicability::strings_view(labels);
    let mut k: usize = 0;
    while k < labels.len()
        invariant
            k <= labels.len(),
            av == matches_view(all),
            av == all_v,
            ls == crate::applicability::strings_view(labels),
            ls == sorted_set(labels_of(all_v)),
            any_active == exists|i: int| 0 <= i < all.len() && near_start(#[trigger] av[i], sp),
            out@.len() == k,
            forall|q: int| 0 <= q < k ==> (#[trigger] positions_view(out@)[q]) == (ls[q], position_of(all_v, sp, ls[q])),
        decreases labels.len() - k,
    {
        let label = &labels[k];
        let mut active = false;
        let mut j: usize = 0;
        while j < all.len()
            invariant
                j <= all.len(),
                av == matches_view(all),
                active == exists|i: int| 0 <= i < j && (#[trigger] av[i]).0 == label@ && near_start(av[i], sp),
            decreases all.len() - j,
        {
            proof {
                assert(av[j as int] == all@[j as int]@);
            }
            if str_eq(all[j].label.as_str(), label.as_str()) && near_start_exec(&all[j], sp) {
                active = true;
            }
            j += 1;
        }
        let first_is = all.len() > 0 && str_eq(all[0].label.as_str(), label.as_str());
        proof {
            if all.len() > 0 {
                assert(av[0] == all@[0]@);
            }
            assert(ls[k as int] == label@);
        }
        let pos: &'static str = if active || (!any_active && first_is) { "active" } else { "counterparty" };
        let ghost prev = out@;
        out.push((owned(label.as_str()), pos));
        proof {
            assert forall|q: int| 0 <= q < k + 1 implies (#[trigger] positions_view(out@)[q]) == (ls[q], position_of(all_v, sp, ls[q])) by {
                if q < k {
                    assert(out@[q] == prev[q]);
                    assert(positions_view(prev)[q] == (ls[q], position_of(all_v, sp, ls[q])));
                }
            }
        }
        k += 1;
    }
    proof {
        assert(positions_view(out@) =~= positions_spec(all_v, classification));
    }
    out
}

// ---------------------------------------------------------------------------
// Analysis of an unclassified provision

pub const MISS_MODAL_RE: &'static str = r"(?i)\b(?:shall|must|is required to|has a duty)\b";
pub const MISS_ENABLING_RE: &'static str = r"(?i)\b(?:may|power to|entitled to|authorise|authorize)\b";

/// A provision the pipeline did not classify, with diagnostics.
#[derive(Debug, Clone)]
pub struct MissRecord {
    pub cleaned_text: String,
    /// How likely the provision is a missed duty (higher: more likely).
    pub heat: i8,
    /// What contributed to the heat.
    pub signals: Vec<&'static str>,
    pub governed_actors: Vec<String>,
    pub government_actors: Vec<String>,
    pub purposes: Vec<&'static str>,
    /// An obligation modal is present.
    pub has_modal: bool,
    /// An enabling modal is present.
    pub has_enabling: bool,
}

/// Purposes that only structure a law.
pub open spec fn structural_purposes() -> Seq<Seq<char>> {
    seq![INTERPRETATION@, AMENDMENT@, REPEAL_REVOCATION@]
}

/// The heat contributions, in order: obligation modal +3, governed actor
/// +2, enabling modal +1, government actor +1, operative purpose +1,
/// structural purposes only -2, text under 50 bytes -1.
pub open spec fn heat_parts(
    modal: bool,
    governed: bool,
    enabling: bool,
    government: bool,
    purposes: Seq<Seq<char>>,
    short: bool,
) -> Seq<(i8, Seq<char>)> {
    let structural = purposes.len() > 0 && forall|i: int| 0 <= i < purposes.len() ==> structural_purposes().contains(#[trigger] purposes[i]);
    heat_steps(modal, governed, enabling, government, purposes.contains(PROCESS_RULE@), structural, short)
}

pub open spec fn step(parts: Seq<(i8, Seq<char>)>, b: bool, delta: i8, name: Seq<char>) -> Seq<(i8, Seq<char>)> {
    if b { parts.push((delta, name)) } else { parts }
}

pub open spec fn heat_steps(
    modal: bool,
    governed: bool,
    enabling: bool,
    government: bool,
    operative: bool,
    structural: bool,
    short: bool,
) -> Seq<(i8, Seq<char>)> {
    let p0 = step(seq![], modal, 3, "modal"@);
    let p1 = step(p0, governed, 2, "governed_actor"@);
    let p2 = step(p1, enabling, 1, "enabling_modal"@);
    let p3 = step(p2, government, 1, "government_actor"@);
    let p4 = step(p3, operative, 1, "operative_purpose"@);
    let p5 = step(p4, structural, -2i8, "structural_purpose"@);
    step(p5, short, -1i8, "short_text"@)
}

pub open spec fn heat_sum(parts: Seq<(i8, Seq<char>)>) -> int
    decreases parts.len(),
{
    if parts.len() == 0 { 0 } else { heat_sum(parts.drop_last()) + parts.last().0 }
}

fn push_part(
    heat: &mut i8,
    signals: &mut Vec<&'static str>,
    b: bool,
    delta: i8,
    name: &'static str,
    Ghost(parts): Ghost<Seq<(i8, Seq<char>)>>,
)
    requires
        -100 <= *old(heat) <= 100,
        -2 <= delta <= 3,
        *old(heat) == heat_sum(parts),
        str_views(old(signals)@) == parts.map_values(|p: (i8, Seq<char>)| p.1),
    ensures
        *final(heat) == *old(heat) + (if b { delta } else { 0 }),
        *final(heat) == heat_sum(step(parts, b, delta, name@)),
        str_views(final(signals)@) == step(parts, b, delta, name@).map_values(|p: (i8, Seq<char>)| p.1),
{
    if !b {
        return;
    }
    *heat = *heat + delta;
    let ghost prev = signals@;
    signals.push(name);
    proof {
        assert(parts.push((delta, name@)).drop_last() =~= parts);
        let want = parts.push((delta, name@)).map_values(|p: (i8, Seq<char>)| p.1);
        assert(str_views(prev).len() == prev.len());
        assert(parts.map_values(|p: (i8, Seq<char>)| p.1).len() == parts.len());
        assert(want.len() == parts.len() + 1);
        assert(str_views(signals@).len() == signals@.len());
        assert forall|j: int| 0 <= j < signals@.len() implies str_views(signals@)[j] == want[j] by {
            if j < prev.len() {
                assert(signals@[j] == prev[j]);
                assert(str_views(prev)[j] == parts.map_values(|p: (i8, Seq<char>)| p.1)[j]);
            } else {
                assert(want[j] == name@);
            }
        }
        assert(str_views(signals@) =~= want);
    }
}

fn heat_of(
    modal: bool,
    governed: bool,
    enabling: bool,
    government: bool,
    operative: bool,
    structural: bool,
    short: bool,
) -> (r: (i8, Vec<&'static str>))
    ensures
        ({
            let parts = heat_steps(modal, governed, enabling, government, operative, structural, short);
            r.0 == heat_sum(parts) && str_views(r.1@) == parts.map_values(|p: (i8, Seq<char>)| p.1)
        }),
{
    let mut heat: i8 = 0;
    let mut signals: Vec<&'static str> = Vec::new();
    let ghost e: Seq<(i8, Seq<char>)> = seq![];
    let ghost p0 = step(e, modal, 3, "modal"@);
    let ghost p1 = step(p0, governed, 2, "governed_actor"@);
    let ghost p2 = step(p1, enabling, 1, "enabling_modal"@);
    let ghost p3 = step(p2, government, 1, "government_actor"@);
    let ghost p4 = step(p3, operative, 1, "operative_purpose"@);
    let ghost p5 = step(p4, structural, -2i8, "structural_purpose"@);
    proof {
        assert(str_views(signals@) =~= Seq::<(i8, Seq<char>)>::empty().map_values(|p: (i8, Seq<char>)| p.1));
    }
    push_part(&mut heat, &mut signals, modal, 3, "modal", Ghost(e));
    push_part(&mut heat, &mut signals, governed, 2, "governed_actor", Ghost(p0));
    push_part(&mut heat, &mut signals, enabling, 1, "enabling_modal", Ghost(p1));
    push_part(&mut heat, &mut signals, government, 1, "government_actor", Ghost(p2));
    push_part(&mut heat, &mut signals, operative, 1, "operative_purpose", Ghost(p3));
    push_part(&mut heat, &mut signals, structural, -2, "structural_purpose", Ghost(p4));
    push_part(&mut heat, &mut signals, short, -1, "short_text", Ghost(p5));
    (heat, signals)
}

fn has_purpose(purposes: &Vec<&'static str>, p: &str) -> (r: bool)
    ensures
        r == str_views(purposes@).contains(p@),
{
    let mut i: usize = 0;
    while i < purposes.len()
        invariant
            i <= purposes.len(),
            forall|j: int| 0 <= j < i ==> str_views(purposes@)[j] != p@,
        decreases purposes.len() - i,
    {
        if str_eq(purposes[i], p) {
            proof {
                assert(str_views(purposes@)[i as int] == p@);
            }
            return true;
        }
        i += 1;
    }
    false
}

fn all_structural(purposes: &Vec<&'static str>) -> (r: bool)
    ensures
        r == (purposes@.len() > 0 && forall|i: int|
            0 <= i < purposes@.len() ==> structural_purposes().contains(#[trigger] str_views(purposes@)[i])),
{
    if purposes.len() == 0 {
        return false;
    }
    let mut i: usize = 0;
    while i < purposes.len()
        invariant
            i <= purposes.len(),
            forall|j: int| 0 <= j < i ==> structural_purposes().contains(#[trigger] str_views(purposes@)[j]),
        decreases purposes.len() - i,
    {
        let p = purposes[i];
        let hit = str_eq(p, INTERPRETATION) || str_eq(p, AMENDMENT) || str_eq(p, REPEAL_REVOCATION);
        proof {
            let sp = structural_purposes();
            assert(str_views(purposes@)[i as int] == p@);
            if hit {
                if p@ == INTERPRETATION@ { assert(sp[0] == p@); }
                if p@ == AMENDMENT@ { assert(sp[1] == p@); }
                if p@ == REPEAL_REVOCATION@ { assert(sp[2] == p@); }
            } else {
                assert(!sp.contains(p@)) by {
                    if sp.contains(p@) {
                        let k = choose|k: int| 0 <= k < sp.len() && sp[k] == p@;
                        assert(k == 0 || k == 1 || k == 2);
                    }
                }
            }
        }
        if !hit {
            return false;
        }
        i += 1;
    }
    true
}

/// 1 where `b` holds, else 0.
pub open spec fn ind(b: bool) -> int {
    if b { 1 } else { 0 }
}

/// Every purpose is structural (and there is one).
pub open spec fn only_structural(purposes: Seq<Seq<char>>) -> bool {
    purposes.len() > 0 && forall|i: int| 0 <= i < purposes.len() ==> structural_purposes().contains(#[trigger] purposes[i])
}

/// The heat score as one sum: +3 for an obligation modal, +2 for a governed
/// actor, +1 each for an enabling modal, a government actor and the
/// Process+Rule purpose, -2 where every purpose is Interpretation,
/// Amendment or Repeal/Revocation, -1 for a short text.
pub open spec fn heat_formula(
    modal: bool,
    governed: bool,
    enabling: bool,
    government: bool,
    purposes: Seq<Seq<char>>,
    short: bool,
) -> int {
    3 * ind(modal) + 2 * ind(governed) + ind(enabling) + ind(government) + ind(purposes.contains(PROCESS_RULE@))
        - 2 * ind(only_structural(purposes)) - ind(short)
}

proof fn lemma_sum_step(parts: Seq<(i8, Seq<char>)>, b: bool, delta: i8, name: Seq<char>)
    ensures
        heat_sum(step(parts, b, delta, name)) == heat_sum(parts) + (if b { delta as int } else { 0 }),
{
    if b {
        assert(parts.push((delta, name)).drop_last() == parts);
    }
}

/// The heat contributions add up to the heat formula.
pub proof fn lemma_heat_formula(
    modal: bool,
    governed: bool,
    enabling: bool,
    government: bool,
    purposes: Seq<Seq<char>>,
    short: bool,
)
    ensures
        heat_sum(heat_parts(modal, governed, enabling, government, purposes, short))
            == heat_formula(modal, governed, enabling, government, purposes, short),
{
    let p0 = step(seq![], modal, 3, "modal"@);
    let p1 = step(p0, governed, 2, "governed_actor"@);
    let p2 = step(p1, enabling, 1, "enabling_modal"@);
    let p3 = step(p2, government, 1, "government_actor"@);
    let p4 = step(p3, purposes.contains(PROCESS_RULE@), 1, "operative_purpose"@);
    let p5 = step(p4, only_structural(purposes), -2i8, "structural_purpose"@);
    lemma_sum_step(seq![], modal, 3, "modal"@);
    lemma_sum_step(p0, governed, 2, "governed_actor"@);
    lemma_sum_step(p1, enabling, 1, "enabling_modal"@);
    lemma_sum_step(p2, government, 1, "government_actor"@);
    lemma_sum_step(p3, purposes.contains(PROCESS_RULE@), 1, "operative_purpose"@);
    lemma_sum_step(p4, only_structural(purposes), -2i8, "structural_purpose"@);
    lemma_sum_step(p5, short, -1i8, "short_text"@);
}

/// Diagnose a provision the pipeline did not classify: its cleaned text,
/// purposes, actors, modals and a heat score of how likely it holds a missed
/// duty (see `heat_parts`).
pub fn analyse_miss(dict: &ActorDictionary, raw_text: &str) -> (r: MissRecord)
    ensures
        r.cleaned_text@ == clean_spec(raw_text@),
        str_views(r.purposes@) == purpose_spec(r.cleaned_text@),
        crate::applicability::strings_view(r.governed_actors) == sorted_set(labels_of(
            run_spec(blacklisted(blacklist_spec(), r.cleaned_text@), dict@.1),
        )),
        crate::applicability::strings_view(r.government_actors) == sorted_set(labels_of(
            run_spec(blacklisted(blacklist_spec(), r.cleaned_text@), dict@.0),
        )),
        r.has_modal == is_match_spec(MISS_MODAL_RE@, str_lowercase(r.cleaned_text@)),
        r.has_enabling == is_match_spec(MISS_ENABLING_RE@, str_lowercase(r.cleaned_text@)),
        ({
            let parts = heat_parts(
                r.has_modal,
                r.governed_actors@.len() > 0,
                r.has_enabling,
                r.government_actors@.len() > 0,
                str_views(r.purposes@),
                utf8_len(r.cleaned_text@) < 50,
            );
            r.heat == heat_sum(parts) && str_views(r.signals@) == parts.map_values(|p: (i8, Seq<char>)| p.1)
        }),
        r.heat == heat_formula(
            r.has_modal,
            r.governed_actors@.len() > 0,
            r.has_enabling,
            r.government_actors@.len() > 0,
            str_views(r.purposes@),
            utf8_len(r.cleaned_text@) < 50,
        ),
{
    let cleaned = clean(raw_text);
    let purposes = classify_purposes(cleaned.as_str());
    let extracted = extract_actors(dict, cleaned.as_str());
    let lower = to_lowercase(cleaned.as_str());
    let has_modal = is_match(MISS_MODAL_RE, lower.as_str());
    let has_enabling = is_match(MISS_ENABLING_RE, lower.as_str());
    let governed_labels = extracted.governed_labels();
    let government_labels = extracted.government_labels();
    let cv = to_chars(cleaned.as_str());
    let short = utf8_shorter_than(&cv, 50);
    let operative = has_purpose(&purposes, PROCESS_RULE);
    let structural = all_structural(&purposes);
    let (heat, signals) = heat_of(
        has_modal,
        governed_labels.len() > 0,
        has_enabling,
        government_labels.len() > 0,
        operative,
        structural,
        short,
    );
    proof {
        lemma_heat_formula(
            has_modal,
            governed_labels@.len() > 0,
            has_enabling,
            government_labels@.len() > 0,
            str_views(purposes@),
            short,
        );
    }
    MissRecord {
        cleaned_text: cleaned,
        heat,
        signals,
        governed_actors: governed_labels,
        government_actors: government_labels,
        purposes,
        has_modal,
        has_enabling,
    }
}


// ---------------------------------------------------------------------------
// The pipeline

/// A classified provision: the output of the pipeline.
#[derive(Debug, Clone)]
pub struct TaxaRecord {
    /// The cleaned text analysed.
    pub cleaned_text: String,
    /// Distinct labels of the governed actors found.
    pub governed_actors: Vec<String>,
    /// Distinct labels of the government actors found.
    pub government_actors: Vec<String>,
    /// DRRP duty types.
    pub duty_types: Vec<DutyType>,
    /// POPIMAR management categories.
    pub popimar: Vec<&'static str>,
    /// Purpose categories.
    pub purposes: Vec<&'static str>,
    /// The pattern classification, if any.
    pub classification: Option<DutyClassification>,
    /// The focused "who must do what" clause.
    pub clause_refined: Option<String>,
    /// Confidence of the focused clause, in hundredths (0 without one).
    pub taxa_confidence: u32,
    /// The decomposed clause (applicability, modal, qualifiers, action).
    pub clause_structure: Option<ClauseStructure>,
    /// Law-level applicability rules, for Application+Scope provisions.
    pub fitness_rules: Vec<FitnessRule>,
    /// Each actor label with its position ("active" or "counterparty").
    pub actor_positions: Vec<(String, &'static str)>,
}

impl Default for TaxaRecord {
    fn default() -> (r: TaxaRecord)
        ensures
            r.cleaned_text@.len() == 0,
            r.governed_actors@.len() == 0,
            r.government_actors@.len() == 0,
            r.duty_types@.len() == 0,
            r.popimar@.len() == 0,
            r.purposes@.len() == 0,
            r.classification is None,
            r.clause_refined is None,
            r.taxa_confidence == 0,
            r.clause_structure is None,
            r.fitness_rules@.len() == 0,
            r.actor_positions@.len() == 0,
    {
        TaxaRecord {
            cleaned_text: String::new(),
            governed_actors: Vec::new(),
            government_actors: Vec::new(),
            duty_types: Vec::new(),
            popimar: Vec::new(),
            purposes: Vec::new(),
            classification: None,
            clause_refined: None,
            taxa_confidence: 0,
            clause_structure: None,
            fitness_rules: Vec::new(),
            actor_positions: Vec::new(),
        }
    }
}

/// Governed actors of a cleaned text (with the family's specialists).
pub open spec fn governed_of(dict: DictView, cleaned: Seq<char>, family: Option<Seq<char>>) -> Seq<ActorMatchView> {
    let t = blacklisted(blacklist_spec(), cleaned);
    match family {
        Some(f) => governed_for_family(t, dict.1, dict.2, f),
        None => run_spec(t, dict.1),
    }
}

pub open spec fn government_of(dict: DictView, cleaned: Seq<char>) -> Seq<ActorMatchView> {
    run_spec(blacklisted(blacklist_spec(), cleaned), dict.0)
}

/// Is DRRP classification gated off for the cleaned text?
pub open spec fn gated_of(dict: DictView, cleaned: Seq<char>, family: Option<Seq<char>>) -> bool {
    skip_drrp_spec(
        purpose_spec(cleaned),
        governed_of(dict, cleaned, family).len() > 0,
        government_of(dict, cleaned).len() > 0,
    )
}

pub open spec fn descriptive_of(cleaned: Seq<char>) -> bool {
    is_match_spec(DESCRIPTIVE_SUMMARY_RE@, cleaned)
}

pub open spec fn fiction_of(cleaned: Seq<char>) -> bool {
    let lower = str_lowercase(cleaned);
    is_match_spec(LEGAL_FICTION_RE@, lower) && !is_match_spec(IMMUNITY_RE@, lower)
}

/// The fitness rules: for Application+Scope provisions only.
pub open spec fn fitness_of(cleaned: Seq<char>, family: Option<Seq<char>>) -> Seq<RuleView> {
    if purpose_spec(cleaned).contains(APPLICATION_SCOPE@) { fitness_spec(cleaned, family) } else { seq![] }
}

/// The signals the decision sees: every tier's hit, unless a legal fiction
/// turned them all into rejections.
pub open spec fn decided_signals_v(keys: Seq<Seq<char>>, cleaned: Seq<char>, gv: Seq<ActorMatchView>) -> Seq<SignalView> {
    let hits = tier_hits_v(keys, str_lowercase(cleaned), gv);
    if fiction_of(cleaned) && hits.len() > 0 { seq![] } else { hits }
}

pub open spec fn rejected_count_v(keys: Seq<Seq<char>>, cleaned: Seq<char>, gv: Seq<ActorMatchView>) -> int {
    let hits = tier_hits_v(keys, str_lowercase(cleaned), gv);
    if fiction_of(cleaned) && hits.len() > 0 { hits.len() as int } else { 0 }
}

/// The classification the decision picks for an ungated provision.
pub open spec fn classification_v(keys: Seq<Seq<char>>, cleaned: Seq<char>, gv: Seq<ActorMatchView>) -> Option<DutyClassification> {
    let ms = decided_signals_v(keys, cleaned, gv);
    match decide_winner(false, false, fiction_of(cleaned), ms) {
        Some(b) => Some(class_of(ms[b])),
        None => None,
    }
}

pub open spec fn decided_signals(dict: DictView, cleaned: Seq<char>, family: Option<Seq<char>>) -> Seq<SignalView> {
    decided_signals_v(dict.3, cleaned, governed_of(dict, cleaned, family))
}

pub open spec fn rejected_count(dict: DictView, cleaned: Seq<char>, family: Option<Seq<char>>) -> int {
    rejected_count_v(dict.3, cleaned, governed_of(dict, cleaned, family))
}

pub open spec fn classification_of(dict: DictView, cleaned: Seq<char>, family: Option<Seq<char>>) -> Option<DutyClassification> {
    classification_v(dict.3, cleaned, governed_of(dict, cleaned, family))
}

/// The clause structure: decomposed when the match span lies within the
/// clause; none otherwise.
pub open spec fn structure_of(clause: Option<Seq<char>>, span: Option<MatchSpan>) -> Option<ClauseView> {
    match clause {
        Some(c) => if span_fits(span, trim(c).len() as int) { decompose_trimmed(trim(c), span) } else { None },
        None => None,
    }
}

pub open spec fn span_of_class(dc: Option<DutyClassification>) -> Option<MatchSpan> {
    match dc {
        Some(d) => d.span,
        None => None,
    }
}

pub open spec fn duty_types_opt(dc: Option<DutyClassification>) -> Seq<DutyType> {
    match dc {
        Some(d) => duty_types_of(d),
        None => seq![],
    }
}

pub open spec fn fitness_view(v: Seq<FitnessRule>) -> Seq<RuleView> {
    v.map_values(|x: FitnessRule| x@)
}

pub open spec fn structure_view(o: Option<ClauseStructure>) -> Option<ClauseView> {
    match o {
        Some(cs) => Some(cs@),
        None => None,
    }
}

pub open spec fn clause_view(o: Option<String>) -> Option<Seq<char>> {
    match o {
        Some(c) => Some(c@),
        None => None,
    }
}

/// The confidence of the focused clause (0 without one).
pub open spec fn confidence_of(clause: Option<Seq<char>>, has_span: bool) -> int {
    match clause {
        Some(c) => score_spec(c, has_span),
        None => 0,
    }
}

fn duty_type_labels(types: &Vec<DutyType>) -> (r: Vec<&'static str>)
    ensures
        str_views(r@) == types@.map_values(|t: DutyType| duty_type_name(t)),
{
    let mut out: Vec<&'static str> = Vec::new();
    let mut i: usize = 0;
    while i < types.len()
        invariant
            i <= types.len(),
            out@.len() == i,
            forall|j: int| 0 <= j < i ==> (#[trigger] out@[j])@ == duty_type_name(types@[j]),
        decreases types.len() - i,
    {
        out.push(types[i].as_str());
        i += 1;
    }
    proof {
        assert(str_views(out@) =~= types@.map_values(|t: DutyType| duty_type_name(t)));
    }
    out
}

fn clause_structure_of(clause: &Option<String>, span: Option<MatchSpan>) -> (r: Option<ClauseStructure>)
    ensures
        structure_view(r) == structure_of(clause_view(*clause), span),
{
    match clause {
        Some(c) => {
            let t = trim_str(c.as_str());
            let n = to_chars(t.as_str()).len();
            let fits = match span {
                Some(sp) => sp.modal_start <= sp.modal_end && sp.modal_end <= n,
                None => true,
            };
            if fits {
                match decompose(c.as_str(), span) {
                    Some(cs) => Some(cs),
                    None => None,
                }
            } else {
                None
            }
        },
        None => None,
    }
}

/// The record of a provision gated off: cleaned text, actors, purposes and
/// fitness rules only.
fn gated_record(
    cleaned: String,
    extracted: &ExtractedActors,
    purposes: Vec<&'static str>,
    fitness_rules: Vec<FitnessRule>,
) -> (r: TaxaRecord)
    ensures
        r.cleaned_text@ == cleaned@,
        crate::applicability::strings_view(r.governed_actors) == sorted_set(labels_of(matches_view(extracted.governed))),
        crate::applicability::strings_view(r.government_actors) == sorted_set(labels_of(matches_view(extracted.government))),
        r.purposes@ == purposes@,
        r.fitness_rules@ == fitness_rules@,
        r.duty_types@.len() == 0,
        r.popimar@.len() == 0,
        r.classification is None,
        r.clause_refined is None,
        r.taxa_confidence == 0,
        r.clause_structure is None,
        r.actor_positions@.len() == 0,
{
    TaxaRecord {
        cleaned_text: cleaned,
        governed_actors: extracted.governed_labels(),
        government_actors: extracted.government_labels(),
        duty_types: Vec::new(),
        popimar: Vec::new(),
        purposes,
        classification: None,
        clause_refined: None,
        taxa_confidence: 0,
        clause_structure: None,
        fitness_rules,
        actor_positions: Vec::new(),
    }
}

/// Clean, classify purposes, extract actors, gate, and the fitness rules.
fn prepare(
    dict: &ActorDictionary,
    raw_text: &str,
    family: Option<&str>,
) -> (r: (String, Vec<&'static str>, ExtractedActors, Vec<FitnessRule>, bool, bool))
    ensures
        r.0@ == clean_spec(raw_text@),
        str_views(r.1@) == purpose_spec(r.0@),
        matches_view(r.2.governed) == governed_of(dict@, r.0@, opt_view(family)),
        matches_view(r.2.government) == government_of(dict@, r.0@),
        fitness_view(r.3@) == fitness_of(r.0@, opt_view(family)),
        r.4 == gated_of(dict@, r.0@, opt_view(family)),
        r.5 == descriptive_of(r.0@),
{
    let cleaned = clean(raw_text);
    let purposes = classify_purposes(cleaned.as_str());
    let extracted = extract_actors_for_family(dict, cleaned.as_str(), family);
    let has_governed = extracted.governed.len() > 0;
    let has_government = extracted.government.len() > 0;
    let purpose_gated = should_skip_drrp(purposes.as_slice(), has_governed, has_government);
    let desc_summary = is_descriptive_summary(cleaned.as_str());
    let fitness_rules = if has_purpose(&purposes, APPLICATION_SCOPE) {
        fitness_extract(cleaned.as_str(), family)
    } else {
        Vec::new()
    };
    proof {
        if !str_views(purposes@).contains(APPLICATION_SCOPE@) {
            assert(fitness_view(fitness_rules@) =~= seq![]);
        }
    }
    (cleaned, purposes, extracted, fitness_rules, purpose_gated, desc_summary)
}

/// The trail of a provision gated off.
fn gated_trail(purpose_gated: bool, desc_summary: bool) -> (r: DecisionTrail)
    requires
        purpose_gated || desc_summary,
    ensures
        r.reason == decide_reason(purpose_gated, desc_summary, false, seq![]),
        r.winner is None,
        r.candidates_count == 0,
        r.rejections_count == 0,
{
    let reason = if purpose_gated { DecisionReason::PurposeGated } else { DecisionReason::DescriptiveSummary };
    DecisionTrail { winner: None, reason, candidates_count: 0, rejections_count: 0 }
}

/// Signals and decision for an ungated provision.
fn decide_stage(
    keywords: &Vec<String>,
    cleaned: &str,
    extracted: &ExtractedActors,
    purposes: &Vec<&'static str>,
) -> (r: (ClassificationResult, DecisionTrail))
    ensures
        ({
            let keys = keys_view(*keywords);
            let gv = matches_view(extracted.governed);
            let ms = decided_signals_v(keys, cleaned@, gv);
            &&& r.0.classification == classification_v(keys, cleaned@, gv)
            &&& r.0.duty_types@ == duty_types_opt(classification_v(keys, cleaned@, gv))
            &&& r.1.reason == decide_reason(false, false, fiction_of(cleaned@), ms)
            &&& match decide_winner(false, false, fiction_of(cleaned@), ms) {
                Some(b) => r.1.winner matches Some(w) && w@ == ms[b],
                None => r.1.winner is None,
            }
            &&& r.1.candidates_count == ms.len()
            &&& r.1.rejections_count == rejected_count_v(keys, cleaned@, gv)
        }),
{
    let lower = to_lowercase(cleaned);
    let is_lf = is_legal_fiction(lower.as_str());
    let signal_set = extract_all(
        keywords,
        lower.as_str(),
        extracted.governed.as_slice(),
        extracted.government.as_slice(),
        purposes.as_slice(),
        is_lf,
        false,
        false,
    );
    proof {
        assert(actors_view(extracted.governed@) =~= matches_view(extracted.governed));
        let hits = tier_hits_v(keys_view(*keywords), str_lowercase(cleaned@), matches_view(extracted.governed));
        if is_lf && hits.len() > 0 {
            assert(rejected_view(signal_set.rejected@).len() == signal_set.rejected@.len());
        } else {
            assert(rejected_view(signal_set.rejected@).len() == signal_set.rejected@.len());
        }
    }
    decide(&signal_set)
}

/// The record of an ungated provision from its decision.
fn finish_record(
    cleaned: String,
    extracted: &ExtractedActors,
    purposes: Vec<&'static str>,
    fitness_rules: Vec<FitnessRule>,
    cr: ClassificationResult,
) -> (r: TaxaRecord)
    requires
        cr.duty_types@ == duty_types_opt(cr.classification),
    ensures
        r.cleaned_text@ == cleaned@,
        r.purposes@ == purposes@,
        r.fitness_rules@ == fitness_rules@,
        crate::applicability::strings_view(r.governed_actors) == sorted_set(labels_of(matches_view(extracted.governed))),
        crate::applicability::strings_view(r.government_actors) == sorted_set(labels_of(matches_view(extracted.government))),
        r.classification == cr.classification,
        r.duty_types@ == cr.duty_types@,
        str_views(r.popimar@) == popimar_spec(cleaned@, duty_types_opt(cr.classification).map_values(|t: DutyType| duty_type_name(t))),
        clause_view(r.clause_refined) == clause_spec(cleaned@, cr.classification),
        r.taxa_confidence == confidence_of(clause_spec(cleaned@, cr.classification), span_of_class(cr.classification) is Some),
        structure_view(r.clause_structure) == structure_of(clause_spec(cleaned@, cr.classification), span_of_class(cr.classification)),
        positions_view(r.actor_positions@) == positions_spec(
            matches_view(extracted.governed) + matches_view(extracted.government),
            cr.classification,
        ),
{
    let dt_labels = duty_type_labels(&cr.duty_types);
    let popimar = popimar_classify(cleaned.as_str(), dt_labels.as_slice());
    let clause_refined = extract_clause(cleaned.as_str(), cr.classification);
    let span = match cr.classification {
        Some(c) => c.span,
        None => None,
    };
    let clause_structure = clause_structure_of(&clause_refined, span);
    let taxa_confidence = match &clause_refined {
        Some(c) => score_clause(c.as_str(), span.is_some()),
        None => 0,
    };
    let actor_positions = derive_actor_positions(extracted, cr.classification);
    proof {
        assert(clause_view(clause_refined) == clause_spec(cleaned@, cr.classification));
    }
    TaxaRecord {
        cleaned_text: cleaned,
        governed_actors: extracted.governed_labels(),
        government_actors: extracted.government_labels(),
        duty_types: cr.duty_types,
        popimar,
        purposes,
        classification: cr.classification,
        clause_refined,
        taxa_confidence,
        clause_structure,
        fitness_rules,
        actor_positions,
    }
}

/// What the pipeline's record is for a raw provision (see `parse_v2_with_trail`).
pub open spec fn record_spec(dict: DictView, raw: Seq<char>, fam: Option<Seq<char>>, rec: TaxaRecord) -> bool {
    let cleaned = clean_spec(raw);
    let governed = governed_of(dict, cleaned, fam);
    let government = government_of(dict, cleaned);
    if trim(raw).len() == 0 {
        &&& rec.cleaned_text@.len() == 0 && rec.purposes@.len() == 0 && rec.duty_types@.len() == 0
        &&& rec.governed_actors@.len() == 0 && rec.government_actors@.len() == 0
        &&& rec.classification is None && rec.clause_refined is None && rec.clause_structure is None
        &&& rec.popimar@.len() == 0 && rec.fitness_rules@.len() == 0 && rec.actor_positions@.len() == 0
        &&& rec.taxa_confidence == 0
    } else {
        &&& rec.cleaned_text@ == cleaned
        &&& str_views(rec.purposes@) == purpose_spec(cleaned)
        &&& crate::applicability::strings_view(rec.governed_actors) == sorted_set(labels_of(governed))
        &&& crate::applicability::strings_view(rec.government_actors) == sorted_set(labels_of(government))
        &&& fitness_view(rec.fitness_rules@) == fitness_of(cleaned, fam)
        &&& if gated_of(dict, cleaned, fam) || descriptive_of(cleaned) {
            &&& rec.duty_types@.len() == 0 && rec.popimar@.len() == 0
            &&& rec.classification is None && rec.clause_refined is None && rec.clause_structure is None
            &&& rec.actor_positions@.len() == 0 && rec.taxa_confidence == 0
        } else {
            let dc = classification_of(dict, cleaned, fam);
            let clause = clause_spec(cleaned, dc);
            &&& rec.classification == dc
            &&& rec.duty_types@ == duty_types_opt(dc)
            &&& str_views(rec.popimar@) == popimar_spec(cleaned, duty_types_opt(dc).map_values(|t: DutyType| duty_type_name(t)))
            &&& clause_view(rec.clause_refined) == clause
            &&& rec.taxa_confidence == confidence_of(clause, span_of_class(dc) is Some)
            &&& structure_view(rec.clause_structure) == structure_of(clause, span_of_class(dc))
            &&& positions_view(rec.actor_positions@) == positions_spec(governed + government, dc)
        }
    }
}

/// An amendment or repeal provision never bears its own DRRP: whatever
/// actors it names, its record has no classification, duty type, focused
/// clause or actor position.
pub proof fn lemma_amendment_bears_no_drrp(dict: DictView, raw: Seq<char>, fam: Option<Seq<char>>, rec: TaxaRecord)
    requires
        record_spec(dict, raw, fam, rec),
        purpose_spec(clean_spec(raw)).contains(AMENDMENT@) || purpose_spec(clean_spec(raw)).contains(REPEAL_REVOCATION@),
    ensures
        rec.classification is None,
        rec.duty_types@.len() == 0,
        rec.clause_refined is None,
        rec.actor_positions@.len() == 0,
{
    let cleaned = clean_spec(raw);
    lemma_amendment_always_skips(
        purpose_spec(cleaned),
        governed_of(dict, cleaned, fam).len() > 0,
        government_of(dict, cleaned).len() > 0,
    );
}

/// What the decision trail is for a raw provision.
pub open spec fn trail_spec(dict: DictView, raw: Seq<char>, fam: Option<Seq<char>>, trail: DecisionTrail) -> bool {
    let cleaned = clean_spec(raw);
    let gated = gated_of(dict, cleaned, fam);
    let desc = descriptive_of(cleaned);
    if trim(raw).len() == 0 {
        &&& trail.reason == DecisionReason::EmptyText && trail.winner is None
        &&& trail.candidates_count == 0 && trail.rejections_count == 0
    } else if gated || desc {
        &&& trail.reason == decide_reason(gated, desc, false, seq![])
        &&& trail.winner is None && trail.candidates_count == 0 && trail.rejections_count == 0
    } else {
        let ms = decided_signals(dict, cleaned, fam);
        &&& trail.reason == decide_reason(false, false, fiction_of(cleaned), ms)
        &&& match decide_winner(false, false, fiction_of(cleaned), ms) {
            Some(b) => trail.winner matches Some(w) && w@ == ms[b],
            None => trail.winner is None,
        }
        &&& trail.candidates_count == ms.len()
        &&& trail.rejections_count == rejected_count(dict, cleaned, fam)
    }
}

/// Run the pipeline on a raw provision and return the record with the
/// decision trail.  An empty (all-whitespace) text gives the empty record.
/// A provision gated off by purpose, or recognised as a descriptive summary,
/// keeps only its cleaned text, actors, purposes and fitness rules.  Otherwise
/// every tier's signals go to the decision, and the winner's duty types,
/// POPIMAR categories, clause, clause structure and actor positions follow.
pub fn parse_v2_with_trail(dict: &ActorDictionary, raw_text: &str, family: Option<&str>) -> (r: (TaxaRecord, DecisionTrail))
    ensures
        record_spec(dict@, raw_text@, opt_view(family), r.0),
        trail_spec(dict@, raw_text@, opt_view(family), r.1),
{
    let trimmed = trim_str(raw_text);
    if to_chars(trimmed.as_str()).len() == 0 {
        return (
            TaxaRecord::default(),
            DecisionTrail { winner: None, reason: DecisionReason::EmptyText, candidates_count: 0, rejections_count: 0 },
        );
    }
    let (cleaned, purposes, extracted, fitness_rules, purpose_gated, desc_summary) = prepare(dict, raw_text, family);
    if purpose_gated || desc_summary {
        let trail = gated_trail(purpose_gated, desc_summary);
        let rec = gated_record(cleaned, &extracted, purposes, fitness_rules);
        return (rec, trail);
    }
    let (cr, trail) = decide_stage(&dict.government_keywords, cleaned.as_str(), &extracted, &purposes);
    proof {
        assert(keys_view(dict.government_keywords) =~= dict@.3);
    }
    let rec = finish_record(cleaned, &extracted, purposes, fitness_rules, cr);
    (rec, trail)
}

/// The pipeline's record for a raw provision (see `parse_v2_with_trail`).
pub fn parse_v2(dict: &ActorDictionary, raw_text: &str, family: Option<&str>) -> (r: TaxaRecord)
    ensures
        record_spec(dict@, raw_text@, opt_view(family), r),
{
    parse_v2_with_trail(dict, raw_text, family).0
}

/// The pipeline's record without a law family.
pub fn parse(dict: &ActorDictionary, raw_text: &str) -> (r: TaxaRecord)
    ensures
        record_spec(dict@, raw_text@, None, r),
{
    parse_v2(dict, raw_text, None)
}

} // verus!
