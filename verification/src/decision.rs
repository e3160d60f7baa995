//! The decision step: from all signals of a provision pick the
//! classification.  Tier priority first (governed actors, government v1,
//! government v2, offence as duty, rule), then the highest confidence within
//! the winning tier.

use vstd::prelude::*;
use crate::duty_patterns::{DutyClassification, DutyFamily, DutySubType, MatchSpan};
use crate::duty_type::{duty_types_of, map_to_duty_type, ClassificationResult, DutyType};
use crate::signals::{copy_signal, opt_signal, signal_of, signals_view, tier_hits, PatternSignal, SignalSet, SignalTier, SignalView};
use crate::actors::{ActorMatch, ActorMatchView};
use crate::duty_patterns::{gov_v1_spec, gov_v2_spec};
use crate::duty_patterns_offence::offence_spec;
use crate::duty_patterns_rule::rule_spec;
use crate::duty_patterns_v2::{actors_view, governed_best};
use crate::duty_type::classify_spec;
use crate::text::{cat, owned};

verus! {

/// Why the decision came out as it did.
#[derive(Debug, Clone, Copy, PartialEq, Eq, Structural)]
pub enum DecisionReason {
    /// The winner was chosen by tier priority, then confidence within the tier.
    TierPriority(SignalTier),
    /// No positive signal.
    NoSignals,
    /// Gated out by purpose.
    PurposeGated,
    /// The provision text was empty.
    EmptyText,
    /// A descriptive summary.
    DescriptiveSummary,
    /// A legal fiction.
    LegalFiction,
}

pub open spec fn tier_name(t: SignalTier) -> Seq<char> {
    match t {
        SignalTier::GovernedV2 => "GovernedV2"@,
        SignalTier::GovernmentV1 => "GovernmentV1"@,
        SignalTier::GovernmentV2 => "GovernmentV2"@,
        SignalTier::OffenceAsDuty => "OffenceAsDuty"@,
        SignalTier::Rule => "Rule"@,
    }
}

fn tier_name_exec(t: SignalTier) -> (r: &'static str)
    ensures
        r@ == tier_name(t),
{
    match t {
        SignalTier::GovernedV2 => "GovernedV2",
        SignalTier::GovernmentV1 => "GovernmentV1",
        SignalTier::GovernmentV2 => "GovernmentV2",
        SignalTier::OffenceAsDuty => "OffenceAsDuty",
        SignalTier::Rule => "Rule",
    }
}

pub open spec fn reason_label(r: DecisionReason) -> Seq<char> {
    match r {
        DecisionReason::TierPriority(t) => "tier_priority("@ + tier_name(t) + ")"@,
        DecisionReason::NoSignals => "no_signals"@,
        DecisionReason::PurposeGated => "purpose_gated"@,
        DecisionReason::EmptyText => "empty_text"@,
        DecisionReason::DescriptiveSummary => "descriptive_summary"@,
        DecisionReason::LegalFiction => "legal_fiction"@,
    }
}

impl DecisionReason {
    /// The reason as text, e.g. `tier_priority(GovernedV2)` or `no_signals`.
    pub fn label(&self) -> (r: String)
        ensures
            r@ == reason_label(*self),
    {
        match self {
            DecisionReason::TierPriority(t) => {
                let a = cat("tier_priority(", tier_name_exec(*t));
                cat(a.as_str(), ")")
            },
            DecisionReason::NoSignals => owned("no_signals"),
            DecisionReason::PurposeGated => owned("purpose_gated"),
            DecisionReason::EmptyText => owned("empty_text"),
            DecisionReason::DescriptiveSummary => owned("descriptive_summary"),
            DecisionReason::LegalFiction => owned("legal_fiction"),
        }
    }
}

/// How the decision was made.
#[derive(Debug, Clone)]
pub struct DecisionTrail {
    /// The winning signal, if any.
    pub winner: Option<PatternSignal>,
    pub reason: DecisionReason,
    /// Positive signals considered.
    pub candidates_count: usize,
    /// Rejected signals.
    pub rejections_count: usize,
}

/// Tiers by priority.
pub open spec fn tier_order() -> Seq<SignalTier> {
    seq![SignalTier::GovernedV2, SignalTier::GovernmentV1, SignalTier::GovernmentV2, SignalTier::OffenceAsDuty, SignalTier::Rule]
}

fn tier_order_exec() -> (r: Vec<SignalTier>)
    ensures
        r@ == tier_order(),
{
    vec![SignalTier::GovernedV2, SignalTier::GovernmentV1, SignalTier::GovernmentV2, SignalTier::OffenceAsDuty, SignalTier::Rule]
}

/// Index of the highest-confidence signal of `tier` among the first `n`
/// (the last one among equals), or -1.
pub open spec fn best_in(ms: Seq<SignalView>, tier: SignalTier, n: int) -> int
    decreases n,
{
    if n <= 0 {
        -1
    } else {
        let b = best_in(ms, tier, n - 1);
        if ms[n - 1].0 == tier && (b < 0 || ms[n - 1].3 >= ms[b].3) { n - 1 } else { b }
    }
}

/// The first tier (by priority) with a signal, and its best signal.
pub open spec fn pick(ms: Seq<SignalView>, order: Seq<SignalTier>) -> Option<(SignalTier, int)>
    decreases order.len(),
{
    if order.len() == 0 {
        None
    } else {
        let b = best_in(ms, order[0], ms.len() as int);
        if b >= 0 { Some((order[0], b)) } else { pick(ms, order.drop_first()) }
    }
}

/// The classification a signal stands for.
pub open spec fn class_of(s: SignalView) -> DutyClassification {
    DutyClassification { family: s.1, sub_type: s.2, confidence: s.3, span: s.4 }
}

/// The reason of the decision on a signal set.
pub open spec fn decide_reason(gated: bool, descriptive: bool, fiction: bool, ms: Seq<SignalView>) -> DecisionReason {
    if gated {
        DecisionReason::PurposeGated
    } else if descriptive {
        DecisionReason::DescriptiveSummary
    } else if fiction {
        DecisionReason::LegalFiction
    } else {
        match pick(ms, tier_order()) {
            Some(p) => DecisionReason::TierPriority(p.0),
            None => DecisionReason::NoSignals,
        }
    }
}

/// The index of the winning signal, if any.
pub open spec fn decide_winner(gated: bool, descriptive: bool, fiction: bool, ms: Seq<SignalView>) -> Option<int> {
    if gated || descriptive || fiction {
        None
    } else {
        match pick(ms, tier_order()) {
            Some(p) => Some(p.1),
            None => None,
        }
    }
}

proof fn lemma_best_in(ms: Seq<SignalView>, tier: SignalTier, n: int)
    requires
        0 <= n <= ms.len(),
    ensures
        -1 <= best_in(ms, tier, n) < n,
        best_in(ms, tier, n) >= 0 ==> ms[best_in(ms, tier, n)].0 == tier,
        best_in(ms, tier, n) >= 0 ==> forall|i: int| 0 <= i < n && (#[trigger] ms[i]).0 == tier ==> ms[i].3 <= ms[best_in(ms, tier, n)].3,
        best_in(ms, tier, n) < 0 ==> forall|i: int| 0 <= i < n ==> (#[trigger] ms[i]).0 != tier,
    decreases n,
{
    if n > 0 {
        lemma_best_in(ms, tier, n - 1);
    }
}

proof fn lemma_pick(ms: Seq<SignalView>, order: Seq<SignalTier>)
    ensures
        pick(ms, order) is None ==> forall|k: int, i: int|
            0 <= k < order.len() && 0 <= i < ms.len() ==> (#[trigger] ms[i]).0 != #[trigger] order[k],
        pick(ms, order) matches Some(p) ==> {
            &&& 0 <= p.1 < ms.len()
            &&& ms[p.1].0 == p.0
            &&& exists|k: int| 0 <= k < order.len() && order[k] == p.0
                && forall|j: int, i: int| 0 <= j < k && 0 <= i < ms.len() ==> (#[trigger] ms[i]).0 != #[trigger] order[j]
            &&& forall|i: int| 0 <= i < ms.len() && (#[trigger] ms[i]).0 == p.0 ==> ms[i].3 <= ms[p.1].3
        },
    decreases order.len(),
{
    if order.len() > 0 {
        lemma_best_in(ms, order[0], ms.len() as int);
        lemma_pick(ms, order.drop_first());
        let b = best_in(ms, order[0], ms.len() as int);
        if b >= 0 {
            assert(order[0] == order[0]);
            assert forall|j: int, i: int| 0 <= j < 0 && 0 <= i < ms.len() implies (#[trigger] ms[i]).0 != #[trigger] order[j] by {}
        } else {
            let rest = order.drop_first();
            if pick(ms, rest) is None {
                assert forall|k: int, i: int| 0 <= k < order.len() && 0 <= i < ms.len() implies (#[trigger] ms[i]).0 != #[trigger] order[k] by {
                    if k > 0 {
                        assert(order[k] == rest[k - 1]);
                    }
                }
            } else {
                let p = pick(ms, rest)->0;
                let k = choose|k: int| 0 <= k < rest.len() && rest[k] == p.0
                    && forall|j: int, i: int| 0 <= j < k && 0 <= i < ms.len() ==> (#[trigger] ms[i]).0 != #[trigger] rest[j];
                assert(order[k + 1] == p.0);
                assert forall|j: int, i: int| 0 <= j < k + 1 && 0 <= i < ms.len() implies (#[trigger] ms[i]).0 != #[trigger] order[j] by {
                    if j > 0 {
                        assert(order[j] == rest[j - 1]);
                    }
                }
            }
        }
    }
}

/// Tier priority, then confidence: when the decision picks a winner of tier
/// `t`, no signal belongs to a tier ranked before `t`, and no signal of `t`
/// has a higher confidence; there is no winner only when no signal belongs
/// to any tier.
pub proof fn lemma_decision_order(ms: Seq<SignalView>)
    ensures
        pick(ms, tier_order()) is None ==> ms.len() == 0,
        pick(ms, tier_order()) matches Some(p) ==> {
            &&& 0 <= p.1 < ms.len()
            &&& ms[p.1].0 == p.0
            &&& forall|i: int| 0 <= i < ms.len() && (#[trigger] ms[i]).0 == p.0 ==> ms[i].3 <= ms[p.1].3
            &&& exists|k: int| 0 <= k < tier_order().len() && tier_order()[k] == p.0
                && forall|j: int, i: int| 0 <= j < k && 0 <= i < ms.len() ==> (#[trigger] ms[i]).0 != #[trigger] tier_order()[j]
        },
{
    lemma_pick(ms, tier_order());
    if pick(ms, tier_order()) is None && ms.len() > 0 {
        let t = ms[0].0;
        let k: int = match t {
            SignalTier::GovernedV2 => 0,
            SignalTier::GovernmentV1 => 1,
            SignalTier::GovernmentV2 => 2,
            SignalTier::OffenceAsDuty => 3,
            SignalTier::Rule => 4,
        };
        assert(tier_order()[k] == t);
        assert(ms[0].0 != tier_order()[k]);
    }
}

/// The hit a tier's matcher gives.
pub open spec fn tier_option(keys: Seq<Seq<char>>, text: Seq<char>, gv: Seq<ActorMatchView>, t: SignalTier) -> Option<DutyClassification> {
    match t {
        SignalTier::GovernedV2 => governed_best(text, gv),
        SignalTier::GovernmentV1 => gov_v1_spec(keys, text),
        SignalTier::GovernmentV2 => gov_v2_spec(keys, text),
        SignalTier::OffenceAsDuty => offence_spec(text),
        SignalTier::Rule => rule_spec(text),
    }
}

/// A signal that is its tier's hit.
pub open spec fn faithful(keys: Seq<Seq<char>>, text: Seq<char>, gv: Seq<ActorMatchView>, s: SignalView) -> bool {
    &&& tier_option(keys, text, gv, s.0) == Some(class_of(s))
    &&& s == signal_of(s.0, class_of(s))
}

proof fn lemma_append_hit(keys: Seq<Seq<char>>, text: Seq<char>, gv: Seq<ActorMatchView>, a: Seq<SignalView>, t: SignalTier)
    requires
        forall|i: int| 0 <= i < a.len() ==> faithful(keys, text, gv, #[trigger] a[i]),
    ensures
        forall|i: int| 0 <= i < (a + opt_signal(t, tier_option(keys, text, gv, t))).len()
            ==> faithful(keys, text, gv, #[trigger] (a + opt_signal(t, tier_option(keys, text, gv, t)))[i]),
        forall|i: int| 0 <= i < a.len() ==> (a + opt_signal(t, tier_option(keys, text, gv, t)))[i] == a[i],
        tier_option(keys, text, gv, t) is Some ==> (a + opt_signal(t, tier_option(keys, text, gv, t)))[a.len() as int]
            == signal_of(t, tier_option(keys, text, gv, t)->0),
{
    let o = tier_option(keys, text, gv, t);
    let b = a + opt_signal(t, o);
    assert forall|i: int| 0 <= i < b.len() implies faithful(keys, text, gv, #[trigger] b[i]) by {
        if i < a.len() {
            assert(b[i] == a[i]);
        } else {
            let dc = o->0;
            assert(b[i] == signal_of(t, dc));
            assert(class_of(signal_of(t, dc)) == dc);
        }
    }
}

/// With no purpose gate, no descriptive summary and no legal fiction,
/// deciding over all the tiers' hits gives what the first-match-wins cascade
/// of `duty_type::classify` gives: the hit of the first tier, in priority
/// order, that has one.
pub proof fn lemma_decide_replicates_cascade(keys: Seq<Seq<char>>, text: Seq<char>, governed: Seq<ActorMatch>)
    ensures
        ({
            let ms = tier_hits(keys, text, governed);
            match decide_winner(false, false, false, ms) {
                Some(b) => Some(class_of(ms[b])),
                None => None,
            }
        }) == classify_spec(keys, text, governed),
{
    let gv = actors_view(governed);
    let ms = tier_hits(keys, text, governed);
    let o = |t: SignalTier| tier_option(keys, text, gv, t);
    let h0 = Seq::<SignalView>::empty();
    let h1 = h0 + opt_signal(SignalTier::GovernedV2, o(SignalTier::GovernedV2));
    let h2 = h1 + opt_signal(SignalTier::GovernmentV1, o(SignalTier::GovernmentV1));
    let h3 = h2 + opt_signal(SignalTier::GovernmentV2, o(SignalTier::GovernmentV2));
    let h4 = h3 + opt_signal(SignalTier::OffenceAsDuty, o(SignalTier::OffenceAsDuty));
    let h5 = h4 + opt_signal(SignalTier::Rule, o(SignalTier::Rule));
    assert(h1 =~= opt_signal(SignalTier::GovernedV2, governed_best(text, gv)));
    assert(ms == h5);
    lemma_append_hit(keys, text, gv, h0, SignalTier::GovernedV2);
    lemma_append_hit(keys, text, gv, h1, SignalTier::GovernmentV1);
    lemma_append_hit(keys, text, gv, h2, SignalTier::GovernmentV2);
    lemma_append_hit(keys, text, gv, h3, SignalTier::OffenceAsDuty);
    lemma_append_hit(keys, text, gv, h4, SignalTier::Rule);
    // each tier with a hit has its signal in ms
    assert(o(SignalTier::GovernedV2) is Some ==> ms[0].0 == SignalTier::GovernedV2);
    assert(o(SignalTier::GovernmentV1) is Some ==> ms[h1.len() as int].0 == SignalTier::GovernmentV1);
    assert(o(SignalTier::GovernmentV2) is Some ==> ms[h2.len() as int].0 == SignalTier::GovernmentV2);
    assert(o(SignalTier::OffenceAsDuty) is Some ==> ms[h3.len() as int].0 == SignalTier::OffenceAsDuty);
    assert(o(SignalTier::Rule) is Some ==> ms[h4.len() as int].0 == SignalTier::Rule);
    lemma_pick(ms, tier_order());
    let order = tier_order();
    match pick(ms, order) {
        Some(p) => {
            let k = choose|k: int| 0 <= k < order.len() && order[k] == p.0
                && forall|j: int, i: int| 0 <= j < k && 0 <= i < ms.len() ==> (#[trigger] ms[i]).0 != #[trigger] order[j];
            assert(faithful(keys, text, gv, ms[p.1]));
            assert(o(p.0) == Some(class_of(ms[p.1])));
            if k >= 1 {
                assert(order[0] == SignalTier::GovernedV2);
                if o(SignalTier::GovernedV2) is Some {
                    assert(ms[0].0 != order[0]);
                }
            }
            if k >= 2 {
                assert(order[1] == SignalTier::GovernmentV1);
                if o(SignalTier::GovernmentV1) is Some {
                    assert(ms[h1.len() as int].0 != order[1]);
                }
            }
            if k >= 3 {
                assert(order[2] == SignalTier::GovernmentV2);
                if o(SignalTier::GovernmentV2) is Some {
                    assert(ms[h2.len() as int].0 != order[2]);
                }
            }
            if k >= 4 {
                assert(order[3] == SignalTier::OffenceAsDuty);
                if o(SignalTier::OffenceAsDuty) is Some {
                    assert(ms[h3.len() as int].0 != order[3]);
                }
            }
        },
        None => {
            assert(order[0] == SignalTier::GovernedV2 && order[1] == SignalTier::GovernmentV1);
            assert(order[2] == SignalTier::GovernmentV2 && order[3] == SignalTier::OffenceAsDuty && order[4] == SignalTier::Rule);
            if o(SignalTier::GovernedV2) is Some {
                assert(ms[0].0 != order[0]);
            }
            if o(SignalTier::GovernmentV1) is Some {
                assert(ms[h1.len() as int].0 != order[1]);
            }
            if o(SignalTier::GovernmentV2) is Some {
                assert(ms[h2.len() as int].0 != order[2]);
            }
            if o(SignalTier::OffenceAsDuty) is Some {
                assert(ms[h3.len() as int].0 != order[3]);
            }
            if o(SignalTier::Rule) is Some {
                assert(ms[h4.len() as int].0 != order[4]);
            }
        },
    }
}

fn best_of_tier(ms: &Vec<PatternSignal>, tier: SignalTier) -> (r: Option<usize>)
    ensures
        match r {
            Some(b) => best_in(signals_view(ms@), tier, ms@.len() as int) == b as int,
            None => best_in(signals_view(ms@), tier, ms@.len() as int) < 0,
        },
{
    let ghost v = signals_view(ms@);
    let mut best: Option<usize> = None;
    let mut i: usize = 0;
    while i < ms.len()
        invariant
            i <= ms.len(),
            v == signals_view(ms@),
            match best {
                Some(b) => best_in(v, tier, i as int) == b as int && b < i,
                None => best_in(v, tier, i as int) < 0,
            },
        decreases ms.len() - i,
    {
        proof {
            assert(v[i as int] == ms@[i as int]@);
            lemma_best_in(v, tier, i as int);
        }
        if ms[i].tier == tier {
            let better = match best {
                None => true,
                Some(b) => {
                    proof {
                        assert(v[b as int] == ms@[b as int]@);
                    }
                    ms[i].confidence >= ms[b].confidence
                },
            };
            if better {
                best = Some(i);
            }
        }
        i += 1;
    }
    best
}

/// Pick the classification from a signal set: nothing for a provision gated
/// out by purpose, a descriptive summary or a legal fiction; else the best
/// signal of the highest-priority tier that has one.
pub fn decide(signals: &SignalSet) -> (r: (ClassificationResult, DecisionTrail))
    ensures
        ({
            let ms = signals_view(signals.matches@);
            let w = decide_winner(signals.purpose_gated, signals.is_descriptive_summary, signals.is_legal_fiction, ms);
            &&& r.1.reason == decide_reason(signals.purpose_gated, signals.is_descriptive_summary, signals.is_legal_fiction, ms)
            &&& r.1.candidates_count == signals.matches@.len()
            &&& r.1.rejections_count == signals.rejected@.len()
            &&& match w {
                Some(b) => {
                    &&& r.1.winner matches Some(s) && s@ == ms[b]
                    &&& r.0.classification == Some(class_of(ms[b]))
                    &&& r.0.duty_types@ == duty_types_of(class_of(ms[b]))
                },
                None => {
                    &&& r.1.winner is None
                    &&& r.0.classification is None
                    &&& r.0.duty_types@.len() == 0
                },
            }
        }),
{
    let candidates = signals.matches.len();
    let rejections = signals.rejected.len();
    let ghost ms = signals_view(signals.matches@);
    if signals.purpose_gated || signals.is_descriptive_summary || signals.is_legal_fiction {
        let reason = if signals.purpose_gated {
            DecisionReason::PurposeGated
        } else if signals.is_descriptive_summary {
            DecisionReason::DescriptiveSummary
        } else {
            DecisionReason::LegalFiction
        };
        return (
            ClassificationResult { duty_types: Vec::new(), classification: None },
            DecisionTrail { winner: None, reason, candidates_count: candidates, rejections_count: rejections },
        );
    }
    let order = tier_order_exec();
    let mut k: usize = 0;
    proof {
        assert(order@.skip(0) =~= order@);
    }
    while k < order.len()
        invariant
            k <= order.len(),
            order@ == tier_order(),
            ms == signals_view(signals.matches@),
            !signals.purpose_gated && !signals.is_descriptive_summary && !signals.is_legal_fiction,
            candidates == signals.matches@.len(),
            rejections == signals.rejected@.len(),
            pick(ms, tier_order()) == pick(ms, order@.skip(k as int)),
        decreases order.len() - k,
    {
        proof {
            assert(order@.skip(k as int)[0] == order@[k as int]);
            assert(order@.skip(k as int).drop_first() =~= order@.skip(k + 1));
        }
        let tier = order[k];
        match best_of_tier(&signals.matches, tier) {
            Some(b) => {
                proof {
                    lemma_best_in(ms, tier, ms.len() as int);
                    assert(ms[b as int] == signals.matches@[b as int]@);
                }
                let w = &signals.matches[b];
                let dc = DutyClassification { family: w.family, sub_type: w.sub_type, confidence: w.confidence, span: w.span };
                let duty_types = map_to_duty_type(&dc);
                let winner = copy_signal(w);
                return (
                    ClassificationResult { duty_types, classification: Some(dc) },
                    DecisionTrail {
                        winner: Some(winner),
                        reason: DecisionReason::TierPriority(tier),
                        candidates_count: candidates,
                        rejections_count: rejections,
                    },
                );
            },
            None => {},
        }
        k += 1;
    }
    (
        ClassificationResult { duty_types: Vec::new(), classification: None },
        DecisionTrail { winner: None, reason: DecisionReason::NoSignals, candidates_count: candidates, rejections_count: rejections },
    )
}

} // verus!
