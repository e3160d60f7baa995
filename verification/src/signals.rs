//! Signal extraction: every pattern tier runs on a provision and contributes
//! its hit (or its rejection) to a [`SignalSet`]; the decision step picks the
//! winner afterwards.

use vstd::prelude::*;
use crate::actors::{copy_match, ActorMatch, ActorMatchView};
use crate::text::owned;
use crate::duty_patterns::{
    gov_v1_spec, gov_v2_spec, keys_view, match_government_v1, match_government_v2, DutyClassification, DutyFamily,
    DutySubType, MatchSpan,
};
use crate::duty_patterns_offence::{match_offence_as_duty, offence_spec};
use crate::duty_patterns_rule::{match_rule, rule_spec};
use crate::duty_patterns_v2::{actors_view, governed_best, match_governed_v2};

verus! {

/// The pattern tier that produced a signal.
#[derive(Debug, Clone, Copy, PartialEq, Eq, Structural, Hash)]
pub enum SignalTier {
    GovernedV2,
    GovernmentV1,
    GovernmentV2,
    OffenceAsDuty,
    Rule,
}

/// A positive pattern hit.
#[derive(Debug, Clone, PartialEq)]
pub struct PatternSignal {
    pub tier: SignalTier,
    pub family: DutyFamily,
    pub sub_type: DutySubType,
    /// Confidence in billionths.
    pub confidence: u32,
    pub span: Option<MatchSpan>,
    /// The actor keyword that produced the hit, where actor-anchored.
    pub actor_keyword: Option<String>,
    /// The actor label the hit relates to.
    pub actor_label: Option<String>,
}

/// (tier, family, sub-type, confidence, span, actor keyword, actor label)
pub type SignalView = (SignalTier, DutyFamily, DutySubType, u32, Option<MatchSpan>, Option<Seq<char>>, Option<Seq<char>>);

pub open spec fn opt_str(o: Option<String>) -> Option<Seq<char>> {
    match o {
        Some(s) => Some(s@),
        None => None,
    }
}

impl View for PatternSignal {
    type V = SignalView;

    open spec fn view(&self) -> SignalView {
        (self.tier, self.family, self.sub_type, self.confidence, self.span, opt_str(self.actor_keyword), opt_str(self.actor_label))
    }
}

/// Why a candidate was rejected.
#[derive(Debug, Clone, Copy, PartialEq, Eq, Structural, Hash)]
pub enum RejectionReason {
    SubordinateClause,
    EpistemicMay,
    DefinitionalConstruction,
    PenaltyProvision,
    LegalFiction,
    DescriptiveSummary,
    PurposeGated,
}

/// A rejected candidate and the reason.
#[derive(Debug, Clone, PartialEq)]
pub struct RejectedSignal {
    pub tier: SignalTier,
    pub reason: RejectionReason,
    pub actor_keyword: Option<String>,
    pub span: Option<MatchSpan>,
}

/// (tier, reason, actor keyword, span)
pub type RejectedView = (SignalTier, RejectionReason, Option<Seq<char>>, Option<MatchSpan>);

impl View for RejectedSignal {
    type V = RejectedView;

    open spec fn view(&self) -> RejectedView {
        (self.tier, self.reason, opt_str(self.actor_keyword), self.span)
    }
}

pub open spec fn signals_view(v: Seq<PatternSignal>) -> Seq<SignalView> {
    v.map_values(|s: PatternSignal| s@)
}

pub open spec fn rejected_view(v: Seq<RejectedSignal>) -> Seq<RejectedView> {
    v.map_values(|s: RejectedSignal| s@)
}

/// The signal a tier makes of a classification (no actor recorded).
pub open spec fn signal_of(tier: SignalTier, dc: DutyClassification) -> SignalView {
    (tier, dc.family, dc.sub_type, dc.confidence, dc.span, None, None)
}

pub fn signal_from(tier: SignalTier, dc: DutyClassification) -> (r: PatternSignal)
    ensures
        r@ == signal_of(tier, dc),
{
    PatternSignal {
        tier,
        family: dc.family,
        sub_type: dc.sub_type,
        confidence: dc.confidence,
        span: dc.span,
        actor_keyword: None,
        actor_label: None,
    }
}


/// Everything the tiers found in one provision, before the decision.
#[derive(Debug, Clone)]
pub struct SignalSet {
    /// Positive hits of all tiers.
    pub matches: Vec<PatternSignal>,
    /// Rejected candidates, with reasons.
    pub rejected: Vec<RejectedSignal>,
    pub governed_actors: Vec<ActorMatch>,
    pub government_actors: Vec<ActorMatch>,
    pub purposes: Vec<&'static str>,
    pub is_legal_fiction: bool,
    pub is_descriptive_summary: bool,
    pub purpose_gated: bool,
}

impl Default for SignalSet {
    fn default() -> (r: SignalSet)
        ensures
            r.matches@.len() == 0,
            r.rejected@.len() == 0,
            r.governed_actors@.len() == 0,
            r.government_actors@.len() == 0,
            r.purposes@.len() == 0,
            !r.is_legal_fiction,
            !r.is_descriptive_summary,
            !r.purpose_gated,
    {
        SignalSet {
            matches: Vec::new(),
            rejected: Vec::new(),
            governed_actors: Vec::new(),
            government_actors: Vec::new(),
            purposes: Vec::new(),
            is_legal_fiction: false,
            is_descriptive_summary: false,
            purpose_gated: false,
        }
    }
}

/// The signal of a tier's result, if it has one.
pub open spec fn opt_signal(tier: SignalTier, o: Option<DutyClassification>) -> Seq<SignalView> {
    match o {
        Some(dc) => seq![signal_of(tier, dc)],
        None => seq![],
    }
}

/// The hits of the five tiers on a lower-cased provision, in tier order.
pub open spec fn tier_hits(keys: Seq<Seq<char>>, text: Seq<char>, governed: Seq<ActorMatch>) -> Seq<SignalView> {
    tier_hits_v(keys, text, actors_view(governed))
}

/// The same, over the governed actors' views.
pub open spec fn tier_hits_v(keys: Seq<Seq<char>>, text: Seq<char>, governed: Seq<ActorMatchView>) -> Seq<SignalView> {
    opt_signal(SignalTier::GovernedV2, governed_best(text, governed))
        + opt_signal(SignalTier::GovernmentV1, gov_v1_spec(keys, text))
        + opt_signal(SignalTier::GovernmentV2, gov_v2_spec(keys, text))
        + opt_signal(SignalTier::OffenceAsDuty, offence_spec(text))
        + opt_signal(SignalTier::Rule, rule_spec(text))
}

/// A hit turned away as a legal fiction.
pub open spec fn as_fiction(s: SignalView) -> RejectedView {
    (s.0, RejectionReason::LegalFiction, s.5, s.4)
}

fn copy_actors(v: &[ActorMatch]) -> (r: Vec<ActorMatch>)
    ensures
        actors_view(r@) == actors_view(v@),
{
    let mut out: Vec<ActorMatch> = Vec::new();
    let mut i: usize = 0;
    while i < v.len()
        invariant
            i <= v.len(),
            out@.len() == i,
            actors_view(out@) == actors_view(v@.take(i as int)),
        decreases v.len() - i,
    {
        let m = copy_match(&v[i]);
        let ghost prev = out@;
        out.push(m);
        proof {
            assert forall|j: int| 0 <= j < i + 1 implies actors_view(out@)[j] == actors_view(v@.take(i + 1))[j] by {
                if j < i {
                    assert(actors_view(prev)[j] == actors_view(v@.take(i as int))[j]);
                    assert(out@[j] == prev[j]);
                }
            }
            assert(actors_view(out@) =~= actors_view(v@.take(i + 1)));
        }
        i += 1;
    }
    proof {
        assert(v@.take(v.len() as int) =~= v@);
    }
    out
}

fn copy_purposes(v: &[&'static str]) -> (r: Vec<&'static str>)
    ensures
        r@ == v@,
{
    let mut out: Vec<&'static str> = Vec::new();
    let mut i: usize = 0;
    while i < v.len()
        invariant
            i <= v.len(),
            out@ == v@.take(i as int),
        decreases v.len() - i,
    {
        out.push(v[i]);
        proof {
            assert(out@ =~= v@.take(i + 1));
        }
        i += 1;
    }
    proof {
        assert(v@.take(v.len() as int) =~= v@);
    }
    out
}

fn push_hit(matches: &mut Vec<PatternSignal>, tier: SignalTier, o: Option<DutyClassification>)
    ensures
        signals_view(final(matches)@) == signals_view(old(matches)@) + opt_signal(tier, o),
{
    match o {
        Some(dc) => {
            let sig = signal_from(tier, dc);
            matches.push(sig);
            proof {
                assert(signals_view(matches@) =~= signals_view(old(matches)@) + opt_signal(tier, o));
            }
        },
        None => {
            proof {
                assert(signals_view(matches@) =~= signals_view(old(matches)@) + opt_signal(tier, o));
            }
        },
    }
}

/// Where the hits of the tiers go: for a legal fiction with any hit, every
/// hit becomes a rejection (same tier, keyword and span) and none is kept;
/// otherwise all are kept and none is rejected.
pub fn file_hits(matches: Vec<PatternSignal>, is_legal_fiction: bool) -> (r: (Vec<PatternSignal>, Vec<RejectedSignal>))
    ensures
        ({
            let hits = signals_view(matches@);
            if is_legal_fiction && hits.len() > 0 {
                signals_view(r.0@) == Seq::<SignalView>::empty()
                    && rejected_view(r.1@) == hits.map_values(|s: SignalView| as_fiction(s))
            } else {
                signals_view(r.0@) == hits && rejected_view(r.1@) == Seq::<RejectedView>::empty()
            }
        }),
{
    let ghost hits = signals_view(matches@);
    if is_legal_fiction && matches.len() > 0 {
        let mut rejected: Vec<RejectedSignal> = Vec::new();
        let mut i: usize = 0;
        while i < matches.len()
            invariant
                i <= matches.len(),
                signals_view(matches@) == hits,
                rejected@.len() == i,
                rejected_view(rejected@) == hits.take(i as int).map_values(|s: SignalView| as_fiction(s)),
            decreases matches.len() - i,
        {
            let sig = &matches[i];
            let kw = match &sig.actor_keyword {
                Some(k) => Some(owned(k.as_str())),
                None => None,
            };
            let ghost prev = rejected@;
            rejected.push(RejectedSignal { tier: sig.tier, reason: RejectionReason::LegalFiction, actor_keyword: kw, span: sig.span });
            proof {
                assert(rejected@[i as int]@ == as_fiction(hits[i as int]));
                assert forall|j: int| 0 <= j < i + 1 implies rejected_view(rejected@)[j] == hits.take(i + 1).map_values(|s: SignalView| as_fiction(s))[j] by {
                    if j < i {
                        assert(rejected_view(prev)[j] == hits.take(i as int).map_values(|s: SignalView| as_fiction(s))[j]);
                        assert(rejected@[j] == prev[j]);
                    }
                }
                assert(hits[i as int] == matches@[i as int]@);
                assert(rejected_view(rejected@) =~= hits.take(i + 1).map_values(|s: SignalView| as_fiction(s)));
            }
            i += 1;
        }
        proof {
            assert(hits.take(hits.len() as int) =~= hits);
        }
        let empty: Vec<PatternSignal> = Vec::new();
        proof {
            assert(signals_view(empty@) =~= Seq::<SignalView>::empty());
        }
        return (empty, rejected);
    }
    let none: Vec<RejectedSignal> = Vec::new();
    proof {
        assert(rejected_view(none@) =~= Seq::<RejectedView>::empty());
    }
    (matches, none)
}

/// Run every tier on a lower-cased provision and collect the hits.  Nothing
/// is extracted for a provision gated out by purpose or recognised as a
/// descriptive summary; for a legal fiction every hit becomes a rejection.
/// `government_keywords` are the dictionary's government actor keywords.
pub fn extract_all(
    government_keywords: &Vec<String>,
    lower: &str,
    governed_actors: &[ActorMatch],
    government_actors: &[ActorMatch],
    purposes: &[&'static str],
    is_legal_fiction: bool,
    is_descriptive_summary: bool,
    purpose_gated: bool,
) -> (r: SignalSet)
    ensures
        actors_view(r.governed_actors@) == actors_view(governed_actors@),
        actors_view(r.government_actors@) == actors_view(government_actors@),
        r.purposes@ == purposes@,
        r.is_legal_fiction == is_legal_fiction,
        r.is_descriptive_summary == is_descriptive_summary,
        r.purpose_gated == purpose_gated,
        ({
            let hits = tier_hits(keys_view(*government_keywords), lower@, governed_actors@);
            if purpose_gated || is_descriptive_summary {
                signals_view(r.matches@) == Seq::<SignalView>::empty() && rejected_view(r.rejected@) == Seq::<RejectedView>::empty()
            } else if is_legal_fiction && hits.len() > 0 {
                signals_view(r.matches@) == Seq::<SignalView>::empty()
                    && rejected_view(r.rejected@) == hits.map_values(|s: SignalView| as_fiction(s))
            } else {
                signals_view(r.matches@) == hits && rejected_view(r.rejected@) == Seq::<RejectedView>::empty()
            }
        }),
{
    let mut signals = SignalSet {
        matches: Vec::new(),
        rejected: Vec::new(),
        governed_actors: copy_actors(governed_actors),
        government_actors: copy_actors(government_actors),
        purposes: copy_purposes(purposes),
        is_legal_fiction,
        is_descriptive_summary,
        purpose_gated,
    };
    proof {
        assert(signals_view(signals.matches@) =~= seq![]);
        assert(rejected_view(signals.rejected@) =~= seq![]);
    }
    if purpose_gated || is_descriptive_summary {
        return signals;
    }
    let ghost keys = keys_view(*government_keywords);
    let mut matches: Vec<PatternSignal> = Vec::new();
    proof {
        assert(signals_view(matches@) =~= seq![]);
    }
    push_hit(&mut matches, SignalTier::GovernedV2, match_governed_v2(lower, governed_actors));
    push_hit(&mut matches, SignalTier::GovernmentV1, match_government_v1(government_keywords, lower));
    push_hit(&mut matches, SignalTier::GovernmentV2, match_government_v2(government_keywords, lower));
    push_hit(&mut matches, SignalTier::OffenceAsDuty, match_offence_as_duty(lower));
    push_hit(&mut matches, SignalTier::Rule, match_rule(lower));
    let ghost hits = tier_hits(keys, lower@, governed_actors@);
    proof {
        assert(signals_view(matches@) =~= hits);
    }
    let (kept, rejected) = file_hits(matches, is_legal_fiction);
    signals.matches = kept;
    signals.rejected = rejected;
    signals
}


fn copy_opt_string(o: &Option<String>) -> (r: Option<String>)
    ensures
        opt_str(r) == opt_str(*o),
{
    match o {
        Some(k) => Some(owned(k.as_str())),
        None => None,
    }
}

/// A copy of a signal.
pub fn copy_signal(s: &PatternSignal) -> (r: PatternSignal)
    ensures
        r@ == s@,
{
    PatternSignal {
        tier: s.tier,
        family: s.family,
        sub_type: s.sub_type,
        confidence: s.confidence,
        span: s.span,
        actor_keyword: copy_opt_string(&s.actor_keyword),
        actor_label: copy_opt_string(&s.actor_label),
    }
}

} // verus!
