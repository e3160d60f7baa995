use fractalaw_taxa::decision::{decide, DecisionReason};
use fractalaw_taxa::duty_patterns::{DutyFamily, DutySubType, C50, C60, C70, C80, C90};
use fractalaw_taxa::duty_type::DutyType;
use fractalaw_taxa::signals::{PatternSignal, SignalSet, SignalTier};

/// 0.95 in billionths, as `f32` holds it.
const C95: u32 = 949_999_988;

fn make_signal(tier: SignalTier, family: DutyFamily, sub_type: DutySubType, confidence: u32) -> PatternSignal {
    PatternSignal {
        tier,
        family,
        sub_type,
        confidence,
        span: None,
        actor_keyword: None,
        actor_label: None,
    }
}

#[test]
fn empty_signals_returns_no_classification() {
    let signals = SignalSet::default();
    let (result, trail) = decide(&signals);
    assert!(result.duty_types.is_empty());
    assert!(trail.winner.is_none());
    assert_eq!(trail.reason, DecisionReason::NoSignals);
}

#[test]
fn purpose_gated_returns_empty() {
    let signals = SignalSet {
        purpose_gated: true,
        matches: vec![make_signal(
            SignalTier::GovernedV2,
            DutyFamily::Governed,
            DutySubType::Prescriptive,
            C80,
        )],
        ..Default::default()
    };
    let (result, trail) = decide(&signals);
    assert!(result.duty_types.is_empty());
    assert_eq!(trail.reason, DecisionReason::PurposeGated);
}

#[test]
fn tier_priority_wins_over_confidence() {
    let signals = SignalSet {
        matches: vec![
            make_signal(SignalTier::GovernmentV1, DutyFamily::Government, DutySubType::Enforcement, C95),
            make_signal(SignalTier::GovernedV2, DutyFamily::Governed, DutySubType::Prescriptive, C70),
        ],
        ..Default::default()
    };
    let (_, trail) = decide(&signals);
    // GovernedV2 wins despite lower confidence — tier priority
    assert_eq!(trail.winner.as_ref().unwrap().tier, SignalTier::GovernedV2);
}

#[test]
fn highest_confidence_within_tier() {
    let signals = SignalSet {
        matches: vec![
            make_signal(SignalTier::GovernedV2, DutyFamily::Governed, DutySubType::Prescriptive, C60),
            make_signal(SignalTier::GovernedV2, DutyFamily::Governed, DutySubType::GeneralDuty, C90),
        ],
        ..Default::default()
    };
    let (_, trail) = decide(&signals);
    assert_eq!(trail.winner.as_ref().unwrap().sub_type, DutySubType::GeneralDuty);
}

#[test]
fn enabling_maps_to_liberty() {
    let signals = SignalSet {
        matches: vec![make_signal(
            SignalTier::GovernedV2,
            DutyFamily::Governed,
            DutySubType::Enabling,
            C50,
        )],
        ..Default::default()
    };
    let (result, _) = decide(&signals);
    assert_eq!(result.duty_types, vec![DutyType::Liberty]);
}

#[test]
fn legal_fiction_returns_empty() {
    let signals = SignalSet {
        is_legal_fiction: true,
        ..Default::default()
    };
    let (result, trail) = decide(&signals);
    assert!(result.duty_types.is_empty());
    assert_eq!(trail.reason, DecisionReason::LegalFiction);
}

#[test]
fn equal_confidence_last_signal_wins() {
    let signals = SignalSet {
        matches: vec![
            make_signal(SignalTier::Rule, DutyFamily::Rule, DutySubType::ThingObligation, C70),
            make_signal(SignalTier::Rule, DutyFamily::Rule, DutySubType::Enabling, C70),
        ],
        rejected: Vec::new(),
        ..Default::default()
    };
    let (result, trail) = decide(&signals);
    assert_eq!(trail.winner.as_ref().unwrap().sub_type, DutySubType::Enabling);
    assert_eq!(trail.reason, DecisionReason::TierPriority(SignalTier::Rule));
    assert_eq!(trail.candidates_count, 2);
    assert_eq!(result.duty_types, vec![DutyType::Liberty]);
    assert_eq!(result.classification.unwrap().confidence, C70);
}

#[test]
fn reason_labels() {
    assert_eq!(DecisionReason::TierPriority(SignalTier::GovernedV2).label(), "tier_priority(GovernedV2)");
    assert_eq!(DecisionReason::NoSignals.label(), "no_signals");
    assert_eq!(DecisionReason::LegalFiction.label(), "legal_fiction");
}
