use fractalaw_taxa::actors::ActorMatch;
use fractalaw_taxa::signals::{extract_all, file_hits, PatternSignal, RejectedSignal, RejectionReason, SignalTier};
use fractalaw_taxa::duty_patterns::{DutyFamily, MatchSpan};
use fractalaw_taxa::duty_patterns::DutySubType;

fn no_keywords() -> Vec<String> {
    Vec::new()
}

#[test]
fn empty_text_produces_empty_signals() {
    let signals = extract_all(&no_keywords(), "", &[], &[], &[], false, false, false);
    assert!(signals.matches.is_empty());
    assert!(signals.rejected.is_empty());
}

#[test]
fn purpose_gated_skips_extraction() {
    let signals = extract_all(
        &no_keywords(),
        "the employer shall ensure safety",
        &[],
        &[],
        &["Interpretation+Definition"],
        false,
        false,
        true, // purpose_gated
    );
    assert!(signals.matches.is_empty());
    assert!(signals.purpose_gated);
}

#[test]
fn descriptive_summary_skips_extraction() {
    let signals = extract_all(
        &no_keywords(),
        "the employer shall ensure safety",
        &[],
        &[],
        &[],
        false,
        true, // descriptive_summary
        false,
    );
    assert!(signals.matches.is_empty());
    assert!(signals.is_descriptive_summary);
}

#[test]
fn legal_fiction_moves_matches_to_rejected() {
    let actors = vec![ActorMatch {
        label: "Org: Employer".into(),
        keyword: "employer".into(),
        offset: 4,
    }];
    let signals = extract_all(
        &no_keywords(),
        "the employer shall ensure health and safety",
        &actors,
        &[],
        &[],
        true, // is_legal_fiction
        false,
        false,
    );
    assert!(signals.matches.is_empty());
    assert!(!signals.rejected.is_empty());
    assert_eq!(signals.rejected[0].reason, RejectionReason::LegalFiction);
}

#[test]
fn tiers_collected_in_order() {
    let actors = vec![ActorMatch {
        label: "Org: Employer".into(),
        keyword: "employer".into(),
        offset: 4,
    }];
    // Governed actor anchored to "shall ensure ... health", and offence language.
    let signals = extract_all(
        &no_keywords(),
        "the employer shall ensure health and safety. it is an offence for a person to fail to comply.",
        &actors,
        &[],
        &[],
        false,
        false,
        false,
    );
    let tiers: Vec<SignalTier> = signals.matches.iter().map(|s| s.tier).collect();
    assert_eq!(tiers, vec![SignalTier::GovernedV2, SignalTier::OffenceAsDuty]);
    assert_eq!(signals.matches[0].sub_type, DutySubType::GeneralDuty);
    assert_eq!(signals.governed_actors.len(), 1);
    assert_eq!(signals.governed_actors[0].keyword, "employer");
}

fn hit(tier: SignalTier, kw: Option<&str>) -> PatternSignal {
    PatternSignal {
        tier,
        family: DutyFamily::Governed,
        sub_type: DutySubType::Prescriptive,
        confidence: 80,
        span: Some(MatchSpan { actor_start: 0, modal_start: 4, modal_end: 9 }),
        actor_keyword: kw.map(|k| k.to_string()),
        actor_label: None,
    }
}

#[test]
fn legal_fiction_hits_become_rejections() {
    let hits = vec![hit(SignalTier::GovernedV2, Some("employer")), hit(SignalTier::Rule, None)];
    let (kept, rejected) = file_hits(hits.clone(), true);
    assert!(kept.is_empty());
    assert_eq!(
        rejected,
        vec![
            RejectedSignal {
                tier: SignalTier::GovernedV2,
                reason: RejectionReason::LegalFiction,
                actor_keyword: Some("employer".to_string()),
                span: Some(MatchSpan { actor_start: 0, modal_start: 4, modal_end: 9 }),
            },
            RejectedSignal {
                tier: SignalTier::Rule,
                reason: RejectionReason::LegalFiction,
                actor_keyword: None,
                span: Some(MatchSpan { actor_start: 0, modal_start: 4, modal_end: 9 }),
            },
        ]
    );
    let (kept, rejected) = file_hits(hits.clone(), false);
    assert_eq!(kept, hits);
    assert!(rejected.is_empty());
    let (kept, rejected) = file_hits(Vec::new(), true);
    assert!(kept.is_empty() && rejected.is_empty());
}
