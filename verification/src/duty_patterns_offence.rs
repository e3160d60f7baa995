//! Offence-as-duty patterns: provisions that impose a duty through offence
//! language ("it is an offence for a person to ...", "a person commits an
//! offence if ...", "it shall be unlawful for any person to ...") rather than
//! a modal verb.  Each is a prohibition on the person named.  Penalty and
//! sentencing provisions are excluded.

use vstd::prelude::*;
use crate::duty_patterns::{DutyClassification, DutyFamily, DutySubType, MatchSpan, C65, C70};
use crate::duty_patterns_v2::{governed, mk_span};
use crate::rx::{find_first, is_match, is_match_spec, spans_spec};
use crate::signals::{
    rejected_view, signal_of, signals_view, PatternSignal, RejectedSignal, RejectedView, RejectionReason, SignalTier,
    SignalView,
};

verus! {

/// "it is / shall be an offence for [actor] to ..."
pub const OFFENCE_FOR: &'static str = r"(?i)\bit (?:is|shall be) an offence for\b";
/// "[actor] commits an offence if ..."
pub const COMMITS_OFFENCE: &'static str = r"(?i)\bcommits? an offence if\b";
/// "[actor] shall be / is guilty of an offence if ..."
pub const GUILTY_IF: &'static str = r"(?i)\b(?:shall be|is) guilty of an offence if\b";
/// "it is / shall be unlawful for [actor] to ..."
pub const UNLAWFUL_FOR: &'static str = r"(?i)\bit (?:is|shall be) unlawful for\b";

/// Penalty or sentencing language as the provision's primary content.  In
/// the first alternative the backslash before the line break escapes a
/// newline, so "guilty of" and "offence" there are separated by a line break.
pub const PENALTY_PRIMARY: &'static str = r"(?i)(?:^|\. )\s*(?:a |any )?person (?:who is |)guilty of (?:an |the |such an? |)\
offence (?:under |is |shall be )(?:liable|punishable)|(?:^|\. )\s*(?:is |shall be )liable (?:on |to )";

/// Penalty phrases anywhere in the provision.
pub const PENALTY_PHRASES: &'static str = r"(?i)\bliable (?:on (?:summary )?conviction|to (?:a fine|imprisonment|a penalty))";

/// (pattern, confidence, whether the actor follows the match (else it opens
/// the text)), in the order tried.
pub open spec fn offence_patterns() -> Seq<(&'static str, u32, bool)> {
    seq![(OFFENCE_FOR, C70, true), (COMMITS_OFFENCE, C70, false), (GUILTY_IF, C65, false), (UNLAWFUL_FOR, C70, true)]
}

fn offence_patterns_exec() -> (r: Vec<(&'static str, u32, bool)>)
    ensures
        r@ == offence_patterns(),
{
    vec![(OFFENCE_FOR, C70, true), (COMMITS_OFFENCE, C70, false), (GUILTY_IF, C65, false), (UNLAWFUL_FOR, C70, true)]
}

/// Penalty language comes before the offence phrase at `pos`: the provision
/// describes a penalty regime rather than creating a duty.
pub open spec fn penalty_dominant(text: Seq<char>, pos: int) -> bool {
    let p = spans_spec(PENALTY_PHRASES@, text);
    p.len() > 0 && p[0].0 < pos
}

fn is_penalty_dominant(text: &str, pos: usize) -> (r: bool)
    ensures
        r == penalty_dominant(text@, pos as int),
{
    match find_first(PENALTY_PHRASES, text) {
        Some((a, _)) => a < pos,
        None => false,
    }
}

/// The span of an offence match `m` of pattern entry `e`: the modal is the
/// matched phrase, the actor follows it or opens the text.
pub open spec fn offence_span(e: (&'static str, u32, bool), m: (int, int)) -> MatchSpan {
    mk_span(if e.2 { m.1 } else { 0 }, m.0, m.1)
}

/// The first pattern (in order) whose first match is not penalty-dominated.
pub open spec fn first_offence(text: Seq<char>, t: Seq<(&'static str, u32, bool)>) -> Option<DutyClassification>
    decreases t.len(),
{
    if t.len() == 0 {
        None
    } else {
        let sp = spans_spec(t[0].0@, text);
        if sp.len() > 0 && !penalty_dominant(text, sp[0].0) {
            Some(governed(DutySubType::Prohibitive, t[0].1, Some(offence_span(t[0], sp[0]))))
        } else {
            first_offence(text, t.drop_first())
        }
    }
}

/// An offence-creating provision as a governed prohibition; none for penalty
/// provisions and text without offence language.
pub open spec fn offence_spec(text: Seq<char>) -> Option<DutyClassification> {
    if is_match_spec(PENALTY_PRIMARY@, text) {
        None
    } else {
        first_offence(text, offence_patterns())
    }
}

/// Offence language as a duty: `Governed / Prohibitive`, or `None` for a
/// penalty provision or text without offence language.
pub fn match_offence_as_duty(text: &str) -> (r: Option<DutyClassification>)
    ensures
        r == offence_spec(text@),
{
    if is_match(PENALTY_PRIMARY, text) {
        return None;
    }
    let table = offence_patterns_exec();
    let mut i: usize = 0;
    proof {
        assert(table@.skip(0) =~= table@);
    }
    while i < table.len()
        invariant
            i <= table.len(),
            table@ == offence_patterns(),
            !is_match_spec(PENALTY_PRIMARY@, text@),
            first_offence(text@, offence_patterns()) == first_offence(text@, table@.skip(i as int)),
        decreases table.len() - i,
    {
        proof {
            assert(table@.skip(i as int)[0] == table@[i as int]);
            assert(table@.skip(i as int).drop_first() =~= table@.skip(i + 1));
        }
        let e = table[i];
        match find_first(e.0, text) {
            Some((a, b)) => {
                if !is_penalty_dominant(text, a) {
                    proof {
                        let tt = table@.skip(i as int);
                        assert(tt[0] == e);
                        assert(spans_spec(tt[0].0@, text@)[0] == (a as int, b as int));
                        assert(first_offence(text@, tt) == Some(governed(DutySubType::Prohibitive, e.1, Some(offence_span(e, (a as int, b as int))))));
                    }
                    return Some(DutyClassification {
                        family: DutyFamily::Governed,
                        sub_type: DutySubType::Prohibitive,
                        confidence: e.1,
                        span: Some(MatchSpan { actor_start: if e.2 { b } else { 0 }, modal_start: a, modal_end: b }),
                    });
                }
            },
            None => {},
        }
        i += 1;
    }
    None
}

/// Signals of each pattern in turn: a hit when its first match is not
/// penalty-dominated, else a penalty rejection.
pub open spec fn offence_signals_from(
    text: Seq<char>,
    t: Seq<(&'static str, u32, bool)>,
) -> (Seq<SignalView>, Seq<RejectedView>)
    decreases t.len(),
{
    if t.len() == 0 {
        (seq![], seq![])
    } else {
        let rest = offence_signals_from(text, t.drop_first());
        let sp = spans_spec(t[0].0@, text);
        if sp.len() == 0 {
            rest
        } else {
            let span = Some(offence_span(t[0], sp[0]));
            if penalty_dominant(text, sp[0].0) {
                (rest.0, seq![(SignalTier::OffenceAsDuty, RejectionReason::PenaltyProvision, None, span)] + rest.1)
            } else {
                (
                    seq![signal_of(SignalTier::OffenceAsDuty, governed(DutySubType::Prohibitive, t[0].1, span))] + rest.0,
                    rest.1,
                )
            }
        }
    }
}

/// All offence-as-duty signals with their rejections.
pub open spec fn offence_signals_spec(text: Seq<char>) -> (Seq<SignalView>, Seq<RejectedView>) {
    if is_match_spec(PENALTY_PRIMARY@, text) {
        (seq![], seq![(SignalTier::OffenceAsDuty, RejectionReason::PenaltyProvision, None, None)])
    } else {
        offence_signals_from(text, offence_patterns())
    }
}

/// Every offence-as-duty signal of a provision, with rejections.
pub fn extract_offence_signals(text: &str) -> (r: (Vec<PatternSignal>, Vec<RejectedSignal>))
    ensures
        (signals_view(r.0@), rejected_view(r.1@)) == offence_signals_spec(text@),
{
    let mut matches: Vec<PatternSignal> = Vec::new();
    let mut rejections: Vec<RejectedSignal> = Vec::new();
    if is_match(PENALTY_PRIMARY, text) {
        rejections.push(RejectedSignal {
            tier: SignalTier::OffenceAsDuty,
            reason: RejectionReason::PenaltyProvision,
            actor_keyword: None,
            span: None,
        });
        proof {
            assert(signals_view(matches@) =~= seq![]);
            assert(rejected_view(rejections@) =~= seq![(SignalTier::OffenceAsDuty, RejectionReason::PenaltyProvision, None, None)]);
        }
        return (matches, rejections);
    }
    let table = offence_patterns_exec();
    let ghost t = offence_patterns();
    let mut i: usize = 0;
    proof {
        assert(t.skip(0) =~= t);
        assert(signals_view(matches@) =~= seq![]);
        assert(rejected_view(rejections@) =~= seq![]);
        let rest = offence_signals_from(text@, t);
        assert(seq![] + rest.0 =~= rest.0);
        assert(seq![] + rest.1 =~= rest.1);
    }
    while i < table.len()
        invariant
            i <= table.len(),
            table@ == t,
            t == offence_patterns(),
            !is_match_spec(PENALTY_PRIMARY@, text@),
            offence_signals_from(text@, t) == ({
                let rest = offence_signals_from(text@, t.skip(i as int));
                (signals_view(matches@) + rest.0, rejected_view(rejections@) + rest.1)
            }),
        decreases table.len() - i,
    {
        proof {
            assert(t.skip(i as int)[0] == t[i as int]);
            assert(t.skip(i as int).drop_first() =~= t.skip(i + 1));
        }
        let e = table[i];
        let ghost rest = offence_signals_from(text@, t.skip(i + 1));
        let ghost m0 = signals_view(matches@);
        let ghost r0 = rejected_view(rejections@);
        match find_first(e.0, text) {
            Some((a, b)) => {
                let span = Some(MatchSpan { actor_start: if e.2 { b } else { 0 }, modal_start: a, modal_end: b });
                if is_penalty_dominant(text, a) {
                    rejections.push(RejectedSignal {
                        tier: SignalTier::OffenceAsDuty,
                        reason: RejectionReason::PenaltyProvision,
                        actor_keyword: None,
                        span,
                    });
                    proof {
                        assert(rejected_view(rejections@) =~= r0.push(rejections@.last()@));
                        assert(r0.push(rejections@.last()@) + rest.1 =~= r0 + (seq![rejections@.last()@] + rest.1));
                    }
                } else {
                    matches.push(PatternSignal {
                        tier: SignalTier::OffenceAsDuty,
                        family: DutyFamily::Governed,
                        sub_type: DutySubType::Prohibitive,
                        confidence: e.1,
                        span,
                        actor_keyword: None,
                        actor_label: None,
                    });
                    proof {
                        assert(signals_view(matches@) =~= m0.push(matches@.last()@));
                        assert(m0.push(matches@.last()@) + rest.0 =~= m0 + (seq![matches@.last()@] + rest.0));
                    }
                }
            },
            None => {},
        }
        i += 1;
    }
    proof {
        assert(t.skip(t.len() as int) =~= seq![]);
        assert(signals_view(matches@) + seq![] =~= signals_view(matches@));
        assert(rejected_view(rejections@) + seq![] =~= rejected_view(rejections@));
    }
    (matches, rejections)
}

} // verus!
