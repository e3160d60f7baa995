//! The Making / Not-Making pre-filter: its outcome and signal vocabulary,
//! the law metadata it reads, and the provision triage that counts what the
//! provisions of a law contain.

use vstd::prelude::*;
use crate::actors::{blacklist_spec, blacklisted, extract_actors_for_family, matches_view, ActorDictionary};
use crate::duty_patterns::{ENABLING, OBLIGATION};
use crate::fitness::opt_view;
use crate::order::str_views;
use crate::pipeline::{governed_of, government_of};
use crate::purpose::{classify as classify_purposes, classify_spec as purpose_spec, AMENDMENT, ENACTMENT, PROCESS_RULE};
use crate::rx::{is_match, is_match_spec};
use crate::text::{cat, contains_seq, contains_str, from_range, owned, str_eq, str_lowercase, string_push_pub, to_chars, to_lowercase};
use crate::applicability::opt_str_view;
use crate::text_cleaner::{clean, clean_spec};

verus! {

/// Three-way outcome.
#[derive(Debug, Clone, Copy, PartialEq, Eq, Structural)]
pub enum MakingClassification {
    Making,
    NotMaking,
    Uncertain,
}

impl MakingClassification {
    pub fn as_str(self) -> (r: &'static str)
        ensures
            r@ == match self {
                MakingClassification::Making => "making"@,
                MakingClassification::NotMaking => "not_making"@,
                MakingClassification::Uncertain => "uncertain"@,
            },
    {
        match self {
            MakingClassification::Making => "making",
            MakingClassification::NotMaking => "not_making",
            MakingClassification::Uncertain => "uncertain",
        }
    }
}

/// Which way a signal pushes the score.
#[derive(Debug, Clone, Copy, PartialEq, Eq, Structural)]
pub enum SignalDirection {
    Making,
    NotMaking,
}

/// The metadata detection reads.
pub struct LawMetadata<'a> {
    pub title: Option<&'a str>,
    pub description: Option<&'a str>,
    pub body_paras: Option<u32>,
    pub schedule_paras: Option<u32>,
}

/// A detection signal: its tier, name and direction, its confidence in
/// hundredths, and the value it was read from.
pub struct Signal {
    pub tier: u8,
    pub name: &'static str,
    pub direction: SignalDirection,
    pub confidence: u32,
    pub value: String,
}

/// (tier, name, direction, confidence in hundredths, value)
pub type SignalView = (u8, Seq<char>, SignalDirection, int, Seq<char>);

impl View for Signal {
    type V = SignalView;

    open spec fn view(&self) -> SignalView {
        (self.tier, self.name@, self.direction, self.confidence as int, self.value@)
    }
}

pub open spec fn signals_view(v: Seq<Signal>) -> Seq<SignalView> {
    v.map_values(|s: Signal| s@)
}

pub open spec fn digit_char(d: int) -> char {
    if d == 0 { '0' } else if d == 1 { '1' } else if d == 2 { '2' } else if d == 3 { '3' } else if d == 4 { '4' }
    else if d == 5 { '5' } else if d == 6 { '6' } else if d == 7 { '7' } else if d == 8 { '8' } else { '9' }
}

/// The decimal digits of `n`.
pub open spec fn decimal(n: nat) -> Seq<char>
    decreases n,
{
    if n < 10 {
        seq![digit_char(n as int)]
    } else {
        decimal(n / 10).push(digit_char((n % 10) as int))
    }
}

fn digit_of(d: u32) -> (r: char)
    requires
        d < 10,
    ensures
        r == digit_char(d as int),
{
    if d == 0 { '0' } else if d == 1 { '1' } else if d == 2 { '2' } else if d == 3 { '3' } else if d == 4 { '4' }
    else if d == 5 { '5' } else if d == 6 { '6' } else if d == 7 { '7' } else if d == 8 { '8' } else { '9' }
}

fn push_decimal(out: &mut String, n: u32)
    ensures
        final(out)@ == old(out)@ + decimal(n as nat),
    decreases n,
{
    if n < 10 {
        string_push_pub(out, digit_of(n));
        assert(decimal(n as nat) == seq![digit_char(n as int)]);
    } else {
        push_decimal(out, n / 10);
        string_push_pub(out, digit_of(n % 10));
        assert(old(out)@ + decimal((n / 10) as nat) + seq![digit_char((n % 10) as int)] =~= old(out)@ + decimal(n as nat));
    }
}

/// `n` in decimal.
pub fn decimal_string(n: u32) -> (r: String)
    ensures
        r@ == decimal(n as nat),
{
    let mut s = owned("");
    proof {
        reveal_strlit("");
    }
    push_decimal(&mut s, n);
    assert(s@ =~= decimal(n as nat));
    s
}

pub open spec fn signal_of(tier: u8, name: &'static str, dir: SignalDirection, conf: int, value: Seq<char>) -> SignalView {
    (tier, name@, dir, conf, value)
}

/// The signals of the `(pattern, name, confidence)` checks whose pattern
/// occurs in `text`, in check order.
pub open spec fn hits(
    text: Seq<char>,
    checks: Seq<(&'static str, &'static str, u32)>,
    tier: u8,
    dir: SignalDirection,
    value: Seq<char>,
) -> Seq<SignalView>
    decreases checks.len(),
{
    if checks.len() == 0 {
        seq![]
    } else {
        let prev = hits(text, checks.drop_last(), tier, dir, value);
        let c = checks.last();
        if contains_seq(text, c.0@) {
            prev.push(signal_of(tier, c.1, dir, c.2 as int, value))
        } else {
            prev
        }
    }
}

/// Title words that mark a law as not making, with their confidence.
pub open spec fn title_checks_spec() -> Seq<(&'static str, &'static str, u32)> {
    seq![
        ("(Revocation", "title_revocation", 98u32),
        ("(Consequential", "title_consequential", 90u32),
        ("(Repeal", "title_repeal", 92u32),
        ("(Amendment", "title_amendment", 80u32),
        ("(Transitional", "title_transitional", 75u32),
    ]
}

fn title_checks() -> (r: Vec<(&'static str, &'static str, u32)>)
    ensures
        r@ == title_checks_spec(),
{
    let r = vec![
        ("(Revocation", "title_revocation", 98u32),
        ("(Consequential", "title_consequential", 90u32),
        ("(Repeal", "title_repeal", 92u32),
        ("(Amendment", "title_amendment", 80u32),
        ("(Transitional", "title_transitional", 75u32),
    ];
    assert(r@ =~= title_checks_spec());
    r
}

/// Description phrases that mark a law as making.
pub open spec fn desc_making_spec() -> Seq<(&'static str, &'static str, u32)> {
    seq![
        ("to make further provision for securing", "provision_securing", 90u32),
        ("to make provision for securing", "provision_securing", 90u32),
        ("to make further provision for", "provision_for", 70u32),
        ("to make provision for", "provision_for", 70u32),
        ("to require", "to_require", 80u32),
        ("to prohibit", "to_prohibit", 80u32),
        ("to regulate", "to_regulate", 75u32),
        ("to impose", "to_impose", 80u32),
        ("to establish", "to_establish", 70u32),
        ("to create", "to_create", 70u32),
    ]
}

fn desc_making() -> (r: Vec<(&'static str, &'static str, u32)>)
    ensures
        r@ == desc_making_spec(),
{
    let r = vec![
        ("to make further provision for securing", "provision_securing", 90u32),
        ("to make provision for securing", "provision_securing", 90u32),
        ("to make further provision for", "provision_for", 70u32),
        ("to make provision for", "provision_for", 70u32),
        ("to require", "to_require", 80u32),
        ("to prohibit", "to_prohibit", 80u32),
        ("to regulate", "to_regulate", 75u32),
        ("to impose", "to_impose", 80u32),
        ("to establish", "to_establish", 70u32),
        ("to create", "to_create", 70u32),
    ];
    assert(r@ =~= desc_making_spec());
    r
}

/// Description phrases that mark a law as not making.
pub open spec fn desc_not_making_spec() -> Seq<(&'static str, &'static str, u32)> {
    seq![
        ("to amend the", "desc_to_amend", 75u32),
        ("to give effect to", "desc_give_effect", 65u32),
        ("in exercise of the powers conferred by", "desc_powers_conferred", 55u32),
    ]
}

fn desc_not_making() -> (r: Vec<(&'static str, &'static str, u32)>)
    ensures
        r@ == desc_not_making_spec(),
{
    let r = vec![
        ("to amend the", "desc_to_amend", 75u32),
        ("to give effect to", "desc_give_effect", 65u32),
        ("in exercise of the powers conferred by", "desc_powers_conferred", 55u32),
    ];
    assert(r@ =~= desc_not_making_spec());
    r
}

/// Tier 1: a title naming an appointed day or a commencement.
pub open spec fn tier1_spec(title: Option<Seq<char>>) -> Seq<SignalView> {
    match title {
        Some(t) => if contains_seq(t, "(Appointed Day"@) {
            seq![signal_of(1, "title_appointed_day", SignalDirection::NotMaking, 100, t)]
        } else if contains_seq(t, "(Commencement"@) {
            seq![signal_of(1, "title_commencement", SignalDirection::NotMaking, 99, t)]
        } else {
            seq![]
        },
        None => seq![],
    }
}

/// Tier 2: the title checks that hit.
pub open spec fn tier2_spec(title: Option<Seq<char>>) -> Seq<SignalView> {
    match title {
        Some(t) => hits(t, title_checks_spec(), 2, SignalDirection::NotMaking, t),
        None => seq![],
    }
}

/// The confidence of a large body: the whole number nearest to
/// `50 + body / 5`, at most 85.
pub open spec fn body_confidence(b: int) -> int {
    if b >= 175 { 85 } else { (252 + b) / 5 }
}

/// Tier 3: the structural counts.
pub open spec fn tier3_spec(body: Option<u32>, sched: Option<u32>) -> Seq<SignalView> {
    let a: Seq<SignalView> = if body is Some && sched is Some && body->0 <= 3 && sched->0 > 50 {
        seq![signal_of(
            3,
            "low_body_high_schedule",
            SignalDirection::NotMaking,
            90,
            "body="@ + decimal(body->0 as nat) + ",sched="@ + decimal(sched->0 as nat),
        )]
    } else {
        seq![]
    };
    let c: Seq<SignalView> = match body {
        Some(b) => if b > 50 {
            seq![signal_of(3, "high_body_paras", SignalDirection::Making, body_confidence(b as int), decimal(b as nat))]
        } else if b <= 5 {
            seq![signal_of(3, "very_low_body_paras", SignalDirection::NotMaking, 60, decimal(b as nat))]
        } else {
            seq![]
        },
        None => seq![],
    };
    a + c
}

/// At most the first 200 characters of a description.
pub open spec fn desc_value(d: Seq<char>) -> Seq<char> {
    if d.len() > 200 { d.take(200) } else { d }
}

/// Tier 4: the description phrases that hit, making ones first.
pub open spec fn tier4_spec(desc: Option<Seq<char>>) -> Seq<SignalView> {
    match desc {
        Some(d) => if d.len() == 0 {
            seq![]
        } else {
            let lower = str_lowercase(d);
            hits(lower, desc_making_spec(), 4, SignalDirection::Making, desc_value(d))
                + hits(lower, desc_not_making_spec(), 4, SignalDirection::NotMaking, desc_value(d))
        },
        None => seq![],
    }
}

/// The metadata signals, tiers 1 to 4 in order.
pub open spec fn metadata_signals_spec(
    title: Option<Seq<char>>,
    desc: Option<Seq<char>>,
    body: Option<u32>,
    sched: Option<u32>,
) -> Seq<SignalView> {
    tier1_spec(title) + tier2_spec(title) + tier3_spec(body, sched) + tier4_spec(desc)
}

proof fn lemma_hits_contains(
    text: Seq<char>,
    checks: Seq<(&'static str, &'static str, u32)>,
    tier: u8,
    dir: SignalDirection,
    value: Seq<char>,
    k: int,
)
    requires
        0 <= k < checks.len(),
        contains_seq(text, checks[k].0@),
    ensures
        hits(text, checks, tier, dir, value).contains(signal_of(tier, checks[k].1, dir, checks[k].2 as int, value)),
    decreases checks.len(),
{
    let prev = hits(text, checks.drop_last(), tier, dir, value);
    let x = signal_of(tier, checks[k].1, dir, checks[k].2 as int, value);
    if k < checks.len() - 1 {
        assert(checks.drop_last()[k] == checks[k]);
        lemma_hits_contains(text, checks.drop_last(), tier, dir, value, k);
        let j = choose|j: int| 0 <= j < prev.len() && prev[j] == x;
        let r = hits(text, checks, tier, dir, value);
        if contains_seq(text, checks.last().0@) {
            assert(r[j] == x);
        } else {
            assert(r[j] == x);
        }
    } else {
        let r = hits(text, checks, tier, dir, value);
        assert(r[prev.len() as int] == x);
    }
}

/// Each strong title phrase gives its tier-2 Not-Making signal, with the title
/// as value: "(Revocation" at 98, "(Consequential" at 90, "(Repeal" at 92,
/// "(Amendment" at 80, "(Transitional" at 75, whatever else the metadata says.
pub proof fn lemma_title_phrases(title: Seq<char>, desc: Option<Seq<char>>, body: Option<u32>, sched: Option<u32>)
    ensures
        ({
            let r = metadata_signals_spec(Some(title), desc, body, sched);
            &&& contains_seq(title, "(Revocation"@) ==> r.contains((2u8, "title_revocation"@, SignalDirection::NotMaking, 98int, title))
            &&& contains_seq(title, "(Consequential"@) ==> r.contains((2u8, "title_consequential"@, SignalDirection::NotMaking, 90int, title))
            &&& contains_seq(title, "(Repeal"@) ==> r.contains((2u8, "title_repeal"@, SignalDirection::NotMaking, 92int, title))
            &&& contains_seq(title, "(Amendment"@) ==> r.contains((2u8, "title_amendment"@, SignalDirection::NotMaking, 80int, title))
            &&& contains_seq(title, "(Transitional"@) ==> r.contains((2u8, "title_transitional"@, SignalDirection::NotMaking, 75int, title))
        }),
{
    let t1 = tier1_spec(Some(title));
    let t2 = tier2_spec(Some(title));
    let t3 = tier3_spec(body, sched);
    let t4 = tier4_spec(desc);
    let r = metadata_signals_spec(Some(title), desc, body, sched);
    assert(r == t1 + t2 + t3 + t4);
    let checks = title_checks_spec();
    assert forall|k: int| 0 <= k < checks.len() && contains_seq(title, checks[k].0@)
        implies r.contains(signal_of(2, checks[k].1, SignalDirection::NotMaking, checks[k].2 as int, title)) by {
        lemma_hits_contains(title, checks, 2, SignalDirection::NotMaking, title, k);
        let x = signal_of(2, checks[k].1, SignalDirection::NotMaking, checks[k].2 as int, title);
        let j = choose|j: int| 0 <= j < t2.len() && t2[j] == x;
        assert((t1 + t2)[t1.len() + j] == x);
        assert((t1 + t2 + t3)[t1.len() + j] == x);
        assert(r[t1.len() + j] == x);
    }
    assert(checks[0].0@ == "(Revocation"@);
    assert(checks[1].0@ == "(Consequential"@);
    assert(checks[2].0@ == "(Repeal"@);
    assert(checks[3].0@ == "(Amendment"@);
    assert(checks[4].0@ == "(Transitional"@);
}

fn push_signal(out: &mut Vec<Signal>, tier: u8, name: &'static str, direction: SignalDirection, confidence: u32, value: String)
    ensures
        signals_view(final(out)@) == signals_view(old(out)@).push(signal_of(tier, name, direction, confidence as int, value@)),
{
    let ghost before = old(out)@;
    out.push(Signal { tier, name, direction, confidence, value });
    assert(signals_view(out@) =~= signals_view(before).push(signal_of(tier, name, direction, confidence as int, value@)));
}

fn push_hits(
    out: &mut Vec<Signal>,
    text: &str,
    checks: &Vec<(&'static str, &'static str, u32)>,
    tier: u8,
    dir: SignalDirection,
    value: &str,
)
    ensures
        signals_view(final(out)@) == signals_view(old(out)@) + hits(text@, checks@, tier, dir, value@),
{
    let ghost start = signals_view(out@);
    let mut i: usize = 0;
    assert(checks@.take(0) =~= seq![]);
    assert(start + hits(text@, checks@.take(0), tier, dir, value@) =~= start);
    while i < checks.len()
        invariant
            i <= checks.len(),
            signals_view(out@) == start + hits(text@, checks@.take(i as int), tier, dir, value@),
        decreases checks.len() - i,
    {
        let (pattern, name, confidence) = checks[i];
        let ghost prev = signals_view(out@);
        assert(checks@.take(i as int + 1).drop_last() =~= checks@.take(i as int));
        assert(checks@.take(i as int + 1).last() == checks@[i as int]);
        if contains_str(text, pattern) {
            push_signal(out, tier, name, dir, confidence, owned(value));
            assert(signals_view(out@) =~= start + hits(text@, checks@.take(i as int + 1), tier, dir, value@));
        } else {
            assert(signals_view(out@) =~= start + hits(text@, checks@.take(i as int + 1), tier, dir, value@));
        }
        i = i + 1;
    }
    assert(checks@.take(checks.len() as int) =~= checks@);
}

fn tier1_title_definitive(out: &mut Vec<Signal>, title: Option<&str>)
    ensures
        signals_view(final(out)@) == signals_view(old(out)@) + tier1_spec(opt_str_view(title)),
{
    match title {
        Some(t) => {
            if contains_str(t, "(Appointed Day") {
                push_signal(out, 1, "title_appointed_day", SignalDirection::NotMaking, 100, owned(t));
            } else if contains_str(t, "(Commencement") {
                push_signal(out, 1, "title_commencement", SignalDirection::NotMaking, 99, owned(t));
            }
        },
        None => {},
    }
    assert(signals_view(out@) =~= signals_view(old(out)@) + tier1_spec(opt_str_view(title)));
}

fn tier2_title_strong(out: &mut Vec<Signal>, title: Option<&str>)
    ensures
        signals_view(final(out)@) == signals_view(old(out)@) + tier2_spec(opt_str_view(title)),
{
    match title {
        Some(t) => {
            let checks = title_checks();
            push_hits(out, t, &checks, 2, SignalDirection::NotMaking, t);
        },
        None => {
            assert(signals_view(out@) =~= signals_view(old(out)@) + tier2_spec(opt_str_view(title)));
        },
    }
}

fn tier3_structural(out: &mut Vec<Signal>, body: Option<u32>, sched: Option<u32>)
    ensures
        signals_view(final(out)@) == signals_view(old(out)@) + tier3_spec(body, sched),
{
    let ghost start = signals_view(out@);
    match (body, sched) {
        (Some(b), Some(s)) => {
            if b <= 3 && s > 50 {
                let bs = decimal_string(b);
                let ss = decimal_string(s);
                let head = cat("body=", bs.as_str());
                let mid = cat(head.as_str(), ",sched=");
                let value = cat(mid.as_str(), ss.as_str());
                push_signal(out, 3, "low_body_high_schedule", SignalDirection::NotMaking, 90, value);
            }
        },
        _ => {},
    }
    let ghost mid = signals_view(out@);
    match body {
        Some(b) => {
            if b > 50 {
                let conf: u32 = if b >= 175 { 85 } else { (252 + b) / 5 };
                push_signal(out, 3, "high_body_paras", SignalDirection::Making, conf, decimal_string(b));
            } else if b <= 5 {
                push_signal(out, 3, "very_low_body_paras", SignalDirection::NotMaking, 60, decimal_string(b));
            }
        },
        None => {},
    }
    assert(signals_view(out@) =~= start + tier3_spec(body, sched));
}

fn tier4_description(out: &mut Vec<Signal>, desc: Option<&str>)
    ensures
        signals_view(final(out)@) == signals_view(old(out)@) + tier4_spec(opt_str_view(desc)),
{
    let ghost start = signals_view(out@);
    match desc {
        Some(d) => {
            let dv = to_chars(d);
            if dv.len() == 0 {
                assert(signals_view(out@) =~= start + tier4_spec(opt_str_view(desc)));
                return;
            }
            let lower = to_lowercase(d);
            let n = if dv.len() > 200 { 200 } else { dv.len() };
            let value = from_range(&dv, 0, n);
            assert(value@ =~= desc_value(d@));
            let making = desc_making();
            push_hits(out, lower.as_str(), &making, 4, SignalDirection::Making, value.as_str());
            let not_making = desc_not_making();
            push_hits(out, lower.as_str(), &not_making, 4, SignalDirection::NotMaking, value.as_str());
            assert(signals_view(out@) =~= start + tier4_spec(opt_str_view(desc)));
        },
        None => {
            assert(signals_view(out@) =~= start + tier4_spec(opt_str_view(desc)));
        },
    }
}

/// The signals that the law's metadata gives (tiers 1 to 4), with
/// confidences in hundredths.
pub fn metadata_signals(meta: &LawMetadata) -> (r: Vec<Signal>)
    ensures
        signals_view(r@) == metadata_signals_spec(
            opt_str_view(meta.title),
            opt_str_view(meta.description),
            meta.body_paras,
            meta.schedule_paras,
        ),
{
    let mut out: Vec<Signal> = Vec::new();
    assert(signals_view(out@) =~= seq![]);
    tier1_title_definitive(&mut out, meta.title);
    tier2_title_strong(&mut out, meta.title);
    tier3_structural(&mut out, meta.body_paras, meta.schedule_paras);
    tier4_description(&mut out, meta.description);
    assert(signals_view(out@) =~= metadata_signals_spec(
        opt_str_view(meta.title),
        opt_str_view(meta.description),
        meta.body_paras,
        meta.schedule_paras,
    ));
    out
}

/// Provision-level counts from text analysis.
#[derive(Debug, Clone)]
pub struct TriageCounts {
    /// Provisions scanned (non-empty after cleaning).
    pub total: u32,
    /// Provisions whose primary purpose is Process+Rule.
    pub process_rule: u32,
    /// Provisions with an Amendment purpose.
    pub amendment: u32,
    /// Provisions with an Enactment purpose.
    pub enactment: u32,
    /// Provisions with an Interpretation purpose.
    pub interpretation: u32,
    /// Provisions with at least one actor.
    pub with_actor: u32,
    /// Provisions with an obligation modal.
    pub with_obligation: u32,
    /// Provisions with an enabling modal.
    pub with_enabling: u32,
}

/// (total, process_rule, amendment, enactment, interpretation, with_actor,
/// with_obligation, with_enabling)
pub type CountsView = (int, int, int, int, int, int, int, int);

impl View for TriageCounts {
    type V = CountsView;

    open spec fn view(&self) -> CountsView {
        (
            self.total as int,
            self.process_rule as int,
            self.amendment as int,
            self.enactment as int,
            self.interpretation as int,
            self.with_actor as int,
            self.with_obligation as int,
            self.with_enabling as int,
        )
    }
}

impl Default for TriageCounts {
    fn default() -> (r: TriageCounts)
        ensures
            r@ == (0int, 0int, 0int, 0int, 0int, 0int, 0int, 0int),
    {
        TriageCounts {
            total: 0,
            process_rule: 0,
            amendment: 0,
            enactment: 0,
            interpretation: 0,
            with_actor: 0,
            with_obligation: 0,
            with_enabling: 0,
        }
    }
}

pub open spec fn b(x: bool) -> int {
    if x { 1 } else { 0 }
}

/// What one raw provision adds to the counts: nothing when it cleans to the
/// empty text, else one provision and a mark for each feature it has.
pub open spec fn triage_one(dict: crate::actors::DictView, raw: Seq<char>, fam: Option<Seq<char>>) -> CountsView {
    let cleaned = clean_spec(raw);
    let purposes = purpose_spec(cleaned);
    let lower = str_lowercase(cleaned);
    if cleaned.len() == 0 {
        (0, 0, 0, 0, 0, 0, 0, 0)
    } else {
        (
            1,
            b(purposes.len() > 0 && purposes[0] == PROCESS_RULE@),
            b(purposes.contains(AMENDMENT@)),
            b(purposes.contains(ENACTMENT@)),
            b(exists|i: int| 0 <= i < purposes.len() && contains_seq(#[trigger] purposes[i], "Interpretation"@)),
            b(governed_of(dict, cleaned, fam).len() > 0 || government_of(dict, cleaned).len() > 0),
            b(is_match_spec(OBLIGATION@, lower)),
            b(is_match_spec(ENABLING@, lower)),
        )
    }
}

pub open spec fn add_counts(a: CountsView, c: CountsView) -> CountsView {
    (a.0 + c.0, a.1 + c.1, a.2 + c.2, a.3 + c.3, a.4 + c.4, a.5 + c.5, a.6 + c.6, a.7 + c.7)
}

/// The counts over a list of raw provisions.
pub open spec fn triage_spec(dict: crate::actors::DictView, texts: Seq<Seq<char>>, fam: Option<Seq<char>>) -> CountsView
    decreases texts.len(),
{
    if texts.len() == 0 {
        (0, 0, 0, 0, 0, 0, 0, 0)
    } else {
        add_counts(triage_spec(dict, texts.drop_last(), fam), triage_one(dict, texts.last(), fam))
    }
}

/// How many of the texts clean to non-empty text.
pub open spec fn nonblank_count(texts: Seq<Seq<char>>) -> int
    decreases texts.len(),
{
    if texts.len() == 0 {
        0
    } else {
        nonblank_count(texts.drop_last()) + (if clean_spec(texts.last()).len() > 0 { 1int } else { 0int })
    }
}

/// Triage counts every provision that cleans to non-empty text, once; every
/// other counter is at most that total; a provision that cleans to nothing
/// changes no counter.
pub proof fn lemma_triage_bounds(dict: crate::actors::DictView, texts: Seq<Seq<char>>, fam: Option<Seq<char>>)
    ensures
        ({
            let c = triage_spec(dict, texts, fam);
            &&& c.0 == nonblank_count(texts)
            &&& 0 <= c.0 <= texts.len()
            &&& 0 <= c.1 <= c.0 && 0 <= c.2 <= c.0 && 0 <= c.3 <= c.0 && 0 <= c.4 <= c.0
            &&& 0 <= c.5 <= c.0 && 0 <= c.6 <= c.0 && 0 <= c.7 <= c.0
        }),
    decreases texts.len(),
{
    if texts.len() > 0 {
        lemma_triage_bounds(dict, texts.drop_last(), fam);
    }
}

proof fn lemma_nonblank_filter(texts: Seq<Seq<char>>)
    ensures
        nonblank_count(texts) == texts.filter(|t: Seq<char>| clean_spec(t).len() > 0).len(),
    decreases texts.len(),
{
    reveal_with_fuel(Seq::filter, 1);
    if texts.len() > 0 {
        lemma_nonblank_filter(texts.drop_last());
    }
}

/// Triage's total is the number of provisions whose cleaned text is not
/// empty; every other counter is at most that total.
pub proof fn lemma_triage_total(dict: crate::actors::DictView, texts: Seq<Seq<char>>, fam: Option<Seq<char>>)
    ensures
        ({
            let c = triage_spec(dict, texts, fam);
            &&& c.0 == texts.filter(|t: Seq<char>| clean_spec(t).len() > 0).len()
            &&& 0 <= c.1 <= c.0 && 0 <= c.2 <= c.0 && 0 <= c.3 <= c.0 && 0 <= c.4 <= c.0
            &&& 0 <= c.5 <= c.0 && 0 <= c.6 <= c.0 && 0 <= c.7 <= c.0
        }),
{
    lemma_triage_bounds(dict, texts, fam);
    lemma_nonblank_filter(texts);
}

/// A provision that cleans to nothing leaves the counts as they were.
pub proof fn lemma_triage_blank(dict: crate::actors::DictView, texts: Seq<Seq<char>>, t: Seq<char>, fam: Option<Seq<char>>)
    requires
        clean_spec(t).len() == 0,
    ensures
        triage_spec(dict, texts.push(t), fam) == triage_spec(dict, texts, fam),
{
    assert(texts.push(t).drop_last() == texts);
}

fn has_label(purposes: &Vec<&'static str>, p: &str) -> (r: bool)
    ensures
        r == str_views(purposes@).contains(p@),
{
    let mut i: usize = 0;
    while i < purposes.len()
        invariant
            i <= purposes.len(),
            forall|j: int| 0 <= j < i ==> str_views(purposes@)[j] != p@,
        decreases purposes.len() - i,
    {
        if str_eq(purposes[i], p) {
            proof {
                assert(str_views(purposes@)[i as int] == p@);
            }
            return true;
        }
        i += 1;
    }
    false
}

fn any_interpretation(purposes: &Vec<&'static str>) -> (r: bool)
    ensures
        r == exists|i: int| 0 <= i < purposes@.len() && contains_seq(#[trigger] str_views(purposes@)[i], "Interpretation"@),
{
    let mut i: usize = 0;
    while i < purposes.len()
        invariant
            i <= purposes.len(),
            forall|j: int| 0 <= j < i ==> !contains_seq(#[trigger] str_views(purposes@)[j], "Interpretation"@),
        decreases purposes.len() - i,
    {
        if contains_str(purposes[i], "Interpretation") {
            proof {
                assert(str_views(purposes@)[i as int] == purposes@[i as int]@);
            }
            return true;
        }
        proof {
            assert(str_views(purposes@)[i as int] == purposes@[i as int]@);
        }
        i += 1;
    }
    false
}

fn triage_text(dict: &ActorDictionary, raw: &str, family: Option<&str>) -> (r: (bool, bool, bool, bool, bool, bool, bool, bool))
    ensures
        (b(r.0), b(r.1), b(r.2), b(r.3), b(r.4), b(r.5), b(r.6), b(r.7)) == triage_one(dict@, raw@, opt_view(family)),
{
    let cleaned = clean(raw);
    if to_chars(cleaned.as_str()).len() == 0 {
        return (false, false, false, false, false, false, false, false);
    }
    let purposes = classify_purposes(cleaned.as_str());
    proof {
        assert(str_views(purposes@).len() == purposes@.len());
        if purposes@.len() > 0 {
            assert(str_views(purposes@)[0] == purposes@[0]@);
        }
    }
    let process_rule = purposes.len() > 0 && str_eq(purposes[0], PROCESS_RULE);
    let amendment = has_label(&purposes, AMENDMENT);
    let enactment = has_label(&purposes, ENACTMENT);
    let interpretation = any_interpretation(&purposes);
    let actors = extract_actors_for_family(dict, cleaned.as_str(), family);
    let with_actor = actors.governed.len() > 0 || actors.government.len() > 0;
    let lower = to_lowercase(cleaned.as_str());
    let obligation = is_match(OBLIGATION, lower.as_str());
    let enabling = is_match(ENABLING, lower.as_str());
    (true, process_rule, amendment, enactment, interpretation, with_actor, obligation, enabling)
}

fn bump(x: u32, on: bool, Ghost(bound): Ghost<int>) -> (r: u32)
    requires
        x < bound <= u32::MAX,
    ensures
        r == x + b(on),
{
    if on { x + 1 } else { x }
}

/// Count, over a law's raw provisions, those that are non-empty after
/// cleaning, and among them those whose primary purpose is Process+Rule,
/// that have an Amendment, Enactment or Interpretation purpose, an actor, an
/// obligation modal, an enabling modal.
pub fn triage_provisions(dict: &ActorDictionary, texts: &[&str], family: Option<&str>) -> (r: TriageCounts)
    requires
        texts@.len() <= u32::MAX,
    ensures
        r@ == triage_spec(dict@, texts@.map_values(|t: &str| t@), opt_view(family)),
{
    let ghost tv = texts@.map_values(|t: &str| t@);
    let mut counts = TriageCounts::default();
    let mut i: usize = 0;
    proof {
        assert(tv.take(0) =~= seq![]);
    }
    while i < texts.len()
        invariant
            i <= texts.len() <= u32::MAX,
            tv == texts@.map_values(|t: &str| t@),
            counts@ == triage_spec(dict@, tv.take(i as int), opt_view(family)),
        decreases texts.len() - i,
    {
        proof {
            assert(tv.take(i + 1).drop_last() =~= tv.take(i as int));
            assert(tv.take(i + 1).last() == texts@[i as int]@);
            lemma_triage_bounds(dict@, tv.take(i as int), opt_view(family));
        }
        let t = triage_text(dict, texts[i], family);
        let bound: Ghost<int> = Ghost(i + 1);
        counts.total = bump(counts.total, t.0, bound);
        counts.process_rule = bump(counts.process_rule, t.1, bound);
        counts.amendment = bump(counts.amendment, t.2, bound);
        counts.enactment = bump(counts.enactment, t.3, bound);
        counts.interpretation = bump(counts.interpretation, t.4, bound);
        counts.with_actor = bump(counts.with_actor, t.5, bound);
        counts.with_obligation = bump(counts.with_obligation, t.6, bound);
        counts.with_enabling = bump(counts.with_enabling, t.7, bound);
        i += 1;
    }
    proof {
        assert(tv.take(texts.len() as int) =~= tv);
    }
    counts
}


// ---------------------------------------------------------------------------
// Tier 5: provision text

/// A provision-text signal that fires: its name, direction and the counts it
/// was read from.  Its confidence is a fraction of the counts.
pub struct ProvisionHit {
    pub name: &'static str,
    pub direction: SignalDirection,
    pub value: String,
}

/// (name, direction, value)
pub type HitView = (Seq<char>, SignalDirection, Seq<char>);

impl View for ProvisionHit {
    type V = HitView;

    open spec fn view(&self) -> HitView {
        (self.name@, self.direction, self.value@)
    }
}

pub open spec fn hits_view(v: Seq<ProvisionHit>) -> Seq<HitView> {
    v.map_values(|h: ProvisionHit| h@)
}

pub open spec fn dec(n: int) -> Seq<char> {
    decimal(n as nat)
}

/// The provision-text signals that fire, in order:
/// - more than 10% of the provisions have an obligation modal (at least 3 of
///   them) and more than 5% an actor: making;
/// - more than 60% are amendments and fewer than 3 have an obligation: not making;
/// - 10 or more provisions and no obligation at all: not making;
/// - more than 40% are Process+Rule, under 10% amendments, 5 or more
///   provisions: making.
/// Nothing fires when there are no provisions.
pub open spec fn provision_signals_spec(c: CountsView) -> Seq<HitView> {
    if c.0 == 0 {
        seq![]
    } else {
        tier5_obligations(c) + tier5_amendment(c) + tier5_no_obligation(c) + tier5_process_rule(c)
    }
}

/// `label`, then `n/total`.
pub open spec fn ratio(label: Seq<char>, n: int, total: int) -> Seq<char> {
    label + dec(n) + "/"@ + dec(total)
}

pub open spec fn tier5_obligations(c: CountsView) -> Seq<HitView> {
    let (t, pr, act, obl) = (c.0, c.1, c.5, c.6);
    if obl >= 3 && 10 * obl > t && 20 * act > t {
        seq![("provisions_with_obligations"@, SignalDirection::Making,
            ratio("obligations="@, obl, t) + ratio(" actors="@, act, t) + ratio(" process_rule="@, pr, t))]
    } else {
        seq![]
    }
}

pub open spec fn tier5_amendment(c: CountsView) -> Seq<HitView> {
    if 5 * c.2 > 3 * c.0 && c.6 < 3 {
        seq![("mostly_amendment"@, SignalDirection::NotMaking, ratio("amendment="@, c.2, c.0))]
    } else {
        seq![]
    }
}

pub open spec fn tier5_no_obligation(c: CountsView) -> Seq<HitView> {
    if c.0 >= 10 && c.6 == 0 {
        seq![("no_obligations_found"@, SignalDirection::NotMaking, "0 obligations in "@ + dec(c.0) + " provisions"@)]
    } else {
        seq![]
    }
}

pub open spec fn tier5_process_rule(c: CountsView) -> Seq<HitView> {
    if 5 * c.1 > 2 * c.0 && 10 * c.2 < c.0 && c.0 >= 5 {
        seq![("high_process_rule"@, SignalDirection::Making, ratio("process_rule="@, c.1, c.0))]
    } else {
        seq![]
    }
}

fn ratio_value(label: &str, n: u32, total: u32) -> (r: String)
    ensures
        r@ == ratio(label@, n as int, total as int),
{
    let a = cat(label, decimal_string(n).as_str());
    let b = cat(a.as_str(), "/");
    cat(b.as_str(), decimal_string(total).as_str())
}

fn push_hit(out: &mut Vec<ProvisionHit>, name: &'static str, direction: SignalDirection, value: String)
    ensures
        hits_view(final(out)@) == hits_view(old(out)@).push((name@, direction, value@)),
{
    let ghost before = old(out)@;
    out.push(ProvisionHit { name, direction, value });
    assert(hits_view(out@) =~= hits_view(before).push((name@, direction, value@)));
}

/// The provision-text signals (tier 5) that the triage counts give.
pub fn provision_signals(counts: &TriageCounts) -> (r: Vec<ProvisionHit>)
    ensures
        hits_view(r@) == provision_signals_spec(counts@),
{
    let mut out: Vec<ProvisionHit> = Vec::new();
    assert(hits_view(out@) =~= seq![]);
    let t = counts.total as u64;
    if t == 0 {
        return out;
    }
    let obl = counts.with_obligation as u64;
    let act = counts.with_actor as u64;
    let am = counts.amendment as u64;
    let pr = counts.process_rule as u64;
    let ghost c = counts@;
    if obl >= 3 && 10 * obl > t && 20 * act > t {
        let a = ratio_value("obligations=", counts.with_obligation, counts.total);
        let b = ratio_value(" actors=", counts.with_actor, counts.total);
        let d = ratio_value(" process_rule=", counts.process_rule, counts.total);
        let ab = cat(a.as_str(), b.as_str());
        let value = cat(ab.as_str(), d.as_str());
        push_hit(&mut out, "provisions_with_obligations", SignalDirection::Making, value);
    }
    assert(hits_view(out@) =~= tier5_obligations(c));
    let ghost o1 = hits_view(out@);
    if 5 * am > 3 * t && obl < 3 {
        push_hit(&mut out, "mostly_amendment", SignalDirection::NotMaking, ratio_value("amendment=", counts.amendment, counts.total));
    }
    assert(hits_view(out@) =~= o1 + tier5_amendment(c));
    let ghost o2 = hits_view(out@);
    if t >= 10 && obl == 0 {
        let a = cat("0 obligations in ", decimal_string(counts.total).as_str());
        let value = cat(a.as_str(), " provisions");
        push_hit(&mut out, "no_obligations_found", SignalDirection::NotMaking, value);
    }
    assert(hits_view(out@) =~= o2 + tier5_no_obligation(c));
    let ghost o3 = hits_view(out@);
    if 5 * pr > 2 * t && 10 * am < t && t >= 5 {
        push_hit(&mut out, "high_process_rule", SignalDirection::Making, ratio_value("process_rule=", counts.process_rule, counts.total));
    }
    assert(hits_view(out@) =~= o3 + tier5_process_rule(c));
    out
}

} // verus!
