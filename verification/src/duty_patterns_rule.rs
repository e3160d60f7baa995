//! Thing-subject obligations (the Rule tier): the grammatical subject is a
//! thing ("traffic routes must be suitable", "a cofferdam must be of suitable
//! design") and a modal imposes the obligation.
//!
//! Positions and the look-back window are counted in characters.

use vstd::prelude::*;
use crate::duty_patterns::{DutyClassification, DutyFamily, DutySubType, C55};
use crate::rx::{find_spans, is_match, is_match_spec, spans_spec, spans_view};
use crate::text::{contains_seq, contains_str, from_range, occurs_at, occurs_at_exec, to_chars};

verus! {

/// Things that are commonly the subject of an obligation.
pub open spec fn thing_keywords() -> Seq<&'static str> {
    seq![
        "arrangements", "routes", "exits", "equipment", "systems", "measures", "rooms", "facilities", "site",
        "steps", "structure", "vessel", "cofferdam", "caisson", "lighting", "precautions", "notice", "procedures",
        "timber", "material", "workplace", "premises", "device", "platform", "scaffolding", "scaffold", "plant",
        "machinery", "guard", "barrier", "fence", "ventilation", "temperature", "door", "gate", "floor", "surface",
        "place of work", "work equipment", "personal protective equipment", "excavation", "vehicle",
        "means of access", "means of egress", "welfare facilities",
    ]
}

fn thing_keywords_exec() -> (r: Vec<&'static str>)
    ensures
        r@ == thing_keywords(),
{
    vec![
        "arrangements", "routes", "exits", "equipment", "systems", "measures", "rooms", "facilities", "site",
        "steps", "structure", "vessel", "cofferdam", "caisson", "lighting", "precautions", "notice", "procedures",
        "timber", "material", "workplace", "premises", "device", "platform", "scaffolding", "scaffold", "plant",
        "machinery", "guard", "barrier", "fence", "ventilation", "temperature", "door", "gate", "floor", "surface",
        "place of work", "work equipment", "personal protective equipment", "excavation", "vehicle",
        "means of access", "means of egress", "welfare facilities",
    ]
}

/// Person and government actors: one of them between the thing and the
/// modal is the real subject.
pub open spec fn person_keywords() -> Seq<&'static str> {
    seq![
        "employer", "employee", "person", "contractor", "worker", "occupier", "owner", "operator", "master",
        "manager", "duty holder", "responsible person", "competent person", "self-employed", "designer",
        "manufacturer", "supplier", "installer", "principal contractor", "client", "secretary of state",
        "minister", "authority", "commission", "commissioner", "inspector", "executive", "tribunal", "court",
    ]
}

fn person_keywords_exec() -> (r: Vec<&'static str>)
    ensures
        r@ == person_keywords(),
{
    vec![
        "employer", "employee", "person", "contractor", "worker", "occupier", "owner", "operator", "master",
        "manager", "duty holder", "responsible person", "competent person", "self-employed", "designer",
        "manufacturer", "supplier", "installer", "principal contractor", "client", "secretary of state",
        "minister", "authority", "commission", "commissioner", "inspector", "executive", "tribunal", "court",
    ]
}

/// Modal verbs that can follow a thing subject.
pub const RULE_MODAL_RE: &'static str = r"(?i)\b(?:shall|must|is required to|may|entitled)\b";
/// The enabling ones among them.
pub const RULE_ENABLING_RE: &'static str = r"(?i)\b(?:may|entitled)\b";

/// Characters looked back from the modal for a thing keyword.
pub const THING_WINDOW: usize = 80;

pub open spec fn ascii_lower_char(c: char) -> char {
    if 'A' <= c <= 'Z' { ((c as u8) + 32) as char } else { c }
}

/// `str::to_ascii_lowercase`: ASCII capitals lowered, all else kept.
pub open spec fn ascii_lower(s: Seq<char>) -> Seq<char> {
    s.map_values(|c: char| ascii_lower_char(c))
}

fn ascii_lower_exec(v: &Vec<char>, lo: usize, hi: usize) -> (r: Vec<char>)
    requires
        lo <= hi <= v.len(),
    ensures
        r@ == ascii_lower(v@.subrange(lo as int, hi as int)),
{
    let mut out: Vec<char> = Vec::new();
    let mut i = lo;
    while i < hi
        invariant
            lo <= i <= hi <= v.len(),
            out@ == ascii_lower(v@.subrange(lo as int, i as int)),
        decreases hi - i,
    {
        let c = v[i];
        let d = if 'A' <= c && c <= 'Z' { ((c as u8) + 32) as char } else { c };
        out.push(d);
        proof {
            assert(ascii_lower(v@.subrange(lo as int, i + 1)) =~= ascii_lower(v@.subrange(lo as int, i as int)).push(d));
        }
        i += 1;
    }
    out
}

/// The last index at or before `i` where `needle` occurs, or -1.
pub open spec fn last_occ_upto(hay: Seq<char>, needle: Seq<char>, i: int) -> int
    decreases i + 1,
{
    if i < 0 {
        -1
    } else if occurs_at(hay, needle, i) {
        i
    } else {
        last_occ_upto(hay, needle, i - 1)
    }
}

proof fn lemma_last_occ_range(hay: Seq<char>, needle: Seq<char>, i: int)
    ensures
        -1 <= last_occ_upto(hay, needle, i),
        i >= 0 ==> last_occ_upto(hay, needle, i) <= i,
        last_occ_upto(hay, needle, i) >= 0 ==> occurs_at(hay, needle, last_occ_upto(hay, needle, i)),
    decreases i + 1,
{
    if i >= 0 && !occurs_at(hay, needle, i) {
        lemma_last_occ_range(hay, needle, i - 1);
    }
}

/// `str::rfind`: the last index where `needle` occurs, or -1.
pub open spec fn rfind(hay: Seq<char>, needle: Seq<char>) -> int {
    last_occ_upto(hay, needle, hay.len() - needle.len())
}

fn rfind_exec(hay: &Vec<char>, needle: &Vec<char>) -> (r: i64)
    requires
        hay.len() < i64::MAX,
    ensures
        r == rfind(hay@, needle@),
{
    if needle.len() > hay.len() {
        return -1;
    }
    let mut i: usize = hay.len() - needle.len();
    loop
        invariant
            i <= hay.len() - needle.len(),
            hay.len() < i64::MAX,
            rfind(hay@, needle@) == last_occ_upto(hay@, needle@, i as int),
        decreases i,
    {
        if occurs_at_exec(hay, needle, i) {
            return i as i64;
        }
        if i == 0 {
            proof {
                assert(last_occ_upto(hay@, needle@, -1) == -1);
            }
            return -1;
        }
        i -= 1;
    }
}

/// The rightmost position of any thing keyword in `before` (-1: none).
pub open spec fn best_thing(before: Seq<char>, kws: Seq<&'static str>) -> int
    decreases kws.len(),
{
    if kws.len() == 0 {
        -1
    } else {
        let b = best_thing(before, kws.drop_last());
        let p = rfind(before, kws.last()@);
        if p >= 0 && p > b { p } else { b }
    }
}

proof fn lemma_best_thing_range(before: Seq<char>, kws: Seq<&'static str>)
    ensures
        -1 <= best_thing(before, kws) <= before.len(),
    decreases kws.len(),
{
    if kws.len() > 0 {
        lemma_best_thing_range(before, kws.drop_last());
        lemma_last_occ_range(before, kws.last()@, before.len() - kws.last()@.len());
    }
}

/// Some keyword of `kws` occurs in `s`.
pub open spec fn any_in(s: Seq<char>, kws: Seq<&'static str>) -> bool {
    exists|i: int| 0 <= i < kws.len() && contains_seq(s, (#[trigger] kws[i])@)
}

/// The modal match `[s, e)` makes a rule: a thing keyword in the window
/// before it, and no person keyword from that thing on.
pub open spec fn rule_at(text: Seq<char>, s: int, e: int) -> Option<DutyClassification> {
    let lo = if s > THING_WINDOW { s - THING_WINDOW } else { 0 };
    let before = ascii_lower(text.subrange(lo, s));
    let p = best_thing(before, thing_keywords());
    if p < 0 || any_in(before.skip(p), person_keywords()) {
        None
    } else {
        let sub_type = if is_match_spec(RULE_ENABLING_RE@, text.subrange(s, e)) {
            DutySubType::Enabling
        } else {
            DutySubType::ThingObligation
        };
        Some(DutyClassification { family: DutyFamily::Rule, sub_type, confidence: C55, span: None })
    }
}

/// The first modal match (in order) that makes a rule.
pub open spec fn rule_from(text: Seq<char>, sp: Seq<(int, int)>) -> Option<DutyClassification>
    decreases sp.len(),
{
    if sp.len() == 0 {
        None
    } else {
        match rule_at(text, sp[0].0, sp[0].1) {
            Some(d) => Some(d),
            None => rule_from(text, sp.drop_first()),
        }
    }
}

pub open spec fn rule_spec(text: Seq<char>) -> Option<DutyClassification> {
    rule_from(text, spans_spec(RULE_MODAL_RE@, text))
}

fn best_thing_exec(before: &Vec<char>) -> (r: i64)
    requires
        before.len() < i64::MAX,
    ensures
        r == best_thing(before@, thing_keywords()),
{
    let kws = thing_keywords_exec();
    let mut best: i64 = -1;
    let mut k: usize = 0;
    proof {
        assert(kws@.take(0) =~= seq![]);
    }
    while k < kws.len()
        invariant
            k <= kws.len(),
            kws@ == thing_keywords(),
            before.len() < i64::MAX,
            best == best_thing(before@, kws@.take(k as int)),
        decreases kws.len() - k,
    {
        proof {
            assert(kws@.take(k + 1).drop_last() =~= kws@.take(k as int));
            assert(kws@.take(k + 1).last() == kws@[k as int]);
        }
        let kw = to_chars(kws[k]);
        let p = rfind_exec(before, &kw);
        if p >= 0 && p > best {
            best = p;
        }
        k += 1;
    }
    proof {
        assert(kws@.take(kws.len() as int) =~= kws@);
    }
    best
}

fn any_person_in(s: &str) -> (r: bool)
    ensures
        r == any_in(s@, person_keywords()),
{
    let kws = person_keywords_exec();
    let mut k: usize = 0;
    while k < kws.len()
        invariant
            k <= kws.len(),
            kws@ == person_keywords(),
            forall|j: int| 0 <= j < k ==> !contains_seq(s@, (#[trigger] kws@[j])@),
        decreases kws.len() - k,
    {
        if contains_str(s, kws[k]) {
            return true;
        }
        k += 1;
    }
    false
}

/// The rule decision on the modal matches `sp` of `text`: the first of them,
/// in order, that makes a rule.
pub fn rule_from_spans(text: &str, sp: &Vec<(usize, usize)>) -> (r: Option<DutyClassification>)
    requires
        forall|i: int| 0 <= i < sp@.len() ==> (#[trigger] sp@[i]).0 <= sp@[i].1 <= text@.len(),
    ensures
        r == rule_from(text@, spans_view(sp@)),
{
    let tv = to_chars(text);
    let ghost g = spans_view(sp@);
    let mut k: usize = 0;
    proof {
        assert(g.skip(0) =~= g);
    }
    while k < sp.len()
        invariant
            k <= sp.len(),
            tv@ == text@,
            g == spans_view(sp@),
            forall|i: int| 0 <= i < sp@.len() ==> (#[trigger] sp@[i]).0 <= sp@[i].1 <= text@.len(),
            rule_from(text@, g) == rule_from(text@, g.skip(k as int)),
        decreases sp.len() - k,
    {
        let (s, e) = sp[k];
        proof {
            assert(g.skip(k as int)[0] == g[k as int]);
            assert(g[k as int] == (s as int, e as int));
            assert(g.skip(k as int).drop_first() =~= g.skip(k + 1));
            assert(s <= e <= tv.len());
        }
        let lo = if s > THING_WINDOW { s - THING_WINDOW } else { 0 };
        let before = ascii_lower_exec(&tv, lo, s);
        assert(before.len() <= THING_WINDOW);
        let p = best_thing_exec(&before);
        proof {
            lemma_best_thing_range(before@, thing_keywords());
        }
        if p >= 0 {
            let between = from_range(&before, p as usize, before.len());
            proof {
                assert(before@.subrange(p as int, before@.len() as int) =~= before@.skip(p as int));
            }
            if !any_person_in(between.as_str()) {
                let modal = from_range(&tv, s, e);
                let sub_type = if is_match(RULE_ENABLING_RE, modal.as_str()) {
                    DutySubType::Enabling
                } else {
                    DutySubType::ThingObligation
                };
                return Some(DutyClassification { family: DutyFamily::Rule, sub_type, confidence: C55, span: None });
            }
        }
        k += 1;
    }
    proof {
        assert(g.skip(k as int) =~= Seq::<(int, int)>::empty());
    }
    None
}

/// A thing-subject obligation (`Rule`), at the first modal whose look-back
/// window has a thing keyword with no person keyword after it: enabling for
/// "may"/"entitled", else a thing obligation.
pub fn match_rule(text: &str) -> (r: Option<DutyClassification>)
    ensures
        r == rule_spec(text@),
{
    let sp = find_spans(RULE_MODAL_RE, text);
    rule_from_spans(text, &sp)
}

} // verus!
