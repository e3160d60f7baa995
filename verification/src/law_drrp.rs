//! Law-level DRRP rolled up from reconciled provision-level actor signals.
//!
//! Duty/Responsibility/Obligation makes a law "making"; Rights/Powers only make it
//! "empowering"; nothing makes it "no_obligations".  Signals in amendment text (an
//! amendment instruction, or a provision under one) are excluded.

use vstd::prelude::*;
use crate::amendment::{ancestors_spec, lookup_is_function, lookup_total, opt_string_view};
use crate::labelset::LabelSet;
use crate::rx::{is_match, is_match_spec};
use crate::text::{from_chars, from_range, owned, squash, squash_exec, str_eq, to_chars};

verus! {

/// One reconciled actor signal on one provision.
#[derive(Debug, Clone)]
pub struct ActorSignal {
    /// Full section id, e.g. `UK_uksi_2008_198:reg.2(3)(a)`
    pub section_id: String,
    /// Actor label, e.g. `Ind: Person`, `Gvt: Minister`
    pub actor_label: String,
    /// Reconciled DRRP: `Obligation`, `Liberty`, `none`
    pub drrp: String,
}

/// (holder, duty type, clause, article)
pub type DrrpEntry = (String, String, String, String);

pub type EntryView = (Seq<char>, Seq<char>, Seq<char>, Seq<char>);

pub open spec fn entry_view(e: DrrpEntry) -> EntryView {
    (e.0@, e.1@, e.2@, e.3@)
}

pub open spec fn entries_view(v: Vec<DrrpEntry>) -> Seq<EntryView> {
    v@.map_values(|e: DrrpEntry| entry_view(e))
}

/// Law-level DRRP payload.
#[derive(Debug, PartialEq)]
pub struct LawDrrp {
    pub duty_holders: LabelSet,
    pub rights_holders: LabelSet,
    pub responsibility_holders: LabelSet,
    pub power_holders: LabelSet,
    pub duty_types: LabelSet,
    pub roles: LabelSet,
    pub roles_gvt: LabelSet,
    pub duties: Vec<DrrpEntry>,
    pub rights: Vec<DrrpEntry>,
    pub responsibilities: Vec<DrrpEntry>,
    pub powers: Vec<DrrpEntry>,
    /// Signals dropped because they sit in amendment text
    pub excluded_amendment: usize,
}

impl Default for LawDrrp {
    fn default() -> (r: LawDrrp)
        ensures
            r.duty_holders@.len() == 0,
            r.rights_holders@.len() == 0,
            r.responsibility_holders@.len() == 0,
            r.power_holders@.len() == 0,
            r.duty_types@.len() == 0,
            r.roles@.len() == 0,
            r.roles_gvt@.len() == 0,
            r.duties@.len() == 0,
            r.rights@.len() == 0,
            r.responsibilities@.len() == 0,
            r.powers@.len() == 0,
            r.excluded_amendment == 0,
    {
        LawDrrp {
            duty_holders: LabelSet::new(),
            rights_holders: LabelSet::new(),
            responsibility_holders: LabelSet::new(),
            power_holders: LabelSet::new(),
            duty_types: LabelSet::new(),
            roles: LabelSet::new(),
            roles_gvt: LabelSet::new(),
            duties: Vec::new(),
            rights: Vec::new(),
            responsibilities: Vec::new(),
            powers: Vec::new(),
            excluded_amendment: 0,
        }
    }
}

#[derive(Debug, Clone, Copy, PartialEq, Eq, Structural)]
pub enum Verdict {
    Making,
    Empowering,
    NoObligations,
}

impl Verdict {
    pub fn as_str(&self) -> (r: &'static str)
        ensures
            r@ == match *self {
                Verdict::Making => "making"@,
                Verdict::Empowering => "empowering"@,
                Verdict::NoObligations => "no_obligations"@,
            },
    {
        match self {
            Verdict::Making => "making",
            Verdict::Empowering => "empowering",
            Verdict::NoObligations => "no_obligations",
        }
    }
}

impl LawDrrp {
    /// Making when there are duties or responsibilities; Empowering when there are
    /// only rights or powers; NoObligations otherwise.
    pub fn verdict(&self) -> (r: Verdict)
        ensures
            r == if self.duties@.len() > 0 || self.responsibilities@.len() > 0 {
                Verdict::Making
            } else if self.rights@.len() > 0 || self.powers@.len() > 0 {
                Verdict::Empowering
            } else {
                Verdict::NoObligations
            },
    {
        if self.duties.len() > 0 || self.responsibilities.len() > 0 {
            Verdict::Making
        } else if self.rights.len() > 0 || self.powers.len() > 0 {
            Verdict::Empowering
        } else {
            Verdict::NoObligations
        }
    }
}

/// Amendment instructions ("insert—", "for X substitute Y", "omit", "is amended", ...).
pub const AMENDMENT_RE: &'static str = r"(?ix)
        \b(?:insert|substitute|add)(?:ed)?\s*[—–:-]\s*   # 'insert—' '... there is substituted–' introducing quoted text
        | \bfor\b[^.;]{0,160}?\bsubstitute\b             # 'for X substitute Y'
        | \b(?:after|before|at\s+the\s+end\s+of)\b[^.;]{0,160}?\binsert\b
        | \bomit\b
        | \b(?:is|are|shall\s+be)\s+(?:further\s+)?amended\b
        | \bthere\s+(?:is|are|shall\s+be)\s+(?:inserted|substituted|added)\b
        | \bhas\s+effect\s+as\s+if\b[^.;]{0,160}?\b(?:substituted|inserted)\b
        ";

pub open spec fn is_amendment_instruction_spec(text: Seq<char>) -> bool {
    is_match_spec(AMENDMENT_RE@, text)
}

/// Is this provision text an amendment instruction?
pub fn is_amendment_instruction(text: &str) -> (r: bool)
    ensures
        r == is_amendment_instruction_spec(text@),
{
    is_match(AMENDMENT_RE, text)
}

/// Ancestors of a section id by stripping trailing `(...)` groups:
/// `X:reg.2(3)(a)(ii)` gives `X:reg.2(3)(a)`, `X:reg.2(3)`, `X:reg.2`.
pub fn ancestors(section_id: &str) -> (r: Vec<String>)
    ensures
        r@.map_values(|s: String| s@) == ancestors_spec(section_id@),
{
    crate::amendment::ancestors(section_id)
}

pub open spec fn is_government_actor_spec(label: Seq<char>) -> bool {
    "Gvt"@.is_prefix_of(label) || "EU:"@.is_prefix_of(label)
}

/// Government-side actor (regulator, Crown, EU institution): its Obligation is a
/// Responsibility and its Liberty a Power.
pub fn is_government_actor(label: &str) -> (r: bool)
    ensures
        r == is_government_actor_spec(label@),
{
    crate::text::starts_with_str(label, "Gvt") || crate::text::starts_with_str(label, "EU:")
}

/// At most 200 characters of the whitespace-normalised text, with "..." when cut.
pub open spec fn clause_preview_spec(text: Seq<char>) -> Seq<char> {
    let c = squash(text);
    if c.len() > 200 {
        c.take(200) + "..."@
    } else {
        c
    }
}

fn clause_preview(text: &str) -> (r: String)
    ensures
        r@ == clause_preview_spec(text@),
{
    let c = squash_exec(text);
    if c.len() > 200 {
        let mut t = from_range(&c, 0, 200);
        let dots = to_chars("...");
        let mut k: usize = 0;
        while k < dots.len()
            invariant
                k <= dots.len(),
                t@ == c@.take(200) + dots@.take(k as int),
            decreases dots.len() - k,
        {
            crate::text::string_push_pub(&mut t, dots[k]);
            proof {
                assert(dots@.take(k + 1) == dots@.take(k as int).push(dots@[k as int]));
            }
            k += 1;
        }
        proof {
            assert(dots@.take(dots@.len() as int) == dots@);
            assert(c@.subrange(0, 200) == c@.take(200));
        }
        t
    } else {
        from_chars(&c)
    }
}

/// Index of the first `c` in `s`.
pub open spec fn first_index_of(s: Seq<char>, c: char) -> Option<int>
    decreases s.len(),
{
    if s.len() == 0 {
        None
    } else if s[0] == c {
        Some(0)
    } else {
        match first_index_of(s.drop_first(), c) {
            Some(i) => Some(i + 1),
            None => None,
        }
    }
}

/// The article part of a section id: what follows the first `:` (the whole id
/// when there is none).
pub open spec fn article_spec(id: Seq<char>) -> Seq<char> {
    match first_index_of(id, ':') {
        Some(i) => id.subrange(i + 1, id.len() as int),
        None => id,
    }
}

fn article(id: &str) -> (r: String)
    ensures
        r@ == article_spec(id@),
{
    let v = to_chars(id);
    let mut i: usize = 0;
    proof {
        assert(v@.skip(0) == v@);
    }
    while i < v.len() && v[i] != ':'
        invariant
            i <= v.len(),
            v@ == id@,
            first_index_of(v@, ':') == match first_index_of(v@.skip(i as int), ':') {
                Some(k) => Some(k + i),
                None => None,
            },
        decreases v.len() - i,
    {
        proof {
            assert(v@.skip(i as int).drop_first() == v@.skip(i + 1));
        }
        i += 1;
    }
    proof {
        assert(v@.skip(0) == v@);
    }
    if i < v.len() {
        proof {
            assert(v@.skip(i as int)[0] == ':');
        }
        from_range(&v, i + 1, v.len())
    } else {
        proof {
            assert(v@.skip(i as int).len() == 0);
        }
        from_chars(&v)
    }
}

/// The provision with id `id` has a text, and it is an amendment instruction.
pub open spec fn text_is_amendment<F: Fn(&str) -> Option<String>>(f: F, id: Seq<char>) -> bool {
    exists|s: &str, o: Option<String>|
        #[trigger] call_ensures(f, (s,), o) && s@ == id && o is Some && is_amendment_instruction_spec(o->0@)
}

/// `id` is amendment text: an amendment instruction itself, or under one.
pub open spec fn in_amendment<F: Fn(&str) -> Option<String>>(f: F, id: Seq<char>) -> bool {
    text_is_amendment(f, id) || exists|k: int|
        0 <= k < ancestors_spec(id).len() && text_is_amendment(f, #[trigger] ancestors_spec(id)[k])
}

fn check_text<F: Fn(&str) -> Option<String>>(text_of: &F, id: &str) -> (r: bool)
    requires
        lookup_total(*text_of),
        lookup_is_function(*text_of),
    ensures
        r == text_is_amendment(*text_of, id@),
{
    let o = text_of(id);
    match o {
        Some(t) => {
            if is_amendment_instruction(t.as_str()) {
                return true;
            }
            proof {
                assert forall|s: &str, o2: Option<String>|
                    #[trigger] call_ensures(*text_of, (s,), o2) && s@ == id@
                    implies !(o2 is Some && is_amendment_instruction_spec(o2->0@)) by {
                    assert(opt_string_view(o2) == opt_string_view(Some(t)));
                }
            }
            false
        },
        None => {
            proof {
                assert forall|s: &str, o2: Option<String>|
                    #[trigger] call_ensures(*text_of, (s,), o2) && s@ == id@
                    implies !(o2 is Some && is_amendment_instruction_spec(o2->0@)) by {
                    assert(opt_string_view(o2) == opt_string_view(None::<String>));
                }
            }
            false
        },
    }
}

fn in_amendment_exec<F: Fn(&str) -> Option<String>>(text_of: &F, id: &str) -> (r: bool)
    requires
        lookup_total(*text_of),
        lookup_is_function(*text_of),
    ensures
        r == in_amendment(*text_of, id@),
{
    if check_text(text_of, id) {
        return true;
    }
    let anc = ancestors(id);
    let ghost av = anc@.map_values(|s: String| s@);
    let mut i: usize = 0;
    while i < anc.len()
        invariant
            i <= anc.len(),
            av == anc@.map_values(|s: String| s@),
            av == ancestors_spec(id@),
            lookup_total(*text_of),
            lookup_is_function(*text_of),
            forall|j: int| 0 <= j < i ==> !text_is_amendment(*text_of, #[trigger] av[j]),
        decreases anc.len() - i,
    {
        if check_text(text_of, anc[i].as_str()) {
            proof {
                assert(av[i as int] == anc@[i as int]@);
            }
            return true;
        }
        i += 1;
    }
    false
}

/// The text the lookup gives for `id` (meaningful once it has been called on `id`).
pub open spec fn looked_up<F: Fn(&str) -> Option<String>>(f: F, id: Seq<char>) -> Option<Seq<char>> {
    let so = choose|so: (&str, Option<String>)| #[trigger] call_ensures(f, (so.0,), so.1) && so.0@ == id;
    opt_string_view(so.1)
}

/// The clause recorded for a signal on `id`: the preview of its text, or empty.
pub open spec fn clause_spec<F: Fn(&str) -> Option<String>>(f: F, id: Seq<char>) -> Seq<char> {
    match looked_up(f, id) {
        Some(t) => clause_preview_spec(t),
        None => seq![],
    }
}

/// A signal counts when it is an Obligation or a Liberty outside amendment text.
pub open spec fn counted<F: Fn(&str) -> Option<String>>(f: F, s: ActorSignal) -> bool {
    (s.drrp@ == "Obligation"@ || s.drrp@ == "Liberty"@) && !in_amendment(f, s.section_id@)
}

/// 0 duty (governed Obligation), 1 responsibility (government Obligation),
/// 2 right (governed Liberty), 3 power (government Liberty).
pub open spec fn kind(s: ActorSignal) -> int {
    let gov = is_government_actor_spec(s.actor_label@);
    if s.drrp@ == "Obligation"@ {
        if gov { 1 } else { 0 }
    } else {
        if gov { 3 } else { 2 }
    }
}

pub open spec fn kind_name(k: int) -> Seq<char> {
    if k == 0 { "Obligation"@ } else if k == 1 { "Responsibility"@ } else if k == 2 { "Liberty"@ } else { "Power"@ }
}

pub open spec fn kind_upper(k: int) -> Seq<char> {
    if k == 0 { "OBLIGATION"@ } else if k == 1 { "RESPONSIBILITY"@ } else if k == 2 { "LIBERTY"@ } else { "POWER"@ }
}

pub open spec fn entry_spec<F: Fn(&str) -> Option<String>>(f: F, s: ActorSignal) -> EntryView {
    (s.actor_label@, kind_upper(kind(s)), clause_spec(f, s.section_id@), article_spec(s.section_id@))
}

/// Entries of the counted signals of kind `k`, in signal order.
pub open spec fn entries_of<F: Fn(&str) -> Option<String>>(sigs: Seq<ActorSignal>, f: F, k: int) -> Seq<EntryView>
    decreases sigs.len(),
{
    if sigs.len() == 0 {
        seq![]
    } else if counted(f, sigs.last()) && kind(sigs.last()) == k {
        entries_of(sigs.drop_last(), f, k).push(entry_spec(f, sigs.last()))
    } else {
        entries_of(sigs.drop_last(), f, k)
    }
}

/// Labels of the counted signals of kind `k` (k in 0..4), of government actors
/// (k == 5), or of other actors (k == 4).
pub open spec fn labels_of<F: Fn(&str) -> Option<String>>(sigs: Seq<ActorSignal>, f: F, k: int) -> Set<Seq<char>>
    decreases sigs.len(),
{
    if sigs.len() == 0 {
        Set::empty()
    } else {
        let s = sigs.last();
        let gov = is_government_actor_spec(s.actor_label@);
        let sel = if k < 4 { kind(s) == k } else if k == 4 { !gov } else { gov };
        if counted(f, s) && sel {
            labels_of(sigs.drop_last(), f, k).insert(s.actor_label@)
        } else {
            labels_of(sigs.drop_last(), f, k)
        }
    }
}

/// Names of the kinds of the counted signals.
pub open spec fn kinds_of<F: Fn(&str) -> Option<String>>(sigs: Seq<ActorSignal>, f: F) -> Set<Seq<char>>
    decreases sigs.len(),
{
    if sigs.len() == 0 {
        Set::empty()
    } else if counted(f, sigs.last()) {
        kinds_of(sigs.drop_last(), f).insert(kind_name(kind(sigs.last())))
    } else {
        kinds_of(sigs.drop_last(), f)
    }
}

/// Number of Obligation/Liberty signals dropped for sitting in amendment text.
pub open spec fn excluded_of<F: Fn(&str) -> Option<String>>(sigs: Seq<ActorSignal>, f: F) -> nat
    decreases sigs.len(),
{
    if sigs.len() == 0 {
        0
    } else {
        let s = sigs.last();
        let e = excluded_of(sigs.drop_last(), f);
        if (s.drrp@ == "Obligation"@ || s.drrp@ == "Liberty"@) && in_amendment(f, s.section_id@) {
            e + 1
        } else {
            e
        }
    }
}

/// Number of Obligation and Liberty signals.
pub open spec fn ob_lib_count(sigs: Seq<ActorSignal>) -> nat
    decreases sigs.len(),
{
    if sigs.len() == 0 {
        0
    } else {
        let s = sigs.last();
        ob_lib_count(sigs.drop_last()) + (if s.drrp@ == "Obligation"@ || s.drrp@ == "Liberty"@ { 1nat } else { 0nat })
    }
}

/// Holders of kind `k` are government actors exactly for responsibilities
/// and powers.
pub open spec fn holder_kind_ok(k: int, label: Seq<char>) -> bool {
    if k == 1 || k == 3 { is_government_actor_spec(label) } else { !is_government_actor_spec(label) }
}

proof fn lemma_entries_counts<F: Fn(&str) -> Option<String>>(sigs: Seq<ActorSignal>, f: F)
    ensures
        excluded_of(sigs, f) + entries_of(sigs, f, 0).len() + entries_of(sigs, f, 1).len()
            + entries_of(sigs, f, 2).len() + entries_of(sigs, f, 3).len() == ob_lib_count(sigs),
        forall|k: int, i: int| 0 <= k < 4 && 0 <= i < entries_of(sigs, f, k).len()
            ==> (#[trigger] entries_of(sigs, f, k)[i]).1 == kind_upper(k) && holder_kind_ok(k, entries_of(sigs, f, k)[i].0),
        forall|k: int, x: Seq<char>| 0 <= k < 4 ==> (#[trigger] labels_of(sigs, f, k).contains(x)
            <==> exists|i: int| 0 <= i < entries_of(sigs, f, k).len() && (#[trigger] entries_of(sigs, f, k)[i]).0 == x),
    decreases sigs.len(),
{
    if sigs.len() > 0 {
        let init = sigs.drop_last();
        let s = sigs.last();
        lemma_entries_counts(init, f);
        assert forall|k: int, i: int| 0 <= k < 4 && 0 <= i < entries_of(sigs, f, k).len()
            implies (#[trigger] entries_of(sigs, f, k)[i]).1 == kind_upper(k) && holder_kind_ok(k, entries_of(sigs, f, k)[i].0) by {
            if i < entries_of(init, f, k).len() {
                assert(entries_of(sigs, f, k)[i] == entries_of(init, f, k)[i]);
            }
        }
        assert forall|k: int, x: Seq<char>| 0 <= k < 4 implies (#[trigger] labels_of(sigs, f, k).contains(x)
            <==> exists|i: int| 0 <= i < entries_of(sigs, f, k).len() && (#[trigger] entries_of(sigs, f, k)[i]).0 == x) by {
            let e0 = entries_of(init, f, k);
            let e1 = entries_of(sigs, f, k);
            let hit = counted(f, s) && kind(s) == k;
            if hit {
                assert(e1 == e0.push(entry_spec(f, s)));
                assert(labels_of(sigs, f, k) == labels_of(init, f, k).insert(s.actor_label@));
            } else {
                assert(e1 == e0);
                assert(labels_of(sigs, f, k) == labels_of(init, f, k));
            }
            assert(labels_of(init, f, k).contains(x) <==> exists|i: int| 0 <= i < e0.len() && (#[trigger] e0[i]).0 == x);
            if labels_of(sigs, f, k).contains(x) {
                if labels_of(init, f, k).contains(x) {
                    let i = choose|i: int| 0 <= i < e0.len() && (#[trigger] e0[i]).0 == x;
                    assert(e1[i] == e0[i]);
                } else {
                    assert(e1[e1.len() - 1].0 == x);
                }
            }
            if exists|i: int| 0 <= i < e1.len() && (#[trigger] e1[i]).0 == x {
                let i = choose|i: int| 0 <= i < e1.len() && (#[trigger] e1[i]).0 == x;
                if i < e0.len() {
                    assert(e1[i] == e0[i]);
                }
            }
        }
    }
}

/// Aggregation accounts for every Obligation and Liberty signal once: it is
/// dropped as amendment text or becomes one entry of its kind.  Entries carry
/// their kind in capitals; duty and right holders are not government actors,
/// responsibility and power holders are; each holder set is the set of labels
/// of its entries.
pub proof fn lemma_aggregate_counts<F: Fn(&str) -> Option<String>>(law: LawDrrp, sigs: Seq<ActorSignal>, f: F)
    requires
        aggregated(law, sigs, f),
    ensures
        law.excluded_amendment + law.duties@.len() + law.responsibilities@.len() + law.rights@.len()
            + law.powers@.len() == ob_lib_count(sigs),
        forall|i: int| 0 <= i < law.duties@.len() ==> (#[trigger] law.duties@[i]).1@ == "OBLIGATION"@
            && !is_government_actor_spec(law.duties@[i].0@),
        forall|i: int| 0 <= i < law.responsibilities@.len() ==> (#[trigger] law.responsibilities@[i]).1@ == "RESPONSIBILITY"@
            && is_government_actor_spec(law.responsibilities@[i].0@),
        forall|i: int| 0 <= i < law.rights@.len() ==> (#[trigger] law.rights@[i]).1@ == "LIBERTY"@
            && !is_government_actor_spec(law.rights@[i].0@),
        forall|i: int| 0 <= i < law.powers@.len() ==> (#[trigger] law.powers@[i]).1@ == "POWER"@
            && is_government_actor_spec(law.powers@[i].0@),
        law.duty_holders@.to_set() == entries_view(law.duties).map_values(|e: EntryView| e.0).to_set(),
        law.responsibility_holders@.to_set() == entries_view(law.responsibilities).map_values(|e: EntryView| e.0).to_set(),
        law.rights_holders@.to_set() == entries_view(law.rights).map_values(|e: EntryView| e.0).to_set(),
        law.power_holders@.to_set() == entries_view(law.powers).map_values(|e: EntryView| e.0).to_set(),
{
    lemma_entries_counts(sigs, f);
    assert(entries_view(law.duties).len() == law.duties@.len());
    assert(entries_view(law.responsibilities).len() == law.responsibilities@.len());
    assert(entries_view(law.rights).len() == law.rights@.len());
    assert(entries_view(law.powers).len() == law.powers@.len());
    assert forall|i: int| 0 <= i < law.duties@.len() implies (#[trigger] law.duties@[i]).1@ == "OBLIGATION"@
        && !is_government_actor_spec(law.duties@[i].0@) by {
        assert(entries_of(sigs, f, 0)[i] == entry_view(law.duties@[i]));
    }
    assert forall|i: int| 0 <= i < law.responsibilities@.len() implies (#[trigger] law.responsibilities@[i]).1@ == "RESPONSIBILITY"@
        && is_government_actor_spec(law.responsibilities@[i].0@) by {
        assert(entries_of(sigs, f, 1)[i] == entry_view(law.responsibilities@[i]));
    }
    assert forall|i: int| 0 <= i < law.rights@.len() implies (#[trigger] law.rights@[i]).1@ == "LIBERTY"@
        && !is_government_actor_spec(law.rights@[i].0@) by {
        assert(entries_of(sigs, f, 2)[i] == entry_view(law.rights@[i]));
    }
    assert forall|i: int| 0 <= i < law.powers@.len() implies (#[trigger] law.powers@[i]).1@ == "POWER"@
        && is_government_actor_spec(law.powers@[i].0@) by {
        assert(entries_of(sigs, f, 3)[i] == entry_view(law.powers@[i]));
    }
    lemma_holders(labels_of(sigs, f, 0), entries_of(sigs, f, 0), 0, sigs, f);
    lemma_holders(labels_of(sigs, f, 1), entries_of(sigs, f, 1), 1, sigs, f);
    lemma_holders(labels_of(sigs, f, 2), entries_of(sigs, f, 2), 2, sigs, f);
    lemma_holders(labels_of(sigs, f, 3), entries_of(sigs, f, 3), 3, sigs, f);
}

proof fn lemma_holders<F: Fn(&str) -> Option<String>>(ls: Set<Seq<char>>, es: Seq<EntryView>, k: int, sigs: Seq<ActorSignal>, f: F)
    requires
        0 <= k < 4,
        ls == labels_of(sigs, f, k),
        es == entries_of(sigs, f, k),
        forall|x: Seq<char>| #[trigger] labels_of(sigs, f, k).contains(x)
            <==> exists|i: int| 0 <= i < entries_of(sigs, f, k).len() && (#[trigger] entries_of(sigs, f, k)[i]).0 == x,
    ensures
        ls == es.map_values(|e: EntryView| e.0).to_set(),
{
    let m = es.map_values(|e: EntryView| e.0);
    assert forall|x: Seq<char>| ls.contains(x) <==> m.to_set().contains(x) by {
        if ls.contains(x) {
            let i = choose|i: int| 0 <= i < es.len() && (#[trigger] es[i]).0 == x;
            assert(m[i] == x);
        }
        if m.to_set().contains(x) {
            let i = choose|i: int| 0 <= i < m.len() && m[i] == x;
            assert(es[i].0 == x);
        }
    }
    assert(ls =~= m.to_set());
}

/// The law-level payload of the signals `sigs`, with texts from `f`.
pub open spec fn aggregated<F: Fn(&str) -> Option<String>>(law: LawDrrp, sigs: Seq<ActorSignal>, f: F) -> bool {
    &&& law.duty_holders@.to_set() == labels_of(sigs, f, 0)
    &&& law.responsibility_holders@.to_set() == labels_of(sigs, f, 1)
    &&& law.rights_holders@.to_set() == labels_of(sigs, f, 2)
    &&& law.power_holders@.to_set() == labels_of(sigs, f, 3)
    &&& law.roles@.to_set() == labels_of(sigs, f, 4)
    &&& law.roles_gvt@.to_set() == labels_of(sigs, f, 5)
    &&& law.duty_types@.to_set() == kinds_of(sigs, f)
    &&& entries_view(law.duties) == entries_of(sigs, f, 0)
    &&& entries_view(law.responsibilities) == entries_of(sigs, f, 1)
    &&& entries_view(law.rights) == entries_of(sigs, f, 2)
    &&& entries_view(law.powers) == entries_of(sigs, f, 3)
    &&& law.excluded_amendment == excluded_of(sigs, f)
}

fn lookup_clause<F: Fn(&str) -> Option<String>>(text_of: &F, id: &str) -> (r: String)
    requires
        lookup_total(*text_of),
        lookup_is_function(*text_of),
    ensures
        r@ == clause_spec(*text_of, id@),
{
    let o = text_of(id);
    proof {
        let so = choose|so: (&str, Option<String>)| #[trigger] call_ensures(*text_of, (so.0,), so.1) && so.0@ == id@;
        assert(call_ensures(*text_of, ((id, o).0,), (id, o).1) && (id, o).0@ == id@);
        assert(opt_string_view(so.1) == opt_string_view(o));
    }
    match o {
        Some(t) => clause_preview(t.as_str()),
        None => String::new(),
    }
}

fn push_entry(v: &mut Vec<DrrpEntry>, e: DrrpEntry)
    ensures
        entries_view(*final(v)) == entries_view(*old(v)).push(entry_view(e)),
{
    v.push(e);
    proof {
        assert(entries_view(*v) =~= entries_view(*old(v)).push(entry_view(e)));
    }
}

/// Aggregate one law. `text_of(section_id)` returns the provision's own text.
pub fn aggregate<F: Fn(&str) -> Option<String>>(signals: &[ActorSignal], text_of: F) -> (r: LawDrrp)
    requires
        lookup_total(text_of),
        lookup_is_function(text_of),
    ensures
        aggregated(r, signals@, text_of),
{
    let mut law = LawDrrp::default();
    proof {
        assert(law.duty_holders@.to_set() =~= Set::<Seq<char>>::empty());
        assert(law.responsibility_holders@.to_set() =~= Set::<Seq<char>>::empty());
        assert(law.rights_holders@.to_set() =~= Set::<Seq<char>>::empty());
        assert(law.power_holders@.to_set() =~= Set::<Seq<char>>::empty());
        assert(law.roles@.to_set() =~= Set::<Seq<char>>::empty());
        assert(law.roles_gvt@.to_set() =~= Set::<Seq<char>>::empty());
        assert(law.duty_types@.to_set() =~= Set::<Seq<char>>::empty());
        assert(entries_view(law.duties) =~= Seq::<EntryView>::empty());
        assert(entries_view(law.responsibilities) =~= Seq::<EntryView>::empty());
        assert(entries_view(law.rights) =~= Seq::<EntryView>::empty());
        assert(entries_view(law.powers) =~= Seq::<EntryView>::empty());
        assert(signals@.take(0) =~= Seq::<ActorSignal>::empty());
    }
    let mut i: usize = 0;
    while i < signals.len()
        invariant
            i <= signals.len(),
            lookup_total(text_of),
            lookup_is_function(text_of),
            aggregated(law, signals@.take(i as int), text_of),
            law.excluded_amendment <= i,
        decreases signals.len() - i,
    {
        let s = &signals[i];
        let ghost pre = signals@.take(i as int);
        proof {
            assert(signals@.take(i + 1).drop_last() == pre);
            assert(signals@.take(i + 1).last() == signals@[i as int]);
        }
        let is_ob = str_eq(s.drrp.as_str(), "Obligation");
        let is_lib = str_eq(s.drrp.as_str(), "Liberty");
        if !is_ob && !is_lib {
            i += 1;
            continue;
        }
        if in_amendment_exec(&text_of, s.section_id.as_str()) {
            law.excluded_amendment += 1;
            i += 1;
            continue;
        }
        let gov = is_government_actor(s.actor_label.as_str());
        if gov {
            law.roles_gvt.insert(s.actor_label.as_str());
        } else {
            law.roles.insert(s.actor_label.as_str());
        }
        let clause = lookup_clause(&text_of, s.section_id.as_str());
        let art = article(s.section_id.as_str());
        let label = owned(s.actor_label.as_str());
        if is_ob && !gov {
            law.duty_holders.insert(s.actor_label.as_str());
            law.duty_types.insert("Obligation");
            push_entry(&mut law.duties, (label, owned("OBLIGATION"), clause, art));
        } else if is_ob && gov {
            law.responsibility_holders.insert(s.actor_label.as_str());
            law.duty_types.insert("Responsibility");
            push_entry(&mut law.responsibilities, (label, owned("RESPONSIBILITY"), clause, art));
        } else if !gov {
            law.rights_holders.insert(s.actor_label.as_str());
            law.duty_types.insert("Liberty");
            push_entry(&mut law.rights, (label, owned("LIBERTY"), clause, art));
        } else {
            law.power_holders.insert(s.actor_label.as_str());
            law.duty_types.insert("Power");
            push_entry(&mut law.powers, (label, owned("POWER"), clause, art));
        }
        i += 1;
    }
    proof {
        assert(signals@.take(signals@.len() as int) == signals@);
    }
    law
}

/// Government actors are those whose label starts with `Gvt` or `EU:`: in an
/// aggregated law the holders of duties and rights carry neither prefix, and
/// the holders of responsibilities and powers carry one of them. So an
/// Obligation of an `EU:` actor is never a duty, and its Liberty never a right.
pub proof fn lemma_aggregate_government_labels<F: Fn(&str) -> Option<String>>(law: LawDrrp, sigs: Seq<ActorSignal>, f: F)
    requires
        aggregated(law, sigs, f),
    ensures
        forall|i: int| 0 <= i < law.duties@.len() ==> !"Gvt"@.is_prefix_of((#[trigger] law.duties@[i]).0@)
            && !"EU:"@.is_prefix_of(law.duties@[i].0@),
        forall|i: int| 0 <= i < law.rights@.len() ==> !"Gvt"@.is_prefix_of((#[trigger] law.rights@[i]).0@)
            && !"EU:"@.is_prefix_of(law.rights@[i].0@),
        forall|i: int| 0 <= i < law.responsibilities@.len() ==> "Gvt"@.is_prefix_of((#[trigger] law.responsibilities@[i]).0@)
            || "EU:"@.is_prefix_of(law.responsibilities@[i].0@),
        forall|i: int| 0 <= i < law.powers@.len() ==> "Gvt"@.is_prefix_of((#[trigger] law.powers@[i]).0@)
            || "EU:"@.is_prefix_of(law.powers@[i].0@),
{
    lemma_aggregate_counts(law, sigs, f);
}

} // verus!
