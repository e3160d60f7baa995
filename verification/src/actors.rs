//! Actor extraction: WHO a provision mentions, split into government actors
//! (Crown, authorities, agencies, ministers) and governed actors
//! (businesses, individuals, specialists, supply-chain actors).
//!
//! The actor dictionary is data: a list of actor definitions, each with a
//! label, a type and regular-expression fragments, compiled here into an
//! [`ActorDictionary`] whose patterns require a whitespace or punctuation
//! boundary on both sides.

use vstd::prelude::*;
use crate::applicability::{sorted_set, strings_view};
use crate::normal_form::lemma_sorted_set;
use crate::labelset::{LabelSet, strictly_sorted};
use crate::application::{first_occ, first_occ_exec};
use crate::rx::{find_first, replace_all, replace_all_spec, replace_first, replace_first_spec, spans_spec};
use crate::text::{
    from_chars, from_range, owned, str_eq, str_lowercase, starts_with_str, to_chars, to_lowercase, trim, trim_str,
};

verus! {

/// One actor match: the label, the keyword that matched (lower-cased,
/// trimmed of whitespace and ASCII punctuation), and the keyword's
/// character offset in the text padded with one space on each side.
#[derive(Debug, Clone, PartialEq, Eq)]
pub struct ActorMatch {
    pub label: String,
    pub keyword: String,
    pub offset: usize,
}

/// (label, keyword, offset)
pub type ActorMatchView = (Seq<char>, Seq<char>, int);

impl View for ActorMatch {
    type V = ActorMatchView;

    open spec fn view(&self) -> ActorMatchView {
        (self.label@, self.keyword@, self.offset as int)
    }
}

pub open spec fn matches_view(v: Vec<ActorMatch>) -> Seq<ActorMatchView> {
    v@.map_values(|m: ActorMatch| m@)
}

/// Governed and government actors found in a text.
#[derive(Debug, Clone, PartialEq, Eq)]
pub struct ExtractedActors {
    pub governed: Vec<ActorMatch>,
    pub government: Vec<ActorMatch>,
}

pub open spec fn labels_of(ms: Seq<ActorMatchView>) -> Seq<Seq<char>> {
    Seq::new(ms.len(), |i: int| ms[i].0)
}

/// The distinct labels of a match list, in character order.
pub(crate) fn distinct_labels(ms: &Vec<ActorMatch>) -> (r: Vec<String>)
    ensures
        strings_view(r) == sorted_set(labels_of(matches_view(*ms))),
        strings_view(r).to_set() == labels_of(matches_view(*ms)).to_set(),
{
    let ghost lv = labels_of(matches_view(*ms));
    let mut set = LabelSet::new();
    let mut i: usize = 0;
    proof {
        assert(set@.to_set() =~= lv.take(0).to_set());
    }
    while i < ms.len()
        invariant
            i <= ms.len(),
            lv == labels_of(matches_view(*ms)),
            set@.to_set() == lv.take(i as int).to_set(),
        decreases ms.len() - i,
    {
        set.insert(ms[i].label.as_str());
        proof {
            assert(lv.take(i + 1) =~= lv.take(i as int).push(ms@[i as int].label@));
            lv.take(i as int).lemma_push_to_set_commute(ms@[i as int].label@);
        }
        i += 1;
    }
    let items = set.items();
    proof {
        assert(lv.take(ms.len() as int) =~= lv);
        crate::applicability::lemma_sorted_set_is(set@, lv);
    }
    let mut out: Vec<String> = Vec::new();
    let mut k: usize = 0;
    while k < items.len()
        invariant
            k <= items.len(),
            out.len() == k,
            forall|j: int| 0 <= j < k ==> (#[trigger] out@[j])@ == items@[j]@,
        decreases items.len() - k,
    {
        out.push(owned(items[k].as_str()));
        k += 1;
    }
    proof {
        assert(strings_view(out) =~= strings_view(*items));
    }
    out
}

impl ExtractedActors {
    /// Governed actor labels, sorted, each once.
    pub fn governed_labels(&self) -> (r: Vec<String>)
        ensures
            strings_view(r) == sorted_set(labels_of(matches_view(self.governed))),
    {
        distinct_labels(&self.governed)
    }

    /// Government actor labels, sorted, each once.
    pub fn government_labels(&self) -> (r: Vec<String>)
        ensures
            strings_view(r) == sorted_set(labels_of(matches_view(self.government))),
    {
        distinct_labels(&self.government)
    }
}

// ---------------------------------------------------------------------------
// Blacklist

/// Phrases that look like actors but are not ("public interest", "agency worker").
pub open spec fn blacklist_spec() -> Seq<&'static str> {
    seq![
        r"local authority collected municipal waste",
        r"[Pp]ublic (?:nature|sewer|importance|functions?|interest|[Ss]ervices)",
        r"[Rr]epresentatives? of",
        r"(?i)agency workers?",
        r"(?i)temporary work agency",
    ]
}

fn blacklist() -> (r: Vec<&'static str>)
    ensures
        r@ == blacklist_spec(),
{
    vec![
        r"local authority collected municipal waste",
        r"[Pp]ublic (?:nature|sewer|importance|functions?|interest|[Ss]ervices)",
        r"[Rr]epresentatives? of",
        r"(?i)agency workers?",
        r"(?i)temporary work agency",
    ]
}

/// `text` with every blacklist phrase removed, pattern by pattern.
pub open spec fn blacklisted(pats: Seq<&'static str>, text: Seq<char>) -> Seq<char>
    decreases pats.len(),
{
    if pats.len() == 0 {
        text
    } else {
        replace_all_spec(pats.last()@, blacklisted(pats.drop_last(), text), ""@)
    }
}

fn apply_blacklist(text: &str) -> (r: String)
    ensures
        r@ == blacklisted(blacklist_spec(), text@),
{
    let pats = blacklist();
    let mut result = owned(text);
    let mut i: usize = 0;
    proof {
        assert(pats@.take(0) =~= seq![]);
    }
    while i < pats.len()
        invariant
            i <= pats.len(),
            pats@ == blacklist_spec(),
            result@ == blacklisted(pats@.take(i as int), text@),
        decreases pats.len() - i,
    {
        proof {
            assert(pats@.take(i + 1).drop_last() =~= pats@.take(i as int));
        }
        result = replace_all(pats[i], result.as_str(), "");
        i += 1;
    }
    proof {
        assert(pats@.take(pats.len() as int) =~= pats@);
    }
    result
}

// ---------------------------------------------------------------------------
// Dictionary

/// One actor definition of the dictionary.
#[derive(Debug, Clone)]
pub struct ActorDef {
    pub label: String,
    /// `government`, or another type for governed actors
    pub actor_type: String,
    pub regex_patterns: Vec<String>,
    pub triggers: Vec<String>,
    pub drrp_keywords: Vec<String>,
    /// Law families that gate the definition (empty: always on)
    pub families: Vec<String>,
    pub category: String,
}

/// The compiled dictionary: (label, full pattern) lists.
#[derive(Debug, Clone)]
pub struct ActorDictionary {
    /// Government actor patterns.
    pub government: Vec<(String, String)>,
    /// Governed actor patterns with no family gate.
    pub governed: Vec<(String, String)>,
    /// Family key and the governed patterns it switches on, in order of first mention.
    pub specialist: Vec<(String, Vec<(String, String)>)>,
    /// Keywords of government actors, each once, in order of first mention.
    pub government_keywords: Vec<String>,
    /// Every label, each once, in order of first mention.
    pub all_labels: Vec<String>,
}

/// A regular-expression fragment wrapped in the actor boundary: whitespace
/// or punctuation on each side.
pub open spec fn bounded(pat: Seq<char>) -> Seq<char> {
    r"(?:[\s[:punct:]])"@ + pat + r"(?:[\s[:punct:]])"@
}

pub type PatternsView = Seq<(Seq<char>, Seq<char>)>;

pub open spec fn patterns_view(v: Vec<(String, String)>) -> PatternsView {
    v@.map_values(|p: (String, String)| (p.0@, p.1@))
}

pub open spec fn bounded_all(label: Seq<char>, pats: Seq<Seq<char>>) -> PatternsView {
    Seq::new(pats.len(), |i: int| (label, bounded(pats[i])))
}

/// (label, type, patterns, keywords, families)
pub type DefView = (Seq<char>, Seq<char>, Seq<Seq<char>>, Seq<Seq<char>>, Seq<Seq<char>>);

impl View for ActorDef {
    type V = DefView;

    open spec fn view(&self) -> DefView {
        (self.label@, self.actor_type@, strings_view(self.regex_patterns), strings_view(self.drrp_keywords), strings_view(self.families))
    }
}

/// `s` with `x` appended unless already there.
pub open spec fn push_new(s: Seq<Seq<char>>, x: Seq<char>) -> Seq<Seq<char>> {
    if s.contains(x) { s } else { s.push(x) }
}

pub open spec fn push_all_new(s: Seq<Seq<char>>, xs: Seq<Seq<char>>) -> Seq<Seq<char>>
    decreases xs.len(),
{
    if xs.len() == 0 {
        s
    } else {
        push_new(push_all_new(s, xs.drop_last()), xs.last())
    }
}

/// Index of the first entry of the specialist table for `family`, or -1.
pub open spec fn family_index(sp: Seq<(Seq<char>, PatternsView)>, family: Seq<char>) -> int
    decreases sp.len(),
{
    if sp.len() == 0 {
        -1
    } else {
        let k = family_index(sp.drop_last(), family);
        if k >= 0 {
            k
        } else if sp.last().0 == family {
            sp.len() - 1
        } else {
            -1
        }
    }
}

/// The specialist table after adding `pats` under `family`: appended to the
/// family's entry, or a new entry at the end.
pub open spec fn add_specialist(
    sp: Seq<(Seq<char>, PatternsView)>,
    family: Seq<char>,
    pats: PatternsView,
) -> Seq<(Seq<char>, PatternsView)> {
    let k = family_index(sp, family);
    if k >= 0 {
        sp.update(k, (family, sp[k].1 + pats))
    } else {
        sp.push((family, pats))
    }
}

proof fn lemma_family_index_at(sp: Seq<(Seq<char>, PatternsView)>, family: Seq<char>, k: int)
    requires
        0 <= k < sp.len(),
        sp[k].0 == family,
        forall|j: int| 0 <= j < k ==> (#[trigger] sp[j]).0 != family,
    ensures
        family_index(sp, family) == k,
    decreases sp.len(),
{
    if k < sp.len() - 1 {
        lemma_family_index_at(sp.drop_last(), family, k);
    } else {
        lemma_family_index_none(sp.drop_last(), family);
    }
}

proof fn lemma_family_index_none(sp: Seq<(Seq<char>, PatternsView)>, family: Seq<char>)
    requires
        forall|j: int| 0 <= j < sp.len() ==> (#[trigger] sp[j]).0 != family,
    ensures
        family_index(sp, family) == -1,
    decreases sp.len(),
{
    if sp.len() > 0 {
        lemma_family_index_none(sp.drop_last(), family);
    }
}

pub open spec fn add_specialist_all(
    sp: Seq<(Seq<char>, PatternsView)>,
    families: Seq<Seq<char>>,
    pats: PatternsView,
) -> Seq<(Seq<char>, PatternsView)>
    decreases families.len(),
{
    if families.len() == 0 {
        sp
    } else {
        add_specialist(add_specialist_all(sp, families.drop_last(), pats), families.last(), pats)
    }
}

/// (government, governed, specialist, government keywords, all labels)
pub type DictView = (PatternsView, PatternsView, Seq<(Seq<char>, PatternsView)>, Seq<Seq<char>>, Seq<Seq<char>>);

pub open spec fn empty_dict() -> DictView {
    (seq![], seq![], seq![], seq![], seq![])
}

/// One definition added to the dictionary: its label joins the labels, a
/// government definition's keywords join the keywords, and its bounded
/// patterns go to the specialist table (with families), the government
/// list, or the governed list.
pub open spec fn dict_step(d: DictView, def: DefView) -> DictView {
    let (label, ty, pats, kws, fams) = def;
    let labels = push_new(d.4, label);
    let keywords = if ty == "government"@ { push_all_new(d.3, kws) } else { d.3 };
    let bp = bounded_all(label, pats);
    if pats.len() == 0 {
        (d.0, d.1, d.2, keywords, labels)
    } else if fams.len() > 0 {
        (d.0, d.1, add_specialist_all(d.2, fams, bp), keywords, labels)
    } else if ty == "government"@ {
        (d.0 + bp, d.1, d.2, keywords, labels)
    } else {
        (d.0, d.1 + bp, d.2, keywords, labels)
    }
}

pub open spec fn dict_spec(defs: Seq<DefView>) -> DictView
    decreases defs.len(),
{
    if defs.len() == 0 {
        empty_dict()
    } else {
        dict_step(dict_spec(defs.drop_last()), defs.last())
    }
}

pub open spec fn specialist_view(v: Vec<(String, Vec<(String, String)>)>) -> Seq<(Seq<char>, PatternsView)> {
    v@.map_values(|e: (String, Vec<(String, String)>)| (e.0@, patterns_view(e.1)))
}

impl View for ActorDictionary {
    type V = DictView;

    open spec fn view(&self) -> DictView {
        (
            patterns_view(self.government),
            patterns_view(self.governed),
            specialist_view(self.specialist),
            strings_view(self.government_keywords),
            strings_view(self.all_labels),
        )
    }
}


fn index_of_string(v: &Vec<String>, x: &str) -> (r: bool)
    ensures
        r == strings_view(*v).contains(x@),
{
    let ghost sv = strings_view(*v);
    let mut i: usize = 0;
    while i < v.len()
        invariant
            i <= v.len(),
            sv == strings_view(*v),
            forall|j: int| 0 <= j < i ==> sv[j] != x@,
        decreases v.len() - i,
    {
        if str_eq(v[i].as_str(), x) {
            proof {
                assert(sv[i as int] == x@);
            }
            return true;
        }
        i += 1;
    }
    false
}

fn push_new_exec(v: &mut Vec<String>, x: &str)
    ensures
        strings_view(*final(v)) == push_new(strings_view(*old(v)), x@),
{
    if !index_of_string(v, x) {
        let ghost before = strings_view(*v);
        v.push(owned(x));
        proof {
            assert(strings_view(*v) =~= before.push(x@));
        }
    }
}

fn cat3(a: &str, b: &str, c: &str) -> (r: String)
    ensures
        r@ == a@ + b@ + c@,
{
    let mut out = String::new();
    let av = to_chars(a);
    let bv = to_chars(b);
    let cv = to_chars(c);
    let mut i: usize = 0;
    while i < av.len()
        invariant
            i <= av.len(),
            out@ == av@.take(i as int),
        decreases av.len() - i,
    {
        crate::text::string_push_pub(&mut out, av[i]);
        i += 1;
        proof {
            assert(out@ =~= av@.take(i as int));
        }
    }
    let mut j: usize = 0;
    while j < bv.len()
        invariant
            j <= bv.len(),
            i == av.len(),
            out@ == av@ + bv@.take(j as int),
        decreases bv.len() - j,
    {
        crate::text::string_push_pub(&mut out, bv[j]);
        j += 1;
        proof {
            assert(av@.take(av.len() as int) =~= av@);
            assert(out@ =~= av@ + bv@.take(j as int));
        }
    }
    let mut k: usize = 0;
    while k < cv.len()
        invariant
            k <= cv.len(),
            out@ == av@ + bv@ + cv@.take(k as int),
        decreases cv.len() - k,
    {
        crate::text::string_push_pub(&mut out, cv[k]);
        k += 1;
        proof {
            assert(out@ =~= av@ + bv@ + cv@.take(k as int));
        }
    }
    proof {
        assert(av@.take(av.len() as int) =~= av@);
        assert(bv@.take(bv.len() as int) =~= bv@);
        assert(cv@.take(cv.len() as int) =~= cv@);
        assert(out@ =~= a@ + b@ + c@);
    }
    out
}

/// Each pattern of a definition, bounded, with the definition's label.
fn bounded_patterns(label: &str, pats: &Vec<String>) -> (r: Vec<(String, String)>)
    ensures
        patterns_view(r) == bounded_all(label@, strings_view(*pats)),
{
    let mut out: Vec<(String, String)> = Vec::new();
    let mut i: usize = 0;
    while i < pats.len()
        invariant
            i <= pats.len(),
            out.len() == i,
            forall|j: int| 0 <= j < i ==> (#[trigger] out@[j]).0@ == label@ && out@[j].1@ == bounded(pats@[j]@),
        decreases pats.len() - i,
    {
        let full = cat3(r"(?:[\s[:punct:]])", pats[i].as_str(), r"(?:[\s[:punct:]])");
        out.push((owned(label), full));
        i += 1;
    }
    proof {
        assert(patterns_view(out) =~= bounded_all(label@, strings_view(*pats)));
    }
    out
}

fn clone_patterns(v: &Vec<(String, String)>) -> (r: Vec<(String, String)>)
    ensures
        patterns_view(r) == patterns_view(*v),
{
    let mut out: Vec<(String, String)> = Vec::new();
    let mut i: usize = 0;
    while i < v.len()
        invariant
            i <= v.len(),
            out.len() == i,
            forall|j: int| 0 <= j < i ==> (#[trigger] out@[j]).0@ == v@[j].0@ && out@[j].1@ == v@[j].1@,
        decreases v.len() - i,
    {
        out.push((owned(v[i].0.as_str()), owned(v[i].1.as_str())));
        i += 1;
    }
    proof {
        assert(patterns_view(out) =~= patterns_view(*v));
    }
    out
}

/// `a` followed by a copy of `b`.
fn append_patterns(a: &mut Vec<(String, String)>, b: &Vec<(String, String)>)
    ensures
        patterns_view(*final(a)) == patterns_view(*old(a)) + patterns_view(*b),
{
    let mut c = clone_patterns(b);
    let ghost a0 = *a;
    let ghost c0 = c;
    a.append(&mut c);
    proof {
        assert(patterns_view(*a) =~= patterns_view(a0) + patterns_view(c0));
    }
}

fn add_specialist_exec(sp: &mut Vec<(String, Vec<(String, String)>)>, family: &str, pats: &Vec<(String, String)>)
    ensures
        specialist_view(*final(sp)) == add_specialist(specialist_view(*old(sp)), family@, patterns_view(*pats)),
{
    let ghost sv = specialist_view(*sp);
    let mut k: usize = 0;
    while k < sp.len()
        invariant
            k <= sp.len(),
            sv == specialist_view(*sp),
            sv == specialist_view(*old(sp)),
            forall|j: int| 0 <= j < k ==> (#[trigger] sv[j]).0 != family@,
        decreases sp.len() - k,
    {
        if str_eq(sp[k].0.as_str(), family) {
            proof {
                assert(sv[k as int].0 == family@);
                lemma_family_index_at(sv, family@, k as int);
            }
            let mut entry = sp.remove(k);
            let ghost e0 = patterns_view(entry.1);
            append_patterns(&mut entry.1, pats);
            let ghost newe = (family@, patterns_view(entry.1));
            sp.insert(k, (owned(family), entry.1));
            proof {
                assert(specialist_view(*sp) =~= sv.update(k as int, (family@, sv[k as int].1 + patterns_view(*pats))));
            }
            return;
        }
        k += 1;
    }
    proof {
        lemma_family_index_none(sv, family@);
    }
    let ghost before = specialist_view(*sp);
    sp.push((owned(family), clone_patterns(pats)));
    proof {
        assert(specialist_view(*sp) =~= before.push((family@, patterns_view(*pats))));
    }
}

pub open spec fn defs_view(defs: Seq<ActorDef>) -> Seq<DefView> {
    defs.map_values(|d: ActorDef| d@)
}

/// Compile actor definitions into a dictionary.
pub fn compile_dictionary(defs: &[ActorDef]) -> (r: ActorDictionary)
    ensures
        r@ == dict_spec(defs_view(defs@)),
{
    let ghost dv = defs_view(defs@);
    let mut government: Vec<(String, String)> = Vec::new();
    let mut governed: Vec<(String, String)> = Vec::new();
    let mut specialist: Vec<(String, Vec<(String, String)>)> = Vec::new();
    let mut government_keywords: Vec<String> = Vec::new();
    let mut all_labels: Vec<String> = Vec::new();
    let mut i: usize = 0;
    proof {
        assert(dv.take(0) =~= seq![]);
        assert(patterns_view(government) =~= seq![]);
        assert(patterns_view(governed) =~= seq![]);
        assert(specialist_view(specialist) =~= seq![]);
        assert(strings_view(government_keywords) =~= seq![]);
        assert(strings_view(all_labels) =~= seq![]);
    }
    while i < defs.len()
        invariant
            i <= defs.len(),
            dv == defs_view(defs@),
            (patterns_view(government), patterns_view(governed), specialist_view(specialist),
                strings_view(government_keywords), strings_view(all_labels)) == dict_spec(dv.take(i as int)),
        decreases defs.len() - i,
    {
        let def = &defs[i];
        proof {
            assert(dv.take(i + 1).drop_last() =~= dv.take(i as int));
            assert(dv.take(i + 1).last() == def@);
        }
        push_new_exec(&mut all_labels, def.label.as_str());
        let is_gov = str_eq(def.actor_type.as_str(), "government");
        if is_gov {
            let ghost k0 = strings_view(government_keywords);
            let ghost kv = strings_view(def.drrp_keywords);
            let mut k: usize = 0;
            proof {
                assert(kv.take(0) =~= seq![]);
            }
            while k < def.drrp_keywords.len()
                invariant
                    k <= def.drrp_keywords.len(),
                    kv == strings_view(def.drrp_keywords),
                    strings_view(government_keywords) == push_all_new(k0, kv.take(k as int)),
                decreases def.drrp_keywords.len() - k,
            {
                proof {
                    assert(kv.take(k + 1).drop_last() =~= kv.take(k as int));
                }
                push_new_exec(&mut government_keywords, def.drrp_keywords[k].as_str());
                k += 1;
            }
            proof {
                assert(kv.take(def.drrp_keywords.len() as int) =~= kv);
            }
        }
        if def.regex_patterns.len() > 0 {
            let bp = bounded_patterns(def.label.as_str(), &def.regex_patterns);
            if def.families.len() > 0 {
                let ghost s0 = specialist_view(specialist);
                let ghost fv = strings_view(def.families);
                let mut f: usize = 0;
                proof {
                    assert(fv.take(0) =~= seq![]);
                }
                while f < def.families.len()
                    invariant
                        f <= def.families.len(),
                        fv == strings_view(def.families),
                        specialist_view(specialist) == add_specialist_all(s0, fv.take(f as int), patterns_view(bp)),
                    decreases def.families.len() - f,
                {
                    proof {
                        assert(fv.take(f + 1).drop_last() =~= fv.take(f as int));
                    }
                    add_specialist_exec(&mut specialist, def.families[f].as_str(), &bp);
                    f += 1;
                }
                proof {
                    assert(fv.take(def.families.len() as int) =~= fv);
                }
            } else if is_gov {
                append_patterns(&mut government, &bp);
            } else {
                append_patterns(&mut governed, &bp);
            }
        }
        i += 1;
    }
    proof {
        assert(dv.take(defs.len() as int) =~= dv);
    }
    ActorDictionary { government, governed, specialist, government_keywords, all_labels }
}

/// Every label of the dictionary, each once.
pub fn all_actor_labels(dict: &ActorDictionary) -> (r: Vec<String>)
    ensures
        strings_view(r) == dict@.4,
{
    crate::applicability::clone_strings(&dict.all_labels)
}

/// Lower-cased government keywords (for [`crate::duty_patterns::has_government_actor`]).
pub fn government_keywords(dict: &ActorDictionary) -> (r: Vec<String>)
    ensures
        strings_view(r) == dict@.3,
{
    crate::applicability::clone_strings(&dict.government_keywords)
}


// ---------------------------------------------------------------------------
// Matching

pub open spec fn is_ascii_punct(c: char) -> bool {
    ('!' <= c && c <= '/') || (':' <= c && c <= '@') || ('[' <= c && c <= '`') || ('{' <= c && c <= '~')
}

pub open spec fn trim_punct_start(s: Seq<char>) -> Seq<char>
    decreases s.len(),
{
    if s.len() > 0 && is_ascii_punct(s[0]) { trim_punct_start(s.drop_first()) } else { s }
}

pub open spec fn trim_punct_end(s: Seq<char>) -> Seq<char>
    decreases s.len(),
{
    if s.len() > 0 && is_ascii_punct(s.last()) { trim_punct_end(s.drop_last()) } else { s }
}

/// `s` without ASCII punctuation at either end.
pub open spec fn trim_punct(s: Seq<char>) -> Seq<char> {
    trim_punct_end(trim_punct_start(s))
}

fn trim_punct_exec(s: &str) -> (r: String)
    ensures
        r@ == trim_punct(s@),
{
    let v = to_chars(s);
    let mut a: usize = 0;
    proof {
        assert(v@.subrange(0, v@.len() as int) =~= v@);
    }
    while a < v.len() && is_ascii_punct_exec(v[a])
        invariant
            a <= v.len(),
            trim_punct_start(v@) == trim_punct_start(v@.subrange(a as int, v@.len() as int)),
        decreases v.len() - a,
    {
        proof {
            assert(v@.subrange(a as int, v@.len() as int).drop_first() =~= v@.subrange(a + 1, v@.len() as int));
        }
        a += 1;
    }
    let mut b: usize = v.len();
    proof {
        assert(trim_punct_start(v@) == v@.subrange(a as int, v@.len() as int));
    }
    while b > a && is_ascii_punct_exec(v[b - 1])
        invariant
            a <= b <= v.len(),
            trim_punct_start(v@) == v@.subrange(a as int, v@.len() as int),
            trim_punct_end(v@.subrange(a as int, v@.len() as int)) == trim_punct_end(v@.subrange(a as int, b as int)),
        decreases b - a,
    {
        proof {
            assert(v@.subrange(a as int, b as int).drop_last() =~= v@.subrange(a as int, b - 1));
        }
        b -= 1;
    }
    from_range(&v, a, b)
}

fn is_ascii_punct_exec(c: char) -> (r: bool)
    ensures
        r == is_ascii_punct(c),
{
    ('!' <= c && c <= '/') || (':' <= c && c <= '@') || ('[' <= c && c <= '`') || ('{' <= c && c <= '~')
}

/// (remaining text, matches so far)
pub type RunState = (Seq<char>, Seq<ActorMatchView>);

/// One pattern over the remaining text: its first match gives an actor
/// match (offset: where the keyword first occurs in the padded text, else
/// where the match starts) and is removed from the remaining text.
pub open spec fn pattern_step(st: RunState, padded: Seq<char>, p: (Seq<char>, Seq<char>)) -> RunState {
    let rem = st.0;
    let sp = spans_spec(p.1, rem);
    if sp.len() == 0 {
        st
    } else {
        let kw = trim_punct(trim(rem.subrange(sp[0].0, sp[0].1)));
        let at = first_occ(padded, kw, 0);
        let off = if at >= 0 { at } else { sp[0].0 };
        (replace_first_spec(p.1, rem, ""@), st.1.push((p.0, str_lowercase(kw), off)))
    }
}

pub open spec fn patterns_fold(pats: PatternsView, padded: Seq<char>) -> RunState
    decreases pats.len(),
{
    if pats.len() == 0 {
        (padded, seq![])
    } else {
        pattern_step(patterns_fold(pats.drop_last(), padded), padded, pats.last())
    }
}

/// Each pattern that matches removes its first match from the text that the
/// later patterns search: the remaining text becomes the part before that
/// match followed by the part after it, so no later pattern can match inside
/// the words this one matched. The pattern adds one actor, with its label and
/// the matched words (trimmed, lower-cased) as keyword. A pattern that does not
/// match changes nothing.
pub proof fn lemma_pattern_removes_match(pats: PatternsView, padded: Seq<char>, p: (Seq<char>, Seq<char>))
    ensures
        ({
            let st = patterns_fold(pats, padded);
            let sp = spans_spec(p.1, st.0);
            let nx = patterns_fold(pats.push(p), padded);
            &&& sp.len() == 0 ==> nx == st
            &&& sp.len() > 0 ==> {
                &&& nx.0 == st.0.take(sp[0].0) + st.0.skip(sp[0].1)
                &&& nx.1.len() == st.1.len() + 1
                &&& nx.1.take(st.1.len() as int) == st.1
                &&& nx.1.last().0 == p.0
                &&& nx.1.last().1 == str_lowercase(trim_punct(trim(st.0.subrange(sp[0].0, sp[0].1))))
            }
        }),
{
    reveal_strlit("");
    assert(pats.push(p).drop_last() == pats);
    let st = patterns_fold(pats, padded);
    let sp = spans_spec(p.1, st.0);
    if sp.len() > 0 {
        assert(st.0.subrange(0, sp[0].0) + ""@ + st.0.subrange(sp[0].1, st.0.len() as int)
            =~= st.0.take(sp[0].0) + st.0.skip(sp[0].1));
        let nx = patterns_fold(pats.push(p), padded);
        assert(nx.1.take(st.1.len() as int) =~= st.1);
    }
}

/// The first match with label `l`.
pub open spec fn first_with_label(ms: Seq<ActorMatchView>, l: Seq<char>) -> ActorMatchView
    decreases ms.len(),
{
    if ms.len() == 0 {
        (l, seq![], 0)
    } else if ms[0].0 == l {
        ms[0]
    } else {
        first_with_label(ms.drop_first(), l)
    }
}

/// One match per label, labels in character order, the first of each label
/// (a stable sort by label, then removal of repeated labels).
pub open spec fn group_first(ms: Seq<ActorMatchView>) -> Seq<ActorMatchView> {
    let ls = sorted_set(labels_of(ms));
    Seq::new(ls.len(), |i: int| first_with_label(ms, ls[i]))
}

/// The matches of `pats` in `text` padded with a space on each side.
pub open spec fn run_spec(text: Seq<char>, pats: PatternsView) -> Seq<ActorMatchView> {
    group_first(patterns_fold(pats, " "@ + text + " "@).1)
}

pub(crate) fn copy_match(m: &ActorMatch) -> (r: ActorMatch)
    ensures
        r@ == m@,
{
    ActorMatch { label: owned(m.label.as_str()), keyword: owned(m.keyword.as_str()), offset: m.offset }
}

proof fn lemma_first_with_label_skip(ms: Seq<ActorMatchView>, l: Seq<char>, k: int)
    requires
        0 <= k <= ms.len(),
        forall|j: int| 0 <= j < k ==> (#[trigger] ms[j]).0 != l,
    ensures
        first_with_label(ms, l) == first_with_label(ms.skip(k), l),
    decreases k,
{
    if k > 0 {
        assert(ms.skip(1).skip(k - 1) =~= ms.skip(k));
        lemma_first_with_label_skip(ms.drop_first(), l, k - 1);
        assert(ms.drop_first() =~= ms.skip(1));
    } else {
        assert(ms.skip(0) =~= ms);
    }
}

/// One match per label, in label order, the first of each.
fn group_first_exec(ms: &Vec<ActorMatch>) -> (r: Vec<ActorMatch>)
    ensures
        matches_view(r) == group_first(matches_view(*ms)),
{
    let ghost mv = matches_view(*ms);
    let labels = distinct_labels(ms);
    let ghost ls = sorted_set(labels_of(mv));
    let mut out: Vec<ActorMatch> = Vec::new();
    let mut i: usize = 0;
    while i < labels.len()
        invariant
            i <= labels.len(),
            mv == matches_view(*ms),
            strings_view(labels) == ls,
            ls == sorted_set(labels_of(mv)),
            strings_view(labels).to_set() == labels_of(mv).to_set(),
            out.len() == i,
            forall|j: int| 0 <= j < i ==> (#[trigger] out@[j])@ == first_with_label(mv, ls[j]),
        decreases labels.len() - i,
    {
        let l = labels[i].as_str();
        proof {
            assert(l@ == ls[i as int]);
        }
        let mut k: usize = 0;
        while k < ms.len() && !str_eq(ms[k].label.as_str(), l)
            invariant
                k <= ms.len(),
                mv == matches_view(*ms),
                forall|j: int| 0 <= j < k ==> (#[trigger] mv[j]).0 != l@,
            decreases ms.len() - k,
        {
            k += 1;
        }
        proof {
            lemma_first_with_label_skip(mv, l@, k as int);
        }
        if k < ms.len() {
            proof {
                assert(mv.skip(k as int)[0] == ms@[k as int]@);
            }
            out.push(copy_match(&ms[k]));
        } else {
            // every label of the list occurs in it
            proof {
                let lv = labels_of(mv);
                let c = strings_view(labels);
                assert(c.to_set() == lv.to_set());
                assert(c.to_set().contains(c[i as int]));
                assert(lv.to_set().contains(l@));
                let j = choose|j: int| 0 <= j < lv.len() && lv[j] == l@;
                assert(mv[j].0 == l@);
                assert(false);
            }
            out.push(ActorMatch { label: owned(l), keyword: String::new(), offset: 0 });
        }
        i += 1;
    }
    proof {
        assert(matches_view(out) =~= group_first(mv));
    }
    out
}

/// Run the patterns over `text` (padded with a space on each side).
fn run_patterns(text: &str, patterns: &Vec<(String, String)>) -> (r: Vec<ActorMatch>)
    ensures
        matches_view(r) == run_spec(text@, patterns_view(*patterns)),
{
    let padded = cat3(" ", text, " ");
    let pv = to_chars(padded.as_str());
    let ghost pats = patterns_view(*patterns);
    let mut remaining = owned(padded.as_str());
    let mut found: Vec<ActorMatch> = Vec::new();
    let mut i: usize = 0;
    proof {
        assert(pats.take(0) =~= seq![]);
        assert(matches_view(found) =~= seq![]);
    }
    while i < patterns.len()
        invariant
            i <= patterns.len(),
            pats == patterns_view(*patterns),
            pv@ == padded@,
            (remaining@, matches_view(found)) == patterns_fold(pats.take(i as int), padded@),
        decreases patterns.len() - i,
    {
        proof {
            assert(pats.take(i + 1).drop_last() =~= pats.take(i as int));
            assert(pats.take(i + 1).last() == (patterns@[i as int].0@, patterns@[i as int].1@));
        }
        let pat = patterns[i].1.as_str();
        match find_first(pat, remaining.as_str()) {
            Some((a, b)) => {
                let rv = to_chars(remaining.as_str());
                let raw = from_range(&rv, a, b);
                let trimmed = trim_str(raw.as_str());
                let kw = trim_punct_exec(trimmed.as_str());
                let kv = to_chars(kw.as_str());
                let offset = match first_occ_exec(&pv, &kv) {
                    Some(o) => o,
                    None => a,
                };
                let ghost before = matches_view(found);
                found.push(ActorMatch { label: owned(patterns[i].0.as_str()), keyword: to_lowercase(kw.as_str()), offset });
                proof {
                    assert(matches_view(found) =~= before.push((patterns@[i as int].0@, str_lowercase(kw@), offset as int)));
                }
                remaining = replace_first(pat, remaining.as_str(), "");
            },
            None => {},
        }
        i += 1;
    }
    proof {
        assert(pats.take(patterns.len() as int) =~= pats);
    }
    group_first_exec(&found)
}

/// Blacklisted text, then the dictionary's governed and government patterns.
pub fn extract_actors(dict: &ActorDictionary, text: &str) -> (r: ExtractedActors)
    ensures
        matches_view(r.governed) == run_spec(blacklisted(blacklist_spec(), text@), dict@.1),
        matches_view(r.government) == run_spec(blacklisted(blacklist_spec(), text@), dict@.0),
        strictly_sorted(labels_of(matches_view(r.governed))),
        strictly_sorted(labels_of(matches_view(r.government))),
{
    let cleaned = apply_blacklist(text);
    let r = ExtractedActors {
        governed: run_patterns(cleaned.as_str(), &dict.governed),
        government: run_patterns(cleaned.as_str(), &dict.government),
    };
    proof {
        lemma_group_first_labels(patterns_fold(dict@.1, " "@ + blacklisted(blacklist_spec(), text@) + " "@).1);
        lemma_group_first_labels(patterns_fold(dict@.0, " "@ + blacklisted(blacklist_spec(), text@) + " "@).1);
    }
    r
}

/// Governed matches with the specialist patterns of every family key that
/// `family` starts with, one per label.
pub open spec fn governed_for_family(
    text: Seq<char>,
    core: PatternsView,
    sp: Seq<(Seq<char>, PatternsView)>,
    family: Seq<char>,
) -> Seq<ActorMatchView> {
    group_first(run_spec(text, core) + specialist_matches(text, sp, family))
}

pub open spec fn specialist_matches(text: Seq<char>, sp: Seq<(Seq<char>, PatternsView)>, family: Seq<char>) -> Seq<ActorMatchView>
    decreases sp.len(),
{
    if sp.len() == 0 {
        seq![]
    } else if sp.last().0.is_prefix_of(family) {
        specialist_matches(text, sp.drop_last(), family) + run_spec(text, sp.last().1)
    } else {
        specialist_matches(text, sp.drop_last(), family)
    }
}

/// Like [`extract_actors`], plus the specialist governed patterns of the
/// law's family.
pub fn extract_actors_for_family(dict: &ActorDictionary, text: &str, family: Option<&str>) -> (r: ExtractedActors)
    ensures
        matches_view(r.government) == run_spec(blacklisted(blacklist_spec(), text@), dict@.0),
        match family {
            Some(f) => matches_view(r.governed) == governed_for_family(blacklisted(blacklist_spec(), text@), dict@.1, dict@.2, f@),
            None => matches_view(r.governed) == run_spec(blacklisted(blacklist_spec(), text@), dict@.1),
        },
{
    let cleaned = apply_blacklist(text);
    let c = cleaned.as_str();
    let mut governed = run_patterns(c, &dict.governed);
    match family {
        Some(fam) => {
            let ghost core = matches_view(governed);
            let ghost spv = specialist_view(dict.specialist);
            let mut extra: Vec<ActorMatch> = Vec::new();
            let mut k: usize = 0;
            proof {
                assert(spv.take(0) =~= seq![]);
                assert(matches_view(extra) =~= seq![]);
            }
            while k < dict.specialist.len()
                invariant
                    k <= dict.specialist.len(),
                    spv == specialist_view(dict.specialist),
                    cleaned@ == c@,
                    matches_view(extra) == specialist_matches(c@, spv.take(k as int), fam@),
                decreases dict.specialist.len() - k,
            {
                proof {
                    assert(spv.take(k + 1).drop_last() =~= spv.take(k as int));
                    assert(spv.take(k + 1).last() == (dict.specialist@[k as int].0@, patterns_view(dict.specialist@[k as int].1)));
                }
                let key = dict.specialist[k].0.as_str();
                if starts_with_str(fam, key) || str_eq(fam, key) {
                    let mut more = run_patterns(c, &dict.specialist[k].1);
                    let ghost e0 = extra;
                    let ghost m0 = more;
                    extra.append(&mut more);
                    proof {
                        assert(matches_view(extra) =~= matches_view(e0) + matches_view(m0));
                    }
                }
                k += 1;
            }
            proof {
                assert(spv.take(dict.specialist.len() as int) =~= spv);
            }
            let ghost g0 = governed;
            let ghost x0 = extra;
            governed.append(&mut extra);
            proof {
                assert(matches_view(governed) =~= matches_view(g0) + matches_view(x0));
            }
            governed = group_first_exec(&governed);
        },
        None => {},
    }
    ExtractedActors { governed, government: run_patterns(c, &dict.government) }
}

/// Governed actors only.
pub fn extract_governed(dict: &ActorDictionary, text: &str) -> (r: Vec<ActorMatch>)
    ensures
        matches_view(r) == run_spec(blacklisted(blacklist_spec(), text@), dict@.1),
{
    let cleaned = apply_blacklist(text);
    run_patterns(cleaned.as_str(), &dict.governed)
}

/// Government actors only.
pub fn extract_government(dict: &ActorDictionary, text: &str) -> (r: Vec<ActorMatch>)
    ensures
        matches_view(r) == run_spec(blacklisted(blacklist_spec(), text@), dict@.0),
{
    let cleaned = apply_blacklist(text);
    run_patterns(cleaned.as_str(), &dict.government)
}


proof fn lemma_first_with_label_label(ms: Seq<ActorMatchView>, l: Seq<char>)
    ensures
        first_with_label(ms, l).0 == l,
    decreases ms.len(),
{
    if ms.len() > 0 && ms[0].0 != l {
        lemma_first_with_label_label(ms.drop_first(), l);
    }
}

/// The labels of grouped matches (what every actor extraction returns) are
/// the distinct labels found, in strictly increasing character order.
pub proof fn lemma_group_first_labels(ms: Seq<ActorMatchView>)
    ensures
        labels_of(group_first(ms)) == sorted_set(labels_of(ms)),
        strictly_sorted(labels_of(group_first(ms))),
        labels_of(group_first(ms)).to_set() == labels_of(ms).to_set(),
{
    lemma_sorted_set(labels_of(ms));
    let ls = sorted_set(labels_of(ms));
    assert forall|i: int| 0 <= i < ls.len() implies #[trigger] labels_of(group_first(ms))[i] == ls[i] by {
        lemma_first_with_label_label(ms, ls[i]);
    }
    assert(labels_of(group_first(ms)) =~= ls);
}

/// Family extraction runs the core governed patterns and only adds the
/// specialists': every governed label found without a family is found with
/// one.
pub proof fn lemma_family_keeps_core_labels(
    text: Seq<char>,
    core: PatternsView,
    sp: Seq<(Seq<char>, PatternsView)>,
    family: Seq<char>,
    l: Seq<char>,
)
    requires
        labels_of(run_spec(text, core)).contains(l),
    ensures
        labels_of(governed_for_family(text, core, sp, family)).contains(l),
{
    let run = run_spec(text, core);
    let all = run + specialist_matches(text, sp, family);
    let i = choose|i: int| 0 <= i < labels_of(run).len() && labels_of(run)[i] == l;
    assert(labels_of(all)[i] == l);
    assert(labels_of(all).to_set().contains(l));
    lemma_sorted_set(labels_of(all));
    assert(sorted_set(labels_of(all)).to_set().contains(l));
    lemma_group_first_labels(all);
}

} // verus!
