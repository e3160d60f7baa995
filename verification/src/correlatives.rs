//! Correlative actor inference (Hohfeldian correlatives): when a section has
//! actor A in a given position, infer actor B in the correlative position.
//!
//! Sections are given as a list of (section id, actors); the inferences come
//! out section by section, rule by rule.

use vstd::prelude::*;
use crate::signals::opt_str;
use crate::text::{owned, str_eq};

verus! {

/// A correlative inference rule.
#[derive(Debug, Clone)]
pub struct CorrelativeRule {
    pub trigger_actor: String,
    pub trigger_position: String,
    pub trigger_drrp: Option<String>,
    pub inferred_actor: String,
    pub inferred_category: String,
    pub inferred_position: String,
    pub inferred_drrp: Option<String>,
}

/// (trigger actor, trigger position, trigger DRRP, inferred actor, inferred
/// category, inferred position, inferred DRRP)
pub type RuleView = (
    Seq<char>,
    Seq<char>,
    Option<Seq<char>>,
    Seq<char>,
    Seq<char>,
    Seq<char>,
    Option<Seq<char>>,
);

impl View for CorrelativeRule {
    type V = RuleView;

    open spec fn view(&self) -> RuleView {
        (
            self.trigger_actor@,
            self.trigger_position@,
            opt_str(self.trigger_drrp),
            self.inferred_actor@,
            self.inferred_category@,
            self.inferred_position@,
            opt_str(self.inferred_drrp),
        )
    }
}

/// An inferred actor.
#[derive(Debug, Clone)]
pub struct InferredActor {
    pub section_id: String,
    pub actor_label: String,
    pub actor_category: String,
    pub drrp: Option<String>,
    pub position: String,
}

/// (section id, label, category, DRRP, position)
pub type InferredView = (Seq<char>, Seq<char>, Seq<char>, Option<Seq<char>>, Seq<char>);

impl View for InferredActor {
    type V = InferredView;

    open spec fn view(&self) -> InferredView {
        (self.section_id@, self.actor_label@, self.actor_category@, opt_str(self.drrp), self.position@)
    }
}

/// An actor of a section: (label, category, DRRP, position).
pub type SectionActor = (String, String, Option<String>, Option<String>);

pub type ActorView = (Seq<char>, Seq<char>, Option<Seq<char>>, Option<Seq<char>>);

pub open spec fn actor_view(a: SectionActor) -> ActorView {
    (a.0@, a.1@, opt_str(a.2), opt_str(a.3))
}

pub open spec fn section_view(s: (String, Vec<SectionActor>)) -> (Seq<char>, Seq<ActorView>) {
    (s.0@, s.1@.map_values(|a: SectionActor| actor_view(a)))
}

/// The rule fires on an actor: its label and position, and the rule's DRRP
/// when it names one.
pub open spec fn fires_on(rule: RuleView, a: ActorView) -> bool {
    a.0 == rule.0 && a.3 == Some(rule.1) && (rule.2 is None || a.2 == rule.2)
}

/// Index of the first actor labelled `label`, or -1.
pub open spec fn first_labelled(actors: Seq<ActorView>, label: Seq<char>, n: int) -> int
    decreases n,
{
    if n <= 0 {
        -1
    } else {
        let k = first_labelled(actors, label, n - 1);
        if k >= 0 { k } else if actors[n - 1].0 == label { n - 1 } else { -1 }
    }
}

/// The DRRP of an inference: the rule's, else the first trigger-labelled
/// actor's.
pub open spec fn inferred_drrp(rule: RuleView, actors: Seq<ActorView>) -> Option<Seq<char>> {
    match rule.6 {
        Some(d) => Some(d),
        None => {
            let k = first_labelled(actors, rule.0, actors.len() as int);
            if k >= 0 { actors[k].2 } else { None }
        },
    }
}

/// What one rule infers in a section: the inferred actor when some actor
/// fires the rule and the inferred label is not already present.
pub open spec fn rule_infers(id: Seq<char>, actors: Seq<ActorView>, rule: RuleView) -> Seq<InferredView> {
    let fired = exists|i: int| 0 <= i < actors.len() && fires_on(rule, #[trigger] actors[i]);
    let present = exists|i: int| 0 <= i < actors.len() && (#[trigger] actors[i]).0 == rule.3;
    if fired && !present {
        seq![(id, rule.3, rule.4, inferred_drrp(rule, actors), rule.5)]
    } else {
        seq![]
    }
}

pub open spec fn section_infers(id: Seq<char>, actors: Seq<ActorView>, rules: Seq<RuleView>) -> Seq<InferredView>
    decreases rules.len(),
{
    if rules.len() == 0 {
        seq![]
    } else {
        section_infers(id, actors, rules.drop_last()) + rule_infers(id, actors, rules.last())
    }
}

/// Every inference, section by section, rule by rule.
pub open spec fn apply_spec(rules: Seq<RuleView>, sections: Seq<(Seq<char>, Seq<ActorView>)>) -> Seq<InferredView>
    decreases sections.len(),
{
    if sections.len() == 0 {
        seq![]
    } else {
        apply_spec(rules, sections.drop_last()) + section_infers(sections.last().0, sections.last().1, rules)
    }
}

/// An inference `x` is justified by a section and a rule: the section has
/// `x`'s id, some actor of the section fires the rule, the rule infers `x`'s
/// label, category and position, and no actor of the section has that label.
pub open spec fn justified(x: InferredView, section: (Seq<char>, Seq<ActorView>), rule: RuleView) -> bool {
    &&& section.0 == x.0
    &&& exists|i: int| 0 <= i < section.1.len() && fires_on(rule, #[trigger] section.1[i])
    &&& x.1 == rule.3 && x.2 == rule.4 && x.4 == rule.5
    &&& forall|i: int| 0 <= i < section.1.len() ==> (#[trigger] section.1[i]).0 != x.1
}

/// Some rule justifies `x` in the section.
pub open spec fn justified_in_section(x: InferredView, section: (Seq<char>, Seq<ActorView>), rules: Seq<RuleView>) -> bool {
    exists|r: int| 0 <= r < rules.len() && #[trigger] justified(x, section, rules[r])
}

/// Some section and rule justify `x`.
pub open spec fn justified_by(x: InferredView, rules: Seq<RuleView>, sections: Seq<(Seq<char>, Seq<ActorView>)>) -> bool {
    exists|j: int| 0 <= j < sections.len() && #[trigger] justified_in_section(x, sections[j], rules)
}

proof fn lemma_section_justified(id: Seq<char>, actors: Seq<ActorView>, rules: Seq<RuleView>)
    ensures
        forall|k: int| 0 <= k < section_infers(id, actors, rules).len()
            ==> justified_in_section(#[trigger] section_infers(id, actors, rules)[k], (id, actors), rules),
    decreases rules.len(),
{
    if rules.len() > 0 {
        let init = rules.drop_last();
        lemma_section_justified(id, actors, init);
        let a = section_infers(id, actors, init);
        let b = rule_infers(id, actors, rules.last());
        let out = section_infers(id, actors, rules);
        assert(out == a + b);
        assert forall|k: int| 0 <= k < out.len() implies justified_in_section(#[trigger] out[k], (id, actors), rules) by {
            if k < a.len() {
                assert(out[k] == a[k]);
                assert(justified_in_section(a[k], (id, actors), init));
                let r = choose|r: int| 0 <= r < init.len() && #[trigger] justified(a[k], (id, actors), init[r]);
                assert(init[r] == rules[r]);
                assert(justified(out[k], (id, actors), rules[r]));
            } else {
                assert(out[k] == b[k - a.len()]);
                let rl = rules[rules.len() - 1];
                assert(rules.last() == rl);
                assert(b.len() > 0);
                assert(b == seq![(id, rl.3, rl.4, inferred_drrp(rl, actors), rl.5)]);
                assert(exists|i: int| 0 <= i < actors.len() && fires_on(rl, #[trigger] actors[i]));
                assert(!(exists|i: int| 0 <= i < actors.len() && (#[trigger] actors[i]).0 == rl.3));
                let sec = (id, actors);
                assert(sec.1 == actors);
                assert forall|i: int| 0 <= i < sec.1.len() implies (#[trigger] sec.1[i]).0 != out[k].1 by {
                    assert(sec.1[i] == actors[i]);
                }
                let w = choose|i: int| 0 <= i < actors.len() && fires_on(rl, #[trigger] actors[i]);
                assert(fires_on(rl, sec.1[w]));
                assert(justified(out[k], sec, rl));
            }
        }
    }
}

/// Every inference stems from a rule that fired in its section, and the
/// inferred actor was not already in that section (inferences never trigger
/// further inferences: only the section's own actors are consulted).
pub proof fn lemma_inferences_justified(rules: Seq<RuleView>, sections: Seq<(Seq<char>, Seq<ActorView>)>)
    ensures
        forall|k: int| 0 <= k < apply_spec(rules, sections).len()
            ==> justified_by(#[trigger] apply_spec(rules, sections)[k], rules, sections),
    decreases sections.len(),
{
    if sections.len() > 0 {
        let init = sections.drop_last();
        lemma_inferences_justified(rules, init);
        let last = sections[sections.len() - 1];
        lemma_section_justified(last.0, last.1, rules);
        let a = apply_spec(rules, init);
        let b = section_infers(last.0, last.1, rules);
        let out = apply_spec(rules, sections);
        assert(out == a + b);
        assert forall|k: int| 0 <= k < out.len() implies justified_by(#[trigger] out[k], rules, sections) by {
            if k < a.len() {
                assert(out[k] == a[k]);
                assert(justified_by(a[k], rules, init));
                let j = choose|j: int| 0 <= j < init.len() && #[trigger] justified_in_section(a[k], init[j], rules);
                assert(init[j] == sections[j]);
                assert(justified_in_section(out[k], sections[j], rules));
            } else {
                assert(out[k] == b[k - a.len()]);
                assert(justified_in_section(b[k - a.len()], (last.0, last.1), rules));
                assert((last.0, last.1) == sections[sections.len() - 1]);
                assert(justified_in_section(out[k], sections[sections.len() - 1], rules));
            }
        }
    }
}

/// The rule fires in the section and its inferred actor is absent there.
pub open spec fn fires_new(actors: Seq<ActorView>, rule: RuleView) -> bool {
    &&& exists|i: int| 0 <= i < actors.len() && fires_on(rule, #[trigger] actors[i])
    &&& !(exists|i: int| 0 <= i < actors.len() && (#[trigger] actors[i]).0 == rule.3)
}

/// What a rule that fires in a section infers there.
pub open spec fn entry_of(id: Seq<char>, actors: Seq<ActorView>, rule: RuleView) -> InferredView {
    (id, rule.3, rule.4, inferred_drrp(rule, actors), rule.5)
}

proof fn lemma_section_complete(id: Seq<char>, actors: Seq<ActorView>, rules: Seq<RuleView>, r: int)
    requires
        0 <= r < rules.len(),
        fires_new(actors, rules[r]),
    ensures
        section_infers(id, actors, rules).contains(entry_of(id, actors, rules[r])),
    decreases rules.len(),
{
    let init = rules.drop_last();
    let a = section_infers(id, actors, init);
    let b = rule_infers(id, actors, rules.last());
    assert(section_infers(id, actors, rules) == a + b);
    if r < init.len() {
        assert(init[r] == rules[r]);
        lemma_section_complete(id, actors, init, r);
        let k = choose|k: int| 0 <= k < a.len() && a[k] == entry_of(id, actors, rules[r]);
        assert((a + b)[k] == a[k]);
    } else {
        assert(b == seq![entry_of(id, actors, rules[r])]);
        assert((a + b)[a.len() as int] == b[0]);
    }
}

/// Every rule that fires in a section whose actors lack its inferred actor
/// gives that inference, with the section's id.
pub proof fn lemma_inferences_complete(rules: Seq<RuleView>, sections: Seq<(Seq<char>, Seq<ActorView>)>, j: int, r: int)
    requires
        0 <= j < sections.len(),
        0 <= r < rules.len(),
        fires_new(sections[j].1, rules[r]),
    ensures
        apply_spec(rules, sections).contains(entry_of(sections[j].0, sections[j].1, rules[r])),
    decreases sections.len(),
{
    let init = sections.drop_last();
    let a = apply_spec(rules, init);
    let last = sections[sections.len() - 1];
    let b = section_infers(last.0, last.1, rules);
    assert(apply_spec(rules, sections) == a + b);
    let e = entry_of(sections[j].0, sections[j].1, rules[r]);
    if j < init.len() {
        assert(init[j] == sections[j]);
        lemma_inferences_complete(rules, init, j, r);
        let k = choose|k: int| 0 <= k < a.len() && a[k] == e;
        assert((a + b)[k] == a[k]);
    } else {
        lemma_section_complete(last.0, last.1, rules, r);
        let k = choose|k: int| 0 <= k < b.len() && b[k] == e;
        assert((a + b)[a.len() + k] == b[k]);
    }
}

/// How many rules fire in a section whose actors lack their inferred actor.
pub open spec fn section_firings(actors: Seq<ActorView>, rules: Seq<RuleView>) -> nat
    decreases rules.len(),
{
    if rules.len() == 0 {
        0
    } else {
        section_firings(actors, rules.drop_last()) + (if fires_new(actors, rules.last()) { 1nat } else { 0nat })
    }
}

/// How many (section, rule) firings there are over all sections.
pub open spec fn firing_count(rules: Seq<RuleView>, sections: Seq<(Seq<char>, Seq<ActorView>)>) -> nat
    decreases sections.len(),
{
    if sections.len() == 0 {
        0
    } else {
        firing_count(rules, sections.drop_last()) + section_firings(sections.last().1, rules)
    }
}

proof fn lemma_section_count(id: Seq<char>, actors: Seq<ActorView>, rules: Seq<RuleView>)
    ensures
        section_infers(id, actors, rules).len() == section_firings(actors, rules),
    decreases rules.len(),
{
    if rules.len() > 0 {
        lemma_section_count(id, actors, rules.drop_last());
    }
}

/// One inference per firing: there are exactly as many inferences as
/// (section, rule) pairs where the rule fires and its inferred actor is
/// absent from the section.
pub proof fn lemma_inferences_count(rules: Seq<RuleView>, sections: Seq<(Seq<char>, Seq<ActorView>)>)
    ensures
        apply_spec(rules, sections).len() == firing_count(rules, sections),
    decreases sections.len(),
{
    if sections.len() > 0 {
        lemma_inferences_count(rules, sections.drop_last());
        lemma_section_count(sections.last().0, sections.last().1, rules);
    }
}

pub open spec fn rules_view(rules: Seq<CorrelativeRule>) -> Seq<RuleView> {
    rules.map_values(|r: CorrelativeRule| r@)
}

pub open spec fn sections_view(s: Seq<(String, Vec<SectionActor>)>) -> Seq<(Seq<char>, Seq<ActorView>)> {
    s.map_values(|x: (String, Vec<SectionActor>)| section_view(x))
}

pub open spec fn inferred_view(v: Seq<InferredActor>) -> Seq<InferredView> {
    v.map_values(|x: InferredActor| x@)
}

fn copy_opt(o: &Option<String>) -> (r: Option<String>)
    ensures
        opt_str(r) == opt_str(*o),
{
    match o {
        Some(s) => Some(owned(s.as_str())),
        None => None,
    }
}

fn opt_eq(a: &Option<String>, b: &Option<String>) -> (r: bool)
    ensures
        r == (opt_str(*a) == opt_str(*b)),
{
    match (a, b) {
        (Some(x), Some(y)) => str_eq(x.as_str(), y.as_str()),
        (None, None) => true,
        _ => false,
    }
}

fn fires(rule: &CorrelativeRule, a: &SectionActor) -> (r: bool)
    ensures
        r == fires_on(rule@, actor_view(*a)),
{
    let label_ok = str_eq(a.0.as_str(), rule.trigger_actor.as_str());
    let pos_ok = match &a.3 {
        Some(p) => str_eq(p.as_str(), rule.trigger_position.as_str()),
        None => false,
    };
    let drrp_ok = match &rule.trigger_drrp {
        Some(_) => opt_eq(&a.2, &rule.trigger_drrp),
        None => true,
    };
    label_ok && pos_ok && drrp_ok
}

/// What one rule infers in one section.
fn infer_one(id: &String, actors: &Vec<SectionActor>, rule: &CorrelativeRule) -> (r: Option<InferredActor>)
    ensures
        match r {
            Some(x) => rule_infers(id@, actors@.map_values(|a: SectionActor| actor_view(a)), rule@) == seq![x@],
            None => rule_infers(id@, actors@.map_values(|a: SectionActor| actor_view(a)), rule@) == Seq::<InferredView>::empty(),
        },
{
    let ghost av = actors@.map_values(|a: SectionActor| actor_view(a));
    let mut fired = false;
    let mut present = false;
    let mut first: Option<usize> = None;
    let mut i: usize = 0;
    while i < actors.len()
        invariant
            i <= actors.len(),
            av == actors@.map_values(|a: SectionActor| actor_view(a)),
            fired == exists|j: int| 0 <= j < i && fires_on(rule@, #[trigger] av[j]),
            present == exists|j: int| 0 <= j < i && (#[trigger] av[j]).0 == rule@.3,
            match first {
                Some(k) => first_labelled(av, rule@.0, i as int) == k as int && k < i,
                None => first_labelled(av, rule@.0, i as int) == -1,
            },
        decreases actors.len() - i,
    {
        let a = &actors[i];
        proof {
            assert(av[i as int] == actor_view(*a));
        }
        if fires(rule, a) {
            fired = true;
        }
        let same_label = str_eq(a.0.as_str(), rule.trigger_actor.as_str());
        if first.is_none() && same_label {
            first = Some(i);
        }
        if str_eq(a.0.as_str(), rule.inferred_actor.as_str()) {
            present = true;
        }
        i += 1;
    }
    if !fired || present {
        return None;
    }
    let drrp = match &rule.inferred_drrp {
        Some(d) => Some(owned(d.as_str())),
        None => match first {
            Some(k) => {
                proof {
                    assert(av[k as int] == actor_view(actors@[k as int]));
                }
                copy_opt(&actors[k].2)
            },
            None => None,
        },
    };
    Some(InferredActor {
        section_id: owned(id.as_str()),
        actor_label: owned(rule.inferred_actor.as_str()),
        actor_category: owned(rule.inferred_category.as_str()),
        drrp,
        position: owned(rule.inferred_position.as_str()),
    })
}

/// Apply correlative rules to each section's actors: a rule fires when an
/// actor of the section has the trigger label and position (and the
/// trigger DRRP, when the rule names one), and infers its actor unless that
/// label is already present; the inferred DRRP is the rule's, else the
/// first trigger-labelled actor's.
pub fn apply_rules(rules: &[CorrelativeRule], sections: &[(String, Vec<SectionActor>)]) -> (r: Vec<InferredActor>)
    ensures
        inferred_view(r@) == apply_spec(rules_view(rules@), sections_view(sections@)),
{
    let ghost rv = rules_view(rules@);
    let ghost sv = sections_view(sections@);
    let mut out: Vec<InferredActor> = Vec::new();
    let mut s: usize = 0;
    proof {
        assert(sv.take(0) =~= seq![]);
        assert(inferred_view(out@) =~= seq![]);
    }
    while s < sections.len()
        invariant
            s <= sections.len(),
            rv == rules_view(rules@),
            sv == sections_view(sections@),
            inferred_view(out@) == apply_spec(rv, sv.take(s as int)),
        decreases sections.len() - s,
    {
        let id = &sections[s].0;
        let actors = &sections[s].1;
        proof {
            assert(sv.take(s + 1).drop_last() =~= sv.take(s as int));
            assert(sv.take(s + 1).last() == section_view(sections@[s as int]));
        }
        let ghost base = inferred_view(out@);
        let ghost av = actors@.map_values(|a: SectionActor| actor_view(a));
        let mut k: usize = 0;
        proof {
            assert(rv.take(0) =~= seq![]);
            assert(base + section_infers(id@, av, rv.take(0)) =~= base);
        }
        while k < rules.len()
            invariant
                k <= rules.len(),
                rv == rules_view(rules@),
                inferred_view(out@) == base + section_infers(id@, av, rv.take(k as int)),
                av == actors@.map_values(|a: SectionActor| actor_view(a)),
            decreases rules.len() - k,
        {
            proof {
                assert(rv.take(k + 1).drop_last() =~= rv.take(k as int));
                assert(rv.take(k + 1).last() == rules@[k as int]@);
            }
            let ghost before = out@;
            match infer_one(id, actors, &rules[k]) {
                Some(x) => {
                    out.push(x);
                    proof {
                        assert(inferred_view(out@) =~= inferred_view(before) + seq![out@.last()@]);
                    }
                },
                None => {},
            }
            proof {
                let prev = section_infers(id@, av, rv.take(k as int));
                let step = rule_infers(id@, av, rules@[k as int]@);
                assert(base + (prev + step) =~= (base + prev) + step);
            }
            k += 1;
        }
        proof {
            assert(rv.take(rules.len() as int) =~= rv);
        }
        s += 1;
    }
    proof {
        assert(sv.take(sections.len() as int) =~= sv);
    }
    out
}

} // verus!
