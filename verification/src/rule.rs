//! Rules: named transformations of a probability estimate, and the engine that keeps them
//! and picks those that apply to a context.

use crate::ambient::{fresh_uuid, is_uuid_text};
use crate::scalar::Scalar;
use crate::text::same_text;
use vstd::prelude::*;

verus! {

/// How a rule transforms an estimate `v`, given its strength `s`.
#[derive(Clone, Copy, Debug, PartialEq, Eq, Structural)]
pub enum RuleType {
    /// `v * (1 + s)`.
    Direct,
    /// `1 - v * (1 - s)`.
    Inverse,
    /// `v` itself.
    Delayed,
    /// `v` itself.
    Cascade,
}

impl RuleType {
    /// The rule type that a tag names. A tag that names none stands for `Direct`.
    pub open spec fn of_tag(tag: Seq<char>) -> RuleType {
        if tag == "inverse"@ {
            RuleType::Inverse
        } else if tag == "delayed"@ {
            RuleType::Delayed
        } else if tag == "cascade"@ {
            RuleType::Cascade
        } else {
            RuleType::Direct
        }
    }

    /// Reads a rule type from its tag: `direct`, `inverse`, `delayed` or `cascade`.
    pub fn from_tag(tag: &str) -> (r: RuleType)
        ensures
            r == RuleType::of_tag(tag@),
    {
        if same_text(tag, "inverse") {
            RuleType::Inverse
        } else if same_text(tag, "delayed") {
            RuleType::Delayed
        } else if same_text(tag, "cascade") {
            RuleType::Cascade
        } else {
            RuleType::Direct
        }
    }
}

/// One step of arithmetic on an estimate: the type of a rule and its strength.
#[derive(Clone, Copy, Debug, PartialEq, Eq, Structural)]
pub struct Transform {
    pub rule_type: RuleType,
    pub strength: Scalar,
}

/// A rule.
#[derive(Clone, Debug)]
pub struct Rule {
    pub id: String,
    pub name: String,
    pub rule_type: RuleType,
    pub contexts: Vec<String>,
    pub strength: Scalar,
    pub condition: Option<String>,
    pub decay: Option<String>,
    pub active: bool,
    pub times_applied: u32,
}

/// What a rule holds, as mathematical values.
pub struct RuleView {
    pub id: Seq<char>,
    pub name: Seq<char>,
    pub rule_type: RuleType,
    pub contexts: Seq<Seq<char>>,
    pub strength: Scalar,
    pub condition: Option<Seq<char>>,
    pub decay: Option<Seq<char>>,
    pub active: bool,
    pub times_applied: u32,
}

impl RuleView {
    /// Whether the rule is active and names `context`.
    pub open spec fn applies_to(self, context: Seq<char>) -> bool {
        self.active && self.contexts.contains(context)
    }

    /// The arithmetic that the rule stands for.
    pub open spec fn transform(self) -> Transform {
        Transform { rule_type: self.rule_type, strength: self.strength }
    }

    /// The rule after one more application.
    pub open spec fn counted(self) -> RuleView {
        RuleView { times_applied: (self.times_applied + 1) as u32, ..self }
    }
}

impl View for Rule {
    type V = RuleView;

    open spec fn view(&self) -> RuleView {
        RuleView {
            id: self.id@,
            name: self.name@,
            rule_type: self.rule_type,
            contexts: self.contexts.deep_view(),
            strength: self.strength,
            condition: self.condition.deep_view(),
            decay: self.decay.deep_view(),
            active: self.active,
            times_applied: self.times_applied,
        }
    }
}

impl DeepView for Rule {
    type V = RuleView;

    open spec fn deep_view(&self) -> RuleView {
        self@
    }
}

impl Rule {
    /// A new rule under the identifier `id`: active, never applied, without condition or
    /// decay. Neither the strength nor the list of contexts is restricted.
    pub fn with_id(
        id: String,
        name: &str,
        rule_type: RuleType,
        contexts: Vec<String>,
        strength: Scalar,
    ) -> (r: Rule)
        ensures
            r@ == (RuleView {
                id: id@,
                name: name@,
                rule_type,
                contexts: contexts.deep_view(),
                strength,
                condition: None,
                decay: None,
                active: true,
                times_applied: 0,
            }),
    {
        Rule {
            id,
            name: name.to_owned(),
            rule_type,
            contexts,
            strength,
            condition: None,
            decay: None,
            active: true,
            times_applied: 0,
        }
    }

    /// A new rule under a fresh UUID: active, never applied, without condition or decay.
    /// Neither the strength nor the list of contexts is restricted.
    pub fn new(name: &str, rule_type: RuleType, contexts: Vec<String>, strength: Scalar) -> (r:
        Rule)
        ensures
            is_uuid_text(r@.id),
            r@ == (RuleView {
                id: r@.id,
                name: name@,
                rule_type,
                contexts: contexts.deep_view(),
                strength,
                condition: None,
                decay: None,
                active: true,
                times_applied: 0,
            }),
    {
        Rule::with_id(fresh_uuid(), name, rule_type, contexts, strength)
    }

    /// Counts one application of the rule and hands out the arithmetic to carry out.
    pub fn apply(&mut self) -> (t: Transform)
        requires
            old(self).times_applied < u32::MAX,
        ensures
            final(self)@ == old(self)@.counted(),
            final(self)@.times_applied == old(self)@.times_applied + 1,
            t == old(self)@.transform(),
    {
        self.times_applied = self.times_applied + 1;
        Transform { rule_type: self.rule_type, strength: self.strength }
    }

    /// Whether the rule is active and names `context`.
    pub fn applies_to(&self, context: &str) -> (r: bool)
        ensures
            r == self@.applies_to(context@),
    {
        if !self.active {
            return false;
        }
        let wanted: String = context.to_owned();
        let mut i: usize = 0;
        while i < self.contexts.len()
            invariant
                self.active,
                i <= self.contexts@.len(),
                wanted@ == context@,
                forall|k: int| 0 <= k < i ==> self.contexts.deep_view()[k] != context@,
            decreases self.contexts@.len() - i,
        {
            if self.contexts[i] == wanted {
                assert(self@.contexts[i as int] == context@);
                return true;
            }
            i += 1;
        }
        false
    }

    /// The name of the record under which the rule is stored: its identifier, then `.json`.
    pub fn record_name(&self) -> (r: String)
        ensures
            r@ == self@.id + ".json"@,
    {
        self.id.clone().concat(".json")
    }
}

/// The predicate that picks the rules for `context`.
pub open spec fn applies(context: Seq<char>) -> spec_fn(RuleView) -> bool {
    |r: RuleView| r.applies_to(context)
}

/// The rules that are active and name `context`, in the order of `rules`.
pub open spec fn applicable(rules: Seq<RuleView>, context: Seq<char>) -> Seq<RuleView> {
    rules.filter(applies(context))
}

/// The arithmetic that `rules` stand for, rule by rule.
pub open spec fn transforms(rules: Seq<RuleView>) -> Seq<Transform> {
    Seq::new(rules.len(), |k: int| rules[k].transform())
}

/// `rules` after each one that applies to `context` has been applied once.
pub open spec fn applied(rules: Seq<RuleView>, context: Seq<char>) -> Seq<RuleView> {
    Seq::new(
        rules.len(),
        |k: int|
            if rules[k].applies_to(context) {
                rules[k].counted()
            } else {
                rules[k]
            },
    )
}

/// Whether every rule that applies to `context` can be counted once more.
pub open spec fn countable(rules: Seq<RuleView>, context: Seq<char>) -> bool {
    forall|k: int|
        0 <= k < rules.len() && (#[trigger] rules[k]).applies_to(context) ==> rules[k].times_applied
            < u32::MAX
}

/// The rules among `records`, in order; a record that could not be read counts for nothing.
pub open spec fn readable(records: Seq<Option<RuleView>>) -> Seq<RuleView>
    decreases records.len(),
{
    if records.len() == 0 {
        Seq::empty()
    } else {
        let before = readable(records.drop_last());
        match records.last() {
            Some(rule) => before.push(rule),
            None => before,
        }
    }
}

/// One more rule at the end is picked or passed over by itself.
pub proof fn lemma_applicable_push(rules: Seq<RuleView>, rule: RuleView, context: Seq<char>)
    ensures
        applicable(rules.push(rule), context) == if rule.applies_to(context) {
            applicable(rules, context).push(rule)
        } else {
            applicable(rules, context)
        },
{
    rules.lemma_filter_push(rule, applies(context));
}

/// Two engines loaded from the same records hold the same rules for every context, in the
/// same order.
pub proof fn lemma_load_all_twice(
    first: RuleEngine,
    second: RuleEngine,
    records: Seq<Option<RuleView>>,
    context: Seq<char>,
)
    requires
        first@ == readable(records),
        second@ == readable(records),
    ensures
        first@ == second@,
        applicable(first@, context) == applicable(second@, context),
{
}

/// The rules of the library, in the order in which they were loaded and added.
#[derive(Debug)]
pub struct RuleEngine {
    rules: Vec<Rule>,
}

impl View for RuleEngine {
    type V = Seq<RuleView>;

    closed spec fn view(&self) -> Seq<RuleView> {
        self.rules.deep_view()
    }
}

impl RuleEngine {
    /// An engine without rules.
    pub fn new() -> (r: RuleEngine)
        ensures
            r@ == Seq::<RuleView>::empty(),
    {
        RuleEngine { rules: Vec::new() }
    }

    /// An engine with the rules of the stored records, in their order. A record that
    /// could not be read or understood comes as `None` and is passed over.
    pub fn load_all(records: Vec<Option<Rule>>) -> (r: RuleEngine)
        ensures
            r@ == readable(records.deep_view()),
    {
        let mut engine = RuleEngine::new();
        let ghost all = records.deep_view();
        for record in it: records
            invariant
                it.seq().len() == all.len(),
                forall|k: int| 0 <= k < all.len() ==> (#[trigger] it.seq()[k]).deep_view() == all[k],
                engine@ == readable(all.take(it.index() as int)),
        {
            let ghost i = it.index() as int;
            assert(all.take(i + 1).drop_last() =~= all.take(i));
            match record {
                Some(rule) => {
                    engine.rules.push(rule);
                },
                None => {},
            }
        }
        assert(all.take(all.len() as int) =~= all);
        engine
    }

    /// Appends a rule. Nothing is compared with the rules that are there already.
    pub fn add_rule(&mut self, rule: Rule)
        ensures
            final(self)@ == old(self)@.push(rule@),
    {
        self.rules.push(rule);
    }

    /// How many rules the engine holds.
    pub fn len(&self) -> (n: usize)
        ensures
            n == self@.len(),
    {
        self.rules.len()
    }

    /// The rule at position `i`.
    pub fn rule(&self, i: usize) -> (r: &Rule)
        requires
            i < self@.len(),
        ensures
            r@ == self@[i as int],
    {
        &self.rules[i]
    }

    /// Whether every rule that applies to `context` can be counted once more.
    pub fn is_countable(&self, context: &str) -> (r: bool)
        ensures
            r == countable(self@, context@),
    {
        let mut i: usize = 0;
        while i < self.rules.len()
            invariant
                i <= self.rules@.len(),
                forall|k: int|
                    0 <= k < i && (#[trigger] self@[k]).applies_to(context@) ==> self@[k].times_applied
                        < u32::MAX,
            decreases self.rules@.len() - i,
        {
            if self.rules[i].times_applied == u32::MAX && self.rules[i].applies_to(context) {
                return false;
            }
            assert(self@[i as int] == self.rules@[i as int]@);
            i += 1;
        }
        true
    }

    /// The rules that are active and name `context`, in the order in which the engine
    /// holds them.
    pub fn get_applicable_rules(&self, context: &str) -> (r: Vec<&Rule>)
        ensures
            r.deep_view() == applicable(self@, context@),
    {
        let mut out: Vec<&Rule> = Vec::new();
        let mut i: usize = 0;
        proof {
            reveal(Seq::filter);
        }
        while i < self.rules.len()
            invariant
                i <= self.rules@.len(),
                out.deep_view() == applicable(self@.take(i as int), context@),
            decreases self.rules@.len() - i,
        {
            let rule = &self.rules[i];
            proof {
                assert(self@.take(i + 1) =~= self@.take(i as int).push(rule@));
                lemma_applicable_push(self@.take(i as int), rule@, context@);
            }
            if rule.applies_to(context) {
                out.push(rule);
            }
            i += 1;
        }
        assert(self@.take(i as int) =~= self@);
        out
    }

    /// Applies every rule that is active and names `context`, in the order in which the
    /// engine holds them, and hands out the arithmetic that they stand for, in that order.
    pub fn apply_applicable(&mut self, context: &str) -> (r: Vec<Transform>)
        requires
            countable(old(self)@, context@),
        ensures
            r@ == transforms(applicable(old(self)@, context@)),
            final(self)@ == applied(old(self)@, context@),
    {
        let mut out: Vec<Transform> = Vec::new();
        let ghost start = self@;
        let n: usize = self.rules.len();
        let mut i: usize = 0;
        proof {
            reveal(Seq::filter);
        }
        while i < n
            invariant
                n == start.len(),
                i <= n,
                self@.len() == n,
                countable(start, context@),
                forall|k: int| 0 <= k < i ==> #[trigger] self@[k] == applied(start, context@)[k],
                forall|k: int| i <= k < n ==> #[trigger] self@[k] == start[k],
                out@ == transforms(applicable(start.take(i as int), context@)),
            decreases n - i,
        {
            let ghost before = self@;
            proof {
                assert(start.take(i + 1) =~= start.take(i as int).push(start[i as int]));
                lemma_applicable_push(start.take(i as int), start[i as int], context@);
                assert(before[i as int] == start[i as int]);
            }
            if self.rules[i].applies_to(context) {
                let t: Transform = self.rules[i].apply();
                out.push(t);
            }
            proof {
                assert forall|k: int| 0 <= k < i + 1 implies #[trigger] self@[k] == applied(
                    start,
                    context@,
                )[k] by {
                    if k < i {
                        assert(self@[k] == before[k]);
                    }
                }
                assert forall|k: int| i + 1 <= k < n implies #[trigger] self@[k] == start[k] by {
                    assert(self@[k] == before[k]);
                }
            }
            i += 1;
        }
        assert(start.take(n as int) =~= start);
        out
    }
}

} // verus!
