//! The field: a bounded window of the most recent observations, the correlation mapping
//! derived from it, and the answers to queries.

use crate::ambient::now_seconds;
use crate::correlation::{
    all_fresh, coefficients_in_range, distinct_keys, lemma_resolved_in_range, lemma_table_sound,
    lemma_unresolved, pair_table, resolved, table, unresolved, Correlation, CorrelationView,
};
use crate::estimate::{estimate_of, Estimate};
use crate::rule::{applied, countable, RuleEngine, RuleView, Transform};
use crate::scalar::Scalar;
use crate::series::{group_by_context, groups, recent, recent_values, ContextSeries};
use crate::split::{Split, SplitView};
use vstd::prelude::*;

verus! {

/// The most observations that the field keeps.
pub const WINDOW: usize = 100;

/// The field: the observations in the order in which they came, the correlation mapping
/// derived from them, and the time of the last change.
#[derive(Debug)]
pub struct FieldState {
    pub splits: Vec<Split>,
    pub correlations: Vec<Correlation>,
    pub last_updated: i64,
}

/// What the field holds, as mathematical values.
pub struct FieldView {
    pub splits: Seq<SplitView>,
    pub correlations: Seq<CorrelationView>,
    pub last_updated: i64,
}

impl View for FieldState {
    type V = FieldView;

    open spec fn view(&self) -> FieldView {
        FieldView {
            splits: self.splits.deep_view(),
            correlations: self.correlations.deep_view(),
            last_updated: self.last_updated,
        }
    }
}

/// The last `WINDOW` observations of `s`, or all of them where there are no more.
pub open spec fn window(s: Seq<SplitView>) -> Seq<SplitView> {
    if s.len() > WINDOW {
        s.subrange(s.len() - WINDOW, s.len() as int)
    } else {
        s
    }
}

/// The observations of a field that started with `start` and then took in `incoming`, one
/// after the other.
pub open spec fn ingested(start: Seq<SplitView>, incoming: Seq<SplitView>) -> Seq<SplitView>
    decreases incoming.len(),
{
    if incoming.len() == 0 {
        start
    } else {
        window(ingested(start, incoming.drop_last()).push(incoming.last()))
    }
}

/// Whether a query for `context` can be answered: where the context has a sample, every
/// rule that applies to it can be counted once more.
pub open spec fn answerable(s: Seq<SplitView>, rules: Seq<RuleView>, context: Seq<char>) -> bool {
    recent(s, context).len() > 0 ==> countable(rules, context)
}

/// The rules after a query for `context`: each one that applies has been applied once
/// where the context has a sample, and none has where it has not.
pub open spec fn applied_if_seen(s: Seq<SplitView>, rules: Seq<RuleView>, context: Seq<char>) -> Seq<
    RuleView,
> {
    if recent(s, context).len() > 0 {
        applied(rules, context)
    } else {
        rules
    }
}

/// However many observations a field takes in, it holds no more than `WINDOW`, and those
/// that it holds are the latest of all that it ever held, in the order in which they came.
pub proof fn lemma_ingested_is_latest(start: Seq<SplitView>, incoming: Seq<SplitView>)
    requires
        start.len() <= WINDOW,
    ensures
        ingested(start, incoming) == window(start + incoming),
        ingested(start, incoming).len() <= WINDOW,
    decreases incoming.len(),
{
    if incoming.len() > 0 {
        let earlier = incoming.drop_last();
        lemma_ingested_is_latest(start, earlier);
        assert((start + earlier).push(incoming.last()) =~= start + incoming);
    }
}

/// A field that started empty and took in `WINDOW` observations or more holds the last
/// `WINDOW` of them and none of those that came before.
pub proof fn lemma_oldest_are_evicted(incoming: Seq<SplitView>)
    requires
        incoming.len() >= WINDOW,
    ensures
        ingested(Seq::empty(), incoming) == incoming.subrange(
            incoming.len() - WINDOW,
            incoming.len() as int,
        ),
{
    lemma_ingested_is_latest(Seq::empty(), incoming);
    assert(Seq::<SplitView>::empty() + incoming =~= incoming);
    assert(incoming.subrange(0, incoming.len() as int) =~= incoming);
}

impl FieldView {
    /// Whether the field is as its own operations leave it: it holds no more than
    /// `WINDOW` observations, its correlation mapping is the one of these observations,
    /// with or without coefficients, and every coefficient lies in the interval from -1
    /// to 1.
    pub open spec fn well_formed(self) -> bool {
        &&& self.splits.len() <= WINDOW
        &&& unresolved(self.correlations) == table(groups(self.splits))
        &&& coefficients_in_range(self.correlations)
    }

    /// The field after it took in `split` at the time `now`.
    pub open spec fn taking(self, split: SplitView, now: i64) -> FieldView {
        FieldView {
            splits: window(self.splits.push(split)),
            correlations: table(groups(window(self.splits.push(split)))),
            last_updated: now,
        }
    }
}

impl FieldState {
    /// An empty field, last changed at the time `now`.
    pub fn empty_at(now: i64) -> (r: FieldState)
        ensures
            r@ == (FieldView {
                splits: Seq::<SplitView>::empty(),
                correlations: Seq::<CorrelationView>::empty(),
                last_updated: now,
            }),
            r@.well_formed(),
    {
        let r = FieldState { splits: Vec::new(), correlations: Vec::new(), last_updated: now };
        assert(r@.splits =~= Seq::<SplitView>::empty());
        assert(r@.correlations =~= Seq::<CorrelationView>::empty());
        assert(unresolved(r@.correlations) =~= table(groups(r@.splits)));
        r
    }

    /// An empty field, stamped with the current time.
    pub fn new() -> (r: FieldState)
        ensures
            r@.splits == Seq::<SplitView>::empty(),
            r@.correlations == Seq::<CorrelationView>::empty(),
            r@.well_formed(),
    {
        FieldState::empty_at(now_seconds())
    }

    /// Takes in one observation at the time `now`: appends it, stamps the field, and
    /// brings the window and the correlation mapping up to date.
    pub fn add_split_at(&mut self, split: Split, now: i64)
        ensures
            final(self)@ == old(self)@.taking(split@, now),
            final(self)@.well_formed(),
            distinct_keys(final(self)@.correlations),
            all_fresh(final(self)@.correlations),
    {
        let ghost grown = self@.splits.push(split@);
        self.splits.push(split);
        assert(self@.splits =~= grown);
        self.last_updated = now;
        self.update_correlations();
    }

    /// Takes in one observation: appends it, stamps the field with the current time, and
    /// brings the window and the correlation mapping up to date.
    pub fn add_split(&mut self, split: Split)
        ensures
            final(self)@.splits == window(old(self)@.splits.push(split@)),
            final(self)@.correlations == table(groups(final(self)@.splits)),
            final(self)@.well_formed(),
            distinct_keys(final(self)@.correlations),
            all_fresh(final(self)@.correlations),
    {
        self.add_split_at(split, now_seconds());
    }

    /// Cuts the observations down to the last `WINDOW` and builds the correlation mapping
    /// anew from what is left. Every coefficient is then yet to be taken.
    pub fn update_correlations(&mut self)
        ensures
            final(self)@.splits == window(old(self)@.splits),
            final(self)@.correlations == table(groups(final(self)@.splits)),
            final(self)@.well_formed(),
            distinct_keys(final(self)@.correlations),
            all_fresh(final(self)@.correlations),
            final(self)@.last_updated == old(self)@.last_updated,
    {
        let n: usize = self.splits.len();
        if n > WINDOW {
            let kept: Vec<Split> = self.splits.split_off(n - WINDOW);
            self.splits = kept;
        }
        let series: Vec<ContextSeries> = group_by_context(&self.splits);
        self.correlations = pair_table(&series);
        proof {
            lemma_table_sound(series.deep_view());
            lemma_unresolved(self@.correlations, Seq::empty());
        }
    }

    /// Fills in the coefficients of the correlation mapping, one for each entry and in the
    /// order of the entries. A value outside the interval from -1 to 1 is stored as the
    /// nearest end of the interval, and a NaN as zero, so that the mapping never holds a
    /// coefficient that is none. With any other number of values nothing is changed.
    pub fn record_coefficients(&mut self, values: &Vec<Scalar>) -> (ok: bool)
        ensures
            ok == (values@.len() == old(self)@.correlations.len()),
            ok ==> final(self)@ == (FieldView {
                correlations: resolved(old(self)@.correlations, values@),
                ..old(self)@
            }),
            ok ==> coefficients_in_range(final(self)@.correlations),
            !ok ==> final(self)@ == old(self)@,
            old(self)@.well_formed() ==> final(self)@.well_formed(),
    {
        let n: usize = self.correlations.len();
        if values.len() != n {
            return false;
        }
        let ghost start = self@.correlations;
        let mut k: usize = 0;
        while k < n
            invariant
                n == start.len() == values@.len(),
                k <= n,
                self@.correlations.len() == n,
                self@.splits == old(self)@.splits,
                self@.last_updated == old(self)@.last_updated,
                forall|j: int|
                    0 <= j < k ==> #[trigger] self@.correlations[j] == resolved(start, values@)[j],
                forall|j: int| k <= j < n ==> #[trigger] self@.correlations[j] == start[j],
            decreases n - k,
        {
            let ghost before = self@.correlations;
            self.correlations[k].coefficient = Some(values[k].clamp_signed_unit());
            proof {
                assert forall|j: int| 0 <= j < k + 1 implies #[trigger] self@.correlations[j]
                    == resolved(start, values@)[j] by {
                    if j < k {
                        assert(self@.correlations[j] == before[j]);
                    } else {
                        assert(before[j] == start[j]);
                    }
                }
                assert forall|j: int| k + 1 <= j < n implies #[trigger] self@.correlations[j]
                    == start[j] by {
                    assert(self@.correlations[j] == before[j]);
                }
            }
            k += 1;
        }
        assert(self@.correlations =~= resolved(start, values@));
        proof {
            lemma_unresolved(start, values@);
            lemma_resolved_in_range(start, values@);
        }
        true
    }

    /// Whether a query for `context` can be answered with the rules of `rule_engine`.
    pub fn is_answerable(&self, context: &str, rule_engine: &RuleEngine) -> (r: bool)
        ensures
            r == answerable(self@.splits, rule_engine@, context@),
    {
        let samples: Vec<Scalar> = recent_values(&self.splits, context);
        samples.len() == 0 || rule_engine.is_countable(context)
    }

    /// As `query_probability`, for every field and every engine: where the query cannot
    /// be answered, because a rule that applies has been counted as often as the counter
    /// can tell, there is no estimate, and no rule is applied.
    pub fn try_query_probability(&self, context: &str, rule_engine: &mut RuleEngine) -> (r: Option<
        Estimate,
    >)
        ensures
            r is Some <==> answerable(self@.splits, old(rule_engine)@, context@),
            r is Some ==> r->0@ == estimate_of(self@.splits, old(rule_engine)@, context@),
            r is Some ==> final(rule_engine)@ == applied_if_seen(
                self@.splits,
                old(rule_engine)@,
                context@,
            ),
            r is None ==> final(rule_engine)@ == old(rule_engine)@,
    {
        if self.is_answerable(context, rule_engine) {
            Some(self.query_probability(context, rule_engine))
        } else {
            None
        }
    }

    /// Says what the probability of `context` rests on: the latest samples of the context
    /// and the rules of `rule_engine` that apply to it, each of which is applied once.
    /// Without a sample the answer is a random draw, and no rule is applied.
    pub fn query_probability(&self, context: &str, rule_engine: &mut RuleEngine) -> (e: Estimate)
        requires
            answerable(self@.splits, old(rule_engine)@, context@),
        ensures
            e@ == estimate_of(self@.splits, old(rule_engine)@, context@),
            final(rule_engine)@ == applied_if_seen(self@.splits, old(rule_engine)@, context@),
    {
        let samples: Vec<Scalar> = recent_values(&self.splits, context);
        if samples.len() == 0 {
            return Estimate::Unseen;
        }
        let transforms: Vec<Transform> = rule_engine.apply_applicable(context);
        Estimate::Weighted { samples, transforms }
    }
}

} // verus!
