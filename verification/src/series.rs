//! Observations seen context by context: the labels in the order in which they first
//! occur, the values of each label in the order in which they came, and the latest values
//! of one label.

use crate::scalar::Scalar;
use crate::split::{Split, SplitView};
use vstd::prelude::*;

verus! {

/// The most samples of a context on which an estimate rests.
pub const RECENT: usize = 5;

/// The samples of one context, oldest first.
#[derive(Clone, Debug)]
pub struct ContextSeries {
    pub label: String,
    pub values: Vec<Scalar>,
}

/// What a series holds, as mathematical values.
pub struct SeriesView {
    pub label: Seq<char>,
    pub values: Seq<Scalar>,
}

impl View for ContextSeries {
    type V = SeriesView;

    open spec fn view(&self) -> SeriesView {
        SeriesView { label: self.label@, values: self.values@ }
    }
}

impl DeepView for ContextSeries {
    type V = SeriesView;

    open spec fn deep_view(&self) -> SeriesView {
        self@
    }
}

/// The context labels that occur in `s`, each once, in the order in which they first occur.
pub open spec fn labels(s: Seq<SplitView>) -> Seq<Seq<char>>
    decreases s.len(),
{
    if s.len() == 0 {
        Seq::empty()
    } else {
        let before = labels(s.drop_last());
        if before.contains(s.last().context) {
            before
        } else {
            before.push(s.last().context)
        }
    }
}

/// The values that `s` holds for the context `label`, in the order of `s`.
pub open spec fn series(s: Seq<SplitView>, label: Seq<char>) -> Seq<Scalar>
    decreases s.len(),
{
    if s.len() == 0 {
        Seq::empty()
    } else {
        let before = series(s.drop_last(), label);
        if s.last().context == label {
            before.push(s.last().value)
        } else {
            before
        }
    }
}

/// The observations of `s` grouped by context: one series for each label, the labels in
/// the order in which they first occur, the values of each in the order of `s`.
pub open spec fn groups(s: Seq<SplitView>) -> Seq<SeriesView> {
    Seq::new(
        labels(s).len(),
        |k: int| SeriesView { label: labels(s)[k], values: series(s, labels(s)[k]) },
    )
}

/// The latest values that `s` holds for `context`, newest first: `RECENT` of them, or all
/// where there are fewer.
pub open spec fn recent(s: Seq<SplitView>, context: Seq<char>) -> Seq<Scalar> {
    let all = series(s, context);
    let n = if all.len() <= RECENT {
        all.len()
    } else {
        RECENT as nat
    };
    Seq::new(n, |k: int| all[all.len() - 1 - k])
}

/// The predicate that picks the observations of `label`.
pub open spec fn has_context(label: Seq<char>) -> spec_fn(SplitView) -> bool {
    |x: SplitView| x.context == label
}

/// The function that takes the value of an observation.
pub open spec fn value_of() -> spec_fn(SplitView) -> Scalar {
    |x: SplitView| x.value
}

/// The series of a label holds the values of the observations that have the label, and
/// of no other, in their order.
pub proof fn lemma_series_is_filtered(s: Seq<SplitView>, label: Seq<char>)
    ensures
        series(s, label) == s.filter(has_context(label)).map_values(value_of()),
    decreases s.len(),
{
    reveal(Seq::filter);
    if s.len() > 0 {
        lemma_series_is_filtered(s.drop_last(), label);
    }
    assert(series(s, label) =~= s.filter(has_context(label)).map_values(value_of()));
}

/// No label is listed twice.
pub proof fn lemma_labels_distinct(s: Seq<SplitView>)
    ensures
        forall|i: int, j: int|
            0 <= i < j < labels(s).len() ==> #[trigger] labels(s)[i] != #[trigger] labels(s)[j],
    decreases s.len(),
{
    if s.len() > 0 {
        lemma_labels_distinct(s.drop_last());
        let before = labels(s.drop_last());
        if !before.contains(s.last().context) {
            assert forall|i: int, j: int| 0 <= i < j < labels(s).len() implies #[trigger] labels(
                s,
            )[i] != #[trigger] labels(s)[j] by {}
        }
    }
}

/// A label is listed exactly when some observation has it.
pub proof fn lemma_labels_are_the_contexts(s: Seq<SplitView>, label: Seq<char>)
    ensures
        labels(s).contains(label) <==> exists|i: int| 0 <= i < s.len() && (#[trigger] s[i]).context == label,
    decreases s.len(),
{
    if s.len() > 0 {
        let front = s.drop_last();
        let before = labels(front);
        lemma_labels_are_the_contexts(front, label);
        if labels(s).contains(label) {
            let k = choose|k: int| 0 <= k < labels(s).len() && labels(s)[k] == label;
            if k < before.len() {
                let i = choose|i: int| 0 <= i < front.len() && (#[trigger] front[i]).context == label;
                assert(s[i].context == label);
            } else {
                assert(s[s.len() - 1].context == label);
            }
        }
        if exists|i: int| 0 <= i < s.len() && (#[trigger] s[i]).context == label {
            let i = choose|i: int| 0 <= i < s.len() && (#[trigger] s[i]).context == label;
            if i < front.len() {
                assert(front[i].context == label);
                let k = choose|k: int| 0 <= k < before.len() && before[k] == label;
                assert(labels(s)[k] == label);
            } else if !before.contains(label) {
                assert(labels(s)[before.len() as int] == label);
            }
        }
    }
}

/// A context that is not among the labels has no values.
pub proof fn lemma_series_of_absent(s: Seq<SplitView>, label: Seq<char>)
    requires
        !labels(s).contains(label),
    ensures
        series(s, label) == Seq::<Scalar>::empty(),
    decreases s.len(),
{
    if s.len() > 0 {
        let before = labels(s.drop_last());
        if !before.contains(s.last().context) {
            assert(labels(s).last() == s.last().context);
        }
        assert forall|j: int| 0 <= j < before.len() implies before[j] != label by {
            assert(labels(s)[j] == before[j]);
        }
        lemma_series_of_absent(s.drop_last(), label);
    }
}

/// The values of a sequence are those of its front part followed by those of the rest.
pub proof fn lemma_series_concat(a: Seq<SplitView>, b: Seq<SplitView>, label: Seq<char>)
    ensures
        series(a + b, label) == series(a, label) + series(b, label),
    decreases b.len(),
{
    if b.len() == 0 {
        assert(a + b =~= a);
    } else {
        assert((a + b).drop_last() =~= a + b.drop_last());
        lemma_series_concat(a, b.drop_last(), label);
    }
}

/// What one more observation does to the groups: its value goes to the end of the series
/// of its context, and where the context is new, a series for it goes to the end of the
/// groups.
pub proof fn lemma_groups_push(s: Seq<SplitView>, x: SplitView)
    ensures
        !labels(s).contains(x.context) ==> groups(s.push(x)) == groups(s).push(
            SeriesView { label: x.context, values: seq![x.value] },
        ),
        forall|k: int|
            0 <= k < labels(s).len() && #[trigger] labels(s)[k] == x.context ==> groups(s.push(x))
                == groups(s).update(
                k,
                SeriesView { label: x.context, values: groups(s)[k].values.push(x.value) },
            ),
{
    let now = s.push(x);
    assert(now.drop_last() =~= s);
    lemma_labels_distinct(s);
    if !labels(s).contains(x.context) {
        lemma_series_of_absent(s, x.context);
        let grown = groups(s).push(SeriesView { label: x.context, values: seq![x.value] });
        assert forall|j: int| 0 <= j < grown.len() implies groups(now)[j] == grown[j] by {}
    }
    assert forall|k: int| 0 <= k < labels(s).len() && #[trigger] labels(s)[k] == x.context implies groups(
        now,
    ) == groups(s).update(
        k,
        SeriesView { label: x.context, values: groups(s)[k].values.push(x.value) },
    ) by {
        let changed = groups(s).update(
            k,
            SeriesView { label: x.context, values: groups(s)[k].values.push(x.value) },
        );
        assert forall|j: int| 0 <= j < changed.len() implies groups(now)[j] == changed[j] by {}
    }
}

/// Where `label` stands among the labels of `groups`, or their number where it does not.
fn find_label(groups: &Vec<ContextSeries>, label: &String) -> (k: usize)
    ensures
        k <= groups@.len(),
        k < groups@.len() ==> groups.deep_view()[k as int].label == label@,
        forall|i: int| 0 <= i < k ==> (#[trigger] groups.deep_view()[i]).label != label@,
{
    let mut k: usize = 0;
    while k < groups.len()
        invariant
            k <= groups@.len(),
            forall|i: int| 0 <= i < k ==> (#[trigger] groups.deep_view()[i]).label != label@,
        decreases groups@.len() - k,
    {
        if groups[k].label == *label {
            return k;
        }
        k += 1;
    }
    k
}

/// Groups observations by context.
pub fn group_by_context(splits: &Vec<Split>) -> (r: Vec<ContextSeries>)
    ensures
        r.deep_view() == groups(splits.deep_view()),
{
    let mut out: Vec<ContextSeries> = Vec::new();
    let mut i: usize = 0;
    while i < splits.len()
        invariant
            i <= splits@.len(),
            out.deep_view() == groups(splits.deep_view().take(i as int)),
        decreases splits@.len() - i,
    {
        let split = &splits[i];
        let ghost before = splits.deep_view().take(i as int);
        let ghost old_out = out.deep_view();
        proof {
            assert(splits.deep_view().take(i + 1) =~= before.push(split@));
            lemma_groups_push(before, split@);
        }
        let k: usize = find_label(&out, &split.context);
        assert(old_out.len() == labels(before).len());
        if k < out.len() {
            out[k].values.push(split.value);
        } else {
            let mut values: Vec<Scalar> = Vec::new();
            values.push(split.value);
            out.push(ContextSeries { label: split.context.clone(), values });
            assert forall|j: int| 0 <= j < labels(before).len() implies labels(before)[j]
                != split@.context by {}
        }
        i += 1;
    }
    assert(splits.deep_view().take(i as int) =~= splits.deep_view());
    out
}

/// The latest values for `context`, newest first.
pub fn recent_values(splits: &Vec<Split>, context: &str) -> (r: Vec<Scalar>)
    ensures
        r@ == recent(splits.deep_view(), context@),
{
    let wanted: String = context.to_owned();
    let ghost all = splits.deep_view();
    let mut out: Vec<Scalar> = Vec::new();
    let mut i: usize = splits.len();
    while i > 0 && out.len() < RECENT
        invariant
            all == splits.deep_view(),
            wanted@ == context@,
            i <= splits@.len(),
            out@.len() == series(all.skip(i as int), context@).len(),
            out@.len() <= RECENT,
            forall|k: int|
                0 <= k < out@.len() ==> #[trigger] out@[k] == series(all.skip(i as int), context@)[
                    out@.len() - 1 - k],
        decreases i,
    {
        i -= 1;
        proof {
            let head = seq![all[i as int]];
            assert(all.skip(i as int) =~= head + all.skip(i + 1));
            lemma_series_concat(head, all.skip(i + 1), context@);
            assert(series(head.drop_last(), context@) =~= Seq::<Scalar>::empty());
        }
        if splits[i].context == wanted {
            out.push(splits[i].value);
        }
    }
    proof {
        lemma_series_concat(all.take(i as int), all.skip(i as int), context@);
        assert(all.take(i as int) + all.skip(i as int) =~= all);
    }
    out
}

} // verus!
