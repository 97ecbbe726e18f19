//! The correlation mapping: for every pair of contexts with enough samples, an entry under
//! the key of the pair, with the samples of the two cut to a common length.
//!
//! Entries stand in the order in which their keys were first stored. A key is stored once:
//! a pair whose key is there already takes the place of the entry that had it.

use crate::scalar::Scalar;
use crate::series::{ContextSeries, SeriesView};
use crate::text::{lemma_pieces_after_separator, lemma_pieces_of_plain, pieces};
use vstd::prelude::*;

verus! {

/// The fewest samples of a context for which a correlation is taken.
pub const MIN_SAMPLES: usize = 2;

/// The character that parts the two labels in the key of a pair.
pub const KEY_SEPARATOR: char = ':';

/// One entry of the correlation mapping: the key of a pair of contexts, the samples of
/// the two cut to a common length, and their correlation coefficient once it is known, a
/// number from -1 to 1.
#[derive(Clone, Debug)]
pub struct Correlation {
    pub key: String,
    pub left: Vec<Scalar>,
    pub right: Vec<Scalar>,
    pub coefficient: Option<Scalar>,
}

/// What an entry holds, as mathematical values.
pub struct CorrelationView {
    pub key: Seq<char>,
    pub left: Seq<Scalar>,
    pub right: Seq<Scalar>,
    pub coefficient: Option<Scalar>,
}

impl View for Correlation {
    type V = CorrelationView;

    open spec fn view(&self) -> CorrelationView {
        CorrelationView {
            key: self.key@,
            left: self.left@,
            right: self.right@,
            coefficient: self.coefficient,
        }
    }
}

impl DeepView for Correlation {
    type V = CorrelationView;

    open spec fn deep_view(&self) -> CorrelationView {
        self@
    }
}

/// Whether a correlation is taken between two series: both need `MIN_SAMPLES` values.
pub open spec fn qualifies(a: SeriesView, b: SeriesView) -> bool {
    a.values.len() >= MIN_SAMPLES && b.values.len() >= MIN_SAMPLES
}

/// The key of a pair of contexts: the two labels with the separator between them.
pub open spec fn pair_key(left: Seq<char>, right: Seq<char>) -> Seq<char> {
    left + seq![KEY_SEPARATOR] + right
}

/// The entry for a pair of series: their key, and of each series as many of its first
/// values as the shorter of the two has. The coefficient is yet to be taken.
pub open spec fn pairing(a: SeriesView, b: SeriesView) -> CorrelationView {
    let n = if a.values.len() <= b.values.len() {
        a.values.len() as int
    } else {
        b.values.len() as int
    };
    CorrelationView {
        key: pair_key(a.label, b.label),
        left: a.values.take(n),
        right: b.values.take(n),
        coefficient: None,
    }
}

/// Where the first entry with `key` stands in `m`, or the length of `m` where none has it.
pub open spec fn position(m: Seq<CorrelationView>, key: Seq<char>) -> int
    decreases m.len(),
{
    if m.len() == 0 {
        0
    } else if m[0].key == key {
        0
    } else {
        1 + position(m.drop_first(), key)
    }
}

/// Whether some entry of `m` has `key`.
pub open spec fn has_key(m: Seq<CorrelationView>, key: Seq<char>) -> bool {
    exists|k: int| 0 <= k < m.len() && (#[trigger] m[k]).key == key
}

/// `m` with `e` stored under its key: in place of the entry that had the key, or at the end
/// where none had it.
pub open spec fn upsert(m: Seq<CorrelationView>, e: CorrelationView) -> Seq<CorrelationView> {
    let k = position(m, e.key);
    if k < m.len() {
        m.update(k, e)
    } else {
        m.push(e)
    }
}

/// The mapping after the pairs `(a, b)` with `a < b` have been stored that come before
/// `(i, j)`, rows first: those with `a < i`, and those with `a == i` and `b < j`.
pub open spec fn table_upto(g: Seq<SeriesView>, i: int, j: int) -> Seq<CorrelationView>
    decreases i, j,
{
    if 0 <= i < j <= g.len() {
        if j > i + 1 {
            let before = table_upto(g, i, j - 1);
            if qualifies(g[i], g[j - 1]) {
                upsert(before, pairing(g[i], g[j - 1]))
            } else {
                before
            }
        } else if i > 0 {
            table_upto(g, i - 1, g.len() as int)
        } else {
            Seq::empty()
        }
    } else {
        Seq::empty()
    }
}

/// The correlation mapping of the series `g`: an entry for every pair of distinct series
/// that qualifies, stored pair by pair, the earlier series of a pair on the left.
pub open spec fn table(g: Seq<SeriesView>) -> Seq<CorrelationView> {
    if g.len() == 0 {
        Seq::empty()
    } else {
        table_upto(g, g.len() - 1, g.len() as int)
    }
}

/// The mapping `m` with the coefficients `values` filled in, entry by entry, each clamped
/// to the interval from -1 to 1.
pub open spec fn resolved(m: Seq<CorrelationView>, values: Seq<Scalar>) -> Seq<CorrelationView> {
    Seq::new(
        m.len(),
        |k: int| CorrelationView { coefficient: Some(values[k].clamped_signed()), ..m[k] },
    )
}

/// Whether every coefficient that `m` holds lies in the interval from -1 to 1.
pub open spec fn coefficients_in_range(m: Seq<CorrelationView>) -> bool {
    forall|k: int|
        0 <= k < m.len() && (#[trigger] m[k]).coefficient is Some
            ==> m[k].coefficient->0.in_signed_unit_interval()
}

/// The mapping `m` without its coefficients.
pub open spec fn unresolved(m: Seq<CorrelationView>) -> Seq<CorrelationView> {
    Seq::new(m.len(), |k: int| CorrelationView { coefficient: None, ..m[k] })
}

/// Whether no two entries of `m` have the same key.
pub open spec fn distinct_keys(m: Seq<CorrelationView>) -> bool {
    forall|a: int, b: int| 0 <= a < b < m.len() ==> (#[trigger] m[a]).key != (#[trigger] m[b]).key
}

/// Whether `e` is the entry of two series of `g` that qualify, the earlier on the left.
pub open spec fn is_pairing_in(g: Seq<SeriesView>, e: CorrelationView) -> bool {
    exists|a: int, b: int|
        0 <= a < b < g.len() && qualifies(g[a], g[b]) && e == #[trigger] pairing(g[a], g[b])
}

/// Whether the two series of an entry have one length, which is at least `MIN_SAMPLES`,
/// and its coefficient is yet to be taken.
pub open spec fn fresh(e: CorrelationView) -> bool {
    e.left.len() == e.right.len() && e.left.len() >= MIN_SAMPLES && e.coefficient is None
}

/// Whether every entry of `m` is fresh.
pub open spec fn all_fresh(m: Seq<CorrelationView>) -> bool {
    forall|k: int| 0 <= k < m.len() ==> fresh(#[trigger] m[k])
}

/// Where `position` points there is the first entry with the key, and where it points
/// past the end there is none.
pub proof fn lemma_position(m: Seq<CorrelationView>, key: Seq<char>)
    ensures
        0 <= position(m, key) <= m.len(),
        position(m, key) < m.len() ==> m[position(m, key)].key == key,
        forall|k: int| 0 <= k < position(m, key) ==> (#[trigger] m[k]).key != key,
        position(m, key) < m.len() <==> has_key(m, key),
    decreases m.len(),
{
    if m.len() > 0 && m[0].key != key {
        let rest = m.drop_first();
        lemma_position(rest, key);
        assert forall|k: int| 0 <= k < position(m, key) implies (#[trigger] m[k]).key != key by {
            if k > 0 {
                assert(m[k] == rest[k - 1]);
            }
        }
    }
}

/// Storing an entry keeps every key that was there and adds its own, and no other.
pub proof fn lemma_upsert_keys(m: Seq<CorrelationView>, e: CorrelationView, key: Seq<char>)
    ensures
        has_key(upsert(m, e), key) <==> has_key(m, key) || key == e.key,
{
    lemma_position(m, e.key);
    let k = position(m, e.key);
    let after = upsert(m, e);
    if has_key(m, key) {
        let at = choose|at: int| 0 <= at < m.len() && (#[trigger] m[at]).key == key;
        assert(after[at].key == key);
    }
    if key == e.key && k >= m.len() {
        assert(after[m.len() as int].key == key);
    }
    if has_key(after, key) && key != e.key {
        let at = choose|at: int| 0 <= at < after.len() && (#[trigger] after[at]).key == key;
        assert(m[at].key == key);
    }
}

/// Storing a fresh entry in a mapping of fresh entries with distinct keys gives such a
/// mapping again.
pub proof fn lemma_upsert_sound(m: Seq<CorrelationView>, e: CorrelationView)
    requires
        distinct_keys(m),
        all_fresh(m),
        fresh(e),
    ensures
        distinct_keys(upsert(m, e)),
        all_fresh(upsert(m, e)),
{
    lemma_position(m, e.key);
    let k = position(m, e.key);
    let after = upsert(m, e);
    assert forall|a: int, b: int| 0 <= a < b < after.len() implies (#[trigger] after[a]).key != (
    #[trigger] after[b]).key by {
        if k < m.len() {
            assert(after[a].key == m[a].key && after[b].key == m[b].key);
        }
    }
}

/// What holds of the mapping at every step of its making: no key occurs twice, every entry
/// is fresh and is the entry of a pair that qualifies.
proof fn lemma_table_upto_sound(g: Seq<SeriesView>, i: int, j: int)
    ensures
        distinct_keys(table_upto(g, i, j)),
        all_fresh(table_upto(g, i, j)),
        forall|k: int|
            0 <= k < table_upto(g, i, j).len() ==> is_pairing_in(g, #[trigger] table_upto(g, i, j)[k]),
    decreases i, j,
{
    if 0 <= i < j <= g.len() {
        if j > i + 1 {
            lemma_table_upto_sound(g, i, j - 1);
            if qualifies(g[i], g[j - 1]) {
                let before = table_upto(g, i, j - 1);
                let e = pairing(g[i], g[j - 1]);
                lemma_upsert_sound(before, e);
                lemma_position(before, e.key);
                assert forall|k: int| 0 <= k < upsert(before, e).len() implies is_pairing_in(
                    g,
                    #[trigger] upsert(before, e)[k],
                ) by {
                    if k < before.len() && k != position(before, e.key) {
                        assert(upsert(before, e)[k] == before[k]);
                    } else {
                        assert(upsert(before, e)[k] == e);
                    }
                }
            }
        } else if i > 0 {
            lemma_table_upto_sound(g, i - 1, g.len() as int);
        }
    }
}

/// A pair that qualifies and comes before `(i, j)` has its key in the mapping made up to
/// `(i, j)`.
proof fn lemma_table_upto_complete(g: Seq<SeriesView>, i: int, j: int, a: int, b: int)
    requires
        0 <= i < j <= g.len(),
        0 <= a < b < g.len(),
        a < i || (a == i && b < j),
        qualifies(g[a], g[b]),
    ensures
        has_key(table_upto(g, i, j), pair_key(g[a].label, g[b].label)),
    decreases i, j,
{
    let key = pair_key(g[a].label, g[b].label);
    if j > i + 1 {
        let before = table_upto(g, i, j - 1);
        if a == i && b == j - 1 {
            lemma_upsert_keys(before, pairing(g[i], g[j - 1]), key);
        } else {
            lemma_table_upto_complete(g, i, j - 1, a, b);
            if qualifies(g[i], g[j - 1]) {
                lemma_upsert_keys(before, pairing(g[i], g[j - 1]), key);
            }
        }
    } else {
        lemma_table_upto_complete(g, i - 1, g.len() as int, a, b);
    }
}

/// In the correlation mapping of any series no key occurs twice, and every entry holds
/// two series of one length, which is at least `MIN_SAMPLES`, and no coefficient yet.
pub proof fn lemma_table_sound(g: Seq<SeriesView>)
    ensures
        distinct_keys(table(g)),
        all_fresh(table(g)),
{
    if g.len() > 0 {
        lemma_table_upto_sound(g, g.len() - 1, g.len() as int);
    }
}

/// Every entry of the correlation mapping is the entry of two of the series that
/// qualify, the earlier of the two on the left.
pub proof fn lemma_table_holds_pairs_only(g: Seq<SeriesView>, k: int)
    requires
        0 <= k < table(g).len(),
    ensures
        is_pairing_in(g, table(g)[k]),
{
    lemma_table_upto_sound(g, g.len() - 1, g.len() as int);
}

/// Every two of the series that qualify have their key in the correlation mapping.
pub proof fn lemma_table_has_every_pair(g: Seq<SeriesView>, a: int, b: int)
    requires
        0 <= a < b < g.len(),
        qualifies(g[a], g[b]),
    ensures
        has_key(table(g), pair_key(g[a].label, g[b].label)),
{
    if b < g.len() - 1 || a < g.len() - 1 {
        lemma_table_upto_complete(g, g.len() - 1, g.len() as int, a, b);
    }
}

/// A key parts into the two labels that it was made of, where neither label holds the
/// separator.
pub proof fn lemma_key_parts_into_its_labels(left: Seq<char>, right: Seq<char>)
    requires
        !left.contains(KEY_SEPARATOR),
        !right.contains(KEY_SEPARATOR),
    ensures
        pieces(pair_key(left, right), KEY_SEPARATOR) == seq![left, right],
{
    lemma_pieces_of_plain(left, KEY_SEPARATOR);
    lemma_pieces_after_separator(left, right, KEY_SEPARATOR);
}

/// A mapping of fresh entries has no coefficient to lose, and filling in coefficients
/// changes nothing else.
pub proof fn lemma_unresolved(m: Seq<CorrelationView>, values: Seq<Scalar>)
    ensures
        all_fresh(m) ==> unresolved(m) == m,
        all_fresh(m) ==> coefficients_in_range(m),
        unresolved(resolved(m, values)) == unresolved(m),
{
    if all_fresh(m) {
        assert(unresolved(m) =~= m);
    }
    assert(unresolved(resolved(m, values)) =~= unresolved(m));
}

/// Whatever the values are, every coefficient that is filled in lies in the interval from
/// -1 to 1: none is a NaN, and none is outside.
pub proof fn lemma_resolved_in_range(m: Seq<CorrelationView>, values: Seq<Scalar>)
    ensures
        coefficients_in_range(resolved(m, values)),
        forall|k: int|
            0 <= k < m.len() && (#[trigger] values[k]).in_signed_unit_interval() ==> resolved(
                m,
                values,
            )[k].coefficient == Some(values[k]),
{
}

/// Where the first entry with `key` stands.
fn find_key(m: &Vec<Correlation>, key: &String) -> (k: usize)
    ensures
        k == position(m.deep_view(), key@),
        k <= m@.len(),
{
    let mut k: usize = 0;
    assert(m.deep_view().skip(0) =~= m.deep_view());
    while k < m.len()
        invariant
            k <= m@.len(),
            position(m.deep_view(), key@) == k + position(m.deep_view().skip(k as int), key@),
        decreases m@.len() - k,
    {
        let ghost rest = m.deep_view().skip(k as int);
        assert(rest.drop_first() =~= m.deep_view().skip(k + 1));
        if m[k].key == *key {
            return k;
        }
        k += 1;
    }
    k
}

/// Stores `e` under its key.
fn store(m: &mut Vec<Correlation>, e: Correlation)
    ensures
        final(m).deep_view() == upsert(old(m).deep_view(), e@),
{
    let k: usize = find_key(m, &e.key);
    if k < m.len() {
        m[k] = e;
    } else {
        m.push(e);
    }
}

/// The first `n` values of `v`.
fn prefix(v: &Vec<Scalar>, n: usize) -> (r: Vec<Scalar>)
    requires
        n <= v@.len(),
    ensures
        r@ == v@.take(n as int),
{
    let mut out: Vec<Scalar> = Vec::new();
    let mut i: usize = 0;
    while i < n
        invariant
            i <= n <= v@.len(),
            out@ == v@.take(i as int),
        decreases n - i,
    {
        out.push(v[i]);
        i += 1;
    }
    out
}

/// The entry for a pair of series.
fn pair(a: &ContextSeries, b: &ContextSeries) -> (r: Correlation)
    ensures
        r@ == pairing(a@, b@),
{
    let n: usize = if a.values.len() <= b.values.len() {
        a.values.len()
    } else {
        b.values.len()
    };
    proof {
        reveal_strlit(":");
    }
    let key: String = a.label.clone().concat(":").concat(b.label.as_str());
    assert(key@ =~= pair_key(a@.label, b@.label));
    Correlation { key, left: prefix(&a.values, n), right: prefix(&b.values, n), coefficient: None }
}

/// The correlation mapping of the series `g`.
pub fn pair_table(g: &Vec<ContextSeries>) -> (r: Vec<Correlation>)
    ensures
        r.deep_view() == table(g.deep_view()),
{
    let n: usize = g.len();
    let mut out: Vec<Correlation> = Vec::new();
    let mut i: usize = 0;
    while i < n
        invariant
            n == g@.len(),
            i <= n,
            out.deep_view() == if i > 0 {
                table_upto(g.deep_view(), i - 1, n as int)
            } else {
                Seq::<CorrelationView>::empty()
            },
        decreases n - i,
    {
        let mut j: usize = i + 1;
        while j < n
            invariant
                n == g@.len(),
                i < j <= n,
                out.deep_view() == table_upto(g.deep_view(), i as int, j as int),
            decreases n - j,
        {
            if g[i].values.len() >= MIN_SAMPLES && g[j].values.len() >= MIN_SAMPLES {
                let e: Correlation = pair(&g[i], &g[j]);
                store(&mut out, e);
            }
            j += 1;
        }
        i += 1;
    }
    out
}

} // verus!
