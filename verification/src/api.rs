//! The operations that the library offers to a serving layer: taking in an observation,
//! answering a query, and making a rule from a request.

use crate::ambient::{is_hex_token, is_uuid_text};
use crate::correlation::{
    all_fresh, distinct_keys, lemma_key_parts_into_its_labels, pair_key, table, CorrelationView,
    KEY_SEPARATOR,
};
use crate::series::groups;
use crate::estimate::{estimate_of, Estimate};
use crate::field::{answerable, applied_if_seen, window, FieldState, WINDOW};
use crate::rule::{Rule, RuleEngine, RuleType, RuleView};
use crate::scalar::Scalar;
use crate::source::Source;
use crate::split::Split;
use crate::text::{contains, occurs_in, pieces, same_text, split};
use vstd::prelude::*;

verus! {

/// Pattern of `0.7`, the confidence that every answer carries.
pub const CONFIDENCE_BITS: u64 = 0x3FE6_6666_6666_6666;

/// A request to take in an observation for a context.
#[derive(Clone, Debug)]
pub struct SplitRequest {
    pub context: String,
}

/// The identifier and the value of the observation that was taken in.
#[derive(Clone, Debug)]
pub struct SplitResponse {
    pub split_id: String,
    pub value: Scalar,
}

/// A request for the probability of a context.
#[derive(Clone, Debug)]
pub struct QueryRequest {
    pub context: String,
}

/// The answer to a query: what the probability rests on, the confidence in it, and the
/// contexts that are correlated with the one asked for.
#[derive(Clone, Debug)]
pub struct QueryResponse {
    pub estimate: Estimate,
    pub confidence: Scalar,
    pub correlated_contexts: Vec<String>,
}

/// A request to register a rule.
#[derive(Clone, Debug)]
pub struct RuleRequest {
    pub name: String,
    pub rule_type: String,
    pub contexts: Vec<String>,
    pub strength: Scalar,
}

/// The predicate that holds of every text but `context`.
pub open spec fn differs_from(context: Seq<char>) -> spec_fn(Seq<char>) -> bool {
    |piece: Seq<char>| piece != context
}

/// The pieces of `key` between its colons that are not `context`, in order.
pub open spec fn other_labels(key: Seq<char>, context: Seq<char>) -> Seq<Seq<char>> {
    pieces(key, KEY_SEPARATOR).filter(differs_from(context))
}

/// Whether an entry of the mapping speaks for `context`: its key holds the text of the
/// context, and its coefficient is known and greater than one half in absolute value.
pub open spec fn speaks_for(e: CorrelationView, context: Seq<char>) -> bool {
    &&& occurs_in(e.key, context)
    &&& e.coefficient is Some
    &&& e.coefficient->0.magnitude_exceeds_half()
}

/// The labels correlated with `context`: for each entry of `m` that speaks for the
/// context, in the order of `m`, the other labels of its key.
pub open spec fn correlated(m: Seq<CorrelationView>, context: Seq<char>) -> Seq<Seq<char>>
    decreases m.len(),
{
    if m.len() == 0 {
        Seq::empty()
    } else {
        let before = correlated(m.drop_last(), context);
        if speaks_for(m.last(), context) {
            before + other_labels(m.last().key, context)
        } else {
            before
        }
    }
}

/// The key of a pair of two different labels, neither of which holds the separator, gives
/// for each of the two the other one, and nothing else.
pub proof fn lemma_other_label_of_a_pair(left: Seq<char>, right: Seq<char>)
    requires
        !left.contains(KEY_SEPARATOR),
        !right.contains(KEY_SEPARATOR),
        left != right,
    ensures
        other_labels(pair_key(left, right), left) == seq![right],
        other_labels(pair_key(left, right), right) == seq![left],
{
    lemma_key_parts_into_its_labels(left, right);
    reveal_with_fuel(Seq::filter, 3);
    let both = seq![left, right];
    assert(both.drop_last() =~= seq![left]);
    assert(seq![left].drop_last() =~= Seq::<Seq<char>>::empty());
    assert(both.filter(differs_from(left)) =~= seq![right]);
    assert(both.filter(differs_from(right)) =~= seq![left]);
}

/// The pieces of `key` that are not `context`.
fn labels_besides(key: &str, context: &str) -> (r: Vec<String>)
    ensures
        r.deep_view() == other_labels(key@, context@),
{
    let parts: Vec<String> = split(key, KEY_SEPARATOR);
    let ghost all = parts.deep_view();
    let mut out: Vec<String> = Vec::new();
    let mut j: usize = 0;
    proof {
        reveal(Seq::filter);
    }
    while j < parts.len()
        invariant
            all == parts.deep_view(),
            j <= parts@.len(),
            out.deep_view() == all.take(j as int).filter(differs_from(context@)),
        decreases parts@.len() - j,
    {
        proof {
            assert(all.take(j + 1) =~= all.take(j as int).push(all[j as int]));
            all.take(j as int).lemma_filter_push(all[j as int], differs_from(context@));
        }
        if !same_text(parts[j].as_str(), context) {
            out.push(parts[j].clone());
        }
        j += 1;
    }
    assert(all.take(j as int) =~= all);
    out
}

/// The contexts that the field holds to be correlated with `context`.
pub fn correlated_contexts(field: &FieldState, context: &str) -> (r: Vec<String>)
    ensures
        r.deep_view() == correlated(field@.correlations, context@),
{
    let ghost all = field@.correlations;
    let mut out: Vec<String> = Vec::new();
    let mut i: usize = 0;
    while i < field.correlations.len()
        invariant
            all == field@.correlations,
            i <= field.correlations@.len(),
            out.deep_view() == correlated(all.take(i as int), context@),
        decreases field.correlations@.len() - i,
    {
        let entry = &field.correlations[i];
        assert(all.take(i + 1).drop_last() =~= all.take(i as int));
        let strong: bool = match entry.coefficient {
            Some(c) => c.exceeds_half(),
            None => false,
        };
        if strong && contains(entry.key.as_str(), context) {
            let mut others: Vec<String> = labels_besides(entry.key.as_str(), context);
            out.append(&mut others);
        }
        i += 1;
    }
    assert(all.take(i as int) =~= all);
    out
}

/// Takes in an observation of `value` for the context of the request, made by `source`:
/// the observation goes to the end of the window under a fresh identifier, and the
/// correlation mapping is built anew from the window. The reply names the observation.
pub fn create_split(req: &SplitRequest, source: &Source, field: &mut FieldState, value: Scalar) -> (r:
    SplitResponse)
    ensures
        r.value == value,
        is_hex_token(r.split_id@),
        final(field)@.splits.len() >= 1,
        final(field)@.splits.last().split_id == r.split_id@,
        final(field)@.splits.last().source_id == source@.id,
        final(field)@.splits.last().context == req.context@,
        final(field)@.splits.last().value == value,
        final(field)@.splits == window(old(field)@.splits.push(final(field)@.splits.last())),
        final(field)@.splits.len() <= WINDOW,
        final(field)@.correlations == table(groups(final(field)@.splits)),
        final(field)@.well_formed(),
        distinct_keys(final(field)@.correlations),
        all_fresh(final(field)@.correlations),
{
    let split: Split = Split::new(source.id.as_str(), req.context.as_str(), value);
    let split_id: String = split.split_id.clone();
    field.add_split(split);
    SplitResponse { split_id, value }
}

/// Answers a query for the context of the request.
pub fn query(req: &QueryRequest, field: &FieldState, rule_engine: &mut RuleEngine) -> (r:
    QueryResponse)
    requires
        answerable(field@.splits, old(rule_engine)@, req.context@),
    ensures
        r.estimate@ == estimate_of(field@.splits, old(rule_engine)@, req.context@),
        final(rule_engine)@ == applied_if_seen(field@.splits, old(rule_engine)@, req.context@),
        r.confidence.bits == CONFIDENCE_BITS,
        r.correlated_contexts.deep_view() == correlated(field@.correlations, req.context@),
{
    let estimate: Estimate = field.query_probability(req.context.as_str(), rule_engine);
    let correlated_contexts: Vec<String> = correlated_contexts(field, req.context.as_str());
    QueryResponse { estimate, confidence: Scalar { bits: CONFIDENCE_BITS }, correlated_contexts }
}

/// Makes the rule that a request describes, under a fresh identifier.
pub fn register_rule(req: RuleRequest) -> (r: Rule)
    ensures
        is_uuid_text(r@.id),
        r@ == (RuleView {
            id: r@.id,
            name: req.name@,
            rule_type: RuleType::of_tag(req.rule_type@),
            contexts: req.contexts.deep_view(),
            strength: req.strength,
            condition: None,
            decay: None,
            active: true,
            times_applied: 0,
        }),
{
    let rule_type: RuleType = RuleType::from_tag(req.rule_type.as_str());
    Rule::new(req.name.as_str(), rule_type, req.contexts, req.strength)
}

} // verus!
