//! What the answer to a query rests on, and the last step from there to a probability.

use crate::rule::{applicable, transforms, RuleView, Transform};
use crate::scalar::Scalar;
use crate::series::recent;
use crate::split::SplitView;
use vstd::prelude::*;

verus! {

/// What the answer to a query rests on. The arithmetic itself is the caller's: the mean of
/// the samples, then one step for each transform, each step taking what the step before
/// gave.
#[derive(Clone, Debug)]
pub enum Estimate {
    /// The context has no observation in the field: the answer is a number drawn
    /// uniformly from the interval from 0 to 1, without 1.
    Unseen,
    /// The latest samples of the context, newest first, and the arithmetic of the rules
    /// that apply to it, in the order of the engine.
    Weighted { samples: Vec<Scalar>, transforms: Vec<Transform> },
}

/// What an estimate holds, as mathematical values.
pub enum EstimateView {
    Unseen,
    Weighted { samples: Seq<Scalar>, transforms: Seq<Transform> },
}

impl EstimateView {
    /// The probability, given the number `raw` that the arithmetic or the draw came to:
    /// the draw as it is, the outcome of the arithmetic clamped to the interval from 0 to 1.
    pub open spec fn settle(self, raw: Scalar) -> Scalar {
        match self {
            EstimateView::Unseen => raw,
            EstimateView::Weighted { .. } => raw.clamped(),
        }
    }
}

impl View for Estimate {
    type V = EstimateView;

    open spec fn view(&self) -> EstimateView {
        match self {
            Estimate::Unseen => EstimateView::Unseen,
            Estimate::Weighted { samples, transforms } => EstimateView::Weighted {
                samples: samples@,
                transforms: transforms@,
            },
        }
    }
}

/// What the answer to a query for `context` rests on, given the observations `s` and the
/// rules `rules`.
pub open spec fn estimate_of(s: Seq<SplitView>, rules: Seq<RuleView>, context: Seq<char>) -> EstimateView {
    if recent(s, context).len() == 0 {
        EstimateView::Unseen
    } else {
        EstimateView::Weighted {
            samples: recent(s, context),
            transforms: transforms(applicable(rules, context)),
        }
    }
}

/// The probability lies in the interval from 0 to 1, whatever the history and the rules
/// were and whatever number the arithmetic came to; for a context without a sample it is
/// the draw, which its source takes from that interval.
pub proof fn lemma_probability_in_unit_interval(e: EstimateView, raw: Scalar)
    requires
        e is Unseen ==> raw.in_half_open_unit_interval(),
    ensures
        e.settle(raw).in_unit_interval(),
{
}

/// The answer to a query lies in the interval from 0 to 1 for every history, every set of
/// rules with whatever strengths, and every context, whatever number the arithmetic came
/// to; for a context without a sample it is the draw, which its source takes from that
/// interval.
pub proof fn lemma_answer_in_unit_interval(
    s: Seq<SplitView>,
    rules: Seq<RuleView>,
    context: Seq<char>,
    raw: Scalar,
)
    requires
        recent(s, context).len() == 0 ==> raw.in_half_open_unit_interval(),
    ensures
        estimate_of(s, rules, context).settle(raw).in_unit_interval(),
{
}

impl Estimate {
    /// Turns the number that the caller's arithmetic or draw came to into the probability.
    pub fn probability(&self, raw: Scalar) -> (p: Scalar)
        ensures
            p == self@.settle(raw),
            self@ is Weighted ==> p.in_unit_interval(),
            self@ is Unseen && raw.in_half_open_unit_interval() ==> p.in_half_open_unit_interval(),
    {
        match self {
            Estimate::Unseen => raw,
            Estimate::Weighted { .. } => raw.clamp_unit(),
        }
    }
}

} // verus!
