//! One observation: a context label, a value, and where and when it was made.

use crate::ambient::{is_hex_token, now_seconds, random_token, seeded_token, seeded_token_text};
use crate::scalar::Scalar;
use vstd::prelude::*;

verus! {

/// An observation. It is made once and never changed.
#[derive(Clone, Debug)]
pub struct Split {
    pub split_id: String,
    pub source_id: String,
    pub context: String,
    pub value: Scalar,
    pub timestamp: i64,
}

/// What an observation holds, as mathematical values.
pub struct SplitView {
    pub split_id: Seq<char>,
    pub source_id: Seq<char>,
    pub context: Seq<char>,
    pub value: Scalar,
    pub timestamp: i64,
}

impl View for Split {
    type V = SplitView;

    open spec fn view(&self) -> SplitView {
        SplitView {
            split_id: self.split_id@,
            source_id: self.source_id@,
            context: self.context@,
            value: self.value,
            timestamp: self.timestamp,
        }
    }
}

impl DeepView for Split {
    type V = SplitView;

    open spec fn deep_view(&self) -> SplitView {
        self@
    }
}

impl Split {
    /// The observation of `value` for `context`, made by the source `source_id` at the time
    /// `timestamp`, under the identifier `split_id`.
    pub fn assemble(split_id: String, source_id: &str, context: &str, value: Scalar, timestamp: i64) -> (r:
        Split)
        ensures
            r@ == (SplitView {
                split_id: split_id@,
                source_id: source_id@,
                context: context@,
                value,
                timestamp,
            }),
    {
        Split {
            split_id,
            source_id: source_id.to_owned(),
            context: context.to_owned(),
            value,
            timestamp,
        }
    }

    /// Records `value` for `context` on behalf of the source `source_id`, under a fresh
    /// random identifier and the current time.
    pub fn new(source_id: &str, context: &str, value: Scalar) -> (r: Split)
        ensures
            r@.source_id == source_id@,
            r@.context == context@,
            r@.value == value,
            is_hex_token(r@.split_id),
    {
        Split::assemble(random_token(), source_id, context, value, now_seconds())
    }

    /// As `new`, but with the identifier that the generator seeded with `seed` yields
    /// first, so that equal seeds give equal identifiers.
    pub fn from_source_with_seed(source_id: &str, context: &str, seed: u64, value: Scalar) -> (r:
        Split)
        ensures
            r@.source_id == source_id@,
            r@.context == context@,
            r@.value == value,
            r@.split_id == seeded_token_text(seed),
            is_hex_token(r@.split_id),
    {
        Split::assemble(seeded_token(seed), source_id, context, value, now_seconds())
    }
}

} // verus!
