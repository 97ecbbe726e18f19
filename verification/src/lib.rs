//! A rolling field of observations: a bounded window of recent samples per context, the
//! pairs of contexts whose samples are to be correlated, and the rules that shape a
//! probability estimate for a context.
//!
//! Numbers are carried as bit patterns (see `scalar`). The library decides which numbers
//! enter a computation and in which order; the arithmetic on them is the caller's.

pub mod ambient;
pub mod api;
pub mod correlation;
pub mod estimate;
pub mod field;
pub mod rule;
pub mod scalar;
pub mod series;
pub mod source;
pub mod split;
pub mod text;
