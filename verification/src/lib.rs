//! Groups rhythm-game charts into rating buckets, reconciles each chart
//! against a prior-version rating feed, and orders each bucket
//! deterministically for emission as delimited text.
#![verifier::loop_isolation(false)]

pub mod model;
pub mod catalog;
pub mod bucket;
pub mod deletion;
pub mod emit;
pub mod normalize;
pub mod order;
pub mod pipeline;
pub mod prev;
