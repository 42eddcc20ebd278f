//! A coverage-guided fuzzing core: observers collect per-run signals, a
//! feedback tree judges each run, and stages drive mutation of the corpus.
use vstd::prelude::*;

pub mod cmp;
pub mod codec;
pub mod corpus;
pub mod error;
pub mod executors;
pub mod feedbacks;
pub mod fuzzer;
pub mod metadata;
pub mod mutators;
pub mod observers;
pub mod rands;
pub mod stages;
pub mod state;

verus! {

} // verus!
