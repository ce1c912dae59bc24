//! A bottom-up enumerative synthesizer for small imperative expressions over
//! integers, strings and integer arrays, with observational-equivalence
//! pruning and pre-/post-condition tracking for mutating operators.
pub mod values;
pub mod cond;
pub mod program;
pub mod store;
pub mod vocab;
pub mod enumerate;
pub mod task;
pub mod synth;
pub mod code;
