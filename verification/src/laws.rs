//! What holds of every evaluation, proved from the semantics.
//!
//! Each law is a public proof function: its doc comment states the law, its
//! `ensures` is the statement, and its body is the proof.
pub mod determinism;
pub mod evaluation;
pub mod full_evaluation;
pub mod imports;
pub mod interpolation;
pub mod memoization;
pub mod merging;
pub mod metavalues;
pub mod reduction;
pub mod substitution;
