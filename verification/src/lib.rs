//! The evaluation core of a lazy configuration language with record merging.
//!
//! A program is a term ([`term`]). Evaluation reduces it call-by-need to weak
//! head normal form ([`eval`]) or in full ([`full`]), merging records and
//! values by priority on the way ([`merge`]); imports are resolved before
//! ([`import_resolution`]), and variables can be replaced by what they are
//! bound to ([`subst`]).
//!
//! What evaluation means is given once, as an abstract machine over the
//! views of terms ([`semantics`]). The executable functions are proved to
//! compute exactly what the machine gives, and [`laws`] holds what is proved
//! of the machine itself: that it is deterministic, that a thunk is
//! evaluated at most once, that metadata is transparent, and more.
//!
//! Suspended computations live in a [`environment::Store`], which the caller
//! owns and hands to each evaluation; environments bind names to handles
//! into it. Evaluation is bounded by a number of steps, so that every
//! function returns.
pub mod environment;
pub mod error;
pub mod eval;
pub mod full;
pub mod identifier;
pub mod import_resolution;
pub mod label;
pub mod laws;
pub mod merge;
pub mod number;
pub mod position;
pub mod program;
pub mod resolvers;
pub mod semantics;
pub mod shared;
pub mod subst;
pub mod term;
