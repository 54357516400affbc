//! # sondamente
//!
//! Preregistered probes for philosophy-of-mind claims about language models.
//!
//! Every probe states a claim, at least two rival hypotheses about it, and
//! what each hypothesis predicts under named conditions. The validator
//! refuses probes on which no possible result could favor one hypothesis
//! over another, and the preregistration hash detects any change to a
//! probe after it was locked.
pub mod hash;
pub mod laws;
pub mod messages;
pub mod number;
pub mod rules;
pub mod run;
pub mod spec;
pub mod text;
pub mod validate;

pub use hash::spec_hash;
pub use number::Number;
pub use spec::{ProbeSpec, SPEC_VERSION};
pub use validate::{validate, Code, Diagnostic, Report, Severity};
