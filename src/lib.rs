//! Non-Axiomatic Logic: evidential truth values, the truth-function calculus,
//! the Narsese sentence grammar and syllogistic rewriting.
pub mod memory;
pub mod nal;
