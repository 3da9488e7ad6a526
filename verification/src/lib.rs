//! Longest common subsequence of two slices, and the diff that follows from it.
//!
//! [`Lcs::new`] fills a table of the lengths of the longest common
//! subsequences of all pairs of prefixes. [`Lcs::length`] reads its last cell,
//! and [`Lcs::backtrack`] walks it from the last cell back to the first to
//! produce a diff, one [`Diff`] per step.
//!
//! Elements are compared with `==` only. What the functions promise is stated
//! over [`model`], for every element type whose `==` computes its `eq_spec`.

pub mod diff;
pub mod engine;
pub mod laws;
pub mod model;

pub use crate::diff::Diff;
pub use crate::diff::Preference;
pub use crate::engine::Lcs;
