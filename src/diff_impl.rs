//! Drift between declarations and source code: the values that describe it.
pub mod types;
