//! The Deploy IR: jobs, targets, secrets and gates, and their checker.
pub mod ast;
pub mod checker;
