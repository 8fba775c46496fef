//! Semantic analysis of architecture and deployment declarations: symbol tables,
//! name resolution and the checkers over declarations, jobs and module graphs.

pub mod ast;
pub mod checker;
pub mod codegen;
pub mod deploy;
pub mod diagnostic;
pub mod diff_impl;
pub mod graph;
pub mod imports;
pub mod manifest;
pub mod order;
pub mod package;
pub mod parser;
pub mod project;
pub mod project_checker;
pub mod resolve;
pub mod symbol;
pub mod text;
