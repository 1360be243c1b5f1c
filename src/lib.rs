//! Dead-code analysis for JavaScript and TypeScript projects: import
//! reachability, name-global export liveness and declared-package usage.

pub mod ast;
pub mod graph;
pub mod parser;
pub mod pipeline;
pub mod rules;
pub mod specifier;
pub mod config;
pub mod error;
pub mod scanner;
