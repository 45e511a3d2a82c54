//! Semantic analysis for a small scripting language.
//!
//! The crate walks a parsed syntax tree once and produces a list of
//! diagnostics together with a scope-aware table of every declaration in
//! the document. The table answers visibility and completion queries by
//! position, distinguishing hoisted function declarations from
//! sequentially visible variables.

pub mod analyzer;
pub mod ast;
pub mod builtins;
pub mod declarations;
pub mod diagnostic;
pub mod position;
pub mod tree;
