//! A template language engine: template source is parsed once into a
//! position-annotated syntax tree, which can then be rendered repeatedly
//! against structured input data.
//!
//! The engine is split into a value model ([`convert`]), a recursive-descent
//! parser ([`parser`]), a scope/memoization stack ([`memory`]), a data-source
//! model ([`data`]), and a tree-walking evaluator ([`compiler`]) with its
//! built-in block helpers ([`default_helpers`]). The module [`semantics`]
//! holds the mathematical model of evaluation that the executable code is
//! verified against, and [`laws`] states and proves the engine's general
//! properties.
#![verifier::loop_isolation(false)]

pub mod error;
pub mod convert;
pub mod memory;
pub mod data;
pub mod parser;
pub mod semantics;
pub mod compiler;
pub mod default_helpers;
pub mod transpiler;
pub mod laws;
