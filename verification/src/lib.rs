//! Core of a Scheme-to-C compiler frontend: a pipeline of IR-to-IR
//! transformations (builtin resolution, currying, body sequencing, CPS
//! conversion), environment resolution, lambda lifting, and emission of a
//! C translation-unit AST.

pub mod c_ast;
pub mod codegen;
pub mod nodes;
pub mod numerals;
pub mod transform;
