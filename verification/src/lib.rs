//! A small expression language whose values may at once be plain data and
//! functions: the same call syntax works whether an operand is a raw value
//! or a function still owed arguments. At each call site an
//! arity-reconciling unifier decides whether an argument already fits the
//! expected parameter type or differs from it only by curry layers, and
//! the evaluator then lifts plain values into constant functions or
//! curries functions across the gap so the call still goes through.
//!
//! The pieces, leaves first: mutable type cells held in an arena
//! (`ir::cell`), the unifier over them, the runtime value model with its
//! synthesized wrappers (`ir::rt`), the combined type-check-and-evaluate
//! pass (`ir`), the lowering of surface trees into the intermediate form
//! (`context`), and the lexer and recursive-descent parser of the surface
//! syntax (`parser`).

pub mod ast;
pub mod context;
pub mod error;
pub mod ir;
pub mod parser;
