//! A small embeddable stack machine with first-class closures.
//!
//! The machine executes over a dynamically typed value model: strings,
//! numbers, lists, trees (string-keyed maps), functions, errors and an
//! explicit absent value.  Every value lives in a cell of an arena owned
//! by the machine, and a [`value::Ref`] is a handle to such a cell, so
//! several holders may alias one cell and observe mutation through it.
//! The host drives the machine through the primitive instruction set on
//! [`machine::Machine`]; function bodies are sequences of
//! [`function::Instr`] that the machine interprets against its own state.

pub mod digits;
pub mod env;
pub mod function;
pub mod laws;
pub mod machine;
pub mod value;

pub use env::Env;
pub use function::Function;
pub use function::Instr;
pub use machine::Machine;
pub use value::Ref;
pub use value::Value;
