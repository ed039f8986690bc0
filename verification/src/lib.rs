//! Type checking and lowering to SSA bytecode for a small statically-typed
//! language, with the scoping, interning and lookup structures it rests on.

pub mod scoped_locals;
pub mod span;
pub mod types;
pub mod ast;
pub mod intern;
pub mod ir;
pub mod symbol_table;
pub mod diagnostic;
pub mod checker;
pub mod lower;
