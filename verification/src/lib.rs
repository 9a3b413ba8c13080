//! The code-generation core of a bytecode compiler for a dynamically typed
//! scripting language.
//!
//! A resolved syntax tree is lowered into linear instructions for a virtual
//! machine whose frame is a stack of slots. The pieces, leaves first:
//!
//! * [`slab::Slab`] recycles slot indices;
//! * [`scopes::Scopes`] maps variable names to slots, one layer per lexical
//!   scope;
//! * [`loops::Loops`] tracks the loops that are being compiled, with their
//!   labels, their targets and the jumps out of them that still wait for an
//!   address;
//! * [`assemble::Ctxt`] walks the tree and emits the instructions;
//! * [`compile::compile_function`] compiles the body of a function.
//!
//! What the assembler does is written down twice: as the program that does
//! it, and, in [`model`], as functions on the mathematical state of an
//! assembler. The program is proved to do what the functions say. On top of
//! that it is proved that compiling an expression changes the depth of the
//! stack by exactly what is needed, that no slot is handed out while it is in
//! use, and, in [`settle`], that every jump of a compiled function has a
//! target within the function.
pub mod assemble;
pub mod ast;
pub mod compile;
pub mod error;
pub mod inst;
pub mod loops;
pub mod model;
pub mod scopes;
pub mod settle;
pub mod slab;

pub use crate::assemble::{Ctxt, Function, Needs};
pub use crate::compile::compile_function;
pub use crate::error::CompileError;
pub use crate::loops::{Loop, Loops};
pub use crate::scopes::{Layer, Scopes, Var};
pub use crate::slab::Slab;
