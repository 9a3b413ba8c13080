//! What can be wrong with a program that is handed to the assembler.
use crate::ast::Span;
use vstd::prelude::*;

verus! {

/// A reason for which no code is generated for a function. Each carries the
/// span of the source text that is at fault.
#[derive(Clone, Debug, PartialEq, Eq)]
pub enum CompileError {
    /// A variable is used that no enclosing scope of the function declares.
    UnresolvedVariable { name: String, span: Span },
    /// A loop carries a label that an enclosing loop already carries.
    DuplicateLabel { label: String, span: Span },
    /// `break` outside of every loop.
    BreakOutsideLoop { span: Span },
    /// `continue` outside of every loop.
    ContinueOutsideLoop { span: Span },
    /// `break` or `continue` with a label that no enclosing loop carries.
    UnknownLabel { label: String, span: Span },
    /// A tuple pattern against a tuple of another length.
    PatternArityMismatch { span: Span },
}

} // verus!
