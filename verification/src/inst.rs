//! The instructions of the virtual machine.
use crate::ast::{BinOp, Span};
use vstd::prelude::*;

verus! {

/// Where an operator finds an operand.
#[derive(Clone, Copy, Debug, PartialEq, Eq)]
pub enum Operand {
    /// On top of the stack; the operator takes it off.
    Top,
    /// In the given slot, where it stays.
    Slot(usize),
}

/// What an instruction does. A jump names the address of the instruction that
/// runs next; `None` stands for an address that is not known yet.
#[derive(Clone, Copy, Debug, PartialEq, Eq)]
pub enum InstKind {
    /// Pushes the constant with the given index in the constant pool.
    Push { constant: usize },
    /// Pushes a copy of the value in a slot.
    Copy { slot: usize },
    /// Pushes a copy of a value of the closure's environment.
    Capture { index: usize },
    /// Pushes the function with the given number.
    Function { function: u32 },
    /// Applies an operator and pushes the result.
    Op { op: BinOp, a: Operand, b: Operand },
    /// Replaces the `count` topmost values by the tuple of them.
    Tuple { count: usize },
    /// Replaces the `args` topmost values by the result of a call.
    Call { function: u32, args: usize },
    /// Replaces the `captures` topmost values by a closure that holds them.
    Closure { function: u32, captures: usize },
    /// Removes the `count` topmost values.
    Pop { count: usize },
    /// Removes the `count` values below the topmost one.
    Clean { count: usize },
    /// Goes to the target.
    Jump { target: Option<usize> },
    /// Takes the topmost value off; goes to the target if it is false.
    JumpIfNot { target: Option<usize> },
    /// Goes to the target if the topmost value is true; takes it off otherwise.
    JumpIfOrPop { target: Option<usize> },
    /// Goes to the target if the topmost value is false; takes it off otherwise.
    JumpIfNotOrPop { target: Option<usize> },
    /// Takes the topmost value off; if it is false, removes `count` more values
    /// and goes to the target.
    PopAndJumpIfNot { count: usize, target: Option<usize> },
    /// Pushes whether the value in a slot equals a constant.
    EqConst { slot: usize, constant: usize },
    /// Pushes whether the value in a slot is a tuple of `len` elements.
    IsTuple { slot: usize, len: usize },
    /// Pushes an element of the tuple in a slot.
    TupleGet { slot: usize, index: usize },
    /// Pushes the next item of the iterator in a slot, or goes to the target
    /// if there is none.
    IterNext { slot: usize, target: Option<usize> },
    /// Leaves the function with the topmost value as its result.
    Return,
}

/// An instruction, with the source text it was generated for.
#[derive(Clone, Copy, Debug, PartialEq, Eq)]
pub struct Inst {
    pub kind: InstKind,
    pub span: Span,
}

impl InstKind {
    /// Whether the instruction can go to a target.
    pub open spec fn jumps(self) -> bool {
        self is Jump || self is JumpIfNot || self is JumpIfOrPop || self is JumpIfNotOrPop
            || self is PopAndJumpIfNot || self is IterNext
    }

    /// The target of an instruction that has one.
    pub open spec fn target(self) -> Option<usize> {
        match self {
            InstKind::Jump { target } => target,
            InstKind::JumpIfNot { target } => target,
            InstKind::JumpIfOrPop { target } => target,
            InstKind::JumpIfNotOrPop { target } => target,
            InstKind::PopAndJumpIfNot { target, .. } => target,
            InstKind::IterNext { target, .. } => target,
            _ => None,
        }
    }

    /// Whether the instruction waits for its target.
    pub open spec fn pending(self) -> bool {
        self.jumps() && self.target() is None
    }

    /// Whether the target of the instruction, if it has one, is an address up
    /// to `bound`.
    pub open spec fn aims_within(self, bound: int) -> bool {
        self.target() matches Some(to) ==> to <= bound
    }

    /// The instruction with its target set, where it has one.
    pub open spec fn with_target(self, to: usize) -> InstKind {
        match self {
            InstKind::Jump { .. } => InstKind::Jump { target: Some(to) },
            InstKind::JumpIfNot { .. } => InstKind::JumpIfNot { target: Some(to) },
            InstKind::JumpIfOrPop { .. } => InstKind::JumpIfOrPop { target: Some(to) },
            InstKind::JumpIfNotOrPop { .. } => InstKind::JumpIfNotOrPop { target: Some(to) },
            InstKind::PopAndJumpIfNot { count, .. } => InstKind::PopAndJumpIfNot {
                count,
                target: Some(to),
            },
            InstKind::IterNext { slot, .. } => InstKind::IterNext { slot, target: Some(to) },
            other => other,
        }
    }

    /// Sets the target of an instruction that has one; any other instruction
    /// comes back as it is.
    pub fn set_target(self, to: usize) -> (kind: InstKind)
        ensures
            kind == self.with_target(to),
    {
        match self {
            InstKind::Jump { .. } => InstKind::Jump { target: Some(to) },
            InstKind::JumpIfNot { .. } => InstKind::JumpIfNot { target: Some(to) },
            InstKind::JumpIfOrPop { .. } => InstKind::JumpIfOrPop { target: Some(to) },
            InstKind::JumpIfNotOrPop { .. } => InstKind::JumpIfNotOrPop { target: Some(to) },
            InstKind::PopAndJumpIfNot { count, .. } => InstKind::PopAndJumpIfNot {
                count,
                target: Some(to),
            },
            InstKind::IterNext { slot, .. } => InstKind::IterNext { slot, target: Some(to) },
            other => other,
        }
    }
}

impl Inst {
    /// Whether the instruction waits for its target.
    pub open spec fn pending(self) -> bool {
        self.kind.pending()
    }

    /// The instruction with its target set, where it has one.
    pub open spec fn with_target(self, to: usize) -> Inst {
        Inst { kind: self.kind.with_target(to), span: self.span }
    }
}

} // verus!
