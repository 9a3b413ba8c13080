//! The resolved syntax tree that the assembler consumes.
//!
//! Every node carries the span of the source text it came from, and every
//! identifier says what kind of thing it names.
use vstd::prelude::*;

verus! {

/// A range of the source text, as byte offsets.
#[derive(Clone, Copy, Debug, PartialEq, Eq, Structural)]
pub struct Span {
    pub start: u32,
    pub end: u32,
}

/// A constant value.
#[derive(Clone, Copy, Debug, PartialEq, Eq, Structural)]
pub enum Literal {
    Unit,
    Bool(bool),
    Integer(i64),
}

/// A binary operator. `And` and `Or` evaluate their right operand only when
/// the left one does not decide the result.
#[derive(Clone, Copy, Debug, PartialEq, Eq, Structural)]
pub enum BinOp {
    Add,
    Sub,
    Mul,
    Div,
    Rem,
    Eq,
    Neq,
    Lt,
    Lte,
    Gt,
    Gte,
    And,
    Or,
}

impl BinOp {
    /// Whether the operator skips its right operand when the left one decides.
    pub open spec fn short_circuits(self) -> bool {
        self == BinOp::And || self == BinOp::Or
    }

    /// Whether the operator skips its right operand when the left one decides.
    pub fn skips(&self) -> (skips: bool)
        ensures
            skips == self.short_circuits(),
    {
        match self {
            BinOp::And => true,
            BinOp::Or => true,
            _ => false,
        }
    }
}

/// What an identifier names.
#[derive(Clone, Copy, Debug, PartialEq, Eq)]
pub enum BindingKind {
    /// A variable of the function that is being compiled.
    Local,
    /// A variable of an enclosing function, reached through the closure's
    /// environment.
    Captured,
    /// A named constant, with its value.
    Constant(Literal),
    /// A function, with its number.
    Function(u32),
}

/// An expression.
#[derive(Debug)]
pub struct Expr {
    pub kind: ExprKind,
    pub span: Span,
}

#[derive(Debug)]
pub enum ExprKind {
    /// A literal constant.
    Lit(Literal),
    /// A use of a name.
    Ident { name: String, binding: BindingKind },
    /// `(a, b, ..)`
    Tuple(Vec<Expr>),
    /// `lhs op rhs`
    Binary { op: BinOp, lhs: Box<Expr>, rhs: Box<Expr> },
    /// A call of the function with the given number.
    Call { function: u32, args: Vec<Expr> },
    /// The creation of a closure over the function with the given number, whose
    /// body is compiled on its own. `captures` names the variables whose
    /// values the closure takes along.
    Closure { function: u32, captures: Vec<String> },
    /// `{ .. }`
    Block(Block),
    /// `if cond { .. } else ..`
    If { cond: Box<Expr>, then_branch: Block, else_branch: Option<Box<Expr>> },
    /// `match scrutinee { pat => body, .. }`
    Match { scrutinee: Box<Expr>, arms: Vec<Arm> },
    /// `'label: loop { .. }`
    Loop { label: Option<String>, body: Block },
    /// `'label: while cond { .. }`
    While { label: Option<String>, cond: Box<Expr>, body: Block },
    /// `'label: for var in iter { .. }`
    For { label: Option<String>, var: String, iter: Box<Expr>, body: Block },
    /// `break 'label value`
    Break { label: Option<String>, value: Option<Box<Expr>> },
    /// `continue 'label`
    Continue { label: Option<String> },
}

/// A block: statements and an optional trailing expression, which gives the
/// block its value.
#[derive(Debug)]
pub struct Block {
    pub stmts: Vec<Stmt>,
    pub tail: Option<Box<Expr>>,
    pub span: Span,
}

/// A statement of a block.
#[derive(Debug)]
pub enum Stmt {
    /// `let name = init;`
    Let { name: String, init: Expr },
    /// `expr;`
    Semi(Expr),
}

/// One arm of a `match`.
#[derive(Debug)]
pub struct Arm {
    pub pat: Pat,
    pub body: Expr,
}

/// A pattern.
#[derive(Debug)]
pub struct Pat {
    pub kind: PatKind,
    pub span: Span,
}

#[derive(Debug)]
pub enum PatKind {
    /// `_`: matches anything and binds nothing.
    Ignore,
    /// A name: matches anything and binds it.
    Binding(String),
    /// A literal: matches the values equal to it.
    Lit(Literal),
    /// `(p, q, ..)`: matches the tuples of that many elements whose elements
    /// match.
    Tuple(Vec<Pat>),
}

/// A function or closure body with its parameters. `captures` names the
/// variables of the enclosing function that a closure body may use.
#[derive(Debug)]
pub struct FnDecl {
    pub params: Vec<String>,
    pub captures: Vec<String>,
    pub body: Expr,
    pub span: Span,
}

/// The text of an optional name.
pub open spec fn name_view(name: Option<String>) -> Option<Seq<char>> {
    match name {
        Some(n) => Some(n@),
        None => None,
    }
}

/// The texts of a list of names.
pub open spec fn names_view(names: Seq<String>) -> Seq<Seq<char>> {
    names.map_values(|n: String| n@)
}

} // verus!
