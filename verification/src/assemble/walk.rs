//! The walk over the syntax tree: expressions, blocks and statements.
use crate::assemble::{Ctxt, Needs};
use crate::ast::{BindingKind, Block, Expr, ExprKind, Literal, Span, Stmt};
use crate::error::CompileError;
use crate::inst::{InstKind, Operand};
use crate::model::{refines, CtxtView};
use crate::scopes::Var;
use vstd::prelude::*;

verus! {

impl Ctxt {
    /// Compiles an expression.
    ///
    /// With `Needs::Value` the expression leaves exactly one value on the
    /// stack, in a slot of its own; with `Needs::Nothing` it leaves the stack
    /// as deep as it found it. Either way the variables and the loops are
    /// afterwards what they were, the instructions that were there are
    /// untouched, and no jump that was emitted is left without a target unless
    /// it is a `break` that waits for the end of a loop around the expression.
    ///
    /// Where the expression is at fault, the first fault in the order of the
    /// source text is handed back; what the assembler holds is of no use then.
    #[verifier::rlimit(50)]
    pub fn expr(&mut self, e: &Expr, needs: Needs) -> (done: Result<(), CompileError>)
        requires
            old(self).wf(),
        ensures
            refines(done, final(self)@, old(self)@.expr(*e, needs)),
            done is Ok ==> final(self).wf() && final(self)@.leaves(old(self)@, needs.count())
                && final(self)@.tidy_since(old(self)@),
            done is Ok ==> final(self)@.depth == old(self)@.depth + needs.count(),
            done is Ok && needs == Needs::Nothing ==> final(self)@.scopes == old(self)@.scopes,
        decreases e, 2nat,
    {
        let ghost pre = self@;
        proof {
            self.lemma_wf();
            pre.lemma_leaves_nothing();
            pre.lemma_settled_start(Set::empty());
        }
        let done = match &e.kind {
            ExprKind::Lit(lit) => {
                self.literal(*lit, e.span, needs);
                Ok(())
            },
            ExprKind::Ident { name, binding } => self.ident(name, *binding, e.span, needs),
            ExprKind::Tuple(items) => self.gathered(
                Ghost(*e),
                items,
                InstKind::Tuple { count: items.len() },
                e.span,
                needs,
            ),
            ExprKind::Call { function, args } => self.gathered(
                Ghost(*e),
                args,
                InstKind::Call { function: *function, args: args.len() },
                e.span,
                needs,
            ),
            ExprKind::Closure { function, captures } => self.closure(
                *function,
                captures,
                e.span,
                needs,
            ),
            ExprKind::Binary { op, lhs, rhs } => {
                if op.skips() {
                    self.short_circuit(Ghost(*e), *op, lhs, rhs, e.span, needs)
                } else {
                    self.binary(Ghost(*e), *op, lhs, rhs, e.span, needs)
                }
            },
            ExprKind::Block(block) => self.block(block, needs),
            ExprKind::If { cond, then_branch, else_branch } => self.conditional(
                Ghost(*e),
                cond,
                then_branch,
                else_branch,
                e.span,
                needs,
            ),
            ExprKind::Match { scrutinee, arms } => self.matching(
                Ghost(*e),
                scrutinee,
                arms,
                e.span,
                needs,
            ),
            ExprKind::Loop { label, body } => self.endless(Ghost(*e), label, body, e.span, needs),
            ExprKind::While { label, cond, body } => self.while_loop(
                Ghost(*e),
                label,
                cond,
                body,
                e.span,
                needs,
            ),
            ExprKind::For { label, var, iter, body } => self.for_loop(
                Ghost(*e),
                label,
                var,
                iter,
                body,
                e.span,
                needs,
            ),
            ExprKind::Break { label, value } => self.break_out(Ghost(*e), label, value, e.span, needs),
            ExprKind::Continue { label } => self.continue_on(label, e.span, needs),
        };
        proof {
            if done is Ok && needs == Needs::Nothing {
                self@.lemma_same_scopes(pre);
            }
        }
        done
    }

    /// Compiles a use of a name. A constant or a function is pushed if its
    /// value is needed; a variable is looked up in the scopes.
    pub fn ident(
        &mut self,
        name: &String,
        binding: BindingKind,
        span: Span,
        needs: Needs,
    ) -> (done: Result<(), CompileError>)
        requires
            old(self).wf(),
        ensures
            refines(done, final(self)@, old(self)@.ident(*name, binding, span, needs)),
            done is Ok ==> final(self).wf() && final(self)@.leaves(old(self)@, needs.count())
                && final(self)@.tidy_since(old(self)@),
    {
        reveal(CtxtView::ident);
        let ghost pre = self@;
        proof {
            self.lemma_wf();
            pre.lemma_leaves_nothing();
            pre.lemma_settled_start(Set::empty());
        }
        match binding {
            BindingKind::Constant(lit) => {
                self.literal(lit, span, needs);
                Ok(())
            },
            BindingKind::Function(function) => {
                if needs.value() {
                    proof {
                        pre.lemma_pushed(InstKind::Function { function }, span);
                        pre.lemma_settled_plain(
                            pre,
                            Set::empty(),
                            InstKind::Function { function },
                            span,
                        );
                    }
                    self.emit(InstKind::Function { function }, span);
                    self.push_value();
                }
                Ok(())
            },
            _ => self.variable(name, span, needs),
        }
    }

    /// Compiles a tuple or a call: the elements or the arguments are computed
    /// one after the other, and `kind` replaces them by one value.
    pub(crate) fn gathered(
        &mut self,
        Ghost(e): Ghost<Expr>,
        es: &Vec<Expr>,
        kind: InstKind,
        span: Span,
        needs: Needs,
    ) -> (done: Result<(), CompileError>)
        requires
            old(self).wf(),
            e.span == span,
            (e.kind matches ExprKind::Tuple(items) && items == *es && kind == (InstKind::Tuple {
                count: es.len(),
            })) || (e.kind matches ExprKind::Call { function, args } && args == *es && kind
                == (InstKind::Call { function, args: es.len() })),
        ensures
            refines(done, final(self)@, old(self)@.expr(e, needs)),
            done is Ok ==> final(self).wf() && final(self)@.leaves(old(self)@, needs.count())
                && final(self)@.tidy_since(old(self)@),
        decreases e, 1nat,
    {
        let ghost pre = self@;
        assert(pre.expr(e, needs) == pre.gathered(e, needs));
        match self.exprs(es) {
            Err(err) => Err(err),
            Ok(()) => {
                self.gather(Ghost(pre), kind, span, es.len(), needs);
                Ok(())
            },
        }
    }

    /// Compiles the creation of a closure: the values of the variables that it
    /// takes along are pushed, as they are at this moment, and replaced by the
    /// closure. A variable that is not known is an error.
    pub fn closure(
        &mut self,
        function: u32,
        captures: &Vec<String>,
        span: Span,
        needs: Needs,
    ) -> (done: Result<(), CompileError>)
        requires
            old(self).wf(),
        ensures
            refines(done, final(self)@, old(self)@.closure(function, captures@, span, needs)),
            done is Ok ==> final(self).wf() && final(self)@.leaves(old(self)@, needs.count())
                && final(self)@.tidy_since(old(self)@),
    {
        reveal(CtxtView::closure);
        let ghost pre = self@;
        match self.captures(captures, span) {
            Err(err) => Err(err),
            Ok(()) => {
                self.gather(
                    Ghost(pre),
                    InstKind::Closure { function, captures: captures.len() },
                    span,
                    captures.len(),
                    needs,
                );
                Ok(())
            },
        }
    }

    /// Emits the instruction that replaces the `count` values, which were left
    /// since `pre`, by one, and removes that one if it is not needed.
    pub(crate) fn gather(
        &mut self,
        Ghost(pre): Ghost<CtxtView>,
        kind: InstKind,
        span: Span,
        count: usize,
        needs: Needs,
    )
        requires
            old(self).wf(),
            old(self)@.leaves(pre, count as nat),
            old(self)@.tidy_since(pre),
            !kind.jumps(),
        ensures
            final(self).wf(),
            final(self)@ == old(self)@.emit(kind, span).combine(count as nat).discard(span, needs),
            final(self)@.leaves(pre, needs.count()),
            final(self)@.tidy_since(pre),
    {
        proof {
            let s = self@;
            s.lemma_emit(pre, kind, span);
            s.emit(kind, span).lemma_combine(pre, count as nat);
            s.emit(kind, span).combine(count as nat).lemma_discard(pre, span, needs);
            s.lemma_settled_plain(pre, Set::empty(), kind, span);
            s.emit(kind, span).combine(count as nat).lemma_settled_discard(
                pre,
                Set::empty(),
                span,
                needs,
            );
        }
        self.emit(kind, span);
        self.combine(count);
        self.discard(span, needs);
    }

    /// Compiles expressions one after the other, each for its value.
    pub fn exprs(&mut self, es: &Vec<Expr>) -> (done: Result<(), CompileError>)
        requires
            old(self).wf(),
        ensures
            refines(done, final(self)@, old(self)@.exprs(es@, 0)),
            done is Ok ==> final(self).wf() && final(self)@.leaves(old(self)@, es.len() as nat)
                && final(self)@.tidy_since(old(self)@),
        decreases es, 0nat,
    {
        let ghost pre = self@;
        proof {
            self.lemma_wf();
            pre.lemma_leaves_nothing();
            pre.lemma_settled_start(Set::empty());
        }
        let mut i: usize = 0;
        while i < es.len()
            invariant
                i <= es.len(),
                self.wf(),
                pre == old(self)@,
                self@.leaves(pre, i as nat),
                self@.tidy_since(pre),
                self@.exprs(es@, i as nat) == pre.exprs(es@, 0),
            decreases es.len() - i,
        {
            let ghost before = self@;
            match self.expr(&es[i], Needs::Value) {
                Err(err) => {
                    return Err(err);
                },
                Ok(()) => {
                    proof {
                        self@.lemma_leaves_trans(before, pre, i as nat, 1);
                        self@.lemma_settled_trans(
                            before,
                            pre,
                            Set::empty(),
                            Set::empty(),
                            Set::empty(),
                        );
                    }
                },
            }
            i = i + 1;
        }
        Ok(())
    }

    /// Pushes the values of the variables that a closure takes along.
    pub fn captures(&mut self, names: &Vec<String>, span: Span) -> (done: Result<(), CompileError>)
        requires
            old(self).wf(),
        ensures
            refines(done, final(self)@, old(self)@.captures(names@, 0, span)),
            done is Ok ==> final(self).wf() && final(self)@.leaves(old(self)@, names.len() as nat)
                && final(self)@.tidy_since(old(self)@),
    {
        reveal(CtxtView::captures);
        let ghost pre = self@;
        proof {
            self.lemma_wf();
            pre.lemma_leaves_nothing();
            pre.lemma_settled_start(Set::empty());
        }
        let mut i: usize = 0;
        while i < names.len()
            invariant
                i <= names.len(),
                self.wf(),
                pre == old(self)@,
                self@.leaves(pre, i as nat),
                self@.tidy_since(pre),
                self@.captures(names@, i as nat, span) == pre.captures(names@, 0, span),
            decreases names.len() - i,
        {
            reveal(CtxtView::captures);
            let ghost before = self@;
            match self.variable(&names[i], span, Needs::Value) {
                Err(err) => {
                    return Err(err);
                },
                Ok(()) => {
                    proof {
                        self@.lemma_leaves_trans(before, pre, i as nat, 1);
                        self@.lemma_settled_trans(
                            before,
                            pre,
                            Set::empty(),
                            Set::empty(),
                            Set::empty(),
                        );
                    }
                },
            }
            i = i + 1;
        }
        Ok(())
    }

    /// Compiles an operand of an operator. A local variable is read where it
    /// lies and nothing is emitted for it; any other expression is computed and
    /// lies on top of the stack.
    pub fn operand(&mut self, e: &Expr) -> (done: Result<Operand, CompileError>)
        requires
            old(self).wf(),
        ensures
            match old(self)@.operand(*e) {
                Ok((s, a)) => done == Ok::<Operand, CompileError>(a) && final(self)@ == s,
                Err(err) => done == Err::<Operand, CompileError>(err),
            },
            done is Ok ==> final(self).wf() && final(self)@.leaves(
                old(self)@,
                if done.unwrap() is Top {
                    1nat
                } else {
                    0nat
                },
            ) && final(self)@.tidy_since(old(self)@),
        decreases e, 3nat,
    {
        proof {
            self.lemma_wf();
            self@.lemma_leaves_nothing();
            self@.lemma_settled_start(Set::empty());
        }
        match &e.kind {
            ExprKind::Ident { name, binding } => {
                let variable = match binding {
                    BindingKind::Local => true,
                    BindingKind::Captured => true,
                    _ => false,
                };
                if variable {
                    match self.resolve(name) {
                        Some(Var::Local(slot)) => {
                            return Ok(Operand::Slot(slot));
                        },
                        _ => {},
                    }
                }
            },
            _ => {},
        }
        match self.expr(e, Needs::Value) {
            Err(err) => Err(err),
            Ok(()) => Ok(Operand::Top),
        }
    }

    /// Compiles a block: a layer of its own, the statements for their effects,
    /// the trailing expression for the value of the block. A block without a
    /// trailing expression has the unit value. The layer is closed, and its
    /// slots are free, before the block is done.
    pub fn block(&mut self, b: &Block, needs: Needs) -> (done: Result<(), CompileError>)
        requires
            old(self).wf(),
        ensures
            refines(done, final(self)@, old(self)@.block(*b, needs)),
            done is Ok ==> final(self).wf() && final(self)@.leaves(old(self)@, needs.count())
                && final(self)@.tidy_since(old(self)@),
        decreases b, 2nat,
    {
        let ghost pre = self@;
        proof {
            self.lemma_wf();
        }
        self.enter_layer();
        let ghost entered = self@;
        proof {
            self.lemma_wf();
            entered.lemma_leaves_nothing();
            entered.lemma_settled_start(Set::empty());
        }
        let mut i: usize = 0;
        while i < b.stmts.len()
            invariant
                i <= b.stmts.len(),
                self.wf(),
                pre == old(self)@,
                self@.extends(entered),
                self@.tidy_since(entered),
                entered == pre.enter_layer(),
                self@.stmts(b.stmts@, i as nat) == entered.stmts(b.stmts@, 0),
            decreases b.stmts.len() - i,
        {
            let ghost before = self@;
            match self.stmt(&b.stmts[i]) {
                Err(err) => {
                    return Err(err);
                },
                Ok(()) => {
                    proof {
                        self@.lemma_extends_trans(before, entered);
                        self@.lemma_settled_trans(
                            before,
                            entered,
                            Set::empty(),
                            Set::empty(),
                            Set::empty(),
                        );
                    }
                },
            }
            i = i + 1;
        }
        let ghost s1 = self@;
        match &b.tail {
            Some(tail) => match self.expr(tail, needs) {
                Err(err) => {
                    return Err(err);
                },
                Ok(()) => {},
            },
            None => {
                proof {
                    s1.lemma_literal(Literal::Unit, b.span, needs);
                }
                self.literal(Literal::Unit, b.span, needs);
            },
        }
        proof {
            s1.lemma_extends(entered);
            self@.lemma_extends_trans(s1, entered);
            self@.lemma_leave_layer(pre, b.span, needs);
            self@.lemma_settled_trans(s1, entered, Set::empty(), Set::empty(), Set::empty());
            self@.lemma_settled_leave_layer(entered, Set::empty(), b.span, needs);
        }
        self.leave_layer(b.span, needs);
        Ok(())
    }

    /// Compiles a statement. `let` computes the value and binds the name to
    /// the slot in which it lies; an expression statement is compiled for its
    /// effects.
    pub fn stmt(&mut self, st: &Stmt) -> (done: Result<(), CompileError>)
        requires
            old(self).wf(),
        ensures
            refines(done, final(self)@, old(self)@.stmt(*st)),
            done is Ok ==> final(self).wf() && final(self)@.extends(old(self)@)
                && final(self)@.tidy_since(old(self)@),
        decreases st, 3nat,
    {
        let ghost pre = self@;
        proof {
            self.lemma_wf();
        }
        match st {
            Stmt::Let { name, init } => match self.expr(init, Needs::Value) {
                Err(err) => Err(err),
                Ok(()) => {
                    proof {
                        self@.lemma_bind(pre, name@);
                    }
                    self.bind(name.clone());
                    Ok(())
                },
            },
            Stmt::Semi(e) => self.expr(e, Needs::Nothing),
        }
    }
}

} // verus!
