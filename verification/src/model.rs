//! What the assembler does, as mathematics.
//!
//! [`CtxtView`] is the state of an assembler: the instructions emitted so
//! far, the constant pool, the simulated stack and the open loops. Its
//! functions say, for every node of the syntax tree, which state the assembler
//! reaches from which, or which error it reports.
use crate::assemble::Needs;
use crate::ast::{
    name_view, names_view, Arm, BinOp, BindingKind, Block, Expr, ExprKind, FnDecl, Literal, Pat,
    PatKind, Span, Stmt,
};
use crate::error::CompileError;
use crate::inst::{Inst, InstKind, Operand};
use crate::loops::{break_loop, continue_loop, labels, LoopView};
use crate::scopes::{ScopesView, Var};
use vstd::prelude::*;

verus! {

/// The index of a constant in a pool that holds it, or the index at which it
/// is added to a pool that does not.
pub open spec fn pool_index(pool: Seq<Literal>, lit: Literal) -> nat {
    match pool.index_of_first(lit) {
        Some(i) => i as nat,
        None => pool.len(),
    }
}

/// The pool with a constant added, unless it holds the constant already.
pub open spec fn pool_add(pool: Seq<Literal>, lit: Literal) -> Seq<Literal> {
    if pool.contains(lit) {
        pool
    } else {
        pool.push(lit)
    }
}

/// The instructions with the jumps at the given addresses aimed at `target`.
pub open spec fn patch_all(insts: Seq<Inst>, sites: Seq<usize>, target: usize) -> Seq<Inst> {
    Seq::new(
        insts.len(),
        |i: int|
            if sites.contains(i as usize) {
                insts[i].with_target(target)
            } else {
                insts[i]
            },
    )
}

/// The state of an assembler.
pub struct CtxtView {
    /// The instructions emitted so far.
    pub insts: Seq<Inst>,
    /// The constant pool.
    pub consts: Seq<Literal>,
    /// The number of values on the simulated stack.
    pub depth: nat,
    /// The greatest depth that the simulated stack has reached.
    pub peak: nat,
    /// The lexical scopes.
    pub scopes: ScopesView,
    /// The open loops, the outermost first.
    pub loops: Seq<LoopView>,
}

/// The loops are those of `pre`; each may have more jumps that wait for its
/// end, all of them at addresses from `from` on.
pub open spec fn same_loops(pre: Seq<LoopView>, post: Seq<LoopView>, from: nat) -> bool {
    &&& post.len() == pre.len()
    &&& forall|k: int|
        0 <= k < pre.len() ==> {
            &&& (#[trigger] post[k]).label == pre[k].label
            &&& post[k].start_depth == pre[k].start_depth
            &&& post[k].continue_target == pre[k].continue_target
            &&& post[k].needs == pre[k].needs
            &&& pre[k].breaks.len() <= post[k].breaks.len()
        }
    &&& forall|k: int, j: int|
        0 <= k < pre.len() && 0 <= j < post[k].breaks.len() ==> if j < pre[k].breaks.len() {
            (#[trigger] post[k].breaks[j]) == pre[k].breaks[j]
        } else {
            post[k].breaks[j] >= from
        }
}

/// What the assembler hands back stands for what the model says.
pub open spec fn refines(
    handed: Result<(), CompileError>,
    post: CtxtView,
    model: Result<CtxtView, CompileError>,
) -> bool {
    match model {
        Ok(s) => handed is Ok && post == s,
        Err(e) => handed == Err::<(), CompileError>(e),
    }
}

/// `count` values without a name.
pub open spec fn temporaries(count: nat) -> Seq<Option<Seq<char>>> {
    Seq::new(count, |i: int| None)
}

/// A state and the jumps that wait for an address.
pub type Pending = (CtxtView, Seq<usize>);

impl CtxtView {
    /// The state is consistent: the depth of the stack is the number of slots
    /// that the layers own, a layer is open, every jump that waits for the end
    /// of a loop is an instruction that was emitted, and every target is an
    /// address up to that of the instruction that is emitted next.
    pub open spec fn wf(self) -> bool {
        &&& self.scopes.wf()
        &&& self.scopes.layers.len() > 0
        &&& self.scopes.layers[0] == 0
        &&& self.depth == self.scopes.names.len()
        &&& self.peak >= self.depth
        &&& forall|k: int, j: int|
            0 <= k < self.loops.len() && 0 <= j < self.loops[k].breaks.len() ==> (
            #[trigger] self.loops[k].breaks[j]) < self.insts.len()
        &&& forall|i: int|
            0 <= i < self.insts.len() ==> (#[trigger] self.insts[i]).kind.aims_within(
                self.insts.len() as int,
            )
        &&& forall|k: int|
            0 <= k < self.loops.len() ==> (#[trigger] self.loops[k]).continue_target
                <= self.insts.len()
    }

    /// The state comes from `pre` by emitting instructions behind those of
    /// `pre`: the layers and the loops are those of `pre`, and every slot that
    /// was in use still is, under its name.
    #[verifier::opaque]
    pub open spec fn extends(self, pre: CtxtView) -> bool {
        &&& pre.wf()
        &&& self.wf()
        &&& self.scopes.layers == pre.scopes.layers
        &&& self.scopes.captures == pre.scopes.captures
        &&& pre.scopes.names.len() <= self.scopes.names.len()
        &&& self.scopes.names.take(pre.scopes.names.len() as int) == pre.scopes.names
        &&& pre.insts.len() <= self.insts.len()
        &&& forall|i: int| 0 <= i < pre.insts.len() ==> self.insts[i] == pre.insts[i]
        &&& same_loops(pre.loops, self.loops, pre.insts.len())
    }

    /// The state comes from `pre` by compiling something that leaves `count`
    /// values on the stack, each in a slot without a name, and nothing else.
    pub open spec fn leaves(self, pre: CtxtView, count: nat) -> bool {
        &&& self.extends(pre)
        &&& self.scopes.names == pre.scopes.names + temporaries(count)
        &&& self.depth == pre.depth + count
        &&& pre.insts.len() <= self.insts.len()
        &&& self.loops.len() == pre.loops.len()
    }

    /// The state before anything is compiled: one open layer, nothing on the
    /// stack, the given names in the closure's environment.
    pub open spec fn start(captures: Seq<Seq<char>>) -> CtxtView {
        CtxtView {
            insts: Seq::empty(),
            consts: Seq::empty(),
            depth: 0,
            peak: 0,
            scopes: ScopesView { names: Seq::empty(), layers: seq![0nat], captures },
            loops: Seq::empty(),
        }
    }

    /// The address of the instruction that is emitted next.
    pub open spec fn here(self) -> usize {
        self.insts.len() as usize
    }

    /// The instruction is appended.
    pub open spec fn emit(self, kind: InstKind, span: Span) -> CtxtView {
        CtxtView { insts: self.insts.push(Inst { kind, span }), ..self }
    }

    /// The jump at `site` is aimed at `target`.
    pub open spec fn patch(self, site: usize, target: usize) -> CtxtView {
        CtxtView {
            insts: self.insts.update(site as int, self.insts[site as int].with_target(target)),
            ..self
        }
    }

    /// The jumps at `sites` are aimed at `target`.
    pub open spec fn patch_sites(self, sites: Seq<usize>, target: usize) -> CtxtView {
        CtxtView { insts: patch_all(self.insts, sites, target), ..self }
    }

    /// One more value lies on the stack, in a slot of its own without a name.
    pub open spec fn push_value(self) -> CtxtView {
        CtxtView {
            depth: self.depth + 1,
            peak: if self.peak > self.depth {
                self.peak
            } else {
                self.depth + 1
            },
            scopes: self.scopes.reserve(),
            ..self
        }
    }

    /// The topmost value is gone from the stack.
    pub open spec fn pop_value(self) -> CtxtView {
        CtxtView { depth: (self.depth - 1) as nat, scopes: self.scopes.free(), ..self }
    }

    /// The `n` topmost values are gone from the stack.
    pub open spec fn pop_values(self, n: nat) -> CtxtView {
        CtxtView {
            depth: (self.depth - n) as nat,
            scopes: ScopesView {
                names: self.scopes.names.take(self.scopes.names.len() - n),
                layers: self.scopes.layers,
                captures: self.scopes.captures,
            },
            ..self
        }
    }

    /// The topmost value, which had no name, is the variable `name` from now
    /// on.
    pub open spec fn bind(self, name: Seq<char>) -> CtxtView {
        CtxtView { scopes: self.scopes.free().declare(name), ..self }
    }

    /// A layer is opened.
    pub open spec fn enter_layer(self) -> CtxtView {
        CtxtView { scopes: self.scopes.enter_layer(), ..self }
    }

    /// The innermost layer is closed, and the stack is as deep as it was when
    /// the layer was opened.
    pub open spec fn exit_layer(self) -> CtxtView {
        CtxtView { depth: self.scopes.layers.last(), scopes: self.scopes.exit_layer(), ..self }
    }

    /// The constant is in the pool.
    pub open spec fn intern(self, lit: Literal) -> CtxtView {
        CtxtView { consts: pool_add(self.consts, lit), ..self }
    }

    /// A loop is opened at the present depth of the stack.
    pub open spec fn enter_loop(
        self,
        label: Option<Seq<char>>,
        head: usize,
        needs: Needs,
    ) -> CtxtView {
        CtxtView {
            loops: self.loops.push(
                LoopView {
                    label,
                    start_depth: self.depth,
                    continue_target: head as nat,
                    needs,
                    breaks: Seq::empty(),
                },
            ),
            ..self
        }
    }

    /// The jump at `site` waits for the end of the loop at `at`.
    pub open spec fn record_break(self, at: int, site: usize) -> CtxtView {
        CtxtView { loops: self.loops.update(at, self.loops[at].record_break(site)), ..self }
    }

    /// The innermost loop is closed: the jumps that waited for its end are
    /// aimed at the instruction that is emitted next.
    pub open spec fn exit_loop(self) -> CtxtView {
        CtxtView {
            insts: patch_all(self.insts, self.loops.last().breaks, self.here()),
            loops: self.loops.drop_last(),
            ..self
        }
    }

    /// A constant is pushed if its value is needed.
    pub open spec fn literal(self, lit: Literal, span: Span, needs: Needs) -> CtxtView {
        match needs {
            Needs::Value => {
                let s = self.intern(lit);
                s.emit(InstKind::Push { constant: pool_index(self.consts, lit) as usize }, span).push_value()
            },
            Needs::Nothing => self,
        }
    }

    /// The topmost value is removed if it is not needed.
    pub open spec fn discard(self, span: Span, needs: Needs) -> CtxtView {
        match needs {
            Needs::Value => self,
            Needs::Nothing => self.emit(InstKind::Pop { count: 1 }, span).pop_value(),
        }
    }

    /// The `count` topmost values are replaced by one.
    pub open spec fn combine(self, count: nat) -> CtxtView {
        self.pop_values(count).push_value()
    }

    /// The instructions that remove the values between the depth `to` and the
    /// top of the stack at run time. With `Needs::Value` the topmost value is
    /// kept. The simulated stack stays as it is.
    pub open spec fn unwind(self, to: nat, span: Span, needs: Needs) -> CtxtView {
        let count = self.depth - needs.count() - to;
        if count > 0 {
            match needs {
                Needs::Value => self.emit(InstKind::Clean { count: count as usize }, span),
                Needs::Nothing => self.emit(InstKind::Pop { count: count as usize }, span),
            }
        } else {
            self
        }
    }

    /// The innermost layer is closed and its values are removed from the stack.
    /// With `Needs::Value` the topmost value is kept, and belongs to the layer
    /// around it from then on.
    pub open spec fn leave_layer(self, span: Span, needs: Needs) -> CtxtView {
        let s = self.unwind(self.scopes.layers.last(), span, needs).exit_layer();
        match needs {
            Needs::Value => s.push_value(),
            Needs::Nothing => s,
        }
    }

    /// What a use of a variable gives: the slot of a local variable, or the
    /// instruction that pushes a variable of the environment.
    #[verifier::opaque]
    pub open spec fn variable(self, name: String, span: Span, needs: Needs) -> Result<
        CtxtView,
        CompileError,
    > {
        match self.scopes.resolve(name@) {
            None => Err(CompileError::UnresolvedVariable { name, span }),
            Some(Var::Local(slot)) => Ok(
                match needs {
                    Needs::Value => self.emit(InstKind::Copy { slot }, span).push_value(),
                    Needs::Nothing => self,
                },
            ),
            Some(Var::Captured(index)) => Ok(
                match needs {
                    Needs::Value => self.emit(InstKind::Capture { index }, span).push_value(),
                    Needs::Nothing => self,
                },
            ),
        }
    }

    /// The values of the variables that a closure takes along are pushed, from
    /// the `i`-th on.
    #[verifier::opaque]
    pub open spec fn captures(self, names: Seq<String>, i: nat, span: Span) -> Result<
        CtxtView,
        CompileError,
    >
        decreases names.len() - i,
    {
        if i >= names.len() {
            Ok(self)
        } else {
            match self.variable(names[i as int], span, Needs::Value) {
                Err(e) => Err(e),
                Ok(s) => s.captures(names, i + 1, span),
            }
        }
    }

    /// An expression.
    pub open spec fn expr(self, e: Expr, needs: Needs) -> Result<CtxtView, CompileError>
        decreases e, 2nat,
    {
        match e.kind {
            ExprKind::Lit(lit) => Ok(self.literal(lit, e.span, needs)),
            ExprKind::Ident { name, binding } => self.ident(name, binding, e.span, needs),
            ExprKind::Tuple(_) => self.gathered(e, needs),
            ExprKind::Call { .. } => self.gathered(e, needs),
            ExprKind::Closure { function, captures } => self.closure(function, captures@, e.span, needs),
            ExprKind::Binary { op, .. } => if op.short_circuits() {
                self.short_circuit(e, needs)
            } else {
                self.binary(e, needs)
            },
            ExprKind::Block(block) => self.block(block, needs),
            ExprKind::If { .. } => self.conditional(e, needs),
            ExprKind::Match { .. } => self.matching(e, needs),
            ExprKind::Loop { .. } => self.endless(e, needs),
            ExprKind::While { .. } => self.while_loop(e, needs),
            ExprKind::For { .. } => self.for_loop(e, needs),
            ExprKind::Break { .. } => self.break_out(e, needs),
            ExprKind::Continue { label } => self.continue_on(label, e.span, needs),
        }
    }

    /// A use of a name: a constant or a function is pushed if its value is
    /// needed, and so is a variable, which must be known.
    #[verifier::opaque]
    pub open spec fn ident(
        self,
        name: String,
        binding: BindingKind,
        span: Span,
        needs: Needs,
    ) -> Result<CtxtView, CompileError> {
        match binding {
            BindingKind::Constant(lit) => Ok(self.literal(lit, span, needs)),
            BindingKind::Function(function) => Ok(
                match needs {
                    Needs::Value => self.emit(InstKind::Function { function }, span).push_value(),
                    Needs::Nothing => self,
                },
            ),
            _ => self.variable(name, span, needs),
        }
    }

    /// A tuple or a call: the elements or the arguments are computed one after
    /// the other and replaced by one value.
    pub open spec fn gathered(self, e: Expr, needs: Needs) -> Result<CtxtView, CompileError>
        decreases e, 1nat,
    {
        match e.kind {
            ExprKind::Tuple(items) => match self.exprs(items@, 0) {
                Err(err) => Err(err),
                Ok(s) => Ok(
                    s.emit(InstKind::Tuple { count: items.len() }, e.span).combine(
                        items.len() as nat,
                    ).discard(e.span, needs),
                ),
            },
            ExprKind::Call { function, args } => match self.exprs(args@, 0) {
                Err(err) => Err(err),
                Ok(s) => Ok(
                    s.emit(InstKind::Call { function, args: args.len() }, e.span).combine(
                        args.len() as nat,
                    ).discard(e.span, needs),
                ),
            },
            _ => Ok(self),
        }
    }

    /// The creation of a closure: the values of the variables that it takes
    /// along are pushed and replaced by the closure.
    #[verifier::opaque]
    pub open spec fn closure(
        self,
        function: u32,
        captures: Seq<String>,
        span: Span,
        needs: Needs,
    ) -> Result<CtxtView, CompileError> {
        match self.captures(captures, 0, span) {
            Err(err) => Err(err),
            Ok(s) => Ok(
                s.emit(
                    InstKind::Closure { function, captures: captures.len() as usize },
                    span,
                ).combine(captures.len()).discard(span, needs),
            ),
        }
    }

    /// `&&` and `||`: the left operand is computed and tested; where it
    /// decides, it is the result, and the right operand is jumped over.
    pub open spec fn short_circuit(self, e: Expr, needs: Needs) -> Result<CtxtView, CompileError>
        decreases e, 1nat,
    {
        match e.kind {
            ExprKind::Binary { op, lhs, rhs } => match self.expr(*lhs, Needs::Value) {
                Err(err) => Err(err),
                Ok(s1) => {
                    let test = if op == BinOp::And {
                        InstKind::JumpIfNotOrPop { target: None }
                    } else {
                        InstKind::JumpIfOrPop { target: None }
                    };
                    match s1.emit(test, e.span).pop_value().expr(*rhs, Needs::Value) {
                        Err(err) => Err(err),
                        Ok(s2) => Ok(s2.patch(s1.here(), s2.here()).discard(e.span, needs)),
                    }
                },
            },
            _ => Ok(self),
        }
    }

    /// An operator that computes both operands.
    pub open spec fn binary(self, e: Expr, needs: Needs) -> Result<CtxtView, CompileError>
        decreases e, 1nat,
    {
        match e.kind {
            ExprKind::Binary { op, lhs, rhs } => match self.operand(*lhs) {
                Err(err) => Err(err),
                Ok((s1, a)) => match s1.operand(*rhs) {
                    Err(err) => Err(err),
                    Ok((s2, b)) => Ok(
                        s2.emit(InstKind::Op { op, a, b }, e.span).pop_values(
                            (s2.depth - self.depth) as nat,
                        ).push_value().discard(e.span, needs),
                    ),
                },
            },
            _ => Ok(self),
        }
    }

    /// `if`: the condition is computed and tested; the branch that does not run
    /// is jumped over.
    pub open spec fn conditional(self, e: Expr, needs: Needs) -> Result<CtxtView, CompileError>
        decreases e, 1nat,
    {
        match e.kind {
            ExprKind::If { cond, then_branch, else_branch } => match self.expr(
                *cond,
                Needs::Value,
            ) {
                Err(err) => Err(err),
                Ok(s1) => match s1.emit(
                    InstKind::JumpIfNot { target: None },
                    e.span,
                ).pop_value().block(then_branch, needs) {
                    Err(err) => Err(err),
                    Ok(s2) => {
                        if else_branch is None && needs == Needs::Nothing {
                            Ok(s2.patch(s1.here(), s2.here()))
                        } else {
                            let s3 = s2.emit(InstKind::Jump { target: None }, e.span).pop_values(
                                needs.count(),
                            );
                            let s4 = s3.patch(s1.here(), s3.here());
                            match else_branch {
                                Some(other) => match s4.expr(*other, needs) {
                                    Err(err) => Err(err),
                                    Ok(s5) => Ok(s5.patch(s2.here(), s5.here())),
                                },
                                None => {
                                    let s5 = s4.literal(Literal::Unit, e.span, needs);
                                    Ok(s5.patch(s2.here(), s5.here()))
                                },
                            }
                        }
                    },
                },
            },
            _ => Ok(self),
        }
    }

    /// `match`: the value is computed and stays on the stack while the arms
    /// are tried; behind the arms it is removed.
    pub open spec fn matching(self, e: Expr, needs: Needs) -> Result<CtxtView, CompileError>
        decreases e, 1nat,
    {
        match e.kind {
            ExprKind::Match { scrutinee, arms } => match self.expr(*scrutinee, Needs::Value) {
                Err(err) => Err(err),
                Ok(s1) => match s1.arms(
                    arms@,
                    0,
                    self.depth as usize,
                    *scrutinee,
                    needs,
                    Seq::empty(),
                ) {
                    Err(err) => Err(err),
                    Ok((s2, ends)) => {
                        let s3 = s2.literal(Literal::Unit, e.span, needs);
                        let s4 = s3.patch_sites(ends, s3.here());
                        Ok(
                            match needs {
                                Needs::Value => s4.emit(
                                    InstKind::Clean { count: 1 },
                                    e.span,
                                ).combine(2),
                                Needs::Nothing => s4.emit(
                                    InstKind::Pop { count: 1 },
                                    e.span,
                                ).pop_value(),
                            },
                        )
                    },
                },
            },
            _ => Ok(self),
        }
    }

    /// `loop`: the body, and the jump back to its start.
    pub open spec fn endless(self, e: Expr, needs: Needs) -> Result<CtxtView, CompileError>
        decreases e, 1nat,
    {
        match e.kind {
            ExprKind::Loop { label, body } => {
                if label is Some && labels(self.loops).contains(name_view(label)) {
                    Err(CompileError::DuplicateLabel { label: label.unwrap(), span: e.span })
                } else {
                    match self.enter_loop(name_view(label), self.here(), needs).block(
                        body,
                        Needs::Nothing,
                    ) {
                        Err(err) => Err(err),
                        Ok(s1) => {
                            let s2 = s1.emit(
                                InstKind::Jump { target: Some(self.here()) },
                                e.span,
                            ).exit_loop();
                            Ok(
                                match needs {
                                    Needs::Value => s2.push_value(),
                                    Needs::Nothing => s2,
                                },
                            )
                        },
                    }
                }
            },
            _ => Ok(self),
        }
    }

    /// `while`: the test, which leaves the loop where it fails, the body, and
    /// the jump back to the test.
    pub open spec fn while_loop(self, e: Expr, needs: Needs) -> Result<CtxtView, CompileError>
        decreases e, 1nat,
    {
        match e.kind {
            ExprKind::While { label, cond, body } => {
                if label is Some && labels(self.loops).contains(name_view(label)) {
                    Err(CompileError::DuplicateLabel { label: label.unwrap(), span: e.span })
                } else {
                    match self.enter_loop(name_view(label), self.here(), Needs::Nothing).expr(
                        *cond,
                        Needs::Value,
                    ) {
                        Err(err) => Err(err),
                        Ok(s1) => match s1.emit(
                            InstKind::JumpIfNot { target: None },
                            e.span,
                        ).pop_value().record_break(self.loops.len() as int, s1.here()).block(
                            body,
                            Needs::Nothing,
                        ) {
                            Err(err) => Err(err),
                            Ok(s2) => Ok(
                                s2.emit(
                                    InstKind::Jump { target: Some(self.here()) },
                                    e.span,
                                ).exit_loop().literal(Literal::Unit, e.span, needs),
                            ),
                        },
                    }
                }
            },
            _ => Ok(self),
        }
    }

    /// `for`: the iterator is computed and stays on the stack; each iteration
    /// fetches the next item, or leaves the loop where there is none, binds
    /// it in a layer of its own, runs the body and jumps back. Behind the loop
    /// the iterator is removed.
    pub open spec fn for_loop(self, e: Expr, needs: Needs) -> Result<CtxtView, CompileError>
        decreases e, 1nat,
    {
        match e.kind {
            ExprKind::For { label, var, iter, body } => match self.expr(*iter, Needs::Value) {
                Err(err) => Err(err),
                Ok(s1) => {
                    if label is Some && labels(self.loops).contains(name_view(label)) {
                        Err(CompileError::DuplicateLabel { label: label.unwrap(), span: e.span })
                    } else {
                        match s1.enter_loop(
                            name_view(label),
                            s1.here(),
                            Needs::Nothing,
                        ).enter_layer().emit(
                            InstKind::IterNext { slot: self.depth as usize, target: None },
                            e.span,
                        ).record_break(
                            self.loops.len() as int,
                            s1.here(),
                        ).push_value().bind(var@).block(body, Needs::Nothing) {
                            Err(err) => Err(err),
                            Ok(s2) => Ok(
                                s2.leave_layer(e.span, Needs::Nothing).emit(
                                    InstKind::Jump { target: Some(s1.here()) },
                                    e.span,
                                ).exit_loop().emit(
                                    InstKind::Pop { count: 1 },
                                    e.span,
                                ).pop_value().literal(Literal::Unit, e.span, needs),
                            ),
                        }
                    }
                },
            },
            _ => Ok(self),
        }
    }

    /// `break`: the value that the loop hands on, the unwinding of the stack
    /// to the depth at the entry of the loop, and the jump, which waits for the
    /// end of the loop. The code behind it goes on from the stack as it was
    /// before the `break`.
    pub open spec fn break_out(self, e: Expr, needs: Needs) -> Result<CtxtView, CompileError>
        decreases e, 1nat,
    {
        match e.kind {
            ExprKind::Break { label, value } => match break_loop(self.loops, label, e.span) {
                Err(err) => Err(err),
                Ok(at) => {
                    let context = self.loops[at];
                    let valued = match value {
                        Some(v) => self.expr(*v, context.needs),
                        None => Ok(self.literal(Literal::Unit, e.span, context.needs)),
                    };
                    match valued {
                        Err(err) => Err(err),
                        Ok(s1) => {
                            let s2 = s1.unwind(context.start_depth, e.span, context.needs);
                            let s3 = s2.emit(InstKind::Jump { target: None }, e.span).record_break(
                                at,
                                s2.here(),
                            ).pop_values(context.needs.count());
                            Ok(
                                match needs {
                                    Needs::Value => s3.push_value(),
                                    Needs::Nothing => s3,
                                },
                            )
                        },
                    }
                },
            },
            _ => Ok(self),
        }
    }

    /// `continue`: the unwinding of the stack to the depth at the entry of the
    /// loop, and the jump to where its next iteration starts.
    #[verifier::opaque]
    pub open spec fn continue_on(
        self,
        label: Option<String>,
        span: Span,
        needs: Needs,
    ) -> Result<CtxtView, CompileError> {
        match continue_loop(self.loops, label, span) {
            Err(err) => Err(err),
            Ok(at) => {
                let context = self.loops[at];
                let s1 = self.unwind(context.start_depth, span, Needs::Nothing).emit(
                    InstKind::Jump { target: Some(context.continue_target as usize) },
                    span,
                );
                Ok(
                    match needs {
                        Needs::Value => s1.push_value(),
                        Needs::Nothing => s1,
                    },
                )
            },
        }
    }

    /// The expressions from the `i`-th on, each for its value.
    pub open spec fn exprs(self, es: Seq<Expr>, i: nat) -> Result<CtxtView, CompileError>
        decreases es, es.len() - i,
    {
        if i >= es.len() {
            Ok(self)
        } else {
            match self.expr(es[i as int], Needs::Value) {
                Err(err) => Err(err),
                Ok(s) => s.exprs(es, i + 1),
            }
        }
    }

    /// An operand of an operator: a local variable is read where it lies, any
    /// other expression is computed and lies on top of the stack.
    pub open spec fn operand(self, e: Expr) -> Result<(CtxtView, Operand), CompileError>
        decreases e, 3nat,
    {
        let direct = match e.kind {
            ExprKind::Ident { name, binding } => (binding is Local || binding is Captured) && (
            self.scopes.resolve(name@) matches Some(Var::Local(_))),
            _ => false,
        };
        if direct {
            Ok((self, Operand::Slot(self.scopes.resolve(e.kind->Ident_name@).unwrap()->Local_0)))
        } else {
            match self.expr(e, Needs::Value) {
                Err(err) => Err(err),
                Ok(s) => Ok((s, Operand::Top)),
            }
        }
    }

    /// A block: a layer of its own, the statements for their effects, the
    /// trailing expression for the value of the block.
    pub open spec fn block(self, b: Block, needs: Needs) -> Result<CtxtView, CompileError>
        decreases b, 2nat,
    {
        match self.enter_layer().stmts(b.stmts@, 0) {
            Err(err) => Err(err),
            Ok(s1) => match b.tail {
                Some(tail) => match s1.expr(*tail, needs) {
                    Err(err) => Err(err),
                    Ok(s2) => Ok(s2.leave_layer(b.span, needs)),
                },
                None => Ok(s1.literal(Literal::Unit, b.span, needs).leave_layer(b.span, needs)),
            },
        }
    }

    /// The statements from the `i`-th on.
    pub open spec fn stmts(self, ss: Seq<Stmt>, i: nat) -> Result<CtxtView, CompileError>
        decreases ss, ss.len() - i,
    {
        if i >= ss.len() {
            Ok(self)
        } else {
            match self.stmt(ss[i as int]) {
                Err(err) => Err(err),
                Ok(s) => s.stmts(ss, i + 1),
            }
        }
    }

    /// A statement.
    pub open spec fn stmt(self, st: Stmt) -> Result<CtxtView, CompileError>
        decreases st, 0nat,
    {
        match st {
            Stmt::Let { name, init } => match self.expr(init, Needs::Value) {
                Err(err) => Err(err),
                Ok(s) => Ok(s.bind(name@)),
            },
            Stmt::Semi(e) => self.expr(e, Needs::Nothing),
        }
    }

    /// The arms of a `match` from the `i`-th on. The value that is matched lies
    /// in `slot` and was computed by `scrutinee`. `ends` holds the jumps from
    /// the ends of the arms before, which wait for the end of the `match`.
    pub open spec fn arms(
        self,
        arms: Seq<Arm>,
        i: nat,
        slot: usize,
        scrutinee: Expr,
        needs: Needs,
        ends: Seq<usize>,
    ) -> Result<Pending, CompileError>
        decreases arms, arms.len() - i,
    {
        if i >= arms.len() {
            Ok((self, ends))
        } else {
            match self.enter_layer().pat(arms[i as int].pat, slot, Some(scrutinee), Seq::empty()) {
                Err(err) => Err(err),
                Ok((s1, fails)) => match s1.expr(arms[i as int].body, needs) {
                    Err(err) => Err(err),
                    Ok(s2) => {
                        let s3 = s2.leave_layer(arms[i as int].body.span, needs);
                        let s4 = s3.emit(
                            InstKind::Jump { target: None },
                            arms[i as int].body.span,
                        ).pop_values(needs.count());
                        s4.patch_sites(fails, s4.here()).arms(
                            arms,
                            i + 1,
                            slot,
                            scrutinee,
                            needs,
                            ends.push(s3.here()),
                        )
                    },
                },
            }
        }
    }

    /// The test of whether the value on top of the stack is true, followed by
    /// the branch that is taken if it is not: the branch removes what the arm
    /// has put on the stack and waits for the address of the next arm.
    #[verifier::opaque]
    pub open spec fn branch(self, test: InstKind, span: Span, fails: Seq<usize>) -> Pending {
        let s1 = self.emit(test, span).push_value();
        let s2 = s1.emit(
            InstKind::PopAndJumpIfNot { count: self.scopes.local() as usize, target: None },
            span,
        ).pop_value();
        (s2, fails.push(s1.here()))
    }

    /// A pattern against the value in `slot`, of which `shape` is the
    /// expression that computed it where that is known. `fails` holds the
    /// branches of the arm so far.
    pub open spec fn pat(
        self,
        p: Pat,
        slot: usize,
        shape: Option<Expr>,
        fails: Seq<usize>,
    ) -> Result<Pending, CompileError>
        decreases p, 0nat,
    {
        match p.kind {
            PatKind::Ignore => Ok((self, fails)),
            PatKind::Binding(name) => Ok(
                (self.emit(InstKind::Copy { slot }, p.span).push_value().bind(name@), fails),
            ),
            PatKind::Lit(lit) => Ok(
                self.intern(lit).branch(
                    InstKind::EqConst { slot, constant: pool_index(self.consts, lit) as usize },
                    p.span,
                    fails,
                ),
            ),
            PatKind::Tuple(ps) => match shape {
                Some(Expr { kind: ExprKind::Tuple(items), .. }) => {
                    if items.len() != ps.len() {
                        Err(CompileError::PatternArityMismatch { span: p.span })
                    } else {
                        self.pats(ps@, 0, slot, Some(items@), fails)
                    }
                },
                _ => {
                    let (s1, fails1) = self.branch(InstKind::IsTuple { slot, len: ps.len() }, p.span, fails);
                    s1.pats(ps@, 0, slot, None, fails1)
                },
            },
        }
    }

    /// The patterns of a tuple pattern from the `i`-th on, against the elements
    /// of the tuple in `slot`.
    pub open spec fn pats(
        self,
        ps: Seq<Pat>,
        i: nat,
        slot: usize,
        items: Option<Seq<Expr>>,
        fails: Seq<usize>,
    ) -> Result<Pending, CompileError>
        decreases ps, ps.len() - i,
    {
        if i >= ps.len() {
            Ok((self, fails))
        } else if ps[i as int].kind is Ignore {
            self.pats(ps, i + 1, slot, items, fails)
        } else {
            let shape = match items {
                Some(es) => Some(es[i as int]),
                None => None,
            };
            match self.emit(InstKind::TupleGet { slot, index: i as usize }, ps[i as int].span).push_value().pat(
                ps[i as int],
                self.depth as usize,
                shape,
                fails,
            ) {
                Err(err) => Err(err),
                Ok((s, fails1)) => s.pats(ps, i + 1, slot, items, fails1),
            }
        }
    }

    /// The parameters of a function from the `i`-th on are declared.
    #[verifier::opaque]
    pub open spec fn params(self, names: Seq<String>, i: nat) -> CtxtView
        decreases names.len() - i,
    {
        if i >= names.len() {
            self
        } else {
            self.push_value().bind(names[i as int]@).params(names, i + 1)
        }
    }
}

/// What compiling a function or closure body comes to: the parameters lie in
/// the first slots, the body is compiled for its value, and the function
/// returns it.
pub open spec fn function(decl: FnDecl) -> Result<CtxtView, CompileError> {
    match CtxtView::start(names_view(decl.captures@)).params(decl.params@, 0).expr(
        decl.body,
        Needs::Value,
    ) {
        Err(err) => Err(err),
        Ok(s) => Ok(s.emit(InstKind::Return, decl.span).pop_value()),
    }
}

/// How the steps of the assembler keep what was there before them.
impl CtxtView {
    /// A consistent state comes from itself and leaves nothing.
    pub proof fn lemma_leaves_nothing(self)
        requires
            self.wf(),
        ensures
            self.extends(self),
            self.leaves(self, 0),
    {
        reveal(CtxtView::extends);
        assert(self.scopes.names.take(self.scopes.names.len() as int) =~= self.scopes.names);
        assert(self.scopes.names =~= self.scopes.names + temporaries(0));
    }

    /// A state that comes from `pre` with the same slots in use leaves nothing.
    pub proof fn lemma_still(self, pre: CtxtView)
        requires
            self.extends(pre),
            self.scopes.names.len() == pre.scopes.names.len(),
        ensures
            self.leaves(pre, 0),
    {
        reveal(CtxtView::extends);
        assert(self.scopes.names.take(self.scopes.names.len() as int) =~= self.scopes.names);
        assert(self.scopes.names =~= pre.scopes.names + temporaries(0));
    }

    /// What a state that comes from `pre` has in common with `pre`.
    pub proof fn lemma_extends(self, pre: CtxtView)
        requires
            self.extends(pre),
        ensures
            pre.wf(),
            self.wf(),
            self.scopes.layers == pre.scopes.layers,
            self.scopes.captures == pre.scopes.captures,
            pre.scopes.names.len() <= self.scopes.names.len(),
            pre.insts.len() <= self.insts.len(),
            forall|i: int| 0 <= i < pre.insts.len() ==> self.insts[i] == pre.insts[i],
            self.loops.len() == pre.loops.len(),
            forall|k: int|
                0 <= k < pre.loops.len() ==> {
                    &&& (#[trigger] self.loops[k]).label == pre.loops[k].label
                    &&& self.loops[k].start_depth == pre.loops[k].start_depth
                    &&& self.loops[k].continue_target == pre.loops[k].continue_target
                    &&& self.loops[k].needs == pre.loops[k].needs
                },
            labels(self.loops) == labels(pre.loops),
    {
        reveal(CtxtView::extends);
        assert(labels(self.loops) =~= labels(pre.loops));
    }

    /// A state that leaves nothing since `pre` has the scopes of `pre`.
    pub proof fn lemma_same_scopes(self, pre: CtxtView)
        requires
            self.leaves(pre, 0),
        ensures
            self.scopes == pre.scopes,
    {
        reveal(CtxtView::extends);
        assert(self.scopes.names =~= pre.scopes.names);
    }

    /// What comes from a state that comes from `pre` comes from `pre`.
    pub proof fn lemma_extends_trans(self, mid: CtxtView, pre: CtxtView)
        requires
            mid.extends(pre),
            self.extends(mid),
        ensures
            self.extends(pre),
    {
        reveal(CtxtView::extends);
        assert(self.scopes.names.take(pre.scopes.names.len() as int) =~= mid.scopes.names.take(
            pre.scopes.names.len() as int,
        ));
        assert forall|k: int, j: int|
            0 <= k < pre.loops.len() && 0 <= j < self.loops[k].breaks.len() implies if j
            < pre.loops[k].breaks.len() {
            (#[trigger] self.loops[k].breaks[j]) == pre.loops[k].breaks[j]
        } else {
            self.loops[k].breaks[j] >= pre.insts.len()
        } by {
            let _ = mid.loops[k];
            if j < mid.loops[k].breaks.len() {
                assert(self.loops[k].breaks[j] == mid.loops[k].breaks[j]);
            }
        }
    }

    /// Values left one after the other add up.
    pub proof fn lemma_leaves_trans(self, mid: CtxtView, pre: CtxtView, j: nat, k: nat)
        requires
            mid.leaves(pre, j),
            self.leaves(mid, k),
        ensures
            self.leaves(pre, j + k),
    {
        reveal(CtxtView::extends);
        self.lemma_extends_trans(mid, pre);
        assert(self.scopes.names =~= pre.scopes.names + temporaries(j + k));
    }

    /// An instruction more changes nothing else.
    pub proof fn lemma_emit(self, pre: CtxtView, kind: InstKind, span: Span)
        requires
            self.extends(pre),
            kind.aims_within((self.insts.len() + 1) as int),
        ensures
            self.emit(kind, span).extends(pre),
    {
        reveal(CtxtView::extends);
    }

    /// A constant more in the pool changes nothing else.
    pub proof fn lemma_intern(self, pre: CtxtView, lit: Literal)
        requires
            self.extends(pre),
        ensures
            self.intern(lit).extends(pre),
    {
        reveal(CtxtView::extends);
    }

    /// A jump that was emitted since `pre` may be aimed.
    pub proof fn lemma_patch(self, pre: CtxtView, site: usize, target: usize)
        requires
            self.extends(pre),
            pre.insts.len() <= site < self.insts.len(),
            target <= self.insts.len(),
        ensures
            self.patch(site, target).extends(pre),
    {
        reveal(CtxtView::extends);
    }

    /// Jumps that were emitted since `pre` may be aimed.
    pub proof fn lemma_patch_sites(self, pre: CtxtView, sites: Seq<usize>, target: usize)
        requires
            self.extends(pre),
            forall|j: int| 0 <= j < sites.len() ==> pre.insts.len() <= #[trigger] sites[j],
            target <= self.insts.len(),
        ensures
            self.patch_sites(sites, target).extends(pre),
    {
        reveal(CtxtView::extends);
        let post = self.patch_sites(sites, target);
        assert forall|i: int| 0 <= i < pre.insts.len() implies post.insts[i] == pre.insts[i] by {
            if sites.contains(i as usize) {
                let w = choose|w: int| 0 <= w < sites.len() && sites[w] == i as usize;
                assert(pre.insts.len() <= sites[w]);
            }
        }
    }

    /// The unwinding before a jump changes nothing but the instructions.
    pub proof fn lemma_unwind(self, pre: CtxtView, to: nat, span: Span, needs: Needs)
        requires
            self.extends(pre),
        ensures
            self.unwind(to, span, needs).extends(pre),
            self.unwind(to, span, needs).scopes == self.scopes,
            self.unwind(to, span, needs).depth == self.depth,
            self.unwind(to, span, needs).loops == self.loops,
            self.unwind(to, span, needs).insts.len() >= self.insts.len(),
    {
        reveal(CtxtView::extends);
    }

    /// One more value on the stack.
    pub proof fn lemma_push_value(self, pre: CtxtView, k: nat)
        requires
            self.leaves(pre, k),
        ensures
            self.push_value().leaves(pre, k + 1),
    {
        reveal(CtxtView::extends);
        let post = self.push_value();
        assert(post.scopes.names =~= pre.scopes.names + temporaries(k + 1));
        assert(post.scopes.names.take(pre.scopes.names.len() as int) =~= pre.scopes.names);
    }

    /// The values that were left since `pre` lie on top of the stack, in the
    /// innermost layer, without names; they may go.
    pub proof fn lemma_pop_values(self, pre: CtxtView, k: nat, n: nat)
        requires
            self.leaves(pre, k),
            n <= k,
        ensures
            self.scopes.local() >= n,
            forall|i: int|
                self.scopes.names.len() - n <= i < self.scopes.names.len() ==> self.scopes.names[i] is None,
            self.pop_values(n).leaves(pre, (k - n) as nat),
    {
        reveal(CtxtView::extends);
        let post = self.pop_values(n);
        assert(pre.scopes.layers[pre.scopes.layers.len() - 1] <= pre.scopes.names.len());
        assert(post.scopes.names =~= pre.scopes.names + temporaries((k - n) as nat));
        assert(post.scopes.names.take(pre.scopes.names.len() as int) =~= pre.scopes.names);
    }

    /// The topmost of the values that were left since `pre` may go.
    pub proof fn lemma_pop_value(self, pre: CtxtView, k: nat)
        requires
            self.leaves(pre, k),
            k >= 1,
        ensures
            self.scopes.local() > 0,
            self.scopes.names.last() is None,
            self.pop_value() == self.pop_values(1),
            self.pop_value().leaves(pre, (k - 1) as nat),
    {
        reveal(CtxtView::extends);
        self.lemma_pop_values(pre, k, 1);
        assert(self.scopes.names.drop_last() =~= self.scopes.names.take(self.scopes.names.len() - 1));
    }

    /// Several values become one.
    pub proof fn lemma_combine(self, pre: CtxtView, k: nat)
        requires
            self.leaves(pre, k),
        ensures
            self.scopes.local() >= k,
            forall|i: int|
                self.scopes.names.len() - k <= i < self.scopes.names.len() ==> self.scopes.names[i] is None,
            self.combine(k).leaves(pre, 1),
    {
        reveal(CtxtView::extends);
        self.lemma_pop_values(pre, k, k);
        self.pop_values(k).lemma_push_value(pre, 0);
    }

    /// A value that is not needed goes.
    pub proof fn lemma_discard(self, pre: CtxtView, span: Span, needs: Needs)
        requires
            self.leaves(pre, 1),
        ensures
            self.scopes.local() > 0,
            self.scopes.names.last() is None,
            self.discard(span, needs).leaves(pre, needs.count()),
    {
        reveal(CtxtView::extends);
        self.lemma_pop_value(pre, 1);
        self.emit(InstKind::Pop { count: 1 }, span).lemma_pop_value(pre, 1);
    }

    /// The value that was left since `pre` becomes a variable.
    pub proof fn lemma_bind(self, pre: CtxtView, name: Seq<char>)
        requires
            self.leaves(pre, 1),
        ensures
            self.scopes.local() > 0,
            self.scopes.names.last() is None,
            self.bind(name).extends(pre),
            self.bind(name).scopes.names == pre.scopes.names.push(Some(name)),
            self.bind(name).depth == pre.depth + 1,
    {
        reveal(CtxtView::extends);
        self.lemma_pop_value(pre, 1);
        let post = self.bind(name);
        assert(post.scopes.names =~= pre.scopes.names.push(Some(name)));
        assert(post.scopes.names.take(pre.scopes.names.len() as int) =~= pre.scopes.names);
    }

    /// A layer that was opened at `pre` is closed: what is left on the stack is
    /// what `pre` had and, if it is needed, the value of what was compiled in
    /// the layer.
    pub proof fn lemma_leave_layer(self, pre: CtxtView, span: Span, needs: Needs)
        requires
            pre.wf(),
            self.extends(pre.enter_layer()),
            self.scopes.names.len() >= pre.scopes.names.len() + needs.count(),
        ensures
            self.scopes.layers.len() > 1,
            self.leave_layer(span, needs).leaves(pre, needs.count()),
    {
        reveal(CtxtView::extends);
        let mid = pre.enter_layer();
        let unwound = self.unwind(self.scopes.layers.last(), span, needs);
        self.lemma_unwind(mid, self.scopes.layers.last(), span, needs);
        let closed = unwound.exit_layer();
        assert(closed.scopes.layers =~= pre.scopes.layers);
        assert(closed.scopes.names =~= pre.scopes.names);
        assert(closed.scopes == pre.scopes);
        assert(closed.extends(pre)) by {
            assert(closed.scopes.names.take(pre.scopes.names.len() as int) =~= pre.scopes.names);
        }
        closed.lemma_still(pre);
        if needs == Needs::Value {
            closed.lemma_push_value(pre, 0);
        }
    }

    /// A jump that was emitted since `pre` may wait for the end of a loop.
    pub proof fn lemma_record_break(self, pre: CtxtView, at: int, site: usize)
        requires
            self.extends(pre),
            0 <= at < self.loops.len(),
            pre.insts.len() <= site < self.insts.len(),
        ensures
            self.record_break(at, site).extends(pre),
    {
        reveal(CtxtView::extends);
        let post = self.record_break(at, site);
        assert forall|k: int, j: int|
            0 <= k < post.loops.len() && 0 <= j < post.loops[k].breaks.len() implies (
        #[trigger] post.loops[k].breaks[j]) < post.insts.len() by {
            if k != at || j < self.loops[k].breaks.len() {
                assert(post.loops[k].breaks[j] == self.loops[k].breaks[j]);
            }
        }
        assert forall|k: int, j: int|
            0 <= k < pre.loops.len() && 0 <= j < post.loops[k].breaks.len() implies if j
            < pre.loops[k].breaks.len() {
            (#[trigger] post.loops[k].breaks[j]) == pre.loops[k].breaks[j]
        } else {
            post.loops[k].breaks[j] >= pre.insts.len()
        } by {
            let _ = self.loops[k];
            if k != at || j < self.loops[k].breaks.len() {
                assert(post.loops[k].breaks[j] == self.loops[k].breaks[j]);
            }
        }
    }

    /// A loop may be opened in a consistent state.
    pub proof fn lemma_enter_loop(self, label: Option<Seq<char>>, head: usize, needs: Needs)
        requires
            self.wf(),
            head <= self.insts.len(),
        ensures
            self.enter_loop(label, head, needs).wf(),
    {
        reveal(CtxtView::extends);
        let post = self.enter_loop(label, head, needs);
        assert forall|k: int, j: int|
            0 <= k < post.loops.len() && 0 <= j < post.loops[k].breaks.len() implies (
        #[trigger] post.loops[k].breaks[j]) < post.insts.len() by {
            if k < self.loops.len() {
                assert(post.loops[k].breaks[j] == self.loops[k].breaks[j]);
            }
        }
    }

    /// A loop that was opened at `pre` is closed, with the stack as deep as it
    /// was: nothing is left of it but its instructions.
    pub proof fn lemma_exit_loop(
        self,
        pre: CtxtView,
        label: Option<Seq<char>>,
        head: usize,
        needs: Needs,
    )
        requires
            pre.wf(),
            self.extends(pre.enter_loop(label, head, needs)),
            self.scopes.names.len() == pre.scopes.names.len(),
        ensures
            self.loops.len() > 0,
            self.depth == self.loops.last().start_depth,
            self.exit_loop().leaves(pre, 0),
    {
        reveal(CtxtView::extends);
        let mid = pre.enter_loop(label, head, needs);
        let post = self.exit_loop();
        let last = pre.loops.len() as int;
        assert(mid.loops[last].breaks.len() == 0);
        assert(self.loops[last].start_depth == mid.loops[last].start_depth);
        assert forall|i: int| 0 <= i < pre.insts.len() implies post.insts[i] == pre.insts[i] by {
            let sites = self.loops.last().breaks;
            if sites.contains(i as usize) {
                let w = choose|w: int| 0 <= w < sites.len() && sites[w] == i as usize;
                assert(self.loops[last].breaks[w] >= mid.insts.len());
            }
        }
        assert forall|k: int, j: int|
            0 <= k < post.loops.len() && 0 <= j < post.loops[k].breaks.len() implies (
        #[trigger] post.loops[k].breaks[j]) < post.insts.len() by {
            assert(post.loops[k].breaks[j] == self.loops[k].breaks[j]);
        }
        assert forall|k: int|
            0 <= k < pre.loops.len() implies {
            &&& (#[trigger] post.loops[k]).label == pre.loops[k].label
            &&& post.loops[k].start_depth == pre.loops[k].start_depth
            &&& post.loops[k].continue_target == pre.loops[k].continue_target
            &&& post.loops[k].needs == pre.loops[k].needs
            &&& pre.loops[k].breaks.len() <= post.loops[k].breaks.len()
        } by {
            assert(post.loops[k] == self.loops[k]);
            assert(mid.loops[k] == pre.loops[k]);
        }
        assert forall|k: int, j: int|
            0 <= k < pre.loops.len() && 0 <= j < post.loops[k].breaks.len() implies if j
            < pre.loops[k].breaks.len() {
            (#[trigger] post.loops[k].breaks[j]) == pre.loops[k].breaks[j]
        } else {
            post.loops[k].breaks[j] >= pre.insts.len()
        } by {
            assert(post.loops[k] == self.loops[k]);
            assert(mid.loops[k] == pre.loops[k]);
            assert(post.loops[k].breaks[j] == self.loops[k].breaks[j]);
        }
        assert(post.extends(pre));
        post.lemma_still(pre);
    }

    /// An instruction that pushes a value leaves one value.
    pub proof fn lemma_pushed(self, kind: InstKind, span: Span)
        requires
            self.wf(),
            !kind.jumps(),
        ensures
            self.emit(kind, span).push_value().leaves(self, 1),
    {
        reveal(CtxtView::extends);
        self.lemma_leaves_nothing();
        self.lemma_emit(self, kind, span);
        self.emit(kind, span).lemma_still(self);
        self.emit(kind, span).lemma_push_value(self, 0);
    }

    /// A constant that is pushed if it is needed leaves as many values as are
    /// needed.
    pub proof fn lemma_literal(self, lit: Literal, span: Span, needs: Needs)
        requires
            self.wf(),
        ensures
            self.literal(lit, span, needs).leaves(self, needs.count()),
    {
        reveal(CtxtView::extends);
        self.lemma_leaves_nothing();
        if needs == Needs::Value {
            let s = self.intern(lit);
            assert(s.extends(self));
            s.lemma_emit(
                self,
                InstKind::Push { constant: pool_index(self.consts, lit) as usize },
                span,
            );
            s.emit(InstKind::Push { constant: pool_index(self.consts, lit) as usize }, span).lemma_still(
                self,
            );
            s.emit(
                InstKind::Push { constant: pool_index(self.consts, lit) as usize },
                span,
            ).lemma_push_value(self, 0);
        }
    }
}

} // verus!
