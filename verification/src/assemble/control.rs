//! Conditionals, loops, and the jumps out of loops.
use crate::assemble::{Ctxt, Needs};
use crate::ast::{name_view, Block, Expr, ExprKind, Literal, Span};
use crate::error::CompileError;
use crate::inst::InstKind;
use crate::model::{refines, CtxtView};
use vstd::prelude::*;

verus! {

impl Ctxt {
    /// Compiles `if`: exactly one branch runs, and both leave the stack at the
    /// same depth. Without an `else` the value is the unit value where the
    /// condition does not hold.
    pub(crate) fn conditional(
        &mut self,
        Ghost(e): Ghost<Expr>,
        cond: &Expr,
        then_branch: &Block,
        else_branch: &Option<Box<Expr>>,
        span: Span,
        needs: Needs,
    ) -> (done: Result<(), CompileError>)
        requires
            old(self).wf(),
            e.kind matches ExprKind::If { cond: c, then_branch: t, else_branch: o } && *c == *cond
                && t == *then_branch && o == *else_branch,
            e.span == span,
        ensures
            refines(done, final(self)@, old(self)@.expr(e, needs)),
            done is Ok ==> final(self).wf() && final(self)@.leaves(old(self)@, needs.count())
                && final(self)@.tidy_since(old(self)@),
        decreases e, 1nat,
    {
        let ghost pre = self@;
        assert(pre.expr(e, needs) == pre.conditional(e, needs));
        proof {
            self.lemma_wf();
        }
        match self.expr(cond, Needs::Value) {
            Err(err) => {
                return Err(err);
            },
            Ok(()) => {},
        }
        let ghost s1 = self@;
        let ghost test = InstKind::JumpIfNot { target: None };
        proof {
            s1.lemma_emit(pre, test, span);
            s1.emit(test, span).lemma_pop_value(pre, 1);
        }
        let else_site = self.emit(InstKind::JumpIfNot { target: None }, span);
        self.pop_value();
        let ghost s1b = self@;
        match self.block(then_branch, needs) {
            Err(err) => {
                return Err(err);
            },
            Ok(()) => {},
        }
        let ghost s2 = self@;
        let ghost none = Set::<int>::empty();
        let ghost first = none.insert(else_site as int);
        proof {
            s2.lemma_leaves_trans(s1b, pre, 0, needs.count());
            s1.lemma_settled_emit(pre, none, test, span, first);
            s2.lemma_settled_trans(s1b, pre, first, none, first);
        }
        if else_branch.is_none() && !needs.value() {
            proof {
                s2.lemma_patch(pre, else_site, s2.here());
                s2.lemma_settled_patch(pre, first, else_site, s2.here(), none);
            }
            let here = self.here();
            self.patch(else_site, here);
            return Ok(());
        }
        let ghost jump = InstKind::Jump { target: None };
        proof {
            s2.lemma_emit(pre, jump, span);
            s2.emit(jump, span).lemma_pop_values(pre, needs.count(), needs.count());
        }
        let end_site = self.emit(InstKind::Jump { target: None }, span);
        let count: usize = if needs.value() {
            1
        } else {
            0
        };
        self.pop_values(count);
        let ghost s3 = self@;
        let ghost second = none.insert(end_site as int);
        proof {
            s3.lemma_patch(pre, else_site, s3.here());
            s2.lemma_settled_emit(pre, first, jump, span, first.insert(end_site as int));
            s3.lemma_settled_patch(pre, first.insert(end_site as int), else_site, s3.here(), second);
        }
        let here = self.here();
        self.patch(else_site, here);
        let ghost s4 = self@;
        match else_branch {
            Some(other) => match self.expr(other, needs) {
                Err(err) => {
                    return Err(err);
                },
                Ok(()) => {},
            },
            None => {
                proof {
                    s4.lemma_literal(Literal::Unit, span, needs);
                }
                self.literal(Literal::Unit, span, needs);
            },
        }
        let ghost s5 = self@;
        proof {
            s5.lemma_leaves_trans(s4, pre, 0, needs.count());
            s5.lemma_patch(pre, end_site, s5.here());
            s5.lemma_settled_trans(s4, pre, second, none, second);
            s5.lemma_settled_patch(pre, second, end_site, s5.here(), none);
        }
        let here = self.here();
        self.patch(end_site, here);
        Ok(())
    }

    /// Compiles `loop`: the body runs again and again, and only `break`
    /// leaves it. Where the value of the loop is needed, every `break` of the
    /// loop hands one over.
    pub(crate) fn endless(
        &mut self,
        Ghost(e): Ghost<Expr>,
        label: &Option<String>,
        body: &Block,
        span: Span,
        needs: Needs,
    ) -> (done: Result<(), CompileError>)
        requires
            old(self).wf(),
            e.kind matches ExprKind::Loop { label: l, body: b } && l == *label && b == *body,
            e.span == span,
        ensures
            refines(done, final(self)@, old(self)@.expr(e, needs)),
            done is Ok ==> final(self).wf() && final(self)@.leaves(old(self)@, needs.count())
                && final(self)@.tidy_since(old(self)@),
        decreases e, 1nat,
    {
        let ghost pre = self@;
        assert(pre.expr(e, needs) == pre.endless(e, needs));
        proof {
            self.lemma_wf();
            pre.lemma_enter_loop(name_view(*label), pre.here(), needs);
        }
        let head = self.here();
        match self.enter_loop(label, head, needs, span) {
            Err(err) => {
                return Err(err);
            },
            Ok(()) => {},
        }
        let ghost s0 = self@;
        match self.block(body, Needs::Nothing) {
            Err(err) => {
                return Err(err);
            },
            Ok(()) => {},
        }
        let ghost s1 = self@;
        let ghost jump = InstKind::Jump { target: Some(head) };
        proof {
            s1.lemma_emit(s0, jump, span);
            s1.emit(jump, span).lemma_exit_loop(pre, name_view(*label), head, needs);
            s1.emit(jump, span).exit_loop().lemma_push_value(pre, 0);
            s1.lemma_settled_plain(s0, Set::empty(), jump, span);
            s1.emit(jump, span).lemma_settled_exit_loop(pre, name_view(*label), head, needs);
        }
        self.emit(InstKind::Jump { target: Some(head) }, span);
        self.exit_loop();
        if needs.value() {
            self.push_value();
        }
        Ok(())
    }

    /// Compiles `while`: the condition is tested before every run of the body,
    /// and `continue` goes back to the test. The value of the loop is the unit
    /// value.
    pub(crate) fn while_loop(
        &mut self,
        Ghost(e): Ghost<Expr>,
        label: &Option<String>,
        cond: &Expr,
        body: &Block,
        span: Span,
        needs: Needs,
    ) -> (done: Result<(), CompileError>)
        requires
            old(self).wf(),
            e.kind matches ExprKind::While { label: l, cond: c, body: b } && l == *label && *c
                == *cond && b == *body,
            e.span == span,
        ensures
            refines(done, final(self)@, old(self)@.expr(e, needs)),
            done is Ok ==> final(self).wf() && final(self)@.leaves(old(self)@, needs.count())
                && final(self)@.tidy_since(old(self)@),
        decreases e, 1nat,
    {
        let ghost pre = self@;
        assert(pre.expr(e, needs) == pre.while_loop(e, needs));
        proof {
            self.lemma_wf();
            pre.lemma_enter_loop(name_view(*label), pre.here(), Needs::Nothing);
        }
        let head = self.here();
        let at = self.loop_count();
        match self.enter_loop(label, head, Needs::Nothing, span) {
            Err(err) => {
                return Err(err);
            },
            Ok(()) => {},
        }
        let ghost s0 = self@;
        match self.expr(cond, Needs::Value) {
            Err(err) => {
                return Err(err);
            },
            Ok(()) => {},
        }
        let ghost s1 = self@;
        let ghost test = InstKind::JumpIfNot { target: None };
        proof {
            s1.lemma_emit(s0, test, span);
            s1.emit(test, span).lemma_pop_value(s0, 1);
        }
        let site = self.emit(InstKind::JumpIfNot { target: None }, span);
        self.pop_value();
        proof {
            self@.lemma_record_break(s0, at as int, site);
            let none = Set::<int>::empty();
            s1.lemma_settled_emit(s0, none, test, span, none.insert(site as int));
            self@.lemma_settled_record(s0, none.insert(site as int), at as int, site, none);
        }
        self.record_break(at, site);
        let ghost s1b = self@;
        match self.block(body, Needs::Nothing) {
            Err(err) => {
                return Err(err);
            },
            Ok(()) => {},
        }
        let ghost s2 = self@;
        let ghost jump = InstKind::Jump { target: Some(head) };
        proof {
            s2.lemma_extends_trans(s1b, s0);
            s2.lemma_emit(s0, jump, span);
            s2.emit(jump, span).lemma_exit_loop(pre, name_view(*label), head, Needs::Nothing);
            let s3 = s2.emit(jump, span).exit_loop();
            s3.lemma_literal(Literal::Unit, span, needs);
            s3.literal(Literal::Unit, span, needs).lemma_leaves_trans(s3, pre, 0, needs.count());
            let none = Set::<int>::empty();
            s2.lemma_settled_trans(s1b, s0, none, none, none);
            s2.lemma_settled_plain(s0, none, jump, span);
            s2.emit(jump, span).lemma_settled_exit_loop(pre, name_view(*label), head, Needs::Nothing);
            s3.lemma_settled_literal(pre, none, Literal::Unit, span, needs);
        }
        self.emit(InstKind::Jump { target: Some(head) }, span);
        self.exit_loop();
        self.literal(Literal::Unit, span, needs);
        Ok(())
    }

    /// Compiles `for`: the iterator lies on the stack while the loop runs; each
    /// run of the body has a layer of its own, in which the variable of the
    /// loop is bound to the next item. `continue` goes back to where the next
    /// item is fetched. The value of the loop is the unit value.
    pub(crate) fn for_loop(
        &mut self,
        Ghost(e): Ghost<Expr>,
        label: &Option<String>,
        name: &String,
        source: &Expr,
        body: &Block,
        span: Span,
        needs: Needs,
    ) -> (done: Result<(), CompileError>)
        requires
            old(self).wf(),
            e.kind matches ExprKind::For { label: l, var: v, iter: i, body: b } && l == *label && v
                == *name && *i == *source && b == *body,
            e.span == span,
        ensures
            refines(done, final(self)@, old(self)@.expr(e, needs)),
            done is Ok ==> final(self).wf() && final(self)@.leaves(old(self)@, needs.count())
                && final(self)@.tidy_since(old(self)@),
        decreases e, 1nat,
    {
        let ghost pre = self@;
        assert(pre.expr(e, needs) == pre.for_loop(e, needs));
        proof {
            self.lemma_wf();
        }
        let slot = self.depth();
        match self.expr(source, Needs::Value) {
            Err(err) => {
                assert(pre.expr(*source, Needs::Value) == Err::<CtxtView, CompileError>(err));
                assert(e.kind is For);
                assert(*e.kind->For_iter == *source);
                assert(pre.for_loop(e, needs) == Err::<CtxtView, CompileError>(err));
                assert(refines(Err::<(), CompileError>(err), self@, pre.expr(e, needs)));
                assert(pre == old(self)@);
                assert(refines(Err::<(), CompileError>(err), self@, old(self)@.expr(e, needs)));
                return Err(err);
            },
            Ok(()) => {},
        }
        let ghost s1 = self@;
        proof {
            s1.lemma_extends(pre);
            s1.lemma_enter_loop(name_view(*label), s1.here(), Needs::Nothing);
        }
        let head = self.here();
        let at = self.loop_count();
        match self.enter_loop(label, head, Needs::Nothing, span) {
            Err(err) => {
                return Err(err);
            },
            Ok(()) => {},
        }
        let ghost s2 = self@;
        self.enter_layer();
        let ghost s3 = self@;
        let ghost next = InstKind::IterNext { slot, target: None };
        proof {
            self.lemma_wf();
            s3.lemma_leaves_nothing();
            s3.lemma_emit(s3, next, span);
            s3.emit(next, span).lemma_record_break(s3, at as int, head);
            let s4 = s3.emit(next, span).record_break(at as int, head);
            s4.lemma_still(s3);
            s4.lemma_push_value(s3, 0);
            s4.push_value().lemma_bind(s3, name@);
            let none = Set::<int>::empty();
            s3.lemma_settled_start(none);
            s3.lemma_settled_emit(s3, none, next, span, none.insert(head as int));
            s3.emit(next, span).lemma_settled_record(s3, none.insert(head as int), at as int, head, none);
        }
        let site = self.emit(InstKind::IterNext { slot, target: None }, span);
        self.record_break(at, site);
        self.push_value();
        self.bind(name.clone());
        let ghost s5 = self@;
        match self.block(body, Needs::Nothing) {
            Err(err) => {
                return Err(err);
            },
            Ok(()) => {},
        }
        let ghost s6 = self@;
        let ghost jump = InstKind::Jump { target: Some(head) };
        let ghost pop = InstKind::Pop { count: 1 };
        proof {
            s6.lemma_extends_trans(s5, s3);
            s6.lemma_leave_layer(s2, span, Needs::Nothing);
            let s7 = s6.leave_layer(span, Needs::Nothing);
            s7.lemma_emit(s2, jump, span);
            s7.emit(jump, span).lemma_exit_loop(s1, name_view(*label), head, Needs::Nothing);
            let s8 = s7.emit(jump, span).exit_loop();
            s8.lemma_leaves_trans(s1, pre, 1, 0);
            s8.lemma_emit(pre, pop, span);
            s8.emit(pop, span).lemma_pop_value(pre, 1);
            let s9 = s8.emit(pop, span).pop_value();
            s9.lemma_literal(Literal::Unit, span, needs);
            s9.literal(Literal::Unit, span, needs).lemma_leaves_trans(s9, pre, 0, needs.count());
            let none = Set::<int>::empty();
            s6.lemma_settled_trans(s5, s2, none, none, none);
            s6.lemma_settled_leave_layer(s2, none, span, Needs::Nothing);
            s7.lemma_settled_plain(s2, none, jump, span);
            s7.emit(jump, span).lemma_settled_exit_loop(s1, name_view(*label), head, Needs::Nothing);
            s8.lemma_settled_trans(s1, pre, none, none, none);
            s8.lemma_settled_plain(pre, none, pop, span);
            s9.lemma_settled_literal(pre, none, Literal::Unit, span, needs);
        }
        self.leave_layer(span, Needs::Nothing);
        self.emit(InstKind::Jump { target: Some(head) }, span);
        self.exit_loop();
        self.emit(InstKind::Pop { count: 1 }, span);
        self.pop_value();
        self.literal(Literal::Unit, span, needs);
        Ok(())
    }

    /// Compiles `break`. The loop that it leaves is the innermost one, or the
    /// one that carries the label. Where that loop hands a value on, the value
    /// of the `break` is computed, or the unit value is pushed; then the stack
    /// is unwound to the depth at the entry of that loop, and the jump is noted
    /// with that loop to wait for its end.
    pub(crate) fn break_out(
        &mut self,
        Ghost(e): Ghost<Expr>,
        label: &Option<String>,
        value: &Option<Box<Expr>>,
        span: Span,
        needs: Needs,
    ) -> (done: Result<(), CompileError>)
        requires
            old(self).wf(),
            e.kind matches ExprKind::Break { label: l, value: v } && l == *label && v == *value,
            e.span == span,
        ensures
            refines(done, final(self)@, old(self)@.expr(e, needs)),
            done is Ok ==> final(self).wf() && final(self)@.leaves(old(self)@, needs.count())
                && final(self)@.tidy_since(old(self)@),
        decreases e, 1nat,
    {
        let ghost pre = self@;
        assert(pre.expr(e, needs) == pre.break_out(e, needs));
        proof {
            self.lemma_wf();
        }
        let at = match self.find_break(label, span) {
            Err(err) => {
                return Err(err);
            },
            Ok(at) => at,
        };
        let context = self.loop_at(at);
        let start = context.start_depth;
        let handed = context.needs;
        match value {
            Some(v) => match self.expr(v, handed) {
                Err(err) => {
                    return Err(err);
                },
                Ok(()) => {},
            },
            None => {
                proof {
                    pre.lemma_literal(Literal::Unit, span, handed);
                }
                self.literal(Literal::Unit, span, handed);
            },
        }
        let ghost s1 = self@;
        let ghost jump = InstKind::Jump { target: None };
        proof {
            s1.lemma_unwind(pre, start as nat, span, handed);
            let s2 = s1.unwind(start as nat, span, handed);
            s2.lemma_emit(pre, jump, span);
            s1.lemma_settled_unwind(pre, Set::empty(), start as nat, span, handed);
        }
        self.unwind(start, span, handed);
        let site = self.emit(InstKind::Jump { target: None }, span);
        proof {
            self@.lemma_record_break(pre, at as int, site);
            let s3 = self@.record_break(at as int, site);
            s3.lemma_pop_values(pre, handed.count(), handed.count());
            s3.pop_values(handed.count()).lemma_push_value(pre, 0);
            let none = Set::<int>::empty();
            s1.unwind(start as nat, span, handed).lemma_settled_emit(
                pre,
                none,
                jump,
                span,
                none.insert(site as int),
            );
            self@.lemma_settled_record(pre, none.insert(site as int), at as int, site, none);
        }
        self.record_break(at, site);
        let count: usize = if handed.value() {
            1
        } else {
            0
        };
        self.pop_values(count);
        if needs.value() {
            self.push_value();
        }
        Ok(())
    }

    /// Compiles `continue`: the stack is unwound to the depth at the entry of
    /// the loop, and the jump goes to where the next iteration of that loop
    /// starts.
    pub(crate) fn continue_on(
        &mut self,
        label: &Option<String>,
        span: Span,
        needs: Needs,
    ) -> (done: Result<(), CompileError>)
        requires
            old(self).wf(),
        ensures
            refines(done, final(self)@, old(self)@.continue_on(*label, span, needs)),
            done is Ok ==> final(self).wf() && final(self)@.leaves(old(self)@, needs.count())
                && final(self)@.tidy_since(old(self)@),
    {
        reveal(CtxtView::continue_on);
        let ghost pre = self@;
        proof {
            self.lemma_wf();
            pre.lemma_leaves_nothing();
        }
        let at = match self.find_continue(label, span) {
            Err(err) => {
                return Err(err);
            },
            Ok(at) => at,
        };
        let context = self.loop_at(at);
        let start = context.start_depth;
        let target = context.continue_target;
        let ghost jump = InstKind::Jump { target: Some(target) };
        proof {
            pre.lemma_unwind(pre, start as nat, span, Needs::Nothing);
            let s1 = pre.unwind(start as nat, span, Needs::Nothing);
            s1.lemma_emit(pre, jump, span);
            s1.emit(jump, span).lemma_still(pre);
            s1.emit(jump, span).lemma_push_value(pre, 0);
            pre.lemma_settled_start(Set::empty());
            pre.lemma_settled_unwind(pre, Set::empty(), start as nat, span, Needs::Nothing);
            s1.lemma_settled_plain(pre, Set::empty(), jump, span);
        }
        self.unwind(start, span, Needs::Nothing);
        self.emit(InstKind::Jump { target: Some(target) }, span);
        if needs.value() {
            self.push_value();
        }
        Ok(())
    }
}

} // verus!
