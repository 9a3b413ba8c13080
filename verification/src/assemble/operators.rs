//! Operators.
use crate::assemble::{Ctxt, Needs};
use crate::ast::{BinOp, Expr, ExprKind, Span};
use crate::error::CompileError;
use crate::inst::InstKind;
use crate::model::refines;
use vstd::prelude::*;

verus! {

impl Ctxt {
    /// Compiles an operator that always computes both operands.
    pub(crate) fn binary(
        &mut self,
        Ghost(e): Ghost<Expr>,
        op: BinOp,
        lhs: &Expr,
        rhs: &Expr,
        span: Span,
        needs: Needs,
    ) -> (done: Result<(), CompileError>)
        requires
            old(self).wf(),
            e.kind matches ExprKind::Binary { op: o, lhs: l, rhs: r } && o == op && *l == *lhs && *r
                == *rhs,
            e.span == span,
            !op.short_circuits(),
        ensures
            refines(done, final(self)@, old(self)@.expr(e, needs)),
            done is Ok ==> final(self).wf() && final(self)@.leaves(old(self)@, needs.count())
                && final(self)@.tidy_since(old(self)@),
        decreases e, 1nat,
    {
        let ghost pre = self@;
        assert(pre.expr(e, needs) == pre.binary(e, needs));
        proof {
            self.lemma_wf();
        }
        let base: usize = self.depth();
        let a = match self.operand(lhs) {
            Err(err) => {
                return Err(err);
            },
            Ok(a) => a,
        };
        let ghost s1 = self@;
        let b = match self.operand(rhs) {
            Err(err) => {
                return Err(err);
            },
            Ok(b) => b,
        };
        let ghost s2 = self@;
        let ghost k: nat = (s2.depth - pre.depth) as nat;
        proof {
            s2.lemma_leaves_trans(
                s1,
                pre,
                (s1.depth - pre.depth) as nat,
                (s2.depth - s1.depth) as nat,
            );
            let kind = InstKind::Op { op, a, b };
            s2.lemma_emit(pre, kind, span);
            s2.emit(kind, span).lemma_pop_values(pre, k, k);
            s2.emit(kind, span).pop_values(k).lemma_push_value(pre, 0);
            s2.emit(kind, span).pop_values(k).push_value().lemma_discard(pre, span, needs);
            self.lemma_wf();
            let none = Set::<int>::empty();
            s2.lemma_settled_trans(s1, pre, none, none, none);
            s2.lemma_settled_plain(pre, none, kind, span);
            s2.emit(kind, span).pop_values(k).push_value().lemma_settled_discard(
                pre,
                none,
                span,
                needs,
            );
        }
        let count: usize = self.depth() - base;
        self.emit(InstKind::Op { op, a, b }, span);
        self.pop_values(count);
        self.push_value();
        self.discard(span, needs);
        Ok(())
    }

    /// Compiles `&&` or `||`: the right operand is jumped over where the left
    /// one decides.
    pub(crate) fn short_circuit(
        &mut self,
        Ghost(e): Ghost<Expr>,
        op: BinOp,
        lhs: &Expr,
        rhs: &Expr,
        span: Span,
        needs: Needs,
    ) -> (done: Result<(), CompileError>)
        requires
            old(self).wf(),
            e.kind matches ExprKind::Binary { op: o, lhs: l, rhs: r } && o == op && *l == *lhs && *r
                == *rhs,
            e.span == span,
            op.short_circuits(),
        ensures
            refines(done, final(self)@, old(self)@.expr(e, needs)),
            done is Ok ==> final(self).wf() && final(self)@.leaves(old(self)@, needs.count())
                && final(self)@.tidy_since(old(self)@),
        decreases e, 1nat,
    {
        let ghost pre = self@;
        assert(pre.expr(e, needs) == pre.short_circuit(e, needs));
        proof {
            self.lemma_wf();
        }
        match self.expr(lhs, Needs::Value) {
            Err(err) => {
                return Err(err);
            },
            Ok(()) => {},
        }
        let ghost s1 = self@;
        let test = match op {
            BinOp::And => InstKind::JumpIfNotOrPop { target: None },
            _ => InstKind::JumpIfOrPop { target: None },
        };
        proof {
            s1.lemma_emit(pre, test, span);
            s1.emit(test, span).lemma_pop_value(pre, 1);
        }
        let site = self.emit(test, span);
        self.pop_value();
        let ghost s1b = self@;
        match self.expr(rhs, Needs::Value) {
            Err(err) => {
                return Err(err);
            },
            Ok(()) => {},
        }
        let ghost s2 = self@;
        proof {
            s2.lemma_leaves_trans(s1b, pre, 0, 1);
            s2.lemma_patch(pre, site, s2.here());
            s2.patch(site, s2.here()).lemma_discard(pre, span, needs);
            let none = Set::<int>::empty();
            let one = none.insert(site as int);
            s1.lemma_settled_emit(pre, none, test, span, one);
            s2.lemma_settled_trans(s1b, pre, one, none, one);
            s2.lemma_settled_patch(pre, one, site, s2.here(), none);
            s2.patch(site, s2.here()).lemma_settled_discard(pre, none, span, needs);
        }
        let here = self.here();
        self.patch(site, here);
        self.discard(span, needs);
        Ok(())
    }
}

} // verus!
