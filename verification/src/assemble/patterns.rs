//! Pattern matching.
use crate::assemble::{Ctxt, Needs};
use crate::ast::{Arm, Expr, ExprKind, Literal, Pat, PatKind, Span};
use crate::error::CompileError;
use crate::inst::InstKind;
use crate::model::{refines, CtxtView};
use crate::settle::sites_of;
use vstd::prelude::*;

verus! {

/// `post` holds the addresses of `pre` and, behind them, addresses from `from`
/// up to `to`.
pub open spec fn sites_grown(pre: Seq<usize>, post: Seq<usize>, from: nat, to: nat) -> bool {
    &&& pre.len() <= post.len()
    &&& forall|j: int| 0 <= j < pre.len() ==> post[j] == pre[j]
    &&& forall|j: int| pre.len() <= j < post.len() ==> from <= #[trigger] post[j] < to
}

/// The expression behind a reference that may be there.
pub open spec fn shape_view(shape: Option<&Expr>) -> Option<Expr> {
    match shape {
        Some(e) => Some(*e),
        None => None,
    }
}

/// The expressions behind a reference that may be there.
pub open spec fn items_view(items: Option<&Vec<Expr>>) -> Option<Seq<Expr>> {
    match items {
        Some(v) => Some(v@),
        None => None,
    }
}

impl Ctxt {
    /// Compiles `match`. The value that is matched stays on the stack while
    /// the arms are tried one after the other; each arm has a layer of its own
    /// for what its pattern binds. The end of each arm jumps to the end of the
    /// `match`. Where no arm matches, the value is the unit value.
    pub(crate) fn matching(
        &mut self,
        Ghost(e): Ghost<Expr>,
        scrutinee: &Expr,
        arms: &Vec<Arm>,
        span: Span,
        needs: Needs,
    ) -> (done: Result<(), CompileError>)
        requires
            old(self).wf(),
            e.kind matches ExprKind::Match { scrutinee: s, arms: a } && *s == *scrutinee && a
                == *arms,
            e.span == span,
        ensures
            refines(done, final(self)@, old(self)@.expr(e, needs)),
            done is Ok ==> final(self).wf() && final(self)@.leaves(old(self)@, needs.count())
                && final(self)@.tidy_since(old(self)@),
        decreases e, 1nat,
    {
        let ghost pre = self@;
        assert(pre.expr(e, needs) == pre.matching(e, needs));
        proof {
            self.lemma_wf();
        }
        let slot = self.depth();
        match self.expr(scrutinee, Needs::Value) {
            Err(err) => {
                return Err(err);
            },
            Ok(()) => {},
        }
        let ghost s1 = self@;
        proof {
            s1.lemma_leaves_nothing();
            s1.lemma_settled_start(sites_of(Seq::<usize>::empty()));
        }
        let count: usize = if needs.value() {
            1
        } else {
            0
        };
        let mut ends: Vec<usize> = Vec::new();
        let mut i: usize = 0;
        while i < arms.len()
            invariant
                i <= arms.len(),
                count == needs.count(),
                e.kind matches ExprKind::Match { scrutinee: s, arms: a } && *s == *scrutinee && a
                    == *arms,
                self.wf(),
                pre == old(self)@,
                self@.leaves(s1, 0),
                sites_grown(Seq::empty(), ends@, s1.insts.len(), self@.insts.len()),
                self@.settled_since(s1, sites_of(ends@)),
                slot == pre.depth,
                pre.expr(e, needs) == pre.matching(e, needs),
                pre.expr(*scrutinee, Needs::Value) == Ok::<CtxtView, CompileError>(s1),
                self@.arms(arms@, i as nat, slot, *scrutinee, needs, ends@) == s1.arms(
                    arms@,
                    0,
                    slot,
                    *scrutinee,
                    needs,
                    Seq::empty(),
                ),
            decreases arms.len() - i,
        {
            let ghost s = self@;
            self.enter_layer();
            let ghost sa = self@;
            proof {
                self.lemma_wf();
            }
            let mut fails: Vec<usize> = Vec::new();
            match self.pat(&arms[i].pat, slot, Some(scrutinee), &mut fails) {
                Err(err) => {
                    return Err(err);
                },
                Ok(()) => {},
            }
            let ghost sb = self@;
            match self.expr(&arms[i].body, needs) {
                Err(err) => {
                    return Err(err);
                },
                Ok(()) => {},
            }
            let ghost sc = self@;
            let at = arms[i].body.span;
            let ghost jump = InstKind::Jump { target: None };
            proof {
                sb.lemma_extends(sa);
                sc.lemma_extends_trans(sb, sa);
                sc.lemma_leave_layer(s, at, needs);
                let sd = sc.leave_layer(at, needs);
                sd.lemma_emit(s, jump, at);
                sd.emit(jump, at).lemma_pop_values(s, needs.count(), needs.count());
                let se = sd.emit(jump, at).pop_values(needs.count());
                assert forall|j: int| 0 <= j < fails@.len() implies s.insts.len()
                    <= #[trigger] fails@[j] < se.insts.len() by {}
                se.lemma_patch_sites(s, fails@, se.here());
                se.patch_sites(fails@, se.here()).lemma_still(s);
                se.patch_sites(fails@, se.here()).lemma_leaves_trans(s, s1, 0, 0);
            }
            let ghost earlier = ends@;
            self.leave_layer(at, needs);
            let site = self.emit(InstKind::Jump { target: None }, at);
            ends.push(site);
            proof {
                self.lemma_wf();
                let none = Set::<int>::empty();
                let failing = sites_of(fails@);
                let sd = sc.leave_layer(at, needs);
                let se = sd.emit(jump, at).pop_values(needs.count());
                let done = se.patch_sites(fails@, se.here());
                sc.lemma_settled_trans(sb, sa, failing, none, failing);
                sc.lemma_settled_leave_layer(sa, failing, at, needs);
                sd.lemma_settled_emit(sa, failing, jump, at, failing.insert(site as int));
                se.lemma_settled_patch_sites(
                    sa,
                    failing.insert(site as int),
                    fails@,
                    se.here(),
                    none.insert(site as int),
                );
                assert(ends@[ends@.len() - 1] == site);
                assert forall|i: int|
                    sites_of(earlier).contains(i) || none.insert(site as int).contains(
                        i,
                    ) implies sites_of(ends@).contains(i) by {
                    if sites_of(earlier).contains(i) {
                        let j = choose|j: int| 0 <= j < earlier.len() && earlier[j] == i as usize;
                        assert(ends@[j] == i as usize);
                    }
                }
                done.lemma_settled_trans(
                    s,
                    s1,
                    sites_of(earlier),
                    none.insert(site as int),
                    sites_of(ends@),
                );
            }
            self.pop_values(count);
            let here = self.here();
            self.patch_sites(&fails, here);
            i = i + 1;
        }
        let ghost s2 = self@;
        let ghost clean = InstKind::Clean { count: 1 };
        let ghost pop = InstKind::Pop { count: 1 };
        proof {
            s2.lemma_literal(Literal::Unit, span, needs);
            let s3 = s2.literal(Literal::Unit, span, needs);
            s3.lemma_leaves_trans(s2, s1, 0, needs.count());
            s3.lemma_leaves_trans(s1, pre, 1, needs.count());
            assert forall|j: int| 0 <= j < ends@.len() implies pre.insts.len() <= #[trigger] ends@[j]
                < s3.insts.len() by {}
            s3.lemma_patch_sites(pre, ends@, s3.here());
            let s4 = s3.patch_sites(ends@, s3.here());
            if needs == Needs::Value {
                s4.lemma_emit(pre, clean, span);
                s4.emit(clean, span).lemma_combine(pre, 2);
            } else {
                s4.lemma_emit(pre, pop, span);
                s4.emit(pop, span).lemma_pop_value(pre, 1);
            }
        }
        self.literal(Literal::Unit, span, needs);
        proof {
            self.lemma_wf();
            let none = Set::<int>::empty();
            let s3 = self@;
            let s4 = s3.patch_sites(ends@, s3.here());
            s2.lemma_settled_literal(s1, sites_of(ends@), Literal::Unit, span, needs);
            s3.lemma_patch_sites(s1, ends@, s3.here());
            s3.lemma_settled_patch_sites(s1, sites_of(ends@), ends@, s3.here(), none);
            s4.lemma_settled_trans(s1, pre, none, none, none);
            s4.lemma_settled_plain(pre, none, clean, span);
            s4.lemma_settled_plain(pre, none, pop, span);
        }
        let here = self.here();
        self.patch_sites(&ends, here);
        if needs.value() {
            self.emit(InstKind::Clean { count: 1 }, span);
            self.combine(2);
        } else {
            self.emit(InstKind::Pop { count: 1 }, span);
            self.pop_value();
        }
        Ok(())
    }

    /// Emits a test of the value in a slot and the branch that is taken where
    /// the test fails. The branch removes what the arm has put on the stack so
    /// far, and waits, in `fails`, for the address of the next arm.
    pub(crate) fn branch(&mut self, test: InstKind, span: Span, fails: &mut Vec<usize>)
        requires
            old(self).wf(),
            !test.jumps(),
        ensures
            final(self).wf(),
            (final(self)@, final(fails)@) == old(self)@.branch(test, span, old(fails)@),
            final(self)@.leaves(old(self)@, 0),
            sites_grown(
                old(fails)@,
                final(fails)@,
                old(self)@.insts.len(),
                final(self)@.insts.len(),
            ),
            final(self)@.settled_since(old(self)@, sites_of(final(fails)@)),
    {
        reveal(CtxtView::branch);
        let ghost pre = self@;
        let count = self.local();
        let ghost skip = InstKind::PopAndJumpIfNot { count, target: None };
        proof {
            self.lemma_wf();
            pre.lemma_pushed(test, span);
            let s1 = pre.emit(test, span).push_value();
            s1.lemma_emit(pre, skip, span);
            s1.emit(skip, span).lemma_pop_value(pre, 1);
        }
        self.emit(test, span);
        self.push_value();
        let site = self.emit(InstKind::PopAndJumpIfNot { count, target: None }, span);
        self.pop_value();
        fails.push(site);
        proof {
            let none = Set::<int>::empty();
            let open = sites_of(fails@);
            assert(fails@[fails@.len() - 1] == site);
            assert(open.contains(site as int));
            pre.lemma_settled_start(none);
            pre.lemma_settled_plain(pre, none, test, span);
            pre.emit(test, span).push_value().lemma_settled_emit(pre, none, skip, span, open);
        }
    }

    /// Compiles a pattern against the value in `slot`. `shape` is the
    /// expression that computed that value, where it is known.
    ///
    /// `_` and a name match everything, and nothing is tested for them. A
    /// literal is compared with the value. A tuple pattern against a tuple
    /// expression matches if both have the same number of elements, which is
    /// known here: another number is `PatternArityMismatch`, and nothing is
    /// tested at run time. Against any other value the number of elements is
    /// tested at run time.
    pub fn pat(
        &mut self,
        p: &Pat,
        slot: usize,
        shape: Option<&Expr>,
        fails: &mut Vec<usize>,
    ) -> (done: Result<(), CompileError>)
        requires
            old(self).wf(),
        ensures
            match old(self)@.pat(*p, slot, shape_view(shape), old(fails)@) {
                Ok((s, f)) => done is Ok && final(self)@ == s && final(fails)@ == f,
                Err(err) => done == Err::<(), CompileError>(err),
            },
            done is Ok ==> final(self).wf() && final(self)@.extends(old(self)@) && sites_grown(
                old(fails)@,
                final(fails)@,
                old(self)@.insts.len(),
                final(self)@.insts.len(),
            ) && final(self)@.settled_since(old(self)@, sites_of(final(fails)@)),
        decreases p, 2nat,
    {
        let ghost pre = self@;
        proof {
            self.lemma_wf();
            pre.lemma_leaves_nothing();
        }
        let ghost none = Set::<int>::empty();
        proof {
            pre.lemma_settled_start(none);
            pre.lemma_settled_weaken(pre, none, sites_of(fails@));
        }
        match &p.kind {
            PatKind::Ignore => Ok(()),
            PatKind::Binding(name) => {
                let ghost copy = InstKind::Copy { slot };
                proof {
                    pre.lemma_pushed(copy, p.span);
                    pre.emit(copy, p.span).push_value().lemma_bind(pre, name@);
                    pre.lemma_settled_plain(pre, none, copy, p.span);
                    pre.emit(copy, p.span).lemma_settled_weaken(pre, none, sites_of(fails@));
                }
                self.emit(InstKind::Copy { slot }, p.span);
                self.push_value();
                self.bind(name.clone());
                Ok(())
            },
            PatKind::Lit(lit) => {
                let constant = self.intern(*lit);
                let ghost s1 = self@;
                proof {
                    self.lemma_wf();
                    pre.lemma_intern(pre, *lit);
                }
                self.branch(InstKind::EqConst { slot, constant }, p.span, fails);
                proof {
                    self@.lemma_extends_trans(s1, pre);
                }
                Ok(())
            },
            PatKind::Tuple(ps) => {
                match shape {
                    Some(known) => match &known.kind {
                        ExprKind::Tuple(items) => {
                            if items.len() != ps.len() {
                                return Err(CompileError::PatternArityMismatch { span: p.span });
                            }
                            return self.pats(ps, slot, Some(items), fails);
                        },
                        _ => {},
                    },
                    None => {},
                }
                let ghost before = fails@;
                self.branch(InstKind::IsTuple { slot, len: ps.len() }, p.span, fails);
                let ghost s1 = self@;
                let ghost between = fails@;
                match self.pats(ps, slot, None, fails) {
                    Err(err) => Err(err),
                    Ok(()) => {
                        proof {
                            self@.lemma_extends(s1);
                            self@.lemma_extends_trans(s1, pre);
                            assert forall|i: int| sites_of(between).contains(i) implies sites_of(
                                fails@,
                            ).contains(i) by {
                                let j = choose|j: int| 0 <= j < between.len() && between[j] == i as usize;
                                assert(fails@[j] == i as usize);
                            }
                            self@.lemma_settled_trans(
                                s1,
                                pre,
                                sites_of(between),
                                sites_of(fails@),
                                sites_of(fails@),
                            );
                        }
                        Ok(())
                    },
                }
            },
        }
    }

    /// Compiles the patterns of a tuple pattern against the elements of the
    /// tuple in `slot`. An element that `_` stands for is not fetched; any
    /// other is fetched into a slot of the arm's layer and matched there.
    /// `items` are the expressions that computed the elements, where they are
    /// known.
    pub fn pats(
        &mut self,
        ps: &Vec<Pat>,
        slot: usize,
        items: Option<&Vec<Expr>>,
        fails: &mut Vec<usize>,
    ) -> (done: Result<(), CompileError>)
        requires
            old(self).wf(),
            items matches Some(v) ==> v.len() == ps.len(),
        ensures
            match old(self)@.pats(ps@, 0, slot, items_view(items), old(fails)@) {
                Ok((s, f)) => done is Ok && final(self)@ == s && final(fails)@ == f,
                Err(err) => done == Err::<(), CompileError>(err),
            },
            done is Ok ==> final(self).wf() && final(self)@.extends(old(self)@) && sites_grown(
                old(fails)@,
                final(fails)@,
                old(self)@.insts.len(),
                final(self)@.insts.len(),
            ) && final(self)@.settled_since(old(self)@, sites_of(final(fails)@)),
        decreases ps, 0nat,
    {
        let ghost pre = self@;
        let ghost first = fails@;
        proof {
            self.lemma_wf();
            pre.lemma_leaves_nothing();
            pre.lemma_settled_start(sites_of(fails@));
        }
        let mut i: usize = 0;
        while i < ps.len()
            invariant
                i <= ps.len(),
                items matches Some(v) ==> v.len() == ps.len(),
                self.wf(),
                pre == old(self)@,
                self@.extends(pre),
                first == old(fails)@,
                sites_grown(first, fails@, pre.insts.len(), self@.insts.len()),
                self@.settled_since(pre, sites_of(fails@)),
                self@.pats(ps@, i as nat, slot, items_view(items), fails@) == pre.pats(
                    ps@,
                    0,
                    slot,
                    items_view(items),
                    first,
                ),
            decreases ps.len() - i,
        {
            let ignored = match &ps[i].kind {
                PatKind::Ignore => true,
                _ => false,
            };
            if !ignored {
                let ghost s = self@;
                let ghost get = InstKind::TupleGet { slot, index: i };
                let ghost before = fails@;
                proof {
                    self.lemma_wf();
                    s.lemma_pushed(get, ps[i as int].span);
                }
                self.emit(InstKind::TupleGet { slot, index: i }, ps[i].span);
                let element = self.push_value();
                let ghost s1 = self@;
                let shape: Option<&Expr> = match items {
                    Some(v) => Some(&v[i]),
                    None => None,
                };
                match self.pat(&ps[i], element, shape, fails) {
                    Err(err) => {
                        return Err(err);
                    },
                    Ok(()) => {
                        proof {
                            s.lemma_extends(pre);
                            self@.lemma_extends(s1);
                            self@.lemma_extends_trans(s1, s);
                            self@.lemma_extends_trans(s, pre);
                            assert forall|i: int| sites_of(before).contains(i) implies sites_of(
                                fails@,
                            ).contains(i) by {
                                let j = choose|j: int| 0 <= j < before.len() && before[j] == i as usize;
                                assert(fails@[j] == i as usize);
                            }
                            s.lemma_settled_plain(pre, sites_of(before), get, ps[i as int].span);
                            self@.lemma_settled_trans(
                                s1,
                                pre,
                                sites_of(before),
                                sites_of(fails@),
                                sites_of(fails@),
                            );
                        }
                    },
                }
            }
            i = i + 1;
        }
        Ok(())
    }
}

} // verus!
