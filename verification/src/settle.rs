//! Jumps and their targets.
//!
//! A jump forwards is emitted before its target is known, and waits for it.
//! What is stated here is how the assembler keeps track of the jumps that
//! wait, so that none is left over: in what is compiled from a state on, a
//! jump without a target either waits for the end of an open loop or is one
//! of the few that the construct in hand is about to aim.
use crate::assemble::Needs;
use crate::inst::{Inst, InstKind};
use crate::loops::LoopView;
use crate::ast::{Literal, Span};
use crate::model::{pool_index, CtxtView};
use vstd::prelude::*;

verus! {

/// Whether the jump at `site` waits for the end of one of the loops.
pub open spec fn waits(loops: Seq<LoopView>, site: int) -> bool {
    exists|k: int| 0 <= k < loops.len() && #[trigger] loops[k].breaks.contains(site as usize)
}

/// The addresses in a list.
pub open spec fn sites_of(sites: Seq<usize>) -> Set<int> {
    Set::new(|i: int| 0 <= i && sites.contains(i as usize))
}

/// Every jump from the address `from` on that has no target waits for the end
/// of one of the loops or is one of `open`.
#[verifier::opaque]
pub open spec fn settled(
    insts: Seq<Inst>,
    loops: Seq<LoopView>,
    from: int,
    open: Set<int>,
) -> bool {
    forall|i: int|
        from <= i < insts.len() && (#[trigger] insts[i]).pending() ==> open.contains(i) || waits(
            loops,
            i,
        )
}

/// An instruction whose target is set does not wait.
pub proof fn lemma_target_set(kind: InstKind, target: usize)
    ensures
        !kind.with_target(target).pending(),
        kind.jumps() ==> kind.with_target(target).target() == Some(target),
{
}

impl CtxtView {
    /// The jumps of this state from `pre` on that have no target wait for the
    /// end of an open loop or are among `open`.
    pub open spec fn settled_since(self, pre: CtxtView, open: Set<int>) -> bool {
        settled(self.insts, self.loops, pre.insts.len() as int, open)
    }

    /// No jump of this state from `pre` on is left without a target, unless it
    /// waits for the end of an open loop.
    pub open spec fn tidy_since(self, pre: CtxtView) -> bool {
        self.settled_since(pre, Set::empty())
    }

    /// Nothing was emitted since the state itself.
    pub proof fn lemma_settled_start(self, open: Set<int>)
        ensures
            self.settled_since(self, open),
    {
        reveal(settled);
    }

    /// More jumps may be open.
    pub proof fn lemma_settled_weaken(self, pre: CtxtView, open: Set<int>, more: Set<int>)
        requires
            self.settled_since(pre, open),
            forall|i: int| open.contains(i) ==> more.contains(i),
        ensures
            self.settled_since(pre, more),
    {
        reveal(settled);
    }

    /// An instruction is emitted; if it is a jump without a target, it is open.
    pub proof fn lemma_settled_emit(
        self,
        pre: CtxtView,
        open: Set<int>,
        kind: InstKind,
        span: Span,
        more: Set<int>,
    )
        requires
            self.settled_since(pre, open),
            forall|i: int| open.contains(i) ==> more.contains(i),
            kind.pending() ==> more.contains(self.insts.len() as int),
        ensures
            self.emit(kind, span).settled_since(pre, more),
    {
        reveal(settled);
        let post = self.emit(kind, span);
        assert forall|i: int|
            pre.insts.len() <= i < post.insts.len() && (#[trigger] post.insts[i]).pending() implies more.contains(
            i,
        ) || waits(post.loops, i) by {
            if i < self.insts.len() {
                assert(post.insts[i] == self.insts[i]);
            }
        }
    }

    /// An instruction that does not wait is emitted.
    pub proof fn lemma_settled_plain(
        self,
        pre: CtxtView,
        open: Set<int>,
        kind: InstKind,
        span: Span,
    )
        requires
            self.settled_since(pre, open),
            !kind.pending(),
        ensures
            self.emit(kind, span).settled_since(pre, open),
    {
        self.lemma_settled_emit(pre, open, kind, span, open);
    }

    /// A constant is pushed.
    pub proof fn lemma_settled_literal(
        self,
        pre: CtxtView,
        open: Set<int>,
        lit: Literal,
        span: Span,
        needs: Needs,
    )
        requires
            self.settled_since(pre, open),
        ensures
            self.literal(lit, span, needs).settled_since(pre, open),
    {
        if needs == Needs::Value {
            self.intern(lit).lemma_settled_plain(
                pre,
                open,
                InstKind::Push { constant: pool_index(self.consts, lit) as usize },
                span,
            );
        }
    }

    /// A value that is not needed is removed.
    pub proof fn lemma_settled_discard(
        self,
        pre: CtxtView,
        open: Set<int>,
        span: Span,
        needs: Needs,
    )
        requires
            self.settled_since(pre, open),
        ensures
            self.discard(span, needs).settled_since(pre, open),
    {
        self.lemma_settled_plain(pre, open, InstKind::Pop { count: 1 }, span);
    }

    /// The stack is unwound.
    pub proof fn lemma_settled_unwind(
        self,
        pre: CtxtView,
        open: Set<int>,
        to: nat,
        span: Span,
        needs: Needs,
    )
        requires
            self.settled_since(pre, open),
        ensures
            self.unwind(to, span, needs).settled_since(pre, open),
    {
        let count = self.depth - needs.count() - to;
        self.lemma_settled_plain(pre, open, InstKind::Pop { count: count as usize }, span);
        self.lemma_settled_plain(pre, open, InstKind::Clean { count: count as usize }, span);
    }

    /// A layer is closed.
    pub proof fn lemma_settled_leave_layer(
        self,
        pre: CtxtView,
        open: Set<int>,
        span: Span,
        needs: Needs,
    )
        requires
            self.settled_since(pre, open),
        ensures
            self.leave_layer(span, needs).settled_since(pre, open),
    {
        self.lemma_settled_unwind(pre, open, self.scopes.layers.last(), span, needs);
    }

    /// A jump is aimed, and is open no longer.
    pub proof fn lemma_settled_patch(
        self,
        pre: CtxtView,
        open: Set<int>,
        site: usize,
        target: usize,
        rest: Set<int>,
    )
        requires
            self.settled_since(pre, open),
            site < self.insts.len(),
            forall|i: int| open.contains(i) && i != site ==> rest.contains(i),
        ensures
            self.patch(site, target).settled_since(pre, rest),
    {
        reveal(settled);
        let post = self.patch(site, target);
        lemma_target_set(self.insts[site as int].kind, target);
        assert forall|i: int|
            pre.insts.len() <= i < post.insts.len() && (#[trigger] post.insts[i]).pending() implies rest.contains(
            i,
        ) || waits(post.loops, i) by {
            if i != site {
                assert(post.insts[i] == self.insts[i]);
            }
        }
    }

    /// Jumps are aimed, and are open no longer.
    pub proof fn lemma_settled_patch_sites(
        self,
        pre: CtxtView,
        open: Set<int>,
        sites: Seq<usize>,
        target: usize,
        rest: Set<int>,
    )
        requires
            self.settled_since(pre, open),
            self.insts.len() <= usize::MAX,
            forall|i: int| open.contains(i) && !sites_of(sites).contains(i) ==> rest.contains(i),
        ensures
            self.patch_sites(sites, target).settled_since(pre, rest),
    {
        reveal(settled);
        let post = self.patch_sites(sites, target);
        assert forall|i: int|
            pre.insts.len() <= i < post.insts.len() && (#[trigger] post.insts[i]).pending() implies rest.contains(
            i,
        ) || waits(post.loops, i) by {
            lemma_target_set(self.insts[i].kind, target);
            if !sites.contains(i as usize) {
                assert(post.insts[i] == self.insts[i]);
            }
        }
    }

    /// A jump that waits for the end of a loop is open no longer.
    pub proof fn lemma_settled_record(
        self,
        pre: CtxtView,
        open: Set<int>,
        at: int,
        site: usize,
        rest: Set<int>,
    )
        requires
            self.settled_since(pre, open),
            0 <= at < self.loops.len(),
            forall|i: int| open.contains(i) && i != site ==> rest.contains(i),
        ensures
            self.record_break(at, site).settled_since(pre, rest),
    {
        reveal(settled);
        let post = self.record_break(at, site);
        assert forall|i: int|
            pre.insts.len() <= i < post.insts.len() && (#[trigger] post.insts[i]).pending() implies rest.contains(
            i,
        ) || waits(post.loops, i) by {
            if i == site {
                assert(post.loops[at].breaks[self.loops[at].breaks.len() as int] == site);
                assert(post.loops[at].breaks.contains(i as usize));
            } else if !rest.contains(i) {
                assert(waits(self.loops, i));
                let k = choose|k: int|
                    0 <= k < self.loops.len() && #[trigger] self.loops[k].breaks.contains(i as usize);
                let j = choose|j: int|
                    0 <= j < self.loops[k].breaks.len() && self.loops[k].breaks[j] == i as usize;
                assert(post.loops[k].breaks[j] == i as usize);
                assert(post.loops[k].breaks.contains(i as usize));
            }
        }
    }

    /// What was emitted one after the other: the jumps that are open are those
    /// of both parts.
    pub proof fn lemma_settled_trans(
        self,
        mid: CtxtView,
        pre: CtxtView,
        first: Set<int>,
        second: Set<int>,
        both: Set<int>,
    )
        requires
            mid.settled_since(pre, first),
            self.settled_since(mid, second),
            self.extends(mid),
            forall|i: int| first.contains(i) || second.contains(i) ==> both.contains(i),
        ensures
            self.settled_since(pre, both),
    {
        reveal(settled);
        reveal(CtxtView::extends);
        assert forall|i: int|
            pre.insts.len() <= i < self.insts.len() && (#[trigger] self.insts[i]).pending() implies both.contains(
            i,
        ) || waits(self.loops, i) by {
            if i < mid.insts.len() {
                assert(self.insts[i] == mid.insts[i]);
                if !first.contains(i) {
                    assert(waits(mid.loops, i));
                    let k = choose|k: int|
                        0 <= k < mid.loops.len() && #[trigger] mid.loops[k].breaks.contains(i as usize);
                    let j = choose|j: int|
                        0 <= j < mid.loops[k].breaks.len() && mid.loops[k].breaks[j] == i as usize;
                    let _ = self.loops[k];
                    assert(self.loops[k].breaks[j] == mid.loops[k].breaks[j]);
                    assert(self.loops[k].breaks.contains(i as usize));
                }
            }
        }
    }

    /// A loop that was opened at `pre` is closed: the jumps that waited for
    /// its end are aimed, and what still waits, waits for the end of a loop
    /// around it.
    pub proof fn lemma_settled_exit_loop(
        self,
        pre: CtxtView,
        label: Option<Seq<char>>,
        head: usize,
        needs: Needs,
    )
        requires
            self.extends(pre.enter_loop(label, head, needs)),
            self.settled_since(pre.enter_loop(label, head, needs), Set::empty()),
        ensures
            self.exit_loop().settled_since(pre, Set::empty()),
    {
        reveal(settled);
        reveal(CtxtView::extends);
        let post = self.exit_loop();
        let last = self.loops.len() - 1;
        let sites = self.loops.last().breaks;
        assert forall|i: int|
            pre.insts.len() <= i < post.insts.len() && (#[trigger] post.insts[i]).pending() implies waits(
            post.loops,
            i,
        ) by {
            lemma_target_set(self.insts[i].kind, self.here());
            assert(!sites.contains(i as usize));
            assert(post.insts[i] == self.insts[i]);
            assert(waits(self.loops, i));
            let k = choose|k: int|
                0 <= k < self.loops.len() && #[trigger] self.loops[k].breaks.contains(i as usize);
            assert(k != last);
            assert(post.loops[k] == self.loops[k]);
            assert(post.loops[k].breaks.contains(i as usize));
        }
    }

    /// With no loop open and no jump open, every jump has its target.
    pub proof fn lemma_settled_done(self, pre: CtxtView)
        requires
            self.settled_since(pre, Set::empty()),
            self.loops.len() == 0,
        ensures
            forall|i: int| pre.insts.len() <= i < self.insts.len() ==> !(#[trigger] self.insts[i]).pending(),
    {
        reveal(settled);
    }
}

} // verus!
