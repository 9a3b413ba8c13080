//! The assembler: from syntax tree to instructions.
use crate::ast::{name_view, Literal, Span};
use crate::error::CompileError;
use crate::inst::{Inst, InstKind};
use crate::loops::{break_loop, continue_loop, labels, Loop, Loops};
use crate::model::{patch_all, pool_index, refines, CtxtView};
use crate::scopes::{Scopes, Var};
use vstd::prelude::*;

pub mod control;
pub mod operators;
pub mod patterns;
pub mod walk;

verus! {

/// Whether the code around an expression uses its value.
#[derive(Clone, Copy, Debug, PartialEq, Eq, Structural)]
pub enum Needs {
    /// The value is used: the expression leaves exactly one value on the stack.
    Value,
    /// The value is discarded: the expression leaves the stack as it found it.
    Nothing,
}

impl Needs {
    /// The number of values that an expression compiled with this leaves on
    /// the stack.
    pub open spec fn count(self) -> nat {
        match self {
            Needs::Value => 1,
            Needs::Nothing => 0,
        }
    }

    /// Whether the value is used.
    pub fn value(self) -> (used: bool)
        ensures
            used == (self == Needs::Value),
            used == (self.count() == 1),
    {
        match self {
            Needs::Value => true,
            Needs::Nothing => false,
        }
    }
}

/// What the assembler hands to the virtual machine for one function.
#[derive(Debug)]
pub struct Function {
    /// The instructions.
    pub insts: Vec<Inst>,
    /// The constant pool that the instructions refer to.
    pub consts: Vec<Literal>,
    /// The number of slots that the frame of the function needs: the greatest
    /// depth that the stack reaches.
    pub frame: usize,
    /// The number of parameters, which lie in the first slots.
    pub params: usize,
}

/// The assembler of one function or closure body. It owns the instructions
/// emitted so far, the constant pool, the simulated stack with its scopes, and
/// the open loops.
pub struct Ctxt {
    insts: Vec<Inst>,
    consts: Vec<Literal>,
    depth: usize,
    peak: usize,
    scopes: Scopes,
    loops: Loops,
}

impl View for Ctxt {
    type V = CtxtView;

    closed spec fn view(&self) -> CtxtView {
        CtxtView {
            insts: self.insts@,
            consts: self.consts@,
            depth: self.depth as nat,
            peak: self.peak as nat,
            scopes: self.scopes@,
            loops: self.loops@,
        }
    }
}

impl Ctxt {
    /// The assembler is consistent, and so is what it holds.
    pub closed spec fn wf(&self) -> bool {
        &&& self.scopes.wf()
        &&& self@.wf()
    }

    /// The slots that the slot allocator has handed out.
    pub closed spec fn slots(&self) -> Set<nat> {
        self.scopes.slots()
    }

    /// The depth of the stack is the number of slots that are handed out, and
    /// these are the slots below it.
    pub proof fn lemma_wf(&self)
        requires
            self.wf(),
        ensures
            self@.wf(),
            self.slots() == Set::new(|i: nat| i < self@.depth),
            self@.insts.len() <= usize::MAX,
            self@.depth <= usize::MAX,
    {
        self.scopes.lemma_slots();
        assert(self@.insts.len() == self.insts.len());
    }

    /// An assembler at the start of a body: no instruction, nothing on the
    /// stack, one open layer, and the given names in the closure's environment.
    pub fn new(captures: Vec<String>) -> (cx: Ctxt)
        ensures
            cx.wf(),
            cx@ == CtxtView::start(captures@.map_values(|n: String| n@)),
    {
        let mut scopes = Scopes::new(captures);
        scopes.enter_layer();
        let cx = Ctxt {
            insts: Vec::new(),
            consts: Vec::new(),
            depth: 0,
            peak: 0,
            scopes,
            loops: Loops::new(),
        };
        assert(cx@.scopes.layers =~= seq![0nat]);
        cx
    }

    /// The address of the instruction that is emitted next.
    pub fn here(&self) -> (here: usize)
        ensures
            here == self@.here(),
            here == self@.insts.len(),
    {
        self.insts.len()
    }

    /// The depth of the simulated stack.
    pub fn depth(&self) -> (depth: usize)
        ensures
            depth == self@.depth,
    {
        self.depth
    }

    /// Whether a slot is handed out.
    pub fn is_live(&self, slot: usize) -> (live: bool)
        ensures
            live == self.slots().contains(slot as nat),
    {
        self.scopes.is_live(slot)
    }

    /// The number of values that the innermost layer owns.
    pub fn local(&self) -> (local: usize)
        requires
            self.wf(),
        ensures
            local == self@.scopes.local(),
    {
        self.scopes.local()
    }

    /// Appends an instruction and returns its address.
    pub fn emit(&mut self, kind: InstKind, span: Span) -> (site: usize)
        requires
            old(self).wf(),
            kind.aims_within((old(self)@.insts.len() + 1) as int),
        ensures
            final(self).wf(),
            final(self)@ == old(self)@.emit(kind, span),
            site == old(self)@.here(),
            site == old(self)@.insts.len(),
    {
        let site: usize = self.insts.len();
        self.insts.push(Inst { kind, span });
        site
    }

    /// Aims the jump at `site` at `target`.
    pub fn patch(&mut self, site: usize, target: usize)
        requires
            old(self).wf(),
            site < old(self)@.insts.len(),
            target <= old(self)@.insts.len(),
        ensures
            final(self).wf(),
            final(self)@ == old(self)@.patch(site, target),
    {
        let inst = self.insts[site];
        self.insts.set(site, Inst { kind: inst.kind.set_target(target), span: inst.span });
    }

    /// Aims the jumps at `sites` at `target`.
    pub fn patch_sites(&mut self, sites: &Vec<usize>, target: usize)
        requires
            old(self).wf(),
            forall|j: int| 0 <= j < sites.len() ==> sites[j] < old(self)@.insts.len(),
            target <= old(self)@.insts.len(),
        ensures
            final(self).wf(),
            final(self)@ == old(self)@.patch_sites(sites@, target),
    {
        let mut k: usize = 0;
        assert(self.insts@ =~= patch_all(old(self).insts@, sites@.take(0), target));
        while k < sites.len()
            invariant
                k <= sites.len(),
                forall|j: int| 0 <= j < sites.len() ==> sites[j] < old(self)@.insts.len(),
                target <= old(self)@.insts.len(),
                self.insts@ == patch_all(old(self).insts@, sites@.take(k as int), target),
                self.consts == old(self).consts,
                self.depth == old(self).depth,
                self.peak == old(self).peak,
                self.scopes == old(self).scopes,
                self.loops == old(self).loops,
            decreases sites.len() - k,
        {
            let site: usize = sites[k];
            let inst = self.insts[site];
            let ghost prev = self.insts@;
            self.insts.set(site, Inst { kind: inst.kind.set_target(target), span: inst.span });
            proof {
                let before = sites@.take(k as int);
                let after = sites@.take(k + 1);
                let first = old(self).insts@;
                assert(after =~= before.push(site));
                assert(after[k as int] == site);
                assert(first.len() == old(self).insts.len());
                assert(first[site as int].with_target(target).with_target(target)
                    == first[site as int].with_target(target));
                assert forall|i: int| 0 <= i < first.len() implies #[trigger] self.insts@[i] == (if after.contains(
                    i as usize,
                ) {
                    first[i].with_target(target)
                } else {
                    first[i]
                }) by {
                    assert(prev[i] == if before.contains(i as usize) {
                        first[i].with_target(target)
                    } else {
                        first[i]
                    });
                    if i != site {
                        assert(self.insts@[i] == prev[i]);
                        if after.contains(i as usize) {
                            let w = choose|w: int| 0 <= w < after.len() && after[w] == i as usize;
                            assert(w < before.len());
                            assert(before[w] == i as usize);
                        }
                        if before.contains(i as usize) {
                            let w = choose|w: int| 0 <= w < before.len() && before[w] == i as usize;
                            assert(after[w] == i as usize);
                        }
                    }
                }
                assert(self.insts@ =~= patch_all(first, after, target));
            }
            k = k + 1;
        }
        assert(sites@.take(sites.len() as int) =~= sites@);
    }

    /// Notes that one more value lies on the stack: it gets a slot of its own,
    /// without a name, in the innermost layer. Returns the slot.
    pub fn push_value(&mut self) -> (slot: usize)
        requires
            old(self).wf(),
        ensures
            final(self).wf(),
            final(self)@ == old(self)@.push_value(),
            slot == old(self)@.depth,
            !old(self).slots().contains(slot as nat),
            final(self).slots() == old(self).slots().insert(slot as nat),
    {
        let slot: usize = self.scopes.reserve();
        self.depth = self.scopes.total();
        if self.depth > self.peak {
            self.peak = self.depth;
        }
        slot
    }

    /// Notes that the topmost value, which has no name and belongs to the
    /// innermost layer, is gone from the stack. Its slot is free again.
    pub fn pop_value(&mut self)
        requires
            old(self).wf(),
            old(self)@.scopes.local() > 0,
            old(self)@.scopes.names.last() is None,
        ensures
            final(self).wf(),
            final(self)@ == old(self)@.pop_value(),
            final(self).slots() == old(self).slots().remove((old(self)@.depth - 1) as nat),
    {
        self.scopes.free();
        self.depth = self.scopes.total();
    }

    /// Notes that the `count` topmost values, which have no names and belong to
    /// the innermost layer, are gone from the stack.
    pub fn pop_values(&mut self, count: usize)
        requires
            old(self).wf(),
            old(self)@.scopes.local() >= count,
            forall|i: int|
                old(self)@.scopes.names.len() - count <= i < old(self)@.scopes.names.len() ==> old(
                    self,
                )@.scopes.names[i] is None,
        ensures
            final(self).wf(),
            final(self)@ == old(self)@.pop_values(count as nat),
    {
        let mut done: usize = 0;
        assert(self@.scopes.names =~= old(self)@.scopes.names.take(old(self)@.scopes.names.len() - 0));
        while done < count
            invariant
                done <= count,
                self.wf(),
                old(self)@.scopes.local() >= count,
                old(self)@.wf(),
                forall|i: int|
                    old(self)@.scopes.names.len() - count <= i < old(self)@.scopes.names.len()
                        ==> old(self)@.scopes.names[i] is None,
                self@ == old(self)@.pop_values(done as nat),
            decreases count - done,
        {
            self.pop_value();
            done = done + 1;
            assert(self@.scopes.names =~= old(self)@.scopes.names.take(
                old(self)@.scopes.names.len() - done,
            ));
        }
    }

    /// Gives the topmost value, which has no name and belongs to the innermost
    /// layer, a name: from now on it is the variable of that name. A variable
    /// of the same name that was declared before is hidden.
    pub fn bind(&mut self, name: String) -> (slot: usize)
        requires
            old(self).wf(),
            old(self)@.scopes.local() > 0,
            old(self)@.scopes.names.last() is None,
        ensures
            final(self).wf(),
            final(self)@ == old(self)@.bind(name@),
            slot == old(self)@.depth - 1,
            final(self).slots() == old(self).slots(),
    {
        proof {
            self.scopes.lemma_slots();
        }
        self.scopes.free();
        let slot = self.scopes.declare(name);
        assert(self.slots() =~= old(self).slots());
        slot
    }

    /// Opens a layer.
    pub fn enter_layer(&mut self)
        requires
            old(self).wf(),
        ensures
            final(self).wf(),
            final(self)@ == old(self)@.enter_layer(),
    {
        self.scopes.enter_layer();
    }

    /// Closes the innermost layer, which is not the outermost one, and gives
    /// its slots back. Returns how many there were.
    pub fn exit_layer(&mut self) -> (released: usize)
        requires
            old(self).wf(),
            old(self)@.scopes.layers.len() > 1,
        ensures
            final(self).wf(),
            final(self)@ == old(self)@.exit_layer(),
            released == old(self)@.scopes.local(),
    {
        let released = self.scopes.exit_layer();
        self.depth = self.scopes.total();
        released
    }

    /// Puts a constant into the pool, unless it is there, and returns its
    /// index.
    pub fn intern(&mut self, lit: Literal) -> (index: usize)
        requires
            old(self).wf(),
        ensures
            final(self).wf(),
            final(self)@ == old(self)@.intern(lit),
            index == pool_index(old(self)@.consts, lit),
            index < final(self)@.consts.len(),
            final(self)@.consts[index as int] == lit,
    {
        let ghost pool = self.consts@;
        let mut i: usize = 0;
        while i < self.consts.len()
            invariant
                i <= self.consts.len(),
                pool == self.consts@,
                self.wf(),
                self@ == old(self)@,
                forall|j: int| 0 <= j < i ==> pool[j] != lit,
            decreases self.consts.len() - i,
        {
            if self.consts[i] == lit {
                proof {
                    assert(pool[i as int] == lit);
                    assert(pool.contains(lit));
                    pool.index_of_first_ensures(lit);
                }
                return i;
            }
            i = i + 1;
        }
        proof {
            pool.index_of_first_ensures(lit);
        }
        self.consts.push(lit);
        i
    }

    /// Pushes a constant if its value is needed.
    pub fn literal(&mut self, lit: Literal, span: Span, needs: Needs)
        requires
            old(self).wf(),
        ensures
            final(self).wf(),
            final(self)@ == old(self)@.literal(lit, span, needs),
            final(self)@.leaves(old(self)@, needs.count()),
            final(self)@.tidy_since(old(self)@),
    {
        proof {
            self@.lemma_literal(lit, span, needs);
            self@.lemma_settled_start(Set::empty());
            self@.lemma_settled_literal(self@, Set::empty(), lit, span, needs);
        }
        if needs.value() {
            let constant = self.intern(lit);
            self.emit(InstKind::Push { constant }, span);
            self.push_value();
        }
    }

    /// Removes the topmost value if it is not needed.
    pub fn discard(&mut self, span: Span, needs: Needs)
        requires
            old(self).wf(),
            old(self)@.scopes.local() > 0,
            old(self)@.scopes.names.last() is None,
        ensures
            final(self).wf(),
            final(self)@ == old(self)@.discard(span, needs),
    {
        if !needs.value() {
            self.emit(InstKind::Pop { count: 1 }, span);
            self.pop_value();
        }
    }

    /// Notes that the `count` topmost values, which have no names and belong to
    /// the innermost layer, were replaced by one.
    pub fn combine(&mut self, count: usize)
        requires
            old(self).wf(),
            old(self)@.scopes.local() >= count,
            forall|i: int|
                old(self)@.scopes.names.len() - count <= i < old(self)@.scopes.names.len() ==> old(
                    self,
                )@.scopes.names[i] is None,
        ensures
            final(self).wf(),
            final(self)@ == old(self)@.combine(count as nat),
    {
        self.pop_values(count);
        self.push_value();
    }

    /// Emits what removes, at run time, the values between the depth `to` and
    /// the top of the stack; with `Needs::Value` the topmost value stays. The
    /// simulated stack is not touched: the code behind a jump goes on from it.
    pub fn unwind(&mut self, to: usize, span: Span, needs: Needs)
        requires
            old(self).wf(),
        ensures
            final(self).wf(),
            final(self)@ == old(self)@.unwind(to as nat, span, needs),
    {
        let keep: usize = if needs.value() {
            1
        } else {
            0
        };
        if self.depth >= keep && self.depth - keep > to {
            let count: usize = self.depth - keep - to;
            if needs.value() {
                self.emit(InstKind::Clean { count }, span);
            } else {
                self.emit(InstKind::Pop { count }, span);
            }
        }
    }

    /// Closes the innermost layer, which is not the outermost one, and removes
    /// its values from the stack. With `Needs::Value` the topmost value stays,
    /// and belongs to the layer around from then on.
    pub fn leave_layer(&mut self, span: Span, needs: Needs)
        requires
            old(self).wf(),
            old(self)@.scopes.layers.len() > 1,
        ensures
            final(self).wf(),
            final(self)@ == old(self)@.leave_layer(span, needs),
    {
        proof {
            let v = self@.scopes;
            assert(v.layers[v.layers.len() - 1] <= v.names.len());
        }
        let floor: usize = self.depth - self.scopes.local();
        self.unwind(floor, span, needs);
        self.exit_layer();
        if needs.value() {
            self.push_value();
        }
    }

    /// Looks a name up in the scopes.
    pub fn resolve(&self, name: &String) -> (var: Option<Var>)
        requires
            self.wf(),
        ensures
            var == self@.scopes.resolve(name@),
    {
        self.scopes.resolve(name)
    }

    /// A use of a variable. A local variable is copied from its slot, a
    /// variable of the environment is fetched from there, and a name that
    /// stands for neither is an error. Nothing is emitted for a value that is
    /// not needed.
    pub fn variable(&mut self, name: &String, span: Span, needs: Needs) -> (done: Result<
        (),
        CompileError,
    >)
        requires
            old(self).wf(),
        ensures
            refines(done, final(self)@, old(self)@.variable(*name, span, needs)),
            done is Ok ==> final(self).wf() && final(self)@.leaves(old(self)@, needs.count())
                && final(self)@.tidy_since(old(self)@),
    {
        proof {
            let pre = self@;
            reveal(CtxtView::variable);
            pre.lemma_leaves_nothing();
            pre.lemma_settled_start(Set::empty());
            match pre.scopes.resolve(name@) {
                Some(Var::Local(slot)) => {
                    pre.lemma_pushed(InstKind::Copy { slot }, span);
                    pre.lemma_settled_plain(pre, Set::empty(), InstKind::Copy { slot }, span);
                },
                Some(Var::Captured(index)) => {
                    pre.lemma_pushed(InstKind::Capture { index }, span);
                    pre.lemma_settled_plain(pre, Set::empty(), InstKind::Capture { index }, span);
                },
                None => {},
            }
        }
        match self.scopes.resolve(name) {
            None => Err(CompileError::UnresolvedVariable { name: name.clone(), span }),
            Some(Var::Local(slot)) => {
                if needs.value() {
                    self.emit(InstKind::Copy { slot }, span);
                    self.push_value();
                }
                Ok(())
            },
            Some(Var::Captured(index)) => {
                if needs.value() {
                    self.emit(InstKind::Capture { index }, span);
                    self.push_value();
                }
                Ok(())
            },
        }
    }

    /// The number of open loops.
    pub fn loop_count(&self) -> (count: usize)
        ensures
            count == self@.loops.len(),
    {
        self.loops.len()
    }

    /// The open loop at a position, counted from the outermost.
    pub fn loop_at(&self, at: usize) -> (context: &Loop)
        requires
            at < self@.loops.len(),
        ensures
            context@ == self@.loops[at as int],
    {
        self.loops.get(at)
    }

    /// The position of the loop that a `break` leaves: without a label the
    /// innermost loop, with one the loop that carries it. Outside of every loop
    /// this is `BreakOutsideLoop`; where no open loop carries the label,
    /// `UnknownLabel`.
    pub fn find_break(&self, label: &Option<String>, span: Span) -> (found: Result<
        usize,
        CompileError,
    >)
        ensures
            match found {
                Ok(at) => break_loop(self@.loops, *label, span) == Ok::<int, CompileError>(at as int)
                    && at < self@.loops.len(),
                Err(e) => break_loop(self@.loops, *label, span) == Err::<int, CompileError>(e),
            },
    {
        self.loops.find_break(label, span)
    }

    /// The position of the loop that a `continue` starts again. Outside of
    /// every loop this is `ContinueOutsideLoop`; where no open loop carries the
    /// label, `UnknownLabel`.
    pub fn find_continue(&self, label: &Option<String>, span: Span) -> (found: Result<
        usize,
        CompileError,
    >)
        ensures
            match found {
                Ok(at) => continue_loop(self@.loops, *label, span) == Ok::<int, CompileError>(at as int)
                    && at < self@.loops.len(),
                Err(e) => continue_loop(self@.loops, *label, span) == Err::<int, CompileError>(e),
            },
    {
        self.loops.find_continue(label, span)
    }

    /// Opens a loop at the present depth of the stack; `head` is the address at
    /// which its next iteration starts. A label that an open loop carries
    /// already is `DuplicateLabel`, and nothing changes.
    pub fn enter_loop(
        &mut self,
        label: &Option<String>,
        head: usize,
        needs: Needs,
        span: Span,
    ) -> (entered: Result<(), CompileError>)
        requires
            old(self).wf(),
            head <= old(self)@.insts.len(),
        ensures
            final(self).wf(),
            match entered {
                Ok(()) => {
                    &&& !(*label is Some && labels(old(self)@.loops).contains(name_view(*label)))
                    &&& final(self)@ == old(self)@.enter_loop(name_view(*label), head, needs)
                },
                Err(e) => {
                    &&& *label is Some
                    &&& labels(old(self)@.loops).contains(name_view(*label))
                    &&& e == CompileError::DuplicateLabel { label: label.unwrap(), span }
                    &&& final(self)@ == old(self)@
                },
            },
    {
        let owned: Option<String> = match label {
            Some(l) => Some(l.clone()),
            None => None,
        };
        self.loops.enter(owned, self.depth, head, needs, span)
    }

    /// Notes that the jump at `site` leaves the loop at `at` and waits for the
    /// address of the instruction behind the loop.
    pub fn record_break(&mut self, at: usize, site: usize)
        requires
            old(self).wf(),
            at < old(self)@.loops.len(),
            site < old(self)@.insts.len(),
        ensures
            final(self).wf(),
            final(self)@ == old(self)@.record_break(at as int, site),
    {
        self.loops.record_break(at, site);
    }

    /// Closes the innermost loop: every jump that waited for its end is aimed
    /// at the instruction that is emitted next, and none of them waits any
    /// longer. The stack is as deep as it was when the loop was opened.
    pub fn exit_loop(&mut self)
        requires
            old(self).wf(),
            old(self)@.loops.len() > 0,
            old(self)@.depth == old(self)@.loops.last().start_depth,
        ensures
            final(self).wf(),
            final(self)@ == old(self)@.exit_loop(),
            final(self)@.loops == old(self)@.loops.drop_last(),
            forall|j: int|
                0 <= j < old(self)@.loops.last().breaks.len() ==> {
                    let site = #[trigger] old(self)@.loops.last().breaks[j];
                    &&& !final(self)@.insts[site as int].pending()
                    &&& old(self)@.insts[site as int].pending() ==> final(self)@.insts[site as int].kind.target()
                        == Some(old(self)@.here())
                },
    {
        let context = self.loops.exit();
        let here: usize = self.insts.len();
        proof {
            let last = old(self)@.loops.len() - 1;
            assert forall|j: int| 0 <= j < context.breaks.len() implies context.breaks[j]
                < self@.insts.len() by {
                assert(old(self)@.loops[last].breaks[j] < old(self)@.insts.len());
            }
        }
        self.patch_sites(&context.breaks, here);
        proof {
            assert forall|j: int| 0 <= j < old(self)@.loops.last().breaks.len() implies {
                let site = #[trigger] old(self)@.loops.last().breaks[j];
                &&& !self@.insts[site as int].pending()
                &&& old(self)@.insts[site as int].pending() ==> self@.insts[site as int].kind.target()
                    == Some(old(self)@.here())
            } by {
                let site = old(self)@.loops.last().breaks[j];
                assert(old(self)@.loops[old(self)@.loops.len() - 1].breaks[j] < old(
                    self,
                )@.insts.len());
                assert(context.breaks@.contains(site));
            }
        }
    }

    /// Whether every layer is closed and every slot is free.
    pub closed spec fn closed(&self) -> bool {
        &&& self.scopes.wf()
        &&& self.scopes@.layers.len() == 0
        &&& self.scopes@.names.len() == 0
    }

    /// Closes the layers that are open, the outermost one too, so that every
    /// slot that was handed out is given back. The instructions stay.
    pub fn close(&mut self)
        requires
            old(self).wf(),
        ensures
            final(self).closed(),
            final(self).slots() == Set::<nat>::empty(),
            final(self)@.insts == old(self)@.insts,
            final(self)@.consts == old(self)@.consts,
            final(self)@.peak == old(self)@.peak,
    {
        while self.scopes.depth() > 0
            invariant
                self.scopes.wf(),
                self.scopes@.layers.len() > 0 ==> self.scopes@.layers[0] == 0,
                self.scopes@.layers.len() == 0 ==> self.scopes@.names.len() == 0,
                self.insts == old(self).insts,
                self.consts == old(self).consts,
                self.peak == old(self).peak,
            decreases self.scopes@.layers.len(),
        {
            self.scopes.exit_layer();
        }
        proof {
            self.scopes.lemma_slots();
            assert(self.scopes.slots() =~= Set::<nat>::empty()) by {
                assert(self.scopes@.names.len() == 0);
            }
        }
    }

    /// Hands out what was assembled.
    pub fn finish(self, params: usize) -> (function: Function)
        ensures
            function.insts@ == self@.insts,
            function.consts@ == self@.consts,
            function.frame == self@.peak,
            function.params == params,
    {
        Function { insts: self.insts, consts: self.consts, frame: self.peak, params }
    }
}

} // verus!
