//! The loops that are being compiled.
use crate::assemble::Needs;
use crate::ast::{name_view, Span};
use crate::error::CompileError;
use vstd::prelude::*;

verus! {

/// A loop whose body is being compiled.
pub struct Loop {
    /// The label of the loop, if it has one.
    pub label: Option<String>,
    /// The depth of the stack at the entry of the loop. Every path that leaves
    /// the body, or starts it again, first unwinds the stack to this depth.
    pub start_depth: usize,
    /// The address at which the next iteration starts.
    pub continue_target: usize,
    /// Whether a `break` out of the loop hands a value to the code after it.
    pub needs: Needs,
    /// The addresses of the jumps out of the loop that wait for the address of
    /// the instruction after it.
    pub breaks: Vec<usize>,
}

/// What a [`Loop`] holds.
pub struct LoopView {
    pub label: Option<Seq<char>>,
    pub start_depth: nat,
    pub continue_target: nat,
    pub needs: Needs,
    pub breaks: Seq<usize>,
}

impl View for Loop {
    type V = LoopView;

    open spec fn view(&self) -> LoopView {
        LoopView {
            label: name_view(self.label),
            start_depth: self.start_depth as nat,
            continue_target: self.continue_target as nat,
            needs: self.needs,
            breaks: self.breaks@,
        }
    }
}

impl LoopView {
    /// The loop with one more jump that waits for its end.
    pub open spec fn record_break(self, site: usize) -> LoopView {
        LoopView {
            label: self.label,
            start_depth: self.start_depth,
            continue_target: self.continue_target,
            needs: self.needs,
            breaks: self.breaks.push(site),
        }
    }
}

/// The labels of the loops, the outermost first.
pub open spec fn labels(loops: Seq<LoopView>) -> Seq<Option<Seq<char>>> {
    loops.map_values(|l: LoopView| l.label)
}

/// No two loops carry the same label.
pub open spec fn distinct_labels(loops: Seq<LoopView>) -> bool {
    forall|i: int, j: int|
        0 <= i < j < loops.len() && (#[trigger] loops[i]).label is Some ==> loops[i].label
            != (#[trigger] loops[j]).label
}

/// The loop that `break` or `continue` with the given label means: without a
/// label the innermost loop, with one the loop that carries it.
pub open spec fn find_loop(loops: Seq<LoopView>, label: Option<Seq<char>>) -> Option<int> {
    match label {
        None => if loops.len() > 0 {
            Some(loops.len() - 1)
        } else {
            None
        },
        Some(l) => labels(loops).index_of_last(Some(l)),
    }
}

/// The loop that a `break` leaves, or what is wrong with the `break`.
pub open spec fn break_loop(loops: Seq<LoopView>, label: Option<String>, span: Span) -> Result<
    int,
    CompileError,
> {
    if loops.len() == 0 {
        Err(CompileError::BreakOutsideLoop { span })
    } else {
        match find_loop(loops, name_view(label)) {
            Some(at) => Ok(at),
            None => Err(CompileError::UnknownLabel { label: label.unwrap(), span }),
        }
    }
}

/// The loop that a `continue` starts again, or what is wrong with the
/// `continue`.
pub open spec fn continue_loop(loops: Seq<LoopView>, label: Option<String>, span: Span) -> Result<
    int,
    CompileError,
> {
    if loops.len() == 0 {
        Err(CompileError::ContinueOutsideLoop { span })
    } else {
        match find_loop(loops, name_view(label)) {
            Some(at) => Ok(at),
            None => Err(CompileError::UnknownLabel { label: label.unwrap(), span }),
        }
    }
}

/// A loop that `find_loop` gives is one of the loops, carries the label that was
/// asked for, and no loop inside it does.
pub proof fn lemma_find_loop(loops: Seq<LoopView>, label: Option<Seq<char>>)
    ensures
        match find_loop(loops, label) {
            Some(at) => {
                &&& 0 <= at < loops.len()
                &&& label is Some ==> loops[at].label == label
                &&& label is Some ==> forall|j: int| at < j < loops.len() ==> loops[j].label != label
                &&& label is None ==> at == loops.len() - 1
            },
            None => {
                &&& label is None ==> loops.len() == 0
                &&& label is Some ==> forall|j: int| 0 <= j < loops.len() ==> loops[j].label != label
            },
        },
{
    if label is Some {
        let ls = labels(loops);
        ls.index_of_last_ensures(label);
        match ls.index_of_last(label) {
            Some(at) => {
                assert forall|j: int| at < j < loops.len() implies loops[j].label != label by {
                    assert(ls[j] != label);
                }
            },
            None => {
                assert forall|j: int| 0 <= j < loops.len() implies loops[j].label != label by {
                    if loops[j].label == label {
                        assert(ls[j] == label);
                        assert(ls.contains(label));
                    }
                }
            },
        }
    }
}

/// The stack of the loops that are being compiled, the outermost first.
pub struct Loops {
    loops: Vec<Loop>,
}

impl View for Loops {
    type V = Seq<LoopView>;

    closed spec fn view(&self) -> Seq<LoopView> {
        self.loops@.map_values(|l: Loop| l@)
    }
}

impl Loops {
    /// No loop.
    pub fn new() -> (loops: Loops)
        ensures
            loops@ == Seq::<LoopView>::empty(),
    {
        let loops = Loops { loops: Vec::new() };
        assert(loops@ =~= Seq::<LoopView>::empty());
        loops
    }

    /// The number of loops.
    pub fn len(&self) -> (len: usize)
        ensures
            len == self@.len(),
    {
        self.loops.len()
    }

    /// The loop at a position, counted from the outermost.
    pub fn get(&self, at: usize) -> (context: &Loop)
        requires
            at < self@.len(),
        ensures
            context@ == self@[at as int],
    {
        &self.loops[at]
    }

    /// The position of the loop that `break` or `continue` with the given label
    /// means, if there is one.
    pub fn find(&self, label: &Option<String>) -> (at: Option<usize>)
        ensures
            match at {
                Some(i) => find_loop(self@, name_view(*label)) == Some(i as int),
                None => find_loop(self@, name_view(*label)) is None,
            },
    {
        match label {
            None => {
                if self.loops.len() > 0 {
                    Some(self.loops.len() - 1)
                } else {
                    None
                }
            },
            Some(wanted) => {
                let ghost ls = labels(self@);
                let ghost needle = Some(wanted@);
                let mut i: usize = self.loops.len();
                while i > 0
                    invariant
                        i <= self.loops.len(),
                        ls == labels(self@),
                        needle == Some(wanted@),
                        name_view(*label) == needle,
                        forall|j: int| i <= j < ls.len() ==> ls[j] != needle,
                    decreases i,
                {
                    i = i - 1;
                    let hit = match &self.loops[i].label {
                        Some(l) => *l == *wanted,
                        None => false,
                    };
                    if hit {
                        proof {
                            assert(ls[i as int] == needle);
                            assert(ls.contains(needle));
                            ls.index_of_last_ensures(needle);
                        }
                        return Some(i);
                    }
                }
                proof {
                    ls.index_of_last_ensures(needle);
                }
                None
            },
        }
    }

    /// The position of the loop that a `break` leaves. Outside of every loop
    /// this is `BreakOutsideLoop`; inside of loops of which none carries the
    /// label, `UnknownLabel`.
    pub fn find_break(&self, label: &Option<String>, span: Span) -> (found: Result<
        usize,
        CompileError,
    >)
        ensures
            match found {
                Ok(at) => break_loop(self@, *label, span) == Ok::<int, CompileError>(at as int) && at
                    < self@.len(),
                Err(e) => break_loop(self@, *label, span) == Err::<int, CompileError>(e),
            },
    {
        proof {
            lemma_find_loop(self@, name_view(*label));
        }
        if self.loops.len() == 0 {
            return Err(CompileError::BreakOutsideLoop { span });
        }
        match self.find(label) {
            Some(at) => Ok(at),
            None => match label {
                Some(l) => Err(CompileError::UnknownLabel { label: l.clone(), span }),
                None => Err(CompileError::BreakOutsideLoop { span }),
            },
        }
    }

    /// The position of the loop that a `continue` starts again. Outside of
    /// every loop this is `ContinueOutsideLoop`; inside of loops of which none
    /// carries the label, `UnknownLabel`.
    pub fn find_continue(&self, label: &Option<String>, span: Span) -> (found: Result<
        usize,
        CompileError,
    >)
        ensures
            match found {
                Ok(at) => continue_loop(self@, *label, span) == Ok::<int, CompileError>(at as int) && at
                    < self@.len(),
                Err(e) => continue_loop(self@, *label, span) == Err::<int, CompileError>(e),
            },
    {
        proof {
            lemma_find_loop(self@, name_view(*label));
        }
        if self.loops.len() == 0 {
            return Err(CompileError::ContinueOutsideLoop { span });
        }
        match self.find(label) {
            Some(at) => Ok(at),
            None => match label {
                Some(l) => Err(CompileError::UnknownLabel { label: l.clone(), span }),
                None => Err(CompileError::ContinueOutsideLoop { span }),
            },
        }
    }

    /// Opens a loop. The depth of the stack at its entry is the depth that
    /// every `break` and `continue` of the loop unwinds to. A label that an
    /// open loop already carries is refused, and nothing changes.
    pub fn enter(
        &mut self,
        label: Option<String>,
        start_depth: usize,
        continue_target: usize,
        needs: Needs,
        span: Span,
    ) -> (entered: Result<(), CompileError>)
        ensures
            match entered {
                Ok(()) => {
                    &&& label is Some ==> !labels(old(self)@).contains(name_view(label))
                    &&& distinct_labels(old(self)@) ==> distinct_labels(final(self)@)
                    &&& final(self)@ == old(self)@.push(
                        LoopView {
                            label: name_view(label),
                            start_depth: start_depth as nat,
                            continue_target: continue_target as nat,
                            needs,
                            breaks: Seq::empty(),
                        },
                    )
                },
                Err(e) => {
                    &&& label is Some
                    &&& labels(old(self)@).contains(name_view(label))
                    &&& e == CompileError::DuplicateLabel { label: label.unwrap(), span }
                    &&& final(self)@ == old(self)@
                },
            },
    {
        let taken = match &label {
            Some(_) => {
                let found = self.find(&label);
                proof {
                    labels(self@).index_of_last_ensures(name_view(label));
                }
                found.is_some()
            },
            None => false,
        };
        if taken {
            match label {
                Some(l) => {
                    return Err(CompileError::DuplicateLabel { label: l, span });
                },
                None => {},
            }
        }
        let context = Loop { label, start_depth, continue_target, needs, breaks: Vec::new() };
        self.loops.push(context);
        assert(self@ =~= old(self)@.push(context@));
        proof {
            if distinct_labels(old(self)@) {
                assert forall|i: int, j: int|
                    0 <= i < j < self@.len() && (#[trigger] self@[i]).label is Some implies self@[i].label
                    != (#[trigger] self@[j]).label by {
                    if j == old(self)@.len() {
                        assert(labels(old(self)@)[i] == self@[i].label);
                    }
                }
            }
        }
        Ok(())
    }

    /// Notes that the jump at `site` leaves the loop at `at` and waits for the
    /// address of the instruction after it.
    pub fn record_break(&mut self, at: usize, site: usize)
        requires
            at < old(self)@.len(),
        ensures
            final(self)@ == old(self)@.update(at as int, old(self)@[at as int].record_break(site)),
    {
        self.loops[at].breaks.push(site);
        assert(self@ =~= old(self)@.update(at as int, old(self)@[at as int].record_break(site)));
    }

    /// Closes the innermost loop and hands it out, with the jumps that wait for
    /// its end.
    pub fn exit(&mut self) -> (context: Loop)
        requires
            old(self)@.len() > 0,
        ensures
            context@ == old(self)@.last(),
            final(self)@ == old(self)@.drop_last(),
    {
        let context = self.loops.pop().unwrap();
        assert(self@ =~= old(self)@.drop_last());
        context
    }
}

} // verus!
