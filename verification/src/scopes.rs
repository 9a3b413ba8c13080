//! Lexical scopes: which name stands for which slot.
use crate::ast::name_view;
use crate::slab::Slab;
use vstd::prelude::*;

verus! {

/// What a name resolves to.
#[derive(Clone, Copy, Debug, PartialEq, Eq)]
pub enum Var {
    /// A variable of the function that is being compiled, in the given slot.
    Local(usize),
    /// A variable of an enclosing function, at the given place in the
    /// closure's environment.
    Captured(usize),
}

/// One lexical frame. It owns the slots from `start` up to the start of the
/// next frame, or to the top of the stack if it is the innermost one; the frame
/// before it in the stack of frames is its parent.
pub struct Layer {
    start: usize,
}

/// A slot of the frame with the name that is bound to it; a temporary has no
/// name.
struct Entry {
    name: Option<String>,
    slot: usize,
}

/// The stack of lexical frames of one function.
///
/// Every value on the stack of the virtual machine has one entry here, in the
/// order of the stack, and owns the slot whose index is its position. A later
/// declaration of a name hides an earlier one without freeing its slot.
pub struct Scopes {
    slab: Slab,
    entries: Vec<Entry>,
    layers: Vec<Layer>,
    captures: Vec<String>,
}

/// What a [`Scopes`] holds.
pub struct ScopesView {
    /// For each slot in use, the name bound to it, if it has one. Slot `i` is
    /// the `i`-th entry.
    pub names: Seq<Option<Seq<char>>>,
    /// Where each layer starts in `names`, the outermost layer first.
    pub layers: Seq<nat>,
    /// The names of the variables of the closure's environment.
    pub captures: Seq<Seq<char>>,
}

impl ScopesView {
    /// The layers lie in order and within the stack.
    pub open spec fn wf(self) -> bool {
        &&& forall|a: int, b: int|
            0 <= a < b < self.layers.len() ==> self.layers[a] <= self.layers[b]
        &&& forall|a: int| 0 <= a < self.layers.len() ==> self.layers[a] <= self.names.len()
    }

    /// The number of slots in use.
    pub open spec fn total(self) -> nat {
        self.names.len()
    }

    /// The number of slots that the innermost layer owns.
    pub open spec fn local(self) -> nat {
        (self.names.len() - self.layers.last()) as nat
    }

    pub open spec fn enter_layer(self) -> ScopesView {
        ScopesView {
            names: self.names,
            layers: self.layers.push(self.names.len()),
            captures: self.captures,
        }
    }

    pub open spec fn exit_layer(self) -> ScopesView {
        ScopesView {
            names: self.names.take(self.layers.last() as int),
            layers: self.layers.drop_last(),
            captures: self.captures,
        }
    }

    pub open spec fn declare(self, name: Seq<char>) -> ScopesView {
        ScopesView {
            names: self.names.push(Some(name)),
            layers: self.layers,
            captures: self.captures,
        }
    }

    pub open spec fn reserve(self) -> ScopesView {
        ScopesView {
            names: self.names.push(None),
            layers: self.layers,
            captures: self.captures,
        }
    }

    pub open spec fn free(self) -> ScopesView {
        ScopesView {
            names: self.names.drop_last(),
            layers: self.layers,
            captures: self.captures,
        }
    }

    /// What a name stands for: the innermost variable of that name, else the
    /// variable of that name in the closure's environment.
    pub open spec fn resolve(self, name: Seq<char>) -> Option<Var> {
        match self.names.index_of_last(Some(name)) {
            Some(i) => Some(Var::Local(i as usize)),
            None => match self.captures.index_of_first(name) {
                Some(k) => Some(Var::Captured(k as usize)),
                None => None,
            },
        }
    }
}

impl View for Scopes {
    type V = ScopesView;

    closed spec fn view(&self) -> ScopesView {
        ScopesView {
            names: self.entries@.map_values(|e: Entry| name_view(e.name)),
            layers: self.layers@.map_values(|l: Layer| l.start as nat),
            captures: self.captures@.map_values(|n: String| n@),
        }
    }
}

impl Scopes {
    /// The slots that are handed out by the slot allocator.
    pub closed spec fn slots(&self) -> Set<nat> {
        self.slab@
    }

    /// The representation is consistent: the slots in use are those of the
    /// entries, each entry owns the slot of its position, and the layers lie in
    /// order.
    pub closed spec fn wf(&self) -> bool {
        &&& self.slab.wf()
        &&& forall|i: int| 0 <= i < self.entries.len() ==> (#[trigger] self.entries[i]).slot == i
        &&& self.slab@ =~= Set::new(|i: nat| i < self.entries.len())
        &&& self@.wf()
    }

    /// The slots that are handed out are exactly those that the layers own:
    /// there are as many as there are entries, and none is lost.
    pub proof fn lemma_slots(&self)
        requires
            self.wf(),
        ensures
            self@.wf(),
            self.slots() == Set::new(|i: nat| i < self@.total()),
    {
    }

    /// No layer, no slot in use, and the given names in the environment.
    pub fn new(captures: Vec<String>) -> (scopes: Scopes)
        ensures
            scopes.wf(),
            scopes@.names == Seq::<Option<Seq<char>>>::empty(),
            scopes@.layers == Seq::<nat>::empty(),
            scopes@.captures == captures@.map_values(|n: String| n@),
    {
        let scopes = Scopes { slab: Slab::new(), entries: Vec::new(), layers: Vec::new(), captures };
        assert(scopes@.names =~= Seq::<Option<Seq<char>>>::empty());
        assert(scopes@.layers =~= Seq::<nat>::empty());
        scopes
    }

    /// Whether a slot is handed out.
    pub fn is_live(&self, slot: usize) -> (live: bool)
        ensures
            live == self.slots().contains(slot as nat),
    {
        self.slab.is_live(slot)
    }

    /// The number of slots in use.
    pub fn total(&self) -> (total: usize)
        ensures
            total == self@.total(),
    {
        self.entries.len()
    }

    /// The number of open layers.
    pub fn depth(&self) -> (depth: usize)
        ensures
            depth == self@.layers.len(),
    {
        self.layers.len()
    }

    /// The number of slots that the innermost layer owns.
    pub fn local(&self) -> (local: usize)
        requires
            self.wf(),
            self@.layers.len() > 0,
        ensures
            local == self@.local(),
    {
        proof {
            assert(self@.layers[self.layers.len() - 1] <= self@.names.len());
        }
        self.entries.len() - self.layers[self.layers.len() - 1].start
    }

    /// Opens a layer.
    pub fn enter_layer(&mut self)
        requires
            old(self).wf(),
        ensures
            final(self).wf(),
            final(self)@ == old(self)@.enter_layer(),
    {
        let start: usize = self.entries.len();
        self.layers.push(Layer { start });
        assert(self@.layers =~= old(self)@.layers.push(old(self)@.names.len()));
    }

    /// Closes the innermost layer and gives every slot it owns back to the slot
    /// allocator. Returns how many there were.
    pub fn exit_layer(&mut self) -> (released: usize)
        requires
            old(self).wf(),
            old(self)@.layers.len() > 0,
        ensures
            final(self).wf(),
            final(self)@ == old(self)@.exit_layer(),
            released == old(self)@.local(),
            final(self).slots() == old(self).slots().filter(|i: nat| i < old(self)@.layers.last()),
    {
        proof {
            assert(old(self)@.layers[old(self)@.layers.len() - 1] <= old(self)@.names.len());
        }
        let layer = self.layers.pop().unwrap();
        assert(self@.layers =~= old(self)@.layers.drop_last());
        assert(layer.start == old(self)@.layers.last());
        let mut released: usize = 0;
        while self.entries.len() > layer.start
            invariant
                self.slab.wf(),
                forall|i: int| 0 <= i < self.entries.len() ==> (#[trigger] self.entries[i]).slot == i,
                self.slab@ =~= Set::new(|i: nat| i < self.entries.len()),
                self.layers@ == old(self).layers@.drop_last(),
                self.captures == old(self).captures,
                layer.start <= self.entries.len(),
                self.entries.len() + released == old(self).entries.len(),
                self.entries@ == old(self).entries@.take(self.entries.len() as int),
            decreases self.entries.len(),
        {
            let entry = self.entries.pop().unwrap();
            assert(self.slab@.contains(entry.slot as nat));
            self.slab.release(entry.slot);
            released = released + 1;
        }
        assert(self@.names =~= old(self)@.names.take(old(self)@.layers.last() as int));
        assert(self.slots() =~= old(self).slots().filter(|i: nat| i < old(self)@.layers.last()));
        released
    }

    /// Binds a name to a fresh slot in the innermost layer. An earlier variable
    /// of that name is hidden from then on; it keeps its slot.
    pub fn declare(&mut self, name: String) -> (slot: usize)
        requires
            old(self).wf(),
            old(self)@.layers.len() > 0,
        ensures
            final(self).wf(),
            final(self)@ == old(self)@.declare(name@),
            slot == old(self)@.total(),
            !old(self).slots().contains(slot as nat),
            final(self).slots() == old(self).slots().insert(slot as nat),
    {
        assert(!self.slab@.contains(self.entries.len() as nat));
        let slot: usize = self.slab.allocate();
        self.entries.push(Entry { name: Some(name), slot });
        assert(self@.names =~= old(self)@.names.push(Some(name@)));
        slot
    }

    /// Takes a fresh slot in the innermost layer for a value without a name.
    pub fn reserve(&mut self) -> (slot: usize)
        requires
            old(self).wf(),
            old(self)@.layers.len() > 0,
        ensures
            final(self).wf(),
            final(self)@ == old(self)@.reserve(),
            slot == old(self)@.total(),
            !old(self).slots().contains(slot as nat),
            final(self).slots() == old(self).slots().insert(slot as nat),
    {
        assert(!self.slab@.contains(self.entries.len() as nat));
        let slot: usize = self.slab.allocate();
        self.entries.push(Entry { name: None, slot });
        assert(self@.names =~= old(self)@.names.push(None));
        slot
    }

    /// Gives back the topmost slot, which holds a value without a name and
    /// belongs to the innermost layer.
    pub fn free(&mut self) -> (slot: usize)
        requires
            old(self).wf(),
            old(self)@.layers.len() > 0,
            old(self)@.local() > 0,
            old(self)@.names.last() is None,
        ensures
            final(self).wf(),
            final(self)@ == old(self)@.free(),
            slot == old(self)@.total() - 1,
            final(self).slots() == old(self).slots().remove(slot as nat),
    {
        proof {
            assert(old(self)@.layers[old(self)@.layers.len() - 1] <= old(self)@.names.len());
        }
        let entry = self.entries.pop().unwrap();
        assert(self.slab@.contains(entry.slot as nat));
        self.slab.release(entry.slot);
        assert(self@.names =~= old(self)@.names.drop_last());
        entry.slot
    }

    /// Looks a name up, the innermost layer first; a name that no layer binds
    /// is looked up in the closure's environment.
    pub fn resolve(&self, name: &String) -> (var: Option<Var>)
        requires
            self.wf(),
        ensures
            var == self@.resolve(name@),
    {
        let ghost names = self@.names;
        let ghost needle = Some(name@);
        let mut i: usize = self.entries.len();
        while i > 0
            invariant
                self.wf(),
                i <= self.entries.len(),
                names == self@.names,
                needle == Some(name@),
                forall|j: int| i <= j < names.len() ==> names[j] != needle,
            decreases i,
        {
            i = i - 1;
            let hit = match &self.entries[i].name {
                Some(n) => *n == *name,
                None => false,
            };
            if hit {
                proof {
                    assert(names[i as int] == needle);
                    assert(names.contains(needle));
                    names.index_of_last_ensures(needle);
                }
                return Some(Var::Local(self.entries[i].slot));
            }
        }
        proof {
            names.index_of_last_ensures(needle);
        }
        let ghost captures = self@.captures;
        let mut k: usize = 0;
        while k < self.captures.len()
            invariant
                k <= self.captures.len(),
                captures == self@.captures,
                self@.names.index_of_last(Some(name@)) is None,
                forall|j: int| 0 <= j < k ==> captures[j] != name@,
            decreases self.captures.len() - k,
        {
            if self.captures[k] == *name {
                proof {
                    assert(captures[k as int] == name@);
                    assert(captures.contains(name@));
                    captures.index_of_first_ensures(name@);
                }
                return Some(Var::Captured(k));
            }
            k = k + 1;
        }
        proof {
            captures.index_of_first_ensures(name@);
        }
        None
    }
}

} // verus!
