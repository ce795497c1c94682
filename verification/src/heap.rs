//! The heap that owns prototypes, upvalue cells, closures and stacks.
//!
//! Objects are kept in slots that are never reused, so a handle stays valid,
//! and keeps its identity, for as long as the heap lives.

use crate::function::{Closure, ClosureState, FunctionProto, ProtoRef, UpValue, UpValueState};
use crate::model::HeapView;
use crate::thread::Thread;
use crate::value::Value;
use vstd::prelude::*;

verus! {

/// Owner of every prototype, upvalue cell, closure and stack. Whoever holds
/// the heap mutably is the one mutator; every allocation and every change
/// goes through it.
#[derive(Debug)]
pub struct Heap {
    pub(crate) prototypes: Vec<FunctionProto>,
    pub(crate) upvalues: Vec<UpValueState>,
    pub(crate) closures: Vec<ClosureState>,
    pub(crate) stacks: Vec<Vec<Value>>,
}

impl View for Heap {
    type V = HeapView;

    open(crate) spec fn view(&self) -> HeapView {
        HeapView {
            prototypes: Seq::new(self.prototypes@.len(), |i: int| self.prototypes@[i]@),
            upvalues: self.upvalues@,
            closures: Seq::new(self.closures@.len(), |i: int| self.closures@[i]@),
            stacks: Seq::new(self.stacks@.len(), |i: int| self.stacks@[i]@),
        }
    }
}

impl Heap {
    /// Vectors cannot outgrow the address space.
    pub(crate) proof fn lemma_addressable(&self)
        ensures
            self@.addressable(),
    {
        assert(self.prototypes.len() == self@.prototypes.len());
        assert(self.upvalues.len() == self@.upvalues.len());
        assert(self.closures.len() == self@.closures.len());
        assert(self.stacks.len() == self@.stacks.len());
        assert forall|i: int| 0 <= i < self@.stacks.len() implies (#[trigger] self@.stacks[i]).len()
            <= usize::MAX by {
            assert(self.stacks@[i].len() == self@.stacks[i].len());
        }
    }

    /// An empty heap.
    pub fn new() -> (heap: Heap)
        ensures
            heap@ == HeapView::empty(),
            heap@.wf(),
    {
        let heap = Heap {
            prototypes: Vec::new(),
            upvalues: Vec::new(),
            closures: Vec::new(),
            stacks: Vec::new(),
        };
        assert(heap@ =~= HeapView::empty());
        heap
    }

    /// Stores a prototype and hands back its handle.
    pub fn add_prototype(&mut self, proto: FunctionProto) -> (handle: ProtoRef)
        requires
            old(self)@.wf(),
        ensures
            handle == old(self)@.next_prototype(),
            final(self)@ == old(self)@.add_prototype(proto@),
            final(self)@.wf(),
            old(self)@.precedes(final(self)@),
    {
        let handle = ProtoRef(self.prototypes.len());
        self.prototypes.push(proto);
        proof {
            self.lemma_addressable();
            assert(self@ =~= old(self)@.add_prototype(proto@));
        }
        handle
    }

    /// The prototype behind a handle.
    pub fn prototype(&self, proto: ProtoRef) -> (found: &FunctionProto)
        requires
            self@.has_prototype(proto),
        ensures
            found@ == self@.prototype(proto),
    {
        &self.prototypes[proto.0]
    }

    /// Whether the handle names a prototype of this heap.
    pub fn contains_prototype(&self, proto: ProtoRef) -> (found: bool)
        ensures
            found == self@.has_prototype(proto),
    {
        proto.0 < self.prototypes.len()
    }

    /// Whether the handle names an upvalue cell of this heap.
    pub fn contains_upvalue(&self, upvalue: UpValue) -> (found: bool)
        ensures
            found == self@.has_upvalue(upvalue),
    {
        upvalue.0 < self.upvalues.len()
    }

    /// Whether the handle names a closure of this heap.
    pub fn contains_closure(&self, closure: Closure) -> (found: bool)
        ensures
            found == self@.has_closure(closure),
    {
        closure.0 < self.closures.len()
    }

    /// Whether the handle names a thread of this heap.
    pub fn contains_thread(&self, thread: Thread) -> (found: bool)
        ensures
            found == self@.has_thread(thread),
    {
        thread.0 < self.stacks.len()
    }

    /// Whether the slot is a live register of the thread.
    pub fn contains_slot(&self, thread: Thread, slot: usize) -> (found: bool)
        ensures
            found == self@.has_slot(thread, slot),
    {
        thread.0 < self.stacks.len() && slot < self.stacks[thread.0].len()
    }
}

} // verus!
