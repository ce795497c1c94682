//! Threads of execution and their register stacks.
//!
//! A stack is the storage behind open upvalues. Registers only go away
//! through [`Thread::truncate`], which closes the cells over them first, so
//! that no open cell is ever left without its register.

use crate::function::UpValueState;
use crate::heap::Heap;
use crate::value::Value;
use vstd::prelude::*;

verus! {

/// Identity of a thread of execution. The registers of the thread live in
/// the heap; an open upvalue names one of them by thread and slot index.
#[derive(Clone, Copy, Debug, PartialEq, Eq, Structural, Hash)]
pub struct Thread(pub usize);

impl Thread {
    /// Starts a thread with an empty stack.
    pub fn new(heap: &mut Heap) -> (thread: Thread)
        requires
            old(heap)@.wf(),
        ensures
            thread == old(heap)@.next_thread(),
            final(heap)@ == old(heap)@.add_thread(),
            final(heap)@.wf(),
            old(heap)@.precedes(final(heap)@),
    {
        let thread = Thread(heap.stacks.len());
        heap.stacks.push(Vec::new());
        proof {
            heap.lemma_addressable();
            assert(heap@ =~= old(heap)@.add_thread());
        }
        thread
    }

    /// The number of live registers.
    pub fn len(self, heap: &Heap) -> (len: usize)
        requires
            heap@.has_thread(self),
        ensures
            len == heap@.stack(self).len(),
    {
        heap.stacks[self.0].len()
    }

    /// Adds a register on top of the stack.
    pub fn push(self, heap: &mut Heap, value: Value)
        requires
            old(heap)@.wf(),
            old(heap)@.has_thread(self),
        ensures
            final(heap)@ == old(heap)@.push_slot(self, value),
            final(heap)@.wf(),
            old(heap)@.precedes(final(heap)@),
    {
        let stack = &mut heap.stacks[self.0];
        stack.push(value);
        proof {
            heap.lemma_addressable();
            assert(heap@ =~= old(heap)@.push_slot(self, value));
        }
    }

    /// Reads a register.
    pub fn get(self, heap: &Heap, slot: usize) -> (value: Value)
        requires
            heap@.has_slot(self, slot),
        ensures
            value == heap@.stack(self)[slot as int],
    {
        heap.stacks[self.0][slot]
    }

    /// Writes a register. Every cell that is open over it sees the new value.
    pub fn set(self, heap: &mut Heap, slot: usize, value: Value)
        requires
            old(heap)@.wf(),
            old(heap)@.has_slot(self, slot),
        ensures
            final(heap)@ == old(heap)@.set_slot(self, slot, value),
            final(heap)@.wf(),
            old(heap)@.precedes(final(heap)@),
    {
        let stack = &mut heap.stacks[self.0];
        stack.set(slot, value);
        assert(heap@ =~= old(heap)@.set_slot(self, slot, value));
    }

    /// Closes every cell that is open over a register of this thread at or
    /// above `from`. The registers themselves stay.
    pub fn close_upvalues(self, heap: &mut Heap, from: usize)
        requires
            old(heap)@.wf(),
        ensures
            final(heap)@ == old(heap)@.close_from(self, from),
            final(heap)@.wf(),
            old(heap)@.precedes(final(heap)@),
    {
        let ghost before = *heap;
        let count = heap.upvalues.len();
        let mut index: usize = 0;
        while index < count
            invariant
                before@.wf(),
                index <= count,
                heap.upvalues@.len() == count == before.upvalues@.len(),
                heap.prototypes == before.prototypes,
                heap.closures == before.closures,
                heap.stacks == before.stacks,
                forall|i: int|
                    0 <= i < index ==> heap.upvalues@[i] == before@.close_from(
                        self,
                        from,
                    ).upvalues[i],
                forall|i: int| index <= i < count ==> heap.upvalues@[i] == before.upvalues@[i],
            decreases count - index,
        {
            assert(before@.admits_state(before@.upvalues[index as int]));
            match heap.upvalues[index] {
                UpValueState::Open(thread, slot) => {
                    if thread.0 == self.0 && slot >= from {
                        let value = heap.stacks[thread.0][slot];
                        heap.upvalues.set(index, UpValueState::Closed(value));
                    }
                },
                UpValueState::Closed(_) => {},
            }
            index += 1;
        }
        assert(heap@ =~= before@.close_from(self, from));
    }

    /// Cuts the stack down to `len` registers, as when a frame is torn down.
    /// The cells over the registers that go away are closed first, each with
    /// the value its register held.
    pub fn truncate(self, heap: &mut Heap, len: usize)
        requires
            old(heap)@.wf(),
            old(heap)@.has_thread(self),
        ensures
            final(heap)@ == old(heap)@.truncate(self, len),
            final(heap)@.wf(),
            old(heap)@.precedes(final(heap)@),
    {
        self.close_upvalues(heap, len);
        let stack = &mut heap.stacks[self.0];
        stack.truncate(len);
        assert(heap@ =~= old(heap)@.truncate(self, len));
        assert forall|i: int| 0 <= i < heap@.upvalues.len() implies heap@.admits_state(
            #[trigger] heap@.upvalues[i],
        ) by {
            assert(old(heap)@.admits_state(old(heap)@.upvalues[i]));
        }
    }
}

} // verus!
