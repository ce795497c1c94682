//! The heap as a mathematical value, and what each operation does to it.
//!
//! Every operation of the library is stated here as a function from one
//! [`HeapView`] to the next. The executable code is proved against these
//! functions, and the laws of the library are proved about them.

use crate::function::{
    Closure, ClosureError, ClosureStateView, Frame, FunctionProtoView, ProtoRef, UpValue,
    UpValueDescriptor, UpValueState,
};
use crate::thread::Thread;
use crate::value::{Table, Value};
use vstd::prelude::*;

verus! {

/// A heap as a mathematical value: what each handle stands for.
#[verifier::ext_equal]
pub struct HeapView {
    pub prototypes: Seq<FunctionProtoView>,
    pub upvalues: Seq<UpValueState>,
    pub closures: Seq<ClosureStateView>,
    pub stacks: Seq<Seq<Value>>,
}

impl HeapView {
    /// The heap that holds nothing.
    pub open spec fn empty() -> HeapView {
        HeapView {
            prototypes: Seq::empty(),
            upvalues: Seq::empty(),
            closures: Seq::empty(),
            stacks: Seq::empty(),
        }
    }

    /// The handle names a prototype of this heap.
    pub open spec fn has_prototype(self, proto: ProtoRef) -> bool {
        proto.0 < self.prototypes.len()
    }

    /// The handle names an upvalue cell of this heap.
    pub open spec fn has_upvalue(self, upvalue: UpValue) -> bool {
        upvalue.0 < self.upvalues.len()
    }

    /// The handle names a closure of this heap.
    pub open spec fn has_closure(self, closure: Closure) -> bool {
        closure.0 < self.closures.len()
    }

    /// The handle names a thread of this heap.
    pub open spec fn has_thread(self, thread: Thread) -> bool {
        thread.0 < self.stacks.len()
    }

    /// The slot is a live register of the thread.
    pub open spec fn has_slot(self, thread: Thread, slot: usize) -> bool {
        self.has_thread(thread) && slot < self.stacks[thread.0 as int].len()
    }

    /// The prototype behind a handle.
    pub open spec fn prototype(self, proto: ProtoRef) -> FunctionProtoView {
        self.prototypes[proto.0 as int]
    }

    /// The state of a cell.
    pub open spec fn state(self, upvalue: UpValue) -> UpValueState {
        self.upvalues[upvalue.0 as int]
    }

    /// What a closure holds.
    pub open spec fn closure(self, closure: Closure) -> ClosureStateView {
        self.closures[closure.0 as int]
    }

    /// The registers of a thread, lowest first.
    pub open spec fn stack(self, thread: Thread) -> Seq<Value> {
        self.stacks[thread.0 as int]
    }

    /// The handle that the next prototype will get.
    pub open spec fn next_prototype(self) -> ProtoRef {
        ProtoRef(self.prototypes.len() as usize)
    }

    /// The handle that the next upvalue cell will get.
    pub open spec fn next_upvalue(self) -> UpValue {
        UpValue(self.upvalues.len() as usize)
    }

    /// The handle that the next closure will get.
    pub open spec fn next_closure(self) -> Closure {
        Closure(self.closures.len() as usize)
    }

    /// The handle that the next thread will get.
    pub open spec fn next_thread(self) -> Thread {
        Thread(self.stacks.len() as usize)
    }

    /// An open cell may only stand for a live register.
    pub open spec fn admits_state(self, state: UpValueState) -> bool {
        state matches UpValueState::Open(thread, slot) ==> self.has_slot(thread, slot)
    }

    /// A closure carries one cell of this heap for each upvalue that its
    /// prototype declares.
    pub open spec fn admits_closure(self, state: ClosureStateView) -> bool {
        &&& self.has_prototype(state.proto)
        &&& state.upvalues.len() == self.prototype(state.proto).upvalues.len()
        &&& forall|j: int|
            0 <= j < state.upvalues.len() ==> self.has_upvalue(#[trigger] state.upvalues[j])
    }

    /// Every object and every register can be named by a machine word.
    pub open spec fn addressable(self) -> bool {
        &&& self.prototypes.len() <= usize::MAX
        &&& self.upvalues.len() <= usize::MAX
        &&& self.closures.len() <= usize::MAX
        &&& self.stacks.len() <= usize::MAX
        &&& forall|i: int|
            0 <= i < self.stacks.len() ==> (#[trigger] self.stacks[i]).len() <= usize::MAX
    }

    /// Every object has a handle, and no handle inside the heap dangles.
    pub open spec fn wf(self) -> bool {
        &&& self.addressable()
        &&& forall|i: int|
            0 <= i < self.upvalues.len() ==> self.admits_state(#[trigger] self.upvalues[i])
        &&& forall|i: int|
            0 <= i < self.closures.len() ==> self.admits_closure(#[trigger] self.closures[i])
    }

    /// What may come after `self`. Every object is still there under its
    /// handle; prototypes and closures are as they were; a closed cell is
    /// still closed, and an open cell is open over the same register or has
    /// been closed.
    pub open spec fn precedes(self, later: HeapView) -> bool {
        &&& self.prototypes.len() <= later.prototypes.len()
        &&& self.upvalues.len() <= later.upvalues.len()
        &&& self.closures.len() <= later.closures.len()
        &&& self.stacks.len() <= later.stacks.len()
        &&& forall|i: int|
            0 <= i < self.prototypes.len() ==> #[trigger] later.prototypes[i] == self.prototypes[i]
        &&& forall|i: int|
            0 <= i < self.closures.len() ==> #[trigger] later.closures[i] == self.closures[i]
        &&& forall|i: int|
            0 <= i < self.upvalues.len() ==> self.upvalues[i].may_become(
                #[trigger] later.upvalues[i],
            )
    }

    /// The value that a cell in the given state stands for: the register
    /// behind an open cell, the stored value of a closed one.
    pub open spec fn value_of(self, state: UpValueState) -> Value {
        match state {
            UpValueState::Open(thread, slot) => self.stack(thread)[slot as int],
            UpValueState::Closed(value) => value,
        }
    }

    /// The value that the cell stands for.
    pub open spec fn read(self, upvalue: UpValue) -> Value {
        self.value_of(self.state(upvalue))
    }

    /// One more prototype, under the next handle.
    pub open spec fn add_prototype(self, proto: FunctionProtoView) -> HeapView {
        HeapView { prototypes: self.prototypes.push(proto), ..self }
    }

    /// One more cell, under the next handle.
    pub open spec fn add_upvalue(self, state: UpValueState) -> HeapView {
        HeapView { upvalues: self.upvalues.push(state), ..self }
    }

    /// One more closure, under the next handle.
    pub open spec fn add_closure(self, state: ClosureStateView) -> HeapView {
        HeapView { closures: self.closures.push(state), ..self }
    }

    /// A new thread starts with an empty stack.
    pub open spec fn add_thread(self) -> HeapView {
        HeapView { stacks: self.stacks.push(Seq::empty()), ..self }
    }

    /// One more register on top of the stack of a thread.
    pub open spec fn push_slot(self, thread: Thread, value: Value) -> HeapView {
        HeapView {
            stacks: self.stacks.update(thread.0 as int, self.stack(thread).push(value)),
            ..self
        }
    }

    /// A register gets a new value. Cells that are open over it stand for
    /// the new value from then on.
    pub open spec fn set_slot(self, thread: Thread, slot: usize, value: Value) -> HeapView {
        HeapView {
            stacks: self.stacks.update(
                thread.0 as int,
                self.stack(thread).update(slot as int, value),
            ),
            ..self
        }
    }

    /// A cell gets a new state.
    pub open spec fn set_state(self, upvalue: UpValue, state: UpValueState) -> HeapView {
        HeapView { upvalues: self.upvalues.update(upvalue.0 as int, state), ..self }
    }

    /// Writing through an open cell writes the register; writing through a
    /// closed cell replaces the stored value.
    pub open spec fn write(self, upvalue: UpValue, value: Value) -> HeapView {
        match self.state(upvalue) {
            UpValueState::Open(thread, slot) => self.set_slot(thread, slot, value),
            UpValueState::Closed(_) => self.set_state(upvalue, UpValueState::Closed(value)),
        }
    }

    /// The cell takes over the value it stands for. A closed cell stays as
    /// it is.
    pub open spec fn close(self, upvalue: UpValue) -> HeapView {
        self.set_state(upvalue, UpValueState::Closed(self.read(upvalue)))
    }

    /// Every cell that is open over a register of `thread` at or above
    /// `from` is closed, each with the value its register holds now.
    pub open spec fn close_from(self, thread: Thread, from: usize) -> HeapView {
        HeapView {
            upvalues: self.upvalues.map_values(
                |state: UpValueState|
                    if state.is_open_from(thread, from) {
                        UpValueState::Closed(self.value_of(state))
                    } else {
                        state
                    },
            ),
            ..self
        }
    }

    /// The registers at and above `len` go away, after every cell over them
    /// was closed. A stack that is no longer than `len` stays as it is.
    pub open spec fn truncate(self, thread: Thread, len: usize) -> HeapView {
        let closed = self.close_from(thread, len);
        if len <= closed.stack(thread).len() {
            HeapView {
                stacks: closed.stacks.update(
                    thread.0 as int,
                    closed.stack(thread).take(len as int),
                ),
                ..closed
            }
        } else {
            closed
        }
    }

    /// The cell is the first one that is open over the register.
    pub open spec fn is_first_open(self, upvalue: UpValue, thread: Thread, slot: usize) -> bool {
        &&& self.has_upvalue(upvalue)
        &&& self.state(upvalue) == UpValueState::Open(thread, slot)
        &&& forall|i: int|
            0 <= i < upvalue.0 ==> #[trigger] self.upvalues[i] != UpValueState::Open(thread, slot)
    }

    /// The first cell that is open over the register, if there is one.
    pub open spec fn find_open(self, thread: Thread, slot: usize) -> Option<UpValue> {
        if exists|upvalue: UpValue| self.is_first_open(upvalue, thread, slot) {
            Some(choose|upvalue: UpValue| self.is_first_open(upvalue, thread, slot))
        } else {
            None
        }
    }

    /// The cell through which closures reach the register: the first cell
    /// that is open over it, or a new one where none is.
    pub open spec fn capture(self, thread: Thread, slot: usize) -> (HeapView, UpValue) {
        match self.find_open(thread, slot) {
            Some(upvalue) => (self, upvalue),
            None => (self.add_upvalue(UpValueState::Open(thread, slot)), self.next_upvalue()),
        }
    }
}

/// Where any cell is open over a register, one of them is the first.
pub proof fn lemma_first_open_exists(heap: HeapView, thread: Thread, slot: usize, i: int)
    requires
        heap.upvalues.len() <= usize::MAX,
        0 <= i < heap.upvalues.len(),
        heap.upvalues[i] == UpValueState::Open(thread, slot),
    ensures
        exists|upvalue: UpValue| heap.is_first_open(upvalue, thread, slot),
        heap.find_open(thread, slot) is Some,
    decreases i,
{
    if exists|k: int| 0 <= k < i && heap.upvalues[k] == UpValueState::Open(thread, slot) {
        let k = choose|k: int| 0 <= k < i && heap.upvalues[k] == UpValueState::Open(thread, slot);
        lemma_first_open_exists(heap, thread, slot, k);
    } else {
        assert(heap.is_first_open(UpValue(i as usize), thread, slot));
    }
}

/// At most one cell is the first that is open over a register.
pub proof fn lemma_first_open_is_unique(
    heap: HeapView,
    a: UpValue,
    b: UpValue,
    thread: Thread,
    slot: usize,
)
    requires
        heap.is_first_open(a, thread, slot),
        heap.is_first_open(b, thread, slot),
    ensures
        a == b,
{
    if a.0 < b.0 {
        assert(heap.upvalues[a.0 as int] != UpValueState::Open(thread, slot));
    }
    if b.0 < a.0 {
        assert(heap.upvalues[b.0 as int] != UpValueState::Open(thread, slot));
    }
}

/// What `capture` hands back is the first cell that is open over the
/// register in the heap that it leaves, and all it does to the heap is to
/// add that cell where it was missing.
pub proof fn lemma_capture(heap: HeapView, thread: Thread, slot: usize)
    requires
        heap.wf(),
        heap.has_slot(thread, slot),
        heap.capture(thread, slot).0.upvalues.len() <= usize::MAX,
    ensures
        ({
            let (after, cell) = heap.capture(thread, slot);
            &&& after.wf()
            &&& after.is_first_open(cell, thread, slot)
            &&& after == heap || after == heap.add_upvalue(UpValueState::Open(thread, slot))
        }),
{
    let (after, cell) = heap.capture(thread, slot);
    match heap.find_open(thread, slot) {
        Some(found) => {},
        None => {
            assert forall|i: int| 0 <= i < heap.upvalues.len() implies #[trigger] heap.upvalues[i]
                != UpValueState::Open(thread, slot) by {
                if heap.upvalues[i] == UpValueState::Open(thread, slot) {
                    lemma_first_open_exists(heap, thread, slot, i);
                }
            }
            assert(after.is_first_open(cell, thread, slot));
        },
    }
}

/// The cells of a closure that is made outside of any frame. Without a
/// frame only the environment can be captured.
pub open spec fn top_level_cells(
    descriptors: Seq<UpValueDescriptor>,
    environment: Option<Table>,
) -> Result<Seq<UpValueState>, ClosureError> {
    if descriptors.len() == 0 {
        Ok(Seq::empty())
    } else if descriptors.len() > 1 || descriptors[0] != UpValueDescriptor::Environment {
        Err(ClosureError::InvalidUpValues)
    } else {
        match environment {
            Some(table) => Ok(seq![UpValueState::Closed(Value::Table(table))]),
            None => Err(ClosureError::MissingEnvironment),
        }
    }
}

impl HeapView {
    /// Top-level construction. On success the prototype, the cells and the
    /// closure are new objects of the heap; on failure the heap is as before.
    pub open spec fn construct(self, proto: FunctionProtoView, environment: Option<Table>) -> (
        HeapView,
        Result<Closure, ClosureError>,
    ) {
        match top_level_cells(proto.upvalues, environment) {
            Ok(cells) => (
                HeapView {
                    prototypes: self.prototypes.push(proto),
                    upvalues: self.upvalues + cells,
                    closures: self.closures.push(
                        ClosureStateView {
                            proto: self.next_prototype(),
                            upvalues: Seq::new(
                                cells.len(),
                                |j: int| UpValue((self.upvalues.len() + j) as usize),
                            ),
                        },
                    ),
                    stacks: self.stacks,
                },
                Ok(self.next_closure()),
            ),
            Err(error) => (self, Err(error)),
        }
    }

    /// The frame names a closure and a thread of this heap.
    pub open spec fn admits_frame(self, frame: Frame) -> bool {
        self.has_closure(frame.closure) && self.has_thread(frame.thread)
    }

    /// The frame has what the descriptor asks for.
    pub open spec fn supplies(self, frame: Frame, descriptor: UpValueDescriptor) -> bool {
        match descriptor {
            UpValueDescriptor::Environment => true,
            UpValueDescriptor::ParentLocal(register) => frame.base + register.0 < self.stack(
                frame.thread,
            ).len(),
            UpValueDescriptor::Outer(index) => index.0 < self.closure(
                frame.closure,
            ).upvalues.len(),
        }
    }

    /// The frame has what every upvalue of the prototype asks for.
    pub open spec fn supplies_all(self, frame: Frame, proto: ProtoRef) -> bool {
        forall|i: int|
            0 <= i < self.prototype(proto).upvalues.len() ==> self.supplies(
                frame,
                #[trigger] self.prototype(proto).upvalues[i],
            )
    }

    /// The cell is what the descriptor asks for: a closed cell that holds
    /// the environment, the first cell that is open over the register of
    /// the frame, or the very cell that the closure of the frame holds.
    pub open spec fn resolved(
        self,
        frame: Frame,
        environment: Option<Table>,
        descriptor: UpValueDescriptor,
        cell: UpValue,
    ) -> bool {
        match descriptor {
            UpValueDescriptor::Environment => environment matches Some(table) && self.state(cell)
                == UpValueState::Closed(Value::Table(table)),
            UpValueDescriptor::ParentLocal(register) => self.is_first_open(
                cell,
                frame.thread,
                (frame.base + register.0) as usize,
            ),
            UpValueDescriptor::Outer(index) => cell == self.closure(
                frame.closure,
            ).upvalues[index.0 as int],
        }
    }

    /// The cell that one descriptor resolves to, and the heap after it was
    /// found or made: a new closed cell that holds the environment, the
    /// shared open cell over a register of the frame, or the very cell that
    /// the closure of the frame holds.
    pub open spec fn resolve(
        self,
        frame: Frame,
        environment: Option<Table>,
        descriptor: UpValueDescriptor,
    ) -> Result<(HeapView, UpValue), ClosureError> {
        match descriptor {
            UpValueDescriptor::Environment => match environment {
                Some(table) => Ok(
                    (
                        self.add_upvalue(UpValueState::Closed(Value::Table(table))),
                        self.next_upvalue(),
                    ),
                ),
                None => Err(ClosureError::MissingEnvironment),
            },
            UpValueDescriptor::ParentLocal(register) => Ok(
                self.capture(frame.thread, (frame.base + register.0) as usize),
            ),
            UpValueDescriptor::Outer(index) => Ok(
                (self, self.closure(frame.closure).upvalues[index.0 as int]),
            ),
        }
    }

    /// The cells that the descriptors resolve to, one after the other.
    pub open spec fn resolve_all(
        self,
        frame: Frame,
        environment: Option<Table>,
        descriptors: Seq<UpValueDescriptor>,
    ) -> Result<(HeapView, Seq<UpValue>), ClosureError>
        decreases descriptors.len(),
    {
        if descriptors.len() == 0 {
            Ok((self, Seq::empty()))
        } else {
            match self.resolve_all(frame, environment, descriptors.drop_last()) {
                Ok((heap, cells)) => match heap.resolve(frame, environment, descriptors.last()) {
                    Ok((heap, cell)) => Ok((heap, cells.push(cell))),
                    Err(error) => Err(error),
                },
                Err(error) => Err(error),
            }
        }
    }

    /// Construction inside a frame. On success the closure is a new object
    /// of the heap, next to the cells that had to be made for it; on failure
    /// the heap is as before.
    pub open spec fn instantiate(
        self,
        frame: Frame,
        proto: ProtoRef,
        environment: Option<Table>,
    ) -> (HeapView, Result<Closure, ClosureError>) {
        match self.resolve_all(frame, environment, self.prototype(proto).upvalues) {
            Ok((heap, cells)) => (
                heap.add_closure(ClosureStateView { proto, upvalues: cells }),
                Ok(heap.next_closure()),
            ),
            Err(error) => (self, Err(error)),
        }
    }
}

/// Resolving touches nothing but the cells, and takes none away.
pub proof fn lemma_resolve_all_only_adds_cells(
    heap: HeapView,
    frame: Frame,
    environment: Option<Table>,
    descriptors: Seq<UpValueDescriptor>,
)
    requires
        heap.resolve_all(frame, environment, descriptors) is Ok,
    ensures
        ({
            let after = heap.resolve_all(frame, environment, descriptors)->Ok_0.0;
            &&& heap.upvalues.len() <= after.upvalues.len()
            &&& after.prototypes == heap.prototypes
            &&& after.closures == heap.closures
            &&& after.stacks == heap.stacks
        }),
    decreases descriptors.len(),
{
    if descriptors.len() > 0 {
        lemma_resolve_all_only_adds_cells(heap, frame, environment, descriptors.drop_last());
    }
}

/// Where resolving succeeds, there is one cell for each descriptor, each is
/// what its descriptor asks for, and all that happened to the heap is that
/// cells were added.
pub proof fn lemma_resolve_all_cells(
    heap: HeapView,
    frame: Frame,
    environment: Option<Table>,
    descriptors: Seq<UpValueDescriptor>,
)
    requires
        heap.wf(),
        heap.admits_frame(frame),
        forall|i: int|
            0 <= i < descriptors.len() ==> heap.supplies(frame, #[trigger] descriptors[i]),
        heap.resolve_all(frame, environment, descriptors) matches Ok((after, _))
            && after.upvalues.len() <= usize::MAX,
    ensures
        ({
            let (after, cells) = heap.resolve_all(frame, environment, descriptors)->Ok_0;
            &&& after.wf()
            &&& after.prototypes == heap.prototypes
            &&& after.closures == heap.closures
            &&& after.stacks == heap.stacks
            &&& heap.upvalues.len() <= after.upvalues.len()
            &&& forall|i: int|
                0 <= i < heap.upvalues.len() ==> #[trigger] after.upvalues[i] == heap.upvalues[i]
            &&& cells.len() == descriptors.len()
            &&& forall|j: int|
                0 <= j < cells.len() ==> after.has_upvalue(#[trigger] cells[j]) && after.resolved(
                    frame,
                    environment,
                    descriptors[j],
                    cells[j],
                )
        }),
    decreases descriptors.len(),
{
    if descriptors.len() > 0 {
        let front = descriptors.drop_last();
        let last = descriptors.last();
        let (middle, found) = heap.resolve_all(frame, environment, front)->Ok_0;
        let (after, cell) = middle.resolve(frame, environment, last)->Ok_0;
        let (_, cells) = heap.resolve_all(frame, environment, descriptors)->Ok_0;
        assert(cells == found.push(cell));
        assert(heap.supplies(frame, descriptors[descriptors.len() - 1]));
        assert forall|i: int| 0 <= i < front.len() implies heap.supplies(
            frame,
            #[trigger] front[i],
        ) by {
            assert(front[i] == descriptors[i]);
        }
        assert(middle.upvalues.len() <= after.upvalues.len());
        lemma_resolve_all_cells(heap, frame, environment, front);
        match last {
            UpValueDescriptor::Environment => {},
            UpValueDescriptor::ParentLocal(register) => {
                lemma_capture(middle, frame.thread, (frame.base + register.0) as usize);
            },
            UpValueDescriptor::Outer(index) => {
                assert(middle.admits_closure(middle.closures[frame.closure.0 as int]));
            },
        }
        assert forall|j: int| 0 <= j < cells.len() implies after.has_upvalue(#[trigger] cells[j])
            && after.resolved(frame, environment, descriptors[j], cells[j]) by {
            if j < found.len() {
                assert(cells[j] == found[j]);
                assert(descriptors[j] == front[j]);
                assert(middle.has_upvalue(found[j]));
                assert(middle.resolved(frame, environment, front[j], found[j]));
                assert(after.upvalues[found[j].0 as int] == middle.upvalues[found[j].0 as int]);
            }
        }
    }
}

/// Resolving a list of descriptors fails exactly when one of them asks for
/// the environment and none was given.
pub proof fn lemma_resolve_all_outcome(
    heap: HeapView,
    frame: Frame,
    environment: Option<Table>,
    descriptors: Seq<UpValueDescriptor>,
)
    ensures
        heap.resolve_all(frame, environment, descriptors) is Err <==> environment is None
            && descriptors.contains(UpValueDescriptor::Environment),
        heap.resolve_all(frame, environment, descriptors) matches Err(error) ==> error
            == ClosureError::MissingEnvironment,
    decreases descriptors.len(),
{
    if descriptors.len() > 0 {
        let front = descriptors.drop_last();
        lemma_resolve_all_outcome(heap, frame, environment, front);
        if front.contains(UpValueDescriptor::Environment) {
            let i = choose|i: int|
                0 <= i < front.len() && front[i] == UpValueDescriptor::Environment;
            assert(descriptors[i] == UpValueDescriptor::Environment);
        }
        if descriptors.last() == UpValueDescriptor::Environment {
            assert(descriptors[descriptors.len() - 1] == UpValueDescriptor::Environment);
        }
        if descriptors.contains(UpValueDescriptor::Environment) {
            let i = choose|i: int|
                0 <= i < descriptors.len() && descriptors[i] == UpValueDescriptor::Environment;
            if i < front.len() {
                assert(front[i] == UpValueDescriptor::Environment);
            }
        }
    }
}

} // verus!
