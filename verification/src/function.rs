//! Function prototypes, upvalue cells and closures.

use crate::heap::Heap;
use crate::model::{lemma_capture, lemma_resolve_all_cells, lemma_resolve_all_outcome, HeapView};
use crate::thread::Thread;
use crate::types::{RegisterIndex, UpValueIndex};
use crate::value::{Constant, OpCode, Table, Value};
use std::collections::hash_map::DefaultHasher;
use std::hash::Hasher;
use vstd::bytes::{spec_u64_to_le_bytes, u64_to_le_bytes};
use vstd::prelude::*;
use vstd::std_specs::hash::DefaultHasherAdditionalSpecFns;

verus! {

/// Where a closure finds one of its upvalues at the moment it is created.
#[derive(Clone, Copy, Debug, PartialEq, Eq, Structural)]
pub enum UpValueDescriptor {
    /// The implicit binding of the global environment.
    Environment,
    /// A register of the frame that creates the closure.
    ParentLocal(RegisterIndex),
    /// An upvalue that the creating closure itself holds.
    Outer(UpValueIndex),
}

/// Handle of a prototype that the heap owns.
#[derive(Clone, Copy, Debug, PartialEq, Eq, Structural, Hash)]
pub struct ProtoRef(pub usize);

/// The compiled body of one function. A prototype never changes once it is
/// built; every closure made from it shares it.
#[derive(Debug)]
pub struct FunctionProto {
    pub fixed_params: u8,
    pub has_varargs: bool,
    pub stack_size: u16,
    pub constants: Vec<Constant>,
    pub opcodes: Vec<OpCode>,
    pub upvalues: Vec<UpValueDescriptor>,
    pub prototypes: Vec<ProtoRef>,
}

/// A prototype as a mathematical value.
#[verifier::ext_equal]
pub struct FunctionProtoView {
    pub fixed_params: u8,
    pub has_varargs: bool,
    pub stack_size: u16,
    pub constants: Seq<Constant>,
    pub opcodes: Seq<OpCode>,
    pub upvalues: Seq<UpValueDescriptor>,
    pub prototypes: Seq<ProtoRef>,
}

impl View for FunctionProto {
    type V = FunctionProtoView;

    open spec fn view(&self) -> FunctionProtoView {
        FunctionProtoView {
            fixed_params: self.fixed_params,
            has_varargs: self.has_varargs,
            stack_size: self.stack_size,
            constants: self.constants@,
            opcodes: self.opcodes@,
            upvalues: self.upvalues@,
            prototypes: self.prototypes@,
        }
    }
}

/// What an upvalue cell currently is.
#[derive(Clone, Copy, Debug, PartialEq, Eq, Structural)]
pub enum UpValueState {
    /// The cell stands for a live register, named by its thread and its slot
    /// in the stack of that thread.
    Open(Thread, usize),
    /// The cell holds its value itself.
    Closed(Value),
}

impl UpValueState {
    /// A cell in this state can be in state `next` later: a cell is closed
    /// at most once and never opened again.
    pub open spec fn may_become(self, next: UpValueState) -> bool {
        match self {
            UpValueState::Open(_, _) => next == self || next is Closed,
            UpValueState::Closed(_) => next is Closed,
        }
    }

    /// The cell is open over a register of `thread` at or above `from`.
    pub open spec fn is_open_from(self, thread: Thread, from: usize) -> bool {
        self matches UpValueState::Open(t, slot) && t == thread && slot >= from
    }
}

/// Handle of an upvalue cell. Copies of a handle name the same cell.
#[derive(Clone, Copy, Debug, PartialEq, Eq, Structural, Hash)]
pub struct UpValue(pub usize);

impl UpValue {
    /// Allocates a cell in the given state. Nothing else names the new cell
    /// yet, even where other cells are open over the same register.
    pub fn new(heap: &mut Heap, state: UpValueState) -> (upvalue: UpValue)
        requires
            old(heap)@.wf(),
            old(heap)@.admits_state(state),
        ensures
            upvalue == old(heap)@.next_upvalue(),
            final(heap)@ == old(heap)@.add_upvalue(state),
            final(heap)@.wf(),
            old(heap)@.precedes(final(heap)@),
    {
        let upvalue = UpValue(heap.upvalues.len());
        heap.upvalues.push(state);
        proof {
            heap.lemma_addressable();
            assert(heap@ =~= old(heap)@.add_upvalue(state));
        }
        upvalue
    }

    /// Looks for a cell that is open over the register.
    pub fn find_open(heap: &Heap, thread: Thread, slot: usize) -> (found: Option<UpValue>)
        ensures
            found == heap@.find_open(thread, slot),
    {
        let count = heap.upvalues.len();
        let mut index: usize = 0;
        while index < count
            invariant
                index <= count == heap.upvalues@.len(),
                forall|i: int|
                    0 <= i < index ==> #[trigger] heap@.upvalues[i] != UpValueState::Open(
                        thread,
                        slot,
                    ),
            decreases count - index,
        {
            match heap.upvalues[index] {
                UpValueState::Open(t, s) => {
                    if t.0 == thread.0 && s == slot {
                        let upvalue = UpValue(index);
                        proof {
                            assert(heap@.is_first_open(upvalue, thread, slot));
                            let chosen = choose|u: UpValue| heap@.is_first_open(u, thread, slot);
                            assert(chosen.0 == index);
                        }
                        return Some(upvalue);
                    }
                },
                UpValueState::Closed(_) => {},
            }
            index += 1;
        }
        None
    }

    /// The cell through which closures reach the register. A cell that is
    /// already open over it is used again, so that all of them share one
    /// cell; otherwise a new open cell is allocated.
    pub fn capture(heap: &mut Heap, thread: Thread, slot: usize) -> (upvalue: UpValue)
        requires
            old(heap)@.wf(),
            old(heap)@.has_slot(thread, slot),
        ensures
            (final(heap)@, upvalue) == old(heap)@.capture(thread, slot),
            final(heap)@.wf(),
            old(heap)@.precedes(final(heap)@),
            final(heap)@.is_first_open(upvalue, thread, slot),
    {
        let upvalue = match UpValue::find_open(heap, thread, slot) {
            Some(upvalue) => upvalue,
            None => UpValue::new(heap, UpValueState::Open(thread, slot)),
        };
        proof {
            heap.lemma_addressable();
            lemma_capture(old(heap)@, thread, slot);
        }
        upvalue
    }

    /// The state of the cell.
    pub fn state(self, heap: &Heap) -> (state: UpValueState)
        requires
            heap@.has_upvalue(self),
        ensures
            state == heap@.state(self),
    {
        heap.upvalues[self.0]
    }

    /// Reads the variable: the register behind an open cell, the stored
    /// value of a closed one.
    pub fn get(self, heap: &Heap) -> (value: Value)
        requires
            heap@.wf(),
            heap@.has_upvalue(self),
        ensures
            value == heap@.read(self),
    {
        assert(heap@.admits_state(heap@.upvalues[self.0 as int]));
        match heap.upvalues[self.0] {
            UpValueState::Open(thread, slot) => heap.stacks[thread.0][slot],
            UpValueState::Closed(value) => value,
        }
    }

    /// Writes the variable: the register behind an open cell, the stored
    /// value of a closed one.
    pub fn set(self, heap: &mut Heap, value: Value)
        requires
            old(heap)@.wf(),
            old(heap)@.has_upvalue(self),
        ensures
            final(heap)@ == old(heap)@.write(self, value),
            final(heap)@.wf(),
            old(heap)@.precedes(final(heap)@),
    {
        assert(heap@.admits_state(heap@.upvalues[self.0 as int]));
        match heap.upvalues[self.0] {
            UpValueState::Open(thread, slot) => {
                let stack = &mut heap.stacks[thread.0];
                stack.set(slot, value);
            },
            UpValueState::Closed(_) => {
                heap.upvalues.set(self.0, UpValueState::Closed(value));
            },
        }
        assert(heap@ =~= old(heap)@.write(self, value));
    }

    /// Moves the variable out of its register into the cell. From then on
    /// the cell has nothing to do with any stack. Closing a closed cell
    /// changes nothing.
    pub fn close(self, heap: &mut Heap)
        requires
            old(heap)@.wf(),
            old(heap)@.has_upvalue(self),
        ensures
            final(heap)@ == old(heap)@.close(self),
            final(heap)@.wf(),
            old(heap)@.precedes(final(heap)@),
    {
        let value = self.get(heap);
        heap.upvalues.set(self.0, UpValueState::Closed(value));
        assert(heap@ =~= old(heap)@.close(self));
    }
}

/// What the heap stores for a closure.
#[derive(Debug)]
pub struct ClosureState {
    pub proto: ProtoRef,
    pub upvalues: Vec<UpValue>,
}

/// The stored state of a closure as a mathematical value.
#[verifier::ext_equal]
pub struct ClosureStateView {
    pub proto: ProtoRef,
    pub upvalues: Seq<UpValue>,
}

impl View for ClosureState {
    type V = ClosureStateView;

    open spec fn view(&self) -> ClosureStateView {
        ClosureStateView { proto: self.proto, upvalues: self.upvalues@ }
    }
}

/// Handle of a closure. Two handles are equal exactly when they name the
/// same allocation; what the closure captured plays no part.
#[derive(Clone, Copy, Debug, PartialEq, Eq, Structural, Hash)]
pub struct Closure(pub usize);

impl Closure {
    /// Create a top-level closure, prototype must not have any upvalues
    /// besides the environment.
    ///
    /// A prototype without upvalues always yields a closure. A prototype
    /// whose only upvalue is the environment yields one where an environment
    /// is given: its single cell is closed and holds that table. Any other
    /// prototype is refused, whether or not an environment is given.
    pub fn new(
        heap: &mut Heap,
        proto: FunctionProto,
        environment: Option<Table>,
    ) -> (result: Result<Closure, ClosureError>)
        requires
            old(heap)@.wf(),
        ensures
            (final(heap)@, result) == old(heap)@.construct(proto@, environment),
            final(heap)@.wf(),
            old(heap)@.precedes(final(heap)@),
            result is Ok <==> proto@.upvalues.len() == 0 || (proto@.upvalues
                == seq![UpValueDescriptor::Environment] && environment is Some),
            result == Err::<Closure, ClosureError>(ClosureError::MissingEnvironment)
                <==> proto@.upvalues == seq![UpValueDescriptor::Environment]
                && environment is None,
            result == Err::<Closure, ClosureError>(ClosureError::InvalidUpValues)
                <==> proto@.upvalues.len() > 0 && proto@.upvalues
                != seq![UpValueDescriptor::Environment],
            result matches Ok(closure) ==> ({
                let after = final(heap)@;
                &&& closure == old(heap)@.next_closure()
                &&& !old(heap)@.has_closure(closure)
                &&& after.has_closure(closure)
                &&& after.prototype(after.closure(closure).proto) == proto@
                &&& after.closure(closure).upvalues.len() == proto@.upvalues.len()
                &&& environment matches Some(table) ==> proto@.upvalues.len() == 1 ==> after.read(
                    after.closure(closure).upvalues[0],
                ) == Value::Table(table)
            }),
    {
        let mut upvalues: Vec<UpValue> = Vec::new();
        if proto.upvalues.len() > 0 {
            if proto.upvalues.len() > 1 || proto.upvalues[0] != UpValueDescriptor::Environment {
                return Err(ClosureError::InvalidUpValues);
            }
            assert(proto@.upvalues =~= seq![UpValueDescriptor::Environment]);
            match environment {
                Some(table) => {
                    let cell = UpValue::new(heap, UpValueState::Closed(Value::Table(table)));
                    upvalues.push(cell);
                },
                None => {
                    return Err(ClosureError::MissingEnvironment);
                },
            }
        }
        let ghost made = upvalues@;
        let handle = heap.add_prototype(proto);
        let closure = Closure(heap.closures.len());
        heap.closures.push(ClosureState { proto: handle, upvalues });
        proof {
            heap.lemma_addressable();
            let (after, _) = old(heap)@.construct(proto@, environment);
            assert(after.closures.last().upvalues =~= made);
            assert(heap@ =~= after);
        }
        Ok(closure)
    }

    /// Creates a closure inside a running frame. Each upvalue that the
    /// prototype declares is resolved against the frame: a register of the
    /// frame to the open cell over it, which is made where none exists yet;
    /// an upvalue of the closure of the frame to that same cell; the
    /// environment to a new closed cell that holds the given table.
    ///
    /// The only failure is an environment that is asked for and not given.
    pub fn instantiate(
        heap: &mut Heap,
        frame: Frame,
        proto: ProtoRef,
        environment: Option<Table>,
    ) -> (result: Result<Closure, ClosureError>)
        requires
            old(heap)@.wf(),
            old(heap)@.admits_frame(frame),
            old(heap)@.has_prototype(proto),
            old(heap)@.supplies_all(frame, proto),
        ensures
            (final(heap)@, result) == old(heap)@.instantiate(frame, proto, environment),
            final(heap)@.wf(),
            old(heap)@.precedes(final(heap)@),
            result is Err <==> environment is None && old(heap)@.prototype(
                proto,
            ).upvalues.contains(UpValueDescriptor::Environment),
            result matches Err(error) ==> error == ClosureError::MissingEnvironment && final(heap)@
                == old(heap)@,
            final(heap)@.prototypes == old(heap)@.prototypes,
            final(heap)@.stacks == old(heap)@.stacks,
            forall|i: int|
                0 <= i < old(heap)@.upvalues.len() ==> #[trigger] final(heap)@.upvalues[i] == old(
                    heap,
                )@.upvalues[i],
            result matches Ok(closure) ==> ({
                let after = final(heap)@;
                &&& closure == old(heap)@.next_closure()
                &&& !old(heap)@.has_closure(closure)
                &&& after.closures == old(heap)@.closures.push(after.closure(closure))
                &&& after.closure(closure).proto == proto
                &&& after.closure(closure).upvalues.len() == after.prototype(proto).upvalues.len()
                &&& forall|j: int|
                    0 <= j < after.closure(closure).upvalues.len() ==> after.resolved(
                        frame,
                        environment,
                        after.prototype(proto).upvalues[j],
                        #[trigger] after.closure(closure).upvalues[j],
                    )
            }),
    {
        let ghost before = *heap;
        let ghost descriptors = before@.prototype(proto).upvalues;
        let count = heap.prototypes[proto.0].upvalues.len();
        if environment.is_none() {
            let mut index: usize = 0;
            while index < count
                invariant
                    *heap == before,
                    before == *old(heap),
                    before@.wf(),
                    environment is None,
                    before@.has_prototype(proto),
                    descriptors == before@.prototype(proto).upvalues,
                    index <= count == descriptors.len(),
                    forall|i: int|
                        0 <= i < index ==> descriptors[i] != UpValueDescriptor::Environment,
                decreases count - index,
            {
                match heap.prototypes[proto.0].upvalues[index] {
                    UpValueDescriptor::Environment => {
                        proof {
                            assert(descriptors[index as int] == UpValueDescriptor::Environment);
                            lemma_resolve_all_outcome(before@, frame, environment, descriptors);
                        }
                        return Err(ClosureError::MissingEnvironment);
                    },
                    _ => {},
                }
                index += 1;
            }
        }
        let mut cells: Vec<UpValue> = Vec::new();
        let mut index: usize = 0;
        while index < count
            invariant
                before@.wf(),
                before@.admits_frame(frame),
                before@.has_prototype(proto),
                before@.supplies_all(frame, proto),
                descriptors == before@.prototype(proto).upvalues,
                index <= count == descriptors.len(),
                environment is None ==> forall|i: int|
                    0 <= i < count ==> descriptors[i] != UpValueDescriptor::Environment,
                heap@.wf(),
                before@.precedes(heap@),
                heap@.prototypes == before@.prototypes,
                heap@.closures == before@.closures,
                heap@.stacks == before@.stacks,
                cells@.len() == index,
                forall|j: int| 0 <= j < cells@.len() ==> heap@.has_upvalue(#[trigger] cells@[j]),
                before@.resolve_all(frame, environment, descriptors.take(index as int)) == Ok::<
                    (HeapView, Seq<UpValue>),
                    ClosureError,
                >((heap@, cells@)),
            decreases count - index,
        {
            let descriptor = heap.prototypes[proto.0].upvalues[index];
            proof {
                assert(descriptors.take(index + 1).drop_last() =~= descriptors.take(index as int));
                assert(before@.supplies(frame, descriptors[index as int]));
            }
            let ghost reached = heap@;
            let cell = match descriptor {
                UpValueDescriptor::Environment => match environment {
                    Some(table) => UpValue::new(heap, UpValueState::Closed(Value::Table(table))),
                    None => unreached(),
                },
                UpValueDescriptor::ParentLocal(register) => UpValue::capture(
                    heap,
                    frame.thread,
                    frame.base + register.0 as usize,
                ),
                UpValueDescriptor::Outer(outer) => {
                    assert(before@.admits_closure(before@.closures[frame.closure.0 as int]));
                    heap.closures[frame.closure.0].upvalues[outer.0 as usize]
                },
            };
            assert(reached.resolve(frame, environment, descriptor) == Ok::<
                (HeapView, UpValue),
                ClosureError,
            >((heap@, cell)));
            cells.push(cell);
            index += 1;
        }
        assert(descriptors.take(count as int) =~= descriptors);
        let closure = Closure(heap.closures.len());
        heap.closures.push(ClosureState { proto, upvalues: cells });
        proof {
            heap.lemma_addressable();
            let (after, _) = before@.instantiate(frame, proto, environment);
            assert(heap@ =~= after);
            lemma_resolve_all_cells(before@, frame, environment, descriptors);
        }
        Ok(closure)
    }

    /// The hash of a closure as a mathematical value. It is a function of
    /// the handle alone: what the closure captured, and what its cells hold,
    /// plays no part.
    pub open spec fn hash_code_of(self) -> u64 {
        DefaultHasher::spec_finish(seq![spec_u64_to_le_bytes(self.0 as u64)])
    }

    /// Hashes the identity of the closure with the default hasher of the
    /// standard library.
    pub fn hash_code(&self) -> (code: u64)
        ensures
            code == self.hash_code_of(),
    {
        let mut hasher = DefaultHasher::new();
        let bytes = u64_to_le_bytes(self.0 as u64);
        hasher.write(bytes.as_slice());
        assert(hasher@ =~= seq![spec_u64_to_le_bytes(self.0 as u64)]);
        hasher.finish()
    }

    /// What the heap stores for the closure.
    pub fn state(self, heap: &Heap) -> (state: &ClosureState)
        requires
            heap@.has_closure(self),
        ensures
            state@ == heap@.closure(self),
    {
        &heap.closures[self.0]
    }

    /// The cell behind one upvalue of the closure.
    pub fn upvalue(self, heap: &Heap, index: UpValueIndex) -> (upvalue: UpValue)
        requires
            heap@.has_closure(self),
            index.0 < heap@.closure(self).upvalues.len(),
        ensures
            upvalue == heap@.closure(self).upvalues[index.0 as int],
    {
        heap.closures[self.0].upvalues[index.0 as usize]
    }
}

/// Why a closure could not be constructed.
#[derive(Clone, Copy, Debug, PartialEq, Eq, Structural)]
pub enum ClosureError {
    /// The prototype declares upvalues that only an enclosing frame could
    /// supply.
    InvalidUpValues,
    /// The prototype needs the global environment and none was given.
    MissingEnvironment,
}

impl ClosureError {
    /// The sentence that `message` returns.
    pub open spec fn message_text(self) -> Seq<char> {
        match self {
            ClosureError::InvalidUpValues =>
                "cannot use prototype with upvalues other than _ENV to create top-level closure"@,
            ClosureError::MissingEnvironment =>
                "closure requires _ENV upvalue but no environment was provided"@,
        }
    }

    /// A sentence that says what went wrong.
    pub fn message(&self) -> (text: &'static str)
        ensures
            text@ == self.message_text(),
    {
        match self {
            ClosureError::InvalidUpValues =>
                "cannot use prototype with upvalues other than _ENV to create top-level closure",
            ClosureError::MissingEnvironment =>
                "closure requires _ENV upvalue but no environment was provided",
        }
    }
}

/// The activation that creates a closure: the closure it runs, its thread,
/// and the stack slot where its registers begin.
#[derive(Clone, Copy, Debug, PartialEq, Eq, Structural)]
pub struct Frame {
    pub closure: Closure,
    pub thread: Thread,
    pub base: usize,
}

impl Frame {
    /// Whether a closure of the prototype can be made in this frame: the
    /// frame and the prototype belong to the heap, and the frame has every
    /// register and every upvalue that the prototype asks for.
    pub fn can_instantiate(&self, heap: &Heap, proto: ProtoRef) -> (possible: bool)
        ensures
            possible == (heap@.admits_frame(*self) && heap@.has_prototype(proto)
                && heap@.supplies_all(*self, proto)),
    {
        if !heap.contains_closure(self.closure) || !heap.contains_thread(self.thread)
            || !heap.contains_prototype(proto) {
            return false;
        }
        let registers = heap.stacks[self.thread.0].len();
        let held = heap.closures[self.closure.0].upvalues.len();
        let count = heap.prototypes[proto.0].upvalues.len();
        let ghost descriptors = heap@.prototype(proto).upvalues;
        let mut index: usize = 0;
        while index < count
            invariant
                heap@.admits_frame(*self),
                heap@.has_prototype(proto),
                descriptors == heap@.prototype(proto).upvalues,
                index <= count == descriptors.len(),
                registers == heap@.stack(self.thread).len(),
                held == heap@.closure(self.closure).upvalues.len(),
                forall|i: int| 0 <= i < index ==> heap@.supplies(*self, #[trigger] descriptors[i]),
            decreases count - index,
        {
            let supplied = match heap.prototypes[proto.0].upvalues[index] {
                UpValueDescriptor::Environment => true,
                UpValueDescriptor::ParentLocal(register) => self.base < registers
                    && (register.0 as usize) < registers - self.base,
                UpValueDescriptor::Outer(outer) => (outer.0 as usize) < held,
            };
            if !supplied {
                assert(!heap@.supplies(*self, descriptors[index as int]));
                return false;
            }
            index += 1;
        }
        true
    }
}

} // verus!
