//! What holds of closures and upvalue cells in every heap.

use crate::function::{
    Closure, ClosureError, Frame, FunctionProtoView, ProtoRef, UpValue, UpValueDescriptor,
    UpValueState,
};
use crate::model::{
    lemma_first_open_is_unique, lemma_resolve_all_cells, lemma_resolve_all_only_adds_cells,
    top_level_cells, HeapView,
};
use crate::thread::Thread;
use crate::types::{RegisterIndex, UpValueIndex};
use crate::value::{Table, Value};
use vstd::prelude::*;

verus! {

/// Two closure handles are equal exactly when they name the same allocation.
pub proof fn lemma_equality_is_identity(a: Closure, b: Closure)
    ensures
        a == b <==> a.0 == b.0,
{
}

/// A closure that is constructed is equal to none that the heap held before.
pub proof fn lemma_constructed_closure_is_new(
    heap: HeapView,
    proto: FunctionProtoView,
    environment: Option<Table>,
    earlier: Closure,
)
    requires
        heap.wf(),
        heap.has_closure(earlier),
    ensures
        heap.construct(proto, environment).1 != Ok::<Closure, ClosureError>(earlier),
{
}

/// Constructing twice from the same prototype and the same environment
/// yields two closures that are not equal, although nothing tells their
/// prototypes apart.
pub proof fn lemma_constructing_twice_gives_two_closures(
    heap: HeapView,
    proto: FunctionProtoView,
    environment: Option<Table>,
)
    requires
        heap.wf(),
        heap.closures.len() < usize::MAX,
        heap.prototypes.len() < usize::MAX,
        top_level_cells(proto.upvalues, environment) is Ok,
    ensures
        ({
            let (once, first) = heap.construct(proto, environment);
            let (twice, second) = once.construct(proto, environment);
            &&& first is Ok
            &&& second is Ok
            &&& first != second
            &&& twice.has_closure(first->Ok_0)
            &&& twice.has_closure(second->Ok_0)
            &&& twice.prototype(twice.closure(first->Ok_0).proto) == twice.prototype(
                twice.closure(second->Ok_0).proto,
            )
        }),
{
}

/// Construction leaves a heap in which no handle dangles, whether it
/// succeeds or fails: the new closure carries one cell for each upvalue of
/// its prototype, and nothing that was there before has changed.
pub proof fn lemma_construction_keeps_heap_well_formed(
    heap: HeapView,
    proto: FunctionProtoView,
    frame: Frame,
    nested: ProtoRef,
    environment: Option<Table>,
)
    requires
        heap.wf(),
    ensures
        heap.construct(proto, environment).0.addressable() ==> heap.construct(
            proto,
            environment,
        ).0.wf(),
        heap.precedes(heap.construct(proto, environment).0),
        heap.admits_frame(frame) && heap.has_prototype(nested) && heap.supplies_all(frame, nested)
            && heap.instantiate(frame, nested, environment).0.addressable()
            ==> heap.instantiate(frame, nested, environment).0.wf() && heap.precedes(
            heap.instantiate(frame, nested, environment).0,
        ),
{
    let (built, _) = heap.construct(proto, environment);
    if built.addressable() {
        assert forall|i: int| 0 <= i < built.upvalues.len() implies built.admits_state(
            #[trigger] built.upvalues[i],
        ) by {
            if i < heap.upvalues.len() {
                assert(heap.admits_state(heap.upvalues[i]));
            }
        }
        assert forall|i: int| 0 <= i < built.closures.len() implies built.admits_closure(
            #[trigger] built.closures[i],
        ) by {
            if i < heap.closures.len() {
                assert(heap.admits_closure(heap.closures[i]));
            }
        }
    }
    if heap.admits_frame(frame) && heap.has_prototype(nested) && heap.supplies_all(frame, nested)
        && heap.instantiate(frame, nested, environment).0.addressable() {
        let (made, result) = heap.instantiate(frame, nested, environment);
        if result is Ok {
            let descriptors = heap.prototype(nested).upvalues;
            let (reached, cells) = heap.resolve_all(frame, environment, descriptors)->Ok_0;
            lemma_resolve_all_cells(heap, frame, environment, descriptors);
            assert forall|i: int| 0 <= i < made.closures.len() implies made.admits_closure(
                #[trigger] made.closures[i],
            ) by {
                if i < reached.closures.len() {
                    assert(reached.admits_closure(reached.closures[i]));
                } else {
                    assert(made.closures[i].upvalues == cells);
                    assert forall|n: int| 0 <= n < cells.len() implies made.has_upvalue(
                        #[trigger] cells[n],
                    ) by {
                        assert(reached.has_upvalue(cells[n]));
                    }
                }
            }
            assert forall|i: int| 0 <= i < made.upvalues.len() implies made.admits_state(
                #[trigger] made.upvalues[i],
            ) by {
                assert(reached.admits_state(reached.upvalues[i]));
            }
        }
    }
}

/// Equal closures have equal hash codes.
pub proof fn lemma_equal_closures_hash_alike(a: Closure, b: Closure)
    requires
        a == b,
    ensures
        a.hash_code_of() == b.hash_code_of(),
{
}

/// A value written through an open cell is in the register at once. Once
/// the cell is closed it holds that value, and what is written to the
/// register afterwards no longer reaches the cell.
pub proof fn lemma_open_close_round_trip(
    heap: HeapView,
    upvalue: UpValue,
    thread: Thread,
    slot: usize,
    written: Value,
    later: Value,
)
    requires
        heap.wf(),
        heap.has_upvalue(upvalue),
        heap.state(upvalue) == UpValueState::Open(thread, slot),
    ensures
        heap.write(upvalue, written).stack(thread)[slot as int] == written,
        heap.write(upvalue, written).read(upvalue) == written,
        heap.write(upvalue, written).close(upvalue).state(upvalue) == UpValueState::Closed(
            written,
        ),
        heap.write(upvalue, written).close(upvalue).read(upvalue) == written,
        heap.write(upvalue, written).close(upvalue).set_slot(thread, slot, later).read(upvalue)
            == written,
{
    assert(heap.admits_state(heap.upvalues[upvalue.0 as int]));
}

/// Two cells that are open over the same register see each other's writes.
pub proof fn lemma_open_cells_over_one_register_share(
    heap: HeapView,
    writer: UpValue,
    reader: UpValue,
    thread: Thread,
    slot: usize,
    written: Value,
)
    requires
        heap.wf(),
        heap.has_upvalue(writer),
        heap.has_upvalue(reader),
        heap.state(writer) == UpValueState::Open(thread, slot),
        heap.state(reader) == UpValueState::Open(thread, slot),
    ensures
        heap.write(writer, written).read(reader) == written,
{
    assert(heap.admits_state(heap.upvalues[writer.0 as int]));
}

/// Two closures that hold the same cell see each other's writes, whether
/// the cell is open or closed.
pub proof fn lemma_closures_over_one_cell_share(
    heap: HeapView,
    writer: Closure,
    i: int,
    reader: Closure,
    j: int,
    written: Value,
)
    requires
        heap.wf(),
        heap.has_closure(writer),
        heap.has_closure(reader),
        0 <= i < heap.closure(writer).upvalues.len(),
        0 <= j < heap.closure(reader).upvalues.len(),
        heap.closure(writer).upvalues[i] == heap.closure(reader).upvalues[j],
    ensures
        ({
            let after = heap.write(heap.closure(writer).upvalues[i], written);
            after.read(after.closure(reader).upvalues[j]) == written
        }),
{
    let cell = heap.closure(writer).upvalues[i];
    assert(heap.admits_closure(heap.closures[writer.0 as int]));
    assert(heap.has_upvalue(cell));
    assert(heap.admits_state(heap.upvalues[cell.0 as int]));
}

/// A closure that takes an upvalue from the closure of its frame holds the
/// very cell of that closure, so that each sees what the other writes.
pub proof fn lemma_outer_upvalue_is_shared(
    heap: HeapView,
    frame: Frame,
    proto: ProtoRef,
    environment: Option<Table>,
    j: int,
    outer: UpValueIndex,
    written: Value,
)
    requires
        heap.wf(),
        heap.admits_frame(frame),
        heap.has_prototype(proto),
        heap.supplies_all(frame, proto),
        0 <= j < heap.prototype(proto).upvalues.len(),
        heap.prototype(proto).upvalues[j] == UpValueDescriptor::Outer(outer),
        heap.instantiate(frame, proto, environment).1 is Ok,
        heap.instantiate(frame, proto, environment).0.upvalues.len() <= usize::MAX,
    ensures
        ({
            let (after, made) = heap.instantiate(frame, proto, environment);
            let inner = after.closure(made->Ok_0).upvalues[j];
            let shared = after.closure(frame.closure).upvalues[outer.0 as int];
            &&& inner == shared
            &&& after.write(inner, written).read(shared) == written
            &&& after.write(shared, written).read(inner) == written
        }),
{
    lemma_resolve_all_cells(heap, frame, environment, heap.prototype(proto).upvalues);
    let (after, made) = heap.instantiate(frame, proto, environment);
    let (reached, cells) = heap.resolve_all(
        frame,
        environment,
        heap.prototype(proto).upvalues,
    )->Ok_0;
    assert(reached.has_upvalue(cells[j]));
    assert(reached.admits_state(reached.upvalues[cells[j].0 as int]));
}

/// Two closures that are made in one frame, one after the other, and take
/// the same register of it, hold the same cell.
pub proof fn lemma_closures_of_one_frame_share_registers(
    heap: HeapView,
    frame: Frame,
    environment: Option<Table>,
    first_proto: ProtoRef,
    i: int,
    second_proto: ProtoRef,
    j: int,
    register: RegisterIndex,
)
    requires
        heap.wf(),
        heap.admits_frame(frame),
        heap.has_prototype(first_proto),
        heap.has_prototype(second_proto),
        heap.supplies_all(frame, first_proto),
        heap.supplies_all(frame, second_proto),
        0 <= i < heap.prototype(first_proto).upvalues.len(),
        0 <= j < heap.prototype(second_proto).upvalues.len(),
        heap.prototype(first_proto).upvalues[i] == UpValueDescriptor::ParentLocal(register),
        heap.prototype(second_proto).upvalues[j] == UpValueDescriptor::ParentLocal(register),
        ({
            let (once, first) = heap.instantiate(frame, first_proto, environment);
            let (twice, second) = once.instantiate(frame, second_proto, environment);
            &&& first is Ok
            &&& second is Ok
            &&& twice.upvalues.len() <= usize::MAX
            &&& twice.closures.len() <= usize::MAX
        }),
    ensures
        ({
            let (once, first) = heap.instantiate(frame, first_proto, environment);
            let (twice, second) = once.instantiate(frame, second_proto, environment);
            &&& first != second
            &&& twice.closure(first->Ok_0).upvalues[i] == twice.closure(second->Ok_0).upvalues[j]
        }),
{
    let slot = (frame.base + register.0) as usize;
    let (once, first) = heap.instantiate(frame, first_proto, environment);
    let (twice, second) = once.instantiate(frame, second_proto, environment);
    let (reached, cells) = heap.resolve_all(
        frame,
        environment,
        heap.prototype(first_proto).upvalues,
    )->Ok_0;
    let (again, others) = once.resolve_all(
        frame,
        environment,
        once.prototype(second_proto).upvalues,
    )->Ok_0;
    lemma_resolve_all_only_adds_cells(
        once,
        frame,
        environment,
        once.prototype(second_proto).upvalues,
    );
    lemma_resolve_all_cells(heap, frame, environment, heap.prototype(first_proto).upvalues);
    assert(once.wf()) by {
        assert(twice.closures.len() == once.closures.len() + 1);
        assert(once.addressable());
        lemma_construction_keeps_heap_well_formed(
            heap,
            heap.prototype(first_proto),
            frame,
            first_proto,
            environment,
        );
    }
    let asked = once.prototype(second_proto).upvalues;
    assert forall|k: int| 0 <= k < asked.len() implies once.supplies(
        frame,
        #[trigger] asked[k],
    ) by {
        assert(heap.supplies(frame, heap.prototype(second_proto).upvalues[k]));
    }
    lemma_resolve_all_cells(once, frame, environment, once.prototype(second_proto).upvalues);
    let a = cells[i];
    let b = others[j];
    assert(reached.is_first_open(a, frame.thread, slot));
    assert(again.is_first_open(b, frame.thread, slot));
    assert(again.is_first_open(a, frame.thread, slot)) by {
        assert(again.upvalues[a.0 as int] == once.upvalues[a.0 as int]);
        assert forall|k: int| 0 <= k < a.0 implies #[trigger] again.upvalues[k]
            != UpValueState::Open(frame.thread, slot) by {
            assert(again.upvalues[k] == once.upvalues[k]);
            assert(reached.upvalues[k] != UpValueState::Open(frame.thread, slot));
        }
    }
    lemma_first_open_is_unique(again, a, b, frame.thread, slot);
}

/// After the cells over the upper registers of a thread were closed, none
/// is open there any more. Each cell that was open there holds the value
/// its register had, so that cells over the same register hold the same
/// value; every other cell, and every register, is as before.
pub proof fn lemma_close_from_takes_one_snapshot(
    heap: HeapView,
    thread: Thread,
    from: usize,
    upvalue: UpValue,
)
    requires
        heap.wf(),
        heap.has_upvalue(upvalue),
    ensures
        heap.close_from(thread, from).wf(),
        heap.close_from(thread, from).stacks == heap.stacks,
        !heap.close_from(thread, from).state(upvalue).is_open_from(thread, from),
        heap.close_from(thread, from).read(upvalue) == heap.read(upvalue),
        heap.state(upvalue).is_open_from(thread, from) ==> heap.close_from(thread, from).state(
            upvalue,
        ) == UpValueState::Closed(heap.read(upvalue)),
        !heap.state(upvalue).is_open_from(thread, from) ==> heap.close_from(thread, from).state(
            upvalue,
        ) == heap.state(upvalue),
{
    let after = heap.close_from(thread, from);
    assert forall|i: int| 0 <= i < after.upvalues.len() implies after.admits_state(
        #[trigger] after.upvalues[i],
    ) by {
        assert(heap.admits_state(heap.upvalues[i]));
    }
    assert forall|i: int| 0 <= i < after.closures.len() implies after.admits_closure(
        #[trigger] after.closures[i],
    ) by {
        assert(heap.admits_closure(heap.closures[i]));
    }
}

/// Cutting a stack down leaves no cell open over a register that is gone,
/// and no closed or lower cell loses its value.
pub proof fn lemma_truncate_leaves_no_cell_behind(
    heap: HeapView,
    thread: Thread,
    len: usize,
    upvalue: UpValue,
)
    requires
        heap.wf(),
        heap.has_thread(thread),
        heap.has_upvalue(upvalue),
    ensures
        heap.truncate(thread, len).wf(),
        len <= heap.stack(thread).len() ==> heap.truncate(thread, len).stack(thread)
            == heap.stack(thread).take(len as int),
        len > heap.stack(thread).len() ==> heap.truncate(thread, len) == heap,
        heap.truncate(thread, len).read(upvalue) == heap.read(upvalue),
        heap.truncate(thread, len).admits_state(heap.truncate(thread, len).state(upvalue)),
{
    lemma_close_from_takes_one_snapshot(heap, thread, len, upvalue);
    let closed = heap.close_from(thread, len);
    let after = heap.truncate(thread, len);
    assert forall|i: int| 0 <= i < after.upvalues.len() implies after.admits_state(
        #[trigger] after.upvalues[i],
    ) by {
        assert(heap.admits_state(heap.upvalues[i]));
    }
    assert forall|i: int| 0 <= i < after.closures.len() implies after.admits_closure(
        #[trigger] after.closures[i],
    ) by {
        assert(closed.admits_closure(closed.closures[i]));
    }
    assert(heap.admits_state(heap.upvalues[upvalue.0 as int]));
}

/// Reading, writing and closing keep every handle of the heap good.
pub proof fn lemma_cell_transitions_keep_heap_well_formed(
    heap: HeapView,
    upvalue: UpValue,
    value: Value,
)
    requires
        heap.wf(),
        heap.has_upvalue(upvalue),
    ensures
        heap.write(upvalue, value).wf(),
        heap.close(upvalue).wf(),
        heap.precedes(heap.write(upvalue, value)),
        heap.precedes(heap.close(upvalue)),
        heap.close(upvalue).state(upvalue) is Closed,
        heap.close(upvalue).read(upvalue) == heap.read(upvalue),
        heap.write(upvalue, value).read(upvalue) == value,
{
    assert(heap.admits_state(heap.upvalues[upvalue.0 as int]));
    let written = heap.write(upvalue, value);
    assert forall|i: int| 0 <= i < written.upvalues.len() implies written.admits_state(
        #[trigger] written.upvalues[i],
    ) by {
        assert(heap.admits_state(heap.upvalues[i]));
    }
    assert forall|i: int| 0 <= i < written.closures.len() implies written.admits_closure(
        #[trigger] written.closures[i],
    ) by {
        assert(heap.admits_closure(heap.closures[i]));
    }
    let closed = heap.close(upvalue);
    assert forall|i: int| 0 <= i < closed.upvalues.len() implies closed.admits_state(
        #[trigger] closed.upvalues[i],
    ) by {
        assert(heap.admits_state(heap.upvalues[i]));
    }
    assert forall|i: int| 0 <= i < closed.closures.len() implies closed.admits_closure(
        #[trigger] closed.closures[i],
    ) by {
        assert(heap.admits_closure(heap.closures[i]));
    }
}

/// What may come after a heap may also come after every heap before it.
pub proof fn lemma_precedes_is_transitive(first: HeapView, second: HeapView, third: HeapView)
    requires
        first.precedes(second),
        second.precedes(third),
    ensures
        first.precedes(third),
        first.precedes(first),
{
    assert forall|i: int| 0 <= i < first.prototypes.len() implies #[trigger] third.prototypes[i]
        == first.prototypes[i] by {
        assert(second.prototypes[i] == first.prototypes[i]);
    }
    assert forall|i: int| 0 <= i < first.closures.len() implies #[trigger] third.closures[i]
        == first.closures[i] by {
        assert(second.closures[i] == first.closures[i]);
    }
    assert forall|i: int| 0 <= i < first.upvalues.len() implies first.upvalues[i].may_become(
        #[trigger] third.upvalues[i],
    ) by {
        assert(first.upvalues[i].may_become(second.upvalues[i]));
        assert(second.upvalues[i].may_become(third.upvalues[i]));
    }
}

} // verus!
