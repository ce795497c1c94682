use luster::function::{
    Closure, Frame, FunctionProto, UpValue, UpValueDescriptor, UpValueState,
};
use luster::heap::Heap;
use luster::thread::Thread;
use luster::types::{RegisterIndex, UpValueIndex};
use luster::value::{Table, Value};

fn bare_proto(upvalues: Vec<UpValueDescriptor>) -> FunctionProto {
    FunctionProto {
        fixed_params: 0,
        has_varargs: true,
        stack_size: 2,
        constants: Vec::new(),
        opcodes: Vec::new(),
        upvalues,
        prototypes: Vec::new(),
    }
}

fn heap_with_stack(values: Vec<Value>) -> (Heap, Thread) {
    let mut heap = Heap::new();
    let thread = Thread::new(&mut heap);
    for value in values {
        thread.push(&mut heap, value);
    }
    (heap, thread)
}

#[test]
fn new_heap_is_empty() {
    let heap = Heap::new();
    assert!(!heap.contains_thread(Thread(0)));
    assert!(!heap.contains_slot(Thread(0), 0));
    assert!(!heap.contains_upvalue(UpValue(0)));
    assert!(!heap.contains_closure(Closure(0)));
}

#[test]
fn threads_have_their_own_stacks() {
    let mut heap = Heap::new();
    let a = Thread::new(&mut heap);
    let b = Thread::new(&mut heap);
    assert_ne!(a, b);
    assert_eq!(a.len(&heap), 0);
    a.push(&mut heap, Value::Integer(1));
    a.push(&mut heap, Value::Integer(2));
    b.push(&mut heap, Value::Integer(3));
    assert_eq!(a.len(&heap), 2);
    assert_eq!(b.len(&heap), 1);
    assert_eq!(a.get(&heap, 1), Value::Integer(2));
    assert_eq!(b.get(&heap, 0), Value::Integer(3));
    a.set(&mut heap, 0, Value::Nil);
    assert_eq!(a.get(&heap, 0), Value::Nil);
    assert_eq!(a.get(&heap, 1), Value::Integer(2));
    assert_eq!(b.get(&heap, 0), Value::Integer(3));
    assert!(heap.contains_slot(a, 1));
    assert!(!heap.contains_slot(a, 2));
    assert!(!heap.contains_slot(Thread(2), 0));
}

#[test]
fn open_cell_reads_and_writes_its_register() {
    let (mut heap, thread) = heap_with_stack(vec![Value::Integer(1), Value::Integer(2)]);
    let cell = UpValue::new(&mut heap, UpValueState::Open(thread, 1));
    assert_eq!(cell.state(&heap), UpValueState::Open(thread, 1));
    assert_eq!(cell.get(&heap), Value::Integer(2));
    thread.set(&mut heap, 1, Value::Integer(20));
    assert_eq!(cell.get(&heap), Value::Integer(20));
    cell.set(&mut heap, Value::Integer(200));
    assert_eq!(thread.get(&heap, 1), Value::Integer(200));
    assert_eq!(thread.get(&heap, 0), Value::Integer(1));
    assert_eq!(cell.state(&heap), UpValueState::Open(thread, 1));
}

#[test]
fn closed_cell_reads_and_writes_itself() {
    let (mut heap, thread) = heap_with_stack(vec![Value::Integer(1)]);
    let cell = UpValue::new(&mut heap, UpValueState::Closed(Value::Boolean(false)));
    assert_eq!(cell.get(&heap), Value::Boolean(false));
    cell.set(&mut heap, Value::Integer(4));
    assert_eq!(cell.get(&heap), Value::Integer(4));
    assert_eq!(cell.state(&heap), UpValueState::Closed(Value::Integer(4)));
    assert_eq!(thread.get(&heap, 0), Value::Integer(1));
}

#[test]
fn open_close_round_trip() {
    let (mut heap, thread) = heap_with_stack(vec![Value::Integer(1), Value::Integer(2)]);
    let cell = UpValue::new(&mut heap, UpValueState::Open(thread, 0));
    cell.set(&mut heap, Value::Integer(7));
    assert_eq!(thread.get(&heap, 0), Value::Integer(7));
    cell.close(&mut heap);
    assert_eq!(cell.state(&heap), UpValueState::Closed(Value::Integer(7)));
    assert_eq!(cell.get(&heap), Value::Integer(7));
    thread.set(&mut heap, 0, Value::Integer(8));
    assert_eq!(cell.get(&heap), Value::Integer(7));
    cell.set(&mut heap, Value::Integer(9));
    assert_eq!(thread.get(&heap, 0), Value::Integer(8));
    assert_eq!(cell.get(&heap), Value::Integer(9));
}

#[test]
fn closing_a_closed_cell_changes_nothing() {
    let mut heap = Heap::new();
    let cell = UpValue::new(&mut heap, UpValueState::Closed(Value::Integer(3)));
    cell.close(&mut heap);
    assert_eq!(cell.state(&heap), UpValueState::Closed(Value::Integer(3)));
}

#[test]
fn cells_over_one_register_share_writes() {
    let (mut heap, thread) = heap_with_stack(vec![Value::Nil, Value::Nil]);
    let a = UpValue::new(&mut heap, UpValueState::Open(thread, 1));
    let b = UpValue::new(&mut heap, UpValueState::Open(thread, 1));
    let other = UpValue::new(&mut heap, UpValueState::Open(thread, 0));
    assert_ne!(a, b);
    a.set(&mut heap, Value::Integer(5));
    assert_eq!(b.get(&heap), Value::Integer(5));
    b.set(&mut heap, Value::Integer(6));
    assert_eq!(a.get(&heap), Value::Integer(6));
    assert_eq!(other.get(&heap), Value::Nil);
    a.close(&mut heap);
    b.set(&mut heap, Value::Integer(7));
    assert_eq!(a.get(&heap), Value::Integer(6));
    assert_eq!(b.get(&heap), Value::Integer(7));
}

#[test]
fn capture_uses_an_open_cell_again() {
    let (mut heap, thread) = heap_with_stack(vec![Value::Nil, Value::Nil]);
    assert_eq!(UpValue::find_open(&heap, thread, 1), None);
    let first = UpValue::capture(&mut heap, thread, 1);
    assert_eq!(first.state(&heap), UpValueState::Open(thread, 1));
    assert_eq!(UpValue::find_open(&heap, thread, 1), Some(first));
    assert_eq!(UpValue::find_open(&heap, thread, 0), None);
    assert_eq!(UpValue::capture(&mut heap, thread, 1), first);
    let lower = UpValue::capture(&mut heap, thread, 0);
    assert_ne!(lower, first);
    let second = UpValue::new(&mut heap, UpValueState::Open(thread, 1));
    assert_eq!(UpValue::capture(&mut heap, thread, 1), first);
    first.close(&mut heap);
    assert_eq!(UpValue::find_open(&heap, thread, 1), Some(second));
    second.close(&mut heap);
    let third = UpValue::capture(&mut heap, thread, 1);
    assert_ne!(third, first);
    assert_ne!(third, second);
    assert_eq!(third.state(&heap), UpValueState::Open(thread, 1));
}

#[test]
fn capture_tells_threads_apart() {
    let mut heap = Heap::new();
    let a = Thread::new(&mut heap);
    let b = Thread::new(&mut heap);
    a.push(&mut heap, Value::Integer(1));
    b.push(&mut heap, Value::Integer(2));
    let over_a = UpValue::capture(&mut heap, a, 0);
    let over_b = UpValue::capture(&mut heap, b, 0);
    assert_ne!(over_a, over_b);
    assert_eq!(over_a.get(&heap), Value::Integer(1));
    assert_eq!(over_b.get(&heap), Value::Integer(2));
}

#[test]
fn close_upvalues_closes_from_a_slot_upwards() {
    let mut heap = Heap::new();
    let thread = Thread::new(&mut heap);
    let other = Thread::new(&mut heap);
    for i in 0..3 {
        thread.push(&mut heap, Value::Integer(i));
        other.push(&mut heap, Value::Integer(10 + i));
    }
    let low = UpValue::new(&mut heap, UpValueState::Open(thread, 0));
    let mid = UpValue::new(&mut heap, UpValueState::Open(thread, 1));
    let twin = UpValue::new(&mut heap, UpValueState::Open(thread, 1));
    let high = UpValue::new(&mut heap, UpValueState::Open(thread, 2));
    let elsewhere = UpValue::new(&mut heap, UpValueState::Open(other, 2));
    let closed = UpValue::new(&mut heap, UpValueState::Closed(Value::Nil));
    thread.close_upvalues(&mut heap, 1);
    assert_eq!(low.state(&heap), UpValueState::Open(thread, 0));
    assert_eq!(mid.state(&heap), UpValueState::Closed(Value::Integer(1)));
    assert_eq!(twin.state(&heap), UpValueState::Closed(Value::Integer(1)));
    assert_eq!(high.state(&heap), UpValueState::Closed(Value::Integer(2)));
    assert_eq!(elsewhere.state(&heap), UpValueState::Open(other, 2));
    assert_eq!(closed.state(&heap), UpValueState::Closed(Value::Nil));
    assert_eq!(thread.len(&heap), 3);
    assert_eq!(thread.get(&heap, 1), Value::Integer(1));
    thread.set(&mut heap, 1, Value::Integer(99));
    assert_eq!(mid.get(&heap), Value::Integer(1));
    mid.set(&mut heap, Value::Integer(50));
    assert_eq!(twin.get(&heap), Value::Integer(1));
}

#[test]
fn truncate_closes_what_it_cuts_off() {
    let (mut heap, thread) =
        heap_with_stack(vec![Value::Integer(0), Value::Integer(1), Value::Integer(2)]);
    let low = UpValue::new(&mut heap, UpValueState::Open(thread, 0));
    let high = UpValue::new(&mut heap, UpValueState::Open(thread, 2));
    thread.truncate(&mut heap, 1);
    assert_eq!(thread.len(&heap), 1);
    assert_eq!(thread.get(&heap, 0), Value::Integer(0));
    assert_eq!(low.state(&heap), UpValueState::Open(thread, 0));
    assert_eq!(high.state(&heap), UpValueState::Closed(Value::Integer(2)));
    thread.push(&mut heap, Value::Integer(7));
    thread.push(&mut heap, Value::Integer(8));
    assert_eq!(high.get(&heap), Value::Integer(2));
    assert_eq!(thread.get(&heap, 2), Value::Integer(8));
    let again = UpValue::capture(&mut heap, thread, 2);
    assert_ne!(again, high);
    assert_eq!(again.get(&heap), Value::Integer(8));
}

#[test]
fn truncate_to_the_full_length_keeps_everything() {
    let (mut heap, thread) = heap_with_stack(vec![Value::Integer(0), Value::Integer(1)]);
    let cell = UpValue::new(&mut heap, UpValueState::Open(thread, 1));
    thread.truncate(&mut heap, 2);
    assert_eq!(thread.len(&heap), 2);
    assert_eq!(cell.state(&heap), UpValueState::Open(thread, 1));
}

#[test]
fn truncate_to_nothing_closes_every_cell_of_the_thread() {
    let (mut heap, thread) = heap_with_stack(vec![Value::Integer(0), Value::Integer(1)]);
    let a = UpValue::new(&mut heap, UpValueState::Open(thread, 0));
    let b = UpValue::new(&mut heap, UpValueState::Open(thread, 1));
    thread.truncate(&mut heap, 0);
    assert_eq!(thread.len(&heap), 0);
    assert_eq!(a.state(&heap), UpValueState::Closed(Value::Integer(0)));
    assert_eq!(b.state(&heap), UpValueState::Closed(Value::Integer(1)));
}

#[test]
fn closures_of_one_frame_share_a_register() {
    let (mut heap, thread) = heap_with_stack(vec![Value::Integer(0), Value::Integer(1)]);
    let top = Closure::new(&mut heap, bare_proto(vec![]), None).unwrap();
    let getter =
        heap.add_prototype(bare_proto(vec![UpValueDescriptor::ParentLocal(RegisterIndex(1))]));
    let setter = heap.add_prototype(bare_proto(vec![
        UpValueDescriptor::ParentLocal(RegisterIndex(0)),
        UpValueDescriptor::ParentLocal(RegisterIndex(1)),
    ]));
    let frame = Frame { closure: top, thread, base: 0 };
    let get = Closure::instantiate(&mut heap, frame, getter, None).unwrap();
    let set = Closure::instantiate(&mut heap, frame, setter, None).unwrap();
    assert_ne!(get, set);
    let read = get.upvalue(&heap, UpValueIndex(0));
    let write = set.upvalue(&heap, UpValueIndex(1));
    assert_eq!(read, write);
    write.set(&mut heap, Value::Integer(42));
    assert_eq!(read.get(&heap), Value::Integer(42));
    assert_eq!(thread.get(&heap, 1), Value::Integer(42));
    thread.truncate(&mut heap, 0);
    assert_eq!(read.get(&heap), Value::Integer(42));
    write.set(&mut heap, Value::Integer(43));
    assert_eq!(get.upvalue(&heap, UpValueIndex(0)).get(&heap), Value::Integer(43));
    assert_eq!(set.upvalue(&heap, UpValueIndex(0)).get(&heap), Value::Integer(0));
}

#[test]
fn outer_upvalue_is_the_cell_of_the_enclosing_closure() {
    let (mut heap, thread) = heap_with_stack(vec![Value::Integer(0)]);
    let top = Closure::new(&mut heap, bare_proto(vec![]), None).unwrap();
    let middle_proto =
        heap.add_prototype(bare_proto(vec![UpValueDescriptor::ParentLocal(RegisterIndex(0))]));
    let inner_proto =
        heap.add_prototype(bare_proto(vec![UpValueDescriptor::Outer(UpValueIndex(0))]));
    let middle =
        Closure::instantiate(&mut heap, Frame { closure: top, thread, base: 0 }, middle_proto, None)
            .unwrap();
    let callee = Thread::new(&mut heap);
    let frame = Frame { closure: middle, thread: callee, base: 0 };
    let one = Closure::instantiate(&mut heap, frame, inner_proto, None).unwrap();
    let two = Closure::instantiate(&mut heap, frame, inner_proto, None).unwrap();
    assert_ne!(one, two);
    let shared = middle.upvalue(&heap, UpValueIndex(0));
    assert_eq!(one.upvalue(&heap, UpValueIndex(0)), shared);
    assert_eq!(two.upvalue(&heap, UpValueIndex(0)), shared);
    one.upvalue(&heap, UpValueIndex(0)).set(&mut heap, Value::Table(Table(1)));
    assert_eq!(two.upvalue(&heap, UpValueIndex(0)).get(&heap), Value::Table(Table(1)));
    assert_eq!(thread.get(&heap, 0), Value::Table(Table(1)));
    shared.close(&mut heap);
    two.upvalue(&heap, UpValueIndex(0)).set(&mut heap, Value::Integer(2));
    assert_eq!(one.upvalue(&heap, UpValueIndex(0)).get(&heap), Value::Integer(2));
    assert_eq!(thread.get(&heap, 0), Value::Table(Table(1)));
}

#[test]
fn closures_can_be_values() {
    let (mut heap, thread) = heap_with_stack(vec![Value::Nil]);
    let closure = Closure::new(&mut heap, bare_proto(vec![]), None).unwrap();
    let cell = UpValue::capture(&mut heap, thread, 0);
    cell.set(&mut heap, Value::Function(closure));
    assert_eq!(thread.get(&heap, 0), Value::Function(closure));
}

#[test]
fn truncate_beyond_the_top_changes_nothing() {
    let (mut heap, thread) = heap_with_stack(vec![Value::Integer(0), Value::Integer(1)]);
    let cell = UpValue::new(&mut heap, UpValueState::Open(thread, 1));
    thread.truncate(&mut heap, 5);
    assert_eq!(thread.len(&heap), 2);
    assert_eq!(cell.state(&heap), UpValueState::Open(thread, 1));
    assert_eq!(cell.get(&heap), Value::Integer(1));
}

#[test]
fn close_upvalues_of_an_unknown_thread_changes_nothing() {
    let (mut heap, thread) = heap_with_stack(vec![Value::Integer(0)]);
    let cell = UpValue::new(&mut heap, UpValueState::Open(thread, 0));
    Thread(4).close_upvalues(&mut heap, 0);
    assert_eq!(cell.state(&heap), UpValueState::Open(thread, 0));
}
