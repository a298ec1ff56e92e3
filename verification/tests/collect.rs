use akuma_vm::heap::Heap;
use akuma_vm::heap_repr::Environment;
use akuma_vm::value::{Value, ValueError};

fn list(heap: &mut Heap, items: &[i32]) -> Value {
    let mut tail = Value::Nil();
    for i in items.iter().rev() {
        tail = Value::Pair(heap, Value::Integer(*i), tail).unwrap();
    }
    tail
}

#[test]
fn cyclic_pair_survives_gc() {
    let mut heap = Heap::new(16);
    let p = Value::Pair(&mut heap, Value::Integer(1), Value::Nil()).unwrap();
    p.set_cdr(&mut heap, p).unwrap();
    assert_eq!(p.mark(&mut heap), 1);
    assert_eq!(heap.sweep(), 0);
    assert_eq!(p.car(&heap), Ok(Value::Integer(1)));
    assert_eq!(p.cdr(&heap), Ok(p));
    assert_eq!(heap.len(), 1);
    assert!(!heap.is_marked(p.to_pointer()));
}

#[test]
fn mark_reaches_every_cell_once() {
    let mut heap = Heap::new(64);
    let shared = list(&mut heap, &[1, 2]);
    let v = Value::Vec(&mut heap, vec![shared, shared, Value::Integer(3)]).unwrap();
    let s = Value::String(&mut heap, "text".to_string()).unwrap();
    let l = Value::Lambda(&mut heap, Environment::new(vec![v, s]), vec![]).unwrap();
    let root = Value::Pair(&mut heap, l, shared).unwrap();
    let garbage = list(&mut heap, &[9, 9, 9]);
    assert_eq!(heap.len(), 9);
    assert_eq!(root.mark(&mut heap), 6);
    for x in [root, l, v, s, shared, shared.cdr(&heap).unwrap()] {
        assert!(heap.is_marked(x.to_pointer()));
    }
    assert!(!heap.is_marked(garbage.to_pointer()));
    assert_eq!(root.mark(&mut heap), 0);
    assert_eq!(garbage.mark(&mut heap), 3);
}

#[test]
fn mark_of_an_immediate_marks_nothing() {
    let mut heap = Heap::new(8);
    let p = list(&mut heap, &[1]);
    for v in [Value::Integer(5), Value::Nil(), Value(0), Value(p.0 + 64)] {
        assert_eq!(v.mark(&mut heap), 0);
    }
    assert!(!heap.is_marked(p.to_pointer()));
}

#[test]
fn mark_walks_a_long_cycle() {
    let mut heap = Heap::new(2000);
    let first = Value::Pair(&mut heap, Value::Integer(0), Value::Nil()).unwrap();
    let mut last = first;
    for i in 1..1000 {
        let next = Value::Pair(&mut heap, Value::Integer(i), Value::Nil()).unwrap();
        last.set_cdr(&mut heap, next).unwrap();
        last = next;
    }
    last.set_cdr(&mut heap, first).unwrap();
    last.set_car(&mut heap, last).unwrap();
    assert_eq!(first.mark(&mut heap), 1000);
    assert_eq!(heap.sweep(), 0);
    assert_eq!(heap.len(), 1000);
}

#[test]
fn sweep_frees_what_is_not_marked() {
    let mut heap = Heap::new(64);
    let keep = list(&mut heap, &[1, 2, 3]);
    let drop = list(&mut heap, &[4, 5]);
    let keep_too = Value::Vec(&mut heap, vec![Value::Integer(6)]).unwrap();
    assert_eq!(heap.len(), 6);
    keep.mark(&mut heap);
    keep_too.mark(&mut heap);
    assert_eq!(heap.sweep(), 2);
    assert_eq!(heap.len(), 4);
    assert!(!heap.holds(drop));
    assert_eq!(drop.car(&heap), Err(ValueError::KindMismatch));
    assert_eq!(keep.car(&heap), Ok(Value::Integer(1)));
    assert_eq!(keep.cdr(&heap).unwrap().car(&heap), Ok(Value::Integer(2)));
    assert_eq!(keep_too.to_vec(&heap).unwrap().vec, vec![Value::Integer(6)]);
    for x in [keep, keep.cdr(&heap).unwrap(), keep_too] {
        assert!(!heap.is_marked(x.to_pointer()));
    }
    assert_eq!(heap.get_head(), (8u64 << 56) | keep_too.to_pointer());
    assert_eq!(keep_too.to_vec(&heap).unwrap().gc, (7u64 << 56) | keep.to_pointer());
}

#[test]
fn sweep_without_marks_empties_the_heap() {
    let mut heap = Heap::new(8);
    let p = list(&mut heap, &[1, 2, 3]);
    assert_eq!(heap.sweep(), 3);
    assert_eq!(heap.len(), 0);
    assert_eq!(heap.get_head(), 0);
    assert!(!heap.holds(p));
    assert_eq!(heap.sweep(), 0);
}

#[test]
fn freed_slots_are_used_again() {
    let mut heap = Heap::new(3);
    let a = list(&mut heap, &[1, 2, 3]);
    assert!(Value::Vec(&mut heap, vec![]).is_err());
    let second = a.cdr(&heap).unwrap();
    second.mark(&mut heap);
    assert_eq!(heap.sweep(), 1);
    let v = Value::Vec(&mut heap, vec![second]).unwrap();
    assert_eq!(v.to_pointer(), a.to_pointer());
    assert_eq!(heap.len(), 3);
    assert!(Value::Vec(&mut heap, vec![]).is_err());
    assert_eq!(a.car(&heap), Err(ValueError::KindMismatch));
    assert_eq!(second.car(&heap), Ok(Value::Integer(2)));
}

#[test]
fn collect_keeps_what_the_roots_reach() {
    let mut heap = Heap::new(64);
    let a = list(&mut heap, &[1, 2]);
    let b = list(&mut heap, &[3]);
    let c = list(&mut heap, &[4, 5, 6]);
    let both = Value::Pair(&mut heap, a, b).unwrap();
    assert_eq!(heap.len(), 7);
    assert_eq!(heap.collect(&vec![both, Value::Integer(1)]), 3);
    assert_eq!(heap.len(), 4);
    assert!(heap.holds(a) && heap.holds(b) && heap.holds(both));
    assert!(!heap.holds(c));
    assert_eq!(heap.collect(&vec![b]), 3);
    assert_eq!(heap.len(), 1);
    assert_eq!(b.car(&heap), Ok(Value::Integer(3)));
    assert_eq!(heap.collect(&vec![]), 1);
    assert_eq!(heap.len(), 0);
}
