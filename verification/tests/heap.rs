use akuma_vm::heap::Heap;
use akuma_vm::heap_repr::{Environment, Operation};
use akuma_vm::value::{VType, Value, ValueError};

#[test]
fn pair_gives_back_what_it_was_made_of() {
    let mut heap = Heap::new(16);
    let a = Value::Integer(7);
    let b = Value::from_float_bits(2.5f64.to_bits()).unwrap();
    let p = Value::Pair(&mut heap, a, b).unwrap();
    assert!(p.is_pair());
    assert!(heap.holds(p));
    assert_eq!(p.car(&heap), Ok(a));
    assert_eq!(p.cdr(&heap), Ok(b));
    assert_eq!(p.car(&heap).unwrap().0, a.0);
    assert_eq!(p.cdr(&heap).unwrap().0, b.0);
}

#[test]
fn set_car_and_set_cdr_are_seen() {
    let mut heap = Heap::new(16);
    let p = Value::Pair(&mut heap, Value::Integer(1), Value::Integer(2)).unwrap();
    assert_eq!(p.set_car(&mut heap, Value::Integer(10)), Ok(()));
    assert_eq!(p.car(&heap), Ok(Value::Integer(10)));
    assert_eq!(p.cdr(&heap), Ok(Value::Integer(2)));
    assert_eq!(p.set_cdr(&mut heap, Value::True()), Ok(()));
    assert_eq!(p.car(&heap), Ok(Value::Integer(10)));
    assert_eq!(p.cdr(&heap), Ok(Value::True()));
}

#[test]
fn projections_refuse_other_kinds() {
    let mut heap = Heap::new(16);
    let v = Value::Vec(&mut heap, vec![Value::Nil()]).unwrap();
    let p = Value::Pair(&mut heap, Value::Nil(), Value::Nil()).unwrap();
    for x in [Value::Integer(1), Value::Nil(), v] {
        assert_eq!(x.car(&heap), Err(ValueError::KindMismatch));
        assert_eq!(x.cdr(&heap), Err(ValueError::KindMismatch));
        assert_eq!(x.set_car(&mut heap, Value::Nil()), Err(ValueError::KindMismatch));
        assert_eq!(x.set_cdr(&mut heap, Value::Nil()), Err(ValueError::KindMismatch));
        assert!(x.to_pair(&heap).is_err());
    }
    assert!(p.to_vec(&heap).is_err());
    assert!(p.to_string(&heap).is_err());
    assert!(p.to_lambda(&heap).is_err());
    assert_eq!(heap.len(), 2);
}

#[test]
fn a_handle_to_no_cell_holds_nothing() {
    let mut heap = Heap::new(16);
    let p = Value::Pair(&mut heap, Value::Nil(), Value::Nil()).unwrap();
    let forged = Value(p.0 + 8);
    assert!(forged.is_pair());
    assert!(!heap.holds(forged));
    assert_eq!(forged.car(&heap), Err(ValueError::KindMismatch));
    let other_kind = Value(p.0 ^ 0x0001_0000_0000_0000);
    assert!(other_kind.is_vec());
    assert!(!heap.holds(other_kind));
    let unaligned = Value(p.0 | 1);
    assert!(!heap.holds(unaligned));
    assert!(!heap.holds(Value::Integer(8)));
}

#[test]
fn interiors_are_borrowed() {
    let mut heap = Heap::new(16);
    let items = vec![Value::Integer(10), Value::Integer(20)];
    let v = Value::Vec(&mut heap, items.clone()).unwrap();
    let s = Value::String(&mut heap, "hello".to_string()).unwrap();
    let env = Environment::new(vec![v]);
    let l = Value::Lambda(&mut heap, env, vec![Operation(3), Operation(4)]).unwrap();
    assert!(v.is_vec() && s.is_string() && l.is_lambda());
    assert_eq!(v.to_vec(&heap).unwrap().vec, items);
    assert_eq!(s.to_string(&heap).unwrap().str, "hello");
    let cell = l.to_lambda(&heap).unwrap();
    assert_eq!(cell.env.values, vec![v]);
    assert_eq!(cell.code, vec![Operation(3), Operation(4)]);
    assert_eq!(v.to_type(), VType::Vec);
    assert_eq!(s.to_type(), VType::String);
    assert_eq!(l.to_type(), VType::Lambda);
}

#[test]
fn heap_list_grows_by_one_cell_per_allocation() {
    let mut heap = Heap::new(100);
    assert_eq!(heap.len(), 0);
    assert_eq!(heap.get_head(), 0);
    for n in 1..=20u64 {
        let v = match n % 4 {
            0 => Value::Pair(&mut heap, Value::Nil(), Value::Nil()),
            1 => Value::Vec(&mut heap, vec![]),
            2 => Value::String(&mut heap, String::new()),
            _ => Value::Lambda(&mut heap, Environment::new(vec![]), vec![]),
        };
        assert!(v.is_ok());
        assert_eq!(heap.len(), n);
    }
}

#[test]
fn head_word_names_the_newest_cell_and_its_kind() {
    let mut heap = Heap::new(8);
    let p = Value::Pair(&mut heap, Value::Nil(), Value::Nil()).unwrap();
    assert_eq!(heap.get_head(), (7u64 << 56) | p.to_pointer());
    let first = heap.get_head();
    let s = Value::String(&mut heap, "x".to_string()).unwrap();
    assert_eq!(heap.get_head(), (9u64 << 56) | s.to_pointer());
    assert_eq!(s.to_string(&heap).unwrap().gc, first);
    assert_eq!(p.to_pair(&heap).unwrap().gc, 0);
    let v = Value::Vec(&mut heap, vec![]).unwrap();
    assert_eq!(heap.get_head() >> 56, 8);
    let l = Value::Lambda(&mut heap, Environment::new(vec![]), vec![]).unwrap();
    assert_eq!(heap.get_head() >> 56, 6);
    assert_eq!(l.to_lambda(&heap).unwrap().gc, (8u64 << 56) | v.to_pointer());
}

#[test]
fn a_full_heap_refuses_to_allocate() {
    let mut heap = Heap::new(2);
    assert_eq!(heap.limit(), 2);
    let a = Value::Pair(&mut heap, Value::Nil(), Value::Nil()).unwrap();
    let _b = Value::Pair(&mut heap, a, Value::Nil()).unwrap();
    assert_eq!(
        Value::Pair(&mut heap, Value::Nil(), Value::Nil()),
        Err(ValueError::AllocationFailure)
    );
    assert_eq!(Value::Vec(&mut heap, vec![]), Err(ValueError::AllocationFailure));
    assert_eq!(
        Value::String(&mut heap, String::new()),
        Err(ValueError::AllocationFailure)
    );
    assert_eq!(
        Value::Lambda(&mut heap, Environment::new(vec![]), vec![]),
        Err(ValueError::AllocationFailure)
    );
    assert_eq!(heap.len(), 2);
    let empty = Heap::new(0);
    assert_eq!(empty.limit(), 0);
}

#[test]
fn the_limit_is_capped() {
    let heap = Heap::new(u64::MAX);
    assert_eq!(heap.limit(), akuma_vm::heap::MAX_CELLS);
}
