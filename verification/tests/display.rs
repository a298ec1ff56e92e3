use akuma_vm::display::Piece;
use akuma_vm::heap::Heap;
use akuma_vm::heap_repr::Environment;
use akuma_vm::interner::Interner;
use akuma_vm::value::{Value, ValueError};

fn written(pieces: &[Piece]) -> String {
    let mut bytes: Vec<u8> = Vec::new();
    for p in pieces {
        match p {
            Piece::Byte(b) => bytes.push(*b),
            Piece::Float(bits) => bytes.extend(format!("{}", f64::from_bits(*bits)).bytes()),
        }
    }
    String::from_utf8(bytes).unwrap()
}

fn show(v: Value, heap: &Heap, interner: &Interner) -> Result<String, ValueError> {
    let mut sink = Vec::new();
    v.display(heap, interner, &mut sink)?;
    Ok(written(&sink))
}

fn list(heap: &mut Heap, items: &[Value], end: Value) -> Value {
    let mut tail = end;
    for v in items.iter().rev() {
        tail = Value::Pair(heap, *v, tail).unwrap();
    }
    tail
}

#[test]
fn integer_and_float() {
    let heap = Heap::new(4);
    let names = Interner::new();
    assert_eq!(show(Value::Integer(1 + 2), &heap, &names).unwrap(), "3");
    let x = Value::from_float_bits(3.14f64.to_bits()).unwrap();
    assert_eq!(show(x, &heap, &names).unwrap(), "3.14");
    let mut sink = Vec::new();
    x.display(&heap, &names, &mut sink).unwrap();
    assert_eq!(sink, vec![Piece::Float(3.14f64.to_bits())]);
}

#[test]
fn integers_in_decimal() {
    let heap = Heap::new(4);
    let names = Interner::new();
    for i in [0, 7, 10, -1, 1234567890, i32::MAX, i32::MIN, -100, 99] {
        assert_eq!(show(Value::Integer(i), &heap, &names).unwrap(), format!("{}", i));
    }
}

#[test]
fn boolean_display() {
    let heap = Heap::new(4);
    let names = Interner::new();
    assert_eq!(show(Value::True(), &heap, &names).unwrap(), "#t");
    assert_eq!(show(Value::False(), &heap, &names).unwrap(), "#f");
    let chosen = if Value::False().is_false() {
        Value::Integer(2)
    } else {
        Value::Integer(1)
    };
    assert_eq!(show(chosen, &heap, &names).unwrap(), "2");
}

#[test]
fn nil_void_and_procedure() {
    let mut heap = Heap::new(4);
    let names = Interner::new();
    assert_eq!(show(Value::Nil(), &heap, &names).unwrap(), "()");
    assert_eq!(show(Value::Void(), &heap, &names).unwrap(), "");
    let l = Value::Lambda(&mut heap, Environment::new(vec![]), vec![]).unwrap();
    assert_eq!(show(l, &heap, &names).unwrap(), "#<procedure>");
}

#[test]
fn proper_list() {
    let mut heap = Heap::new(16);
    let names = Interner::new();
    let items = [Value::Integer(1), Value::Integer(2), Value::Integer(3)];
    let l = list(&mut heap, &items, Value::Nil());
    assert_eq!(show(l, &heap, &names).unwrap(), "(1 2 3)");
    let one = list(&mut heap, &items[..1], Value::Nil());
    assert_eq!(show(one, &heap, &names).unwrap(), "(1)");
}

#[test]
fn improper_list() {
    let mut heap = Heap::new(16);
    let names = Interner::new();
    let p = Value::Pair(&mut heap, Value::Integer(1), Value::Integer(2)).unwrap();
    assert_eq!(show(p, &heap, &names).unwrap(), "(1 . 2)");
    let items = [Value::Integer(1), Value::Integer(2)];
    let l = list(&mut heap, &items, Value::Integer(3));
    assert_eq!(show(l, &heap, &names).unwrap(), "(1 2 . 3)");
}

#[test]
fn vector() {
    let mut heap = Heap::new(16);
    let names = Interner::new();
    let items = vec![Value::Integer(10), Value::Integer(20), Value::Integer(30)];
    let v = Value::Vec(&mut heap, items).unwrap();
    assert_eq!(show(v, &heap, &names).unwrap(), "#(10, 20, 30)");
    let empty = Value::Vec(&mut heap, vec![]).unwrap();
    assert_eq!(show(empty, &heap, &names).unwrap(), "#()");
    let one = Value::Vec(&mut heap, vec![Value::True()]).unwrap();
    assert_eq!(show(one, &heap, &names).unwrap(), "#(#t)");
}

#[test]
fn string_in_quotes() {
    let mut heap = Heap::new(16);
    let names = Interner::new();
    let s = Value::String(&mut heap, "hello world".to_string()).unwrap();
    assert_eq!(show(s, &heap, &names).unwrap(), "\"hello world\"");
    let raw = Value::String(&mut heap, "a\"b\\ λ".to_string()).unwrap();
    assert_eq!(show(raw, &heap, &names).unwrap(), "\"a\"b\\ λ\"");
}

#[test]
fn symbols_by_their_text() {
    let heap = Heap::new(4);
    let mut names = Interner::new();
    let car = Value::Symbol(names.intern("car").unwrap()).unwrap();
    let lambda = Value::Symbol(names.intern("λ-calc").unwrap()).unwrap();
    assert_eq!(show(car, &heap, &names).unwrap(), "car");
    assert_eq!(show(lambda, &heap, &names).unwrap(), "λ-calc");
    let unknown = Value::Symbol(2).unwrap();
    assert_eq!(show(unknown, &heap, &names), Err(ValueError::UnknownSymbol));
    let far = Value::Symbol(1 << 40).unwrap();
    assert_eq!(show(far, &heap, &names), Err(ValueError::UnknownSymbol));
}

#[test]
fn nested_values() {
    let mut heap = Heap::new(32);
    let mut names = Interner::new();
    let define = Value::Symbol(names.intern("define").unwrap()).unwrap();
    let x = Value::from_float_bits(0.5f64.to_bits()).unwrap();
    let s = Value::String(&mut heap, "s".to_string()).unwrap();
    let inner = list(&mut heap, &[x, s], Value::Nil());
    let v = Value::Vec(&mut heap, vec![inner, Value::Nil(), Value::Void()]).unwrap();
    let all = list(&mut heap, &[define, v, inner], Value::False());
    assert_eq!(
        show(all, &heap, &names).unwrap(),
        "(define #((0.5 \"s\"), (), ) (0.5 \"s\") . #f)"
    );
}

#[test]
fn an_error_leaves_the_sink_as_it_was() {
    let mut heap = Heap::new(16);
    let names = Interner::new();
    let bad = Value::Symbol(0).unwrap();
    let l = list(&mut heap, &[Value::Integer(1), bad], Value::Nil());
    let mut sink = vec![Piece::Byte(b'>')];
    assert_eq!(l.display(&heap, &names, &mut sink), Err(ValueError::UnknownSymbol));
    assert_eq!(sink, vec![Piece::Byte(b'>')]);
    assert_eq!(Value::Integer(4).display(&heap, &names, &mut sink), Ok(()));
    assert_eq!(sink, vec![Piece::Byte(b'>'), Piece::Byte(b'4')]);
}

#[test]
fn words_without_a_kind_and_stale_handles() {
    let mut heap = Heap::new(16);
    let names = Interner::new();
    assert_eq!(
        show(Value(0x7FF5_0000_0000_0000), &heap, &names),
        Err(ValueError::ReservedTag)
    );
    let p = Value::Pair(&mut heap, Value::Integer(1), Value::Nil()).unwrap();
    let v = Value::Vec(&mut heap, vec![p]).unwrap();
    let s = Value::String(&mut heap, "s".to_string()).unwrap();
    v.mark(&mut heap);
    heap.sweep();
    assert_eq!(show(s, &heap, &names), Err(ValueError::KindMismatch));
    assert_eq!(show(v, &heap, &names).unwrap(), "#((1))");
    heap.sweep();
    assert_eq!(show(p, &heap, &names), Err(ValueError::KindMismatch));
    assert_eq!(show(v, &heap, &names), Err(ValueError::KindMismatch));
}

#[test]
fn a_value_that_holds_itself_is_too_deep() {
    let mut heap = Heap::new(16);
    let names = Interner::new();
    let p = Value::Pair(&mut heap, Value::Integer(1), Value::Nil()).unwrap();
    let _other = Value::Pair(&mut heap, Value::Integer(2), Value::Nil()).unwrap();
    p.set_cdr(&mut heap, p).unwrap();
    assert_eq!(show(p, &heap, &names), Err(ValueError::TooDeep));
    p.set_cdr(&mut heap, Value::Nil()).unwrap();
    p.set_car(&mut heap, p).unwrap();
    assert_eq!(show(p, &heap, &names), Err(ValueError::TooDeep));
}

#[test]
fn a_list_as_long_as_the_heap_is_printed() {
    let mut heap = Heap::new(3000);
    let names = Interner::new();
    let items = vec![Value::Integer(7); 3000];
    let l = list(&mut heap, &items, Value::Nil());
    let text = show(l, &heap, &names).unwrap();
    assert_eq!(text.len(), 2 * 3000 + 1);
    assert!(text.starts_with("(7 7 ") && text.ends_with(" 7)"));
}

#[test]
fn display_depends_on_reachable_cells_only() {
    let names = Interner::new();
    let mut small = Heap::new(64);
    let items = [Value::Integer(1), Value::Integer(2)];
    let a = list(&mut small, &items, Value::Nil());
    let mut large = Heap::new(64);
    let b = list(&mut large, &items, Value::Nil());
    for _ in 0..10 {
        Value::String(&mut large, "noise".to_string()).unwrap();
    }
    assert_eq!(a, b);
    assert_eq!(show(a, &small, &names), show(b, &large, &names));
}
