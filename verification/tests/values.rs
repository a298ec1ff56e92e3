use akuma_vm::layout::{INT_TAG, NAN, PAIR_TAG, SYMBOL_LIMIT};
use akuma_vm::value::{VType, Value, ValueError};

fn predicates(v: Value) -> [bool; 11] {
    [
        v.is_float(),
        v.is_void(),
        v.is_nil(),
        v.is_true(),
        v.is_false(),
        v.is_integer(),
        v.is_symbol(),
        v.is_lambda(),
        v.is_pair(),
        v.is_vec(),
        v.is_string(),
    ]
}

fn holding(v: Value) -> usize {
    predicates(v).iter().filter(|b| **b).count()
}

#[test]
fn integer_round_trip_values() {
    for i in [0i32, 1, -1, 42, -42, 0x7FFF, i32::MAX, i32::MIN] {
        let v = Value::Integer(i);
        assert!(v.is_integer());
        assert_eq!(v.to_integer(), i);
        assert_eq!(v.to_type(), VType::Integer);
    }
}

#[test]
fn integer_word_is_tag_over_payload() {
    assert_eq!(Value::Integer(5).0, NAN | INT_TAG | 5);
    assert_eq!(Value::Integer(-1).0, NAN | INT_TAG | 0xFFFF_FFFF);
    assert_eq!(Value::Integer(i32::MIN).0, NAN | INT_TAG | 0x8000_0000);
}

#[test]
fn try_integer_refuses_what_32_bits_cannot_hold() {
    assert_eq!(Value::try_integer(7), Ok(Value::Integer(7)));
    assert_eq!(Value::try_integer(-0x8000_0000), Ok(Value::Integer(i32::MIN)));
    assert_eq!(Value::try_integer(0x7FFF_FFFF), Ok(Value::Integer(i32::MAX)));
    assert_eq!(Value::try_integer(0x8000_0000), Err(ValueError::LayoutViolation));
    assert_eq!(Value::try_integer(-0x8000_0001), Err(ValueError::LayoutViolation));
}

#[test]
fn constant_immediates() {
    assert_eq!(Value::Void().0, 0x7FF0_1000_0000_0000);
    assert_eq!(Value::Nil().0, 0x7FF0_2000_0000_0000);
    assert_eq!(Value::True().0, 0x7FF0_3000_0000_0001);
    assert_eq!(Value::False().0, 0x7FF0_3000_0000_0000);
    assert!(Value::Void().is_void());
    assert!(Value::Nil().is_nil());
    assert!(Value::True().is_bool() && Value::True().is_true() && !Value::True().is_false());
    assert!(Value::False().is_bool() && Value::False().is_false() && !Value::False().is_true());
    assert_eq!(Value::Bool(true), Value::True());
    assert_eq!(Value::Bool(false), Value::False());
    assert!(Value::Bool(true).to_bool());
    assert!(!Value::Bool(false).to_bool());
}

#[test]
fn only_booleans_are_true_or_false() {
    assert!(!Value::Integer(1).is_true());
    assert!(!Value::Integer(0).is_false());
    assert!(!Value::Nil().is_true());
    assert!(!Value::Nil().is_false());
}

#[test]
fn exactly_one_predicate_holds() {
    let mut heap = akuma_vm::heap::Heap::new(8);
    let pair = Value::Pair(&mut heap, Value::Nil(), Value::Nil()).unwrap();
    let vec = Value::Vec(&mut heap, vec![Value::Integer(1)]).unwrap();
    let string = Value::String(&mut heap, "s".to_string()).unwrap();
    let lambda = Value::Lambda(
        &mut heap,
        akuma_vm::heap_repr::Environment::new(vec![]),
        vec![],
    )
    .unwrap();
    let values = [
        Value::Void(),
        Value::Nil(),
        Value::True(),
        Value::False(),
        Value::Integer(-3),
        Value::Symbol(9).unwrap(),
        Value::from_float_bits(1.5f64.to_bits()).unwrap(),
        Value::from_float_bits(0).unwrap(),
        pair,
        vec,
        string,
        lambda,
    ];
    for v in values {
        assert!(v.is_well_formed());
        assert_eq!(holding(v), 1, "{:?}", v);
    }
}

#[test]
fn words_without_a_kind() {
    for w in [
        0x7FF0_0000_0000_0000u64,
        0xFFF0_0000_0000_0000,
        0x7FF5_0000_0000_0000,
        0x7FF6_0000_0000_0001,
        0x7FF7_FFFF_FFFF_FFFF,
        0x7FF0_6000_0000_0000,
        0x7FF0_F000_0000_0000,
        0x7FF8_0000_0000_0000,
    ] {
        let v = Value(w);
        assert!(!v.is_well_formed());
        assert_eq!(holding(v), 0);
        assert_eq!(v.kind(), Err(ValueError::ReservedTag));
    }
}

#[test]
fn kind_of_each_word() {
    assert_eq!(Value::Void().kind(), Ok(VType::Void));
    assert_eq!(Value::Nil().kind(), Ok(VType::Nil));
    assert_eq!(Value::True().kind(), Ok(VType::Bool));
    assert_eq!(Value::Integer(1).kind(), Ok(VType::Integer));
    assert_eq!(Value::Symbol(1).unwrap().kind(), Ok(VType::Symbol));
    assert_eq!(Value(0).kind(), Ok(VType::Float));
    assert_eq!(Value(NAN | PAIR_TAG | 8).kind(), Ok(VType::Pair));
    assert_eq!(Value(NAN | PAIR_TAG | 8).to_type(), VType::Pair);
}

#[test]
fn float_round_trip_bits() {
    for x in [0.0f64, -0.0, 1.0, -1.0, 3.14, f64::MAX, f64::MIN, f64::MIN_POSITIVE, 5e-324] {
        let v = Value::from_float_bits(x.to_bits()).unwrap();
        assert!(v.is_float());
        assert_eq!(v.to_float_bits(), x.to_bits());
        assert_eq!(f64::from_bits(v.to_float_bits()).to_bits(), x.to_bits());
        assert_eq!(v.to_type(), VType::Float);
    }
}

#[test]
fn float_bits_inside_the_tagged_space_are_refused() {
    for x in [f64::INFINITY, f64::NEG_INFINITY, f64::NAN] {
        assert_eq!(
            Value::from_float_bits(x.to_bits()),
            Err(ValueError::LayoutViolation)
        );
    }
    assert_eq!(
        Value::from_float_bits(Value::Integer(1).0),
        Err(ValueError::LayoutViolation)
    );
}

#[test]
fn symbol_round_trip_and_limit() {
    for id in [0u64, 1, 0xFFFF_FFFF, SYMBOL_LIMIT - 1] {
        let v = Value::Symbol(id).unwrap();
        assert!(v.is_symbol());
        assert_eq!(v.to_symbol(), id);
    }
    assert_eq!(Value::Symbol(SYMBOL_LIMIT), Err(ValueError::LayoutViolation));
    assert_eq!(Value::Symbol(u64::MAX), Err(ValueError::LayoutViolation));
    assert_eq!(Value::Symbol(1 << 47), Err(ValueError::LayoutViolation));
}

#[test]
fn to_pointer_extends_bit_47() {
    assert_eq!(Value(NAN | PAIR_TAG | 0x10).to_pointer(), 0x10);
    assert_eq!(
        Value(NAN | PAIR_TAG | 0x8000_0000_0000).to_pointer(),
        0xFFFF_8000_0000_0000
    );
    assert_eq!(
        Value(NAN | PAIR_TAG | 0x7FFF_FFFF_FFF8).to_pointer(),
        0x7FFF_FFFF_FFF8
    );
}

#[test]
fn kind_codes() {
    let kinds = [
        VType::Void,
        VType::Nil,
        VType::Bool,
        VType::Integer,
        VType::Float,
        VType::Symbol,
        VType::Lambda,
        VType::Pair,
        VType::Vec,
        VType::String,
    ];
    for (i, k) in kinds.iter().enumerate() {
        assert_eq!(k.code(), i as u64);
        assert_eq!(k.is_heap(), i >= 6);
    }
    assert_eq!(VType::from(0), VType::Void);
    assert_eq!(VType::from(6), VType::Lambda);
    assert_eq!(VType::from(7), VType::Pair);
    assert_eq!(VType::from(8), VType::Vec);
    assert_eq!(VType::from(9), VType::String);
}
