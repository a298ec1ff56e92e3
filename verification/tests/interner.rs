use akuma_vm::interner::Interner;

#[test]
fn interned_texts_keep_their_numbers() {
    let mut names = Interner::new();
    assert_eq!(names.len(), 0);
    assert_eq!(names.text_of(0), None);
    let a = names.intern("alpha").unwrap();
    let b = names.intern("beta").unwrap();
    assert_eq!((a, b), (0, 1));
    assert_eq!(names.intern("alpha"), Ok(0));
    assert_eq!(names.len(), 2);
    assert_eq!(names.text_of(a), Some("alpha".to_string()));
    assert_eq!(names.text_of(b), Some("beta".to_string()));
    assert_eq!(names.text_of(2), None);
    assert_eq!(names.text_of(0xFFFF_FFFF), None);
    assert_eq!(names.text_of(0x1_0000_0000), None);
    assert_eq!(names.text_of(u64::MAX), None);
}

#[test]
fn the_empty_text_is_a_text() {
    let mut names = Interner::new();
    let e = names.intern("").unwrap();
    assert_eq!(names.text_of(e), Some(String::new()));
    assert_eq!(names.intern(""), Ok(e));
    assert_eq!(names.len(), 1);
}
