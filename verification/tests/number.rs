use akuma_vm::number::{classify_part, is_ratio, read_part, split_ratio, Part};

#[test]
fn ratios_are_found() {
    for t in ["1/2", "+1/2", "-10/25", "x1/2y", "007/3"] {
        assert!(is_ratio(t), "{}", t);
    }
    for t in ["", "1", "1.5", "/", "1/", "/2", "+/2", "a/b", "1 / 2"] {
        assert!(!is_ratio(t), "{}", t);
    }
}

#[test]
fn parts_of_an_exact_number() {
    assert_eq!(read_part(None, false, false), Part::Zero);
    assert_eq!(read_part(None, true, false), Part::Zero);
    assert_eq!(read_part(Some("1/2"), false, false), Part::Literal);
    assert_eq!(read_part(Some("-"), true, false), Part::MinusOne);
    assert_eq!(read_part(Some("+"), true, false), Part::One);
    assert_eq!(read_part(Some("7"), true, false), Part::One);
    assert_eq!(read_part(Some("-"), false, false), Part::Literal);
    assert_eq!(read_part(Some("-3/4"), true, false), Part::Literal);
}

#[test]
fn parts_of_a_floating_number() {
    assert_eq!(read_part(None, false, true), Part::Zero);
    assert_eq!(read_part(Some("1/2"), false, true), Part::Ratio);
    assert_eq!(read_part(Some("1.5"), false, true), Part::Literal);
    assert_eq!(read_part(Some("-"), true, true), Part::MinusOne);
    assert_eq!(read_part(Some("+"), true, true), Part::One);
    assert_eq!(read_part(Some("-1/3"), true, true), Part::Ratio);
    assert_eq!(read_part(Some("2.5e3"), true, true), Part::Literal);
}

#[test]
fn classify_follows_what_it_is_told() {
    assert_eq!(classify_part(Some("1.5"), false, true), Part::Ratio);
    assert_eq!(classify_part(Some("1/2"), false, false), Part::Literal);
    assert_eq!(classify_part(Some("-"), true, true), Part::MinusOne);
    assert_eq!(classify_part(Some("λ"), true, false), Part::Literal);
    assert_eq!(classify_part(None, true, true), Part::Zero);
}

#[test]
fn a_ratio_splits_at_its_first_slash() {
    assert_eq!(split_ratio("1/2"), Some((1, 2)));
    assert_eq!(split_ratio("-10/25"), Some((3, 4)));
    assert_eq!(split_ratio("1//2"), Some((1, 3)));
    assert_eq!(split_ratio("1/2/3"), Some((1, 2)));
    assert_eq!(split_ratio("/"), Some((0, 1)));
    assert_eq!(split_ratio("12/"), Some((2, 3)));
    assert_eq!(split_ratio("12"), None);
    assert_eq!(split_ratio(""), None);
    let t = "-10/25";
    let (i, j) = split_ratio(t).unwrap();
    let x = t[..i].parse::<f64>().unwrap() / t[j..].parse::<f64>().unwrap();
    assert_eq!(x, -0.4);
}
