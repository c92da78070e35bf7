use cargo_notice::eval::{eval_from_parsed, is_allowed};
use cargo_notice::license::LicenseParsed;

#[test]
fn eval_reads_from_left_to_right() {
    let expr = [
        LicenseParsed::License("A"),
        LicenseParsed::And,
        LicenseParsed::License("B"),
        LicenseParsed::Or,
        LicenseParsed::License("C"),
    ];
    assert!(eval_from_parsed(&expr, &["C"]));
    assert!(eval_from_parsed(&expr, &["A", "B"]));
    assert!(!eval_from_parsed(&expr, &["A"]));
    assert!(!eval_from_parsed(&expr, &["B"]));
    assert!(!eval_from_parsed(&expr, &[]));
}

#[test]
fn eval_of_a_group_is_the_value_of_its_elements() {
    let expr = [
        LicenseParsed::License("A"),
        LicenseParsed::And,
        LicenseParsed::Group(vec![
            LicenseParsed::License("B"),
            LicenseParsed::Or,
            LicenseParsed::Group(vec![
                LicenseParsed::License("C"),
                LicenseParsed::And,
                LicenseParsed::License("D"),
            ]),
        ]),
    ];
    assert!(eval_from_parsed(&expr, &["A", "B"]));
    assert!(eval_from_parsed(&expr, &["A", "C", "D"]));
    assert!(!eval_from_parsed(&expr, &["A", "C"]));
    assert!(!eval_from_parsed(&expr, &["B", "C", "D"]));
}

#[test]
fn eval_without_a_value_is_false() {
    assert!(!eval_from_parsed(&[], &["A"]));
    assert!(!eval_from_parsed(&[LicenseParsed::Or], &["A"]));
    assert!(!eval_from_parsed(&[LicenseParsed::And, LicenseParsed::Or], &["A"]));
    assert!(!eval_from_parsed(&[LicenseParsed::Group(vec![])], &["A"]));
    assert!(!eval_from_parsed(&[LicenseParsed::Group(vec![LicenseParsed::Group(vec![])])], &["A"]));
}

fn a() -> LicenseParsed<'static> {
    LicenseParsed::License("A")
}

fn b() -> LicenseParsed<'static> {
    LicenseParsed::License("B")
}

#[test]
fn eval_of_stray_operators_and_values() {
    // No operator between two values: the second takes the place of the first.
    assert!(eval_from_parsed(&[a(), b()], &["B"]));
    assert!(!eval_from_parsed(&[a(), b()], &["A"]));
    // An operator before the first value is passed over.
    assert!(eval_from_parsed(&[LicenseParsed::And, a()], &["A"]));
    // Of two operators in a row the second counts.
    assert!(eval_from_parsed(&[a(), LicenseParsed::And, LicenseParsed::Or, b()], &["B"]));
    assert!(!eval_from_parsed(&[a(), LicenseParsed::Or, LicenseParsed::And, b()], &["B"]));
    // An operator after the last value changes nothing.
    assert!(eval_from_parsed(&[a(), LicenseParsed::And], &["A"]));
}

#[test]
fn is_allowed_compares_exactly() {
    assert!(is_allowed("MIT", &["Zlib", "MIT"]));
    assert!(!is_allowed("mit", &["Zlib", "MIT"]));
    assert!(!is_allowed("MIT ", &["MIT"]));
    assert!(!is_allowed("MI", &["MIT"]));
    assert!(!is_allowed("MIT", &[]));
    assert!(is_allowed("", &[""]));
}
