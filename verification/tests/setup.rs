use cargo_notice::init::{add_top_level, holds, offered_licenses, selected_licenses};
use cargo_notice::license::parse;

fn strings(items: &[&str]) -> Vec<String> {
    items.iter().map(|s| s.to_string()).collect()
}

#[test]
fn offered_licenses_names_each_identifier_once() {
    let licenses = ["MIT OR Apache-2.0", "MIT", "Zlib", "Apache-2.0 / MIT", "Apache-2.0 WITH LLVM-exception"];
    assert_eq!(
        offered_licenses(&licenses),
        strings(&["MIT", "Apache-2.0", "Zlib", "Apache-2.0 WITH LLVM-exception"])
    );
    assert_eq!(offered_licenses(&[]), Vec::<String>::new());
    assert_eq!(offered_licenses(&["", "()", "OR"]), Vec::<String>::new());
}

#[test]
fn offered_licenses_does_not_look_into_groups() {
    let licenses = ["(BSD-3-Clause OR Zlib) AND ISC", "(MIT)"];
    assert_eq!(offered_licenses(&licenses), strings(&["ISC"]));
}

#[test]
fn add_top_level_keeps_what_was_found() {
    let mut found = strings(&["Zlib", "MIT"]);
    add_top_level(&mut found, &parse("MIT OR ISC OR (0BSD) OR ISC OR Zlib"));
    assert_eq!(found, strings(&["Zlib", "MIT", "ISC"]));
    add_top_level(&mut found, &[]);
    assert_eq!(found, strings(&["Zlib", "MIT", "ISC"]));
}

#[test]
fn holds_compares_exactly() {
    let found = strings(&["Zlib", "MIT"]);
    assert!(holds(&found, "MIT"));
    assert!(holds(&found, "Zlib"));
    assert!(!holds(&found, "zlib"));
    assert!(!holds(&found, ""));
    assert!(!holds(&Vec::new(), "MIT"));
}

#[test]
fn selected_licenses_follows_the_choice() {
    let options = strings(&["MIT", "Apache-2.0", "Zlib"]);
    assert_eq!(selected_licenses(&options, &[2, 0]), strings(&["Zlib", "MIT"]));
    assert_eq!(selected_licenses(&options, &[1, 1]), strings(&["Apache-2.0", "Apache-2.0"]));
    assert_eq!(selected_licenses(&options, &[]), Vec::<String>::new());
}
