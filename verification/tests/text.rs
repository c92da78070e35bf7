use cargo_notice::text::{contains_str, slice, str_eq, trim};

#[test]
fn str_eq_compares_character_for_character() {
    assert!(str_eq("MIT", "MIT"));
    assert!(str_eq("", ""));
    assert!(str_eq("Générale", "Générale"));
    assert!(!str_eq("MIT", "MIt"));
    assert!(!str_eq("MIT", "MIT "));
    assert!(!str_eq("MIT", ""));
    assert!(!str_eq("é", "e"));
}

#[test]
fn contains_str_looks_through_the_list() {
    assert!(contains_str(&["a", "b", "c"], "c"));
    assert!(contains_str(&["a", "b", "c"], "a"));
    assert!(!contains_str(&["a", "b", "c"], "d"));
    assert!(!contains_str(&[], "a"));
}

#[test]
fn slice_takes_bytes_between_characters() {
    assert_eq!(slice("héllo", 0, 3), "hé");
    assert_eq!(slice("héllo", 3, 6), "llo");
    assert_eq!(slice("héllo", 1, 3), "é");
    assert_eq!(slice("héllo", 0, 6), "héllo");
    assert_eq!(slice("héllo", 3, 3), "");
    assert_eq!(slice("", 0, 0), "");
}

#[test]
fn trim_drops_white_space_at_both_ends() {
    assert_eq!(trim("  MIT \n"), "MIT");
    assert_eq!(trim("MIT"), "MIT");
    assert_eq!(trim("\tApache-2.0 WITH LLVM-exception  "), "Apache-2.0 WITH LLVM-exception");
    assert_eq!(trim(""), "");
    assert_eq!(trim(" \t\r\n"), "");
    assert_eq!(trim(" a"), "a");
    assert_eq!(trim("a "), "a");
    assert_eq!(trim(" a  b "), "a  b");
}

#[test]
fn trim_knows_unicode_white_space() {
    assert_eq!(trim("\u{a0}MIT\u{3000}"), "MIT");
    assert_eq!(trim("\u{2003}é\u{2028}\u{85}"), "é");
    assert_eq!(trim("\u{1680}\u{202f}"), "");
    // A zero-width space is no white space.
    assert_eq!(trim("\u{200b}MIT"), "\u{200b}MIT");
    for text in ["  x  ", "\u{a0}y", "z\n", "", " \u{2009} ", " é é "] {
        assert_eq!(trim(text), text.trim());
    }
}
