use cargo_notice::tokens::{
    before_parse, classify, classify_all, split_at_spans, split_license, LicenseParts,
};

#[test]
fn split_license_cuts_at_delimiters() {
    assert_eq!(
        split_license("MIT OR Apache-2.0/Unicode-3.0 / BSL-1.0"),
        vec!["MIT", "OR", "Apache-2.0", "/", "Unicode-3.0", "/", "BSL-1.0"]
    );
    assert_eq!(
        split_license("(MIT AND Zlib)"),
        vec!["(", "MIT", "AND", "Zlib", ")"]
    );
}

#[test]
fn split_license_trims_and_drops_empty_gaps() {
    assert_eq!(split_license("  MIT  "), vec!["MIT"]);
    assert_eq!(split_license(""), Vec::<&str>::new());
    assert_eq!(split_license(" \t\n"), Vec::<&str>::new());
    assert_eq!(split_license("(( ))/"), vec!["(", "(", ")", ")", "/"]);
    assert_eq!(split_license("OR"), vec!["OR"]);
    assert_eq!(split_license("MIT   OR\n\tZlib"), vec!["MIT", "OR", "Zlib"]);
}

#[test]
fn split_license_finds_operators_in_any_case() {
    assert_eq!(split_license("MIT or Zlib"), vec!["MIT", "or", "Zlib"]);
    assert_eq!(split_license("MIT And Zlib"), vec!["MIT", "And", "Zlib"]);
    assert_eq!(split_license("MIT oR Zlib"), vec!["MIT", "oR", "Zlib"]);
}

#[test]
fn split_license_keeps_exception_clause_whole() {
    assert_eq!(
        split_license("Apache-2.0 WITH LLVM-exception OR MIT"),
        vec!["Apache-2.0 WITH LLVM-exception", "OR", "MIT"]
    );
}

#[test]
fn delimiters_are_found_inside_words() {
    assert_eq!(split_license("FOREST"), vec!["F", "OR", "EST"]);
    assert_eq!(split_license("GPL-2.0-or-later"), vec!["GPL-2.0-", "or", "-later"]);
}

#[test]
fn split_license_trims_unicode_white_space() {
    assert_eq!(split_license("\u{a0}MIT\u{3000}OR\u{2003}Zlib\u{85}"), vec!["MIT", "OR", "Zlib"]);
    assert_eq!(split_license("Licence Publique Générale"), vec!["Licence Publique Générale"]);
}

#[test]
fn split_at_spans_cuts_where_it_is_told() {
    let license = "MIT OR Zlib";
    assert_eq!(split_at_spans(license, &vec![(3, 7)]), vec!["MIT", "OR", "Zlib"]);
    assert_eq!(split_at_spans(license, &vec![(4, 6)]), vec!["MIT", "OR", "Zlib"]);
    assert_eq!(split_at_spans(license, &vec![]), vec!["MIT OR Zlib"]);
    assert_eq!(split_at_spans(license, &vec![(0, 0), (3, 4), (4, 4), (11, 11)]), vec!["MIT", "OR Zlib"]);
    assert_eq!(split_at_spans(license, &vec![(0, 11)]), vec!["MIT OR Zlib"]);
    assert_eq!(split_at_spans("é(ü)", &vec![(2, 3), (5, 6)]), vec!["é", "(", "ü", ")"]);
}

#[test]
fn classify_tells_operators_from_identifiers() {
    assert_eq!(classify("("), LicenseParts::ParenthesesStart);
    assert_eq!(classify(")"), LicenseParts::ParenthesesEnd);
    assert_eq!(classify("/"), LicenseParts::Or);
    assert_eq!(classify("OR"), LicenseParts::Or);
    assert_eq!(classify("or"), LicenseParts::Or);
    assert_eq!(classify("Or"), LicenseParts::Or);
    assert_eq!(classify("oR"), LicenseParts::Or);
    assert_eq!(classify("AND"), LicenseParts::And);
    assert_eq!(classify("and"), LicenseParts::And);
    assert_eq!(classify("aNd"), LicenseParts::And);
    assert_eq!(classify("MIT"), LicenseParts::License("MIT"));
    assert_eq!(classify("ORE"), LicenseParts::License("ORE"));
    assert_eq!(classify("AN"), LicenseParts::License("AN"));
    assert_eq!(classify("0R"), LicenseParts::License("0R"));
    assert_eq!(classify("WITH"), LicenseParts::License("WITH"));
    assert_eq!(classify("|"), LicenseParts::License("|"));
    assert_eq!(classify(""), LicenseParts::License(""));
    assert_eq!(classify("ö"), LicenseParts::License("ö"));
    assert_eq!(classify("ör"), LicenseParts::License("ör"));
}

#[test]
fn classify_all_keeps_the_order() {
    assert_eq!(
        classify_all(&vec!["(", "MIT", "and", "Zlib", ")", "/", "ISC"]),
        vec![
            LicenseParts::ParenthesesStart,
            LicenseParts::License("MIT"),
            LicenseParts::And,
            LicenseParts::License("Zlib"),
            LicenseParts::ParenthesesEnd,
            LicenseParts::Or,
            LicenseParts::License("ISC"),
        ]
    );
    assert_eq!(classify_all(&vec![]), Vec::<LicenseParts>::new());
}

#[test]
fn before_parse_gives_the_tokens_of_a_text() {
    assert_eq!(
        before_parse("(MIT OR Apache-2.0) AND (Unicode-3.0 OR BSL-1.0)"),
        vec![
            LicenseParts::ParenthesesStart,
            LicenseParts::License("MIT"),
            LicenseParts::Or,
            LicenseParts::License("Apache-2.0"),
            LicenseParts::ParenthesesEnd,
            LicenseParts::And,
            LicenseParts::ParenthesesStart,
            LicenseParts::License("Unicode-3.0"),
            LicenseParts::Or,
            LicenseParts::License("BSL-1.0"),
            LicenseParts::ParenthesesEnd,
        ]
    );
    assert_eq!(
        before_parse("Apache-2.0 WITH LLVM-exception/mit"),
        vec![
            LicenseParts::License("Apache-2.0 WITH LLVM-exception"),
            LicenseParts::Or,
            LicenseParts::License("mit"),
        ]
    );
}
