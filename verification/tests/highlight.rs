use cargo_notice::highlight::{
    colorize_expression, highlight, segments_at_spans, Highlight, Segment,
};

fn plain(text: &str) -> Segment<'_> {
    Segment { text, highlight: Highlight::Plain }
}

fn allowed(text: &str) -> Segment<'_> {
    Segment { text, highlight: Highlight::Allowed }
}

fn denied(text: &str) -> Segment<'_> {
    Segment { text, highlight: Highlight::Denied }
}

#[test]
fn highlight_leaves_operators_and_parentheses_plain() {
    for unit in ["AND", "and", "And", "OR", "or", "oR", "(", ")"] {
        assert_eq!(highlight(unit, &[]), Highlight::Plain);
        assert_eq!(highlight(unit, &[unit]), Highlight::Plain);
    }
}

#[test]
fn highlight_tells_allowed_from_denied() {
    assert_eq!(highlight("MIT", &["Zlib", "MIT"]), Highlight::Allowed);
    assert_eq!(highlight("MIT", &["Zlib"]), Highlight::Denied);
    assert_eq!(highlight("mit", &["MIT"]), Highlight::Denied);
    assert_eq!(highlight("/", &[]), Highlight::Denied);
    assert_eq!(highlight("/", &["/"]), Highlight::Allowed);
    assert_eq!(highlight("", &[]), Highlight::Denied);
    assert_eq!(highlight("ORE", &["ORE"]), Highlight::Allowed);
}

#[test]
fn colorize_expression_marks_each_identifier() {
    assert_eq!(
        colorize_expression("MIT OR Apache-2.0", &["MIT"]),
        vec![allowed("MIT"), plain(" "), plain("OR"), plain(" "), denied("Apache-2.0")]
    );
    assert_eq!(
        colorize_expression("(MIT and Zlib)/ISC", &["Zlib", "ISC"]),
        vec![
            plain("("),
            denied("MIT"),
            plain(" "),
            plain("and"),
            plain(" "),
            allowed("Zlib"),
            plain(")"),
            plain("/"),
            allowed("ISC"),
        ]
    );
    assert_eq!(colorize_expression("", &["MIT"]), Vec::<Segment>::new());
    assert_eq!(colorize_expression(" / ", &["MIT"]), vec![plain(" / ")]);
}

#[test]
fn colorize_expression_keeps_exception_clause_whole() {
    assert_eq!(
        colorize_expression(
            "Apache-2.0 WITH LLVM-exception OR MIT",
            &["Apache-2.0 WITH LLVM-exception"]
        ),
        vec![
            allowed("Apache-2.0 WITH LLVM-exception"),
            plain(" "),
            plain("OR"),
            plain(" "),
            denied("MIT"),
        ]
    );
    assert_eq!(
        colorize_expression("Apache-2.0 WITH LLVM-exception", &["Apache-2.0"]),
        vec![denied("Apache-2.0 WITH LLVM-exception")]
    );
}

#[test]
fn colorize_expression_loses_no_text() {
    for expr in [
        "((MIT AND Apache-2.0) OR Unicode-3.0) OR ( BSL-1.0)",
        "  MIT\tOR  Zlib  ",
        "Licence Générale — libre / MIT",
        "",
    ] {
        let joined: String = colorize_expression(expr, &["MIT"]).iter().map(|s| s.text).collect();
        assert_eq!(joined, expr);
    }
}

#[test]
fn segments_at_spans_cuts_where_it_is_told() {
    assert_eq!(
        segments_at_spans("MIT OR Zlib", &vec![(0, 3), (4, 6), (7, 11)], &["Zlib"]),
        vec![denied("MIT"), plain(" "), plain("OR"), plain(" "), allowed("Zlib")]
    );
    assert_eq!(segments_at_spans("MIT", &vec![], &["MIT"]), vec![plain("MIT")]);
    assert_eq!(segments_at_spans("MIT", &vec![(1, 1)], &[]), vec![plain("M"), denied(""), plain("IT")]);
    assert_eq!(segments_at_spans("é(", &vec![(0, 2), (2, 3)], &["é"]), vec![allowed("é"), plain("(")]);
}
