//! The tokenizer: from the text of a license expression to its lexical
//! units.

use crate::pattern::{find_all, regex_find_all, spans_in_order};
use crate::text::{is_byte_range, slice, slice_spec, texts, trim, trim_spec};
use vstd::prelude::*;
use vstd::utf8::*;

verus! {

broadcast use vstd::utf8::group_utf8_lib;

/// The delimiters of a license expression: the two operator words in any
/// case, the slash that stands for `OR`, and the two parentheses, each with
/// the white space around it where it may have some.
pub const DELIMITERS: &'static str = "(?i)(\\s*OR\\s*|\\s*AND\\s*|\\(|\\)|\\s*/\\s*|/)";

/// A lexical unit as mathematics.
pub enum Token {
    License(Seq<char>),
    ParenthesesStart,
    ParenthesesEnd,
    Or,
    And,
}

/// A lexical unit of a license expression.
#[derive(Debug, Clone, Copy, PartialEq, Eq)]
pub enum LicenseParts<'a> {
    License(&'a str),
    ParenthesesStart,
    ParenthesesEnd,
    Or,
    And,
}

impl<'a> View for LicenseParts<'a> {
    type V = Token;

    open spec fn view(&self) -> Token {
        match self {
            LicenseParts::License(text) => Token::License(text@),
            LicenseParts::ParenthesesStart => Token::ParenthesesStart,
            LicenseParts::ParenthesesEnd => Token::ParenthesesEnd,
            LicenseParts::Or => Token::Or,
            LicenseParts::And => Token::And,
        }
    }
}

/// The mathematical form of each of `parts`.
pub open spec fn tokens_of(parts: Seq<LicenseParts<'_>>) -> Seq<Token> {
    parts.map_values(|part: LicenseParts<'_>| part@)
}

/// A piece is kept unless nothing is left of it.
pub open spec fn kept(piece: Seq<char>) -> Seq<Seq<char>> {
    if piece.len() == 0 {
        Seq::empty()
    } else {
        seq![piece]
    }
}

/// The number of bytes in the UTF-8 encoding of `text`.
pub open spec fn byte_len(text: Seq<char>) -> int {
    encode_utf8(text).len() as int
}

/// The pieces of `text` from byte offset `from` on, cut at `spans`: before
/// each span the gap that leads up to it, then the span itself, and after the
/// last span the remainder; each piece trimmed, and dropped where it is empty.
pub open spec fn pieces_from(text: Seq<char>, spans: Seq<(usize, usize)>, from: int) -> Seq<
    Seq<char>,
>
    decreases spans.len(),
{
    if spans.len() == 0 {
        kept(trim_spec(slice_spec(text, from, byte_len(text))))
    } else {
        let (start, end) = spans.first();
        kept(trim_spec(slice_spec(text, from, start as int))) + kept(
            trim_spec(slice_spec(text, start as int, end as int)),
        ) + pieces_from(text, spans.drop_first(), end as int)
    }
}

/// The pieces of the whole of `text`, cut at `spans`.
pub open spec fn pieces_spec(text: Seq<char>, spans: Seq<(usize, usize)>) -> Seq<Seq<char>> {
    pieces_from(text, spans, 0)
}

/// Cuts `license` at `spans`, the byte ranges of its delimiters: the trimmed
/// text of every gap and of every span, in the order of the text, without the
/// empty ones.
pub fn split_at_spans<'a>(license: &'a str, spans: &Vec<(usize, usize)>) -> (pieces: Vec<&'a str>)
    requires
        spans_in_order(license@, spans@),
    ensures
        texts(pieces@) == pieces_spec(license@, spans@),
{
    let total = license.as_bytes().len();
    let mut result: Vec<&'a str> = Vec::new();
    let mut last_end: usize = 0;
    let mut i: usize = 0;
    assert(spans@.skip(0) =~= spans@);
    while i < spans.len()
        invariant
            i <= spans.len(),
            total == byte_len(license@),
            spans_in_order(license@, spans@),
            is_byte_range(license@, last_end as int, total as int),
            i < spans.len() ==> last_end <= spans@[i as int].0,
            texts(result@) + pieces_from(license@, spans@.skip(i as int), last_end as int)
                == pieces_spec(license@, spans@),
        decreases spans.len() - i,
    {
        let (start, end) = spans[i];
        assert(spans@.skip(i as int).drop_first() =~= spans@.skip(i + 1));
        let token = trim(slice(license, last_end, start));
        if !token.is_empty() {
            result.push(token);
        }
        let delim = trim(slice(license, start, end));
        if !delim.is_empty() {
            result.push(delim);
        }
        last_end = end;
        i += 1;
    }
    let remainder = trim(slice(license, last_end, total));
    if !remainder.is_empty() {
        result.push(remainder);
    }
    result
}

/// The byte ranges of the delimiters of `text`: what `regex` finds of
/// `DELIMITERS` in it, and none where it does not accept the pattern.
pub open spec fn delimiter_spans(text: Seq<char>) -> Seq<(usize, usize)> {
    match regex_find_all(DELIMITERS@, text) {
        Some(spans) => spans,
        None => Seq::empty(),
    }
}

/// The pieces of `text`: its identifiers and its delimiters, trimmed, in the
/// order of the text.
pub open spec fn split_spec(text: Seq<char>) -> Seq<Seq<char>> {
    pieces_spec(text, delimiter_spans(text))
}

/// Splits `license` into its identifiers and its delimiters, each trimmed, in
/// the order of the text.
pub fn split_license<'a>(license: &'a str) -> (pieces: Vec<&'a str>)
    ensures
        texts(pieces@) == split_spec(license@),
{
    let spans = match find_all(DELIMITERS, license) {
        Some(spans) => spans,
        None => Vec::new(),
    };
    split_at_spans(license, &spans)
}

/// `AND` in any case.
pub open spec fn is_and_word(piece: Seq<char>) -> bool {
    &&& piece.len() == 3
    &&& piece[0] == 'a' || piece[0] == 'A'
    &&& piece[1] == 'n' || piece[1] == 'N'
    &&& piece[2] == 'd' || piece[2] == 'D'
}

/// `OR` in any case.
pub open spec fn is_or_word(piece: Seq<char>) -> bool {
    &&& piece.len() == 2
    &&& piece[0] == 'o' || piece[0] == 'O'
    &&& piece[1] == 'r' || piece[1] == 'R'
}

/// The token that a piece stands for: a parenthesis, an operator (a slash
/// being `OR`), or else an identifier with the piece as its text.
pub open spec fn classify_spec(piece: Seq<char>) -> Token {
    if piece =~= seq!['('] {
        Token::ParenthesesStart
    } else if piece =~= seq![')'] {
        Token::ParenthesesEnd
    } else if is_and_word(piece) {
        Token::And
    } else if is_or_word(piece) || piece =~= seq!['/'] {
        Token::Or
    } else {
        Token::License(piece)
    }
}

/// The token that `piece` stands for.
pub fn classify<'a>(piece: &'a str) -> (part: LicenseParts<'a>)
    ensures
        part@ == classify_spec(piece@),
{
    let count = piece.unicode_len();
    if count == 1 {
        let c = piece.get_char(0);
        if c == '(' {
            LicenseParts::ParenthesesStart
        } else if c == ')' {
            LicenseParts::ParenthesesEnd
        } else if c == '/' {
            LicenseParts::Or
        } else {
            LicenseParts::License(piece)
        }
    } else if count == 2 {
        let c0 = piece.get_char(0);
        let c1 = piece.get_char(1);
        if (c0 == 'o' || c0 == 'O') && (c1 == 'r' || c1 == 'R') {
            LicenseParts::Or
        } else {
            LicenseParts::License(piece)
        }
    } else if count == 3 {
        let c0 = piece.get_char(0);
        let c1 = piece.get_char(1);
        let c2 = piece.get_char(2);
        if (c0 == 'a' || c0 == 'A') && (c1 == 'n' || c1 == 'N') && (c2 == 'd' || c2 == 'D') {
            LicenseParts::And
        } else {
            LicenseParts::License(piece)
        }
    } else {
        LicenseParts::License(piece)
    }
}

/// The token that each of `pieces` stands for, in their order.
pub open spec fn classify_each(pieces: Seq<Seq<char>>) -> Seq<Token> {
    pieces.map_values(|piece: Seq<char>| classify_spec(piece))
}

/// The tokens of `text`: each of its pieces as the token it stands for.
pub open spec fn tokens_spec(text: Seq<char>) -> Seq<Token> {
    classify_each(split_spec(text))
}

/// The token of each of `pieces`, in their order.
pub fn classify_all<'a>(pieces: &Vec<&'a str>) -> (parts: Vec<LicenseParts<'a>>)
    ensures
        tokens_of(parts@) == classify_each(texts(pieces@)),
{
    let mut parts: Vec<LicenseParts<'a>> = Vec::new();
    let mut i: usize = 0;
    while i < pieces.len()
        invariant
            i <= pieces.len(),
            parts.len() == i,
            forall|k: int| 0 <= k < i ==> (#[trigger] parts@[k])@ == classify_spec(pieces@[k]@),
        decreases pieces.len() - i,
    {
        parts.push(classify(pieces[i]));
        i += 1;
    }
    parts
}

/// The tokens of `license`, in the order of the text.
pub fn before_parse<'a>(license: &'a str) -> (parts: Vec<LicenseParts<'a>>)
    ensures
        tokens_of(parts@) == tokens_spec(license@),
{
    let pieces = split_license(license);
    classify_all(&pieces)
}

} // verus!
