//! Highlighting: which parts of a license expression name a license, and
//! whether that license is allowed.

use crate::eval::{allowed_set, is_allowed};
use crate::pattern::{find_all, regex_find_all, spans_in_order};
use crate::text::{is_byte_range, lemma_slice_all, lemma_slice_concat, slice, slice_spec};
use crate::tokens::{byte_len, is_and_word, is_or_word};
use vstd::prelude::*;

verus! {

broadcast use vstd::utf8::group_utf8_lib;

/// The units that are highlighted: an identifier with an exception clause
/// behind `WITH`, an identifier, a parenthesis, or an operator word.
pub const HIGHLIGHTED: &'static str =
    "[\\w\\-\\_\\.]+ WITH [\\w\\-\\_\\.]+|[\\w\\-\\_\\.]+|[\\(\\)]|AND|OR|and|or";

/// How a part of an expression is shown.
#[derive(Debug, Clone, Copy, PartialEq, Eq, Structural)]
pub enum Highlight {
    /// As it is: an operator, a parenthesis, or text between the units.
    Plain,
    /// As a license that is allowed.
    Allowed,
    /// As a license that is not allowed.
    Denied,
}

/// A part of an expression with the way it is shown.
#[derive(Debug, Clone, Copy, PartialEq, Eq)]
pub struct Segment<'a> {
    pub text: &'a str,
    pub highlight: Highlight,
}

/// A segment as mathematics.
pub struct SegmentView {
    pub text: Seq<char>,
    pub highlight: Highlight,
}

impl<'a> View for Segment<'a> {
    type V = SegmentView;

    open spec fn view(&self) -> SegmentView {
        SegmentView { text: self.text@, highlight: self.highlight }
    }
}

/// The mathematical form of each of `segments`.
pub open spec fn segments_of(segments: Seq<Segment<'_>>) -> Seq<SegmentView> {
    segments.map_values(|segment: Segment<'_>| segment@)
}

/// How a unit is shown: an operator word in any case and a parenthesis as
/// they are, any other unit as a license, allowed or not.
pub open spec fn highlight_spec(unit: Seq<char>, allow: Set<Seq<char>>) -> Highlight {
    if is_and_word(unit) || is_or_word(unit) || unit =~= seq!['('] || unit =~= seq![')'] {
        Highlight::Plain
    } else if allow.contains(unit) {
        Highlight::Allowed
    } else {
        Highlight::Denied
    }
}

/// The text between two units, shown as it is; nothing where there is none.
pub open spec fn gap(text: Seq<char>) -> Seq<SegmentView> {
    if text.len() == 0 {
        Seq::empty()
    } else {
        seq![SegmentView { text, highlight: Highlight::Plain }]
    }
}

/// The segments of `text` from byte offset `from` on, with its units at
/// `spans`: before each unit the text that leads up to it, then the unit, and
/// after the last unit the remainder.
pub open spec fn segments_from(
    text: Seq<char>,
    spans: Seq<(usize, usize)>,
    from: int,
    allow: Set<Seq<char>>,
) -> Seq<SegmentView>
    decreases spans.len(),
{
    if spans.len() == 0 {
        gap(slice_spec(text, from, byte_len(text)))
    } else {
        let (start, end) = spans.first();
        let unit = slice_spec(text, start as int, end as int);
        gap(slice_spec(text, from, start as int)) + seq![
            SegmentView { text: unit, highlight: highlight_spec(unit, allow) },
        ] + segments_from(text, spans.drop_first(), end as int, allow)
    }
}

/// The byte ranges of the highlighted units of `text`: what `regex` finds of
/// `HIGHLIGHTED` in it, and none where it does not accept the pattern.
pub open spec fn highlighted_spans(text: Seq<char>) -> Seq<(usize, usize)> {
    match regex_find_all(HIGHLIGHTED@, text) {
        Some(spans) => spans,
        None => Seq::empty(),
    }
}

/// The texts of `segments`, one after the other.
pub open spec fn joined(segments: Seq<SegmentView>) -> Seq<char>
    decreases segments.len(),
{
    if segments.len() == 0 {
        Seq::empty()
    } else {
        segments.first().text + joined(segments.drop_first())
    }
}

/// One segment spells its own text.
pub proof fn lemma_joined_one(segment: SegmentView)
    ensures
        joined(seq![segment]) == segment.text,
{
    reveal_with_fuel(joined, 2);
}

/// Joining two runs of segments joins their texts.
pub proof fn lemma_joined_concat(a: Seq<SegmentView>, b: Seq<SegmentView>)
    ensures
        joined(a + b) == joined(a) + joined(b),
    decreases a.len(),
{
    if a.len() > 0 {
        assert((a + b).drop_first() =~= a.drop_first() + b);
        lemma_joined_concat(a.drop_first(), b);
    }
}

/// The segments from a place on spell the text from that place on.
pub proof fn lemma_segments_spell_the_rest(
    text: Seq<char>,
    spans: Seq<(usize, usize)>,
    from: int,
    allow: Set<Seq<char>>,
)
    requires
        spans_in_order(text, spans),
        is_byte_range(text, from, byte_len(text)),
        spans.len() > 0 ==> from <= spans.first().0,
    ensures
        joined(segments_from(text, spans, from, allow)) == slice_spec(text, from, byte_len(text)),
    decreases spans.len(),
{
    let total = byte_len(text);
    if spans.len() == 0 {
        let rest = slice_spec(text, from, total);
        if rest.len() > 0 {
            lemma_joined_one(SegmentView { text: rest, highlight: Highlight::Plain });
        }
    } else {
        let (start, end) = spans.first();
        let tail = spans.drop_first();
        assert(spans_in_order(text, tail)) by {
            assert forall|i: int| 0 <= i < tail.len() implies is_byte_range(
                text,
                (#[trigger] tail[i]).0 as int,
                tail[i].1 as int,
            ) by {}
            assert forall|i: int, j: int| 0 <= i < j < tail.len() implies (#[trigger] tail[i]).1
                <= (#[trigger] tail[j]).0 by {}
        }
        lemma_segments_spell_the_rest(text, tail, end as int, allow);
        let before = slice_spec(text, from, start as int);
        let unit = slice_spec(text, start as int, end as int);
        let shown = seq![SegmentView { text: unit, highlight: highlight_spec(unit, allow) }];
        let after = segments_from(text, tail, end as int, allow);
        if before.len() > 0 {
            lemma_joined_one(SegmentView { text: before, highlight: Highlight::Plain });
        }
        lemma_joined_one(SegmentView { text: unit, highlight: highlight_spec(unit, allow) });
        lemma_joined_concat(gap(before), shown);
        lemma_joined_concat(gap(before) + shown, after);
        lemma_slice_concat(text, from, start as int, end as int);
        lemma_slice_concat(text, from, end as int, total);
    }
}

/// Highlighting loses nothing: the segments of a text spell the text.
pub proof fn lemma_segments_spell_the_text(
    text: Seq<char>,
    spans: Seq<(usize, usize)>,
    allow: Set<Seq<char>>,
)
    requires
        spans_in_order(text, spans),
    ensures
        joined(segments_from(text, spans, 0, allow)) == text,
{
    lemma_slice_all(text);
    lemma_segments_spell_the_rest(text, spans, 0, allow);
}

/// How `unit` is shown under `allow_list`.
pub fn highlight(unit: &str, allow_list: &[&str]) -> (shown: Highlight)
    ensures
        shown == highlight_spec(unit@, allowed_set(allow_list@)),
{
    let count = unit.unicode_len();
    let plain = if count == 1 {
        let c = unit.get_char(0);
        c == '(' || c == ')'
    } else if count == 2 {
        let c0 = unit.get_char(0);
        let c1 = unit.get_char(1);
        (c0 == 'o' || c0 == 'O') && (c1 == 'r' || c1 == 'R')
    } else if count == 3 {
        let c0 = unit.get_char(0);
        let c1 = unit.get_char(1);
        let c2 = unit.get_char(2);
        (c0 == 'a' || c0 == 'A') && (c1 == 'n' || c1 == 'N') && (c2 == 'd' || c2 == 'D')
    } else {
        false
    };
    if plain {
        Highlight::Plain
    } else if is_allowed(unit, allow_list) {
        Highlight::Allowed
    } else {
        Highlight::Denied
    }
}

/// Cuts `expr` into segments at `spans`, the byte ranges of its units, and
/// says of each how it is shown under `allow_list`.
pub fn segments_at_spans<'a>(
    expr: &'a str,
    spans: &Vec<(usize, usize)>,
    allow_list: &[&str],
) -> (segments: Vec<Segment<'a>>)
    requires
        spans_in_order(expr@, spans@),
    ensures
        segments_of(segments@) == segments_from(expr@, spans@, 0, allowed_set(allow_list@)),
        joined(segments_of(segments@)) == expr@,
{
    let ghost allow = allowed_set(allow_list@);
    proof {
        lemma_segments_spell_the_text(expr@, spans@, allow);
    }
    let total = expr.as_bytes().len();
    let mut result: Vec<Segment<'a>> = Vec::new();
    let mut last_end: usize = 0;
    let mut i: usize = 0;
    assert(spans@.skip(0) =~= spans@);
    while i < spans.len()
        invariant
            i <= spans.len(),
            total == byte_len(expr@),
            allow == allowed_set(allow_list@),
            spans_in_order(expr@, spans@),
            is_byte_range(expr@, last_end as int, total as int),
            i < spans.len() ==> last_end <= spans@[i as int].0,
            segments_of(result@) + segments_from(
                expr@,
                spans@.skip(i as int),
                last_end as int,
                allow,
            ) == segments_from(expr@, spans@, 0, allow),
        decreases spans.len() - i,
    {
        let (start, end) = spans[i];
        assert(spans@.skip(i as int).drop_first() =~= spans@.skip(i + 1));
        let between = slice(expr, last_end, start);
        if !between.is_empty() {
            result.push(Segment { text: between, highlight: Highlight::Plain });
        }
        let unit = slice(expr, start, end);
        let shown = highlight(unit, allow_list);
        result.push(Segment { text: unit, highlight: shown });
        last_end = end;
        i += 1;
    }
    let remainder = slice(expr, last_end, total);
    if !remainder.is_empty() {
        result.push(Segment { text: remainder, highlight: Highlight::Plain });
    }
    result
}

/// The segments of `expr`, in the order of the text: its identifiers, each
/// shown as allowed or not under `allow_list`, and around them the operators,
/// parentheses and other text as they are.
pub fn colorize_expression<'a>(expr: &'a str, list: &[&str]) -> (segments: Vec<Segment<'a>>)
    ensures
        segments_of(segments@) == segments_from(
            expr@,
            highlighted_spans(expr@),
            0,
            allowed_set(list@),
        ),
        joined(segments_of(segments@)) == expr@,
{
    let spans = match find_all(HIGHLIGHTED, expr) {
        Some(spans) => spans,
        None => Vec::new(),
    };
    segments_at_spans(expr, &spans, list)
}

} // verus!
