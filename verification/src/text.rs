//! Text helpers: comparing, slicing and trimming string slices, with
//! contracts over their characters.

use vstd::prelude::*;
use vstd::string::StringSliceAdditionalSpecFns;
use vstd::utf8::*;

verus! {

broadcast use vstd::utf8::group_utf8_lib;

/// Two string slices hold the same characters exactly when their encodings
/// are the same bytes.
pub proof fn lemma_same_bytes_same_chars(a: Seq<char>, b: Seq<char>)
    ensures
        (encode_utf8(a) == encode_utf8(b)) <==> a == b,
{
    if encode_utf8(a) == encode_utf8(b) {
        assert(decode_utf8(encode_utf8(b)) == b);
    }
}

/// The characters of each of `slices`.
pub open spec fn texts(slices: Seq<&str>) -> Seq<Seq<char>> {
    slices.map_values(|slice: &str| slice@)
}

/// Whether two string slices hold the same characters.
pub fn str_eq(a: &str, b: &str) -> (same: bool)
    ensures
        same == (a@ == b@),
{
    let x = a.as_bytes();
    let y = b.as_bytes();
    proof {
        lemma_same_bytes_same_chars(a@, b@);
    }
    if x.len() != y.len() {
        return false;
    }
    let mut i: usize = 0;
    while i < x.len()
        invariant
            i <= x.len(),
            x.len() == y.len(),
            x@ == encode_utf8(a@),
            y@ == encode_utf8(b@),
            (encode_utf8(a@) == encode_utf8(b@)) <==> a@ == b@,
            forall|k: int| 0 <= k < i ==> x@[k] == y@[k],
        decreases x.len() - i,
    {
        if x[i] != y[i] {
            return false;
        }
        i += 1;
    }
    assert(x@ =~= y@);
    true
}

/// Whether `text` is one of `list`, character for character.
pub fn contains_str(list: &[&str], text: &str) -> (found: bool)
    ensures
        found == texts(list@).contains(text@),
{
    let mut i: usize = 0;
    while i < list.len()
        invariant
            i <= list.len(),
            forall|k: int| 0 <= k < i ==> texts(list@)[k] != text@,
        decreases list.len() - i,
    {
        if str_eq(list[i], text) {
            assert(texts(list@)[i as int] == text@);
            return true;
        }
        i += 1;
    }
    false
}

/// The characters of `text` that lie between the byte offsets `from` and `to`
/// of its UTF-8 encoding.
pub open spec fn slice_spec(text: Seq<char>, from: int, to: int) -> Seq<char> {
    decode_utf8(encode_utf8(text).subrange(from, to))
}

/// Whether `from..to` is a range of byte offsets into the UTF-8 encoding of
/// `text` whose two ends fall between characters.
pub open spec fn is_byte_range(text: Seq<char>, from: int, to: int) -> bool {
    &&& 0 <= from <= to <= encode_utf8(text).len()
    &&& is_char_boundary(encode_utf8(text), from)
    &&& is_char_boundary(encode_utf8(text), to)
}

/// The encoding of two texts, one after the other, is the encoding of the
/// first followed by that of the second.
pub proof fn lemma_encode_concat(a: Seq<char>, b: Seq<char>)
    ensures
        encode_utf8(a + b) == encode_utf8(a) + encode_utf8(b),
    decreases a.len(),
{
    if a.len() > 0 {
        assert((a + b).drop_first() =~= a.drop_first() + b);
        lemma_encode_concat(a.drop_first(), b);
    }
}

/// Of three texts in a row, the slice over the bytes of the middle one is the
/// middle one.
pub proof fn lemma_slice_of_concat(before: Seq<char>, middle: Seq<char>, after: Seq<char>)
    ensures
        slice_spec(
            before + middle + after,
            encode_utf8(before).len() as int,
            (encode_utf8(before).len() + encode_utf8(middle).len()) as int,
        ) == middle,
        encode_utf8(before + middle + after).len() == encode_utf8(before).len() + encode_utf8(
            middle,
        ).len() + encode_utf8(after).len(),
{
    lemma_encode_concat(before, middle);
    lemma_encode_concat(before + middle, after);
    let bytes = encode_utf8(before + middle + after);
    let from = encode_utf8(before).len() as int;
    let to = from + encode_utf8(middle).len();
    assert(bytes.subrange(from, to) =~= encode_utf8(middle));
}

/// The bytes between two character boundaries are themselves well-formed,
/// and a character boundary between them is one of theirs.
pub proof fn lemma_byte_range_is_text(text: Seq<char>, from: int, to: int)
    requires
        is_byte_range(text, from, to),
    ensures
        valid_utf8(encode_utf8(text).subrange(from, to)),
        forall|at: int|
            from <= at <= to && is_char_boundary(encode_utf8(text), at) ==> is_char_boundary(
                encode_utf8(text).subrange(from, to),
                #[trigger] (at - from),
            ),
{
    let bytes = encode_utf8(text);
    let prefix = bytes.subrange(0, to);
    let part = bytes.subrange(from, to);
    if from < to {
        is_char_boundary_iff_not_is_continuation_byte(bytes, from);
        is_char_boundary_iff_not_is_continuation_byte(prefix, from);
    }
    assert(prefix.subrange(from, prefix.len() as int) =~= part);
    assert forall|at: int|
        from <= at <= to && is_char_boundary(bytes, at) implies is_char_boundary(
        part,
        #[trigger] (at - from),
    ) by {
        if at < to {
            is_char_boundary_iff_not_is_continuation_byte(bytes, at);
            is_char_boundary_iff_not_is_continuation_byte(part, at - from);
        } else {
            is_char_boundary_start_end_of_seq(part);
        }
    }
}

/// A slice is the slice up to a character boundary within it, followed by the
/// slice from there on.
pub proof fn lemma_slice_concat(text: Seq<char>, from: int, mid: int, to: int)
    requires
        is_byte_range(text, from, mid),
        is_byte_range(text, mid, to),
    ensures
        slice_spec(text, from, to) == slice_spec(text, from, mid) + slice_spec(text, mid, to),
{
    let bytes = encode_utf8(text);
    let part = bytes.subrange(from, to);
    lemma_byte_range_is_text(text, from, to);
    decode_utf8_split(part, mid - from);
    assert(part.subrange(0, mid - from) =~= bytes.subrange(from, mid));
    assert(part.subrange(mid - from, part.len() as int) =~= bytes.subrange(mid, to));
}

/// The slice of a text from its start to its end is the text.
pub proof fn lemma_slice_all(text: Seq<char>)
    ensures
        is_byte_range(text, 0, encode_utf8(text).len() as int),
        slice_spec(text, 0, encode_utf8(text).len() as int) == text,
{
    is_char_boundary_start_end_of_seq(encode_utf8(text));
}

/// The part of `text` between the byte offsets `from` and `to`.
pub fn slice<'a>(text: &'a str, from: usize, to: usize) -> (part: &'a str)
    requires
        is_byte_range(text@, from as int, to as int),
    ensures
        part@ == slice_spec(text@, from as int, to as int),
{
    let ghost bytes = text.spec_bytes();
    let (head, _) = text.split_at(to);
    proof {
        let prefix = bytes.subrange(0, to as int);
        if from < to {
            is_char_boundary_iff_not_is_continuation_byte(bytes, from as int);
            is_char_boundary_iff_not_is_continuation_byte(prefix, from as int);
        }
    }
    let (_, part) = head.split_at(from);
    proof {
        assert(part.spec_bytes() =~= bytes.subrange(from as int, to as int));
    }
    part
}

/// Whether `c` has the Unicode property White_Space, as
/// `char::is_whitespace` reports it.
pub uninterp spec fn is_white_space(c: char) -> bool;

/// `char::is_whitespace` tells whether a character has the Unicode property
/// White_Space; the contract gives that answer its name and states no more.
pub assume_specification[ char::is_whitespace ](c: char) -> (white: bool)
    ensures
        white == is_white_space(c),
;

/// `text` without the white space at its start.
pub open spec fn trim_start_spec(text: Seq<char>) -> Seq<char>
    decreases text.len(),
{
    if text.len() > 0 && is_white_space(text.first()) {
        trim_start_spec(text.drop_first())
    } else {
        text
    }
}

/// `text` without the white space at its end.
pub open spec fn trim_end_spec(text: Seq<char>) -> Seq<char>
    decreases text.len(),
{
    if text.len() > 0 && is_white_space(text.last()) {
        trim_end_spec(text.drop_last())
    } else {
        text
    }
}

/// `text` without the white space at either end.
pub open spec fn trim_spec(text: Seq<char>) -> Seq<char> {
    trim_end_spec(trim_start_spec(text))
}

/// Dropping white space from the start leaves the text from its first
/// character that is none.
pub proof fn lemma_trim_start(text: Seq<char>, start: int)
    requires
        0 <= start <= text.len(),
        forall|k: int| 0 <= k < start ==> is_white_space(#[trigger] text[k]),
        start < text.len() ==> !is_white_space(text[start]),
    ensures
        trim_start_spec(text) == text.subrange(start, text.len() as int),
    decreases start,
{
    if start > 0 {
        let rest = text.drop_first();
        assert forall|k: int| 0 <= k < start - 1 implies is_white_space(#[trigger] rest[k]) by {}
        lemma_trim_start(rest, start - 1);
    }
}

/// Dropping white space from the end leaves the text up to its last
/// character that is none.
pub proof fn lemma_trim_end(text: Seq<char>, end: int)
    requires
        0 <= end <= text.len(),
        forall|k: int| end <= k < text.len() ==> is_white_space(#[trigger] text[k]),
        0 < end ==> !is_white_space(text[end - 1]),
    ensures
        trim_end_spec(text) == text.subrange(0, end),
    decreases text.len() - end,
{
    if end < text.len() {
        lemma_trim_end(text.drop_last(), end);
    }
}

/// What trimming the start leaves is the end of the text, and does not start
/// with white space.
pub proof fn lemma_trim_start_shape(text: Seq<char>)
    ensures
        trim_start_spec(text).len() <= text.len(),
        trim_start_spec(text) == text.subrange(
            text.len() - trim_start_spec(text).len(),
            text.len() as int,
        ),
        trim_start_spec(text).len() > 0 ==> !is_white_space(trim_start_spec(text).first()),
    decreases text.len(),
{
    if text.len() > 0 && is_white_space(text.first()) {
        lemma_trim_start_shape(text.drop_first());
    }
}

/// What trimming the end leaves is the start of the text, and does not end
/// with white space.
pub proof fn lemma_trim_end_shape(text: Seq<char>)
    ensures
        trim_end_spec(text).len() <= text.len(),
        trim_end_spec(text) == text.subrange(0, trim_end_spec(text).len() as int),
        trim_end_spec(text).len() > 0 ==> !is_white_space(trim_end_spec(text).last()),
    decreases text.len(),
{
    if text.len() > 0 && is_white_space(text.last()) {
        lemma_trim_end_shape(text.drop_last());
    }
}

/// A trimmed text has no white space at either end, and trimming it again
/// changes nothing.
pub proof fn lemma_trim_is_trimmed(text: Seq<char>)
    ensures
        trim_spec(text).len() > 0 ==> !is_white_space(trim_spec(text).first()) && !is_white_space(
            trim_spec(text).last(),
        ),
        trim_spec(trim_spec(text)) == trim_spec(text),
{
    lemma_trim_start_shape(text);
    lemma_trim_end_shape(trim_start_spec(text));
}

/// `text` without the white space at its start and at its end.
pub fn trim<'a>(text: &'a str) -> (trimmed: &'a str)
    ensures
        trimmed@ == trim_spec(text@),
{
    let total = text.unicode_len();
    let mut seen: usize = 0;
    let mut start: usize = 0;
    let mut end: usize = 0;
    for c in it: text.chars()
        invariant
            seen == it.index(),
            it.seq() == text@,
            total == text@.len(),
            start <= seen,
            end <= seen,
            forall|k: int| 0 <= k < start ==> is_white_space(#[trigger] text@[k]),
            forall|k: int| end <= k < seen && start <= k ==> is_white_space(#[trigger] text@[k]),
            start < seen ==> !is_white_space(text@[start as int]) && start < end
                && !is_white_space(text@[end - 1]),
    {
        if !c.is_whitespace() {
            end = seen + 1;
        } else if start == seen {
            start = seen + 1;
        }
        seen += 1;
    }
    let stop = if end < start { start } else { end };
    proof {
        let len = text@.len() as int;
        lemma_trim_start(text@, start as int);
        let tail = text@.subrange(start as int, len);
        assert forall|k: int| stop - start <= k < tail.len() implies is_white_space(
            #[trigger] tail[k],
        ) by {}
        lemma_trim_end(tail, stop - start);
    }
    text.substring_char(start, stop)
}

} // verus!
