//! The boundary to the `regex` crate: where a pattern matches in a text.

use crate::text::is_byte_range;
use vstd::prelude::*;

verus! {

/// What `regex` finds of `pattern` in `text`: the byte ranges `(start, end)`
/// of the matches that `Regex::find_iter` walks, first to last, for the
/// expression that `Regex::new` compiles from `pattern`; `None` where
/// `Regex::new` does not accept `pattern`.
///
/// Which ranges these are is for `regex` to say: nothing here defines them.
pub uninterp spec fn regex_find_all(pattern: Seq<char>, text: Seq<char>) -> Option<
    Seq<(usize, usize)>,
>;

/// Whether `spans` are byte ranges of `text` that start and end between
/// characters, none of them starting before the one before it has ended.
pub open spec fn spans_in_order(text: Seq<char>, spans: Seq<(usize, usize)>) -> bool {
    &&& forall|i: int|
        0 <= i < spans.len() ==> is_byte_range(
            text,
            (#[trigger] spans[i]).0 as int,
            spans[i].1 as int,
        )
    &&& forall|i: int, j: int|
        0 <= i < j < spans.len() ==> (#[trigger] spans[i]).1 <= (#[trigger] spans[j]).0
}

/// Compiles `pattern` with `regex::Regex::new`, walks `text` with
/// `Regex::find_iter`, and hands out `Match::start` and `Match::end` of each
/// match; `None` where `Regex::new` returns an error.
///
/// The contract is taken on trust. It claims that the outcome depends on the
/// two strings alone, and gives it a name. Of the ranges it claims what the
/// documentation of `find_iter` and of `Match` promises: that the matches
/// come one after the other without overlapping, and that the two offsets of
/// each lie within the text, on character boundaries, with `start <= end`.
/// It does not say which ranges match.
#[verifier::external_body]
pub(crate) fn find_all(pattern: &str, text: &str) -> (found: Option<Vec<(usize, usize)>>)
    ensures
        found matches Some(spans) ==> regex_find_all(pattern@, text@) == Some(spans@)
            && spans_in_order(text@, spans@),
        found is None ==> regex_find_all(pattern@, text@) is None,
{
    match regex::Regex::new(pattern) {
        Ok(re) => Some(re.find_iter(text).map(|m| (m.start(), m.end())).collect()),
        Err(_) => None,
    }
}

} // verus!
