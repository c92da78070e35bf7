//! What holds of the pieces and tokens of every text.

use crate::text::{
    lemma_encode_concat, lemma_slice_all, lemma_slice_of_concat, lemma_trim_is_trimmed,
    slice_spec, trim_spec,
};
use crate::tokens::{
    byte_len, classify_spec, delimiter_spans, is_and_word, is_or_word, kept, pieces_from,
    split_spec, tokens_spec, Token,
};
use vstd::prelude::*;

verus! {

/// A text that can stand as an operand: not empty, without white space at
/// either end, and not an operator word or a parenthesis.
pub open spec fn is_operand_text(text: Seq<char>) -> bool {
    &&& text.len() > 0
    &&& trim_spec(text) == text
    &&& classify_spec(text) == Token::License(text)
}

/// Whether the one delimiter found in `a`, `between` and `b` written in a row
/// is exactly `between`.
pub open spec fn cut_between(a: Seq<char>, between: Seq<char>, b: Seq<char>) -> bool {
    let spans = delimiter_spans(a + between + b);
    &&& spans.len() == 1
    &&& spans[0].0 == byte_len(a)
    &&& spans[0].1 == byte_len(a) + byte_len(between)
}

/// The operators in all their spellings: `OR` in any case and the slash
/// stand for the one operator, `AND` in any case for the other, and nothing
/// else stands for either.
pub proof fn lemma_operator_spellings(piece: Seq<char>)
    ensures
        classify_spec(piece) == Token::Or <==> is_or_word(piece) || piece == seq!['/'],
        classify_spec(piece) == Token::And <==> is_and_word(piece),
        classify_spec(piece) == Token::ParenthesesStart <==> piece == seq!['('],
        classify_spec(piece) == Token::ParenthesesEnd <==> piece == seq![')'],
{
    if piece.len() == 1 {
        assert(seq!['('][0] == '(');
        assert(seq![')'][0] == ')');
    }
}

/// Every piece of a text is trimmed and not empty, wherever the text is cut.
pub proof fn lemma_pieces_are_trimmed(text: Seq<char>, spans: Seq<(usize, usize)>, from: int)
    ensures
        forall|k: int|
            0 <= k < pieces_from(text, spans, from).len() ==> {
                let piece = #[trigger] pieces_from(text, spans, from)[k];
                piece.len() > 0 && trim_spec(piece) == piece
            },
    decreases spans.len(),
{
    if spans.len() == 0 {
        lemma_trim_is_trimmed(slice_spec(text, from, byte_len(text)));
    } else {
        let (start, end) = spans.first();
        let gap = kept(trim_spec(slice_spec(text, from, start as int)));
        let delimiter = kept(trim_spec(slice_spec(text, start as int, end as int)));
        let rest = pieces_from(text, spans.drop_first(), end as int);
        lemma_trim_is_trimmed(slice_spec(text, from, start as int));
        lemma_trim_is_trimmed(slice_spec(text, start as int, end as int));
        lemma_pieces_are_trimmed(text, spans.drop_first(), end as int);
        assert forall|k: int| 0 <= k < pieces_from(text, spans, from).len() implies {
            let piece = #[trigger] pieces_from(text, spans, from)[k];
            piece.len() > 0 && trim_spec(piece) == piece
        } by {
            let all = gap + delimiter + rest;
            if k < gap.len() {
                assert(all[k] == gap[k]);
            } else if k < gap.len() + delimiter.len() {
                assert(all[k] == delimiter[k - gap.len()]);
            } else {
                assert(all[k] == rest[k - gap.len() - delimiter.len()]);
            }
        }
    }
}

/// An identifier is its own single token.
pub proof fn lemma_identifier_is_one_token(text: Seq<char>)
    requires
        text.len() > 0,
        trim_spec(text) == text,
    ensures
        delimiter_spans(text).len() == 0 ==> split_spec(text) == seq![text],
        delimiter_spans(text).len() == 0 ==> tokens_spec(text) == seq![classify_spec(text)],
{
    if delimiter_spans(text).len() == 0 {
        lemma_slice_all(text);
    }
}

/// Two operands with a delimiter between them, cut at that delimiter, are
/// three tokens: the first operand, what the delimiter stands for once it is
/// trimmed, and the second operand.
pub proof fn lemma_tokens_of_two_operands(a: Seq<char>, between: Seq<char>, b: Seq<char>)
    requires
        is_operand_text(a),
        is_operand_text(b),
        trim_spec(between).len() > 0,
    ensures
        cut_between(a, between, b) ==> tokens_spec(a + between + b) == seq![
            Token::License(a),
            classify_spec(trim_spec(between)),
            Token::License(b),
        ],
{
    if cut_between(a, between, b) {
        let text = a + between + b;
        let end = byte_len(a) + byte_len(between);
        lemma_slice_of_concat(Seq::empty(), a, between + b);
        assert(Seq::<char>::empty() + a + (between + b) =~= text);
        lemma_slice_of_concat(a, between, b);
        lemma_slice_of_concat(a + between, b, Seq::empty());
        lemma_encode_concat(a, between);
        assert(pieces_from(text, delimiter_spans(text).drop_first(), end) =~= seq![b]);
    }
}

} // verus!
