//! What holds of the tree of every sequence of tokens.

use crate::parser::{
    depth_of, nesting_from, nesting_spec, parse_from, parse_spec, resume, spell, Node,
};
use crate::tokens::Token;
use vstd::prelude::*;

verus! {

/// How many more groups the tokens from `from` up to `to` open than they
/// close.
pub open spec fn unclosed(tokens: Seq<Token>, from: int, to: int) -> int
    decreases to - from,
{
    if from >= to {
        0
    } else {
        unclosed(tokens, from, to - 1) + match tokens[to - 1] {
            Token::ParenthesesStart => 1int,
            Token::ParenthesesEnd => -1int,
            _ => 0int,
        }
    }
}

/// As many closing parentheses as `count` says.
pub open spec fn closing(count: int) -> Seq<Token> {
    Seq::new(
        if count >= 0 {
            count as nat
        } else {
            0
        },
        |i: int| Token::ParenthesesEnd,
    )
}

/// What a run of tokens leaves open is what its two halves leave open.
pub proof fn lemma_unclosed_adds(tokens: Seq<Token>, from: int, mid: int, to: int)
    requires
        from <= mid <= to,
    ensures
        unclosed(tokens, from, to) == unclosed(tokens, from, mid) + unclosed(tokens, mid, to),
    decreases to - mid,
{
    if mid < to {
        lemma_unclosed_adds(tokens, from, mid, to - 1);
    }
}

/// What one token leaves open: a group if it opens one, one fewer if it
/// closes one.
pub proof fn lemma_unclosed_one(tokens: Seq<Token>, at: int)
    ensures
        unclosed(tokens, at, at + 1) == match tokens[at] {
            Token::ParenthesesStart => 1int,
            Token::ParenthesesEnd => -1int,
            _ => 0int,
        },
{
    assert(unclosed(tokens, at, at) == 0);
}

/// What parsing reads, it keeps: the elements parsed from `at` spell the
/// tokens from `at` to where parsing stopped, followed by one closing
/// parenthesis for each group that the text left open. Parsing stops before
/// the end only at a closing parenthesis, with every group closed that was
/// opened on the way.
pub proof fn lemma_parse_from_spells(tokens: Seq<Token>, at: int)
    requires
        0 <= at <= tokens.len(),
    ensures
        at <= parse_from(tokens, at).1 <= tokens.len(),
        unclosed(tokens, at, parse_from(tokens, at).1) >= 0,
        parse_from(tokens, at).1 < tokens.len() ==> tokens[parse_from(tokens, at).1]
            == Token::ParenthesesEnd && unclosed(tokens, at, parse_from(tokens, at).1) == 0,
        spell(parse_from(tokens, at).0) == tokens.subrange(at, parse_from(tokens, at).1) + closing(
            unclosed(tokens, at, parse_from(tokens, at).1),
        ),
    decreases tokens.len() - at,
{
    let (nodes, stop) = parse_from(tokens, at);
    if at < tokens.len() {
        lemma_unclosed_one(tokens, at);
        match tokens[at] {
            Token::ParenthesesEnd => {},
            Token::ParenthesesStart => {
                let inner = parse_from(tokens, at + 1);
                let next = resume(tokens, at, inner.1);
                lemma_parse_from_spells(tokens, at + 1);
                lemma_parse_from_spells(tokens, next);
                assert(nodes.drop_first() =~= parse_from(tokens, next).0);
                lemma_unclosed_adds(tokens, at, at + 1, inner.1);
                if inner.1 < tokens.len() {
                    lemma_unclosed_one(tokens, inner.1);
                    lemma_unclosed_adds(tokens, at, inner.1, next);
                    lemma_unclosed_adds(tokens, at, next, stop);
                }
            },
            _ => {
                lemma_parse_from_spells(tokens, at + 1);
                assert(nodes.drop_first() =~= parse_from(tokens, at + 1).0);
                lemma_unclosed_adds(tokens, at, at + 1, stop);
            },
        }
    }
}

/// The tree of any tokens spells them up to the first parenthesis that
/// closes nothing, and closes at the end every group that they left open.
pub proof fn lemma_parse_spells(tokens: Seq<Token>)
    ensures
        spell(parse_spec(tokens)) == tokens.subrange(0, parse_from(tokens, 0).1) + closing(
            unclosed(tokens, 0, parse_from(tokens, 0).1),
        ),
        0 <= parse_from(tokens, 0).1 <= tokens.len(),
        parse_from(tokens, 0).1 < tokens.len() ==> tokens[parse_from(tokens, 0).1]
            == Token::ParenthesesEnd,
{
    lemma_parse_from_spells(tokens, 0);
}

/// Where the parentheses from `at` on are accepted with `depth` groups open,
/// parsing from `at` reads up to the parenthesis that closes the innermost of
/// them (to the end, if none is open), what it reads spells those very
/// tokens, and its groups nest no deeper than the limit leaves room for.
pub proof fn lemma_accepted_from(tokens: Seq<Token>, at: int, depth: nat, max_depth: nat)
    requires
        0 <= at <= tokens.len(),
        depth <= max_depth,
        nesting_from(tokens, at, depth, max_depth) is Ok,
    ensures
        at <= parse_from(tokens, at).1 <= tokens.len(),
        spell(parse_from(tokens, at).0) == tokens.subrange(at, parse_from(tokens, at).1),
        depth_of(parse_from(tokens, at).0) + depth <= max_depth,
        depth == 0 ==> parse_from(tokens, at).1 == tokens.len(),
        depth > 0 ==> {
            &&& parse_from(tokens, at).1 < tokens.len()
            &&& tokens[parse_from(tokens, at).1] == Token::ParenthesesEnd
            &&& nesting_from(tokens, parse_from(tokens, at).1 + 1, (depth - 1) as nat, max_depth) is Ok
        },
    decreases tokens.len() - at,
{
    let nodes = parse_from(tokens, at).0;
    if at < tokens.len() {
        match tokens[at] {
            Token::ParenthesesEnd => {},
            Token::ParenthesesStart => {
                let next = resume(tokens, at, parse_from(tokens, at + 1).1);
                lemma_accepted_from(tokens, at + 1, depth + 1, max_depth);
                lemma_accepted_from(tokens, next, depth, max_depth);
                assert(nodes.drop_first() =~= parse_from(tokens, next).0);
            },
            _ => {
                lemma_accepted_from(tokens, at + 1, depth, max_depth);
                assert(nodes.drop_first() =~= parse_from(tokens, at + 1).0);
            },
        }
    }
}

/// Tokens whose parentheses are accepted lose nothing when parsed: the tree
/// spells them, one for one, and its groups nest no deeper than the limit.
pub proof fn lemma_accepted_tokens_round_trip(tokens: Seq<Token>, max_depth: nat)
    requires
        nesting_spec(tokens, max_depth) is Ok,
    ensures
        spell(parse_spec(tokens)) == tokens,
        depth_of(parse_spec(tokens)) <= max_depth,
{
    lemma_accepted_from(tokens, 0, 0, max_depth);
}

} // verus!
