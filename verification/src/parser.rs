//! The parser: from the tokens of a license expression to its tree.

use crate::tokens::{tokens_of, LicenseParts, Token};
use vstd::prelude::*;

verus! {

/// An element of a license expression as mathematics: an identifier, a
/// parenthesised group of further elements, or one of the two operator
/// markers.
pub enum Node {
    License(Seq<char>),
    Group(Seq<Node>),
    Or,
    And,
}

/// An element of a parsed license expression. A group holds the elements that
/// stood between its parentheses, operators among them, in the order of the
/// text.
#[derive(Debug, PartialEq, Eq)]
pub enum LicenseParsed<'a> {
    License(&'a str),
    Group(Vec<LicenseParsed<'a>>),
    Or,
    And,
}

impl<'a> View for LicenseParsed<'a> {
    type V = Node;

    open spec fn view(&self) -> Node
        decreases self,
    {
        match self {
            LicenseParsed::License(text) => Node::License(text@),
            LicenseParsed::Group(children) => Node::Group(
                Seq::new(
                    children@.len(),
                    |i: int|
                        if 0 <= i < children@.len() {
                            children@[i]@
                        } else {
                            Node::Or
                        },
                ),
            ),
            LicenseParsed::Or => Node::Or,
            LicenseParsed::And => Node::And,
        }
    }
}

/// The mathematical form of each of `elements`.
pub open spec fn nodes_of(elements: Seq<LicenseParsed<'_>>) -> Seq<Node> {
    Seq::new(elements.len(), |i: int| elements[i]@)
}

/// The tokens that spell `nodes`: each element as its own token, a group as
/// its elements between a pair of parentheses.
pub open spec fn spell(nodes: Seq<Node>) -> Seq<Token>
    decreases nodes,
{
    if nodes.len() == 0 {
        Seq::empty()
    } else {
        (match nodes.first() {
            Node::License(id) => seq![Token::License(id)],
            Node::Group(children) => seq![Token::ParenthesesStart] + spell(children)
                + seq![Token::ParenthesesEnd],
            Node::And => seq![Token::And],
            Node::Or => seq![Token::Or],
        }) + spell(nodes.drop_first())
    }
}

/// How deep the groups of `nodes` nest: 0 without a group, and one more than
/// its elements for a group.
pub open spec fn depth_of(nodes: Seq<Node>) -> nat
    decreases nodes,
{
    if nodes.len() == 0 {
        0
    } else {
        let first: nat = match nodes.first() {
            Node::Group(children) => 1 + depth_of(children),
            _ => 0,
        };
        let rest = depth_of(nodes.drop_first());
        if first >= rest {
            first
        } else {
            rest
        }
    }
}

/// Where parsing goes on after a group that was opened at `at` and whose
/// elements ended at `close`: behind the closing parenthesis, or at the end of
/// the tokens where the group was never closed. A group's elements never end
/// before they start (`lemma_parse_from_stops`), so the first case, which
/// lets the parser go on in any event, never decides.
pub open spec fn resume(tokens: Seq<Token>, at: int, close: int) -> int {
    if close <= at {
        at + 1
    } else if close < tokens.len() {
        close + 1
    } else {
        tokens.len() as int
    }
}

/// The elements that the tokens from `at` on stand for, up to the first
/// closing parenthesis that closes no group opened among them, and the
/// position of that parenthesis (the end of the tokens if there is none).
pub open spec fn parse_from(tokens: Seq<Token>, at: int) -> (Seq<Node>, int)
    decreases tokens.len() - at,
{
    if at < 0 || at >= tokens.len() {
        (Seq::empty(), at)
    } else {
        match tokens[at] {
            Token::ParenthesesEnd => (Seq::empty(), at),
            Token::ParenthesesStart => {
                let inner = parse_from(tokens, at + 1);
                let rest = parse_from(tokens, resume(tokens, at, inner.1));
                (seq![Node::Group(inner.0)] + rest.0, rest.1)
            },
            Token::License(text) => {
                let rest = parse_from(tokens, at + 1);
                (seq![Node::License(text)] + rest.0, rest.1)
            },
            Token::Or => {
                let rest = parse_from(tokens, at + 1);
                (seq![Node::Or] + rest.0, rest.1)
            },
            Token::And => {
                let rest = parse_from(tokens, at + 1);
                (seq![Node::And] + rest.0, rest.1)
            },
        }
    }
}

/// The top-level elements of the expression that `tokens` spell.
pub open spec fn parse_spec(tokens: Seq<Token>) -> Seq<Node> {
    parse_from(tokens, 0).0
}

/// Parsing never stops before the position it started at, nor, if it started
/// within the tokens, behind their end.
pub proof fn lemma_parse_from_stops(tokens: Seq<Token>, at: int)
    ensures
        at <= parse_from(tokens, at).1,
        0 <= at <= tokens.len() ==> parse_from(tokens, at).1 <= tokens.len(),
    decreases tokens.len() - at,
{
    if 0 <= at < tokens.len() {
        match tokens[at] {
            Token::ParenthesesEnd => {},
            Token::ParenthesesStart => {
                lemma_parse_from_stops(tokens, at + 1);
                lemma_parse_from_stops(tokens, resume(tokens, at, parse_from(tokens, at + 1).1));
            },
            _ => {
                lemma_parse_from_stops(tokens, at + 1);
            },
        }
    }
}

/// Parses the tokens from `start_idx` on and appends their elements to
/// `output`, a group for each pair of parentheses. It stops at the end of the
/// tokens or at a closing parenthesis that closes none of the groups opened
/// on the way, and returns how many tokens lie between `start_idx` and that
/// place.
pub fn after_parse<'a>(
    output: &mut Vec<LicenseParsed<'a>>,
    before_parse: &[LicenseParts<'a>],
    start_idx: usize,
) -> (consumed: usize)
    ensures
        nodes_of(final(output)@) == nodes_of(old(output)@) + parse_from(
            tokens_of(before_parse@),
            start_idx as int,
        ).0,
        start_idx + consumed == parse_from(tokens_of(before_parse@), start_idx as int).1,
    decreases before_parse.len() - start_idx,
{
    let ghost tokens = tokens_of(before_parse@);
    let ghost goal = parse_from(tokens, start_idx as int);
    let mut i = start_idx;
    while i < before_parse.len()
        invariant
            start_idx <= i,
            tokens == tokens_of(before_parse@),
            goal == parse_from(tokens, start_idx as int),
            parse_from(tokens, i as int).1 == goal.1,
            nodes_of(output@) + parse_from(tokens, i as int).0 == nodes_of(old(output)@) + goal.0,
        decreases before_parse.len() - i,
    {
        match &before_parse[i] {
            LicenseParts::License(l) => {
                output.push(LicenseParsed::License(*l));
                i += 1;
            },
            LicenseParts::ParenthesesStart => {
                let mut temp_parsed: Vec<LicenseParsed<'a>> = Vec::new();
                let consumed = after_parse(&mut temp_parsed, before_parse, i + 1);
                proof {
                    lemma_parse_from_stops(tokens, i + 1);
                }
                let close = i + 1 + consumed;
                let ghost inner = nodes_of(temp_parsed@);
                let group = LicenseParsed::Group(temp_parsed);
                assert(group@->Group_0 =~= inner);
                output.push(group);
                i = if close < before_parse.len() {
                    close + 1
                } else {
                    before_parse.len()
                };
            },
            LicenseParts::ParenthesesEnd => {
                return i - start_idx;
            },
            LicenseParts::Or => {
                output.push(LicenseParsed::Or);
                i += 1;
            },
            LicenseParts::And => {
                output.push(LicenseParsed::And);
                i += 1;
            },
        }
    }
    i - start_idx
}

/// Why a sequence of tokens is refused as an expression.
#[derive(Debug, Clone, Copy, PartialEq, Eq, Structural)]
pub enum ParseError {
    /// A parenthesis closes no group, or a group is never closed.
    UnbalancedParenthesis,
    /// A group is opened inside more groups than the limit admits.
    DepthExceeded,
}

/// Reads the parentheses of the tokens from `at` on, with `depth` groups open
/// at that place, and fails at the first token that opens a group beyond
/// `max_depth` or closes one that is not open, or at the end if a group is
/// still open there.
pub open spec fn nesting_from(tokens: Seq<Token>, at: int, depth: nat, max_depth: nat) -> Result<
    (),
    ParseError,
>
    decreases tokens.len() - at,
{
    if at < 0 || at >= tokens.len() {
        if depth == 0 {
            Ok(())
        } else {
            Err(ParseError::UnbalancedParenthesis)
        }
    } else {
        match tokens[at] {
            Token::ParenthesesStart => if depth >= max_depth {
                Err(ParseError::DepthExceeded)
            } else {
                nesting_from(tokens, at + 1, depth + 1, max_depth)
            },
            Token::ParenthesesEnd => if depth == 0 {
                Err(ParseError::UnbalancedParenthesis)
            } else {
                nesting_from(tokens, at + 1, (depth - 1) as nat, max_depth)
            },
            _ => nesting_from(tokens, at + 1, depth, max_depth),
        }
    }
}

/// Whether the parentheses of `tokens` pair up, no group lying inside more
/// than `max_depth` groups, itself counted.
pub open spec fn nesting_spec(tokens: Seq<Token>, max_depth: nat) -> Result<(), ParseError> {
    nesting_from(tokens, 0, 0, max_depth)
}

/// Checks that the parentheses of `tokens` pair up and that no group lies
/// inside more than `max_depth` groups, itself counted.
pub fn check_nesting(tokens: &[LicenseParts<'_>], max_depth: usize) -> (checked: Result<
    (),
    ParseError,
>)
    ensures
        checked == nesting_spec(tokens_of(tokens@), max_depth as nat),
{
    let ghost spelled = tokens_of(tokens@);
    let mut depth: usize = 0;
    let mut i: usize = 0;
    while i < tokens.len()
        invariant
            i <= tokens.len(),
            depth <= max_depth,
            spelled == tokens_of(tokens@),
            nesting_from(spelled, i as int, depth as nat, max_depth as nat) == nesting_spec(
                spelled,
                max_depth as nat,
            ),
        decreases tokens.len() - i,
    {
        match &tokens[i] {
            LicenseParts::ParenthesesStart => {
                if depth >= max_depth {
                    return Err(ParseError::DepthExceeded);
                }
                depth += 1;
            },
            LicenseParts::ParenthesesEnd => {
                if depth == 0 {
                    return Err(ParseError::UnbalancedParenthesis);
                }
                depth -= 1;
            },
            _ => {},
        }
        i += 1;
    }
    if depth == 0 {
        Ok(())
    } else {
        Err(ParseError::UnbalancedParenthesis)
    }
}

} // verus!
