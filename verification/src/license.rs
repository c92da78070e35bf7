//! License expressions: parsing one, and checking it against the list of
//! allowed licenses.

use crate::eval::{allowed_set, eval_from_parsed, eval_spec};
use crate::parse_laws::lemma_accepted_tokens_round_trip;
use crate::parser::{
    after_parse, check_nesting, depth_of, nesting_spec, nodes_of, parse_spec, spell, Node,
};
use crate::tokens::{before_parse, tokens_spec, Token};
use vstd::prelude::*;

pub use crate::parser::{LicenseParsed, ParseError};

verus! {

/// The top-level elements of the license expression `text`.
pub open spec fn license_spec(text: Seq<char>) -> Seq<Node> {
    parse_spec(tokens_spec(text))
}

/// Whether the expression that `tokens` spell is satisfied by the
/// identifiers in `allow`.
pub open spec fn tokens_satisfied(tokens: Seq<Token>, allow: Set<Seq<char>>) -> bool {
    eval_spec(parse_spec(tokens), allow)
}

/// Whether the license expression `text` is satisfied by the identifiers in
/// `allow`.
pub open spec fn satisfied_spec(text: Seq<char>, allow: Set<Seq<char>>) -> bool {
    tokens_satisfied(tokens_spec(text), allow)
}

/// Parses a license expression into its top-level elements. Every text has a
/// tree: parentheses that are never closed are closed by the end of the text,
/// and the tree ends at a closing parenthesis that closes nothing.
pub fn parse<'a>(license: &'a str) -> (parsed: Vec<LicenseParsed<'a>>)
    ensures
        nodes_of(parsed@) == license_spec(license@),
{
    let before_parsed = before_parse(license);
    let mut output: Vec<LicenseParsed<'a>> = Vec::new();
    after_parse(&mut output, before_parsed.as_slice(), 0);
    output
}

/// Whether the license expression `license` is satisfied by `allow_list`.
pub fn license_check(license: &str, allow_list: &[&str]) -> (satisfied: bool)
    ensures
        satisfied == satisfied_spec(license@, allowed_set(allow_list@)),
{
    let parsed = parse(license);
    eval_from_parsed(parsed.as_slice(), allow_list)
}

/// Parses a license expression, and refuses it where `parse` would mend it:
/// where its parentheses do not pair up, or where a group lies inside more
/// than `max_depth` groups, itself counted. The tree of an expression that is
/// accepted spells every one of its tokens, and its groups nest no deeper
/// than `max_depth`.
pub fn parse_strict<'a>(license: &'a str, max_depth: usize) -> (parsed: Result<
    Vec<LicenseParsed<'a>>,
    ParseError,
>)
    ensures
        match parsed {
            Ok(elements) => {
                &&& nesting_spec(tokens_spec(license@), max_depth as nat) is Ok
                &&& nodes_of(elements@) == license_spec(license@)
                &&& spell(nodes_of(elements@)) == tokens_spec(license@)
                &&& depth_of(nodes_of(elements@)) <= max_depth
            },
            Err(error) => nesting_spec(tokens_spec(license@), max_depth as nat) == Err::<
                (),
                ParseError,
            >(error),
        },
{
    let before_parsed = before_parse(license);
    match check_nesting(before_parsed.as_slice(), max_depth) {
        Err(error) => Err(error),
        Ok(_) => {
            let mut output: Vec<LicenseParsed<'a>> = Vec::new();
            after_parse(&mut output, before_parsed.as_slice(), 0);
            proof {
                lemma_accepted_tokens_round_trip(tokens_spec(license@), max_depth as nat);
            }
            Ok(output)
        },
    }
}

/// Whether the license expression `license` is satisfied by `allow_list`,
/// for an expression that `parse_strict` accepts, and else why it does not.
pub fn license_check_strict(license: &str, allow_list: &[&str], max_depth: usize) -> (checked:
    Result<bool, ParseError>)
    ensures
        match checked {
            Ok(satisfied) => nesting_spec(tokens_spec(license@), max_depth as nat) is Ok
                && satisfied == satisfied_spec(license@, allowed_set(allow_list@)),
            Err(error) => nesting_spec(tokens_spec(license@), max_depth as nat) == Err::<
                (),
                ParseError,
            >(error),
        },
{
    match parse_strict(license, max_depth) {
        Ok(parsed) => Ok(eval_from_parsed(parsed.as_slice(), allow_list)),
        Err(error) => Err(error),
    }
}

} // verus!
