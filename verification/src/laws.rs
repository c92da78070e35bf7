//! What holds of every license expression and every list of allowed
//! licenses.

use crate::eval::{allowed_set, eval_spec, fold_spec, operand_value, well_formed, Operator};
use crate::license::{satisfied_spec, tokens_satisfied};
use crate::parser::{parse_from, parse_spec, Node};
use crate::text::{texts, trim_spec};
use crate::token_laws::{
    cut_between, is_operand_text, lemma_identifier_is_one_token, lemma_tokens_of_two_operands,
};
use crate::tokens::{classify_spec, delimiter_spans, tokens_spec, Token};
use vstd::prelude::*;

verus! {

/// An identifier: a text that can stand as an operand and in which no
/// delimiter is found.
pub open spec fn is_identifier(text: Seq<char>) -> bool {
    is_operand_text(text) && delimiter_spans(text).len() == 0
}

/// Reading one more element: a value is combined with what was read before
/// it, an operator waits for the value that follows it.
pub proof fn lemma_fold_push(nodes: Seq<Node>, node: Node, allow: Set<Seq<char>>)
    ensures
        fold_spec(nodes.push(node), allow) == match node {
            Node::License(id) => fold_spec(nodes, allow).value(allow.contains(id)),
            Node::Group(children) => fold_spec(nodes, allow).value(eval_spec(children, allow)),
            Node::And => fold_spec(nodes, allow).operator(Operator::And),
            Node::Or => fold_spec(nodes, allow).operator(Operator::Or),
        },
{
    assert(nodes.push(node).drop_last() =~= nodes);
}

/// The expression of one identifier has the value of its being allowed.
pub proof fn lemma_one_identifier(a: Seq<char>, allow: Set<Seq<char>>)
    ensures
        tokens_satisfied(seq![Token::License(a)], allow) == allow.contains(a),
{
    reveal_with_fuel(parse_from, 3);
    reveal_with_fuel(fold_spec, 3);
}

/// An identifier that stands alone is satisfied exactly by the lists that
/// hold it: by the list of itself alone, and not by the empty list.
pub proof fn lemma_identifier_alone(text: Seq<char>, allow: Set<Seq<char>>)
    ensures
        is_identifier(text) ==> satisfied_spec(text, allow) == allow.contains(text),
        is_identifier(text) ==> satisfied_spec(text, set![text]),
        is_identifier(text) ==> !satisfied_spec(text, Set::empty()),
{
    if is_identifier(text) {
        lemma_identifier_is_one_token(text);
        lemma_one_identifier(text, allow);
        lemma_one_identifier(text, set![text]);
        lemma_one_identifier(text, Set::empty());
    }
}

/// `A OR B` is satisfied exactly when `A` or `B` is allowed.
pub proof fn lemma_or(a: Seq<char>, b: Seq<char>, allow: Set<Seq<char>>)
    ensures
        tokens_satisfied(seq![Token::License(a), Token::Or, Token::License(b)], allow) == (
        allow.contains(a) || allow.contains(b)),
{
    let tokens = seq![Token::License(a), Token::Or, Token::License(b)];
    reveal_with_fuel(parse_from, 5);
    let n0 = Seq::<Node>::empty();
    let n1 = n0.push(Node::License(a));
    let n2 = n1.push(Node::Or);
    let n3 = n2.push(Node::License(b));
    assert(parse_spec(tokens) =~= n3);
    lemma_fold_push(n0, Node::License(a), allow);
    lemma_fold_push(n1, Node::Or, allow);
    lemma_fold_push(n2, Node::License(b), allow);
}

/// `A AND B` is satisfied exactly when both `A` and `B` are allowed.
pub proof fn lemma_and(a: Seq<char>, b: Seq<char>, allow: Set<Seq<char>>)
    ensures
        tokens_satisfied(seq![Token::License(a), Token::And, Token::License(b)], allow) == (
        allow.contains(a) && allow.contains(b)),
{
    let tokens = seq![Token::License(a), Token::And, Token::License(b)];
    reveal_with_fuel(parse_from, 5);
    let n0 = Seq::<Node>::empty();
    let n1 = n0.push(Node::License(a));
    let n2 = n1.push(Node::And);
    let n3 = n2.push(Node::License(b));
    assert(parse_spec(tokens) =~= n3);
    lemma_fold_push(n0, Node::License(a), allow);
    lemma_fold_push(n1, Node::And, allow);
    lemma_fold_push(n2, Node::License(b), allow);
}

/// A text that the tokenizer reads as `A OR B`, whether the operator is
/// written `OR`, `or` or `/`, is satisfied exactly when `A` or `B` is
/// allowed; one that it reads as `A AND B`, exactly when both are.
pub proof fn lemma_or_and_of_texts(
    text: Seq<char>,
    a: Seq<char>,
    b: Seq<char>,
    allow: Set<Seq<char>>,
)
    ensures
        tokens_spec(text) == seq![Token::License(a), Token::Or, Token::License(b)] ==> (
        satisfied_spec(text, allow) <==> allow.contains(a) || allow.contains(b)),
        tokens_spec(text) == seq![Token::License(a), Token::And, Token::License(b)] ==> (
        satisfied_spec(text, allow) <==> allow.contains(a) && allow.contains(b)),
{
    lemma_or(a, b, allow);
    lemma_and(a, b, allow);
}

/// Two operands with an `OR` between them, written `OR`, `or` or `/` and with
/// or without white space around it, are satisfied exactly when one of the
/// two is allowed; with an `AND` between them, exactly when both are.
pub proof fn lemma_two_operands(
    a: Seq<char>,
    between: Seq<char>,
    b: Seq<char>,
    allow: Set<Seq<char>>,
)
    requires
        is_operand_text(a),
        is_operand_text(b),
    ensures
        cut_between(a, between, b) && classify_spec(trim_spec(between)) == Token::Or ==> (
        satisfied_spec(a + between + b, allow) <==> allow.contains(a) || allow.contains(b)),
        cut_between(a, between, b) && classify_spec(trim_spec(between)) == Token::And ==> (
        satisfied_spec(a + between + b, allow) <==> allow.contains(a) && allow.contains(b)),
{
    if cut_between(a, between, b) && trim_spec(between).len() > 0 {
        lemma_tokens_of_two_operands(a, between, b);
        lemma_or(a, b, allow);
        lemma_and(a, b, allow);
    }
}

/// Neither operator binds tighter than the other: `A AND B OR C` is
/// `(A AND B) OR C`, and `A OR B AND C` is `(A OR B) AND C`.
pub proof fn lemma_no_precedence(a: Seq<char>, b: Seq<char>, c: Seq<char>, allow: Set<Seq<char>>)
    ensures
        tokens_satisfied(
            seq![
                Token::License(a),
                Token::And,
                Token::License(b),
                Token::Or,
                Token::License(c),
            ],
            allow,
        ) == ((allow.contains(a) && allow.contains(b)) || allow.contains(c)),
        tokens_satisfied(
            seq![
                Token::License(a),
                Token::Or,
                Token::License(b),
                Token::And,
                Token::License(c),
            ],
            allow,
        ) == ((allow.contains(a) || allow.contains(b)) && allow.contains(c)),
{
    reveal_with_fuel(parse_from, 7);
    let n0 = Seq::<Node>::empty();
    let n1 = n0.push(Node::License(a));
    lemma_fold_push(n0, Node::License(a), allow);
    {
        let tokens = seq![
            Token::License(a),
            Token::And,
            Token::License(b),
            Token::Or,
            Token::License(c),
        ];
        let n2 = n1.push(Node::And);
        let n3 = n2.push(Node::License(b));
        let n4 = n3.push(Node::Or);
        let n5 = n4.push(Node::License(c));
        assert(parse_spec(tokens) =~= n5);
        lemma_fold_push(n1, Node::And, allow);
        lemma_fold_push(n2, Node::License(b), allow);
        lemma_fold_push(n3, Node::Or, allow);
        lemma_fold_push(n4, Node::License(c), allow);
    }
    {
        let tokens = seq![
            Token::License(a),
            Token::Or,
            Token::License(b),
            Token::And,
            Token::License(c),
        ];
        let n2 = n1.push(Node::Or);
        let n3 = n2.push(Node::License(b));
        let n4 = n3.push(Node::And);
        let n5 = n4.push(Node::License(c));
        assert(parse_spec(tokens) =~= n5);
        lemma_fold_push(n1, Node::Or, allow);
        lemma_fold_push(n2, Node::License(b), allow);
        lemma_fold_push(n3, Node::And, allow);
        lemma_fold_push(n4, Node::License(c), allow);
    }
}

/// Parentheses decide the grouping: `A AND (B OR C)` is satisfied exactly
/// when `A` and one of `B` and `C` are allowed.
pub proof fn lemma_group_on_the_right(
    a: Seq<char>,
    b: Seq<char>,
    c: Seq<char>,
    allow: Set<Seq<char>>,
)
    ensures
        tokens_satisfied(
            seq![
                Token::License(a),
                Token::And,
                Token::ParenthesesStart,
                Token::License(b),
                Token::Or,
                Token::License(c),
                Token::ParenthesesEnd,
            ],
            allow,
        ) == (allow.contains(a) && (allow.contains(b) || allow.contains(c))),
{
    let tokens = seq![
        Token::License(a),
        Token::And,
        Token::ParenthesesStart,
        Token::License(b),
        Token::Or,
        Token::License(c),
        Token::ParenthesesEnd,
    ];
    reveal_with_fuel(parse_from, 9);
    let g0 = Seq::<Node>::empty();
    let g1 = g0.push(Node::License(b));
    let g2 = g1.push(Node::Or);
    let g3 = g2.push(Node::License(c));
    assert(parse_from(tokens, 3).0 =~= g3);
    lemma_fold_push(g0, Node::License(b), allow);
    lemma_fold_push(g1, Node::Or, allow);
    lemma_fold_push(g2, Node::License(c), allow);
    let n0 = Seq::<Node>::empty();
    let n1 = n0.push(Node::License(a));
    let n2 = n1.push(Node::And);
    let n3 = n2.push(Node::Group(g3));
    assert(parse_spec(tokens) =~= n3);
    lemma_fold_push(n0, Node::License(a), allow);
    lemma_fold_push(n1, Node::And, allow);
    lemma_fold_push(n2, Node::Group(g3), allow);
}

/// Parentheses decide the grouping: `(A AND B) OR C` is satisfied exactly
/// when `C` is allowed or both `A` and `B` are.
pub proof fn lemma_group_on_the_left(
    a: Seq<char>,
    b: Seq<char>,
    c: Seq<char>,
    allow: Set<Seq<char>>,
)
    ensures
        tokens_satisfied(
            seq![
                Token::ParenthesesStart,
                Token::License(a),
                Token::And,
                Token::License(b),
                Token::ParenthesesEnd,
                Token::Or,
                Token::License(c),
            ],
            allow,
        ) == ((allow.contains(a) && allow.contains(b)) || allow.contains(c)),
{
    let tokens = seq![
        Token::ParenthesesStart,
        Token::License(a),
        Token::And,
        Token::License(b),
        Token::ParenthesesEnd,
        Token::Or,
        Token::License(c),
    ];
    reveal_with_fuel(parse_from, 9);
    let g0 = Seq::<Node>::empty();
    let g1 = g0.push(Node::License(a));
    let g2 = g1.push(Node::And);
    let g3 = g2.push(Node::License(b));
    assert(parse_from(tokens, 1).0 =~= g3);
    lemma_fold_push(g0, Node::License(a), allow);
    lemma_fold_push(g1, Node::And, allow);
    lemma_fold_push(g2, Node::License(b), allow);
    let n0 = Seq::<Node>::empty();
    let n1 = n0.push(Node::Group(g3));
    let n2 = n1.push(Node::Or);
    let n3 = n2.push(Node::License(c));
    assert(parse_spec(tokens) =~= n3);
    lemma_fold_push(n0, Node::Group(g3), allow);
    lemma_fold_push(n1, Node::Or, allow);
    lemma_fold_push(n2, Node::License(c), allow);
}

/// An empty pair of parentheses is satisfied by no list.
pub proof fn lemma_empty_group(allow: Set<Seq<char>>)
    ensures
        !tokens_satisfied(seq![Token::ParenthesesStart, Token::ParenthesesEnd], allow),
{
    reveal_with_fuel(parse_from, 4);
    lemma_fold_push(Seq::empty(), Node::Group(Seq::empty()), allow);
}

/// Where nothing is allowed, no value holds.
pub proof fn lemma_fold_of_nothing(nodes: Seq<Node>)
    ensures
        fold_spec(nodes, Set::empty()).result != Some(true),
        !eval_spec(nodes, Set::empty()),
    decreases nodes,
{
    if nodes.len() > 0 {
        lemma_fold_of_nothing(nodes.drop_last());
        match nodes.last() {
            Node::Group(children) => {
                lemma_fold_of_nothing(children);
            },
            _ => {},
        }
    }
}

/// No expression is satisfied by the empty list.
pub proof fn lemma_nothing_allowed(text: Seq<char>)
    ensures
        !satisfied_spec(text, Set::empty()),
{
    lemma_fold_of_nothing(parse_spec(tokens_spec(text)));
}

/// Allowing more never loses an answer: the same elements are read the same
/// way under both sets, and every value that holds under the smaller set
/// holds under the larger.
pub proof fn lemma_fold_grows(nodes: Seq<Node>, fewer: Set<Seq<char>>, more: Set<Seq<char>>)
    requires
        fewer.subset_of(more),
    ensures
        fold_spec(nodes, fewer).current_op == fold_spec(nodes, more).current_op,
        fold_spec(nodes, fewer).result is Some <==> fold_spec(nodes, more).result is Some,
        eval_spec(nodes, fewer) ==> eval_spec(nodes, more),
    decreases nodes,
{
    if nodes.len() > 0 {
        lemma_fold_grows(nodes.drop_last(), fewer, more);
        match nodes.last() {
            Node::Group(children) => {
                lemma_fold_grows(children, fewer, more);
            },
            _ => {},
        }
    }
}

/// An expression that is satisfied stays satisfied when more licenses are
/// allowed.
pub proof fn lemma_allowing_more(text: Seq<char>, fewer: Set<Seq<char>>, more: Set<Seq<char>>)
    requires
        fewer.subset_of(more),
    ensures
        satisfied_spec(text, fewer) ==> satisfied_spec(text, more),
{
    lemma_fold_grows(parse_spec(tokens_spec(text)), fewer, more);
}

/// The answer is a function of the text and of the set of allowed
/// identifiers: two lists that hold the same identifiers, in whatever order
/// and however often, give the same answer, and so does the same list asked
/// again.
pub proof fn lemma_same_question_same_answer(text: Seq<char>, one: Seq<&str>, other: Seq<&str>)
    requires
        forall|id: Seq<char>| texts(one).contains(id) <==> texts(other).contains(id),
    ensures
        satisfied_spec(text, allowed_set(one)) == satisfied_spec(text, allowed_set(other)),
{
    assert(allowed_set(one) =~= allowed_set(other));
}

/// An expression in good form has a value, and no operator is left waiting
/// at its end.
pub proof fn lemma_well_formed_has_value(nodes: Seq<Node>, allow: Set<Seq<char>>)
    requires
        well_formed(nodes),
    ensures
        fold_spec(nodes, allow).result is Some,
        fold_spec(nodes, allow).current_op is None,
{
}

/// An expression of a single operand has the value of that operand.
pub proof fn lemma_well_formed_single(node: Node, allow: Set<Seq<char>>)
    requires
        well_formed(seq![node]),
    ensures
        eval_spec(seq![node], allow) == operand_value(node, allow),
{
    reveal_with_fuel(fold_spec, 2);
}

/// In an expression in good form every operator counts: the last operator
/// joins the value of all that stands before it with the value of the
/// operand behind it.
pub proof fn lemma_well_formed_step(nodes: Seq<Node>, allow: Set<Seq<char>>)
    requires
        well_formed(nodes),
        nodes.len() > 1,
    ensures
        eval_spec(nodes, allow) == (if nodes[nodes.len() - 2] is And {
            eval_spec(nodes.subrange(0, nodes.len() - 2), allow) && operand_value(
                nodes.last(),
                allow,
            )
        } else {
            eval_spec(nodes.subrange(0, nodes.len() - 2), allow) || operand_value(
                nodes.last(),
                allow,
            )
        }),
{
    let before = nodes.subrange(0, nodes.len() - 2);
    let upto = nodes.drop_last();
    assert(upto.drop_last() =~= before);
    lemma_well_formed_has_value(before, allow);
    assert(fold_spec(upto, allow) == fold_spec(before, allow).operator(
        if upto.last() is And {
            Operator::And
        } else {
            Operator::Or
        },
    ));
}

} // verus!
