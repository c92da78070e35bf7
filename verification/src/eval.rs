//! The evaluator: whether a parsed license expression is satisfied by a list
//! of allowed identifiers.

use crate::parser::{nodes_of, LicenseParsed, Node};
use crate::text::{contains_str, texts};
use vstd::prelude::*;

verus! {

/// One of the two operators of a license expression.
pub enum Operator {
    And,
    Or,
}

/// How far an evaluation has come: the value of what was read so far, if any
/// value was read, and the operator that waits for its right-hand side, if
/// one does.
pub struct Fold {
    pub result: Option<bool>,
    pub current_op: Option<Operator>,
}

impl Fold {
    /// Before anything was read.
    pub open spec fn start() -> Fold {
        Fold { result: None, current_op: None }
    }

    /// After a value was read: it is combined with the value so far by the
    /// operator that waited, and stands alone where there was no value yet or
    /// no operator waited.
    pub open spec fn value(self, val: bool) -> Fold {
        Fold {
            result: Some(
                match (self.result, self.current_op) {
                    (Some(acc), Some(Operator::And)) => acc && val,
                    (Some(acc), Some(Operator::Or)) => acc || val,
                    _ => val,
                },
            ),
            current_op: None,
        }
    }

    /// After an operator was read: it waits, in place of one that waited
    /// before it.
    pub open spec fn operator(self, op: Operator) -> Fold {
        Fold { result: self.result, current_op: Some(op) }
    }

    /// The outcome: the value so far, and `false` where no value was read.
    pub open spec fn outcome(self) -> bool {
        match self.result {
            Some(acc) => acc,
            None => false,
        }
    }
}

/// The evaluation of `nodes` from left to right, with no precedence between
/// the operators: an identifier has the value of its being in `allow`, a
/// group the outcome of its own elements.
pub open spec fn fold_spec(nodes: Seq<Node>, allow: Set<Seq<char>>) -> Fold
    decreases nodes,
{
    if nodes.len() == 0 {
        Fold::start()
    } else {
        let before = fold_spec(nodes.drop_last(), allow);
        match nodes.last() {
            Node::License(id) => before.value(allow.contains(id)),
            Node::Group(children) => before.value(fold_spec(children, allow).outcome()),
            Node::And => before.operator(Operator::And),
            Node::Or => before.operator(Operator::Or),
        }
    }
}

/// Whether `nodes` are satisfied by `allow`.
pub open spec fn eval_spec(nodes: Seq<Node>, allow: Set<Seq<char>>) -> bool {
    fold_spec(nodes, allow).outcome()
}

/// An expression in good form: operands with one operator between each two
/// of them, an operand being an identifier or a group in good form. Such an
/// expression neither starts nor ends with an operator, holds no two
/// operators in a row, and has no empty group.
pub open spec fn well_formed(nodes: Seq<Node>) -> bool
    decreases nodes,
{
    if nodes.len() == 0 {
        false
    } else {
        &&& match nodes.last() {
            Node::License(_) => true,
            Node::Group(children) => well_formed(children),
            _ => false,
        }
        &&& nodes.len() > 1 ==> {
            &&& nodes.len() >= 3
            &&& nodes[nodes.len() - 2] is And || nodes[nodes.len() - 2] is Or
            &&& well_formed(nodes.subrange(0, nodes.len() - 2))
        }
    }
}

/// The value of one operand.
pub open spec fn operand_value(node: Node, allow: Set<Seq<char>>) -> bool {
    match node {
        Node::License(id) => allow.contains(id),
        Node::Group(children) => eval_spec(children, allow),
        _ => false,
    }
}

/// The identifiers that `allow_list` allows: a set, so that neither their
/// order nor a repetition counts.
pub open spec fn allowed_set(allow_list: Seq<&str>) -> Set<Seq<char>> {
    texts(allow_list).to_set()
}

/// Whether `license` is one of `allow_list`, character for character.
pub fn is_allowed(license: &str, allow_list: &[&str]) -> (allowed: bool)
    ensures
        allowed == allowed_set(allow_list@).contains(license@),
{
    contains_str(allow_list, license)
}

/// The value so far with `val` read as the next value.
fn combine(result: Option<bool>, current_op: &Option<Operator>, val: bool) -> (next: bool)
    ensures
        Some(next) == (Fold { result, current_op: *current_op }).value(val).result,
{
    match result {
        None => val,
        Some(acc) => match current_op {
            Some(Operator::And) => acc && val,
            Some(Operator::Or) => acc || val,
            None => val,
        },
    }
}

/// Whether `expr`, the elements of one level of a license expression, is
/// satisfied by `allow_list`. The elements are read from left to right and
/// neither operator binds tighter than the other; an expression without a
/// value is not satisfied.
pub fn eval_from_parsed<'a>(expr: &[LicenseParsed<'a>], allow_list: &[&str]) -> (satisfied: bool)
    ensures
        satisfied == eval_spec(nodes_of(expr@), allowed_set(allow_list@)),
    decreases nodes_of(expr@),
{
    let ghost nodes = nodes_of(expr@);
    let ghost allow = allowed_set(allow_list@);
    let mut result: Option<bool> = None;
    let mut current_op: Option<Operator> = None;
    let mut i: usize = 0;
    while i < expr.len()
        invariant
            i <= expr.len(),
            nodes == nodes_of(expr@),
            allow == allowed_set(allow_list@),
            (Fold { result, current_op }) == fold_spec(nodes.take(i as int), allow),
        decreases expr.len() - i,
    {
        assert(nodes.take(i + 1).drop_last() =~= nodes.take(i as int));
        match &expr[i] {
            LicenseParsed::License(license) => {
                let val = is_allowed(license, allow_list);
                result = Some(combine(result, &current_op, val));
                current_op = None;
            },
            LicenseParsed::Group(license_parseds) => {
                assert(nodes[i as int]->Group_0 =~= nodes_of(license_parseds@));
                let val = eval_from_parsed(license_parseds.as_slice(), allow_list);
                result = Some(combine(result, &current_op, val));
                current_op = None;
            },
            LicenseParsed::And => {
                current_op = Some(Operator::And);
            },
            LicenseParsed::Or => {
                current_op = Some(Operator::Or);
            },
        }
        i += 1;
    }
    assert(nodes.take(i as int) =~= nodes);
    match result {
        Some(acc) => acc,
        None => false,
    }
}

} // verus!
