//! The grammar of conditions.
//!
//! A condition is `!` followed by a condition, or exactly two operands with
//! one of `||`, `&&`, `==`, `!=` between them. An operand is a call or a
//! parenthesized condition that fills its parentheses. There is no
//! precedence and no chaining: deeper trees are written with parentheses,
//! and a second operator behind the second operand is an error. A lone
//! operand is no condition. A `!` negates the whole condition that follows
//! it.

use vstd::prelude::*;
use crate::ast::{condition_named, Call, CallView, ConditionExpr, ConditionView};
use crate::call::{call_at, call_end, call_name, lemma_call_fails_softly, lemma_call_named};
use crate::diagnostic::{lone, Entry, Halt, Problem};
use crate::token::{
    group_at, locate, pair_at, peek_group, peek_pair, peek_punct, punct_at, span_at, Delim, Span,
    Token,
};

verus! {

/// The operators that join two operands.
#[derive(Clone, Copy, Debug, PartialEq, Eq, Structural)]
pub enum Op {
    Or,
    And,
    Eq,
    Neq,
}

/// The operator that stands at `pos`, if one does. Each takes two tokens.
pub open spec fn operator_at(tokens: Seq<Token>, pos: int) -> Option<Op> {
    if pair_at(tokens, pos, '|', '|') {
        Some(Op::Or)
    } else if pair_at(tokens, pos, '&', '&') {
        Some(Op::And)
    } else if pair_at(tokens, pos, '=', '=') {
        Some(Op::Eq)
    } else if pair_at(tokens, pos, '!', '=') {
        Some(Op::Neq)
    } else {
        None
    }
}

/// The node that joins `left` and `right` by `op`.
pub open spec fn binary(op: Op, left: ConditionView, right: ConditionView) -> ConditionView {
    match op {
        Op::Or => ConditionView::Or { left: Box::new(left), right: Box::new(right) },
        Op::And => ConditionView::And { left: Box::new(left), right: Box::new(right) },
        Op::Eq => ConditionView::Eq { left: Box::new(left), right: Box::new(right) },
        Op::Neq => ConditionView::Neq { left: Box::new(left), right: Box::new(right) },
    }
}

/// The position behind the operand that starts at `pos`.
pub open spec fn operand_end(tokens: Seq<Token>, pos: int) -> int {
    if group_at(tokens, pos, Delim::Paren) is Some {
        pos + 1
    } else {
        call_end(tokens, pos)
    }
}

/// The position behind the condition that starts at `pos`.
pub open spec fn condition_end(tokens: Seq<Token>, pos: int) -> int
    decreases tokens.len() - pos,
{
    if punct_at(tokens, pos, '!') {
        condition_end(tokens, pos + 1)
    } else {
        operand_end(tokens, operand_end(tokens, pos) + 2)
    }
}

/// The condition that starts at `pos`, or the diagnostic and the position
/// at which the cursor stands when it is given up: where an operand gave
/// up, at the token that should be the operator, or behind the operator
/// that follows the second operand.
pub open spec fn condition_at(tokens: Seq<Token>, pos: int, scope: Span) -> Result<
    ConditionView,
    (Seq<Entry>, int),
>
    decreases tokens, tokens.len() - pos, 1int,
{
    if punct_at(tokens, pos, '!') {
        match condition_at(tokens, pos + 1, scope) {
            Ok(expr) => Ok(ConditionView::Not { expr: Box::new(expr) }),
            Err(h) => Err(h),
        }
    } else {
        match operand_at(tokens, pos, scope) {
            Err(h) => Err(h),
            Ok(left) => {
                let mid = operand_end(tokens, pos);
                match operator_at(tokens, mid) {
                    None => Err((lone(span_at(tokens, mid, scope), Problem::ExpectedOperator), mid)),
                    Some(op) => match operand_at(tokens, mid + 2, scope) {
                        Err(h) => Err(h),
                        Ok(right) => {
                            let end = operand_end(tokens, mid + 2);
                            if operator_at(tokens, end) is Some {
                                Err(
                                    (
                                        lone(tokens[end].spec_span(), Problem::ExpectedOperator),
                                        end + 2,
                                    ),
                                )
                            } else {
                                Ok(binary(op, left, right))
                            }
                        },
                    },
                }
            },
        }
    }
}

/// The operand that starts at `pos`: the condition that fills the
/// parentheses there, or the call there.
pub open spec fn operand_at(tokens: Seq<Token>, pos: int, scope: Span) -> Result<
    ConditionView,
    (Seq<Entry>, int),
>
    decreases tokens, tokens.len() - pos, 0int,
{
    match group_at(tokens, pos, Delim::Paren) {
        Some(inner) => match condition_at(inner, 0, tokens[pos].spec_span()) {
            Err((e, _)) => Err((e, pos + 1)),
            Ok(expr) => {
                let end = condition_end(inner, 0);
                if 0 <= end < inner.len() {
                    Err((lone(inner[end].spec_span(), Problem::UnexpectedToken), pos + 1))
                } else {
                    Ok(expr)
                }
            },
        },
        None => match call_at(tokens, pos, scope) {
            Ok(call) => Ok(ConditionView::CallExpr(call)),
            Err(h) => Err(h),
        },
    }
}

/// An operand that parses ends inside the tokens, behind where it began.
pub proof fn lemma_operand_end(tokens: Seq<Token>, pos: int, scope: Span)
    requires
        operand_at(tokens, pos, scope) is Ok,
    ensures
        0 <= pos < operand_end(tokens, pos) <= tokens.len(),
{
}

/// A condition that parses ends inside the tokens, at least three tokens
/// behind where it began.
pub proof fn lemma_condition_end(tokens: Seq<Token>, pos: int, scope: Span)
    requires
        condition_at(tokens, pos, scope) is Ok,
    ensures
        0 <= pos,
        pos + 3 < condition_end(tokens, pos) <= tokens.len(),
    decreases tokens.len() - pos,
{
    if punct_at(tokens, pos, '!') {
        lemma_condition_end(tokens, pos + 1, scope);
    } else {
        let mid = operand_end(tokens, pos);
        lemma_operand_end(tokens, pos, scope);
        lemma_operand_end(tokens, mid + 2, scope);
    }
}

/// Two bare calls with an operator between them are a condition: the node
/// of that operator, with the two calls as its operands.
pub proof fn lemma_binary_of_bare_calls(tokens: Seq<Token>, pos: int, scope: Span, op: Op)
    requires
        call_name(tokens, pos) is Some,
        operator_at(tokens, pos + 1) == Some(op),
        call_name(tokens, pos + 3) is Some,
        group_at(tokens, pos + 4, Delim::Paren) is None,
        operator_at(tokens, pos + 4) is None,
    ensures
        condition_at(tokens, pos, scope) == Ok::<ConditionView, (Seq<Entry>, int)>(
            binary(
                op,
                ConditionView::CallExpr(CallView { name: call_name(tokens, pos)->0, args: None }),
                ConditionView::CallExpr(
                    CallView { name: call_name(tokens, pos + 3)->0, args: None },
                ),
            ),
        ),
        condition_end(tokens, pos) == pos + 4,
{
    assert(group_at(tokens, pos, Delim::Paren) is None);
    assert(group_at(tokens, pos + 1, Delim::Paren) is None);
    assert(group_at(tokens, pos + 3, Delim::Paren) is None);
    assert(!punct_at(tokens, pos, '!'));
    assert(operand_end(tokens, pos) == pos + 1);
    assert(operand_at(tokens, pos, scope) == Ok::<ConditionView, (Seq<Entry>, int)>(
        ConditionView::CallExpr(CallView { name: call_name(tokens, pos)->0, args: None }),
    ));
    assert(operand_at(tokens, pos + 3, scope) == Ok::<ConditionView, (Seq<Entry>, int)>(
        ConditionView::CallExpr(CallView { name: call_name(tokens, pos + 3)->0, args: None }),
    ));
}

/// A condition holds exactly one operator: where a further operator
/// follows the second operand, the condition fails and points at that
/// operator. Chains are written with parentheses.
pub proof fn lemma_second_operator_fails(tokens: Seq<Token>, pos: int, scope: Span)
    requires
        !punct_at(tokens, pos, '!'),
        operand_at(tokens, pos, scope) is Ok,
        operator_at(tokens, operand_end(tokens, pos)) is Some,
        operand_at(tokens, operand_end(tokens, pos) + 2, scope) is Ok,
        operator_at(tokens, operand_end(tokens, operand_end(tokens, pos) + 2)) is Some,
    ensures
        condition_at(tokens, pos, scope) == Err::<ConditionView, (Seq<Entry>, int)>(
            (
                lone(
                    tokens[operand_end(tokens, operand_end(tokens, pos) + 2)].spec_span(),
                    Problem::ExpectedOperator,
                ),
                operand_end(tokens, operand_end(tokens, pos) + 2) + 2,
            ),
        ),
{
}

/// Three bare calls chained by two operators are no condition: the
/// diagnostic points at the token behind the second call.
pub proof fn lemma_chained_calls_fail(tokens: Seq<Token>, pos: int, scope: Span)
    requires
        call_name(tokens, pos) is Some,
        operator_at(tokens, pos + 1) is Some,
        call_name(tokens, pos + 3) is Some,
        operator_at(tokens, pos + 4) is Some,
    ensures
        condition_at(tokens, pos, scope) == Err::<ConditionView, (Seq<Entry>, int)>(
            (lone(tokens[pos + 4].spec_span(), Problem::ExpectedOperator), pos + 6),
        ),
{
    assert(group_at(tokens, pos, Delim::Paren) is None);
    assert(group_at(tokens, pos + 1, Delim::Paren) is None);
    assert(group_at(tokens, pos + 3, Delim::Paren) is None);
    assert(group_at(tokens, pos + 4, Delim::Paren) is None);
    assert(!punct_at(tokens, pos, '!'));
    assert(operand_end(tokens, pos) == pos + 1);
    assert(operand_end(tokens, pos + 3) == pos + 4);
    assert(operand_at(tokens, pos, scope) is Ok);
    assert(operand_at(tokens, pos + 3, scope) is Ok);
    lemma_second_operator_fails(tokens, pos, scope);
}

/// A `!` negates the whole condition behind it, operator and second
/// operand included.
pub proof fn lemma_negation_takes_the_rest(tokens: Seq<Token>, pos: int, scope: Span)
    requires
        punct_at(tokens, pos, '!'),
    ensures
        condition_end(tokens, pos) == condition_end(tokens, pos + 1),
        match condition_at(tokens, pos + 1, scope) {
            Ok(expr) => condition_at(tokens, pos, scope) == Ok::<ConditionView, (Seq<Entry>, int)>(
                ConditionView::Not { expr: Box::new(expr) },
            ),
            Err(h) => condition_at(tokens, pos, scope) == Err::<ConditionView, (Seq<Entry>, int)>(
                h,
            ),
        },
{
}

/// A condition is never a lone operand: where no operator follows the
/// first operand, the condition fails there and asks for one.
pub proof fn lemma_operator_is_required(tokens: Seq<Token>, pos: int, scope: Span)
    requires
        !punct_at(tokens, pos, '!'),
        operand_at(tokens, pos, scope) is Ok,
        operator_at(tokens, operand_end(tokens, pos)) is None,
    ensures
        condition_at(tokens, pos, scope) == Err::<ConditionView, (Seq<Entry>, int)>(
            (
                lone(
                    span_at(tokens, operand_end(tokens, pos), scope),
                    Problem::ExpectedOperator,
                ),
                operand_end(tokens, pos),
            ),
        ),
{
}

/// The diagnostic of a condition that fails is one entry, not fatal.
pub proof fn lemma_condition_fails_softly(tokens: Seq<Token>, pos: int, scope: Span)
    ensures
        match condition_at(tokens, pos, scope) {
            Ok(_) => true,
            Err((e, stop)) => e.len() == 1 && !e[0].problem.spec_is_fatal() && pos <= stop,
        },
        match operand_at(tokens, pos, scope) {
            Ok(_) => true,
            Err((e, stop)) => e.len() == 1 && !e[0].problem.spec_is_fatal() && pos <= stop,
        },
    decreases tokens, tokens.len() - pos,
{
    lemma_call_fails_softly(tokens, pos, scope);
    if let Some(inner) = group_at(tokens, pos, Delim::Paren) {
        lemma_condition_fails_softly(inner, 0, tokens[pos].spec_span());
    }
    if punct_at(tokens, pos, '!') {
        lemma_condition_fails_softly(tokens, pos + 1, scope);
    } else {
        let mid = operand_end(tokens, pos);
        if operand_at(tokens, pos, scope) is Ok && operator_at(tokens, mid)
            is Some {
            lemma_operand_end(tokens, pos, scope);
            lemma_condition_fails_softly(tokens, mid + 2, scope);
        }
    }
}

/// Every call of a condition that parses has a name.
pub proof fn lemma_condition_named(tokens: Seq<Token>, pos: int, scope: Span)
    ensures
        match condition_at(tokens, pos, scope) {
            Ok(expr) => condition_named(expr),
            Err(_) => true,
        },
        match operand_at(tokens, pos, scope) {
            Ok(expr) => condition_named(expr),
            Err(_) => true,
        },
    decreases tokens, tokens.len() - pos,
{
    lemma_call_named(tokens, pos, scope);
    if let Some(inner) = group_at(tokens, pos, Delim::Paren) {
        lemma_condition_named(inner, 0, tokens[pos].spec_span());
    }
    if punct_at(tokens, pos, '!') {
        lemma_condition_named(tokens, pos + 1, scope);
    } else {
        let mid = operand_end(tokens, pos);
        if operand_at(tokens, pos, scope) is Ok && operator_at(tokens, mid) is Some {
            lemma_operand_end(tokens, pos, scope);
            lemma_condition_named(tokens, mid + 2, scope);
            if let Ok(right) = operand_at(tokens, mid + 2, scope) {
                let left = operand_at(tokens, pos, scope)->Ok_0;
                let op = operator_at(tokens, mid)->0;
                assert(condition_named(left));
                assert(condition_named(right));
                assert(condition_named(binary(op, left, right))) by {
                    match op {
                        Op::Or => {},
                        Op::And => {},
                        Op::Eq => {},
                        Op::Neq => {},
                    }
                }
            }
        }
    }
}

/// Finds the operator at `pos`.
pub fn peek_operator(tokens: &Vec<Token>, pos: usize) -> (r: Option<Op>)
    ensures
        r == operator_at(tokens@, pos as int),
        r is Some ==> pos + 2 <= tokens.len(),
{
    if peek_pair(tokens, pos, '|', '|') {
        Some(Op::Or)
    } else if peek_pair(tokens, pos, '&', '&') {
        Some(Op::And)
    } else if peek_pair(tokens, pos, '=', '=') {
        Some(Op::Eq)
    } else if peek_pair(tokens, pos, '!', '=') {
        Some(Op::Neq)
    } else {
        None
    }
}

impl ConditionExpr {
    /// Joins two operands by an operator.
    pub fn join(op: Op, left: ConditionExpr, right: ConditionExpr) -> (r: ConditionExpr)
        ensures
            r@ == binary(op, left@, right@),
    {
        let left = Box::new(left);
        let right = Box::new(right);
        match op {
            Op::Or => ConditionExpr::Or { left, right },
            Op::And => ConditionExpr::And { left, right },
            Op::Eq => ConditionExpr::Eq { left, right },
            Op::Neq => ConditionExpr::Neq { left, right },
        }
    }

    /// Parses the condition that starts at `pos`. Returns the condition
    /// and the position behind it.
    pub fn parse(tokens: &Vec<Token>, pos: usize, scope: Span) -> (r: Result<
        (ConditionExpr, usize),
        Halt,
    >)
        ensures
            match r {
                Ok((expr, end)) => {
                    &&& condition_at(tokens@, pos as int, scope) == Ok::<
                        ConditionView,
                        (Seq<Entry>, int),
                    >(expr@)
                    &&& end == condition_end(tokens@, pos as int)
                    &&& pos < end <= tokens.len()
                },
                Err(h) => {
                    &&& condition_at(tokens@, pos as int, scope) == Err::<
                        ConditionView,
                        (Seq<Entry>, int),
                    >((h.diagnostic@, h.stop as int))
                    &&& pos <= h.stop
                    &&& pos <= tokens.len() ==> h.stop <= tokens.len()
                },
            },
        decreases tokens@, tokens.len() - pos, 1int,
    {
        if peek_punct(tokens, pos, '!') {
            return match ConditionExpr::parse(tokens, pos + 1, scope) {
                Ok((expr, end)) => Ok((ConditionExpr::Not { expr: Box::new(expr) }, end)),
                Err(h) => Err(h),
            };
        }
        let (left, mid) = match ConditionExpr::parse_operand(tokens, pos, scope) {
            Ok(found) => found,
            Err(h) => {
                return Err(h);
            },
        };
        let op = match peek_operator(tokens, mid) {
            Some(op) => op,
            None => {
                return Err(Halt::at(locate(tokens, mid, scope), Problem::ExpectedOperator, mid));
            },
        };
        let (right, end) = match ConditionExpr::parse_operand(tokens, mid + 2, scope) {
            Ok(found) => found,
            Err(h) => {
                return Err(h);
            },
        };
        if peek_operator(tokens, end).is_some() {
            return Err(Halt::at(tokens[end].span(), Problem::ExpectedOperator, end + 2));
        }
        Ok((ConditionExpr::join(op, left, right), end))
    }

    /// Parses the operand that starts at `pos`. Returns the operand and
    /// the position behind it.
    pub fn parse_operand(tokens: &Vec<Token>, pos: usize, scope: Span) -> (r: Result<
        (ConditionExpr, usize),
        Halt,
    >)
        ensures
            match r {
                Ok((expr, end)) => {
                    &&& operand_at(tokens@, pos as int, scope) == Ok::<
                        ConditionView,
                        (Seq<Entry>, int),
                    >(expr@)
                    &&& end == operand_end(tokens@, pos as int)
                    &&& pos < end <= tokens.len()
                },
                Err(h) => {
                    &&& operand_at(tokens@, pos as int, scope) == Err::<
                        ConditionView,
                        (Seq<Entry>, int),
                    >((h.diagnostic@, h.stop as int))
                    &&& pos <= h.stop
                    &&& pos <= tokens.len() ==> h.stop <= tokens.len()
                },
            },
        decreases tokens@, tokens.len() - pos, 0int,
    {
        match peek_group(tokens, pos, Delim::Paren) {
            Some(inner) => {
                match ConditionExpr::parse(inner, 0, tokens[pos].span()) {
                    Err(h) => Err(Halt { diagnostic: h.diagnostic, stop: pos + 1 }),
                    Ok((expr, end)) => {
                        if end < inner.len() {
                            Err(Halt::at(inner[end].span(), Problem::UnexpectedToken, pos + 1))
                        } else {
                            Ok((expr, pos + 1))
                        }
                    },
                }
            },
            None => match Call::parse(tokens, pos, scope) {
                Ok((call, end)) => Ok((ConditionExpr::CallExpr(call), end)),
                Err(h) => Err(h),
            },
        }
    }
}

} // verus!
