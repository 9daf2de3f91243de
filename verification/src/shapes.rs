//! What the constructs of the grammar can yield.
//!
//! Only the assignment level makes an assignment, and only of a plain
//! variable; and every statement that ends with a semicolon answers in
//! one way where the semicolon is missing.

use vstd::prelude::*;

use crate::ast::{ExprView, StmtView};
use crate::error::error_at;
use crate::grammar::{
    arguments, assignment, at_end, binary, binary_node, binary_rest, break_statement, call,
    call_rest, check, expression, expression_statement, function, initializer, is_operator, kind,
    let_statement, operand, primary, print_statement, resume, return_statement,
    starts_expression, step, stopped, ternary, unary, valid, Parsed,
};
use crate::token::{TokenValue, TokenView};

verus! {

/// Whether what was read, if anything, is no assignment.
pub open spec fn no_assignment(r: Parsed<ExprView>) -> bool {
    r.value matches Ok(e) ==> !(e is Assignment)
}

proof fn lemma_primary_is_no_assignment(ts: Seq<TokenView>, pos: int)
    requires
        valid(ts, pos),
    ensures
        no_assignment(primary(ts, pos)),
{
    reveal(primary);
    reveal(function);
}

proof fn lemma_call_rest_is_no_assignment(ts: Seq<TokenView>, pos: int, callee: ExprView)
    requires
        valid(ts, pos),
        !(callee is Assignment),
    ensures
        no_assignment(call_rest(ts, pos, callee)),
    decreases ts.len() - pos,
{
    reveal(call_rest);
    reveal(arguments);
    if check(ts, pos, TokenValue::LeftParen) {
        let list = arguments(ts, step(ts, pos));
        if list.value is Ok {
            lemma_call_rest_is_no_assignment(
                ts,
                resume(ts, list, pos + 1),
                ExprView::Call(ts[pos], Box::new(callee), list.value->Ok_0),
            );
        }
    }
}

proof fn lemma_unary_is_no_assignment(ts: Seq<TokenView>, pos: int)
    requires
        valid(ts, pos),
    ensures
        no_assignment(unary(ts, pos)),
{
    reveal(unary);
    reveal(call);
    reveal(primary);
    reveal(call_rest);
    if kind(ts, pos) != TokenValue::Minus {
        lemma_primary_is_no_assignment(ts, pos);
        let first = primary(ts, pos);
        if first.value is Ok {
            lemma_call_rest_is_no_assignment(ts, resume(ts, first, pos), first.value->Ok_0);
        }
    }
}

proof fn lemma_binary_rest_is_no_assignment(
    ts: Seq<TokenView>,
    pos: int,
    level: nat,
    left: ExprView,
)
    requires
        valid(ts, pos),
        level >= 1,
        !(left is Assignment),
    ensures
        no_assignment(binary_rest(ts, pos, level, left)),
    decreases ts.len() - pos,
{
    reveal(binary_rest);
    reveal(operand);
    if is_operator(level, kind(ts, pos)) {
        let right = operand(ts, step(ts, pos), level);
        if right.value is Ok {
            lemma_binary_rest_is_no_assignment(
                ts,
                resume(ts, right, pos + 1),
                level,
                binary_node(level, ts[pos], left, right.value->Ok_0),
            );
        }
    }
}

proof fn lemma_binary_is_no_assignment(ts: Seq<TokenView>, pos: int, level: nat)
    requires
        valid(ts, pos),
        level >= 1,
    ensures
        no_assignment(binary(ts, pos, level)),
        no_assignment(operand(ts, pos, level)),
    decreases level,
{
    reveal(binary);
    reveal(operand);
    reveal(unary);
    reveal(binary_rest);
    if level == 1 {
        lemma_unary_is_no_assignment(ts, pos);
    } else {
        lemma_binary_is_no_assignment(ts, pos, (level - 1) as nat);
    }
    let first = operand(ts, pos, level);
    if first.value is Ok {
        lemma_binary_rest_is_no_assignment(ts, resume(ts, first, pos), level, first.value->Ok_0);
    }
}

/// A ternary, and every level below it, never yields an assignment.
pub proof fn lemma_ternary_is_no_assignment(ts: Seq<TokenView>, pos: int)
    requires
        valid(ts, pos),
    ensures
        no_assignment(ternary(ts, pos)),
{
    reveal(ternary);
    reveal(binary);
    lemma_binary_is_no_assignment(ts, pos, 4);
}

/// Only a plain variable is assigned to: wherever an expression is read
/// as an assignment, what stands before the `=` was read, as a ternary,
/// as exactly the variable that is assigned to, and what stands behind
/// the `=` was read as an assignment again and is the value.
#[verifier::spinoff_prover]
pub proof fn lemma_assignment_targets_a_variable(ts: Seq<TokenView>, pos: int)
    requires
        valid(ts, pos),
        expression(ts, pos).value is Ok,
        expression(ts, pos).value->Ok_0 is Assignment,
    ensures
        ({
            let target = ternary(ts, pos);
            let p = resume(ts, target, pos);
            &&& target.value == Ok::<ExprView, crate::error::ErrorView>(
                ExprView::Variable(expression(ts, pos).value->Ok_0->Assignment_0),
            )
            &&& check(ts, p, TokenValue::Equal)
            &&& assignment(ts, step(ts, p)).value == Ok::<ExprView, crate::error::ErrorView>(
                *expression(ts, pos).value->Ok_0->Assignment_1,
            )
        }),
{
    reveal(expression);
    reveal(assignment);
    lemma_ternary_is_no_assignment(ts, pos);
}

/// The error for a semicolon that is missing at `pos`.
pub open spec fn semicolon_missing<T>(ts: Seq<TokenView>, pos: int) -> Parsed<T> {
    stopped(error_at(ts[pos], "Semicolon expected."@), pos)
}

/// A missing semicolon is reported in one way after every statement that
/// ends with one: where the expression of an expression statement was
/// read and another token, or the end, stands in the place of the
/// semicolon, the statement fails with `Semicolon expected.` at that
/// token.
#[verifier::spinoff_prover]
pub proof fn lemma_missing_semicolon(ts: Seq<TokenView>, pos: int)
    requires
        valid(ts, pos),
        expression(ts, pos).value is Ok,
        !check(ts, expression(ts, pos).next, TokenValue::Semicolon),
    ensures
        expression_statement(ts, pos) == semicolon_missing::<StmtView>(
            ts,
            expression(ts, pos).next,
        ),
{
    reveal(expression_statement);
    reveal(expression);
}

/// So it is after the expression of a `print`, of a `return` and of a
/// `break`, and right after `return` and `break` where no expression
/// follows them.
#[verifier::spinoff_prover]
pub proof fn lemma_missing_semicolon_after_keyword(ts: Seq<TokenView>, pos: int)
    requires
        valid(ts, pos),
        !at_end(ts, pos),
        expression(ts, step(ts, pos)).value is Ok,
        !check(ts, expression(ts, step(ts, pos)).next, TokenValue::Semicolon),
    ensures
        ({
            let missing = semicolon_missing::<StmtView>(ts, expression(ts, step(ts, pos)).next);
            &&& print_statement(ts, pos) == missing
            &&& starts_expression(kind(ts, step(ts, pos))) ==> return_statement(ts, pos)
                == missing && break_statement(ts, pos) == missing
        }),
{
    reveal(print_statement);
    reveal(return_statement);
    reveal(break_statement);
    reveal(expression);
}

/// So it is right after a `return` and a `break` that stand alone: what
/// follows them and can start no expression stands in the place of the
/// semicolon.
#[verifier::spinoff_prover]
pub proof fn lemma_missing_semicolon_after_bare_keyword(ts: Seq<TokenView>, pos: int)
    requires
        valid(ts, pos),
        !at_end(ts, pos),
        !starts_expression(kind(ts, step(ts, pos))),
        !check(ts, step(ts, pos), TokenValue::Semicolon),
    ensures
        return_statement(ts, pos) == semicolon_missing::<StmtView>(ts, step(ts, pos)),
        break_statement(ts, pos) == semicolon_missing::<StmtView>(ts, step(ts, pos)),
{
    reveal(return_statement);
    reveal(break_statement);
}

/// So it is after a `let`, with or without an initializer: behind the
/// name stands `;`, or `=` and an expression and then `;`, and whatever
/// else stands in the place of either semicolon is reported with
/// `Semicolon expected.`.
#[verifier::spinoff_prover]
pub proof fn lemma_missing_semicolon_after_let(ts: Seq<TokenView>, pos: int, name: TokenView)
    requires
        valid(ts, pos),
    ensures
        check(ts, pos, TokenValue::Equal) && expression(ts, step(ts, pos)).value is Ok && !check(
            ts,
            expression(ts, step(ts, pos)).next,
            TokenValue::Semicolon,
        ) ==> initializer(ts, pos, name) == semicolon_missing::<StmtView>(
            ts,
            expression(ts, step(ts, pos)).next,
        ),
        !check(ts, pos, TokenValue::Equal) && !check(ts, pos, TokenValue::Semicolon)
            ==> initializer(ts, pos, name) == semicolon_missing::<StmtView>(ts, pos),
{
    reveal(initializer);
    reveal(expression);
}

/// A `let` takes a plain identifier as its name: what follows the name
/// is read as the initializer, and whatever else stands in the place of
/// the name is reported there.
#[verifier::spinoff_prover]
pub proof fn lemma_let_names_an_identifier(ts: Seq<TokenView>, pos: int)
    requires
        valid(ts, pos),
        !at_end(ts, pos),
    ensures
        let_statement(ts, pos) == if check(ts, step(ts, pos), TokenValue::Identifier) {
            initializer(ts, step(ts, step(ts, pos)), ts[step(ts, pos)])
        } else {
            stopped(error_at(ts[step(ts, pos)], "Variable expected."@), step(ts, pos))
        },
{
    reveal(let_statement);
    reveal(initializer);
}

} // verus!
