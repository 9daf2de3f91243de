//! Reading moves forward.
//!
//! Every function of the grammar leaves off at a position of the token
//! sequence that is not before the one at which it started, and most of
//! them behind it wherever a token was there to read.  So a parse ends,
//! and the bounds in [`resume`] never apply.

use vstd::prelude::*;

use crate::ast::{ExprView, StmtView};
use crate::grammar::{
    arguments, assignment, at_end, binary, binary_rest, block, block_statement, break_statement,
    call, call_rest, check, closed_by_semicolon, condition, expect, expression,
    expression_statement, function, if_statement, initializer, kind, let_statement, operand,
    parameter_list, parameters, primary, print_statement, resume, return_statement,
    starts_expression, statement, statement_body, step, synchronize, ternary, unary, valid,
    while_statement, Parsed,
};
use crate::token::{TokenValue, TokenView};

verus! {

/// `r`, read from `pos` on, leaves off at a position at or after `pos`.
pub open spec fn stays<T>(ts: Seq<TokenView>, pos: int, r: Parsed<T>) -> bool {
    pos <= r.next < ts.len()
}

/// `r`, read from `pos` on, leaves off at or after `pos`, and behind it
/// unless the end-of-input marker stands there.
pub open spec fn moves<T>(ts: Seq<TokenView>, pos: int, r: Parsed<T>) -> bool {
    &&& pos <= r.next < ts.len()
    &&& !at_end(ts, pos) ==> pos < r.next
}

proof fn lemma_closed_by_semicolon(
    ts: Seq<TokenView>,
    value: Parsed<ExprView>,
    msg: Seq<char>,
    node: spec_fn(ExprView) -> StmtView,
)
    requires
        valid(ts, value.next),
    ensures
        value.next <= closed_by_semicolon(ts, value, msg, node).next < ts.len(),
{
}

pub proof fn lemma_synchronize(ts: Seq<TokenView>, pos: int)
    requires
        valid(ts, pos),
    ensures
        pos <= synchronize(ts, pos) < ts.len(),
    decreases ts.len() - pos,
{
    reveal(synchronize);
    if !at_end(ts, pos) && !(pos > 0 && kind(ts, pos - 1) == TokenValue::Semicolon) && !(kind(
        ts,
        pos,
    ) == TokenValue::If || kind(ts, pos) == TokenValue::Let || kind(ts, pos) == TokenValue::Print
        || kind(ts, pos) == TokenValue::While) {
        lemma_synchronize(ts, step(ts, pos));
    }
}

pub proof fn lemma_parameter_list(ts: Seq<TokenView>, pos: int)
    requires
        valid(ts, pos),
    ensures
        stays(ts, pos, parameter_list(ts, pos)),
    decreases ts.len() - pos,
{
    reveal(parameter_list);
    if !at_end(ts, pos) && kind(ts, pos) == TokenValue::Identifier {
        let p = step(ts, pos);
        if check(ts, p, TokenValue::Comma) {
            lemma_parameter_list(ts, step(ts, p));
        }
    }
}

pub proof fn lemma_parameters(ts: Seq<TokenView>, pos: int)
    requires
        valid(ts, pos),
    ensures
        stays(ts, pos, parameters(ts, pos)),
{
    lemma_parameter_list(ts, pos);
}

#[verifier::spinoff_prover]
pub proof fn lemma_primary(ts: Seq<TokenView>, pos: int)
    requires
        valid(ts, pos),
    ensures
        moves(ts, pos, primary(ts, pos)),
    decreases ts.len() - pos, 2nat,
{
    reveal(primary);
    reveal(expression);
    reveal(function);
    let next = step(ts, pos);
    if kind(ts, pos) == TokenValue::LeftParen {
        lemma_expression(ts, next);
    } else if kind(ts, pos) == TokenValue::Function {
        lemma_function(ts, next);
    }
}

#[verifier::spinoff_prover]
pub proof fn lemma_function(ts: Seq<TokenView>, pos: int)
    requires
        valid(ts, pos),
    ensures
        stays(ts, pos, function(ts, pos)),
    decreases ts.len() - pos, 1nat,
{
    reveal(function);
    reveal(block);
    if check(ts, pos, TokenValue::LeftParen) {
        lemma_parameters(ts, step(ts, pos));
        let names = parameters(ts, step(ts, pos));
        if names.value is Ok {
            let p = resume(ts, names, pos + 1);
            if check(ts, p, TokenValue::LeftBrace) {
                lemma_block(ts, step(ts, p));
            }
        }
    }
}

#[verifier::spinoff_prover]
pub proof fn lemma_call(ts: Seq<TokenView>, pos: int)
    requires
        valid(ts, pos),
    ensures
        moves(ts, pos, call(ts, pos)),
    decreases ts.len() - pos, 3nat,
{
    reveal(call);
    reveal(primary);
    reveal(call_rest);
    lemma_primary(ts, pos);
    let first = primary(ts, pos);
    if first.value is Ok {
        lemma_call_rest(ts, resume(ts, first, pos), first.value->Ok_0);
    }
}

#[verifier::spinoff_prover]
pub proof fn lemma_call_rest(ts: Seq<TokenView>, pos: int, callee: ExprView)
    requires
        valid(ts, pos),
    ensures
        stays(ts, pos, call_rest(ts, pos, callee)),
    decreases ts.len() - pos, 0nat,
{
    reveal(call_rest);
    reveal(arguments);
    if check(ts, pos, TokenValue::LeftParen) {
        lemma_arguments(ts, step(ts, pos));
        let list = arguments(ts, step(ts, pos));
        if list.value is Ok {
            lemma_call_rest(
                ts,
                resume(ts, list, pos + 1),
                ExprView::Call(ts[pos], Box::new(callee), list.value->Ok_0),
            );
        }
    }
}

#[verifier::spinoff_prover]
pub proof fn lemma_arguments(ts: Seq<TokenView>, pos: int)
    requires
        valid(ts, pos),
    ensures
        stays(ts, pos, arguments(ts, pos)),
    decreases ts.len() - pos, 17nat,
{
    reveal(arguments);
    reveal(expression);
    if !check(ts, pos, TokenValue::RightParen) && !at_end(ts, pos) {
        lemma_expression(ts, pos);
        let first = expression(ts, pos);
        if first.value is Ok {
            let p = resume(ts, first, pos + 1);
            if !check(ts, p, TokenValue::RightParen) && check(ts, p, TokenValue::Comma) {
                lemma_arguments(ts, step(ts, p));
            }
        }
    }
}

#[verifier::spinoff_prover]
pub proof fn lemma_unary(ts: Seq<TokenView>, pos: int)
    requires
        valid(ts, pos),
    ensures
        moves(ts, pos, unary(ts, pos)),
    decreases ts.len() - pos, 4nat,
{
    reveal(unary);
    reveal(call);
    if kind(ts, pos) == TokenValue::Minus {
        lemma_call(ts, step(ts, pos));
    } else {
        lemma_call(ts, pos);
    }
}

#[verifier::spinoff_prover]
pub proof fn lemma_operand(ts: Seq<TokenView>, pos: int, level: nat)
    requires
        valid(ts, pos),
        level >= 1,
    ensures
        moves(ts, pos, operand(ts, pos, level)),
    decreases ts.len() - pos, 4 + 2 * level,
{
    reveal(operand);
    reveal(unary);
    reveal(binary);
    if level == 1 {
        lemma_unary(ts, pos);
    } else {
        lemma_binary(ts, pos, (level - 1) as nat);
    }
}

#[verifier::spinoff_prover]
pub proof fn lemma_binary(ts: Seq<TokenView>, pos: int, level: nat)
    requires
        valid(ts, pos),
        level >= 1,
    ensures
        moves(ts, pos, binary(ts, pos, level)),
    decreases ts.len() - pos, 5 + 2 * level,
{
    reveal(binary);
    reveal(operand);
    reveal(binary_rest);
    lemma_operand(ts, pos, level);
    let first = operand(ts, pos, level);
    if first.value is Ok {
        lemma_binary_rest(ts, resume(ts, first, pos), level, first.value->Ok_0);
    }
}

#[verifier::spinoff_prover]
pub proof fn lemma_binary_rest(ts: Seq<TokenView>, pos: int, level: nat, left: ExprView)
    requires
        valid(ts, pos),
        level >= 1,
    ensures
        stays(ts, pos, binary_rest(ts, pos, level, left)),
    decreases ts.len() - pos, 0nat,
{
    reveal(binary_rest);
    reveal(operand);
    if crate::grammar::is_operator(level, kind(ts, pos)) {
        lemma_operand(ts, step(ts, pos), level);
        let right = operand(ts, step(ts, pos), level);
        if right.value is Ok {
            lemma_binary_rest(
                ts,
                resume(ts, right, pos + 1),
                level,
                crate::grammar::binary_node(level, ts[pos], left, right.value->Ok_0),
            );
        }
    }
}

#[verifier::spinoff_prover]
pub proof fn lemma_ternary(ts: Seq<TokenView>, pos: int)
    requires
        valid(ts, pos),
    ensures
        moves(ts, pos, ternary(ts, pos)),
    decreases ts.len() - pos, 14nat,
{
    reveal(ternary);
    reveal(binary);
    lemma_binary(ts, pos, 4);
    let first = binary(ts, pos, 4);
    if first.value is Ok {
        let p = resume(ts, first, pos);
        if kind(ts, p) == TokenValue::Question {
            lemma_ternary(ts, step(ts, p));
            let second = ternary(ts, step(ts, p));
            if second.value is Ok {
                let q = resume(ts, second, p + 1);
                if check(ts, q, TokenValue::Colon) {
                    lemma_ternary(ts, step(ts, q));
                }
            }
        }
    }
}

#[verifier::spinoff_prover]
pub proof fn lemma_assignment(ts: Seq<TokenView>, pos: int)
    requires
        valid(ts, pos),
    ensures
        moves(ts, pos, assignment(ts, pos)),
    decreases ts.len() - pos, 15nat,
{
    reveal(assignment);
    reveal(ternary);
    lemma_ternary(ts, pos);
    let target = ternary(ts, pos);
    if target.value is Ok {
        let p = resume(ts, target, pos);
        if target.value->Ok_0 is Variable && check(ts, p, TokenValue::Equal) {
            lemma_assignment(ts, step(ts, p));
        }
    }
}

/// An expression is read forward: it leaves off behind where it started,
/// unless nothing was there to read.
#[verifier::spinoff_prover]
pub proof fn lemma_expression(ts: Seq<TokenView>, pos: int)
    requires
        valid(ts, pos),
    ensures
        moves(ts, pos, expression(ts, pos)),
    decreases ts.len() - pos, 16nat,
{
    reveal(expression);
    reveal(assignment);
    lemma_assignment(ts, pos);
}

#[verifier::spinoff_prover]
pub proof fn lemma_initializer(ts: Seq<TokenView>, pos: int, name: TokenView)
    requires
        valid(ts, pos),
    ensures
        stays(ts, pos, initializer(ts, pos, name)),
    decreases ts.len() - pos, 18nat,
{
    reveal(initializer);
    reveal(expression);
    if check(ts, pos, TokenValue::Equal) {
        lemma_expression(ts, step(ts, pos));
        lemma_closed_by_semicolon(
            ts,
            expression(ts, step(ts, pos)),
            "Semicolon expected."@,
            |e: ExprView| StmtView::Let(name, Box::new(e)),
        );
    }
}

#[verifier::spinoff_prover]
pub proof fn lemma_expression_statement(ts: Seq<TokenView>, pos: int)
    requires
        valid(ts, pos),
    ensures
        moves(ts, pos, expression_statement(ts, pos)),
    decreases ts.len() - pos, 18nat,
{
    reveal(expression_statement);
    reveal(expression);
    lemma_expression(ts, pos);
    lemma_closed_by_semicolon(
        ts,
        expression(ts, pos),
        "Semicolon expected."@,
        |e: ExprView| StmtView::Expression(Box::new(e)),
    );
}

#[verifier::spinoff_prover]
pub proof fn lemma_print_statement(ts: Seq<TokenView>, pos: int)
    requires
        valid(ts, pos),
        !at_end(ts, pos),
    ensures
        moves(ts, pos, print_statement(ts, pos)),
    decreases ts.len() - pos, 18nat,
{
    reveal(print_statement);
    reveal(expression);
    lemma_expression(ts, step(ts, pos));
    lemma_closed_by_semicolon(
        ts,
        expression(ts, step(ts, pos)),
        "Semicolon expected."@,
        |e: ExprView| StmtView::Print(Box::new(e)),
    );
}

#[verifier::spinoff_prover]
pub proof fn lemma_return_statement(ts: Seq<TokenView>, pos: int)
    requires
        valid(ts, pos),
        !at_end(ts, pos),
    ensures
        moves(ts, pos, return_statement(ts, pos)),
    decreases ts.len() - pos, 18nat,
{
    reveal(return_statement);
    reveal(expression);
    let p = step(ts, pos);
    if starts_expression(kind(ts, p)) {
        lemma_expression(ts, p);
        lemma_closed_by_semicolon(
            ts,
            expression(ts, p),
            "Semicolon expected."@,
            |e: ExprView| StmtView::Return(Some(Box::new(e))),
        );
    }
}

#[verifier::spinoff_prover]
pub proof fn lemma_break_statement(ts: Seq<TokenView>, pos: int)
    requires
        valid(ts, pos),
        !at_end(ts, pos),
    ensures
        moves(ts, pos, break_statement(ts, pos)),
    decreases ts.len() - pos, 18nat,
{
    reveal(break_statement);
    reveal(expression);
    let p = step(ts, pos);
    if starts_expression(kind(ts, p)) {
        lemma_expression(ts, p);
        lemma_closed_by_semicolon(
            ts,
            expression(ts, p),
            "Semicolon expected."@,
            |e: ExprView| StmtView::Break(ts[pos], Some(Box::new(e))),
        );
    }
}

#[verifier::spinoff_prover]
pub proof fn lemma_let_statement(ts: Seq<TokenView>, pos: int)
    requires
        valid(ts, pos),
        !at_end(ts, pos),
    ensures
        moves(ts, pos, let_statement(ts, pos)),
    decreases ts.len() - pos, 18nat,
{
    reveal(let_statement);
    reveal(initializer);
    let p = step(ts, pos);
    if check(ts, p, TokenValue::Identifier) {
        lemma_initializer(ts, step(ts, p), ts[p]);
    }
}

#[verifier::spinoff_prover]
pub proof fn lemma_condition(ts: Seq<TokenView>, pos: int)
    requires
        valid(ts, pos),
        !at_end(ts, pos),
    ensures
        moves(ts, pos, condition(ts, pos)),
    decreases ts.len() - pos, 18nat,
{
    reveal(condition);
    reveal(expression);
    let p = step(ts, pos);
    if check(ts, p, TokenValue::LeftParen) {
        lemma_expression(ts, step(ts, p));
    }
}

#[verifier::spinoff_prover]
pub proof fn lemma_if_statement(ts: Seq<TokenView>, pos: int)
    requires
        valid(ts, pos),
        !at_end(ts, pos),
    ensures
        moves(ts, pos, if_statement(ts, pos)),
    decreases ts.len() - pos, 19nat,
{
    reveal(if_statement);
    reveal(condition);
    reveal(statement);
    lemma_condition(ts, pos);
    let head = condition(ts, pos);
    if head.value is Ok {
        lemma_statement(ts, resume(ts, head, pos + 1));
        let consequence = statement(ts, resume(ts, head, pos + 1));
        if consequence.value is Ok {
            let p = resume(ts, consequence, pos + 1);
            if kind(ts, p) == TokenValue::Else {
                lemma_statement(ts, step(ts, p));
            }
        }
    }
}

#[verifier::spinoff_prover]
pub proof fn lemma_while_statement(ts: Seq<TokenView>, pos: int)
    requires
        valid(ts, pos),
        !at_end(ts, pos),
    ensures
        moves(ts, pos, while_statement(ts, pos)),
    decreases ts.len() - pos, 19nat,
{
    reveal(while_statement);
    reveal(condition);
    reveal(statement);
    lemma_condition(ts, pos);
    let head = condition(ts, pos);
    if head.value is Ok {
        lemma_statement(ts, resume(ts, head, pos + 1));
    }
}

#[verifier::spinoff_prover]
pub proof fn lemma_block_statement(ts: Seq<TokenView>, pos: int)
    requires
        valid(ts, pos),
        !at_end(ts, pos),
    ensures
        moves(ts, pos, block_statement(ts, pos)),
    decreases ts.len() - pos, 19nat,
{
    reveal(block_statement);
    reveal(block);
    lemma_block(ts, step(ts, pos));
}

#[verifier::spinoff_prover]
pub proof fn lemma_block(ts: Seq<TokenView>, pos: int)
    requires
        valid(ts, pos),
    ensures
        stays(ts, pos, block(ts, pos)),
    decreases ts.len() - pos, 22nat,
{
    reveal(block);
    reveal(statement);
    if !(check(ts, pos, TokenValue::RightBrace) || at_end(ts, pos)) {
        lemma_statement(ts, pos);
        let first = statement(ts, pos);
        if first.value is Ok {
            lemma_block(ts, resume(ts, first, pos + 1));
        }
    }
}

#[verifier::spinoff_prover]
pub proof fn lemma_statement_body(ts: Seq<TokenView>, pos: int)
    requires
        valid(ts, pos),
    ensures
        moves(ts, pos, statement_body(ts, pos)),
    decreases ts.len() - pos, 20nat,
{
    reveal(statement_body);
    reveal(block_statement);
    reveal(break_statement);
    reveal(if_statement);
    reveal(let_statement);
    reveal(print_statement);
    reveal(return_statement);
    reveal(while_statement);
    reveal(expression_statement);
    match kind(ts, pos) {
        TokenValue::LeftBrace => lemma_block_statement(ts, pos),
        TokenValue::Break => lemma_break_statement(ts, pos),
        TokenValue::If => lemma_if_statement(ts, pos),
        TokenValue::Let => lemma_let_statement(ts, pos),
        TokenValue::Print => lemma_print_statement(ts, pos),
        TokenValue::Return => lemma_return_statement(ts, pos),
        TokenValue::While => lemma_while_statement(ts, pos),
        _ => lemma_expression_statement(ts, pos),
    }
}

/// A statement is read forward, whether it parses or not: it leaves off
/// behind where it started, unless nothing was there to read.
#[verifier::spinoff_prover]
pub proof fn lemma_statement(ts: Seq<TokenView>, pos: int)
    requires
        valid(ts, pos),
    ensures
        moves(ts, pos, statement(ts, pos)),
    decreases ts.len() - pos, 21nat,
{
    reveal(statement);
    reveal(statement_body);
    lemma_statement_body(ts, pos);
    let r = statement_body(ts, pos);
    if r.value is Err {
        lemma_synchronize(ts, r.next);
    }
}

} // verus!
