//! Arithmetic, from the text to the number.
//!
//! An expression of arithmetic is spelled by tokens in one way: a sum is
//! products joined by `+` and `-`, a product is factors joined by `*` and
//! `/`, each grouped from the left, a factor is a number or a sum in
//! parentheses, with or without a `-` before it.  This module shows that
//! a text that spells such an expression, followed by `;`, is parsed as
//! that expression and evaluates to the number that it stands for: each
//! operator applied to what its operands stand for, `*` and `/` before
//! `+` and `-`, operators of one rank from left to right.  The operations
//! on the numbers themselves are those of the host.

use vstd::prelude::*;

use crate::ast::{stmt_views, ExprView, LiteralView, Stmt, StmtView, ValueView};
use crate::error::Error;
use crate::grammar::{
    assignment, binary, binary_rest, call, call_rest, done, expression, expression_statement,
    is_operator, kind, operand, parse_all, parse_from, primary, statement, statement_body,
    ternary, unary, valid, Parsing,
};
use crate::laws::{
    cost, is_arithmetic_expression, lemma_arithmetic_follows_the_tree, lemma_run_on, number_of,
};
use crate::machine::{load, step, ActionView, ControlView, FrameView, MachineView};
use crate::scanner::{lemma_lex_terminated, lex};
use crate::semantics::{run, served, Host};
use crate::text::canonical;
use crate::token::{TokenValue, TokenView};

verus! {

/// The number of tokens that spell an expression of arithmetic.
pub open spec fn width(e: ExprView) -> nat
    decreases e,
{
    match e {
        ExprView::Grouping(inner) => 2 + width(*inner),
        ExprView::Unary(_, right) => 1 + width(*right),
        ExprView::Binary(_, left, right) => width(*left) + 1 + width(*right),
        _ => 1,
    }
}

/// Whether the tokens of `ts` from `from` on spell `e`, as a construct of
/// rank `rank`: 3 is a sum, 2 a product, 1 a factor with or without a
/// `-` before it, 0 a number or a sum in parentheses.  A sum is a sum,
/// `+` or `-`, and a product, or just a product; a product is a product,
/// `*` or `/`, and a factor, or just a factor.
pub open spec fn spells(ts: Seq<TokenView>, from: int, e: ExprView, rank: nat) -> bool
    decreases e, rank,
{
    if rank == 0 {
        match e {
            ExprView::Literal(LiteralView::Number(digits)) => ts[from].val == TokenValue::Number
                && digits == canonical(ts[from].lexeme),
            ExprView::Grouping(inner) => ts[from].val == TokenValue::LeftParen && spells(
                ts,
                from + 1,
                *inner,
                3,
            ) && ts[from + 1 + width(*inner)].val == TokenValue::RightParen,
            _ => false,
        }
    } else if rank == 1 {
        match e {
            ExprView::Unary(op, right) => ts[from] == op && op.val == TokenValue::Minus && spells(
                ts,
                from + 1,
                *right,
                0,
            ),
            _ => spells(ts, from, e, 0),
        }
    } else {
        match e {
            ExprView::Binary(op, left, right) => if is_operator((rank - 1) as nat, op.val) {
                spells(ts, from, *left, rank) && ts[from + width(*left)] == op && spells(
                    ts,
                    from + width(*left) + 1,
                    *right,
                    (rank - 1) as nat,
                )
            } else {
                spells(ts, from, e, (rank - 1) as nat)
            },
            _ => spells(ts, from, e, (rank - 1) as nat),
        }
    }
}

/// Whether a token of category `k` ends a construct of rank `rank`: it
/// is no opening parenthesis and no operator of that rank or a higher
/// one.
pub open spec fn stops(rank: nat, k: TokenValue) -> bool {
    &&& k != TokenValue::LeftParen
    &&& rank >= 2 ==> k != TokenValue::Star && k != TokenValue::Slash
    &&& rank >= 3 ==> k != TokenValue::Plus && k != TokenValue::Minus
}

/// The first operand of a construct of rank `rank`.
pub open spec fn head(e: ExprView, rank: nat) -> ExprView
    decreases e,
{
    match e {
        ExprView::Binary(op, left, _) => if is_operator((rank - 1) as nat, op.val) {
            head(*left, rank)
        } else {
            e
        },
        _ => e,
    }
}

/// A number or a sum in parentheses is read as a primary expression.
#[verifier::spinoff_prover]
pub proof fn lemma_reads_primary(ts: Seq<TokenView>, from: int, e: ExprView)
    requires
        valid(ts, from),
        from + width(e) < ts.len(),
        spells(ts, from, e, 0),
    ensures
        primary(ts, from) == done(e, from + width(e)),
        is_arithmetic_expression(e),
    decreases e, 0nat,
{
    reveal(primary);
    reveal(expression);
    match e {
        ExprView::Grouping(inner) => {
            lemma_reads_expression(ts, from + 1, *inner);
        },
        _ => {},
    }
}

/// A factor is read as a negation or as a call without argument lists.
#[verifier::spinoff_prover]
pub proof fn lemma_reads_unary(ts: Seq<TokenView>, from: int, e: ExprView)
    requires
        valid(ts, from),
        from + width(e) < ts.len(),
        spells(ts, from, e, 1),
        stops(1, kind(ts, from + width(e))),
    ensures
        unary(ts, from) == done(e, from + width(e)),
        operand(ts, from, 1) == done(e, from + width(e)),
        is_arithmetic_expression(e),
    decreases e, 1nat,
{
    reveal(unary);
    reveal(operand);
    reveal(primary);
    reveal(call);
    reveal(call_rest);
    match e {
        ExprView::Unary(op, right) => {
            lemma_reads_primary(ts, from + 1, *right);
        },
        _ => {
            lemma_reads_primary(ts, from, e);
        },
    }
}

/// The operands of a product are read one after the other, and what was
/// read becomes the left operand of the next operator.
#[verifier::spinoff_prover]
pub proof fn lemma_reads_product_on(ts: Seq<TokenView>, from: int, e: ExprView)
    requires
        valid(ts, from),
        from + width(e) < ts.len(),
        spells(ts, from, e, 2),
        stops(1, kind(ts, from + width(e))),
    ensures
        operand(ts, from, 1) == done(head(e, 2), from + width(head(e, 2))),
        binary_rest(ts, from + width(head(e, 2)), 1, head(e, 2)) == binary_rest(
            ts,
            from + width(e),
            1,
            e,
        ),
        from + width(head(e, 2)) <= from + width(e),
        is_arithmetic_expression(e),
    decreases e, 2nat,
{
    reveal(binary_rest);
    reveal(operand);
    match e {
        ExprView::Binary(op, left, right) => {
            if is_operator(1, op.val) {
                let mid = from + width(*left);
                lemma_reads_product_on(ts, from, *left);
                lemma_reads_unary(ts, mid + 1, *right);
            } else {
                lemma_reads_unary(ts, from, e);
            }
        },
        _ => {
            lemma_reads_unary(ts, from, e);
        },
    }
}

/// A product is read as one.
#[verifier::spinoff_prover]
pub proof fn lemma_reads_product(ts: Seq<TokenView>, from: int, e: ExprView)
    requires
        valid(ts, from),
        from + width(e) < ts.len(),
        spells(ts, from, e, 2),
        stops(2, kind(ts, from + width(e))),
    ensures
        binary(ts, from, 1) == done(e, from + width(e)),
        operand(ts, from, 2) == done(e, from + width(e)),
        is_arithmetic_expression(e),
    decreases e, 3nat,
{
    reveal(binary);
    reveal(operand);
    reveal(binary_rest);
    lemma_reads_product_on(ts, from, e);
}

/// The operands of a sum are read one after the other, and what was read
/// becomes the left operand of the next operator.
#[verifier::spinoff_prover]
pub proof fn lemma_reads_sum_on(ts: Seq<TokenView>, from: int, e: ExprView)
    requires
        valid(ts, from),
        from + width(e) < ts.len(),
        spells(ts, from, e, 3),
        stops(2, kind(ts, from + width(e))),
    ensures
        operand(ts, from, 2) == done(head(e, 3), from + width(head(e, 3))),
        binary_rest(ts, from + width(head(e, 3)), 2, head(e, 3)) == binary_rest(
            ts,
            from + width(e),
            2,
            e,
        ),
        from + width(head(e, 3)) <= from + width(e),
        is_arithmetic_expression(e),
    decreases e, 4nat,
{
    reveal(binary_rest);
    reveal(operand);
    match e {
        ExprView::Binary(op, left, right) => {
            if is_operator(2, op.val) {
                let mid = from + width(*left);
                lemma_reads_sum_on(ts, from, *left);
                lemma_reads_product(ts, mid + 1, *right);
            } else {
                lemma_reads_product(ts, from, e);
            }
        },
        _ => {
            lemma_reads_product(ts, from, e);
        },
    }
}

/// A sum is read as one.
#[verifier::spinoff_prover]
pub proof fn lemma_reads_sum(ts: Seq<TokenView>, from: int, e: ExprView)
    requires
        valid(ts, from),
        from + width(e) < ts.len(),
        spells(ts, from, e, 3),
        stops(3, kind(ts, from + width(e))),
    ensures
        binary(ts, from, 2) == done(e, from + width(e)),
        operand(ts, from, 3) == done(e, from + width(e)),
        is_arithmetic_expression(e),
    decreases e, 5nat,
{
    reveal(binary);
    reveal(operand);
    reveal(binary_rest);
    lemma_reads_sum_on(ts, from, e);
}

/// A sum that a semicolon or a closing parenthesis follows is read as an
/// expression: nothing of what binds less than `+` and `-` takes part.
#[verifier::spinoff_prover]
pub proof fn lemma_reads_expression(ts: Seq<TokenView>, from: int, e: ExprView)
    requires
        valid(ts, from),
        from + width(e) < ts.len(),
        spells(ts, from, e, 3),
        kind(ts, from + width(e)) == TokenValue::Semicolon || kind(ts, from + width(e))
            == TokenValue::RightParen,
    ensures
        expression(ts, from) == done(e, from + width(e)),
        is_arithmetic_expression(e),
    decreases e, 7nat,
{
    reveal(expression);
    reveal(assignment);
    reveal(ternary);
    reveal(binary);
    lemma_reads_logic(ts, from, e);
}

/// A sum that neither `&&` nor `||` follows is read as such at their
/// levels.
#[verifier::spinoff_prover]
proof fn lemma_reads_logic(ts: Seq<TokenView>, from: int, e: ExprView)
    requires
        valid(ts, from),
        from + width(e) < ts.len(),
        spells(ts, from, e, 3),
        kind(ts, from + width(e)) == TokenValue::Semicolon || kind(ts, from + width(e))
            == TokenValue::RightParen,
    ensures
        binary(ts, from, 4) == done(e, from + width(e)),
        is_arithmetic_expression(e),
    decreases e, 6nat,
{
    reveal(binary);
    reveal(operand);
    reveal(binary_rest);
    lemma_reads_sum(ts, from, e);
    assert(binary(ts, from, 3) == done(e, from + width(e)));
    assert(operand(ts, from, 4) == binary(ts, from, 3));
}

/// What a program that is one expression statement comes to.
pub open spec fn only(e: ExprView) -> Seq<StmtView> {
    seq![StmtView::Expression(Box::new(e))]
}

/// Tokens that spell a sum, a semicolon and the end are parsed as the
/// one expression statement of that sum.
#[verifier::spinoff_prover]
pub proof fn lemma_parses_arithmetic(ts: Seq<TokenView>, e: ExprView)
    requires
        valid(ts, 0),
        spells(ts, 0, e, 3),
        ts.len() == width(e) + 2,
        kind(ts, width(e) as int) == TokenValue::Semicolon,
    ensures
        parse_all(ts) == (Parsing { statements: only(e), errors: Seq::empty() }),
        is_arithmetic_expression(e),
{
    reveal(parse_from);
    reveal(statement);
    reveal(statement_body);
    reveal(expression_statement);
    reveal(expression);
    lemma_reads_expression(ts, 0, e);
    lemma_starts(ts, 0, e, 3);
    let end = width(e) as int + 1;
    assert(statement(ts, 0) == done(StmtView::Expression(Box::new(e)), end));
    assert(parse_from(ts, end) == (Parsing { statements: Seq::empty(), errors: Seq::empty() }));
    assert(only(e) + Seq::<StmtView>::empty() =~= only(e));
}

/// What spells an expression of arithmetic starts with a number, a `(` or
/// a `-`.
pub proof fn lemma_starts(ts: Seq<TokenView>, from: int, e: ExprView, rank: nat)
    requires
        spells(ts, from, e, rank),
        rank <= 3,
    ensures
        kind(ts, from) == TokenValue::Number || kind(ts, from) == TokenValue::LeftParen || kind(
            ts,
            from,
        ) == TokenValue::Minus,
    decreases e, rank,
{
    if rank == 0 {
    } else if rank == 1 {
        match e {
            ExprView::Unary(_, _) => {},
            _ => {
                lemma_starts(ts, from, e, 0);
            },
        }
    } else {
        match e {
            ExprView::Binary(op, left, _) => {
                if is_operator((rank - 1) as nat, op.val) {
                    lemma_starts(ts, from, *left, rank);
                } else {
                    lemma_starts(ts, from, e, (rank - 1) as nat);
                }
            },
            _ => {
                lemma_starts(ts, from, e, (rank - 1) as nat);
            },
        }
    }
}

/// A program that is one expression of arithmetic ends with the number
/// that the expression stands for: loaded into any machine, it reports
/// that number after as many served transitions as the expression costs
/// and two more.
pub proof fn lemma_runs_arithmetic(m: MachineView, e: ExprView, host: Host)
    requires
        is_arithmetic_expression(e),
    ensures
        step(run(load(m, only(e)), host, cost(e) + 2)).action == ActionView::Done(
            Ok(ValueView::Number(number_of(e, host))),
        ),
{
    let loaded = load(m, only(e));
    assert(loaded.stack.last() == loaded.stack[0]);
    let first = served(loaded, host);
    let second = served(first, host);
    assert(second.control == ControlView::Evaluate(e));
    lemma_arithmetic_follows_the_tree(second, e, host);
    let end = run(second, host, cost(e));
    assert(run(first, host, 1) == run(second, host, 0));
    assert(run(loaded, host, 2) == run(first, host, 1));
    lemma_run_on(loaded, host, 2, cost(e));
    assert(end.stack.len() == 1);
    assert(end.stack.last() == end.stack[0]);
    assert(end.stack[0] == first.stack[0]);
}

/// Arithmetic, from the text to the number: a source text without lexical
/// errors whose tokens spell a sum `e`, a semicolon and the end is parsed
/// as the one expression statement of `e` (so that is what [`crate::parse`]
/// hands out), and that program ends with the number that `e` stands
/// for.  In `e`, `*` and `/` bind tighter than `+`
/// and `-`, and operators of one rank are grouped from the left, since
/// that is how a sum is spelled; each operation is one operation of the
/// host.
pub proof fn lemma_arithmetic_from_text(
    src: Seq<char>,
    e: ExprView,
    host: Host,
    m: MachineView,
    parsed: Result<Vec<Stmt>, Vec<Error>>,
)
    requires
        lex(src).errors.len() == 0,
        spells(lex(src).tokens, 0, e, 3),
        lex(src).tokens.len() == width(e) + 2,
        kind(lex(src).tokens, width(e) as int) == TokenValue::Semicolon,
    ensures
        parse_all(lex(src).tokens) == (Parsing { statements: only(e), errors: Seq::empty() }),
        crate::is_parse_of(parsed, src) ==> parsed is Ok && stmt_views(parsed->Ok_0@) == only(e),
        step(run(load(m, only(e)), host, cost(e) + 2)).action == ActionView::Done(
            Ok(ValueView::Number(number_of(e, host))),
        ),
{
    lemma_lex_terminated(src, 0);
    lemma_parses_arithmetic(lex(src).tokens, e);
    lemma_runs_arithmetic(m, e, host);
}

} // verus!
