//! The grammar, as functions on a token sequence.
//!
//! Each function reads the construct that starts at a position of the
//! sequence and says what was read, or which error stopped it, and where
//! reading goes on.  The parser is proved to compute these functions.
//!
//! From the lowest precedence to the highest, an expression is an
//! assignment, a ternary, `||`, `&&`, a sum, a product, a negation, a
//! call, or a primary expression.

use vstd::prelude::*;

use crate::ast::{ExprView, LiteralView, StmtView};
use crate::error::{error_at, ErrorView};
use crate::text::canonical;
use crate::token::{TokenValue, TokenView};

verus! {

/// What reading one construct yields: the construct or the error, and the
/// position of the first token after it.
pub struct Parsed<T> {
    pub value: Result<T, ErrorView>,
    pub next: int,
}

/// A token sequence ends with the end-of-input marker.
pub open spec fn terminated(ts: Seq<TokenView>) -> bool {
    ts.len() > 0 && ts.last().val == TokenValue::EOF
}

/// `pos` is a position of the terminated sequence `ts`.
pub open spec fn valid(ts: Seq<TokenView>, pos: int) -> bool {
    terminated(ts) && 0 <= pos < ts.len()
}

/// The category of the token at `pos`.
pub open spec fn kind(ts: Seq<TokenView>, pos: int) -> TokenValue {
    ts[pos].val
}

/// Whether the end-of-input marker stands at `pos`.
pub open spec fn at_end(ts: Seq<TokenView>, pos: int) -> bool {
    kind(ts, pos) == TokenValue::EOF
}

/// The position after `pos`; the last position is its own successor.
pub open spec fn step(ts: Seq<TokenView>, pos: int) -> int {
    if pos + 1 < ts.len() {
        pos + 1
    } else {
        pos
    }
}

/// Whether a token of category `k`, and not the end of input, stands at
/// `pos`.
pub open spec fn check(ts: Seq<TokenView>, pos: int, k: TokenValue) -> bool {
    !at_end(ts, pos) && kind(ts, pos) == k
}

/// Reading stopped at `next` with error `e`.
pub open spec fn stopped<T>(e: ErrorView, next: int) -> Parsed<T> {
    Parsed { value: Err(e), next }
}

/// Reading stopped at the token at `pos`, with message `msg`.
pub open spec fn failed<T>(ts: Seq<TokenView>, pos: int, msg: Seq<char>) -> Parsed<T> {
    stopped(error_at(ts[pos], msg), pos)
}

/// Reading went well: `value` was read, and `next` follows it.
pub open spec fn done<T>(value: T, next: int) -> Parsed<T> {
    Parsed { value: Ok(value), next }
}

/// The position at which reading goes on after `r`, which started at or
/// after `least`.  Reading never moves backward nor past the last token
/// (see [`crate::progress`]), so this is `r.next`; the bounds make every
/// function below total.
pub open spec fn resume<T>(ts: Seq<TokenView>, r: Parsed<T>, least: int) -> int {
    if r.next < least {
        least
    } else if r.next >= ts.len() {
        ts.len() - 1
    } else {
        r.next
    }
}

/// Reads a token of category `k`, or fails with `msg` at the token that
/// stands in its place.
pub open spec fn expect(ts: Seq<TokenView>, pos: int, k: TokenValue, msg: Seq<char>) -> Parsed<
    TokenView,
> {
    if check(ts, pos, k) {
        done(ts[pos], step(ts, pos))
    } else {
        failed(ts, pos, msg)
    }
}

/// Whether `k` is an operator of the binary level `level`: 4 is `||`, 3 is
/// `&&`, 2 is `+ -`, 1 is `* /`.
pub open spec fn is_operator(level: nat, k: TokenValue) -> bool {
    if level == 4 {
        k == TokenValue::Or
    } else if level == 3 {
        k == TokenValue::And
    } else if level == 2 {
        k == TokenValue::Plus || k == TokenValue::Minus
    } else {
        k == TokenValue::Star || k == TokenValue::Slash
    }
}

/// The node of a binary level: logical for `||` and `&&`, else arithmetic.
pub open spec fn binary_node(level: nat, op: TokenView, left: ExprView, right: ExprView) -> ExprView {
    if level >= 3 {
        ExprView::Logical(op, Box::new(left), Box::new(right))
    } else {
        ExprView::Binary(op, Box::new(left), Box::new(right))
    }
}

/// The message for a token that can start no expression.
pub open spec fn not_an_expression(k: TokenValue) -> Seq<char> {
    "Expression expected, found `"@ + k.text() + "`"@
}

/// `r`, with `first` before what it read.
pub open spec fn after<T>(first: Seq<T>, r: Parsed<Seq<T>>) -> Parsed<Seq<T>> {
    match r.value {
        Ok(rest) => done(first + rest, r.next),
        Err(e) => stopped(e, r.next),
    }
}

/// `IDENT , IDENT ... )`: the parameter names from `pos` on, up to the
/// closing parenthesis.
#[verifier::opaque]
pub open spec fn parameter_list(ts: Seq<TokenView>, pos: int) -> Parsed<Seq<TokenView>>
    decreases ts.len() - pos,
    when valid(ts, pos)
{
    if at_end(ts, pos) {
        failed(ts, pos, "Right paren expected."@)
    } else if kind(ts, pos) != TokenValue::Identifier {
        failed(ts, pos, "Identifier expected."@)
    } else {
        let p = step(ts, pos);
        if check(ts, p, TokenValue::Comma) {
            after(seq![ts[pos]], parameter_list(ts, step(ts, p)))
        } else {
            match expect(ts, p, TokenValue::RightParen, "Right paren expected."@).value {
                Ok(_) => done(seq![ts[pos]], step(ts, p)),
                Err(e) => stopped(e, p),
            }
        }
    }
}

/// The parameters of a function literal, after its opening parenthesis.
pub open spec fn parameters(ts: Seq<TokenView>, pos: int) -> Parsed<Seq<TokenView>> {
    if check(ts, pos, TokenValue::RightParen) {
        done(Seq::empty(), step(ts, pos))
    } else {
        parameter_list(ts, pos)
    }
}

/// Where parsing goes on after a statement failed and left off at `pos`:
/// behind the next `;`, or at the next `if`, `let`, `print` or `while`, or
/// at the end.
#[verifier::opaque]
pub open spec fn synchronize(ts: Seq<TokenView>, pos: int) -> int
    decreases ts.len() - pos,
    when valid(ts, pos)
{
    if at_end(ts, pos) {
        pos
    } else if pos > 0 && kind(ts, pos - 1) == TokenValue::Semicolon {
        pos
    } else if kind(ts, pos) == TokenValue::If || kind(ts, pos) == TokenValue::Let || kind(ts, pos)
        == TokenValue::Print || kind(ts, pos) == TokenValue::While {
        pos
    } else {
        synchronize(ts, step(ts, pos))
    }
}

/// A primary expression: a number, `true`, `false`, an identifier, a
/// parenthesized expression or a function literal.
#[verifier::opaque]
pub open spec fn primary(ts: Seq<TokenView>, pos: int) -> Parsed<ExprView>
    decreases ts.len() - pos, 2nat,
    when valid(ts, pos)
{
    let token = ts[pos];
    let next = step(ts, pos);
    match token.val {
        TokenValue::Number => done(
            ExprView::Literal(LiteralView::Number(canonical(token.lexeme))),
            next,
        ),
        TokenValue::LeftParen => {
            let inner = expression(ts, next);
            match inner.value {
                Err(e) => stopped(e, inner.next),
                Ok(e) => match expect(
                    ts,
                    inner.next,
                    TokenValue::RightParen,
                    "Right paren expected"@,
                ).value {
                    Err(e) => stopped(e, inner.next),
                    Ok(_) => done(ExprView::Grouping(Box::new(e)), step(ts, inner.next)),
                },
            }
        },
        TokenValue::Function => function(ts, next),
        TokenValue::Identifier => done(ExprView::Variable(token), next),
        TokenValue::True => done(ExprView::Literal(LiteralView::Bool(true)), next),
        TokenValue::False => done(ExprView::Literal(LiteralView::Bool(false)), next),
        _ => stopped(error_at(token, not_an_expression(token.val)), next),
    }
}

/// A function literal, after the keyword: `( parameters ) { statements }`.
#[verifier::opaque]
pub open spec fn function(ts: Seq<TokenView>, pos: int) -> Parsed<ExprView>
    decreases ts.len() - pos, 1nat,
    when valid(ts, pos)
{
    match expect(ts, pos, TokenValue::LeftParen, "Left parenthesis expected"@).value {
        Err(e) => stopped(e, pos),
        Ok(_) => {
            let names = parameters(ts, step(ts, pos));
            match names.value {
                Err(e) => stopped(e, names.next),
                Ok(ps) => {
                    let p = resume(ts, names, pos + 1);
                    match expect(ts, p, TokenValue::LeftBrace, "Left brace expected"@).value {
                        Err(e) => stopped(e, p),
                        Ok(_) => {
                            let body = block(ts, step(ts, p));
                            match body.value {
                                Err(e) => stopped(e, body.next),
                                Ok(ss) => match expect(
                                    ts,
                                    body.next,
                                    TokenValue::RightBrace,
                                    "Right brace expected."@,
                                ).value {
                                    Err(e) => stopped(e, body.next),
                                    Ok(_) => done(ExprView::Function(ps, ss), step(ts, body.next)),
                                },
                            }
                        },
                    }
                },
            }
        },
    }
}

/// A call: a primary expression, then any number of argument lists.
#[verifier::opaque]
pub open spec fn call(ts: Seq<TokenView>, pos: int) -> Parsed<ExprView>
    decreases ts.len() - pos, 3nat,
    when valid(ts, pos)
{
    let first = primary(ts, pos);
    match first.value {
        Err(e) => stopped(e, first.next),
        Ok(callee) => call_rest(ts, resume(ts, first, pos), callee),
    }
}

/// The argument lists that follow `callee`.
#[verifier::opaque]
pub open spec fn call_rest(ts: Seq<TokenView>, pos: int, callee: ExprView) -> Parsed<ExprView>
    decreases ts.len() - pos, 0nat,
    when valid(ts, pos)
{
    if check(ts, pos, TokenValue::LeftParen) {
        let list = arguments(ts, step(ts, pos));
        match list.value {
            Err(e) => stopped(e, list.next),
            Ok(args) => call_rest(
                ts,
                resume(ts, list, pos + 1),
                ExprView::Call(ts[pos], Box::new(callee), args),
            ),
        }
    } else {
        done(callee, pos)
    }
}

/// The arguments of a call, after its opening parenthesis: expressions
/// separated by commas, up to the closing parenthesis.  Where the end
/// comes before the closing parenthesis, that is what is reported.
#[verifier::opaque]
pub open spec fn arguments(ts: Seq<TokenView>, pos: int) -> Parsed<Seq<ExprView>>
    decreases ts.len() - pos, 17nat,
    when valid(ts, pos)
{
    if check(ts, pos, TokenValue::RightParen) {
        done(Seq::empty(), step(ts, pos))
    } else if at_end(ts, pos) {
        failed(ts, pos, "No closing parenthesis."@)
    } else {
        let first = expression(ts, pos);
        match first.value {
            Err(e) => stopped(e, first.next),
            Ok(e) => {
                let p = resume(ts, first, pos + 1);
                if check(ts, p, TokenValue::RightParen) {
                    done(seq![e], step(ts, p))
                } else if at_end(ts, p) {
                    failed(ts, p, "No closing parenthesis."@)
                } else {
                    match expect(ts, p, TokenValue::Comma, "Comma expected."@).value {
                        Err(e) => stopped(e, p),
                        Ok(_) => after(seq![e], arguments(ts, step(ts, p))),
                    }
                }
            },
        }
    }
}

/// A negation, `-` before a call, or a call.  A call binds tighter than
/// the `-` before it; a `-` does not stand before another `-`.
#[verifier::opaque]
pub open spec fn unary(ts: Seq<TokenView>, pos: int) -> Parsed<ExprView>
    decreases ts.len() - pos, 4nat,
    when valid(ts, pos)
{
    if kind(ts, pos) == TokenValue::Minus {
        let right = call(ts, step(ts, pos));
        match right.value {
            Err(e) => stopped(e, right.next),
            Ok(r) => done(ExprView::Unary(ts[pos], Box::new(r)), right.next),
        }
    } else {
        call(ts, pos)
    }
}

/// The operand of a binary level: the level below, or a negation below
/// the products.
#[verifier::opaque]
pub open spec fn operand(ts: Seq<TokenView>, pos: int, level: nat) -> Parsed<ExprView>
    decreases ts.len() - pos, 4 + 2 * level,
    when valid(ts, pos) && level >= 1
{
    if level == 1 {
        unary(ts, pos)
    } else {
        binary(ts, pos, (level - 1) as nat)
    }
}

/// A binary level: operands joined by the level's operators, grouped from
/// the left.
#[verifier::opaque]
pub open spec fn binary(ts: Seq<TokenView>, pos: int, level: nat) -> Parsed<ExprView>
    decreases ts.len() - pos, 5 + 2 * level,
    when valid(ts, pos) && level >= 1
{
    let first = operand(ts, pos, level);
    match first.value {
        Err(e) => stopped(e, first.next),
        Ok(left) => binary_rest(ts, resume(ts, first, pos), level, left),
    }
}

/// The operators and operands of a binary level that follow `left`.
#[verifier::opaque]
pub open spec fn binary_rest(ts: Seq<TokenView>, pos: int, level: nat, left: ExprView) -> Parsed<
    ExprView,
>
    decreases ts.len() - pos, 0nat,
    when valid(ts, pos) && level >= 1
{
    if is_operator(level, kind(ts, pos)) {
        let right = operand(ts, step(ts, pos), level);
        match right.value {
            Err(e) => stopped(e, right.next),
            Ok(r) => binary_rest(
                ts,
                resume(ts, right, pos + 1),
                level,
                binary_node(level, ts[pos], left, r),
            ),
        }
    } else {
        done(left, pos)
    }
}

/// A ternary, `first ? second : third`, whose branches are ternaries
/// themselves, or a `||` level.
#[verifier::opaque]
pub open spec fn ternary(ts: Seq<TokenView>, pos: int) -> Parsed<ExprView>
    decreases ts.len() - pos, 14nat,
    when valid(ts, pos)
{
    let first = binary(ts, pos, 4);
    match first.value {
        Err(e) => stopped(e, first.next),
        Ok(condition) => {
            let p = resume(ts, first, pos);
            if kind(ts, p) == TokenValue::Question {
                let second = ternary(ts, step(ts, p));
                match second.value {
                    Err(e) => stopped(e, second.next),
                    Ok(consequent) => {
                        let q = resume(ts, second, p + 1);
                        match expect(ts, q, TokenValue::Colon, "Colon expected."@).value {
                            Err(e) => stopped(e, q),
                            Ok(_) => {
                                let third = ternary(ts, step(ts, q));
                                match third.value {
                                    Err(e) => stopped(e, third.next),
                                    Ok(alternate) => done(
                                        ExprView::Ternary(
                                            ts[p],
                                            Box::new(condition),
                                            Box::new(consequent),
                                            Box::new(alternate),
                                        ),
                                        third.next,
                                    ),
                                }
                            },
                        }
                    },
                }
            } else {
                done(condition, p)
            }
        },
    }
}

/// An assignment, `name = value`, whose value is an assignment itself, or
/// a ternary.  Only a plain variable can be assigned to.
#[verifier::opaque]
pub open spec fn assignment(ts: Seq<TokenView>, pos: int) -> Parsed<ExprView>
    decreases ts.len() - pos, 15nat,
    when valid(ts, pos)
{
    let target = ternary(ts, pos);
    match target.value {
        Err(e) => stopped(e, target.next),
        Ok(left) => {
            let p = resume(ts, target, pos);
            if left is Variable && check(ts, p, TokenValue::Equal) {
                let value = assignment(ts, step(ts, p));
                match value.value {
                    Err(e) => stopped(e, value.next),
                    Ok(v) => done(ExprView::Assignment(left->Variable_0, Box::new(v)), value.next),
                }
            } else {
                done(left, p)
            }
        },
    }
}

/// An expression.
#[verifier::opaque]
pub open spec fn expression(ts: Seq<TokenView>, pos: int) -> Parsed<ExprView>
    decreases ts.len() - pos, 16nat,
    when valid(ts, pos)
{
    assignment(ts, pos)
}

/// `value ;` with message `msg` for a missing semicolon, wrapped by `node`.
pub open spec fn closed_by_semicolon(
    ts: Seq<TokenView>,
    value: Parsed<ExprView>,
    msg: Seq<char>,
    node: spec_fn(ExprView) -> StmtView,
) -> Parsed<StmtView> {
    match value.value {
        Err(e) => stopped(e, value.next),
        Ok(v) => match expect(ts, value.next, TokenValue::Semicolon, msg).value {
            Err(e) => stopped(e, value.next),
            Ok(_) => done(node(v), step(ts, value.next)),
        },
    }
}

/// `expression ;`
#[verifier::opaque]
pub open spec fn expression_statement(ts: Seq<TokenView>, pos: int) -> Parsed<StmtView>
    decreases ts.len() - pos, 18nat,
    when valid(ts, pos)
{
    closed_by_semicolon(
        ts,
        expression(ts, pos),
        "Semicolon expected."@,
        |e: ExprView| StmtView::Expression(Box::new(e)),
    )
}

/// `print expression ;`
#[verifier::opaque]
pub open spec fn print_statement(ts: Seq<TokenView>, pos: int) -> Parsed<StmtView>
    decreases ts.len() - pos, 18nat,
    when valid(ts, pos) && !at_end(ts, pos)
{
    closed_by_semicolon(
        ts,
        expression(ts, step(ts, pos)),
        "Semicolon expected."@,
        |e: ExprView| StmtView::Print(Box::new(e)),
    )
}

/// Whether a token of category `k` can start an expression: a number,
/// `true`, `false`, an identifier, `(`, `function` or `-`.
pub open spec fn starts_expression(k: TokenValue) -> bool {
    k == TokenValue::Number || k == TokenValue::True || k == TokenValue::False || k
        == TokenValue::Identifier || k == TokenValue::LeftParen || k == TokenValue::Function || k
        == TokenValue::Minus
}

/// `;` behind a keyword that stands alone, wrapped by `node`: what cannot
/// start an expression and is no semicolon stands in the place of the
/// semicolon.
pub open spec fn bare(ts: Seq<TokenView>, pos: int, node: StmtView) -> Parsed<StmtView> {
    match expect(ts, pos, TokenValue::Semicolon, "Semicolon expected."@).value {
        Err(e) => stopped(e, pos),
        Ok(_) => done(node, step(ts, pos)),
    }
}

/// `return ;` or `return expression ;`
#[verifier::opaque]
pub open spec fn return_statement(ts: Seq<TokenView>, pos: int) -> Parsed<StmtView>
    decreases ts.len() - pos, 18nat,
    when valid(ts, pos) && !at_end(ts, pos)
{
    let p = step(ts, pos);
    if starts_expression(kind(ts, p)) {
        closed_by_semicolon(
            ts,
            expression(ts, p),
            "Semicolon expected."@,
            |e: ExprView| StmtView::Return(Some(Box::new(e))),
        )
    } else {
        bare(ts, p, StmtView::Return(None))
    }
}

/// `break ;` or `break expression ;`
#[verifier::opaque]
pub open spec fn break_statement(ts: Seq<TokenView>, pos: int) -> Parsed<StmtView>
    decreases ts.len() - pos, 18nat,
    when valid(ts, pos) && !at_end(ts, pos)
{
    let p = step(ts, pos);
    if starts_expression(kind(ts, p)) {
        closed_by_semicolon(
            ts,
            expression(ts, p),
            "Semicolon expected."@,
            |e: ExprView| StmtView::Break(ts[pos], Some(Box::new(e))),
        )
    } else {
        bare(ts, p, StmtView::Break(ts[pos], None))
    }
}

/// What follows the name of a `let`: `;` or `= expression ;`.
#[verifier::opaque]
pub open spec fn initializer(ts: Seq<TokenView>, pos: int, name: TokenView) -> Parsed<StmtView>
    decreases ts.len() - pos, 18nat,
    when valid(ts, pos)
{
    if check(ts, pos, TokenValue::Equal) {
        closed_by_semicolon(
            ts,
            expression(ts, step(ts, pos)),
            "Semicolon expected."@,
            |e: ExprView| StmtView::Let(name, Box::new(e)),
        )
    } else {
        match expect(ts, pos, TokenValue::Semicolon, "Semicolon expected."@).value {
            Err(e) => stopped(e, pos),
            Ok(_) => done(
                StmtView::Let(name, Box::new(ExprView::Literal(LiteralView::Undefined))),
                step(ts, pos),
            ),
        }
    }
}

/// `let name ;` or `let name = expression ;`
#[verifier::opaque]
pub open spec fn let_statement(ts: Seq<TokenView>, pos: int) -> Parsed<StmtView>
    decreases ts.len() - pos, 18nat,
    when valid(ts, pos) && !at_end(ts, pos)
{
    let p = step(ts, pos);
    match expect(ts, p, TokenValue::Identifier, "Variable expected."@).value {
        Err(e) => stopped(e, p),
        Ok(name) => initializer(ts, step(ts, p), name),
    }
}

/// `( condition )`, after a keyword at `pos`.
#[verifier::opaque]
pub open spec fn condition(ts: Seq<TokenView>, pos: int) -> Parsed<ExprView>
    decreases ts.len() - pos, 18nat,
    when valid(ts, pos) && !at_end(ts, pos)
{
    let p = step(ts, pos);
    match expect(ts, p, TokenValue::LeftParen, "Left paren expected."@).value {
        Err(e) => stopped(e, p),
        Ok(_) => {
            let inner = expression(ts, step(ts, p));
            match inner.value {
                Err(e) => stopped(e, inner.next),
                Ok(c) => match expect(
                    ts,
                    inner.next,
                    TokenValue::RightParen,
                    "Right paren expected."@,
                ).value {
                    Err(e) => stopped(e, inner.next),
                    Ok(_) => done(c, step(ts, inner.next)),
                },
            }
        },
    }
}

/// `if ( condition ) statement` with an optional `else statement`
#[verifier::opaque]
pub open spec fn if_statement(ts: Seq<TokenView>, pos: int) -> Parsed<StmtView>
    decreases ts.len() - pos, 19nat,
    when valid(ts, pos) && !at_end(ts, pos)
{
    let head = condition(ts, pos);
    match head.value {
        Err(e) => stopped(e, head.next),
        Ok(c) => {
            let consequence = statement(ts, resume(ts, head, pos + 1));
            match consequence.value {
                Err(e) => stopped(e, consequence.next),
                Ok(s) => {
                    let p = resume(ts, consequence, pos + 1);
                    if kind(ts, p) == TokenValue::Else {
                        let alternative = statement(ts, step(ts, p));
                        match alternative.value {
                            Err(e) => stopped(e, alternative.next),
                            Ok(a) => done(
                                StmtView::If(Box::new(c), Box::new(s), Some(Box::new(a))),
                                alternative.next,
                            ),
                        }
                    } else {
                        done(StmtView::If(Box::new(c), Box::new(s), None), p)
                    }
                },
            }
        },
    }
}

/// `while ( condition ) statement`
#[verifier::opaque]
pub open spec fn while_statement(ts: Seq<TokenView>, pos: int) -> Parsed<StmtView>
    decreases ts.len() - pos, 19nat,
    when valid(ts, pos) && !at_end(ts, pos)
{
    let head = condition(ts, pos);
    match head.value {
        Err(e) => stopped(e, head.next),
        Ok(c) => {
            let body = statement(ts, resume(ts, head, pos + 1));
            match body.value {
                Err(e) => stopped(e, body.next),
                Ok(s) => done(StmtView::While(Box::new(c), Box::new(s)), body.next),
            }
        },
    }
}

/// `{ statements }`
#[verifier::opaque]
pub open spec fn block_statement(ts: Seq<TokenView>, pos: int) -> Parsed<StmtView>
    decreases ts.len() - pos, 19nat,
    when valid(ts, pos) && !at_end(ts, pos)
{
    let body = block(ts, step(ts, pos));
    match body.value {
        Err(e) => stopped(e, body.next),
        Ok(ss) => match expect(
            ts,
            body.next,
            TokenValue::RightBrace,
            "Right brace expected."@,
        ).value {
            Err(e) => stopped(e, body.next),
            Ok(_) => done(StmtView::Block(ss), step(ts, body.next)),
        },
    }
}

/// The statements of a block: all up to the closing brace or the end.
#[verifier::opaque]
pub open spec fn block(ts: Seq<TokenView>, pos: int) -> Parsed<Seq<StmtView>>
    decreases ts.len() - pos, 22nat,
    when valid(ts, pos)
{
    if check(ts, pos, TokenValue::RightBrace) || at_end(ts, pos) {
        done(Seq::empty(), pos)
    } else {
        let first = statement(ts, pos);
        match first.value {
            Err(e) => stopped(e, first.next),
            Ok(s) => after(seq![s], block(ts, resume(ts, first, pos + 1))),
        }
    }
}

/// The statement that the token at `pos` starts, without recovery.
#[verifier::opaque]
pub open spec fn statement_body(ts: Seq<TokenView>, pos: int) -> Parsed<StmtView>
    decreases ts.len() - pos, 20nat,
    when valid(ts, pos)
{
    match kind(ts, pos) {
        TokenValue::LeftBrace => block_statement(ts, pos),
        TokenValue::Break => break_statement(ts, pos),
        TokenValue::If => if_statement(ts, pos),
        TokenValue::Let => let_statement(ts, pos),
        TokenValue::Print => print_statement(ts, pos),
        TokenValue::Return => return_statement(ts, pos),
        TokenValue::While => while_statement(ts, pos),
        _ => expression_statement(ts, pos),
    }
}

/// A statement.  Where it fails, parsing goes on at the next statement
/// boundary.
#[verifier::opaque]
pub open spec fn statement(ts: Seq<TokenView>, pos: int) -> Parsed<StmtView>
    decreases ts.len() - pos, 21nat,
    when valid(ts, pos)
{
    let r = statement_body(ts, pos);
    match r.value {
        Ok(_) => r,
        Err(e) => stopped(e, synchronize(ts, r.next)),
    }
}

/// The branches of a ternary are ternaries themselves, so that ternaries
/// nest to the right in both branches: where a `?` follows the condition,
/// what stands between it and the `:` is read as a ternary, and so is what
/// follows the `:`.
pub proof fn lemma_ternary_nests_in_both_branches(ts: Seq<TokenView>, pos: int)
    requires
        valid(ts, pos),
        binary(ts, pos, 4).value is Ok,
        kind(ts, resume(ts, binary(ts, pos, 4), pos)) == TokenValue::Question,
    ensures
        ({
            let first = binary(ts, pos, 4);
            let p = resume(ts, first, pos);
            let second = ternary(ts, step(ts, p));
            let q = resume(ts, second, p + 1);
            let third = ternary(ts, step(ts, q));
            second.value is Ok && check(ts, q, TokenValue::Colon) && third.value is Ok ==> ternary(
                ts,
                pos,
            ) == done(
                ExprView::Ternary(
                    ts[p],
                    Box::new(first.value->Ok_0),
                    Box::new(second.value->Ok_0),
                    Box::new(third.value->Ok_0),
                ),
                third.next,
            )
        }),
{
    reveal(ternary);
    reveal(binary);
}

/// Assignment nests to the right and only a plain variable can be
/// assigned to: where a variable is followed by `=`, what follows is read
/// as an assignment again and becomes the value; where anything else was
/// read, no assignment is made of it.
pub proof fn lemma_assignment_nests_to_the_right(ts: Seq<TokenView>, pos: int)
    requires
        valid(ts, pos),
        ternary(ts, pos).value is Ok,
    ensures
        ({
            let target = ternary(ts, pos);
            let left = target.value->Ok_0;
            let p = resume(ts, target, pos);
            let value = assignment(ts, step(ts, p));
            if left is Variable && check(ts, p, TokenValue::Equal) {
                value.value is Ok ==> assignment(ts, pos) == done(
                    ExprView::Assignment(left->Variable_0, Box::new(value.value->Ok_0)),
                    value.next,
                )
            } else {
                assignment(ts, pos) == done(left, p)
            }
        }),
{
    reveal(assignment);
    reveal(ternary);
}

/// The operators of a binary level group from the left: what was read so
/// far becomes the left operand of the next operator.
pub proof fn lemma_binary_groups_from_the_left(
    ts: Seq<TokenView>,
    pos: int,
    level: nat,
    left: ExprView,
)
    requires
        valid(ts, pos),
        level >= 1,
        is_operator(level, kind(ts, pos)),
        operand(ts, step(ts, pos), level).value is Ok,
    ensures
        ({
            let right = operand(ts, step(ts, pos), level);
            binary_rest(ts, pos, level, left) == binary_rest(
                ts,
                resume(ts, right, pos + 1),
                level,
                binary_node(level, ts[pos], left, right.value->Ok_0),
            )
        }),
{
    reveal(binary_rest);
    reveal(operand);
}

/// The statements and the errors of a parse.
pub struct Parsing {
    pub statements: Seq<StmtView>,
    pub errors: Seq<ErrorView>,
}

/// Everything the parser finds in `ts` from `pos` on: the statements that
/// parse, and the error of each that does not.
#[verifier::opaque]
pub open spec fn parse_from(ts: Seq<TokenView>, pos: int) -> Parsing
    decreases ts.len() - pos,
    when valid(ts, pos)
{
    if at_end(ts, pos) {
        Parsing { statements: Seq::empty(), errors: Seq::empty() }
    } else {
        let first = statement(ts, pos);
        let rest = parse_from(ts, resume(ts, first, pos + 1));
        match first.value {
            Ok(s) => Parsing { statements: seq![s] + rest.statements, errors: rest.errors },
            Err(e) => Parsing { statements: rest.statements, errors: seq![e] + rest.errors },
        }
    }
}

/// What parsing all of `ts` yields.
pub open spec fn parse_all(ts: Seq<TokenView>) -> Parsing {
    parse_from(ts, 0)
}

} // verus!
