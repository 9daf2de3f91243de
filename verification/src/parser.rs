//! The parser: tokens to statements, by recursive descent.
//!
//! Every method reads one construct of the grammar and is proved to yield
//! what the function of the same name in [`crate::grammar`] says.  The
//! methods call each other in a cycle, and each is checked by a prover
//! of its own, so that no proof weighs on the next.

use vstd::prelude::*;
use vstd::string::*;

use crate::ast::{
    expr_views, lemma_view_of_block, lemma_view_of_variable, lemma_views_of_lists, stmt_views, Expr, ExprView, Literal,
    Stmt, StmtView,
};
use crate::error::{error_views, Error, ErrorView};
use crate::grammar;
use crate::grammar::{after, at_end, done, kind, step, terminated, valid, Parsed, Parsing};
use crate::text::canonical_string;
use crate::token::{token_views, Token, TokenValue, TokenView};

verus! {

/// What a method that reads an expression handed back, as the grammar
/// names it.
pub open spec fn expr_outcome(r: Result<Expr, Error>) -> Result<ExprView, ErrorView> {
    match r {
        Ok(e) => Ok(e@),
        Err(e) => Err(e@),
    }
}

/// What a method that reads a statement handed back.
pub open spec fn stmt_outcome(r: Result<Stmt, Error>) -> Result<StmtView, ErrorView> {
    match r {
        Ok(s) => Ok(s@),
        Err(e) => Err(e@),
    }
}

/// What a method that reads an expression list handed back.
pub open spec fn exprs_outcome(r: Result<Vec<Expr>, Error>) -> Result<Seq<ExprView>, ErrorView> {
    match r {
        Ok(v) => Ok(expr_views(v@)),
        Err(e) => Err(e@),
    }
}

/// What a method that reads a statement list handed back.
pub open spec fn stmts_outcome(r: Result<Vec<Stmt>, Error>) -> Result<Seq<StmtView>, ErrorView> {
    match r {
        Ok(v) => Ok(stmt_views(v@)),
        Err(e) => Err(e@),
    }
}

/// What a method that reads a token list handed back.
pub open spec fn tokens_outcome(r: Result<Vec<Token>, Error>) -> Result<Seq<TokenView>, ErrorView> {
    match r {
        Ok(v) => Ok(token_views(v@)),
        Err(e) => Err(e@),
    }
}

/// What a method that reads one token handed back.
pub open spec fn token_outcome(r: Result<&Token, Error>) -> Result<TokenView, ErrorView> {
    match r {
        Ok(t) => Ok(t@),
        Err(e) => Err(e@),
    }
}

/// Whether `r` hands out the statements of `p` if it found no error, and
/// else its errors.
pub open spec fn is_outcome(r: Result<Vec<Stmt>, Vec<Error>>, p: Parsing) -> bool {
    match r {
        Ok(statements) => p.errors.len() == 0 && stmt_views(statements@) == p.statements,
        Err(errors) => p.errors.len() > 0 && error_views(errors@) == p.errors,
    }
}

proof fn lemma_after_after<T>(first: Seq<T>, x: T, r: Parsed<Seq<T>>)
    ensures
        after(first, after(seq![x], r)) == after(first.push(x), r),
{
    match r.value {
        Ok(rest) => {
            assert(first + (seq![x] + rest) =~= first.push(x) + rest);
        },
        Err(_) => {},
    }
}

proof fn lemma_after_done<T>(first: Seq<T>, x: T, next: int)
    ensures
        after(first, done(seq![x], next)) == done(first.push(x), next),
        after(first, done(Seq::<T>::empty(), next)) == done(first, next),
        after(Seq::<T>::empty(), done(first, next)) == done(first, next),
{
    assert(first + seq![x] =~= first.push(x));
    assert(first + Seq::<T>::empty() =~= first);
    assert(Seq::<T>::empty() + first =~= first);
}

proof fn lemma_after_nothing<T>(r: Parsed<Seq<T>>)
    ensures
        after(Seq::<T>::empty(), r) == r,
{
    match r.value {
        Ok(rest) => {
            assert(Seq::<T>::empty() + rest =~= rest);
        },
        Err(_) => {},
    }
}

/// A parser over one token sequence.
pub struct Parser<'a> {
    tokens: &'a [Token],
    current: usize,
}

impl<'a> Parser<'a> {
    /// The tokens that the parser reads.
    pub closed spec fn tokens(&self) -> Seq<TokenView> {
        token_views(self.tokens@)
    }

    /// The position of the next token to read.
    pub closed spec fn position(&self) -> int {
        self.current as int
    }

    /// The tokens end with the end-of-input marker and the parser stands
    /// on one of them.
    pub closed spec fn wf(&self) -> bool {
        valid(self.tokens(), self.current as int)
    }

    /// `self` is `before` after it read what the grammar calls `spec` and
    /// handed back `value`: it stands where the grammar says, which is
    /// not before where it stood, and behind that if there was a token
    /// to read.
    pub closed spec fn read<T>(
        self,
        before: Parser<'a>,
        spec: Parsed<T>,
        value: Result<T, ErrorView>,
    ) -> bool {
        &&& self.tokens == before.tokens
        &&& self.wf()
        &&& self.current == spec.next
        &&& value == spec.value
        &&& before.current <= self.current
        &&& !at_end(before.tokens(), before.current as int) ==> before.current < self.current
    }

    /// The number of tokens from the position to the end.
    pub closed spec fn left(self) -> int {
        self.tokens@.len() - self.current
    }

    /// A parser at the start of `tokens`, which end with the end-of-input
    /// marker.
    pub fn new(tokens: &'a [Token]) -> (p: Parser<'a>)
        requires
            terminated(token_views(tokens@)),
        ensures
            p.wf(),
            p.tokens() == token_views(tokens@),
            p.position() == 0,
    {
        Parser { tokens, current: 0 }
    }

    /// Parses the tokens from the position on.  Returns the statements
    /// if each of them parsed, and else the error of each that did not.
    #[verifier::spinoff_prover]
    pub fn parse(&mut self) -> (r: Result<Vec<Stmt>, Vec<Error>>)
        requires
            old(self).wf(),
        ensures
            final(self).wf(),
            final(self).tokens() == old(self).tokens(),
            at_end(final(self).tokens(), final(self).position()),
            is_outcome(r, grammar::parse_from(old(self).tokens(), old(self).position())),
    {
        proof {
            reveal(grammar::parse_from);
        }
        let mut statements: Vec<Stmt> = Vec::new();
        let mut errors: Vec<Error> = Vec::new();
        let ghost ts = self.tokens();
        let ghost all = grammar::parse_from(ts, self.current as int);

        while !self.is_at_end()
            invariant
                self.wf(),
                self.tokens == old(self).tokens,
                self.tokens() == ts,
                all.statements == stmt_views(statements@) + grammar::parse_from(
                    ts,
                    self.current as int,
                ).statements,
                all.errors == error_views(errors@) + grammar::parse_from(
                    ts,
                    self.current as int,
                ).errors,
            decreases self.left(),
        {
            proof {
                reveal(grammar::parse_from);
            }
            let ghost p = self.current as int;
            let ghost parsed = stmt_views(statements@);
            let ghost failed = error_views(errors@);
            match self.statement() {
                Ok(stmt) => {
                    statements.push(stmt);
                    let ghost rest = grammar::parse_from(ts, self.current as int);
                    assert(stmt_views(statements@) + rest.statements == parsed + (seq![stmt@]
                        + rest.statements));
                },
                Err(error) => {
                    errors.push(error);
                    let ghost rest = grammar::parse_from(ts, self.current as int);
                    assert(error_views(errors@) + rest.errors == failed + (seq![error@]
                        + rest.errors));
                },
            }
        }
        assert(all.statements == stmt_views(statements@));
        assert(all.errors == error_views(errors@));
        if errors.len() == 0 {
            Ok(statements)
        } else {
            Err(errors)
        }
    }

    /// Reads a statement.  Where it fails, moves on to the next statement
    /// boundary.
    #[verifier::spinoff_prover]
    fn statement(&mut self) -> (r: Result<Stmt, Error>)
        requires
            old(self).wf(),
        ensures
            final(self).read(
                *old(self),
                grammar::statement(old(self).tokens(), old(self).position()),
                stmt_outcome(r),
            ),
        decreases old(self).left(), 31nat,
    {
        proof {
            reveal(grammar::statement);
            reveal(grammar::statement_body);
        }
        let r = match self.peek().val {
            TokenValue::LeftBrace => self.block_statement(),
            TokenValue::Break => self.break_statement(),
            TokenValue::If => self.if_statement(),
            TokenValue::Let => self.let_statement(),
            TokenValue::Print => self.print_statement(),
            TokenValue::Return => self.return_statement(),
            TokenValue::While => self.while_statement(),
            _ => self.expression_statement(),
        };
        match r {
            Ok(stmt) => Ok(stmt),
            Err(e) => {
                self.synchronize();
                Err(e)
            },
        }
    }

    /// Moves on to the next statement boundary: behind a `;`, or to an
    /// `if`, `let`, `print` or `while`, or to the end.
    #[verifier::spinoff_prover]
    fn synchronize(&mut self)
        requires
            old(self).wf(),
        ensures
            final(self).wf(),
            final(self).tokens == old(self).tokens,
            final(self).current == grammar::synchronize(
                old(self).tokens(),
                old(self).position(),
            ),
            old(self).current <= final(self).current,
    {
        proof {
            reveal(grammar::synchronize);
        }
        while !self.is_at_end()
            invariant
                self.wf(),
                self.tokens == old(self).tokens,
                old(self).current <= self.current,
                grammar::synchronize(old(self).tokens(), old(self).position())
                    == grammar::synchronize(self.tokens(), self.position()),
            decreases self.left(),
        {
            proof {
                reveal(grammar::synchronize);
            }
            if self.current > 0 && self.previous().val == TokenValue::Semicolon {
                return ;
            }
            let next = self.peek().val;
            if next == TokenValue::If || next == TokenValue::Let || next == TokenValue::Print
                || next == TokenValue::While {
                return ;
            }
            self.advance();
        }
    }

    #[verifier::spinoff_prover]
    fn block_statement(&mut self) -> (r: Result<Stmt, Error>)
        requires
            old(self).wf(),
            !at_end(old(self).tokens(), old(self).position()),
        ensures
            final(self).read(
                *old(self),
                grammar::block_statement(old(self).tokens(), old(self).position()),
                stmt_outcome(r),
            ),
        decreases old(self).left(), 29nat,
    {
        proof {
            reveal(grammar::block_statement);
        }
        self.advance();
        let statements = self.block()?;
        self.consume(TokenValue::RightBrace, "Right brace expected.")?;
        let stmt = Stmt::Block(statements);
        proof {
            lemma_view_of_block(stmt);
        }
        Ok(stmt)
    }

    /// Reads the statements up to a closing brace or the end.
    #[verifier::spinoff_prover]
    fn block(&mut self) -> (r: Result<Vec<Stmt>, Error>)
        requires
            old(self).wf(),
        ensures
            final(self).tokens == old(self).tokens,
            final(self).wf(),
            final(self).current == grammar::block(old(self).tokens(), old(self).position()).next,
            stmts_outcome(r) == grammar::block(old(self).tokens(), old(self).position()).value,
            old(self).current <= final(self).current,
        decreases old(self).left(), 32nat,
    {
        proof {
            reveal(grammar::block);
        }
        let mut statements: Vec<Stmt> = Vec::new();
        let ghost ts = self.tokens();
        let ghost whole = grammar::block(ts, self.current as int);
        proof {
            lemma_after_nothing(whole);
        }
        while !self.check(TokenValue::RightBrace) && !self.is_at_end()
            invariant
                self.wf(),
                self.tokens == old(self).tokens,
                self.tokens() == ts,
                old(self).current <= self.current,
                whole == after(stmt_views(statements@), grammar::block(ts, self.current as int)),
                whole == grammar::block(ts, old(self).current as int),
            decreases self.left(),
        {
            proof {
                reveal(grammar::block);
            }
            let ghost read = stmt_views(statements@);
            let ghost p = self.current as int;
            let stmt = self.statement()?;
            proof {
                lemma_after_after(read, stmt@, grammar::block(ts, self.current as int));
            }
            statements.push(stmt);
            assert(stmt_views(statements@) =~= read.push(stmt@));
        }
        proof {
            lemma_after_done(stmt_views(statements@), arbitrary(), self.current as int);
        }
        Ok(statements)
    }

    #[verifier::spinoff_prover]
    fn break_statement(&mut self) -> (r: Result<Stmt, Error>)
        requires
            old(self).wf(),
            !at_end(old(self).tokens(), old(self).position()),
        ensures
            final(self).read(
                *old(self),
                grammar::break_statement(old(self).tokens(), old(self).position()),
                stmt_outcome(r),
            ),
        decreases old(self).left(), 28nat,
    {
        proof {
            reveal(grammar::break_statement);
        }
        let token = self.peek().clone();
        self.advance();
        if Self::starts_expression(self.peek().val) {
            let expr = self.expression()?;
            self.consume(TokenValue::Semicolon, "Semicolon expected.")?;
            Ok(Stmt::Break(token, Some(Box::new(expr))))
        } else {
            self.consume(TokenValue::Semicolon, "Semicolon expected.")?;
            Ok(Stmt::Break(token, None))
        }
    }

    /// Whether a token of category `k` can start an expression.
    fn starts_expression(k: TokenValue) -> (b: bool)
        ensures
            b == grammar::starts_expression(k),
    {
        k == TokenValue::Number || k == TokenValue::True || k == TokenValue::False || k
            == TokenValue::Identifier || k == TokenValue::LeftParen || k == TokenValue::Function
            || k == TokenValue::Minus
    }

    /// Reads `( condition )` behind the keyword at the position.
    #[verifier::spinoff_prover]
    fn condition(&mut self) -> (r: Result<Expr, Error>)
        requires
            old(self).wf(),
            !at_end(old(self).tokens(), old(self).position()),
        ensures
            final(self).read(
                *old(self),
                grammar::condition(old(self).tokens(), old(self).position()),
                expr_outcome(r),
            ),
        decreases old(self).left(), 28nat,
    {
        proof {
            reveal(grammar::condition);
        }
        self.advance();
        self.consume(TokenValue::LeftParen, "Left paren expected.")?;
        let condition = self.expression()?;
        self.consume(TokenValue::RightParen, "Right paren expected.")?;
        Ok(condition)
    }

    #[verifier::spinoff_prover]
    fn if_statement(&mut self) -> (r: Result<Stmt, Error>)
        requires
            old(self).wf(),
            !at_end(old(self).tokens(), old(self).position()),
        ensures
            final(self).read(
                *old(self),
                grammar::if_statement(old(self).tokens(), old(self).position()),
                stmt_outcome(r),
            ),
        decreases old(self).left(), 29nat,
    {
        proof {
            reveal(grammar::if_statement);
        }
        let condition = self.condition()?;
        let consequence = self.statement()?;
        let mut alternative: Option<Box<Stmt>> = None;
        if self.peek().val == TokenValue::Else {
            self.advance();
            alternative = Some(Box::new(self.statement()?));
        }
        Ok(Stmt::If(Box::new(condition), Box::new(consequence), alternative))
    }

    #[verifier::spinoff_prover]
    fn let_statement(&mut self) -> (r: Result<Stmt, Error>)
        requires
            old(self).wf(),
            !at_end(old(self).tokens(), old(self).position()),
        ensures
            final(self).read(
                *old(self),
                grammar::let_statement(old(self).tokens(), old(self).position()),
                stmt_outcome(r),
            ),
        decreases old(self).left(), 28nat,
    {
        proof {
            reveal(grammar::let_statement);
        }
        self.advance();
        let name = self.consume(TokenValue::Identifier, "Variable expected.")?.clone();
        self.initializer(name)
    }

    /// Reads what follows the name of a `let`.
    #[verifier::spinoff_prover]
    fn initializer(&mut self, name: Token) -> (r: Result<Stmt, Error>)
        requires
            old(self).wf(),
        ensures
            final(self).tokens == old(self).tokens,
            final(self).wf(),
            final(self).current == grammar::initializer(
                old(self).tokens(),
                old(self).position(),
                name@,
            ).next,
            stmt_outcome(r) == grammar::initializer(
                old(self).tokens(),
                old(self).position(),
                name@,
            ).value,
            old(self).current <= final(self).current,
        decreases old(self).left(), 27nat,
    {
        proof {
            reveal(grammar::initializer);
        }
        if self.check(TokenValue::Equal) {
            self.advance();
            let expr = self.expression()?;
            self.consume(TokenValue::Semicolon, "Semicolon expected.")?;
            Ok(Stmt::Let(name, Box::new(expr)))
        } else {
            self.consume(TokenValue::Semicolon, "Semicolon expected.")?;
            let expr = Expr::Literal(Literal::Undefined);
            assert(expr@ == ExprView::Literal(crate::ast::LiteralView::Undefined));
            Ok(Stmt::Let(name, Box::new(expr)))
        }
    }

    #[verifier::spinoff_prover]
    fn print_statement(&mut self) -> (r: Result<Stmt, Error>)
        requires
            old(self).wf(),
            !at_end(old(self).tokens(), old(self).position()),
        ensures
            final(self).read(
                *old(self),
                grammar::print_statement(old(self).tokens(), old(self).position()),
                stmt_outcome(r),
            ),
        decreases old(self).left(), 28nat,
    {
        proof {
            reveal(grammar::print_statement);
        }
        self.advance();
        let expr = self.expression()?;
        self.consume(TokenValue::Semicolon, "Semicolon expected.")?;
        Ok(Stmt::Print(Box::new(expr)))
    }

    #[verifier::spinoff_prover]
    fn return_statement(&mut self) -> (r: Result<Stmt, Error>)
        requires
            old(self).wf(),
            !at_end(old(self).tokens(), old(self).position()),
        ensures
            final(self).read(
                *old(self),
                grammar::return_statement(old(self).tokens(), old(self).position()),
                stmt_outcome(r),
            ),
        decreases old(self).left(), 28nat,
    {
        proof {
            reveal(grammar::return_statement);
        }
        self.advance();
        if Self::starts_expression(self.peek().val) {
            let expr = self.expression()?;
            self.consume(TokenValue::Semicolon, "Semicolon expected.")?;
            Ok(Stmt::Return(Some(Box::new(expr))))
        } else {
            self.consume(TokenValue::Semicolon, "Semicolon expected.")?;
            Ok(Stmt::Return(None))
        }
    }

    #[verifier::spinoff_prover]
    fn while_statement(&mut self) -> (r: Result<Stmt, Error>)
        requires
            old(self).wf(),
            !at_end(old(self).tokens(), old(self).position()),
        ensures
            final(self).read(
                *old(self),
                grammar::while_statement(old(self).tokens(), old(self).position()),
                stmt_outcome(r),
            ),
        decreases old(self).left(), 29nat,
    {
        proof {
            reveal(grammar::while_statement);
        }
        let condition = self.condition()?;
        let statement = self.statement()?;
        Ok(Stmt::While(Box::new(condition), Box::new(statement)))
    }

    #[verifier::spinoff_prover]
    fn expression_statement(&mut self) -> (r: Result<Stmt, Error>)
        requires
            old(self).wf(),
        ensures
            final(self).read(
                *old(self),
                grammar::expression_statement(old(self).tokens(), old(self).position()),
                stmt_outcome(r),
            ),
        decreases old(self).left(), 28nat,
    {
        proof {
            reveal(grammar::expression_statement);
        }
        let expr = self.expression()?;
        self.consume(TokenValue::Semicolon, "Semicolon expected.")?;
        Ok(Stmt::Expression(Box::new(expr)))
    }

    #[verifier::spinoff_prover]
    fn expression(&mut self) -> (r: Result<Expr, Error>)
        requires
            old(self).wf(),
        ensures
            final(self).read(
                *old(self),
                grammar::expression(old(self).tokens(), old(self).position()),
                expr_outcome(r),
            ),
        decreases old(self).left(), 26nat,
    {
        proof {
            reveal(grammar::expression);
        }
        self.assignment()
    }

    #[verifier::spinoff_prover]
    fn assignment(&mut self) -> (r: Result<Expr, Error>)
        requires
            old(self).wf(),
        ensures
            final(self).read(
                *old(self),
                grammar::assignment(old(self).tokens(), old(self).position()),
                expr_outcome(r),
            ),
        decreases old(self).left(), 25nat,
    {
        proof {
            reveal(grammar::assignment);
        }
        let var = self.ternary()?;
        proof {
            lemma_view_of_variable(var);
        }
        match var {
            Expr::Variable(token) => {
                if self.check(TokenValue::Equal) {
                    self.advance();
                    let expr = self.assignment()?;
                    Ok(Expr::Assignment(token, Box::new(expr)))
                } else {
                    Ok(Expr::Variable(token))
                }
            },
            _ => Ok(var),
        }
    }

    #[verifier::spinoff_prover]
    fn ternary(&mut self) -> (r: Result<Expr, Error>)
        requires
            old(self).wf(),
        ensures
            final(self).read(
                *old(self),
                grammar::ternary(old(self).tokens(), old(self).position()),
                expr_outcome(r),
            ),
        decreases old(self).left(), 24nat,
    {
        proof {
            reveal(grammar::ternary);
        }
        let first = self.or()?;
        if self.peek().val == TokenValue::Question {
            let op = self.advance().clone();
            let second = self.ternary()?;
            self.consume(TokenValue::Colon, "Colon expected.")?;
            let third = self.ternary()?;
            Ok(Expr::Ternary(op, Box::new(first), Box::new(second), Box::new(third)))
        } else {
            Ok(first)
        }
    }

    #[verifier::spinoff_prover]
    fn or(&mut self) -> (r: Result<Expr, Error>)
        requires
            old(self).wf(),
        ensures
            final(self).read(
                *old(self),
                grammar::binary(old(self).tokens(), old(self).position(), 4),
                expr_outcome(r),
            ),
        decreases old(self).left(), 23nat,
    {
        self.binary(4)
    }

    #[verifier::spinoff_prover]
    fn and(&mut self) -> (r: Result<Expr, Error>)
        requires
            old(self).wf(),
        ensures
            final(self).read(
                *old(self),
                grammar::binary(old(self).tokens(), old(self).position(), 3),
                expr_outcome(r),
            ),
        decreases old(self).left(), 19nat,
    {
        self.binary(3)
    }

    #[verifier::spinoff_prover]
    fn term(&mut self) -> (r: Result<Expr, Error>)
        requires
            old(self).wf(),
        ensures
            final(self).read(
                *old(self),
                grammar::binary(old(self).tokens(), old(self).position(), 2),
                expr_outcome(r),
            ),
        decreases old(self).left(), 15nat,
    {
        self.binary(2)
    }

    #[verifier::spinoff_prover]
    fn factor(&mut self) -> (r: Result<Expr, Error>)
        requires
            old(self).wf(),
        ensures
            final(self).read(
                *old(self),
                grammar::binary(old(self).tokens(), old(self).position(), 1),
                expr_outcome(r),
            ),
        decreases old(self).left(), 11nat,
    {
        self.binary(1)
    }

    /// Reads an operand of the binary level `level`.
    #[verifier::spinoff_prover]
    fn operand(&mut self, level: usize) -> (r: Result<Expr, Error>)
        requires
            old(self).wf(),
            1 <= level <= 4,
        ensures
            final(self).read(
                *old(self),
                grammar::operand(old(self).tokens(), old(self).position(), level as nat),
                expr_outcome(r),
            ),
        decreases old(self).left(), 4 * level + 4,
    {
        proof {
            reveal(grammar::operand);
        }
        if level == 4 {
            let r = self.and();
            r
        } else if level == 3 {
            self.term()
        } else if level == 2 {
            self.factor()
        } else {
            self.unary()
        }
    }

    /// Reads the operands of the binary level `level` and groups them
    /// from the left: 4 is `||`, 3 is `&&`, 2 is `+ -`, 1 is `* /`.
    #[verifier::spinoff_prover]
    fn binary(&mut self, level: usize) -> (r: Result<Expr, Error>)
        requires
            old(self).wf(),
            1 <= level <= 4,
        ensures
            final(self).read(
                *old(self),
                grammar::binary(old(self).tokens(), old(self).position(), level as nat),
                expr_outcome(r),
            ),
        decreases old(self).left(), 4 * level + 6,
    {
        proof {
            reveal(grammar::binary);
            reveal(grammar::binary_rest);
        }
        let ghost ts = self.tokens();
        let ghost whole = grammar::binary(ts, self.current as int, level as nat);
        let mut left = self.operand(level)?;
        loop
            invariant
                self.wf(),
                self.tokens == old(self).tokens,
                self.tokens() == ts,
                1 <= level <= 4,
                old(self).current <= self.current,
                !at_end(ts, old(self).current as int) ==> old(self).current < self.current,
                whole == grammar::binary_rest(ts, self.current as int, level as nat, left@),
                whole == grammar::binary(ts, old(self).current as int, level as nat),
            decreases self.left(),
        {
            proof {
                reveal(grammar::binary);
                reveal(grammar::binary_rest);
            }
            if Self::is_operator(level, self.peek().val) {
                let op = self.advance().clone();
                let right = self.operand(level)?;
                left = if level >= 3 {
                    Expr::Logical(op, Box::new(left), Box::new(right))
                } else {
                    Expr::Binary(op, Box::new(left), Box::new(right))
                };
            } else {
                return Ok(left);
            }
        }
    }

    /// Whether `k` is an operator of the binary level `level`.
    fn is_operator(level: usize, k: TokenValue) -> (b: bool)
        ensures
            b == grammar::is_operator(level as nat, k),
    {
        if level == 4 {
            k == TokenValue::Or
        } else if level == 3 {
            k == TokenValue::And
        } else if level == 2 {
            k == TokenValue::Plus || k == TokenValue::Minus
        } else {
            k == TokenValue::Star || k == TokenValue::Slash
        }
    }

    #[verifier::spinoff_prover]
    fn unary(&mut self) -> (r: Result<Expr, Error>)
        requires
            old(self).wf(),
        ensures
            final(self).read(
                *old(self),
                grammar::unary(old(self).tokens(), old(self).position()),
                expr_outcome(r),
            ),
        decreases old(self).left(), 4nat,
    {
        proof {
            reveal(grammar::unary);
        }
        if self.peek().val == TokenValue::Minus {
            let op = self.advance().clone();
            let right = self.call()?;
            Ok(Expr::Unary(op, Box::new(right)))
        } else {
            self.call()
        }
    }

    #[verifier::spinoff_prover]
    fn call(&mut self) -> (r: Result<Expr, Error>)
        requires
            old(self).wf(),
        ensures
            final(self).read(
                *old(self),
                grammar::call(old(self).tokens(), old(self).position()),
                expr_outcome(r),
            ),
        decreases old(self).left(), 3nat,
    {
        proof {
            reveal(grammar::call);
            reveal(grammar::call_rest);
        }
        let ghost ts = self.tokens();
        let ghost whole = grammar::call(ts, self.current as int);
        let mut expr = self.primary()?;
        while self.check(TokenValue::LeftParen)
            invariant
                self.wf(),
                self.tokens == old(self).tokens,
                self.tokens() == ts,
                old(self).current <= self.current,
                !at_end(ts, old(self).current as int) ==> old(self).current < self.current,
                whole == grammar::call_rest(ts, self.current as int, expr@),
                whole == grammar::call(ts, old(self).current as int),
            decreases self.left(),
        {
            proof {
                reveal(grammar::call);
                reveal(grammar::call_rest);
            }
            let token = self.peek().clone();
            self.advance();
            let args = self.arguments()?;
            expr = Expr::Call(token, Box::new(expr), args);
            proof {
                lemma_views_of_lists(expr);
            }
        }
        Ok(expr)
    }

    /// Reads the arguments of a call, behind its opening parenthesis.
    #[verifier::spinoff_prover]
    fn arguments(&mut self) -> (r: Result<Vec<Expr>, Error>)
        requires
            old(self).wf(),
        ensures
            final(self).tokens == old(self).tokens,
            final(self).wf(),
            final(self).current == grammar::arguments(
                old(self).tokens(),
                old(self).position(),
            ).next,
            exprs_outcome(r) == grammar::arguments(old(self).tokens(), old(self).position()).value,
            old(self).current <= final(self).current,
        decreases old(self).left(), 27nat,
    {
        proof {
            reveal(grammar::arguments);
        }
        let mut args: Vec<Expr> = Vec::new();
        let ghost ts = self.tokens();
        let ghost whole = grammar::arguments(ts, self.current as int);
        proof {
            lemma_after_nothing(whole);
        }
        while !self.check(TokenValue::RightParen)
            invariant
                self.wf(),
                self.tokens == old(self).tokens,
                self.tokens() == ts,
                old(self).current <= self.current,
                whole == after(expr_views(args@), grammar::arguments(ts, self.current as int)),
                whole == grammar::arguments(ts, old(self).current as int),
            decreases self.left(),
        {
            proof {
                reveal(grammar::arguments);
            }
            let ghost read = expr_views(args@);
            if self.is_at_end() {
                return Err(Error::from_token(self.peek(), "No closing parenthesis."));
            }
            let expr = self.expression()?;
            let ghost p = self.current as int;
            args.push(expr);
            assert(expr_views(args@) =~= read.push(expr@));
            if !self.check(TokenValue::RightParen) {
                if self.is_at_end() {
                    return Err(Error::from_token(self.peek(), "No closing parenthesis."));
                }
                self.consume(TokenValue::Comma, "Comma expected.")?;
                proof {
                    lemma_after_after(read, expr@, grammar::arguments(ts, self.current as int));
                }
            } else {
                proof {
                    lemma_after_done(read, expr@, step(ts, p));
                    lemma_after_done(read.push(expr@), expr@, step(ts, p));
                }
            }
        }
        proof {
            lemma_after_done(expr_views(args@), arbitrary(), step(ts, self.current as int));
        }
        self.advance();
        Ok(args)
    }

    #[verifier::spinoff_prover]
    fn primary(&mut self) -> (r: Result<Expr, Error>)
        requires
            old(self).wf(),
        ensures
            final(self).read(
                *old(self),
                grammar::primary(old(self).tokens(), old(self).position()),
                expr_outcome(r),
            ),
        decreases old(self).left(), 2nat,
    {
        proof {
            reveal(grammar::primary);
        }
        let token = self.advance();
        match token.val {
            TokenValue::Number => Ok(
                Expr::Literal(Literal::Number(canonical_string(token.lexeme.as_str()))),
            ),
            TokenValue::LeftParen => {
                let expr = self.expression()?;
                self.consume(TokenValue::RightParen, "Right paren expected")?;
                Ok(Expr::Grouping(Box::new(expr)))
            },
            TokenValue::Function => self.function(),
            TokenValue::Identifier => Ok(Expr::Variable(token.clone())),
            TokenValue::True => Ok(Expr::Literal(Literal::Bool(true))),
            TokenValue::False => Ok(Expr::Literal(Literal::Bool(false))),
            _ => {
                let mut msg = String::from_str("Expression expected, found `");
                msg.append(token.val.symbol());
                msg.append("`");
                Err(Error::from_token(token, msg.as_str()))
            },
        }
    }

    /// Reads a function literal, behind its keyword.
    #[verifier::spinoff_prover]
    fn function(&mut self) -> (r: Result<Expr, Error>)
        requires
            old(self).wf(),
        ensures
            final(self).tokens == old(self).tokens,
            final(self).wf(),
            final(self).current == grammar::function(old(self).tokens(), old(self).position()).next,
            expr_outcome(r) == grammar::function(old(self).tokens(), old(self).position()).value,
            old(self).current <= final(self).current,
        decreases old(self).left(), 1nat,
    {
        proof {
            reveal(grammar::function);
        }
        self.consume(TokenValue::LeftParen, "Left parenthesis expected")?;
        let parameters = self.parameters()?;
        self.consume(TokenValue::LeftBrace, "Left brace expected")?;
        let statements = self.block()?;
        self.consume(TokenValue::RightBrace, "Right brace expected.")?;
        let expr = Expr::Function(parameters, statements);
        proof {
            lemma_views_of_lists(expr);
        }
        Ok(expr)
    }

    /// Reads the parameter names of a function literal, behind its
    /// opening parenthesis, and the closing parenthesis.
    #[verifier::spinoff_prover]
    fn parameters(&mut self) -> (r: Result<Vec<Token>, Error>)
        requires
            old(self).wf(),
        ensures
            final(self).tokens == old(self).tokens,
            final(self).wf(),
            final(self).current == grammar::parameters(
                old(self).tokens(),
                old(self).position(),
            ).next,
            tokens_outcome(r) == grammar::parameters(old(self).tokens(), old(self).position()).value,
            old(self).current <= final(self).current,
    {
        let mut parameters: Vec<Token> = Vec::new();
        let ghost ts = self.tokens();
        let ghost whole = grammar::parameters(ts, self.current as int);
        if self.check(TokenValue::RightParen) {
            self.advance();
            assert(token_views(parameters@) =~= Seq::empty());
            return Ok(parameters);
        }
        proof {
            lemma_after_nothing(whole);
        }
        loop
            invariant
                self.wf(),
                self.tokens == old(self).tokens,
                self.tokens() == ts,
                old(self).current <= self.current,
                whole == after(
                    token_views(parameters@),
                    grammar::parameter_list(ts, self.current as int),
                ),
                whole == grammar::parameters(ts, old(self).current as int),
            decreases self.left(),
        {
            proof {
                reveal(grammar::parameter_list);
            }
            let ghost read = token_views(parameters@);
            let ghost p = self.current as int;
            if self.is_at_end() {
                return Err(Error::from_token(self.peek(), "Right paren expected."));
            }
            let name = self.consume(TokenValue::Identifier, "Identifier expected.")?.clone();
            parameters.push(name);
            assert(token_views(parameters@) =~= read.push(ts[p]));
            if self.check(TokenValue::Comma) {
                self.advance();
                proof {
                    lemma_after_after(
                        read,
                        ts[p],
                        grammar::parameter_list(ts, self.current as int),
                    );
                }
            } else {
                proof {
                    lemma_after_done(read, ts[p], step(ts, self.current as int));
                }
                self.consume(TokenValue::RightParen, "Right paren expected.")?;
                return Ok(parameters);
            }
        }
    }

    /// Reads a token of category `expected`, or fails with `msg` at the
    /// token that stands in its place.
    fn consume(&mut self, expected: TokenValue, msg: &str) -> (r: Result<&'a Token, Error>)
        requires
            old(self).wf(),
        ensures
            final(self).tokens == old(self).tokens,
            final(self).wf(),
            final(self).current == grammar::expect(
                old(self).tokens(),
                old(self).position(),
                expected,
                msg@,
            ).next,
            token_outcome(r) == grammar::expect(
                old(self).tokens(),
                old(self).position(),
                expected,
                msg@,
            ).value,
            old(self).current <= final(self).current,
            r is Ok ==> old(self).current < final(self).current,
    {
        if self.check(expected) {
            Ok(self.advance())
        } else {
            Err(Error::from_token(self.peek(), msg))
        }
    }

    /// Whether a token of category `expected`, and not the end of input,
    /// stands at the position.
    fn check(&self, expected: TokenValue) -> (b: bool)
        requires
            self.wf(),
        ensures
            b == grammar::check(self.tokens(), self.position(), expected),
    {
        if self.is_at_end() {
            false
        } else {
            self.peek().val == expected
        }
    }

    /// Moves to the next token, if there is one, and hands out the token
    /// that stood at the position.
    fn advance(&mut self) -> (t: &'a Token)
        requires
            old(self).wf(),
        ensures
            final(self).tokens == old(self).tokens,
            final(self).wf(),
            final(self).current == step(old(self).tokens(), old(self).position()),
            t@ == old(self).tokens()[old(self).position()],
            old(self).current <= final(self).current,
            !at_end(old(self).tokens(), old(self).position()) ==> old(self).current
                < final(self).current,
    {
        let token = self.peek();
        let count = self.tokens.len();
        if self.current + 1 < count {
            self.current += 1;
        }
        token
    }

    fn is_at_end(&self) -> (b: bool)
        requires
            self.wf(),
        ensures
            b == at_end(self.tokens(), self.position()),
    {
        self.peek().val == TokenValue::EOF
    }

    /// The token at the position.
    fn peek(&self) -> (t: &'a Token)
        requires
            self.wf(),
        ensures
            t@ == self.tokens()[self.position()],
    {
        &self.tokens[self.current]
    }

    /// The token before the position.
    fn previous(&self) -> (t: &'a Token)
        requires
            self.wf(),
            self.current > 0,
        ensures
            t@ == self.tokens()[self.position() - 1],
    {
        &self.tokens[self.current - 1]
    }
}

} // verus!
