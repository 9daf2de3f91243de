//! The syntax tree: expressions and statements, and their mathematical
//! views.

use vstd::prelude::*;
use vstd::string::*;

use crate::token::{token_views, Token, TokenView};

verus! {

/// A literal as it is written in the source.
#[derive(Debug, PartialEq, Eq)]
pub enum Literal {
    /// A number, by its decimal digits without leading zeros.  Which
    /// double-precision number the digits are read as is left to who
    /// evaluates the literal.
    Number(String),
    Bool(bool),
    /// What a `let` without an initializer binds.
    Undefined,
}

/// Mathematical content of a [`Literal`].
pub enum LiteralView {
    Number(Seq<char>),
    Bool(bool),
    Undefined,
}

impl View for Literal {
    type V = LiteralView;

    open spec fn view(&self) -> LiteralView {
        match self {
            Literal::Number(digits) => LiteralView::Number(digits@),
            Literal::Bool(b) => LiteralView::Bool(*b),
            Literal::Undefined => LiteralView::Undefined,
        }
    }
}

impl Clone for Literal {
    fn clone(&self) -> (r: Self)
        ensures
            r@ == self@,
    {
        match self {
            Literal::Number(digits) => Literal::Number(digits.clone()),
            Literal::Bool(b) => Literal::Bool(*b),
            Literal::Undefined => Literal::Undefined,
        }
    }
}

/// An expression.
#[derive(Debug, PartialEq, Eq)]
pub enum Expr {
    /// `name = value`
    Assignment(Token, Box<Expr>),
    /// `left op right`, with an arithmetic operator
    Binary(Token, Box<Expr>, Box<Expr>),
    /// `callee(arguments)`, with the opening parenthesis
    Call(Token, Box<Expr>, Vec<Expr>),
    /// `function (parameters) { statements }`
    Function(Vec<Token>, Vec<Stmt>),
    /// `( expression )`
    Grouping(Box<Expr>),
    Literal(Literal),
    /// `left op right`, with `&&` or `||`
    Logical(Token, Box<Expr>, Box<Expr>),
    /// `first ? second : third`, with the question mark
    Ternary(Token, Box<Expr>, Box<Expr>, Box<Expr>),
    /// `op right`
    Unary(Token, Box<Expr>),
    Variable(Token),
}

/// A statement.
#[derive(Debug, PartialEq, Eq)]
pub enum Stmt {
    Block(Vec<Stmt>),
    /// `break;` or `break value;`, with the keyword
    Break(Token, Option<Box<Expr>>),
    Expression(Box<Expr>),
    /// `if (condition) consequence` with an optional `else alternative`
    If(Box<Expr>, Box<Stmt>, Option<Box<Stmt>>),
    /// `let name = value;`
    Let(Token, Box<Expr>),
    Print(Box<Expr>),
    Return(Option<Box<Expr>>),
    /// `while (condition) body`
    While(Box<Expr>, Box<Stmt>),
}

/// Mathematical content of an [`Expr`].
pub enum ExprView {
    Assignment(TokenView, Box<ExprView>),
    Binary(TokenView, Box<ExprView>, Box<ExprView>),
    Call(TokenView, Box<ExprView>, Seq<ExprView>),
    Function(Seq<TokenView>, Seq<StmtView>),
    Grouping(Box<ExprView>),
    Literal(LiteralView),
    Logical(TokenView, Box<ExprView>, Box<ExprView>),
    Ternary(TokenView, Box<ExprView>, Box<ExprView>, Box<ExprView>),
    Unary(TokenView, Box<ExprView>),
    Variable(TokenView),
}

/// Mathematical content of a [`Stmt`].
pub enum StmtView {
    Block(Seq<StmtView>),
    Break(TokenView, Option<Box<ExprView>>),
    Expression(Box<ExprView>),
    If(Box<ExprView>, Box<StmtView>, Option<Box<StmtView>>),
    Let(TokenView, Box<ExprView>),
    Print(Box<ExprView>),
    Return(Option<Box<ExprView>>),
    While(Box<ExprView>, Box<StmtView>),
}

/// The view of an expression.
pub open spec fn expr_view(e: Expr) -> ExprView
    decreases e,
{
    match e {
        Expr::Assignment(name, value) => ExprView::Assignment(name@, Box::new(expr_view(*value))),
        Expr::Binary(op, left, right) => ExprView::Binary(
            op@,
            Box::new(expr_view(*left)),
            Box::new(expr_view(*right)),
        ),
        Expr::Call(paren, callee, arguments) => ExprView::Call(
            paren@,
            Box::new(expr_view(*callee)),
            Seq::new(
                arguments@.len(),
                |i: int|
                    if 0 <= i < arguments@.len() {
                        expr_view(arguments@[i])
                    } else {
                        arbitrary()
                    },
            ),
        ),
        Expr::Function(parameters, statements) => ExprView::Function(
            token_views(parameters@),
            Seq::new(
                statements@.len(),
                |i: int|
                    if 0 <= i < statements@.len() {
                        stmt_view(statements@[i])
                    } else {
                        arbitrary()
                    },
            ),
        ),
        Expr::Grouping(inner) => ExprView::Grouping(Box::new(expr_view(*inner))),
        Expr::Literal(literal) => ExprView::Literal(literal@),
        Expr::Logical(op, left, right) => ExprView::Logical(
            op@,
            Box::new(expr_view(*left)),
            Box::new(expr_view(*right)),
        ),
        Expr::Ternary(op, first, second, third) => ExprView::Ternary(
            op@,
            Box::new(expr_view(*first)),
            Box::new(expr_view(*second)),
            Box::new(expr_view(*third)),
        ),
        Expr::Unary(op, right) => ExprView::Unary(op@, Box::new(expr_view(*right))),
        Expr::Variable(name) => ExprView::Variable(name@),
    }
}

/// The view of a statement.
pub open spec fn stmt_view(s: Stmt) -> StmtView
    decreases s,
{
    match s {
        Stmt::Block(statements) => StmtView::Block(
            Seq::new(
                statements@.len(),
                |i: int|
                    if 0 <= i < statements@.len() {
                        stmt_view(statements@[i])
                    } else {
                        arbitrary()
                    },
            ),
        ),
        Stmt::Break(keyword, value) => StmtView::Break(
            keyword@,
            match value {
                Some(e) => Some(Box::new(expr_view(*e))),
                None => None,
            },
        ),
        Stmt::Expression(e) => StmtView::Expression(Box::new(expr_view(*e))),
        Stmt::If(condition, consequence, alternative) => StmtView::If(
            Box::new(expr_view(*condition)),
            Box::new(stmt_view(*consequence)),
            match alternative {
                Some(s) => Some(Box::new(stmt_view(*s))),
                None => None,
            },
        ),
        Stmt::Let(name, value) => StmtView::Let(name@, Box::new(expr_view(*value))),
        Stmt::Print(e) => StmtView::Print(Box::new(expr_view(*e))),
        Stmt::Return(value) => StmtView::Return(
            match value {
                Some(e) => Some(Box::new(expr_view(*e))),
                None => None,
            },
        ),
        Stmt::While(condition, body) => StmtView::While(
            Box::new(expr_view(*condition)),
            Box::new(stmt_view(*body)),
        ),
    }
}

impl View for Expr {
    type V = ExprView;

    open spec fn view(&self) -> ExprView {
        expr_view(*self)
    }
}

impl View for Stmt {
    type V = StmtView;

    open spec fn view(&self) -> StmtView {
        stmt_view(*self)
    }
}

/// The views of a sequence of expressions.
pub open spec fn expr_views(exprs: Seq<Expr>) -> Seq<ExprView> {
    Seq::new(exprs.len(), |i: int| exprs[i]@)
}

/// The views of a sequence of statements.
pub open spec fn stmt_views(stmts: Seq<Stmt>) -> Seq<StmtView> {
    Seq::new(stmts.len(), |i: int| stmts[i]@)
}

/// A value at run time.
#[derive(Debug, PartialEq, Eq)]
pub enum Value {
    /// A closure: the parameter names, the body, and the scope in which
    /// the function literal was evaluated.
    Function(Vec<Token>, Vec<Stmt>, usize),
    /// A double-precision number, by its bit pattern.
    Number(u64),
    Bool(bool),
    /// No value, such as what `print` yields.
    Null,
    /// What a variable holds that was declared without an initializer.
    Undefined,
}

/// Mathematical content of a [`Value`].
pub enum ValueView {
    Function(Seq<TokenView>, Seq<StmtView>, usize),
    Number(u64),
    Bool(bool),
    Null,
    Undefined,
}

impl View for Value {
    type V = ValueView;

    open spec fn view(&self) -> ValueView {
        match self {
            Value::Function(parameters, statements, scope) => ValueView::Function(
                token_views(parameters@),
                stmt_views(statements@),
                *scope,
            ),
            Value::Number(bits) => ValueView::Number(*bits),
            Value::Bool(b) => ValueView::Bool(*b),
            Value::Null => ValueView::Null,
            Value::Undefined => ValueView::Undefined,
        }
    }
}

impl Clone for Value {
    fn clone(&self) -> (r: Self)
        ensures
            r@ == self@,
    {
        match self {
            Value::Function(parameters, statements, scope) => Value::Function(
                copy_tokens(parameters),
                copy_stmts(statements),
                *scope,
            ),
            Value::Number(bits) => Value::Number(*bits),
            Value::Bool(b) => Value::Bool(*b),
            Value::Null => Value::Null,
            Value::Undefined => Value::Undefined,
        }
    }
}

/// The lexemes of the first `n` tokens, separated by spaces.
pub open spec fn names_joined(tokens: Seq<TokenView>, n: nat) -> Seq<char>
    decreases n,
{
    if n == 0 || n > tokens.len() {
        Seq::empty()
    } else if n == 1 {
        tokens[0].lexeme
    } else {
        names_joined(tokens, (n - 1) as nat) + " "@ + tokens[n - 1].lexeme
    }
}

/// How a value other than a number is printed: `(function (a b))` for a
/// closure with parameters `a` and `b`, `true`, `false`, `null`,
/// `undefined`.  How a number is printed is left to who can compute with
/// numbers.
pub open spec fn value_text(v: ValueView) -> Option<Seq<char>> {
    match v {
        ValueView::Function(parameters, _, _) => Some(
            "(function ("@ + names_joined(parameters, parameters.len()) + "))"@,
        ),
        ValueView::Number(_) => None,
        ValueView::Bool(b) => Some(
            if b {
                "true"@
            } else {
                "false"@
            },
        ),
        ValueView::Null => Some("null"@),
        ValueView::Undefined => Some("undefined"@),
    }
}

/// The bit that holds the sign of a number.
pub const SIGN: u64 = 0x8000_0000_0000_0000u64;

/// Whether a value counts as true: a number that is not zero (neither
/// `0` nor `-0`), `true`, and every closure.
pub open spec fn truthy(v: ValueView) -> bool {
    match v {
        ValueView::Number(bits) => bits != 0 && bits != SIGN,
        ValueView::Bool(b) => b,
        ValueView::Function(_, _, _) => true,
        ValueView::Null => false,
        ValueView::Undefined => false,
    }
}

impl Value {
    /// How the value is printed, if it is no number.
    pub fn to_text(&self) -> (s: Option<String>)
        ensures
            match s {
                Some(t) => value_text(self@) == Some(t@),
                None => value_text(self@) is None,
            },
    {
        match self {
            Value::Function(parameters, _, _) => {
                let mut s = String::from_str("(function (");
                let ghost head = s@;
                let ghost names = token_views(parameters@);
                let mut i: usize = 0;
                while i < parameters.len()
                    invariant
                        0 <= i <= parameters.len(),
                        names == token_views(parameters@),
                        s@ == head + names_joined(names, i as nat),
                    decreases parameters.len() - i,
                {
                    if i > 0 {
                        s.append(" ");
                    }
                    s.append(parameters[i].lexeme.as_str());
                    i += 1;
                }
                s.append("))");
                Some(s)
            },
            Value::Number(_) => None,
            Value::Bool(b) => Some(
                if *b {
                    String::from_str("true")
                } else {
                    String::from_str("false")
                },
            ),
            Value::Null => Some(String::from_str("null")),
            Value::Undefined => Some(String::from_str("undefined")),
        }
    }

    /// Whether the value counts as true.
    pub fn is_truthy(&self) -> (b: bool)
        ensures
            b == truthy(self@),
    {
        match self {
            Value::Number(bits) => *bits != 0 && *bits != SIGN,
            Value::Bool(b) => *b,
            Value::Function(_, _, _) => true,
            Value::Null => false,
            Value::Undefined => false,
        }
    }
}

/// Unfolds the view of a call's arguments and of a function's statements.
pub proof fn lemma_views_of_lists(e: Expr)
    ensures
        e matches Expr::Call(paren, callee, arguments) ==> e@ == ExprView::Call(
            paren@,
            Box::new(callee@),
            expr_views(arguments@),
        ),
        e matches Expr::Function(parameters, statements) ==> e@ == ExprView::Function(
            token_views(parameters@),
            stmt_views(statements@),
        ),
{
    match e {
        Expr::Call(paren, callee, arguments) => {
            assert(e@->Call_2 =~= expr_views(arguments@));
        },
        Expr::Function(parameters, statements) => {
            assert(e@->Function_1 =~= stmt_views(statements@));
        },
        _ => {},
    }
}

/// An expression is a variable exactly if its view is one.
pub proof fn lemma_view_of_variable(e: Expr)
    ensures
        e is Variable <==> e@ is Variable,
        e matches Expr::Variable(name) ==> e@ == ExprView::Variable(name@),
{
}

/// Unfolds the view of a block's statements.
pub proof fn lemma_view_of_block(s: Stmt)
    ensures
        s matches Stmt::Block(statements) ==> s@ == StmtView::Block(stmt_views(statements@)),
{
    match s {
        Stmt::Block(statements) => {
            assert(s@->Block_0 =~= stmt_views(statements@));
        },
        _ => {},
    }
}

/// A copy of a token list.
pub fn copy_tokens(tokens: &Vec<Token>) -> (r: Vec<Token>)
    ensures
        token_views(r@) == token_views(tokens@),
{
    let mut r: Vec<Token> = Vec::new();
    let mut i: usize = 0;
    while i < tokens.len()
        invariant
            0 <= i <= tokens.len(),
            r.len() == i,
            forall|j: int| 0 <= j < i ==> r@[j]@ == tokens@[j]@,
        decreases tokens.len() - i,
    {
        r.push(tokens[i].clone());
        i += 1;
    }
    assert(token_views(r@) =~= token_views(tokens@));
    r
}

/// A copy of an expression.
pub fn copy_expr(e: &Expr) -> (r: Expr)
    ensures
        r@ == e@,
    decreases e,
{
    match e {
        Expr::Assignment(name, value) => Expr::Assignment(
            name.clone(),
            Box::new(copy_expr(value)),
        ),
        Expr::Binary(op, left, right) => Expr::Binary(
            op.clone(),
            Box::new(copy_expr(left)),
            Box::new(copy_expr(right)),
        ),
        Expr::Call(paren, callee, arguments) => {
            let r = Expr::Call(paren.clone(), Box::new(copy_expr(callee)), copy_exprs(arguments));
            proof {
                lemma_views_of_lists(*e);
                lemma_views_of_lists(r);
            }
            r
        },
        Expr::Function(parameters, statements) => {
            let r = Expr::Function(copy_tokens(parameters), copy_stmts(statements));
            proof {
                lemma_views_of_lists(*e);
                lemma_views_of_lists(r);
            }
            r
        },
        Expr::Grouping(inner) => Expr::Grouping(Box::new(copy_expr(inner))),
        Expr::Literal(literal) => Expr::Literal(literal.clone()),
        Expr::Logical(op, left, right) => Expr::Logical(
            op.clone(),
            Box::new(copy_expr(left)),
            Box::new(copy_expr(right)),
        ),
        Expr::Ternary(op, first, second, third) => Expr::Ternary(
            op.clone(),
            Box::new(copy_expr(first)),
            Box::new(copy_expr(second)),
            Box::new(copy_expr(third)),
        ),
        Expr::Unary(op, right) => Expr::Unary(op.clone(), Box::new(copy_expr(right))),
        Expr::Variable(name) => Expr::Variable(name.clone()),
    }
}

/// A copy of an expression list.
pub fn copy_exprs(exprs: &Vec<Expr>) -> (r: Vec<Expr>)
    ensures
        expr_views(r@) == expr_views(exprs@),
    decreases exprs,
{
    let mut r: Vec<Expr> = Vec::new();
    let mut i: usize = 0;
    while i < exprs.len()
        invariant
            0 <= i <= exprs.len(),
            r.len() == i,
            forall|j: int| 0 <= j < i ==> r@[j]@ == exprs@[j]@,
        decreases exprs.len() - i,
    {
        r.push(copy_expr(&exprs[i]));
        i += 1;
    }
    assert(expr_views(r@) =~= expr_views(exprs@));
    r
}

/// A copy of a statement.
pub fn copy_stmt(s: &Stmt) -> (r: Stmt)
    ensures
        r@ == s@,
    decreases s,
{
    match s {
        Stmt::Block(statements) => {
            let r = Stmt::Block(copy_stmts(statements));
            proof {
                lemma_view_of_block(*s);
                lemma_view_of_block(r);
            }
            r
        },
        Stmt::Break(keyword, value) => Stmt::Break(
            keyword.clone(),
            match value {
                Some(e) => Some(Box::new(copy_expr(e))),
                None => None,
            },
        ),
        Stmt::Expression(e) => Stmt::Expression(Box::new(copy_expr(e))),
        Stmt::If(condition, consequence, alternative) => Stmt::If(
            Box::new(copy_expr(condition)),
            Box::new(copy_stmt(consequence)),
            match alternative {
                Some(a) => Some(Box::new(copy_stmt(a))),
                None => None,
            },
        ),
        Stmt::Let(name, value) => Stmt::Let(name.clone(), Box::new(copy_expr(value))),
        Stmt::Print(e) => Stmt::Print(Box::new(copy_expr(e))),
        Stmt::Return(value) => Stmt::Return(
            match value {
                Some(e) => Some(Box::new(copy_expr(e))),
                None => None,
            },
        ),
        Stmt::While(condition, body) => Stmt::While(
            Box::new(copy_expr(condition)),
            Box::new(copy_stmt(body)),
        ),
    }
}

/// A copy of a statement list.
pub fn copy_stmts(stmts: &Vec<Stmt>) -> (r: Vec<Stmt>)
    ensures
        stmt_views(r@) == stmt_views(stmts@),
    decreases stmts,
{
    let mut r: Vec<Stmt> = Vec::new();
    let mut i: usize = 0;
    while i < stmts.len()
        invariant
            0 <= i <= stmts.len(),
            r.len() == i,
            forall|j: int| 0 <= j < i ==> r@[j]@ == stmts@[j]@,
        decreases stmts.len() - i,
    {
        r.push(copy_stmt(&stmts[i]));
        i += 1;
    }
    assert(stmt_views(r@) =~= stmt_views(stmts@));
    r
}

impl Clone for Expr {
    fn clone(&self) -> (r: Self)
        ensures
            r@ == self@,
    {
        copy_expr(self)
    }
}

impl Clone for Stmt {
    fn clone(&self) -> (r: Self)
        ensures
            r@ == self@,
    {
        copy_stmt(self)
    }
}

/// How a literal is written.  A number is written with its digits, which
/// the parser holds without leading zeros.  This is the rendering of the
/// digits, not of the double-precision number that they are read as: the
/// two agree for a number of up to 15 digits; a longer one is written
/// here in full, where the double may round it.
pub open spec fn literal_text(l: LiteralView) -> Seq<char> {
    match l {
        LiteralView::Number(digits) => digits,
        LiteralView::Bool(b) => if b {
            "true"@
        } else {
            "false"@
        },
        LiteralView::Undefined => "undefined"@,
    }
}

/// The lexemes of the first `n` tokens, each after a space.
pub open spec fn names_text(tokens: Seq<TokenView>, n: nat) -> Seq<char>
    decreases n,
{
    if n == 0 {
        Seq::empty()
    } else {
        names_text(tokens, (n - 1) as nat) + " "@ + tokens[n - 1].lexeme
    }
}

/// Rendering of an expression: a parenthesized prefix form, the operator
/// or the node's name first.
pub open spec fn expr_text(e: ExprView) -> Seq<char>
    decreases e, 0nat,
{
    match e {
        ExprView::Assignment(name, value) => "(assignment "@ + name.lexeme + " "@ + expr_text(
            *value,
        ) + ")"@,
        ExprView::Binary(op, left, right) => "("@ + op.lexeme + " "@ + expr_text(*left) + " "@
            + expr_text(*right) + ")"@,
        ExprView::Call(_, callee, arguments) => "(call "@ + expr_text(*callee) + " ("@
            + exprs_text(arguments, arguments.len()) + "))"@,
        ExprView::Function(parameters, statements) => "(function (parameters"@ + names_text(
            parameters,
            parameters.len(),
        ) + ") (statements"@ + stmts_spaced(statements, statements.len()) + "))"@,
        ExprView::Grouping(inner) => "(group "@ + expr_text(*inner) + ")"@,
        ExprView::Literal(literal) => literal_text(literal),
        ExprView::Logical(op, left, right) => "("@ + op.lexeme + " "@ + expr_text(*left) + " "@
            + expr_text(*right) + ")"@,
        ExprView::Ternary(op, first, second, third) => "("@ + op.lexeme + " "@ + expr_text(*first)
            + " "@ + expr_text(*second) + " "@ + expr_text(*third) + ")"@,
        ExprView::Unary(op, right) => "("@ + op.lexeme + " "@ + expr_text(*right) + ")"@,
        ExprView::Variable(name) => "(var "@ + name.lexeme + ")"@,
    }
}

/// The renderings of the first `n` expressions, separated by spaces.
pub open spec fn exprs_text(exprs: Seq<ExprView>, n: nat) -> Seq<char>
    decreases exprs, n,
{
    if n == 0 || n > exprs.len() {
        Seq::empty()
    } else if n == 1 {
        expr_text(exprs[0])
    } else {
        exprs_text(exprs, (n - 1) as nat) + " "@ + expr_text(exprs[n - 1])
    }
}

/// Rendering of a statement.
pub open spec fn stmt_text(s: StmtView) -> Seq<char>
    decreases s, 0nat,
{
    match s {
        StmtView::Block(statements) => "(block "@ + stmts_joined(statements, statements.len())
            + ")"@,
        StmtView::Break(_, value) => match value {
            Some(e) => "(break "@ + expr_text(*e) + ")"@,
            None => "(break)"@,
        },
        StmtView::Expression(e) => "(expression "@ + expr_text(*e) + ")"@,
        StmtView::If(condition, consequence, alternative) => match alternative {
            Some(a) => "(if "@ + expr_text(*condition) + " "@ + stmt_text(*consequence) + " "@
                + stmt_text(*a) + ")"@,
            None => "(if "@ + expr_text(*condition) + " "@ + stmt_text(*consequence) + ")"@,
        },
        StmtView::Let(name, value) => "(let "@ + name.lexeme + " "@ + expr_text(*value) + ")"@,
        StmtView::Print(e) => "(print "@ + expr_text(*e) + ")"@,
        StmtView::Return(value) => match value {
            Some(e) => "(return "@ + expr_text(*e) + ")"@,
            None => "(return)"@,
        },
        StmtView::While(condition, body) => "(while "@ + expr_text(*condition) + " "@ + stmt_text(
            *body,
        ) + ")"@,
    }
}

/// The renderings of the first `n` statements, each after a space.
pub open spec fn stmts_spaced(stmts: Seq<StmtView>, n: nat) -> Seq<char>
    decreases stmts, n,
{
    if n == 0 || n > stmts.len() {
        Seq::empty()
    } else {
        stmts_spaced(stmts, (n - 1) as nat) + " "@ + stmt_text(stmts[n - 1])
    }
}

/// The renderings of the first `n` statements, separated by spaces.
pub open spec fn stmts_joined(stmts: Seq<StmtView>, n: nat) -> Seq<char>
    decreases stmts, n,
{
    if n == 0 || n > stmts.len() {
        Seq::empty()
    } else if n == 1 {
        stmt_text(stmts[0])
    } else {
        stmts_joined(stmts, (n - 1) as nat) + " "@ + stmt_text(stmts[n - 1])
    }
}

/// Rendering of a statement list: the statements, separated by spaces.
pub open spec fn stmts_text(stmts: Seq<StmtView>) -> Seq<char> {
    stmts_joined(stmts, stmts.len())
}

impl Literal {
    /// How the literal is written.
    pub fn to_text(&self) -> (s: String)
        ensures
            s@ == literal_text(self@),
    {
        match self {
            Literal::Number(digits) => digits.clone(),
            Literal::Bool(b) => if *b {
                String::from_str("true")
            } else {
                String::from_str("false")
            },
            Literal::Undefined => String::from_str("undefined"),
        }
    }
}

impl Expr {
    /// The expression's rendering.
    pub fn to_text(&self) -> (s: String)
        ensures
            s@ == expr_text(self@),
        decreases self,
    {
        match self {
            Expr::Assignment(name, value) => {
                let mut s = String::from_str("(assignment ");
                s.append(name.lexeme.as_str());
                s.append(" ");
                s.append(value.to_text().as_str());
                s.append(")");
                s
            },
            Expr::Binary(op, left, right) => {
                let mut s = String::from_str("(");
                s.append(op.lexeme.as_str());
                s.append(" ");
                s.append(left.to_text().as_str());
                s.append(" ");
                s.append(right.to_text().as_str());
                s.append(")");
                s
            },
            Expr::Call(_, callee, arguments) => {
                proof {
                    lemma_views_of_lists(*self);
                }
                let mut s = String::from_str("(call ");
                s.append(callee.to_text().as_str());
                s.append(" (");
                let ghost head = s@;
                let ghost views = expr_views(arguments@);
                let mut i: usize = 0;
                while i < arguments.len()
                    invariant
                        0 <= i <= arguments.len(),
                        views == expr_views(arguments@),
                        s@ == head + exprs_text(views, i as nat),
                        decreases_to!(self => arguments),
                    decreases arguments.len() - i,
                {
                    if i > 0 {
                        s.append(" ");
                    }
                    s.append(arguments[i].to_text().as_str());
                    i += 1;
                }
                s.append("))");
                s
            },
            Expr::Function(parameters, statements) => {
                proof {
                    lemma_views_of_lists(*self);
                }
                let mut s = String::from_str("(function (parameters");
                let ghost head = s@;
                let ghost names = token_views(parameters@);
                let mut i: usize = 0;
                while i < parameters.len()
                    invariant
                        0 <= i <= parameters.len(),
                        names == token_views(parameters@),
                        s@ == head + names_text(names, i as nat),
                    decreases parameters.len() - i,
                {
                    s.append(" ");
                    s.append(parameters[i].lexeme.as_str());
                    i += 1;
                }
                s.append(") (statements");
                let ghost head = s@;
                let ghost views = stmt_views(statements@);
                let mut i: usize = 0;
                while i < statements.len()
                    invariant
                        0 <= i <= statements.len(),
                        views == stmt_views(statements@),
                        s@ == head + stmts_spaced(views, i as nat),
                        decreases_to!(self => statements),
                    decreases statements.len() - i,
                {
                    s.append(" ");
                    s.append(statements[i].to_text().as_str());
                    i += 1;
                }
                s.append("))");
                s
            },
            Expr::Grouping(inner) => {
                let mut s = String::from_str("(group ");
                s.append(inner.to_text().as_str());
                s.append(")");
                s
            },
            Expr::Literal(literal) => literal.to_text(),
            Expr::Logical(op, left, right) => {
                let mut s = String::from_str("(");
                s.append(op.lexeme.as_str());
                s.append(" ");
                s.append(left.to_text().as_str());
                s.append(" ");
                s.append(right.to_text().as_str());
                s.append(")");
                s
            },
            Expr::Ternary(op, first, second, third) => {
                let mut s = String::from_str("(");
                s.append(op.lexeme.as_str());
                s.append(" ");
                s.append(first.to_text().as_str());
                s.append(" ");
                s.append(second.to_text().as_str());
                s.append(" ");
                s.append(third.to_text().as_str());
                s.append(")");
                s
            },
            Expr::Unary(op, right) => {
                let mut s = String::from_str("(");
                s.append(op.lexeme.as_str());
                s.append(" ");
                s.append(right.to_text().as_str());
                s.append(")");
                s
            },
            Expr::Variable(name) => {
                let mut s = String::from_str("(var ");
                s.append(name.lexeme.as_str());
                s.append(")");
                s
            },
        }
    }
}

impl Stmt {
    /// The statement's rendering.
    pub fn to_text(&self) -> (s: String)
        ensures
            s@ == stmt_text(self@),
        decreases self,
    {
        match self {
            Stmt::Block(statements) => {
                proof {
                    lemma_view_of_block(*self);
                }
                let mut s = String::from_str("(block ");
                s.append(stringify_statements(statements).as_str());
                s.append(")");
                s
            },
            Stmt::Break(_, value) => match value {
                Some(e) => {
                    let mut s = String::from_str("(break ");
                    s.append(e.to_text().as_str());
                    s.append(")");
                    s
                },
                None => String::from_str("(break)"),
            },
            Stmt::Expression(e) => {
                let mut s = String::from_str("(expression ");
                s.append(e.to_text().as_str());
                s.append(")");
                s
            },
            Stmt::If(condition, consequence, alternative) => {
                let mut s = String::from_str("(if ");
                s.append(condition.to_text().as_str());
                s.append(" ");
                s.append(consequence.to_text().as_str());
                match alternative {
                    Some(a) => {
                        s.append(" ");
                        s.append(a.to_text().as_str());
                    },
                    None => {},
                }
                s.append(")");
                s
            },
            Stmt::Let(name, value) => {
                let mut s = String::from_str("(let ");
                s.append(name.lexeme.as_str());
                s.append(" ");
                s.append(value.to_text().as_str());
                s.append(")");
                s
            },
            Stmt::Print(e) => {
                let mut s = String::from_str("(print ");
                s.append(e.to_text().as_str());
                s.append(")");
                s
            },
            Stmt::Return(value) => match value {
                Some(e) => {
                    let mut s = String::from_str("(return ");
                    s.append(e.to_text().as_str());
                    s.append(")");
                    s
                },
                None => String::from_str("(return)"),
            },
            Stmt::While(condition, body) => {
                let mut s = String::from_str("(while ");
                s.append(condition.to_text().as_str());
                s.append(" ");
                s.append(body.to_text().as_str());
                s.append(")");
                s
            },
        }
    }
}

/// Renders a statement list: the statements, separated by spaces.
pub fn stringify_statements(statements: &Vec<Stmt>) -> (s: String)
    ensures
        s@ == stmts_text(stmt_views(statements@)),
    decreases statements,
{
    let mut s = String::new();
    let ghost views = stmt_views(statements@);
    let mut i: usize = 0;
    while i < statements.len()
        invariant
            0 <= i <= statements.len(),
            views == stmt_views(statements@),
            s@ == stmts_joined(views, i as nat),
        decreases statements.len() - i,
    {
        if i > 0 {
            s.append(" ");
        }
        s.append(statements[i].to_text().as_str());
        i += 1;
    }
    s
}

} // verus!
