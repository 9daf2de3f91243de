//! The evaluator: the machine of [`crate::machine`], on executable data.
//!
//! An [`Interpreter`] is driven from outside: load a program with
//! [`Interpreter::interpret`], then call [`Interpreter::step`] until it
//! answers [`Action::Done`], doing in between what each answer asks for.

use vstd::prelude::*;
use vstd::string::*;

use crate::ast::{
    copy_expr, copy_stmt, expr_views, lemma_view_of_block, lemma_views_of_lists, stmt_views, Expr,
    Literal, Stmt, Value, ValueView, SIGN,
};
use crate::env::{empty_scope, Environment};
use crate::error::{error_at, error_views, Error};
use crate::sound::{
    lemma_new_machine_is_sound, lemma_step_is_sound, lemma_supply_and_load_are_sound, sound,
};
use crate::machine;
use crate::machine::{
    ActionView, CallView, ControlView, FrameView, MachineView, RuntimeView, SequenceKind,
    SequenceView,
};
use crate::token::{token_views, Token, TokenValue};

verus! {

/// How evaluation leaves the normal path: by a `break` or a `return`,
/// each with its value, or by an error.
#[derive(Debug, PartialEq, Eq)]
pub enum Runtime {
    Break(Value),
    Error(Error),
    Return(Value),
}

impl View for Runtime {
    type V = RuntimeView;

    open spec fn view(&self) -> RuntimeView {
        match self {
            Runtime::Break(v) => RuntimeView::Break(v@),
            Runtime::Error(e) => RuntimeView::Error(e@),
            Runtime::Return(v) => RuntimeView::Return(v@),
        }
    }
}

impl Runtime {
    /// The error at `token` with message `msg`.
    pub fn from_token(token: &Token, msg: &str) -> (r: Runtime)
        ensures
            r@ == RuntimeView::Error(error_at(token@, msg@)),
    {
        Runtime::Error(Error::from_token(token, msg))
    }
}

/// A run of statements under way.
#[derive(Debug)]
pub struct Sequence {
    pub kind: SequenceKind,
    pub statements: Vec<Stmt>,
    pub next: usize,
    pub saved: usize,
    pub opened: usize,
    pub base: usize,
}

impl View for Sequence {
    type V = SequenceView;

    open spec fn view(&self) -> SequenceView {
        SequenceView {
            kind: self.kind,
            statements: stmt_views(self.statements@),
            next: self.next,
            saved: self.saved,
            opened: self.opened,
            base: self.base,
        }
    }
}

/// A call whose arguments are being evaluated.
#[derive(Debug)]
pub struct Call {
    pub token: Token,
    pub parameters: Vec<Token>,
    pub arguments: Vec<Expr>,
    pub body: Vec<Stmt>,
    pub closure: usize,
    pub caller: usize,
    pub index: usize,
}

impl View for Call {
    type V = CallView;

    open spec fn view(&self) -> CallView {
        CallView {
            token: self.token@,
            parameters: token_views(self.parameters@),
            arguments: expr_views(self.arguments@),
            body: stmt_views(self.body@),
            closure: self.closure,
            caller: self.caller,
            index: self.index,
        }
    }
}

/// What waits for a value.
#[derive(Debug)]
pub enum Frame {
    Assign(Token),
    Left(Token, Expr),
    Right(Token, Value),
    Logic(Token, Expr),
    Negate(Token),
    Choose(Expr, Expr),
    Callee(Token, Vec<Expr>),
    Argument(Call),
    Let(Token),
    Print,
    Branch(Stmt, Option<Stmt>),
    WhileCondition(Expr, Stmt, Value),
    WhileBody(Expr, Stmt),
    Break,
    Return,
    Sequence(Sequence),
}

impl View for Frame {
    type V = FrameView;

    open spec fn view(&self) -> FrameView {
        match self {
            Frame::Assign(name) => FrameView::Assign(name@),
            Frame::Left(op, right) => FrameView::Left(op@, right@),
            Frame::Right(op, left) => FrameView::Right(op@, left@),
            Frame::Logic(op, right) => FrameView::Logic(op@, right@),
            Frame::Negate(op) => FrameView::Negate(op@),
            Frame::Choose(second, third) => FrameView::Choose(second@, third@),
            Frame::Callee(token, arguments) => FrameView::Callee(token@, expr_views(arguments@)),
            Frame::Argument(c) => FrameView::Argument(c@),
            Frame::Let(name) => FrameView::Let(name@),
            Frame::Print => FrameView::Print,
            Frame::Branch(consequence, alternative) => FrameView::Branch(
                consequence@,
                match alternative {
                    Some(a) => Some(a@),
                    None => None,
                },
            ),
            Frame::WhileCondition(condition, body, last) => FrameView::WhileCondition(
                condition@,
                body@,
                last@,
            ),
            Frame::WhileBody(condition, body) => FrameView::WhileBody(condition@, body@),
            Frame::Break => FrameView::Break,
            Frame::Return => FrameView::Return,
            Frame::Sequence(q) => FrameView::Sequence(q@),
        }
    }
}

/// The views of a stack of frames.
pub open spec fn frame_views(frames: Seq<Frame>) -> Seq<FrameView> {
    Seq::new(frames.len(), |i: int| frames[i]@)
}

/// What the machine is about to do.
#[derive(Debug)]
pub enum Control {
    Idle,
    Execute(Stmt),
    Evaluate(Expr),
    Value(Value),
    Raise(Runtime),
    Convert(String),
    Compute(TokenValue, u64, u64),
}

impl View for Control {
    type V = ControlView;

    open spec fn view(&self) -> ControlView {
        match self {
            Control::Idle => ControlView::Idle,
            Control::Execute(s) => ControlView::Execute(s@),
            Control::Evaluate(e) => ControlView::Evaluate(e@),
            Control::Value(v) => ControlView::Value(v@),
            Control::Raise(r) => ControlView::Raise(r@),
            Control::Convert(digits) => ControlView::Convert(digits@),
            Control::Compute(op, left, right) => ControlView::Compute(*op, *left, *right),
        }
    }
}

/// What a transition asks of whoever runs the machine.
#[derive(Debug, PartialEq, Eq)]
pub enum Action {
    /// Nothing: call `step` again.
    Continue,
    /// Call `supply` with the number that the digits write.
    Convert(String),
    /// Call `supply` with the result of `left op right`, where `op` is
    /// `Plus`, `Minus`, `Star` or `Slash`.
    Compute(TokenValue, u64, u64),
    /// Print the value.
    Print(Value),
    /// The program has ended, with its value or with an error.
    Done(Result<Value, Vec<Error>>),
}

impl View for Action {
    type V = ActionView;

    open spec fn view(&self) -> ActionView {
        match self {
            Action::Continue => ActionView::Continue,
            Action::Convert(digits) => ActionView::Convert(digits@),
            Action::Compute(op, left, right) => ActionView::Compute(*op, *left, *right),
            Action::Print(v) => ActionView::Print(v@),
            Action::Done(r) => ActionView::Done(
                match r {
                    Ok(v) => Ok(v@),
                    Err(errors) => Err(error_views(errors@)),
                },
            ),
        }
    }
}

/// A quiet run goes on by one transition that asks for nothing.
proof fn lemma_one_more(m: MachineView, n: nat)
    requires
        machine::quiet(m, n),
        machine::step(machine::steps(m, n)).action == ActionView::Continue,
    ensures
        machine::quiet(m, n + 1),
        machine::steps(m, n + 1) == machine::step(machine::steps(m, n)).machine,
    decreases n,
{
    let next = machine::step(m).machine;
    assert(machine::steps(m, n + 1) == machine::steps(next, n));
    if n > 0 {
        assert(machine::steps(m, n) == machine::steps(next, (n - 1) as nat));
        lemma_one_more(next, (n - 1) as nat);
    } else {
        assert(machine::steps(next, 0) == next);
        assert(machine::quiet(next, 0));
    }
}

/// The evaluator.
pub struct Interpreter {
    env: Environment,
    scope: usize,
    stack: Vec<Frame>,
    control: Control,
}

impl View for Interpreter {
    type V = MachineView;

    closed spec fn view(&self) -> MachineView {
        MachineView {
            env: self.env@,
            scope: self.scope,
            stack: frame_views(self.stack@),
            control: self.control@,
        }
    }
}

impl Interpreter {
    /// The scopes of the evaluator are well founded.
    closed spec fn inv(&self) -> bool {
        self.env.wf()
    }

    /// The evaluator names live scopes only: the current scope is one, the
    /// frames on the stack go back to live scopes, and every closure that
    /// the evaluator holds names the scope in which it was made (see
    /// [`sound`]).
    pub closed spec fn wf(&self) -> bool {
        self.inv() && sound(self@)
    }

    /// An evaluator with an empty global scope and no program.
    pub fn new() -> (i: Interpreter)
        ensures
            i.wf(),
            i@ == (MachineView {
                env: seq![empty_scope(None)],
                scope: 0,
                stack: Seq::empty(),
                control: ControlView::Idle,
            }),
    {
        let i = Interpreter {
            env: Environment::new(),
            scope: 0,
            stack: Vec::new(),
            control: Control::Idle,
        };
        assert(i@.stack =~= Seq::empty());
        proof {
            lemma_new_machine_is_sound();
        }
        i
    }

    /// Loads a program: the next transitions run `statements` in the
    /// global scope.  What the evaluator was doing is dropped; the
    /// variables stay.
    pub fn interpret(&mut self, statements: Vec<Stmt>)
        requires
            old(self).wf(),
        ensures
            final(self).wf(),
            final(self)@ == machine::load(old(self)@, stmt_views(statements@)),
    {
        let frame = Frame::Sequence(
            Sequence {
                kind: SequenceKind::Program,
                statements,
                next: 0,
                saved: 0,
                opened: 0,
                base: 0,
            },
        );
        self.scope = 0;
        let mut stack: Vec<Frame> = Vec::new();
        stack.push(frame);
        self.stack = stack;
        self.control = Control::Value(Value::Null);
        assert(self@.stack =~= machine::load(old(self)@, stmt_views(statements@)).stack);
        proof {
            lemma_supply_and_load_are_sound(old(self)@, 0, stmt_views(statements@));
        }
    }

    /// Hands the evaluator the number it waits for.
    pub fn supply(&mut self, bits: u64)
        requires
            old(self).wf(),
        ensures
            final(self).wf(),
            final(self)@ == machine::supply(old(self)@, bits),
    {
        match &self.control {
            Control::Convert(_) => {
                self.control = Control::Value(Value::Number(bits));
            },
            Control::Compute(_, _, _) => {
                self.control = Control::Value(Value::Number(bits));
            },
            _ => {},
        }
        proof {
            lemma_supply_and_load_are_sound(old(self)@, bits, Seq::empty());
        }
    }

    /// Makes one transition.
    pub fn step(&mut self) -> (a: Action)
        requires
            old(self).wf(),
        ensures
            final(self).wf(),
            final(self)@ == machine::step(old(self)@).machine,
            a@ == machine::step(old(self)@).action,
    {
        let mut control = Control::Idle;
        core::mem::swap(&mut self.control, &mut control);
        let action = match control {
            Control::Idle => Action::Done(Ok(Value::Null)),
            Control::Convert(digits) => {
                let action = Action::Convert(digits.clone());
                self.control = Control::Convert(digits);
                action
            },
            Control::Compute(op, left, right) => {
                self.control = Control::Compute(op, left, right);
                Action::Compute(op, left, right)
            },
            Control::Execute(stmt) => {
                self.execute(stmt);
                Action::Continue
            },
            Control::Evaluate(expr) => {
                self.evaluate(expr);
                Action::Continue
            },
            Control::Value(value) => match self.pop() {
                Some(frame) => self.resume(frame, value),
                None => Action::Done(Ok(value)),
            },
            Control::Raise(runtime) => match self.pop() {
                Some(frame) => self.unwind(frame, runtime),
                None => Self::finish(runtime),
            },
        };
        // The number of scopes is a `usize`, which the proof needs to know.
        let _scopes = self.env.len();
        proof {
            lemma_step_is_sound(old(self)@);
        }
        action
    }

    /// Makes transitions until one asks for something, but no more than
    /// `limit`: answers what that transition asked for, or `Continue` after
    /// `limit` transitions that asked for nothing.
    pub fn advance(&mut self, limit: usize) -> (a: Action)
        requires
            old(self).wf(),
        ensures
            final(self).wf(),
            exists|n: nat|
                n <= limit && #[trigger] machine::quiet(old(self)@, n) && if a@
                    == ActionView::Continue {
                    n == limit && final(self)@ == machine::steps(old(self)@, n)
                } else {
                    n < limit && final(self)@ == machine::step(
                        machine::steps(old(self)@, n),
                    ).machine && a@ == machine::step(machine::steps(old(self)@, n)).action
                },
    {
        let mut done: usize = 0;
        while done < limit
            invariant
                self.wf(),
                done <= limit,
                machine::quiet(old(self)@, done as nat),
                self@ == machine::steps(old(self)@, done as nat),
            decreases limit - done,
        {
            let action = self.step();
            match action {
                Action::Continue => {
                    proof {
                        lemma_one_more(old(self)@, done as nat);
                    }
                    done += 1;
                },
                _ => {
                    return action;
                },
            }
        }
        Action::Continue
    }

    /// Puts a frame on the stack.
    fn push(&mut self, frame: Frame)
        ensures
            final(self)@ == (MachineView { stack: old(self)@.stack.push(frame@), ..old(self)@ }),
            final(self).inv() == old(self).inv(),
    {
        self.stack.push(frame);
        assert(self@.stack =~= old(self)@.stack.push(frame@));
    }

    /// Takes the top frame off the stack, if there is one.
    fn pop(&mut self) -> (frame: Option<Frame>)
        ensures
            final(self).inv() == old(self).inv(),
            match frame {
                Some(f) => old(self)@.stack.len() > 0 && f@ == old(self)@.stack.last()
                    && final(self)@ == machine::popped(old(self)@),
                None => old(self)@.stack.len() == 0 && final(self)@ == old(self)@,
            },
    {
        let frame = self.stack.pop();
        proof {
            if frame is Some {
                assert(self@.stack =~= old(self)@.stack.drop_last());
            }
        }
        frame
    }

    /// Leaves the normal path with an error at `token`.
    fn fail(&mut self, token: &Token, msg: &str)
        ensures
            final(self)@ == machine::fail(old(self)@, token@, msg@),
            final(self).inv() == old(self).inv(),
    {
        self.control = Control::Raise(Runtime::from_token(token, msg));
    }

    /// Goes on with the result of an operation on the scopes.
    fn proceed(&mut self, result: Result<Value, Error>)
        ensures
            final(self)@ == machine::doing(
                old(self)@,
                machine::proceed(crate::env::outcome(result)),
            ),
            final(self).inv() == old(self).inv(),
    {
        match result {
            Ok(v) => {
                self.control = Control::Value(v);
            },
            Err(e) => {
                self.control = Control::Raise(Runtime::Error(e));
            },
        }
    }

    /// Opens a scope within `outer` and gets ready to run `statements` in
    /// it.
    fn enter(&mut self, kind: SequenceKind, statements: Vec<Stmt>, outer: usize, saved: usize)
        requires
            old(self).inv(),
        ensures
            final(self).inv(),
            final(self)@ == machine::enter(
                old(self)@,
                kind,
                stmt_views(statements@),
                outer,
                saved,
            ),
    {
        let opened = self.env.enclosed_by(outer);
        self.scope = opened;
        self.push(Frame::Sequence(Sequence { kind, statements, next: 0, saved, opened, base: outer }));
        self.control = Control::Value(Value::Null);
    }

    /// Starts a statement.
    fn execute(&mut self, stmt: Stmt)
        requires
            old(self).inv(),
        ensures
            final(self).inv(),
            final(self)@ == machine::execute(old(self)@, stmt@),
    {
        proof {
            lemma_view_of_block(stmt);
        }
        match stmt {
            Stmt::Block(statements) => self.block(statements),
            Stmt::Break(_, value) => self.break_(value),
            Stmt::Expression(expr) => {
                self.control = Control::Evaluate(*expr);
            },
            Stmt::If(condition, consequence, alternative) => self.if_(
                *condition,
                *consequence,
                alternative,
            ),
            Stmt::Let(name, expr) => self.let_(name, *expr),
            Stmt::Print(expr) => self.print(*expr),
            Stmt::Return(value) => self.return_(value),
            Stmt::While(condition, statement) => self.while_(*condition, *statement),
        }
    }

    fn block(&mut self, statements: Vec<Stmt>)
        requires
            old(self).inv(),
        ensures
            final(self).inv(),
            final(self)@ == machine::enter(
                old(self)@,
                SequenceKind::Block,
                stmt_views(statements@),
                old(self)@.scope,
                old(self)@.scope,
            ),
    {
        let scope = self.scope;
        self.enter(SequenceKind::Block, statements, scope, scope);
    }

    fn break_(&mut self, value: Option<Box<Expr>>)
        ensures
            final(self).inv() == old(self).inv(),
            final(self)@ == match value {
                Some(e) => machine::push(old(self)@, FrameView::Break, ControlView::Evaluate(e@)),
                None => machine::doing(
                    old(self)@,
                    ControlView::Raise(RuntimeView::Break(ValueView::Null)),
                ),
            },
    {
        match value {
            Some(expr) => {
                self.push(Frame::Break);
                self.control = Control::Evaluate(*expr);
            },
            None => {
                self.control = Control::Raise(Runtime::Break(Value::Null));
            },
        }
    }

    fn if_(&mut self, condition: Expr, consequence: Stmt, alternative: Option<Box<Stmt>>)
        ensures
            final(self).inv() == old(self).inv(),
            final(self)@ == machine::push(
                old(self)@,
                FrameView::Branch(
                    consequence@,
                    match alternative {
                        Some(a) => Some(a@),
                        None => None,
                    },
                ),
                ControlView::Evaluate(condition@),
            ),
    {
        let alternative = match alternative {
            Some(a) => Some(*a),
            None => None,
        };
        self.push(Frame::Branch(consequence, alternative));
        self.control = Control::Evaluate(condition);
    }

    fn let_(&mut self, name: Token, expr: Expr)
        ensures
            final(self).inv() == old(self).inv(),
            final(self)@ == machine::push(
                old(self)@,
                FrameView::Let(name@),
                ControlView::Evaluate(expr@),
            ),
    {
        self.push(Frame::Let(name));
        self.control = Control::Evaluate(expr);
    }

    fn print(&mut self, expr: Expr)
        ensures
            final(self).inv() == old(self).inv(),
            final(self)@ == machine::push(
                old(self)@,
                FrameView::Print,
                ControlView::Evaluate(expr@),
            ),
    {
        self.push(Frame::Print);
        self.control = Control::Evaluate(expr);
    }

    fn return_(&mut self, value: Option<Box<Expr>>)
        ensures
            final(self).inv() == old(self).inv(),
            final(self)@ == match value {
                Some(e) => machine::push(old(self)@, FrameView::Return, ControlView::Evaluate(e@)),
                None => machine::doing(
                    old(self)@,
                    ControlView::Raise(RuntimeView::Return(ValueView::Null)),
                ),
            },
    {
        match value {
            Some(expr) => {
                self.push(Frame::Return);
                self.control = Control::Evaluate(*expr);
            },
            None => {
                self.control = Control::Raise(Runtime::Return(Value::Null));
            },
        }
    }

    fn while_(&mut self, condition: Expr, statement: Stmt)
        ensures
            final(self).inv() == old(self).inv(),
            final(self)@ == machine::push(
                old(self)@,
                FrameView::WhileCondition(condition@, statement@, ValueView::Null),
                ControlView::Evaluate(condition@),
            ),
    {
        let first = copy_expr(&condition);
        self.push(Frame::WhileCondition(condition, statement, Value::Null));
        self.control = Control::Evaluate(first);
    }

    /// Starts an expression.
    fn evaluate(&mut self, expr: Expr)
        requires
            old(self).inv(),
        ensures
            final(self).inv(),
            final(self)@ == machine::evaluate(old(self)@, expr@),
    {
        proof {
            lemma_views_of_lists(expr);
        }
        match expr {
            Expr::Assignment(name, value) => self.assignment(name, *value),
            Expr::Binary(op, left, right) => {
                self.push(Frame::Left(op, *right));
                self.control = Control::Evaluate(*left);
            },
            Expr::Call(token, callee, arguments) => {
                self.push(Frame::Callee(token, arguments));
                self.control = Control::Evaluate(*callee);
            },
            Expr::Function(parameters, statements) => self.function(parameters, statements),
            Expr::Grouping(inner) => {
                self.control = Control::Evaluate(*inner);
            },
            Expr::Literal(literal) => match literal {
                Literal::Number(digits) => {
                    self.control = Control::Convert(digits);
                },
                Literal::Bool(b) => {
                    self.control = Control::Value(Value::Bool(b));
                },
                Literal::Undefined => {
                    self.control = Control::Value(Value::Undefined);
                },
            },
            Expr::Logical(op, left, right) => {
                self.push(Frame::Logic(op, *right));
                self.control = Control::Evaluate(*left);
            },
            Expr::Ternary(_, first, second, third) => {
                self.push(Frame::Choose(*second, *third));
                self.control = Control::Evaluate(*first);
            },
            Expr::Unary(op, right) => {
                self.push(Frame::Negate(op));
                self.control = Control::Evaluate(*right);
            },
            Expr::Variable(name) => self.variable(&name),
        }
    }

    fn assignment(&mut self, name: Token, expr: Expr)
        ensures
            final(self).inv() == old(self).inv(),
            final(self)@ == machine::push(
                old(self)@,
                FrameView::Assign(name@),
                ControlView::Evaluate(expr@),
            ),
    {
        self.push(Frame::Assign(name));
        self.control = Control::Evaluate(expr);
    }

    fn variable(&mut self, name: &Token)
        requires
            old(self).inv(),
        ensures
            final(self).inv(),
            final(self)@ == machine::variable(old(self)@, name@),
    {
        let result = self.env.get(self.scope, name);
        self.proceed(result);
    }

    fn function(&mut self, parameters: Vec<Token>, statements: Vec<Stmt>)
        requires
            old(self).inv(),
        ensures
            final(self).inv(),
            final(self)@ == (MachineView {
                env: crate::env::capture(old(self)@.env, old(self)@.scope as int),
                control: ControlView::Value(
                    ValueView::Function(
                        token_views(parameters@),
                        stmt_views(statements@),
                        old(self)@.scope,
                    ),
                ),
                ..old(self)@
            }),
    {
        self.env.capture(self.scope);
        self.control = Control::Value(Value::Function(parameters, statements, self.scope));
    }

    /// Asks for an arithmetic operation on two values, which must be
    /// numbers.
    fn binary(&mut self, op: Token, left: Value, right: Value)
        ensures
            final(self).inv() == old(self).inv(),
            final(self)@ == machine::binary(old(self)@, op@, left@, right@),
    {
        match op.val {
            TokenValue::Plus | TokenValue::Minus | TokenValue::Star | TokenValue::Slash => {
                match (left, right) {
                    (Value::Number(l), Value::Number(r)) => {
                        self.control = Control::Compute(op.val, l, r);
                    },
                    _ => self.fail(&op, "Operands must be two numbers."),
                }
            },
            _ => self.fail(&op, "Unknown operation."),
        }
    }

    /// Goes on with `&&` or `||` once the left operand is known.
    fn logical(&mut self, op: Token, left: Value, right: Expr)
        ensures
            final(self).inv() == old(self).inv(),
            final(self)@ == machine::logical(old(self)@, op@, left@, right@),
    {
        match op.val {
            TokenValue::Or => {
                if left.is_truthy() {
                    self.control = Control::Value(left);
                } else {
                    self.control = Control::Evaluate(right);
                }
            },
            TokenValue::And => {
                if left.is_truthy() {
                    self.control = Control::Evaluate(right);
                } else {
                    self.control = Control::Value(left);
                }
            },
            _ => self.fail(&op, "Unknown operation."),
        }
    }

    /// Negates a value, which must be a number.
    fn unary(&mut self, op: Token, right: Value)
        ensures
            final(self).inv() == old(self).inv(),
            final(self)@ == machine::unary(old(self)@, op@, right@),
    {
        match op.val {
            TokenValue::Minus => match right {
                Value::Number(bits) => {
                    self.control = Control::Value(Value::Number(bits ^ SIGN));
                },
                _ => self.fail(&op, "Operand must be a number."),
            },
            _ => self.fail(&op, "Unknown operation."),
        }
    }

    fn ternary(&mut self, condition: Value, second: Expr, third: Expr)
        ensures
            final(self).inv() == old(self).inv(),
            final(self)@ == machine::doing(
                old(self)@,
                ControlView::Evaluate(
                    if crate::ast::truthy(condition@) {
                        second@
                    } else {
                        third@
                    },
                ),
            ),
    {
        if condition.is_truthy() {
            self.control = Control::Evaluate(second);
        } else {
            self.control = Control::Evaluate(third);
        }
    }

    /// Starts a call once the callee is known.
    fn call(&mut self, token: Token, callee: Value, arguments: Vec<Expr>)
        requires
            old(self).inv(),
        ensures
            final(self).inv(),
            final(self)@ == machine::call(old(self)@, token@, callee@, expr_views(arguments@)),
    {
        match callee {
            Value::Function(parameters, body, scope) => {
                if parameters.len() != arguments.len() {
                    self.fail(&token, "Number of the arguments does not match.");
                } else {
                    let caller = self.scope;
                    let closure = self.env.enclosed_by(scope);
                    self.argument(
                        Call { token, parameters, arguments, body, closure, caller, index: 0 },
                    );
                }
            },
            _ => self.fail(&token, "Callee is not a function."),
        }
    }

    /// Goes on with a call: evaluates the next argument or, after the
    /// last, enters the body.
    fn argument(&mut self, call: Call)
        requires
            old(self).inv(),
        ensures
            final(self).inv(),
            final(self)@ == machine::argument(old(self)@, call@),
    {
        if call.index < call.arguments.len() {
            let next = copy_expr(&call.arguments[call.index]);
            self.push(Frame::Argument(call));
            self.control = Control::Evaluate(next);
        } else {
            self.enter(SequenceKind::Body, call.body, call.closure, call.caller);
        }
    }

    /// Binds the value of an argument to its parameter.
    fn bind_argument(&mut self, call: Call, value: Value)
        requires
            old(self).inv(),
        ensures
            final(self).inv(),
            final(self)@ == machine::bind_argument(old(self)@, call@, value@),
    {
        if call.index < call.parameters.len() {
            match self.env.define(call.closure, &call.parameters[call.index], value) {
                Ok(_) => {
                    let mut call = call;
                    call.index = call.index + 1;
                    self.argument(call);
                },
                Err(e) => {
                    self.control = Control::Raise(Runtime::Error(e));
                },
            }
        } else {
            self.fail(&call.token, "Number of the arguments does not match.");
        }
    }

    /// Releases the scopes of a run of statements that is over.
    fn leave(&mut self, q: &Sequence)
        requires
            old(self).inv(),
        ensures
            final(self).inv(),
            final(self)@ == (MachineView { env: machine::leave(old(self)@.env, q@), ..old(self)@ }),
    {
        match q.kind {
            SequenceKind::Program => {},
            SequenceKind::Block => {
                self.env.release(q.opened);
            },
            SequenceKind::Body => {
                self.env.release(q.opened);
                self.env.release(q.base);
            },
        }
    }

    /// Goes on with a run of statements.
    fn sequence(&mut self, q: Sequence, value: Value) -> (a: Action)
        requires
            old(self).inv(),
        ensures
            final(self).inv(),
            final(self)@ == machine::sequence(old(self)@, q@, value@).machine,
            a@ == machine::sequence(old(self)@, q@, value@).action,
    {
        if q.next < q.statements.len() {
            let stmt = copy_stmt(&q.statements[q.next]);
            let mut q = q;
            q.next = q.next + 1;
            self.push(Frame::Sequence(q));
            self.control = Control::Execute(stmt);
            Action::Continue
        } else {
            match q.kind {
                SequenceKind::Program => {
                    self.control = Control::Idle;
                    Action::Done(Ok(value))
                },
                SequenceKind::Block => {
                    self.leave(&q);
                    self.scope = q.saved;
                    self.control = Control::Value(value);
                    Action::Continue
                },
                SequenceKind::Body => {
                    self.leave(&q);
                    self.scope = q.saved;
                    self.control = Control::Value(Value::Null);
                    Action::Continue
                },
            }
        }
    }

    /// Hands a value to a frame that was taken off the stack.
    fn resume(&mut self, frame: Frame, value: Value) -> (a: Action)
        requires
            old(self).inv(),
        ensures
            final(self).inv(),
            final(self)@ == machine::resume(old(self)@, frame@, value@).machine,
            a@ == machine::resume(old(self)@, frame@, value@).action,
    {
        match frame {
            Frame::Assign(name) => {
                let result = self.env.assign(self.scope, &name, value);
                self.proceed(result);
                Action::Continue
            },
            Frame::Left(op, right) => {
                self.push(Frame::Right(op, value));
                self.control = Control::Evaluate(right);
                Action::Continue
            },
            Frame::Right(op, left) => {
                self.binary(op, left, value);
                Action::Continue
            },
            Frame::Logic(op, right) => {
                self.logical(op, value, right);
                Action::Continue
            },
            Frame::Negate(op) => {
                self.unary(op, value);
                Action::Continue
            },
            Frame::Choose(second, third) => {
                self.ternary(value, second, third);
                Action::Continue
            },
            Frame::Callee(token, arguments) => {
                self.call(token, value, arguments);
                Action::Continue
            },
            Frame::Argument(call) => {
                self.bind_argument(call, value);
                Action::Continue
            },
            Frame::Let(name) => {
                let result = self.env.define(self.scope, &name, value);
                self.proceed(result);
                Action::Continue
            },
            Frame::Print => {
                self.control = Control::Value(Value::Null);
                Action::Print(value)
            },
            Frame::Branch(consequence, alternative) => {
                if value.is_truthy() {
                    self.control = Control::Execute(consequence);
                } else {
                    match alternative {
                        Some(a) => {
                            self.control = Control::Execute(a);
                        },
                        None => {
                            self.control = Control::Value(Value::Null);
                        },
                    }
                }
                Action::Continue
            },
            Frame::WhileCondition(condition, body, last) => {
                if value.is_truthy() {
                    let round = copy_stmt(&body);
                    self.push(Frame::WhileBody(condition, body));
                    self.control = Control::Execute(round);
                } else {
                    self.control = Control::Value(last);
                }
                Action::Continue
            },
            Frame::WhileBody(condition, body) => {
                let again = copy_expr(&condition);
                self.push(Frame::WhileCondition(condition, body, value));
                self.control = Control::Evaluate(again);
                Action::Continue
            },
            Frame::Break => {
                self.control = Control::Raise(Runtime::Break(value));
                Action::Continue
            },
            Frame::Return => {
                self.control = Control::Raise(Runtime::Return(value));
                Action::Continue
            },
            Frame::Sequence(q) => self.sequence(q, value),
        }
    }

    /// Ends the program that left the normal path.
    fn finish(runtime: Runtime) -> (a: Action)
        ensures
            a@ == ActionView::Done(
                match runtime@ {
                    RuntimeView::Error(e) => Err(seq![e]),
                    RuntimeView::Break(v) => Ok(v),
                    RuntimeView::Return(v) => Ok(v),
                },
            ),
    {
        match runtime {
            Runtime::Error(e) => {
                let mut errors: Vec<Error> = Vec::new();
                errors.push(e);
                assert(error_views(errors@) =~= seq![e@]);
                Action::Done(Err(errors))
            },
            Runtime::Break(v) => Action::Done(Ok(v)),
            Runtime::Return(v) => Action::Done(Ok(v)),
        }
    }

    /// Passes what left the normal path through a frame that was taken
    /// off the stack.
    fn unwind(&mut self, frame: Frame, runtime: Runtime) -> (a: Action)
        requires
            old(self).inv(),
        ensures
            final(self).inv(),
            final(self)@ == machine::unwind(old(self)@, frame@, runtime@).machine,
            a@ == machine::unwind(old(self)@, frame@, runtime@).action,
    {
        match frame {
            Frame::Sequence(q) => match q.kind {
                SequenceKind::Program => {
                    self.control = Control::Idle;
                    Self::finish(runtime)
                },
                SequenceKind::Block => {
                    self.leave(&q);
                    self.scope = q.saved;
                    self.control = Control::Raise(runtime);
                    Action::Continue
                },
                SequenceKind::Body => {
                    self.leave(&q);
                    self.scope = q.saved;
                    match runtime {
                        Runtime::Return(v) => {
                            self.control = Control::Value(v);
                        },
                        other => {
                            self.control = Control::Raise(other);
                        },
                    }
                    Action::Continue
                },
            },
            Frame::WhileBody(_, _) => {
                match runtime {
                    Runtime::Break(v) => {
                        self.control = Control::Value(v);
                    },
                    other => {
                        self.control = Control::Raise(other);
                    },
                }
                Action::Continue
            },
            _ => {
                self.control = Control::Raise(runtime);
                Action::Continue
            },
        }
    }
}

} // verus!
