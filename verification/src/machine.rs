//! The states of the evaluator and the transitions between them, as
//! mathematical values.
//!
//! The evaluator is an abstract machine.  Its state is the arena of
//! scopes, the current scope, a stack of frames, each of which waits for
//! the value of what runs above it, and what it is about to do.  One
//! transition does one piece of work; [`step`] says which.  A block and a
//! call open scopes and release them at their end, unless a closure was
//! made in them.  Arithmetic on
//! numbers, the reading of number literals and printing are not done by
//! the machine: a transition asks for them, and whoever runs the machine
//! performs them and, for a number, hands the result back
//! ([`supply`]).

use vstd::prelude::*;

use crate::ast::{ExprView, LiteralView, StmtView, ValueView, SIGN, truthy};
use crate::env::{assign, capture, define, enclose, get, release, ScopeView};
use crate::error::{error_at, ErrorView};
use crate::token::{TokenValue, TokenView};

verus! {

/// How evaluation leaves the normal path: by a `break` or a `return`,
/// each with its value, or by an error.
pub enum RuntimeView {
    Break(ValueView),
    Error(ErrorView),
    Return(ValueView),
}

/// What a run of statements is: a whole program, the body of a block, or
/// the body of a function that was called.
#[derive(Debug, PartialEq, Eq, Clone, Copy, Structural)]
pub enum SequenceKind {
    Program,
    Block,
    Body,
}

/// A run of statements under way: `next` is the first statement not yet
/// started, `saved` the scope to return to at the end, `opened` the scope
/// that was opened for the run, and `base`, for the body of a function,
/// the scope that holds the arguments of the call.
pub struct SequenceView {
    pub kind: SequenceKind,
    pub statements: Seq<StmtView>,
    pub next: usize,
    pub saved: usize,
    pub opened: usize,
    pub base: usize,
}

/// A call whose arguments are being evaluated: argument `index` is under
/// way, the earlier ones are bound in the scope `closure`, and `caller`
/// is the scope to return to after the call.
pub struct CallView {
    pub token: TokenView,
    pub parameters: Seq<TokenView>,
    pub arguments: Seq<ExprView>,
    pub body: Seq<StmtView>,
    pub closure: usize,
    pub caller: usize,
    pub index: usize,
}

/// What waits for a value.
pub enum FrameView {
    /// `name = □`
    Assign(TokenView),
    /// `□ op right`, with an arithmetic operator
    Left(TokenView, ExprView),
    /// `left op □`
    Right(TokenView, ValueView),
    /// `□ && right` or `□ || right`
    Logic(TokenView, ExprView),
    /// `- □`
    Negate(TokenView),
    /// `□ ? second : third`
    Choose(ExprView, ExprView),
    /// `□ (arguments)`
    Callee(TokenView, Seq<ExprView>),
    /// an argument of a call
    Argument(CallView),
    /// `let name = □;`
    Let(TokenView),
    /// `print □;`
    Print,
    /// `if (□) consequence else alternative`
    Branch(StmtView, Option<StmtView>),
    /// `while (□) body`, with the value of the last round
    WhileCondition(ExprView, StmtView, ValueView),
    /// `while (condition) □`
    WhileBody(ExprView, StmtView),
    /// `break □;`
    Break,
    /// `return □;`
    Return,
    /// a statement of a run of statements
    Sequence(SequenceView),
}

/// What the machine is about to do.
pub enum ControlView {
    /// Nothing: no program is loaded, or it has ended.
    Idle,
    Execute(StmtView),
    Evaluate(ExprView),
    /// Hand a value to the frame on top of the stack.
    Value(ValueView),
    /// Leave the normal path.
    Raise(RuntimeView),
    /// Wait for the number that the digits write.
    Convert(Seq<char>),
    /// Wait for the result of `left op right`.
    Compute(TokenValue, u64, u64),
}

/// What a transition asks of whoever runs the machine.
pub enum ActionView {
    /// Nothing: go on.
    Continue,
    /// Supply the number that the digits write.
    Convert(Seq<char>),
    /// Supply the result of `left op right` on numbers.
    Compute(TokenValue, u64, u64),
    /// Print the value, then go on.
    Print(ValueView),
    /// The program has ended, with its value or with an error.
    Done(Result<ValueView, Seq<ErrorView>>),
}

/// A state of the machine.
pub struct MachineView {
    pub env: Seq<ScopeView>,
    pub scope: usize,
    pub stack: Seq<FrameView>,
    pub control: ControlView,
}

/// A transition: the next state, and what is asked.
pub struct Moved {
    pub machine: MachineView,
    pub action: ActionView,
}

/// `m` about to do `control`.
pub open spec fn doing(m: MachineView, control: ControlView) -> MachineView {
    MachineView { control, ..m }
}

/// `m` with `frame` on top of its stack, about to do `control`.
pub open spec fn push(m: MachineView, frame: FrameView, control: ControlView) -> MachineView {
    MachineView { stack: m.stack.push(frame), control, ..m }
}

/// The transition to `machine` that asks nothing.
pub open spec fn go(machine: MachineView) -> Moved {
    Moved { machine, action: ActionView::Continue }
}

/// `m` leaving the normal path with an error at `token`.
pub open spec fn fail(m: MachineView, token: TokenView, msg: Seq<char>) -> MachineView {
    doing(m, ControlView::Raise(RuntimeView::Error(error_at(token, msg))))
}

/// `m` with a new scope within `outer` as the current one, about to run
/// `statements` in it; the scope `saved` is restored at the end.
pub open spec fn enter(
    m: MachineView,
    kind: SequenceKind,
    statements: Seq<StmtView>,
    outer: usize,
    saved: usize,
) -> MachineView {
    MachineView {
        env: enclose(m.env, outer),
        scope: m.env.len() as usize,
        stack: m.stack.push(
            FrameView::Sequence(
                SequenceView {
                    kind,
                    statements,
                    next: 0,
                    saved,
                    opened: m.env.len() as usize,
                    base: outer,
                },
            ),
        ),
        control: ControlView::Value(ValueView::Null),
    }
}

/// The scopes once a run of statements is over: the scope that was
/// opened for it is released, and after the body of a function the scope
/// that held the arguments as well.
pub open spec fn leave(env: Seq<ScopeView>, q: SequenceView) -> Seq<ScopeView> {
    match q.kind {
        SequenceKind::Program => env,
        SequenceKind::Block => release(env, q.opened as int),
        SequenceKind::Body => release(release(env, q.opened as int), q.base as int),
    }
}

/// Starting a statement.
pub open spec fn execute(m: MachineView, s: StmtView) -> MachineView {
    match s {
        StmtView::Block(statements) => enter(
            m,
            SequenceKind::Block,
            statements,
            m.scope,
            m.scope,
        ),
        StmtView::Break(_, value) => match value {
            Some(e) => push(m, FrameView::Break, ControlView::Evaluate(*e)),
            None => doing(m, ControlView::Raise(RuntimeView::Break(ValueView::Null))),
        },
        StmtView::Expression(e) => doing(m, ControlView::Evaluate(*e)),
        StmtView::If(condition, consequence, alternative) => push(
            m,
            FrameView::Branch(
                *consequence,
                match alternative {
                    Some(a) => Some(*a),
                    None => None,
                },
            ),
            ControlView::Evaluate(*condition),
        ),
        StmtView::Let(name, value) => push(m, FrameView::Let(name), ControlView::Evaluate(*value)),
        StmtView::Print(e) => push(m, FrameView::Print, ControlView::Evaluate(*e)),
        StmtView::Return(value) => match value {
            Some(e) => push(m, FrameView::Return, ControlView::Evaluate(*e)),
            None => doing(m, ControlView::Raise(RuntimeView::Return(ValueView::Null))),
        },
        StmtView::While(condition, body) => push(
            m,
            FrameView::WhileCondition(*condition, *body, ValueView::Null),
            ControlView::Evaluate(*condition),
        ),
    }
}

/// Starting an expression.
pub open spec fn evaluate(m: MachineView, e: ExprView) -> MachineView {
    match e {
        ExprView::Assignment(name, value) => push(
            m,
            FrameView::Assign(name),
            ControlView::Evaluate(*value),
        ),
        ExprView::Binary(op, left, right) => push(
            m,
            FrameView::Left(op, *right),
            ControlView::Evaluate(*left),
        ),
        ExprView::Call(token, callee, arguments) => push(
            m,
            FrameView::Callee(token, arguments),
            ControlView::Evaluate(*callee),
        ),
        ExprView::Function(parameters, statements) => MachineView {
            env: capture(m.env, m.scope as int),
            control: ControlView::Value(ValueView::Function(parameters, statements, m.scope)),
            ..m
        },
        ExprView::Grouping(inner) => doing(m, ControlView::Evaluate(*inner)),
        ExprView::Literal(literal) => match literal {
            LiteralView::Number(digits) => doing(m, ControlView::Convert(digits)),
            LiteralView::Bool(b) => doing(m, ControlView::Value(ValueView::Bool(b))),
            LiteralView::Undefined => doing(m, ControlView::Value(ValueView::Undefined)),
        },
        ExprView::Logical(op, left, right) => push(
            m,
            FrameView::Logic(op, *right),
            ControlView::Evaluate(*left),
        ),
        ExprView::Ternary(_, first, second, third) => push(
            m,
            FrameView::Choose(*second, *third),
            ControlView::Evaluate(*first),
        ),
        ExprView::Unary(op, right) => push(m, FrameView::Negate(op), ControlView::Evaluate(*right)),
        ExprView::Variable(name) => variable(m, name),
    }
}

/// How a result of the scopes goes on: a value on the normal path, an
/// error off it.
pub open spec fn proceed(result: Result<ValueView, ErrorView>) -> ControlView {
    match result {
        Ok(v) => ControlView::Value(v),
        Err(e) => ControlView::Raise(RuntimeView::Error(e)),
    }
}

/// Reading a variable.
pub open spec fn variable(m: MachineView, name: TokenView) -> MachineView {
    doing(m, proceed(get(m.env, m.scope as int, name)))
}

/// Whether `k` is an arithmetic operator.
pub open spec fn is_arithmetic(k: TokenValue) -> bool {
    k == TokenValue::Plus || k == TokenValue::Minus || k == TokenValue::Star || k
        == TokenValue::Slash
}

/// An arithmetic operation on two values: asked for if both are numbers.
pub open spec fn binary(m: MachineView, op: TokenView, left: ValueView, right: ValueView) -> MachineView {
    if is_arithmetic(op.val) {
        match (left, right) {
            (ValueView::Number(l), ValueView::Number(r)) => doing(
                m,
                ControlView::Compute(op.val, l, r),
            ),
            _ => fail(m, op, "Operands must be two numbers."@),
        }
    } else {
        fail(m, op, "Unknown operation."@)
    }
}

/// `&&` and `||`, once the left operand is known: it is the result if it
/// decides, and else the right operand is.
pub open spec fn logical(m: MachineView, op: TokenView, left: ValueView, right: ExprView) -> MachineView {
    if op.val == TokenValue::Or {
        if truthy(left) {
            doing(m, ControlView::Value(left))
        } else {
            doing(m, ControlView::Evaluate(right))
        }
    } else if op.val == TokenValue::And {
        if truthy(left) {
            doing(m, ControlView::Evaluate(right))
        } else {
            doing(m, ControlView::Value(left))
        }
    } else {
        fail(m, op, "Unknown operation."@)
    }
}

/// The negation of a value, which must be a number: its sign changes.
pub open spec fn unary(m: MachineView, op: TokenView, right: ValueView) -> MachineView {
    if op.val == TokenValue::Minus {
        match right {
            ValueView::Number(bits) => doing(m, ControlView::Value(ValueView::Number(bits ^ SIGN))),
            _ => fail(m, op, "Operand must be a number."@),
        }
    } else {
        fail(m, op, "Unknown operation."@)
    }
}

/// A call, once the callee is known: it must be a closure with as many
/// parameters as there are arguments.  The arguments are bound in a new
/// scope within the scope of the closure.
pub open spec fn call(
    m: MachineView,
    token: TokenView,
    callee: ValueView,
    arguments: Seq<ExprView>,
) -> MachineView {
    match callee {
        ValueView::Function(parameters, body, scope) => if parameters.len() != arguments.len() {
            fail(m, token, "Number of the arguments does not match."@)
        } else {
            argument(
                MachineView { env: enclose(m.env, scope), ..m },
                CallView {
                    token,
                    parameters,
                    arguments,
                    body,
                    closure: m.env.len() as usize,
                    caller: m.scope,
                    index: 0,
                },
            )
        },
        _ => fail(m, token, "Callee is not a function."@),
    }
}

/// Going on with a call: the next argument is evaluated, in the scope of
/// the caller; after the last, the body runs in a new scope within the one
/// that holds the arguments.
pub open spec fn argument(m: MachineView, c: CallView) -> MachineView {
    if c.index < c.arguments.len() {
        push(m, FrameView::Argument(c), ControlView::Evaluate(c.arguments[c.index as int]))
    } else {
        enter(m, SequenceKind::Body, c.body, c.closure, c.caller)
    }
}

/// Binding the value of an argument to its parameter.
pub open spec fn bind_argument(m: MachineView, c: CallView, value: ValueView) -> MachineView {
    if c.index < c.parameters.len() && c.index < usize::MAX {
        let change = define(m.env, c.closure as int, c.parameters[c.index as int], value);
        match change.result {
            Ok(_) => argument(
                MachineView { env: change.env, ..m },
                CallView { index: (c.index + 1) as usize, ..c },
            ),
            Err(e) => doing(m, ControlView::Raise(RuntimeView::Error(e))),
        }
    } else {
        fail(m, c.token, "Number of the arguments does not match."@)
    }
}

/// Going on with a run of statements after one of them yielded `value`:
/// the next statement starts; after the last, the run ends.  A program
/// ends with the value of its last statement, a block likewise, the body
/// of a function with `Null`.
pub open spec fn sequence(m: MachineView, q: SequenceView, value: ValueView) -> Moved {
    if q.next < q.statements.len() && q.next < usize::MAX {
        go(
            push(
                m,
                FrameView::Sequence(SequenceView { next: (q.next + 1) as usize, ..q }),
                ControlView::Execute(q.statements[q.next as int]),
            ),
        )
    } else {
        match q.kind {
            SequenceKind::Program => Moved {
                machine: doing(m, ControlView::Idle),
                action: ActionView::Done(Ok(value)),
            },
            SequenceKind::Block => go(
                MachineView {
                    env: leave(m.env, q),
                    scope: q.saved,
                    control: ControlView::Value(value),
                    ..m
                },
            ),
            SequenceKind::Body => go(
                MachineView {
                    env: leave(m.env, q),
                    scope: q.saved,
                    control: ControlView::Value(ValueView::Null),
                    ..m
                },
            ),
        }
    }
}

/// Handing `value` to `frame`, which was taken off the stack of `m`.
pub open spec fn resume(m: MachineView, frame: FrameView, value: ValueView) -> Moved {
    match frame {
        FrameView::Assign(name) => {
            let change = assign(m.env, m.scope as int, name, value);
            go(MachineView { env: change.env, control: proceed(change.result), ..m })
        },
        FrameView::Left(op, right) => go(
            push(m, FrameView::Right(op, value), ControlView::Evaluate(right)),
        ),
        FrameView::Right(op, left) => go(binary(m, op, left, value)),
        FrameView::Logic(op, right) => go(logical(m, op, value, right)),
        FrameView::Negate(op) => go(unary(m, op, value)),
        FrameView::Choose(second, third) => go(
            doing(
                m,
                ControlView::Evaluate(
                    if truthy(value) {
                        second
                    } else {
                        third
                    },
                ),
            ),
        ),
        FrameView::Callee(token, arguments) => go(call(m, token, value, arguments)),
        FrameView::Argument(c) => go(bind_argument(m, c, value)),
        FrameView::Let(name) => {
            let change = define(m.env, m.scope as int, name, value);
            go(MachineView { env: change.env, control: proceed(change.result), ..m })
        },
        FrameView::Print => Moved {
            machine: doing(m, ControlView::Value(ValueView::Null)),
            action: ActionView::Print(value),
        },
        FrameView::Branch(consequence, alternative) => go(
            if truthy(value) {
                doing(m, ControlView::Execute(consequence))
            } else {
                match alternative {
                    Some(a) => doing(m, ControlView::Execute(a)),
                    None => doing(m, ControlView::Value(ValueView::Null)),
                }
            },
        ),
        FrameView::WhileCondition(condition, body, last) => go(
            if truthy(value) {
                push(m, FrameView::WhileBody(condition, body), ControlView::Execute(body))
            } else {
                doing(m, ControlView::Value(last))
            },
        ),
        FrameView::WhileBody(condition, body) => go(
            push(
                m,
                FrameView::WhileCondition(condition, body, value),
                ControlView::Evaluate(condition),
            ),
        ),
        FrameView::Break => go(doing(m, ControlView::Raise(RuntimeView::Break(value)))),
        FrameView::Return => go(doing(m, ControlView::Raise(RuntimeView::Return(value)))),
        FrameView::Sequence(q) => sequence(m, q, value),
    }
}

/// How a program ends that left the normal path: with the error, or, for a
/// `break` or a `return` that nothing caught, with the value it carries.
pub open spec fn finish(m: MachineView, r: RuntimeView) -> Moved {
    Moved {
        machine: doing(m, ControlView::Idle),
        action: ActionView::Done(
            match r {
                RuntimeView::Error(e) => Err(seq![e]),
                RuntimeView::Break(v) => Ok(v),
                RuntimeView::Return(v) => Ok(v),
            },
        ),
    }
}

/// Passing `r` through `frame`, which was taken off the stack of `m`.  The
/// body of a `while` catches a `break` and the body of a function a
/// `return`: the value carried becomes the value of the loop or of the
/// call.  A block and a function body restore the scope and release
/// their own.  Every other frame is dropped.
pub open spec fn unwind(m: MachineView, frame: FrameView, r: RuntimeView) -> Moved {
    match frame {
        FrameView::Sequence(q) => match q.kind {
            SequenceKind::Program => finish(m, r),
            SequenceKind::Block => go(
                MachineView {
                    env: leave(m.env, q),
                    scope: q.saved,
                    control: ControlView::Raise(r),
                    ..m
                },
            ),
            SequenceKind::Body => go(
                MachineView {
                    env: leave(m.env, q),
                    scope: q.saved,
                    control: match r {
                        RuntimeView::Return(v) => ControlView::Value(v),
                        _ => ControlView::Raise(r),
                    },
                    ..m
                },
            ),
        },

        FrameView::WhileBody(_, _) => go(
            doing(
                m,
                match r {
                    RuntimeView::Break(v) => ControlView::Value(v),
                    _ => ControlView::Raise(r),
                },
            ),
        ),
        _ => go(doing(m, ControlView::Raise(r))),
    }
}

/// `m` without the frame on top of its stack.
pub open spec fn popped(m: MachineView) -> MachineView {
    MachineView { stack: m.stack.drop_last(), ..m }
}

/// One transition of the machine.
pub open spec fn step(m: MachineView) -> Moved {
    match m.control {
        ControlView::Idle => Moved { machine: m, action: ActionView::Done(Ok(ValueView::Null)) },
        ControlView::Convert(digits) => Moved { machine: m, action: ActionView::Convert(digits) },
        ControlView::Compute(op, left, right) => Moved {
            machine: m,
            action: ActionView::Compute(op, left, right),
        },
        ControlView::Execute(s) => go(execute(m, s)),
        ControlView::Evaluate(e) => go(evaluate(m, e)),
        ControlView::Value(v) => if m.stack.len() == 0 {
            Moved { machine: doing(m, ControlView::Idle), action: ActionView::Done(Ok(v)) }
        } else {
            resume(popped(m), m.stack.last(), v)
        },
        ControlView::Raise(r) => if m.stack.len() == 0 {
            finish(m, r)
        } else {
            unwind(popped(m), m.stack.last(), r)
        },
    }
}

/// The state after `n` transitions.
pub open spec fn steps(m: MachineView, n: nat) -> MachineView
    decreases n,
{
    if n == 0 {
        m
    } else {
        steps(step(m).machine, (n - 1) as nat)
    }
}

/// Whether none of the first `n` transitions from `m` asks for anything.
pub open spec fn quiet(m: MachineView, n: nat) -> bool
    decreases n,
{
    n == 0 || (step(m).action == ActionView::Continue && quiet(step(m).machine, (n - 1) as nat))
}

/// Handing the machine the number it waits for.  A machine that waits for
/// none stays as it is.
pub open spec fn supply(m: MachineView, bits: u64) -> MachineView {
    match m.control {
        ControlView::Convert(_) => doing(m, ControlView::Value(ValueView::Number(bits))),
        ControlView::Compute(_, _, _) => doing(m, ControlView::Value(ValueView::Number(bits))),
        _ => m,
    }
}

/// Loading a program: the machine is about to run `statements` in the
/// global scope, whatever it was doing.
pub open spec fn load(m: MachineView, statements: Seq<StmtView>) -> MachineView {
    MachineView {
        env: m.env,
        scope: 0,
        stack: seq![
            FrameView::Sequence(
                SequenceView {
                    kind: SequenceKind::Program,
                    statements,
                    next: 0,
                    saved: 0,
                    opened: 0,
                    base: 0,
                },
            ),
        ],
        control: ControlView::Value(ValueView::Null),
    }
}

} // verus!
