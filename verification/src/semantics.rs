//! What an expression, a statement and a program do as a whole.
//!
//! [`crate::machine`] says what one transition does.  This module says
//! what the evaluation of a construct comes to, in terms of the
//! evaluation of its parts: what it yields, what it makes of the scopes,
//! what it prints, and in how many transitions.  [`crate::agreement`]
//! shows that the machine does just that.
//!
//! Arithmetic is that of a [`Host`].  A loop may go on for ever, so every
//! function takes a bound on the depth of the evaluation and tells
//! nothing where the bound is too small.

use vstd::prelude::*;

use crate::ast::{truthy, ExprView, LiteralView, StmtView, ValueView, SIGN};
use crate::env::{assign, capture, define, enclose, get, ScopeView};
use crate::error::{error_at, ErrorView};
use crate::machine::{
    is_arithmetic, leave, step, supply, ActionView, CallView, ControlView, MachineView, RuntimeView,
    SequenceKind, SequenceView,
};
use crate::token::{TokenValue, TokenView};

verus! {

/// Who runs the machine and serves what it asks for: how it reads the
/// digits of a number and how it computes with two numbers.
pub struct Host {
    pub convert: spec_fn(Seq<char>) -> u64,
    pub compute: spec_fn(TokenValue, u64, u64) -> u64,
}

/// `m`, handed by `host` the number it waits for, if it waits for one.
pub open spec fn answered(m: MachineView, host: Host) -> MachineView {
    match m.control {
        ControlView::Convert(digits) => supply(m, (host.convert)(digits)),
        ControlView::Compute(op, left, right) => supply(m, (host.compute)(op, left, right)),
        _ => m,
    }
}

/// One transition, and what it asks for served by `host`.
pub open spec fn served(m: MachineView, host: Host) -> MachineView {
    answered(step(m).machine, host)
}

/// `n` transitions, each served by `host`.
pub open spec fn run(m: MachineView, host: Host, n: nat) -> MachineView
    decreases n,
{
    if n == 0 {
        m
    } else {
        run(served(m, host), host, (n - 1) as nat)
    }
}

/// What the first `n` transitions print.
pub open spec fn printed(m: MachineView, host: Host, n: nat) -> Seq<ValueView>
    decreases n,
{
    if n == 0 {
        Seq::empty()
    } else {
        match step(m).action {
            ActionView::Print(v) => seq![v] + printed(served(m, host), host, (n - 1) as nat),
            _ => printed(served(m, host), host, (n - 1) as nat),
        }
    }
}

/// How an evaluation ends: with a value, or off the normal path.
pub enum Outcome {
    Value(ValueView),
    Raise(RuntimeView),
}

/// What an evaluation comes to: how it ends, what it makes of the scopes,
/// what it prints, and how many transitions it takes.
pub struct Effect {
    pub outcome: Outcome,
    pub env: Seq<ScopeView>,
    pub printed: Seq<ValueView>,
    pub steps: nat,
}

/// What the machine is about to do at the end of an evaluation.
pub open spec fn control_of(o: Outcome) -> ControlView {
    match o {
        Outcome::Value(v) => ControlView::Value(v),
        Outcome::Raise(r) => ControlView::Raise(r),
    }
}

/// The outcome of an operation on the scopes.
pub open spec fn outcome_of(r: Result<ValueView, ErrorView>) -> Outcome {
    match r {
        Ok(v) => Outcome::Value(v),
        Err(e) => Outcome::Raise(RuntimeView::Error(e)),
    }
}

/// The error at `token` that says `msg`.
pub open spec fn failure(token: TokenView, msg: Seq<char>) -> Outcome {
    Outcome::Raise(RuntimeView::Error(error_at(token, msg)))
}

/// What `steps` transitions come to that print nothing.
pub open spec fn plain(outcome: Outcome, env: Seq<ScopeView>, steps: nat) -> Option<Effect> {
    Some(Effect { outcome, env, printed: Seq::empty(), steps })
}

/// `sub` and `more` transitions that print nothing, at the end of which
/// stand `outcome` and `env`.
pub open spec fn followed(sub: Effect, outcome: Outcome, env: Seq<ScopeView>, more: nat) -> Option<
    Effect,
> {
    Some(Effect { outcome, env, printed: sub.printed, steps: sub.steps + more })
}

/// `sub` and `more` transitions that print nothing, where `sub` left the
/// normal path, or else `value`, by what it yielded.
pub open spec fn passed(sub: Effect, value: spec_fn(ValueView) -> Outcome, more: nat) -> Option<
    Effect,
> {
    followed(
        sub,
        match sub.outcome {
            Outcome::Value(v) => value(v),
            Outcome::Raise(_) => sub.outcome,
        },
        sub.env,
        more,
    )
}

/// `first`, then `second`, and `more` transitions that print nothing.
pub open spec fn both(first: Effect, second: Option<Effect>, more: nat) -> Option<Effect> {
    match second {
        None => None,
        Some(s) => Some(
            Effect {
                outcome: s.outcome,
                env: s.env,
                printed: first.printed + s.printed,
                steps: first.steps + s.steps + more,
            },
        ),
    }
}

/// The negation of a value, which must be a number.
pub open spec fn negated(op: TokenView, right: ValueView) -> Outcome {
    if op.val == TokenValue::Minus {
        match right {
            ValueView::Number(bits) => Outcome::Value(ValueView::Number(bits ^ SIGN)),
            _ => failure(op, "Operand must be a number."@),
        }
    } else {
        failure(op, "Unknown operation."@)
    }
}

/// An arithmetic operation on two values, which must be numbers.
pub open spec fn combined(op: TokenView, left: ValueView, right: ValueView, host: Host) -> Outcome {
    if is_arithmetic(op.val) {
        match (left, right) {
            (ValueView::Number(l), ValueView::Number(r)) => Outcome::Value(
                ValueView::Number((host.compute)(op.val, l, r)),
            ),
            _ => failure(op, "Operands must be two numbers."@),
        }
    } else {
        failure(op, "Unknown operation."@)
    }
}

/// What `&&` or `||` comes to once the left operand is known, if the
/// right one is not evaluated.
pub open spec fn decided(op: TokenView, left: ValueView) -> Option<Outcome> {
    if op.val == TokenValue::Or {
        if truthy(left) {
            Some(Outcome::Value(left))
        } else {
            None
        }
    } else if op.val == TokenValue::And {
        if truthy(left) {
            None
        } else {
            Some(Outcome::Value(left))
        }
    } else {
        Some(failure(op, "Unknown operation."@))
    }
}

/// How what left the normal path leaves a run of statements: the body of
/// a function turns a `return` into the value of the call.
pub open spec fn raised_out(kind: SequenceKind, r: RuntimeView) -> Outcome {
    match (kind, r) {
        (SequenceKind::Body, RuntimeView::Return(v)) => Outcome::Value(v),
        _ => Outcome::Raise(r),
    }
}

/// What evaluating `e` in `scope` comes to.
pub open spec fn eval(
    e: ExprView,
    env: Seq<ScopeView>,
    scope: usize,
    host: Host,
    fuel: nat,
) -> Option<Effect>
    decreases fuel,
{
    if fuel == 0 {
        None
    } else {
        let fuel = (fuel - 1) as nat;
        match e {
            ExprView::Literal(literal) => plain(
                Outcome::Value(
                    match literal {
                        LiteralView::Number(digits) => ValueView::Number((host.convert)(digits)),
                        LiteralView::Bool(b) => ValueView::Bool(b),
                        LiteralView::Undefined => ValueView::Undefined,
                    },
                ),
                env,
                1,
            ),
            ExprView::Variable(name) => plain(outcome_of(get(env, scope as int, name)), env, 1),
            ExprView::Function(parameters, statements) => plain(
                Outcome::Value(ValueView::Function(parameters, statements, scope)),
                capture(env, scope as int),
                1,
            ),
            ExprView::Grouping(inner) => match eval(*inner, env, scope, host, fuel) {
                None => None,
                Some(r) => followed(r, r.outcome, r.env, 1),
            },
            ExprView::Unary(op, right) => match eval(*right, env, scope, host, fuel) {
                None => None,
                Some(r) => passed(r, |v: ValueView| negated(op, v), 2),
            },
            ExprView::Assignment(name, value) => match eval(*value, env, scope, host, fuel) {
                None => None,
                Some(r) => match r.outcome {
                    Outcome::Value(v) => {
                        let change = assign(r.env, scope as int, name, v);
                        followed(r, outcome_of(change.result), change.env, 2)
                    },
                    Outcome::Raise(_) => followed(r, r.outcome, r.env, 2),
                },
            },
            ExprView::Binary(op, left, right) => match eval(*left, env, scope, host, fuel) {
                None => None,
                Some(l) => match l.outcome {
                    Outcome::Value(lv) => match eval(*right, l.env, scope, host, fuel) {
                        None => None,
                        Some(r) => both(
                            l,
                            passed(r, |rv: ValueView| combined(op, lv, rv, host), 0),
                            3,
                        ),
                    },
                    Outcome::Raise(_) => followed(l, l.outcome, l.env, 2),
                },
            },
            ExprView::Logical(op, left, right) => match eval(*left, env, scope, host, fuel) {
                None => None,
                Some(l) => match l.outcome {
                    Outcome::Value(lv) => match decided(op, lv) {
                        Some(outcome) => followed(l, outcome, l.env, 2),
                        None => both(l, eval(*right, l.env, scope, host, fuel), 2),
                    },
                    Outcome::Raise(_) => followed(l, l.outcome, l.env, 2),
                },
            },
            ExprView::Ternary(_, first, second, third) => match eval(
                *first,
                env,
                scope,
                host,
                fuel,
            ) {
                None => None,
                Some(c) => match c.outcome {
                    Outcome::Value(v) => both(
                        c,
                        eval(
                            if truthy(v) {
                                *second
                            } else {
                                *third
                            },
                            c.env,
                            scope,
                            host,
                            fuel,
                        ),
                        2,
                    ),
                    Outcome::Raise(_) => followed(c, c.outcome, c.env, 2),
                },
            },
            ExprView::Call(token, callee, arguments) => match eval(
                *callee,
                env,
                scope,
                host,
                fuel,
            ) {
                None => None,
                Some(f) => match f.outcome {
                    Outcome::Value(ValueView::Function(parameters, body, defining)) => if parameters.len()
                        != arguments.len() {
                        followed(
                            f,
                            failure(token, "Number of the arguments does not match."@),
                            f.env,
                            2,
                        )
                    } else {
                        both(
                            f,
                            call_on(
                                CallView {
                                    token,
                                    parameters,
                                    arguments,
                                    body,
                                    closure: f.env.len() as usize,
                                    caller: scope,
                                    index: 0,
                                },
                                enclose(f.env, defining),
                                host,
                                fuel,
                            ),
                            2,
                        )
                    },
                    Outcome::Value(_) => followed(
                        f,
                        failure(token, "Callee is not a function."@),
                        f.env,
                        2,
                    ),
                    Outcome::Raise(_) => followed(f, f.outcome, f.env, 2),
                },
            },
        }
    }
}

/// What a call comes to from its argument `c.index` on: the arguments
/// that are left are evaluated in the scope of the caller and bound in
/// the scope `c.closure`, then the body runs.
pub open spec fn call_on(c: CallView, env: Seq<ScopeView>, host: Host, fuel: nat) -> Option<Effect>
    decreases fuel,
{
    if fuel == 0 {
        None
    } else {
        let fuel = (fuel - 1) as nat;
        if c.index < c.arguments.len() {
            match eval(c.arguments[c.index as int], env, c.caller, host, fuel) {
                None => None,
                Some(a) => match a.outcome {
                    Outcome::Value(v) => if c.index < c.parameters.len() && c.index < usize::MAX {
                        let bound = define(
                            a.env,
                            c.closure as int,
                            c.parameters[c.index as int],
                            v,
                        );
                        match bound.result {
                            Ok(_) => both(
                                a,
                                call_on(
                                    CallView { index: (c.index + 1) as usize, ..c },
                                    bound.env,
                                    host,
                                    fuel,
                                ),
                                1,
                            ),
                            Err(e) => followed(a, Outcome::Raise(RuntimeView::Error(e)), a.env, 1),
                        }
                    } else {
                        followed(
                            a,
                            failure(c.token, "Number of the arguments does not match."@),
                            a.env,
                            1,
                        )
                    },
                    Outcome::Raise(_) => followed(a, a.outcome, a.env, 1),
                },
            }
        } else {
            run_of(
                SequenceView {
                    kind: SequenceKind::Body,
                    statements: c.body,
                    next: 0,
                    saved: c.caller,
                    opened: env.len() as usize,
                    base: c.closure,
                },
                ValueView::Null,
                enclose(env, c.closure),
                host,
                fuel,
            )
        }
    }
}

/// What a block or the body of a function comes to from its statement
/// `q.next` on, where `last` is what the statement before yielded.
pub open spec fn run_of(
    q: SequenceView,
    last: ValueView,
    env: Seq<ScopeView>,
    host: Host,
    fuel: nat,
) -> Option<Effect>
    decreases fuel,
{
    if fuel == 0 {
        None
    } else {
        let fuel = (fuel - 1) as nat;
        if q.next < q.statements.len() && q.next < usize::MAX {
            match exec(q.statements[q.next as int], env, q.opened, host, fuel) {
                None => None,
                Some(s) => match s.outcome {
                    Outcome::Value(v) => both(
                        s,
                        run_of(
                            SequenceView { next: (q.next + 1) as usize, ..q },
                            v,
                            s.env,
                            host,
                            fuel,
                        ),
                        1,
                    ),
                    Outcome::Raise(r) => followed(s, raised_out(q.kind, r), leave(s.env, q), 2),
                },
            }
        } else {
            plain(
                Outcome::Value(
                    if q.kind == SequenceKind::Body {
                        ValueView::Null
                    } else {
                        last
                    },
                ),
                leave(env, q),
                1,
            )
        }
    }
}

/// What a loop comes to from the evaluation of its condition on, where
/// `last` is what the round before yielded.
pub open spec fn loop_of(
    condition: ExprView,
    body: StmtView,
    last: ValueView,
    env: Seq<ScopeView>,
    scope: usize,
    host: Host,
    fuel: nat,
) -> Option<Effect>
    decreases fuel,
{
    if fuel == 0 {
        None
    } else {
        let fuel = (fuel - 1) as nat;
        match eval(condition, env, scope, host, fuel) {
            None => None,
            Some(c) => match c.outcome {
                Outcome::Value(v) => if truthy(v) {
                    match exec(body, c.env, scope, host, fuel) {
                        None => None,
                        Some(s) => match s.outcome {
                            Outcome::Value(x) => both(
                                c,
                                both(s, loop_of(condition, body, x, s.env, scope, host, fuel), 1),
                                1,
                            ),
                            Outcome::Raise(RuntimeView::Break(x)) => both(
                                c,
                                followed(s, Outcome::Value(x), s.env, 0),
                                2,
                            ),
                            Outcome::Raise(_) => both(c, Some(s), 2),
                        },
                    }
                } else {
                    followed(c, Outcome::Value(last), c.env, 1)
                },
                Outcome::Raise(_) => followed(c, c.outcome, c.env, 1),
            },
        }
    }
}

/// What executing `s` in `scope` comes to.
pub open spec fn exec(
    s: StmtView,
    env: Seq<ScopeView>,
    scope: usize,
    host: Host,
    fuel: nat,
) -> Option<Effect>
    decreases fuel,
{
    if fuel == 0 {
        None
    } else {
        let fuel = (fuel - 1) as nat;
        match s {
            StmtView::Block(statements) => match run_of(
                SequenceView {
                    kind: SequenceKind::Block,
                    statements,
                    next: 0,
                    saved: scope,
                    opened: env.len() as usize,
                    base: scope,
                },
                ValueView::Null,
                enclose(env, scope),
                host,
                fuel,
            ) {
                None => None,
                Some(r) => followed(r, r.outcome, r.env, 1),
            },
            StmtView::Break(_, value) => match value {
                Some(e) => match eval(*e, env, scope, host, fuel) {
                    None => None,
                    Some(r) => passed(
                        r,
                        |v: ValueView| Outcome::Raise(RuntimeView::Break(v)),
                        2,
                    ),
                },
                None => plain(Outcome::Raise(RuntimeView::Break(ValueView::Null)), env, 1),
            },
            StmtView::Return(value) => match value {
                Some(e) => match eval(*e, env, scope, host, fuel) {
                    None => None,
                    Some(r) => passed(
                        r,
                        |v: ValueView| Outcome::Raise(RuntimeView::Return(v)),
                        2,
                    ),
                },
                None => plain(Outcome::Raise(RuntimeView::Return(ValueView::Null)), env, 1),
            },
            StmtView::Expression(e) => match eval(*e, env, scope, host, fuel) {
                None => None,
                Some(r) => followed(r, r.outcome, r.env, 1),
            },
            StmtView::If(condition, consequence, alternative) => match eval(
                *condition,
                env,
                scope,
                host,
                fuel,
            ) {
                None => None,
                Some(c) => match c.outcome {
                    Outcome::Value(v) => if truthy(v) {
                        both(c, exec(*consequence, c.env, scope, host, fuel), 2)
                    } else {
                        match alternative {
                            Some(a) => both(c, exec(*a, c.env, scope, host, fuel), 2),
                            None => followed(c, Outcome::Value(ValueView::Null), c.env, 2),
                        }
                    },
                    Outcome::Raise(_) => followed(c, c.outcome, c.env, 2),
                },
            },
            StmtView::Let(name, value) => match eval(*value, env, scope, host, fuel) {
                None => None,
                Some(r) => match r.outcome {
                    Outcome::Value(v) => {
                        let change = define(r.env, scope as int, name, v);
                        followed(r, outcome_of(change.result), change.env, 2)
                    },
                    Outcome::Raise(_) => followed(r, r.outcome, r.env, 2),
                },
            },
            StmtView::Print(e) => match eval(*e, env, scope, host, fuel) {
                None => None,
                Some(r) => match r.outcome {
                    Outcome::Value(v) => Some(
                        Effect {
                            outcome: Outcome::Value(ValueView::Null),
                            env: r.env,
                            printed: r.printed.push(v),
                            steps: r.steps + 2,
                        },
                    ),
                    Outcome::Raise(_) => followed(r, r.outcome, r.env, 2),
                },
            },
            StmtView::While(condition, body) => match loop_of(
                *condition,
                *body,
                ValueView::Null,
                env,
                scope,
                host,
                fuel,
            ) {
                None => None,
                Some(r) => followed(r, r.outcome, r.env, 1),
            },
        }
    }
}

/// How a program ends, what it has made of the scopes, what it has
/// printed, and after how many transitions it reports its end.
pub struct Ended {
    pub result: Result<ValueView, Seq<ErrorView>>,
    pub env: Seq<ScopeView>,
    pub printed: Seq<ValueView>,
    pub steps: nat,
}

/// What a program comes to from its statement `next` on, where `last` is
/// what the statement before yielded: it ends with the value of its last
/// statement, or with the first error; a `break` or a `return` that
/// nothing caught ends it with the value carried.
pub open spec fn program_of(
    statements: Seq<StmtView>,
    next: usize,
    last: ValueView,
    env: Seq<ScopeView>,
    host: Host,
    fuel: nat,
) -> Option<Ended>
    decreases fuel,
{
    if fuel == 0 {
        None
    } else if next < statements.len() && next < usize::MAX {
        match exec(statements[next as int], env, 0, host, (fuel - 1) as nat) {
            None => None,
            Some(s) => match s.outcome {
                Outcome::Value(v) => match program_of(
                    statements,
                    (next + 1) as usize,
                    v,
                    s.env,
                    host,
                    (fuel - 1) as nat,
                ) {
                    None => None,
                    Some(rest) => Some(
                        Ended {
                            result: rest.result,
                            env: rest.env,
                            printed: s.printed + rest.printed,
                            steps: s.steps + rest.steps + 1,
                        },
                    ),
                },
                Outcome::Raise(r) => Some(
                    Ended {
                        result: match r {
                            RuntimeView::Error(e) => Err(seq![e]),
                            RuntimeView::Break(v) => Ok(v),
                            RuntimeView::Return(v) => Ok(v),
                        },
                        env: s.env,
                        printed: s.printed,
                        steps: s.steps + 1,
                    },
                ),
            },
        }
    } else {
        Some(Ended { result: Ok(last), env, printed: Seq::empty(), steps: 0 })
    }
}

/// What running the program `statements` comes to, in scopes `env`.
pub open spec fn program(statements: Seq<StmtView>, env: Seq<ScopeView>, host: Host, fuel: nat) -> Option<
    Ended,
> {
    program_of(statements, 0, ValueView::Null, env, host, fuel)
}

} // verus!
