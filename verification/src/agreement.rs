//! The machine does what [`crate::semantics`] says.
//!
//! For every construct: a machine that is about to evaluate it arrives,
//! after the transitions that its evaluation takes, each served by the
//! host, at what the evaluation comes to, with the scopes that it has
//! made, having printed what it prints; its stack and its current scope
//! are as before.

use vstd::prelude::*;

use crate::ast::{truthy, ExprView, StmtView, ValueView};
use crate::env::{assign, define, enclose, ScopeView};
use crate::machine::{
    argument, doing, enter, leave, load, popped, push, resume, step, unwind, ActionView, CallView,
    ControlView, FrameView, MachineView, RuntimeView, SequenceKind, SequenceView,
};
use crate::semantics::{
    call_on, control_of, eval, exec, loop_of, printed, program_of, run, run_of, served, Effect,
    Ended, Host, Outcome,
};

verus! {

/// After `n` served transitions `m` has become `end` and has printed
/// `out`.
pub open spec fn reaches(
    m: MachineView,
    host: Host,
    n: nat,
    end: MachineView,
    out: Seq<ValueView>,
) -> bool {
    run(m, host, n) == end && printed(m, host, n) == out
}

/// `m` at the end of an evaluation that came to `r`, as far as the scopes
/// and what it is about to do go.
pub open spec fn arrived(m: MachineView, r: Effect) -> MachineView {
    MachineView { env: r.env, control: control_of(r.outcome), ..m }
}

/// What `m` does next is what `r` says: after `r.steps` transitions it
/// stands at the outcome of `r`, with the scopes of `r`, and has printed
/// what `r` prints; its stack and its current scope are as before.
pub open spec fn agrees(m: MachineView, host: Host, r: Effect) -> bool {
    reaches(m, host, r.steps, arrived(m, r), r.printed)
}

/// No transition is needed to stay.
proof fn lemma_stay(m: MachineView, host: Host)
    ensures
        reaches(m, host, 0, m, Seq::empty()),
{
}

/// One transition that prints nothing.
proof fn lemma_once(m: MachineView, host: Host)
    requires
        !(step(m).action is Print),
    ensures
        reaches(m, host, 1, served(m, host), Seq::empty()),
{
    assert(run(served(m, host), host, 0) == served(m, host));
    assert(printed(served(m, host), host, 0) =~= Seq::empty());
}

/// Transitions follow one another.
proof fn lemma_chain(
    m: MachineView,
    host: Host,
    a: nat,
    mid: MachineView,
    first: Seq<ValueView>,
    b: nat,
    end: MachineView,
    second: Seq<ValueView>,
)
    requires
        reaches(m, host, a, mid, first),
        reaches(mid, host, b, end, second),
    ensures
        reaches(m, host, a + b, end, first + second),
    decreases a,
{
    if a == 0 {
        assert(first + second =~= second);
    } else {
        let next = served(m, host);
        let rest = printed(next, host, (a - 1) as nat);
        lemma_chain(next, host, (a - 1) as nat, mid, rest, b, end, second);
        assert(run(m, host, a + b) == run(next, host, (a + b - 1) as nat));
        match step(m).action {
            ActionView::Print(v) => {
                assert(first == seq![v] + rest);
                assert((seq![v] + rest) + second =~= seq![v] + (rest + second));
            },
            _ => {},
        }
    }
}

/// A transition that prints nothing, then more.
proof fn lemma_first(
    m: MachineView,
    host: Host,
    n: nat,
    end: MachineView,
    out: Seq<ValueView>,
)
    requires
        !(step(m).action is Print),
        reaches(served(m, host), host, n, end, out),
    ensures
        reaches(m, host, n + 1, end, out),
{
    lemma_once(m, host);
    lemma_chain(m, host, 1, served(m, host), Seq::empty(), n, end, out);
    assert(Seq::<ValueView>::empty() + out =~= out);
}

/// Transitions, then one that prints nothing.
proof fn lemma_last(
    m: MachineView,
    host: Host,
    n: nat,
    mid: MachineView,
    out: Seq<ValueView>,
)
    requires
        reaches(m, host, n, mid, out),
        !(step(mid).action is Print),
    ensures
        reaches(m, host, n + 1, served(mid, host), out),
{
    lemma_once(mid, host);
    lemma_chain(m, host, n, mid, out, 1, served(mid, host), Seq::empty());
    assert(out + Seq::<ValueView>::empty() =~= out);
}

/// The evaluation of an expression under a frame: if the next transition
/// of `m` puts `f` on the stack and turns to `e`, then after the
/// evaluation of `e` the machine hands what `e` came to to `f`.
#[verifier::spinoff_prover]
proof fn lemma_under(m: MachineView, f: FrameView, e: ExprView, host: Host, fuel: nat)
    requires
        !(step(m).action is Print),
        served(m, host) == push(m, f, ControlView::Evaluate(e)),
        eval(e, m.env, m.scope, host, fuel) is Some,
    ensures
        ({
            let r = eval(e, m.env, m.scope, host, fuel)->Some_0;
            let top = MachineView {
                env: r.env,
                scope: m.scope,
                stack: m.stack.push(f),
                control: control_of(r.outcome),
            };
            &&& reaches(m, host, r.steps + 1, top, r.printed)
            &&& popped(top) == MachineView { stack: m.stack, ..top }
        }),
    decreases fuel, 3nat,
{
    let r = eval(e, m.env, m.scope, host, fuel)->Some_0;
    let start = push(m, f, ControlView::Evaluate(e));
    lemma_eval(start, e, host, fuel);
    lemma_first(m, host, r.steps, arrived(start, r), r.printed);
    assert(popped(arrived(start, r)).stack =~= m.stack);
}

/// The machine evaluates an expression as [`eval`] says.
#[verifier::spinoff_prover]
pub proof fn lemma_eval(m: MachineView, e: ExprView, host: Host, fuel: nat)
    requires
        m.control == ControlView::Evaluate(e),
        eval(e, m.env, m.scope, host, fuel) is Some,
    ensures
        agrees(m, host, eval(e, m.env, m.scope, host, fuel)->Some_0),
    decreases fuel, 2nat,
{
    let r = eval(e, m.env, m.scope, host, fuel)->Some_0;
    let rest = (fuel - 1) as nat;
    match e {
        ExprView::Literal(_) => {
            lemma_once(m, host);
        },
        ExprView::Variable(_) => {
            lemma_once(m, host);
        },
        ExprView::Function(_, _) => {
            lemma_once(m, host);
        },
        ExprView::Grouping(inner) => {
            lemma_eval(served(m, host), *inner, host, rest);
            let sub = eval(*inner, m.env, m.scope, host, rest)->Some_0;
            lemma_first(m, host, sub.steps, arrived(served(m, host), sub), sub.printed);
        },
        ExprView::Unary(op, right) => {
            lemma_unary(m, e, host, fuel);
        },
        ExprView::Assignment(name, value) => {
            lemma_assignment(m, e, host, fuel);
        },
        ExprView::Binary(op, left, right) => {
            lemma_binary(m, e, host, fuel);
        },
        ExprView::Logical(op, left, right) => {
            lemma_logical(m, e, host, fuel);
        },
        ExprView::Ternary(_, first, second, third) => {
            lemma_ternary(m, e, host, fuel);
        },
        ExprView::Call(token, callee, arguments) => {
            lemma_call(m, e, host, fuel);
        },
    }
}

#[verifier::spinoff_prover]
proof fn lemma_unary(m: MachineView, e: ExprView, host: Host, fuel: nat)
    requires
        m.control == ControlView::Evaluate(e),
        e is Unary,
        eval(e, m.env, m.scope, host, fuel) is Some,
    ensures
        agrees(m, host, eval(e, m.env, m.scope, host, fuel)->Some_0),
    decreases fuel, 1nat,
{
    let rest = (fuel - 1) as nat;
    match e {
        ExprView::Unary(op, right) => {
            let f = FrameView::Negate(op);
            lemma_under(m, f, *right, host, rest);
            let sub = eval(*right, m.env, m.scope, host, rest)->Some_0;
            let top = MachineView {
                env: sub.env,
                scope: m.scope,
                stack: m.stack.push(f),
                control: control_of(sub.outcome),
            };
            lemma_last(m, host, sub.steps + 1, top, sub.printed);
        },
        _ => {},
    }
}

#[verifier::spinoff_prover]
proof fn lemma_assignment(m: MachineView, e: ExprView, host: Host, fuel: nat)
    requires
        m.control == ControlView::Evaluate(e),
        e is Assignment,
        eval(e, m.env, m.scope, host, fuel) is Some,
    ensures
        agrees(m, host, eval(e, m.env, m.scope, host, fuel)->Some_0),
    decreases fuel, 1nat,
{
    let rest = (fuel - 1) as nat;
    match e {
        ExprView::Assignment(name, value) => {
            let f = FrameView::Assign(name);
            lemma_under(m, f, *value, host, rest);
            let sub = eval(*value, m.env, m.scope, host, rest)->Some_0;
            let top = MachineView {
                env: sub.env,
                scope: m.scope,
                stack: m.stack.push(f),
                control: control_of(sub.outcome),
            };
            lemma_last(m, host, sub.steps + 1, top, sub.printed);
        },
        _ => {},
    }
}

#[verifier::spinoff_prover]
proof fn lemma_binary(m: MachineView, e: ExprView, host: Host, fuel: nat)
    requires
        m.control == ControlView::Evaluate(e),
        e is Binary,
        eval(e, m.env, m.scope, host, fuel) is Some,
    ensures
        agrees(m, host, eval(e, m.env, m.scope, host, fuel)->Some_0),
    decreases fuel, 1nat,
{
    let rest = (fuel - 1) as nat;
    match e {
        ExprView::Binary(op, left, right) => {
            let f = FrameView::Left(op, *right);
            lemma_under(m, f, *left, host, rest);
            let l = eval(*left, m.env, m.scope, host, rest)->Some_0;
            let top = MachineView {
                env: l.env,
                scope: m.scope,
                stack: m.stack.push(f),
                control: control_of(l.outcome),
            };
            lemma_last(m, host, l.steps + 1, top, l.printed);
            match l.outcome {
                Outcome::Value(lv) => {
                    let second = MachineView { env: l.env, ..m };
                    let g = FrameView::Right(op, lv);
                    assert(served(top, host) == push(second, g, ControlView::Evaluate(*right)));
                    let turned = served(top, host);
                    let r = eval(*right, l.env, m.scope, host, rest)->Some_0;
                    lemma_eval(turned, *right, host, rest);
                    let above = arrived(turned, r);
                    assert(popped(above).stack =~= m.stack);
                    lemma_last(turned, host, r.steps, above, r.printed);
                    lemma_chain(
                        m,
                        host,
                        l.steps + 2,
                        turned,
                        l.printed,
                        r.steps + 1,
                        served(above, host),
                        r.printed,
                    );
                },
                Outcome::Raise(_) => {},
            }
        },
        _ => {},
    }
}

#[verifier::spinoff_prover]
proof fn lemma_logical(m: MachineView, e: ExprView, host: Host, fuel: nat)
    requires
        m.control == ControlView::Evaluate(e),
        e is Logical,
        eval(e, m.env, m.scope, host, fuel) is Some,
    ensures
        agrees(m, host, eval(e, m.env, m.scope, host, fuel)->Some_0),
    decreases fuel, 1nat,
{
    let rest = (fuel - 1) as nat;
    match e {
        ExprView::Logical(op, left, right) => {
            let f = FrameView::Logic(op, *right);
            lemma_under(m, f, *left, host, rest);
            let l = eval(*left, m.env, m.scope, host, rest)->Some_0;
            let top = MachineView {
                env: l.env,
                scope: m.scope,
                stack: m.stack.push(f),
                control: control_of(l.outcome),
            };
            lemma_last(m, host, l.steps + 1, top, l.printed);
            match l.outcome {
                Outcome::Value(lv) => {
                    if crate::semantics::decided(op, lv) is None {
                        let turned = served(top, host);
                        assert(turned == MachineView {
                            env: l.env,
                            control: ControlView::Evaluate(*right),
                            ..m
                        });
                        let r = eval(*right, l.env, m.scope, host, rest)->Some_0;
                        lemma_eval(turned, *right, host, rest);
                        lemma_chain(
                            m,
                            host,
                            l.steps + 2,
                            turned,
                            l.printed,
                            r.steps,
                            arrived(turned, r),
                            r.printed,
                        );
                    }
                },
                Outcome::Raise(_) => {},
            }
        },
        _ => {},
    }
}

#[verifier::spinoff_prover]
proof fn lemma_ternary(m: MachineView, e: ExprView, host: Host, fuel: nat)
    requires
        m.control == ControlView::Evaluate(e),
        e is Ternary,
        eval(e, m.env, m.scope, host, fuel) is Some,
    ensures
        agrees(m, host, eval(e, m.env, m.scope, host, fuel)->Some_0),
    decreases fuel, 1nat,
{
    let rest = (fuel - 1) as nat;
    match e {
        ExprView::Ternary(_, first, second, third) => {
            let f = FrameView::Choose(*second, *third);
            lemma_under(m, f, *first, host, rest);
            let c = eval(*first, m.env, m.scope, host, rest)->Some_0;
            let top = MachineView {
                env: c.env,
                scope: m.scope,
                stack: m.stack.push(f),
                control: control_of(c.outcome),
            };
            lemma_last(m, host, c.steps + 1, top, c.printed);
            match c.outcome {
                Outcome::Value(v) => {
                    let branch = if truthy(v) {
                        *second
                    } else {
                        *third
                    };
                    let turned = served(top, host);
                    assert(turned == MachineView {
                        env: c.env,
                        control: ControlView::Evaluate(branch),
                        ..m
                    });
                    let r = eval(branch, c.env, m.scope, host, rest)->Some_0;
                    lemma_eval(turned, branch, host, rest);
                    lemma_chain(
                        m,
                        host,
                        c.steps + 2,
                        turned,
                        c.printed,
                        r.steps,
                        arrived(turned, r),
                        r.printed,
                    );
                },
                Outcome::Raise(_) => {},
            }
        },
        _ => {},
    }
}

#[verifier::spinoff_prover]
proof fn lemma_call(m: MachineView, e: ExprView, host: Host, fuel: nat)
    requires
        m.control == ControlView::Evaluate(e),
        e is Call,
        eval(e, m.env, m.scope, host, fuel) is Some,
    ensures
        agrees(m, host, eval(e, m.env, m.scope, host, fuel)->Some_0),
    decreases fuel, 1nat,
{
    let rest = (fuel - 1) as nat;
    match e {
        ExprView::Call(token, callee, arguments) => {
            let f = FrameView::Callee(token, arguments);
            lemma_under(m, f, *callee, host, rest);
            let c = eval(*callee, m.env, m.scope, host, rest)->Some_0;
            let top = MachineView {
                env: c.env,
                scope: m.scope,
                stack: m.stack.push(f),
                control: control_of(c.outcome),
            };
            lemma_last(m, host, c.steps + 1, top, c.printed);
            match c.outcome {
                Outcome::Value(ValueView::Function(parameters, body, defining)) => {
                    if parameters.len() == arguments.len() {
                        let base = MachineView {
                            env: enclose(c.env, defining),
                            scope: m.scope,
                            stack: m.stack,
                            control: top.control,
                        };
                        let started = CallView {
                            token,
                            parameters,
                            arguments,
                            body,
                            closure: c.env.len() as usize,
                            caller: m.scope,
                            index: 0,
                        };
                        let turned = served(top, host);
                        assert(turned == argument(base, started));
                        let r = call_on(started, base.env, host, rest)->Some_0;
                        lemma_call_on(base, started, host, rest);
                        lemma_chain(
                            m,
                            host,
                            c.steps + 2,
                            turned,
                            c.printed,
                            r.steps,
                            MachineView { env: r.env, control: control_of(r.outcome), ..base },
                            r.printed,
                        );
                    }
                },
                _ => {},
            }
        },
        _ => {},
    }
}

/// The machine goes on with a call as [`call_on`] says.
#[verifier::spinoff_prover]
pub proof fn lemma_call_on(base: MachineView, c: CallView, host: Host, fuel: nat)
    requires
        base.scope == c.caller,
        call_on(c, base.env, host, fuel) is Some,
    ensures
        ({
            let r = call_on(c, base.env, host, fuel)->Some_0;
            reaches(
                argument(base, c),
                host,
                r.steps,
                MachineView { env: r.env, control: control_of(r.outcome), ..base },
                r.printed,
            )
        }),
    decreases fuel, 1nat,
{
    let rest = (fuel - 1) as nat;
    let m = argument(base, c);
    let r = call_on(c, base.env, host, fuel)->Some_0;
    if c.index < c.arguments.len() {
        let e = c.arguments[c.index as int];
        let a = eval(e, base.env, c.caller, host, rest)->Some_0;
        lemma_eval(m, e, host, rest);
        let top = arrived(m, a);
        assert(popped(top).stack =~= base.stack);
        lemma_last(m, host, a.steps, top, a.printed);
        match a.outcome {
            Outcome::Value(v) => {
                if c.index < c.parameters.len() && c.index < usize::MAX {
                    let bound = define(a.env, c.closure as int, c.parameters[c.index as int], v);
                    if bound.result is Ok {
                        let further = MachineView {
                            env: bound.env,
                            control: ControlView::Value(v),
                            ..base
                        };
                        let on = CallView { index: (c.index + 1) as usize, ..c };
                        assert(served(top, host) == argument(further, on));
                        let more = call_on(on, bound.env, host, rest)->Some_0;
                        lemma_call_on(further, on, host, rest);
                        lemma_chain(
                            m,
                            host,
                            a.steps + 1,
                            argument(further, on),
                            a.printed,
                            more.steps,
                            MachineView {
                                env: more.env,
                                control: control_of(more.outcome),
                                ..further
                            },
                            more.printed,
                        );
                    }
                }
            },
            Outcome::Raise(_) => {},
        }
    } else {
        let q = SequenceView {
            kind: SequenceKind::Body,
            statements: c.body,
            next: 0,
            saved: c.caller,
            opened: base.env.len() as usize,
            base: c.closure,
        };
        assert(popped(m).stack =~= base.stack);
        lemma_run_of(m, q, ValueView::Null, host, rest);
    }
}

/// The machine goes on with a block or with the body of a function as
/// [`run_of`] says.
#[verifier::spinoff_prover]
pub proof fn lemma_run_of(m: MachineView, q: SequenceView, last: ValueView, host: Host, fuel: nat)
    requires
        m.stack.len() > 0,
        m.stack.last() == FrameView::Sequence(q),
        m.control == ControlView::Value(last),
        m.scope == q.opened,
        q.kind != SequenceKind::Program,
        run_of(q, last, m.env, host, fuel) is Some,
    ensures
        ({
            let r = run_of(q, last, m.env, host, fuel)->Some_0;
            reaches(
                m,
                host,
                r.steps,
                MachineView {
                    env: r.env,
                    scope: q.saved,
                    stack: m.stack.drop_last(),
                    control: control_of(r.outcome),
                },
                r.printed,
            )
        }),
    decreases fuel, 1nat,
{
    let rest = (fuel - 1) as nat;
    let r = run_of(q, last, m.env, host, fuel)->Some_0;
    if q.next < q.statements.len() && q.next < usize::MAX {
        let s = q.statements[q.next as int];
        let on = SequenceView { next: (q.next + 1) as usize, ..q };
        let started = served(m, host);
        assert(started == push(popped(m), FrameView::Sequence(on), ControlView::Execute(s)));
        let done = exec(s, m.env, q.opened, host, rest)->Some_0;
        lemma_exec(started, s, host, rest);
        let top = arrived(started, done);
        lemma_first(m, host, done.steps, top, done.printed);
        assert(top.stack.drop_last() =~= m.stack.drop_last());
        match done.outcome {
            Outcome::Value(v) => {
                let more = run_of(on, v, done.env, host, rest)->Some_0;
                lemma_run_of(top, on, v, host, rest);
                lemma_chain(
                    m,
                    host,
                    done.steps + 1,
                    top,
                    done.printed,
                    more.steps,
                    MachineView {
                        env: more.env,
                        scope: q.saved,
                        stack: m.stack.drop_last(),
                        control: control_of(more.outcome),
                    },
                    more.printed,
                );
            },
            Outcome::Raise(_) => {
                lemma_last(m, host, done.steps + 1, top, done.printed);
            },
        }
    } else {
        lemma_once(m, host);
    }
}

/// The machine goes on with a loop as [`loop_of`] says.
#[verifier::spinoff_prover]
pub proof fn lemma_loop_of(
    m: MachineView,
    condition: ExprView,
    body: StmtView,
    last: ValueView,
    host: Host,
    fuel: nat,
)
    requires
        m.stack.len() > 0,
        m.stack.last() == FrameView::WhileCondition(condition, body, last),
        m.control == ControlView::Evaluate(condition),
        loop_of(condition, body, last, m.env, m.scope, host, fuel) is Some,
    ensures
        ({
            let r = loop_of(condition, body, last, m.env, m.scope, host, fuel)->Some_0;
            reaches(
                m,
                host,
                r.steps,
                MachineView {
                    env: r.env,
                    scope: m.scope,
                    stack: m.stack.drop_last(),
                    control: control_of(r.outcome),
                },
                r.printed,
            )
        }),
    decreases fuel, 1nat,
{
    let rest = (fuel - 1) as nat;
    let below = m.stack.drop_last();
    let c = eval(condition, m.env, m.scope, host, rest)->Some_0;
    lemma_eval(m, condition, host, rest);
    let top = arrived(m, c);
    lemma_last(m, host, c.steps, top, c.printed);
    match c.outcome {
        Outcome::Value(v) => {
            if truthy(v) {
                let inside = served(top, host);
                assert(inside == MachineView {
                    env: c.env,
                    scope: m.scope,
                    stack: below.push(FrameView::WhileBody(condition, body)),
                    control: ControlView::Execute(body),
                });
                let s = exec(body, c.env, m.scope, host, rest)->Some_0;
                lemma_exec(inside, body, host, rest);
                let ended = arrived(inside, s);
                assert(popped(ended).stack =~= below);
                lemma_last(inside, host, s.steps, ended, s.printed);
                lemma_chain(
                    m,
                    host,
                    c.steps + 1,
                    inside,
                    c.printed,
                    s.steps + 1,
                    served(ended, host),
                    s.printed,
                );
                match s.outcome {
                    Outcome::Value(x) => {
                        let again = served(ended, host);
                        assert(again == MachineView {
                            env: s.env,
                            scope: m.scope,
                            stack: below.push(FrameView::WhileCondition(condition, body, x)),
                            control: ControlView::Evaluate(condition),
                        });
                        assert(again.stack.drop_last() =~= below);
                        let more = loop_of(condition, body, x, s.env, m.scope, host, rest)->Some_0;
                        lemma_loop_of(again, condition, body, x, host, rest);
                        lemma_chain(
                            m,
                            host,
                            c.steps + s.steps + 2,
                            again,
                            c.printed + s.printed,
                            more.steps,
                            MachineView {
                                env: more.env,
                                scope: m.scope,
                                stack: below,
                                control: control_of(more.outcome),
                            },
                            more.printed,
                        );
                        assert(c.printed + (s.printed + more.printed) =~= (c.printed + s.printed)
                            + more.printed);
                    },
                    Outcome::Raise(_) => {},
                }
            }
        },
        Outcome::Raise(_) => {},
    }
}

/// The machine executes a statement as [`exec`] says.
#[verifier::spinoff_prover]
pub proof fn lemma_exec(m: MachineView, s: StmtView, host: Host, fuel: nat)
    requires
        m.control == ControlView::Execute(s),
        exec(s, m.env, m.scope, host, fuel) is Some,
    ensures
        agrees(m, host, exec(s, m.env, m.scope, host, fuel)->Some_0),
    decreases fuel, 2nat,
{
    let rest = (fuel - 1) as nat;
    let r = exec(s, m.env, m.scope, host, fuel)->Some_0;
    match s {
        StmtView::Block(statements) => {
            let q = SequenceView {
                kind: SequenceKind::Block,
                statements,
                next: 0,
                saved: m.scope,
                opened: m.env.len() as usize,
                base: m.scope,
            };
            let inside = served(m, host);
            assert(inside == enter(m, SequenceKind::Block, statements, m.scope, m.scope));
            assert(inside.stack.drop_last() =~= m.stack);
            let sub = run_of(q, ValueView::Null, inside.env, host, rest)->Some_0;
            lemma_run_of(inside, q, ValueView::Null, host, rest);
            lemma_first(m, host, sub.steps, arrived(m, r), sub.printed);
        },
        StmtView::Break(_, value) => {
            match value {
                Some(e) => {
                    lemma_framed(m, FrameView::Break, *e, host, rest);
                },
                None => {
                    lemma_once(m, host);
                },
            }
        },
        StmtView::Return(value) => {
            match value {
                Some(e) => {
                    lemma_framed(m, FrameView::Return, *e, host, rest);
                },
                None => {
                    lemma_once(m, host);
                },
            }
        },
        StmtView::Expression(e) => {
            lemma_eval(served(m, host), *e, host, rest);
            let sub = eval(*e, m.env, m.scope, host, rest)->Some_0;
            lemma_first(m, host, sub.steps, arrived(served(m, host), sub), sub.printed);
        },
        StmtView::If(condition, consequence, alternative) => {
            lemma_if(m, s, host, fuel);
        },
        StmtView::Let(name, value) => {
            lemma_framed(m, FrameView::Let(name), *value, host, rest);
        },
        StmtView::Print(e) => {
            lemma_print(m, s, host, fuel);
        },
        StmtView::While(condition, body) => {
            let inside = served(m, host);
            assert(inside.stack.drop_last() =~= m.stack);
            let sub = loop_of(*condition, *body, ValueView::Null, m.env, m.scope, host, rest)->Some_0;
            lemma_loop_of(inside, *condition, *body, ValueView::Null, host, rest);
            lemma_first(m, host, sub.steps, arrived(m, r), sub.printed);
        },
    }
}

/// A frame that waits for one value and prints nothing: the expression
/// is evaluated and its value handed to the frame.
#[verifier::spinoff_prover]
proof fn lemma_framed(m: MachineView, f: FrameView, e: ExprView, host: Host, fuel: nat)
    requires
        !(step(m).action is Print),
        served(m, host) == push(m, f, ControlView::Evaluate(e)),
        f is Break || f is Return || f is Let,
        eval(e, m.env, m.scope, host, fuel) is Some,
    ensures
        ({
            let r = eval(e, m.env, m.scope, host, fuel)->Some_0;
            let top = MachineView {
                env: r.env,
                scope: m.scope,
                stack: m.stack.push(f),
                control: control_of(r.outcome),
            };
            &&& reaches(m, host, r.steps + 2, served(top, host), r.printed)
            &&& popped(top) == MachineView { stack: m.stack, ..top }
        }),
    decreases fuel, 4nat,
{
    lemma_under(m, f, e, host, fuel);
    let r = eval(e, m.env, m.scope, host, fuel)->Some_0;
    let top = MachineView {
        env: r.env,
        scope: m.scope,
        stack: m.stack.push(f),
        control: control_of(r.outcome),
    };
    lemma_last(m, host, r.steps + 1, top, r.printed);
}

#[verifier::spinoff_prover]
proof fn lemma_if(m: MachineView, s: StmtView, host: Host, fuel: nat)
    requires
        m.control == ControlView::Execute(s),
        s is If,
        exec(s, m.env, m.scope, host, fuel) is Some,
    ensures
        agrees(m, host, exec(s, m.env, m.scope, host, fuel)->Some_0),
    decreases fuel, 1nat,
{
    let rest = (fuel - 1) as nat;
    match s {
        StmtView::If(condition, consequence, alternative) => {
            let f = FrameView::Branch(
                *consequence,
                match alternative {
                    Some(a) => Some(*a),
                    None => None,
                },
            );
            lemma_under(m, f, *condition, host, rest);
            let c = eval(*condition, m.env, m.scope, host, rest)->Some_0;
            let top = MachineView {
                env: c.env,
                scope: m.scope,
                stack: m.stack.push(f),
                control: control_of(c.outcome),
            };
            lemma_last(m, host, c.steps + 1, top, c.printed);
            match c.outcome {
                Outcome::Value(v) => {
                    if truthy(v) || alternative is Some {
                        let branch = if truthy(v) {
                            *consequence
                        } else {
                            *alternative->Some_0
                        };
                        let turned = served(top, host);
                        assert(turned == MachineView {
                            env: c.env,
                            control: ControlView::Execute(branch),
                            ..m
                        });
                        let r = exec(branch, c.env, m.scope, host, rest)->Some_0;
                        lemma_exec(turned, branch, host, rest);
                        lemma_chain(
                            m,
                            host,
                            c.steps + 2,
                            turned,
                            c.printed,
                            r.steps,
                            arrived(turned, r),
                            r.printed,
                        );
                    }
                },
                Outcome::Raise(_) => {},
            }
        },
        _ => {},
    }
}

#[verifier::spinoff_prover]
proof fn lemma_print(m: MachineView, s: StmtView, host: Host, fuel: nat)
    requires
        m.control == ControlView::Execute(s),
        s is Print,
        exec(s, m.env, m.scope, host, fuel) is Some,
    ensures
        agrees(m, host, exec(s, m.env, m.scope, host, fuel)->Some_0),
    decreases fuel, 1nat,
{
    let rest = (fuel - 1) as nat;
    match s {
        StmtView::Print(e) => {
            let f = FrameView::Print;
            lemma_under(m, f, *e, host, rest);
            let r = eval(*e, m.env, m.scope, host, rest)->Some_0;
            let top = MachineView {
                env: r.env,
                scope: m.scope,
                stack: m.stack.push(f),
                control: control_of(r.outcome),
            };
            match r.outcome {
                Outcome::Value(v) => {
                    let after = served(top, host);
                    assert(step(top).action == ActionView::Print(v));
                    assert(run(after, host, 0) == after);
                    assert(printed(top, host, 1) =~= seq![v]) by {
                        assert(printed(after, host, 0) =~= Seq::empty());
                    }
                    assert(run(top, host, 1) == after);
                    lemma_chain(m, host, r.steps + 1, top, r.printed, 1, after, seq![v]);
                    assert(r.printed + seq![v] =~= r.printed.push(v));
                },
                Outcome::Raise(_) => {
                    lemma_last(m, host, r.steps + 1, top, r.printed);
                },
            }
        },
        _ => {},
    }
}

/// The machine runs a program as [`program_of`] says: after the
/// transitions that the program takes, the next one reports how the
/// program ended.
#[verifier::spinoff_prover]
pub proof fn lemma_program_of(
    m: MachineView,
    q: SequenceView,
    last: ValueView,
    host: Host,
    fuel: nat,
)
    requires
        m.stack =~= seq![FrameView::Sequence(q)],
        q.kind == SequenceKind::Program,
        m.control == ControlView::Value(last),
        m.scope == 0,
        program_of(q.statements, q.next, last, m.env, host, fuel) is Some,
    ensures
        ({
            let r = program_of(q.statements, q.next, last, m.env, host, fuel)->Some_0;
            let end = run(m, host, r.steps);
            &&& step(end).action == ActionView::Done(r.result)
            &&& end.env == r.env
            &&& printed(m, host, r.steps) == r.printed
        }),
    decreases fuel, 1nat,
{
    let rest = (fuel - 1) as nat;
    let r = program_of(q.statements, q.next, last, m.env, host, fuel)->Some_0;
    assert(m.stack.last() == m.stack[0]);
    if q.next < q.statements.len() && q.next < usize::MAX {
        let s = q.statements[q.next as int];
        let on = SequenceView { next: (q.next + 1) as usize, ..q };
        let started = served(m, host);
        assert(started == push(popped(m), FrameView::Sequence(on), ControlView::Execute(s)));
        assert(started.stack =~= seq![FrameView::Sequence(on)]);
        let done = exec(s, m.env, 0, host, rest)->Some_0;
        lemma_exec(started, s, host, rest);
        let top = arrived(started, done);
        lemma_first(m, host, done.steps, top, done.printed);
        assert(top.stack.last() == top.stack[0]);
        match done.outcome {
            Outcome::Value(v) => {
                let more = program_of(q.statements, on.next, v, done.env, host, rest)->Some_0;
                lemma_program_of(top, on, v, host, rest);
                lemma_chain(
                    m,
                    host,
                    done.steps + 1,
                    top,
                    done.printed,
                    more.steps,
                    run(top, host, more.steps),
                    more.printed,
                );
            },
            Outcome::Raise(_) => {},
        }
    } else {
        assert(run(m, host, 0) == m);
        assert(printed(m, host, 0) =~= Seq::empty());
    }
}

/// A program that was loaded runs as [`crate::semantics::program`] says,
/// whatever the machine was doing before.
pub proof fn lemma_program(m: MachineView, statements: Seq<StmtView>, host: Host, fuel: nat)
    requires
        crate::semantics::program(statements, m.env, host, fuel) is Some,
    ensures
        ({
            let r = crate::semantics::program(statements, m.env, host, fuel)->Some_0;
            let end = run(load(m, statements), host, r.steps);
            &&& step(end).action == ActionView::Done(r.result)
            &&& end.env == r.env
            &&& printed(load(m, statements), host, r.steps) == r.printed
        }),
{
    let q = SequenceView {
        kind: SequenceKind::Program,
        statements,
        next: 0,
        saved: 0,
        opened: 0,
        base: 0,
    };
    lemma_program_of(load(m, statements), q, ValueView::Null, host, fuel);
}

} // verus!
