//! What holds of the evaluator, whatever the program.

use vstd::prelude::*;

use crate::ast::{ExprView, LiteralView, StmtView, ValueView, SIGN};
use crate::env::{empty_scope, get, holder, well_founded};
use crate::error::ErrorView;
use crate::machine::{
    argument, call, doing, enter, is_arithmetic, popped, push, quiet, sequence, step, steps, supply,
    unwind, ActionView, CallView, ControlView, FrameView, MachineView, Moved, RuntimeView,
    SequenceKind, SequenceView,
};
use crate::scoping::{lemma_older_scopes_see_the_same, lemma_shrinks_twice, shrinks};
use crate::semantics::{run, served, Host};
use crate::sound::lemma_unwind_shrinks;
use crate::token::{TokenValue, TokenView};

verus! {

/// A closure is called in the scope in which it was made, not in that of
/// the call: the scope that holds the arguments lies within the scope
/// that the closure names, whatever the current scope is.
pub proof fn lemma_call_opens_its_scope_in_the_defining_scope(
    m: MachineView,
    token: TokenView,
    parameters: Seq<TokenView>,
    body: Seq<StmtView>,
    defining: usize,
    arguments: Seq<ExprView>,
)
    requires
        parameters.len() == arguments.len(),
        defining < m.env.len(),
    ensures
        ({
            let after = call(
                m,
                token,
                ValueView::Function(parameters, body, defining),
                arguments,
            );
            &&& after.env.len() > m.env.len()
            &&& after.env[m.env.len() as int] == empty_scope(Some(defining))
            &&& forall|i: int| 0 <= i < m.env.len() ==> after.env[i] == m.env[i]
        }),
{
}

/// The body of a call runs in a scope of its own within the scope that
/// holds the arguments; the scope of the caller is kept for the return.
pub proof fn lemma_body_runs_within_its_arguments(m: MachineView, c: CallView)
    requires
        c.index >= c.arguments.len(),
        c.closure < m.env.len(),
        m.env.len() < usize::MAX,
    ensures
        ({
            let after = argument(m, c);
            &&& after.scope == m.env.len()
            &&& after.env == m.env.push(empty_scope(Some(c.closure)))
            &&& after.stack.len() == m.stack.len() + 1
            &&& after.stack.last() matches FrameView::Sequence(q) && q.kind == SequenceKind::Body
                && q.saved == c.caller && q.opened == after.scope && q.base == c.closure
        }),
{
}

/// A closure without parameters sees, when called, what its defining
/// scope sees, from whichever scope it is called.
pub proof fn lemma_call_sees_the_defining_scope(
    m: MachineView,
    token: TokenView,
    body: Seq<StmtView>,
    defining: usize,
    seen: TokenView,
)
    requires
        well_founded(m.env),
        defining < m.env.len(),
        m.env.len() + 1 < usize::MAX,
    ensures
        ({
            let after = call(
                m,
                token,
                ValueView::Function(Seq::empty(), body, defining),
                Seq::empty(),
            );
            get(after.env, after.scope as int, seen) == get(m.env, defining as int, seen)
        }),
{
    let after = call(m, token, ValueView::Function(Seq::empty(), body, defining), Seq::empty());
    let closure = m.env.len() as int;
    let inner = closure + 1;
    assert(after.env.len() == m.env.len() + 2);
    assert(after.env[closure].bindings.len() == 0);
    assert(after.env[inner].bindings.len() == 0);
    assert(after.env[inner].enclosing == Some(closure as usize));
    assert(after.env[closure].enclosing == Some(defining));
    assert(holder(after.env, inner, seen.lexeme) == holder(after.env, closure, seen.lexeme));
    assert(holder(after.env, closure, seen.lexeme) == holder(
        after.env,
        defining as int,
        seen.lexeme,
    ));
    lemma_older_scopes_see_the_same(m.env, after.env, closure, defining as int, seen.lexeme);
}

/// An expression of arithmetic: built from numbers by `+ - * /`, negation
/// and grouping.
pub open spec fn is_arithmetic_expression(e: ExprView) -> bool
    decreases e,
{
    match e {
        ExprView::Literal(LiteralView::Number(_)) => true,
        ExprView::Grouping(inner) => is_arithmetic_expression(*inner),
        ExprView::Unary(op, right) => op.val == TokenValue::Minus && is_arithmetic_expression(
            *right,
        ),
        ExprView::Binary(op, left, right) => is_arithmetic(op.val) && is_arithmetic_expression(
            *left,
        ) && is_arithmetic_expression(*right),
        _ => false,
    }
}

/// The number that an expression of arithmetic stands for, with the
/// arithmetic of `host`: each operator is applied to what its operands
/// stand for, as the tree groups them.
pub open spec fn number_of(e: ExprView, host: Host) -> u64
    decreases e,
{
    match e {
        ExprView::Literal(LiteralView::Number(digits)) => (host.convert)(digits),
        ExprView::Grouping(inner) => number_of(*inner, host),
        ExprView::Unary(_, right) => number_of(*right, host) ^ SIGN,
        ExprView::Binary(op, left, right) => (host.compute)(
            op.val,
            number_of(*left, host),
            number_of(*right, host),
        ),
        _ => 0,
    }
}

/// The number of transitions that evaluating an expression of arithmetic
/// takes.
pub open spec fn cost(e: ExprView) -> nat
    decreases e,
{
    match e {
        ExprView::Grouping(inner) => 1 + cost(*inner),
        ExprView::Unary(_, right) => 2 + cost(*right),
        ExprView::Binary(_, left, right) => 3 + cost(*left) + cost(*right),
        _ => 1,
    }
}

/// Running `a` transitions and then `b` is running `a + b`.
pub proof fn lemma_run_on(m: MachineView, host: Host, a: nat, b: nat)
    ensures
        run(m, host, a + b) == run(run(m, host, a), host, b),
    decreases a,
{
    if a > 0 {
        assert(run(m, host, a + b) == run(served(m, host), host, (a + b - 1) as nat));
        lemma_run_on(served(m, host), host, (a - 1) as nat, b);
    }
}

/// Evaluation follows the tree: a machine about to evaluate an expression
/// of arithmetic arrives, after as many served transitions as the
/// expression costs, at the number that the expression stands for, ready
/// to hand it to what waited for the value of the expression.  The left
/// operand has been evaluated before the right one, each operation has
/// been asked of the host with the values of its two operands, and
/// nothing else has changed.
pub proof fn lemma_arithmetic_follows_the_tree(m: MachineView, e: ExprView, host: Host)
    requires
        is_arithmetic_expression(e),
        m.control == ControlView::Evaluate(e),
    ensures
        run(m, host, cost(e)) == doing(
            m,
            ControlView::Value(ValueView::Number(number_of(e, host))),
        ),
    decreases e,
{
    let first = served(m, host);
    assert(run(m, host, cost(e)) == run(first, host, (cost(e) - 1) as nat));
    match e {
        ExprView::Literal(LiteralView::Number(digits)) => {
            assert(run(first, host, 0) == first);
        },
        ExprView::Grouping(inner) => {
            assert(first == doing(m, ControlView::Evaluate(*inner)));
            lemma_arithmetic_follows_the_tree(first, *inner, host);
        },
        ExprView::Unary(op, right) => {
            assert(first == push(m, FrameView::Negate(op), ControlView::Evaluate(*right)));
            lemma_arithmetic_follows_the_tree(first, *right, host);
            let known = run(first, host, cost(*right));
            lemma_run_on(first, host, cost(*right), 1);
            assert(run(known, host, 1) == run(served(known, host), host, 0));
            assert(popped(known).stack =~= m.stack);
        },
        ExprView::Binary(op, left, right) => {
            assert(first == push(m, FrameView::Left(op, *right), ControlView::Evaluate(*left)));
            lemma_arithmetic_follows_the_tree(first, *left, host);
            let l = ValueView::Number(number_of(*left, host));
            let left_known = run(first, host, cost(*left));
            assert(popped(left_known).stack =~= m.stack);
            let second = served(left_known, host);
            assert(second == push(m, FrameView::Right(op, l), ControlView::Evaluate(*right)));
            lemma_arithmetic_follows_the_tree(second, *right, host);
            let right_known = run(second, host, cost(*right));
            assert(popped(right_known).stack =~= m.stack);
            let last = served(right_known, host);
            assert(last == doing(m, ControlView::Value(ValueView::Number(number_of(e, host)))));
            lemma_run_on(first, host, cost(*left), 2 + cost(*right));
            assert(run(left_known, host, 2 + cost(*right)) == run(
                second,
                host,
                1 + cost(*right),
            ));
            lemma_run_on(second, host, cost(*right), 1);
            assert(run(right_known, host, 1) == run(last, host, 0));
        },
        _ => {},
    }
}

/// A machine that waits for a number asks for it, and goes on asking
/// without changing, until it is handed one.
pub proof fn lemma_waiting_machine_asks(m: MachineView)
    ensures
        m.control matches ControlView::Convert(digits) ==> step(m) == (Moved {
            machine: m,
            action: ActionView::Convert(digits),
        }),
        m.control matches ControlView::Compute(op, left, right) ==> step(m) == (
        Moved {
            machine: m,
            action: ActionView::Compute(op, left, right),
        }),
{
}

/// Whether a `break` passes through `frame`: it does through every frame
/// but the body of a `while`, which catches it, and the program, which
/// ends.
pub open spec fn passes_break(frame: FrameView) -> bool {
    match frame {
        FrameView::WhileBody(_, _) => false,
        FrameView::Sequence(q) => q.kind != SequenceKind::Program,
        _ => true,
    }
}

/// A `break` ends exactly the nearest enclosing `while`, and its value is
/// the value of that loop: if the body of a `while` is the first frame
/// from the top of the stack that does not let a `break` pass, with `n`
/// frames above it, then after `n + 1` transitions these frames are gone,
/// those below are as they were, and the machine is about to hand the
/// value of the `break` to what waits for the value of the loop.  No scope
/// has changed but those of the blocks and calls that were left, which
/// are released.
pub proof fn lemma_break_ends_the_nearest_loop(m: MachineView, value: ValueView, n: nat)
    requires
        m.control == ControlView::Raise(RuntimeView::Break(value)),
        n < m.stack.len(),
        forall|i: int| m.stack.len() - n <= i < m.stack.len() ==> passes_break(#[trigger] m.stack[i]),
        m.stack[m.stack.len() - 1 - n] is WhileBody,
    ensures
        steps(m, n + 1).control == ControlView::Value(value),
        steps(m, n + 1).stack == m.stack.take(m.stack.len() - 1 - n),
        shrinks(m.env, steps(m, n + 1).env),
    decreases n,
{
    let top = m.stack.last();
    let next = step(m).machine;
    assert(next == unwind(popped(m), top, RuntimeView::Break(value)).machine);
    assert(next.stack == m.stack.drop_last());
    lemma_unwind_shrinks(popped(m), top, RuntimeView::Break(value));
    if n == 0 {
        assert(next.control == ControlView::Value(value));
        assert(steps(next, 0) == next);
        assert(steps(m, 1) == steps(next, 0));
        assert(m.stack.drop_last() =~= m.stack.take(m.stack.len() - 1));
    } else {
        assert(passes_break(top));
        assert(next.control == ControlView::Raise(RuntimeView::Break(value)));
        assert forall|i: int| next.stack.len() - (n - 1) <= i < next.stack.len() implies passes_break(
            #[trigger] next.stack[i],
        ) by {
            assert(next.stack[i] == m.stack[i]);
        }
        assert(next.stack[next.stack.len() - 1 - (n - 1)] == m.stack[m.stack.len() - 1 - n]);
        lemma_break_ends_the_nearest_loop(next, value, (n - 1) as nat);
        assert(steps(m, n + 1) == steps(next, n));
        lemma_shrinks_twice(m.env, next.env, steps(next, n).env);
        assert(next.stack.take(next.stack.len() - 1 - (n - 1)) =~= m.stack.take(
            m.stack.len() - 1 - n,
        ));
    }
}

/// Whether a `return` passes through `frame`: it does through every
/// frame but the body of a function, which catches it, and the program,
/// which ends.
pub open spec fn passes_return(frame: FrameView) -> bool {
    match frame {
        FrameView::Sequence(q) => q.kind == SequenceKind::Block,
        _ => true,
    }
}

/// A `return` ends exactly the nearest call, and its value is the value
/// of that call: if the body of a function is the first frame from the top
/// of the stack that does not let a `return` pass, with `n` frames above
/// it, then after `n + 1` transitions these frames are gone, the machine
/// is about to hand the value of the `return` to what waits for the value
/// of the call, and the current scope is that of the caller.
pub proof fn lemma_return_ends_the_nearest_call(m: MachineView, value: ValueView, n: nat)
    requires
        m.control == ControlView::Raise(RuntimeView::Return(value)),
        n < m.stack.len(),
        forall|i: int|
            m.stack.len() - n <= i < m.stack.len() ==> passes_return(#[trigger] m.stack[i]),
        m.stack[m.stack.len() - 1 - n] matches FrameView::Sequence(q) && q.kind
            == SequenceKind::Body,
    ensures
        steps(m, n + 1).control == ControlView::Value(value),
        steps(m, n + 1).stack == m.stack.take(m.stack.len() - 1 - n),
        shrinks(m.env, steps(m, n + 1).env),
        steps(m, n + 1).scope == m.stack[m.stack.len() - 1 - n]->Sequence_0.saved,
    decreases n,
{
    let top = m.stack.last();
    let next = step(m).machine;
    assert(next == unwind(popped(m), top, RuntimeView::Return(value)).machine);
    assert(next.stack == m.stack.drop_last());
    lemma_unwind_shrinks(popped(m), top, RuntimeView::Return(value));
    if n == 0 {
        assert(next.control == ControlView::Value(value));
        assert(steps(next, 0) == next);
        assert(steps(m, 1) == steps(next, 0));
        assert(m.stack.drop_last() =~= m.stack.take(m.stack.len() - 1));
    } else {
        assert(passes_return(top));
        assert(next.control == ControlView::Raise(RuntimeView::Return(value)));
        assert forall|i: int|
            next.stack.len() - (n - 1) <= i < next.stack.len() implies passes_return(
            #[trigger] next.stack[i],
        ) by {
            assert(next.stack[i] == m.stack[i]);
        }
        assert(next.stack[next.stack.len() - 1 - (n - 1)] == m.stack[m.stack.len() - 1 - n]);
        lemma_return_ends_the_nearest_call(next, value, (n - 1) as nat);
        assert(steps(m, n + 1) == steps(next, n));
        lemma_shrinks_twice(m.env, next.env, steps(next, n).env);
        assert(next.stack.take(next.stack.len() - 1 - (n - 1)) =~= m.stack.take(
            m.stack.len() - 1 - n,
        ));
    }
}

/// Whether `n` transitions from `m` end the program with the error `e`
/// alone: the first `n` ask for nothing, and the next one reports `e`.
pub open spec fn ends_with_error(m: MachineView, e: ErrorView, n: nat) -> bool {
    quiet(m, n) && step(steps(m, n)).action == ActionView::Done(Err(seq![e]))
}

/// Evaluation stops at the first error: nothing catches an error, so a
/// machine that has met one ends the program with this error alone, after
/// no more transitions than there are frames on its stack, none of which
/// starts a statement or an expression or asks for anything.
pub proof fn lemma_error_ends_the_program(m: MachineView, e: ErrorView)
    requires
        m.control == ControlView::Raise(RuntimeView::Error(e)),
    ensures
        exists|n: nat| n <= m.stack.len() && #[trigger] ends_with_error(m, e, n),
    decreases m.stack.len(),
{
    let r = RuntimeView::Error(e);
    if m.stack.len() == 0 {
        assert(steps(m, 0) == m);
        assert(ends_with_error(m, e, 0));
    } else {
        let top = m.stack.last();
        let next = step(m).machine;
        assert(step(m) == unwind(popped(m), top, r));
        if step(m).action == ActionView::Continue {
            assert(next.control == ControlView::Raise(r));
            assert(next.stack.len() == m.stack.len() - 1);
            lemma_error_ends_the_program(next, e);
            let n = choose|n: nat| n <= next.stack.len() && #[trigger] ends_with_error(next, e, n);
            assert(steps(m, n + 1) == steps(next, n));
            assert(quiet(m, n + 1));
            assert(ends_with_error(m, e, n + 1));
        } else {
            assert(steps(m, 0) == m);
            assert(ends_with_error(m, e, 0));
        }
    }
}

/// A block restores the scope on every way out: at its end, and when a
/// `break`, a `return` or an error passes through it.
pub proof fn lemma_block_restores_the_scope(
    m: MachineView,
    statements: Seq<StmtView>,
    next: usize,
    saved: usize,
    opened: usize,
    base: usize,
    value: ValueView,
    r: RuntimeView,
)
    requires
        next >= statements.len(),
    ensures
        ({
            let q = SequenceView {
                kind: SequenceKind::Block,
                statements,
                next,
                saved,
                opened,
                base,
            };
            &&& sequence(m, q, value).machine.scope == saved
            &&& sequence(m, q, value).machine.control == ControlView::Value(value)
            &&& unwind(m, FrameView::Sequence(q), r).machine.scope == saved
            &&& unwind(m, FrameView::Sequence(q), r).machine.control == ControlView::Raise(r)
        }),
        enter(
            m,
            SequenceKind::Block,
            statements,
            m.scope,
            m.scope,
        ).stack.last() matches FrameView::Sequence(q) && q.saved == m.scope,
{
}

/// A ternary evaluates its condition once and one of its branches: the
/// condition first, with the branches set aside; then, by the truth of the
/// condition, the second or the third, and never the other.
pub proof fn lemma_ternary_evaluates_one_branch(
    m: MachineView,
    op: TokenView,
    first: ExprView,
    second: ExprView,
    third: ExprView,
    value: ValueView,
)
    requires
        m.control == ControlView::Evaluate(
            ExprView::Ternary(op, Box::new(first), Box::new(second), Box::new(third)),
        ),
    ensures
        step(m).machine == push(m, FrameView::Choose(second, third), ControlView::Evaluate(first)),
        step(doing(step(m).machine, ControlView::Value(value))).machine == doing(
            m,
            ControlView::Evaluate(
                if crate::ast::truthy(value) {
                    second
                } else {
                    third
                },
            ),
        ),
{
    let waiting = doing(step(m).machine, ControlView::Value(value));
    assert(popped(waiting).stack =~= m.stack);
}

/// `&&` and `||` evaluate their right operand only where the left one
/// does not decide: `||` yields a left operand that counts as true, `&&`
/// one that does not, and neither evaluates the right operand then.
pub proof fn lemma_logical_operators_short_circuit(
    m: MachineView,
    op: TokenView,
    left: ExprView,
    right: ExprView,
    value: ValueView,
)
    requires
        m.control == ControlView::Evaluate(
            ExprView::Logical(op, Box::new(left), Box::new(right)),
        ),
        op.val == TokenValue::Or || op.val == TokenValue::And,
    ensures
        step(m).machine == push(m, FrameView::Logic(op, right), ControlView::Evaluate(left)),
        step(doing(step(m).machine, ControlView::Value(value))).machine == doing(
            m,
            if (op.val == TokenValue::Or) == crate::ast::truthy(value) {
                ControlView::Value(value)
            } else {
                ControlView::Evaluate(right)
            },
        ),
{
    let waiting = doing(step(m).machine, ControlView::Value(value));
    assert(popped(waiting).stack =~= m.stack);
}

/// A call whose body ends without a `return` yields `Null`, whatever its
/// last statement yielded, and goes back to the scope of the caller.
pub proof fn lemma_body_without_return_yields_null(m: MachineView, q: SequenceView, value: ValueView)
    requires
        q.kind == SequenceKind::Body,
        q.next >= q.statements.len(),
    ensures
        sequence(m, q, value).machine.control == ControlView::Value(ValueView::Null),
        sequence(m, q, value).machine.scope == q.saved,
        sequence(m, q, value).machine.stack == m.stack,
        sequence(m, q, value).action == ActionView::Continue,
{
}

/// A program ends with the value of its last statement, and with `Null`
/// if it has no statement: the statements run in order, each after the one
/// before it has yielded its value, and the value that the last one
/// yields is the value of the program.
pub proof fn lemma_program_ends_with_its_last_value(
    m: MachineView,
    q: SequenceView,
    value: ValueView,
    statements: Seq<StmtView>,
)
    requires
        q.kind == SequenceKind::Program,
    ensures
        q.next < q.statements.len() && q.next < usize::MAX ==> sequence(m, q, value) == (Moved {
            machine: push(
                m,
                FrameView::Sequence(SequenceView { next: (q.next + 1) as usize, ..q }),
                ControlView::Execute(q.statements[q.next as int]),
            ),
            action: ActionView::Continue,
        }),
        q.next >= q.statements.len() ==> sequence(m, q, value).action == ActionView::Done(
            Ok(value),
        ),
        step(crate::machine::load(m, statements)).action == if statements.len() == 0 {
            ActionView::Done(Ok(ValueView::Null))
        } else {
            ActionView::Continue
        },
{
    let loaded = crate::machine::load(m, statements);
    assert(loaded.stack.len() == 1);
    assert(loaded.stack.last() == loaded.stack[0]);
}

} // verus!
