//! The evaluator names live scopes only.
//!
//! Scopes are released when the block or the call that opened them ends.
//! This module shows that nothing is left behind that names a released
//! scope: no frame, no closure, and not the evaluator itself.

use vstd::prelude::*;

use crate::ast::{ExprView, StmtView, ValueView};
use crate::env::{
    assign, bind, define, empty_scope, enclose, find, get, holder, release, well_founded,
    ScopeView,
};
use crate::machine::{
    leave, popped, step, supply, unwind, ControlView, FrameView, MachineView, RuntimeView,
    SequenceKind, SequenceView,
};
use crate::scoping::{
    grows, lemma_assign_grows, lemma_capture_grows, lemma_define_grows, lemma_enclose_grows,
    lemma_find, lemma_grows_twice, lemma_holder_is_a_scope, lemma_release_shrinks,
    lemma_shrinks_twice, shrinks,
};
use crate::token::TokenView;

verus! {

/// The scopes once a run of statements is over are those before without
/// the scopes of the run, if they could be released.
pub proof fn lemma_leave_shrinks(env: Seq<ScopeView>, q: SequenceView)
    ensures
        shrinks(env, leave(env, q)),
        well_founded(env) ==> well_founded(leave(env, q)),
{
    lemma_release_shrinks(env, q.opened as int);
    let first = release(env, q.opened as int);
    lemma_release_shrinks(first, q.base as int);
    lemma_shrinks_twice(env, first, release(first, q.base as int));
}

/// No transition moves or changes a scope but by binding or marking: a
/// transition either leaves every scope where it was, within the same
/// scope and with the names it bound, or it releases some of the youngest
/// scopes, in none of which a closure was made, and leaves the others
/// untouched.  The scopes stay well founded.
pub proof fn lemma_step_keeps_the_scopes(m: MachineView)
    ensures
        grows(m.env, step(m).machine.env) || shrinks(m.env, step(m).machine.env),
        well_founded(m.env) ==> well_founded(step(m).machine.env),
{
    let after = step(m).machine.env;
    match m.control {
        ControlView::Execute(s) => {
            lemma_enclose_grows(m.env, m.scope);
        },
        ControlView::Evaluate(e) => {
            lemma_capture_grows(m.env, m.scope as int);
        },
        ControlView::Value(v) => {
            if m.stack.len() > 0 {
                match m.stack.last() {
                    FrameView::Assign(name) => {
                        lemma_assign_grows(m.env, m.scope as int, name, v);
                    },
                    FrameView::Let(name) => {
                        lemma_define_grows(m.env, m.scope as int, name, v);
                    },
                    FrameView::Callee(token, arguments) => {
                        match v {
                            ValueView::Function(parameters, body, scope) => {
                                let opened = enclose(m.env, scope);
                                lemma_enclose_grows(m.env, scope);
                                lemma_enclose_grows(opened, m.env.len() as usize);
                                lemma_grows_twice(
                                    m.env,
                                    opened,
                                    enclose(opened, m.env.len() as usize),
                                );
                            },
                            _ => {},
                        }
                    },
                    FrameView::Argument(c) => {
                        if c.index < c.parameters.len() && c.index < usize::MAX {
                            let bound = define(
                                m.env,
                                c.closure as int,
                                c.parameters[c.index as int],
                                v,
                            ).env;
                            lemma_define_grows(
                                m.env,
                                c.closure as int,
                                c.parameters[c.index as int],
                                v,
                            );
                            lemma_enclose_grows(bound, c.closure);
                            lemma_grows_twice(m.env, bound, enclose(bound, c.closure));
                        }
                    },
                    FrameView::Sequence(q) => {
                        lemma_leave_shrinks(m.env, q);
                    },
                    _ => {},
                }
            }
        },
        ControlView::Raise(r) => {
            if m.stack.len() > 0 {
                match m.stack.last() {
                    FrameView::Sequence(q) => {
                        lemma_leave_shrinks(m.env, q);
                    },
                    _ => {},
                }
            }
        },
        _ => {},
    }
}

/// On its way, what left the normal path changes no scope: it only lets
/// the scopes go of what it passes through.
pub proof fn lemma_unwind_shrinks(m: MachineView, frame: FrameView, r: RuntimeView)
    ensures
        shrinks(m.env, unwind(m, frame, r).machine.env),
{
    match frame {
        FrameView::Sequence(q) => {
            lemma_leave_shrinks(m.env, q);
        },
        _ => {},
    }
}

/// Whether a value that is a closure names a scope of `env` in which a
/// closure was made.
pub open spec fn value_within(env: Seq<ScopeView>, v: ValueView) -> bool {
    v matches ValueView::Function(_, _, scope) ==> scope < env.len() && env[scope as int].captured
}

/// Whether what the machine is about to do holds no closure but within
/// `env`.
pub open spec fn control_within(env: Seq<ScopeView>, c: ControlView) -> bool {
    match c {
        ControlView::Value(v) => value_within(env, v),
        ControlView::Raise(RuntimeView::Break(v)) => value_within(env, v),
        ControlView::Raise(RuntimeView::Return(v)) => value_within(env, v),
        _ => true,
    }
}

/// Whether the values bound in a scope are within `env`.
pub open spec fn scope_within(env: Seq<ScopeView>, s: ScopeView) -> bool {
    forall|j: int| 0 <= j < s.bindings.len() ==> value_within(env, #[trigger] s.bindings[j].value)
}

/// Whether every scope that a frame names is older than scope `bound`.
pub open spec fn refs_below(f: FrameView, bound: int) -> bool {
    match f {
        FrameView::Argument(c) => c.closure < bound && c.caller < bound,
        FrameView::Sequence(q) => q.saved < bound && q.opened < bound && q.base < bound,
        _ => true,
    }
}

/// The oldest of the scopes that were opened for a frame and are
/// released with it: that of a block, those of a call.
pub open spec fn floor(f: FrameView) -> Option<usize> {
    match f {
        FrameView::Argument(c) => Some(c.closure),
        FrameView::Sequence(q) => match q.kind {
            SequenceKind::Program => None,
            SequenceKind::Block => Some(q.opened),
            SequenceKind::Body => Some(q.base),
        },
        _ => None,
    }
}

/// Whether a frame names scopes of `env` only, holds no closure but
/// within `env`, and goes back to a scope that is older than its own.
pub open spec fn frame_within(env: Seq<ScopeView>, f: FrameView) -> bool {
    &&& refs_below(f, env.len() as int)
    &&& match f {
        FrameView::Right(_, v) => value_within(env, v),
        FrameView::WhileCondition(_, _, last) => value_within(env, last),
        FrameView::Argument(c) => c.caller < c.closure,
        FrameView::Sequence(q) => match q.kind {
            SequenceKind::Program => true,
            SequenceKind::Block => q.saved < q.opened,
            SequenceKind::Body => q.saved < q.base && q.base <= q.opened,
        },
        _ => true,
    }
}

/// Whether the frames of a stack name, each, only scopes that are older
/// than the scopes of the frames above it.
pub open spec fn ordered(stack: Seq<FrameView>) -> bool {
    forall|k: int, up: int|
        0 <= k < up < stack.len() && floor(stack[up]) is Some ==> refs_below(
            #[trigger] stack[k],
            floor(#[trigger] stack[up])->Some_0 as int,
        )
}

/// Whether the machine names live scopes only: the current scope is one,
/// every frame names scopes that are older than those of the frames above
/// it, and every closure, on the stack or in a variable, names a scope
/// in which a closure was made, and which is therefore never released.
pub open spec fn sound(m: MachineView) -> bool {
    &&& well_founded(m.env)
    &&& 0 < m.env.len()
    &&& m.scope < m.env.len()
    &&& forall|i: int| 0 <= i < m.env.len() ==> scope_within(m.env, #[trigger] m.env[i])
    &&& forall|k: int| 0 <= k < m.stack.len() ==> frame_within(m.env, #[trigger] m.stack[k])
    &&& ordered(m.stack)
    &&& control_within(m.env, m.control)
}

proof fn lemma_values_grow(env: Seq<ScopeView>, after: Seq<ScopeView>)
    requires
        grows(env, after),
    ensures
        forall|v: ValueView| #[trigger] value_within(env, v) ==> value_within(after, v),
        forall|s: ScopeView| #[trigger] scope_within(env, s) ==> scope_within(after, s),
        forall|f: FrameView| #[trigger] frame_within(env, f) ==> frame_within(after, f),
        forall|c: ControlView| #[trigger] control_within(env, c) ==> control_within(after, c),
{
    assert forall|v: ValueView| #[trigger] value_within(env, v) implies value_within(after, v) by {
        match v {
            ValueView::Function(_, _, scope) => {
                assert(after[scope as int].captured);
            },
            _ => {},
        }
    }
    assert forall|s: ScopeView| #[trigger] scope_within(env, s) implies scope_within(after, s) by {
        assert forall|j: int| 0 <= j < s.bindings.len() implies value_within(
            after,
            #[trigger] s.bindings[j].value,
        ) by {
            assert(value_within(env, s.bindings[j].value));
        }
    }
}

proof fn lemma_values_shrink(env: Seq<ScopeView>, after: Seq<ScopeView>)
    requires
        shrinks(env, after),
    ensures
        forall|v: ValueView| #[trigger] value_within(env, v) ==> value_within(after, v),
        forall|s: ScopeView| #[trigger] scope_within(env, s) ==> scope_within(after, s),
        forall|c: ControlView| #[trigger] control_within(env, c) ==> control_within(after, c),
        forall|f: FrameView|
            #[trigger] frame_within(env, f) && refs_below(f, after.len() as int) ==> frame_within(
                after,
                f,
            ),
{
    assert forall|v: ValueView| #[trigger] value_within(env, v) implies value_within(after, v) by {
        match v {
            ValueView::Function(_, _, scope) => {
                if scope >= after.len() {
                    assert(!env[scope as int].captured);
                }
            },
            _ => {},
        }
    }
    assert forall|s: ScopeView| #[trigger] scope_within(env, s) implies scope_within(after, s) by {
        assert forall|j: int| 0 <= j < s.bindings.len() implies value_within(
            after,
            #[trigger] s.bindings[j].value,
        ) by {
            assert(value_within(env, s.bindings[j].value));
        }
    }
}

/// Binding a value within `env` keeps a scope within it.
proof fn lemma_bind_within(env: Seq<ScopeView>, scope: ScopeView, name: Seq<char>, value: ValueView)
    requires
        scope_within(env, scope),
        value_within(env, value),
    ensures
        scope_within(env, bind(scope, name, value)),
{
    let after = bind(scope, name, value);
    let at = find(scope.bindings, name, 0);
    lemma_find(scope.bindings, name, 0);
    assert forall|j: int| 0 <= j < after.bindings.len() implies value_within(
        env,
        #[trigger] after.bindings[j].value,
    ) by {
        if j != at {
            assert(after.bindings[j] == scope.bindings[j]);
        }
    }
}

/// A definition of a value within the scopes keeps the scopes within.
proof fn lemma_define_within(env: Seq<ScopeView>, scope: int, name: TokenView, value: ValueView)
    requires
        forall|i: int| 0 <= i < env.len() ==> scope_within(env, #[trigger] env[i]),
        value_within(env, value),
    ensures
        forall|i: int|
            0 <= i < env.len() ==> scope_within(
                define(env, scope, name, value).env,
                #[trigger] define(env, scope, name, value).env[i],
            ),
{
    let after = define(env, scope, name, value).env;
    lemma_define_grows(env, scope, name, value);
    lemma_values_grow(env, after);
    assert forall|i: int| 0 <= i < env.len() implies scope_within(after, #[trigger] after[i]) by {
        if i == scope && after != env {
            lemma_bind_within(env, env[scope], name.lexeme, value);
            assert(scope_within(env, after[i]));
        } else {
            assert(after[i] == env[i]);
            assert(scope_within(env, env[i]));
        }
    }
}

/// An assignment of a value within the scopes keeps the scopes within.
proof fn lemma_assign_within(env: Seq<ScopeView>, scope: int, name: TokenView, value: ValueView)
    requires
        forall|i: int| 0 <= i < env.len() ==> scope_within(env, #[trigger] env[i]),
        value_within(env, value),
    ensures
        forall|i: int|
            0 <= i < env.len() ==> scope_within(
                assign(env, scope, name, value).env,
                #[trigger] assign(env, scope, name, value).env[i],
            ),
{
    let after = assign(env, scope, name, value).env;
    lemma_assign_grows(env, scope, name, value);
    lemma_values_grow(env, after);
    lemma_holder_is_a_scope(env, scope, name.lexeme);
    assert forall|i: int| 0 <= i < env.len() implies scope_within(after, #[trigger] after[i]) by {
        if holder(env, scope, name.lexeme) == Some(i) {
            lemma_bind_within(env, env[i], name.lexeme, value);
            assert(scope_within(env, after[i]));
        } else {
            assert(after[i] == env[i]);
            assert(scope_within(env, env[i]));
        }
    }
}

/// What is read from scopes within `env` is within `env`.
proof fn lemma_get_within(env: Seq<ScopeView>, scope: int, name: TokenView)
    requires
        forall|i: int| 0 <= i < env.len() ==> scope_within(env, #[trigger] env[i]),
    ensures
        get(env, scope, name) matches Ok(v) ==> value_within(env, v),
{
    lemma_holder_is_a_scope(env, scope, name.lexeme);
    match holder(env, scope, name.lexeme) {
        Some(h) => {
            let at = find(env[h].bindings, name.lexeme, 0);
            lemma_find(env[h].bindings, name.lexeme, 0);
            assert(scope_within(env, env[h]));
            assert(value_within(env, env[h].bindings[at].value));
        },
        None => {},
    }
}

/// The scopes stay within the arena when it grows by empty scopes or by a
/// mark.
proof fn lemma_scopes_grow(env: Seq<ScopeView>, after: Seq<ScopeView>)
    requires
        grows(env, after),
        forall|i: int| 0 <= i < env.len() ==> scope_within(env, #[trigger] env[i]),
        forall|i: int| 0 <= i < env.len() ==> (#[trigger] after[i]).bindings == env[i].bindings,
        forall|i: int| env.len() <= i < after.len() ==> (#[trigger] after[i]).bindings.len() == 0,
    ensures
        forall|i: int| 0 <= i < after.len() ==> scope_within(after, #[trigger] after[i]),
{
    lemma_values_grow(env, after);
    assert forall|i: int| 0 <= i < after.len() implies scope_within(after, #[trigger] after[i]) by {
        if i < env.len() {
            assert(scope_within(env, env[i]));
            assert forall|j: int| 0 <= j < after[i].bindings.len() implies value_within(
                after,
                #[trigger] after[i].bindings[j].value,
            ) by {
                assert(value_within(env, env[i].bindings[j].value));
            }
        }
    }
}

/// A stack that is sound stays so with a frame on top that is within the
/// scopes and whose own scopes are younger than all that the stack names.
proof fn lemma_stack_pushed(env: Seq<ScopeView>, stack: Seq<FrameView>, f: FrameView)
    requires
        forall|k: int| 0 <= k < stack.len() ==> frame_within(env, #[trigger] stack[k]),
        ordered(stack),
        frame_within(env, f),
        floor(f) is Some ==> forall|k: int|
            0 <= k < stack.len() ==> refs_below(#[trigger] stack[k], floor(f)->Some_0 as int),
    ensures
        forall|k: int|
            0 <= k < stack.push(f).len() ==> frame_within(env, #[trigger] stack.push(f)[k]),
        ordered(stack.push(f)),
{
    let pushed = stack.push(f);
    assert forall|k: int, up: int|
        0 <= k < up < pushed.len() && floor(pushed[up]) is Some implies refs_below(
        #[trigger] pushed[k],
        floor(#[trigger] pushed[up])->Some_0 as int,
    ) by {
        assert(pushed[k] == stack[k]);
        if up < stack.len() {
            assert(pushed[up] == stack[up]);
        }
    }
}

/// A stack that is sound stays so without its top frame, and names only
/// scopes older than those of that frame.
proof fn lemma_stack_popped(env: Seq<ScopeView>, stack: Seq<FrameView>)
    requires
        stack.len() > 0,
        forall|k: int| 0 <= k < stack.len() ==> frame_within(env, #[trigger] stack[k]),
        ordered(stack),
    ensures
        forall|k: int|
            0 <= k < stack.len() - 1 ==> frame_within(env, #[trigger] stack.drop_last()[k]),
        ordered(stack.drop_last()),
        frame_within(env, stack.last()),
        floor(stack.last()) is Some ==> forall|k: int|
            0 <= k < stack.len() - 1 ==> refs_below(
                #[trigger] stack.drop_last()[k],
                floor(stack.last())->Some_0 as int,
            ),
{
    let rest = stack.drop_last();
    assert forall|k: int| 0 <= k < rest.len() implies frame_within(env, #[trigger] rest[k]) by {
        assert(rest[k] == stack[k]);
    }
    assert forall|k: int, up: int|
        0 <= k < up < rest.len() && floor(rest[up]) is Some implies refs_below(
        #[trigger] rest[k],
        floor(#[trigger] rest[up])->Some_0 as int,
    ) by {
        assert(rest[k] == stack[k]);
        assert(rest[up] == stack[up]);
    }
    if floor(stack.last()) is Some {
        assert forall|k: int| 0 <= k < rest.len() implies refs_below(
            #[trigger] rest[k],
            floor(stack.last())->Some_0 as int,
        ) by {
            assert(rest[k] == stack[k]);
            assert(stack.last() == stack[stack.len() - 1]);
        }
    }
}

/// The frames of a stack stay within an arena that grows.
proof fn lemma_stack_grows(env: Seq<ScopeView>, after: Seq<ScopeView>, stack: Seq<FrameView>)
    requires
        grows(env, after),
        forall|k: int| 0 <= k < stack.len() ==> frame_within(env, #[trigger] stack[k]),
    ensures
        forall|k: int| 0 <= k < stack.len() ==> frame_within(after, #[trigger] stack[k]),
        forall|k: int| 0 <= k < stack.len() ==> refs_below(#[trigger] stack[k], env.len() as int),
{
    lemma_values_grow(env, after);
    assert forall|k: int| 0 <= k < stack.len() implies frame_within(after, #[trigger] stack[k])
        && refs_below(stack[k], env.len() as int) by {
        assert(frame_within(env, stack[k]));
    }
}

/// A machine stays sound when a run of statements is over and its
/// scopes are released.
proof fn lemma_left_is_sound(m: MachineView, q: SequenceView, control: ControlView)
    requires
        well_founded(m.env),
        0 < m.env.len(),
        forall|i: int| 0 <= i < m.env.len() ==> scope_within(m.env, #[trigger] m.env[i]),
        forall|k: int| 0 <= k < m.stack.len() ==> frame_within(m.env, #[trigger] m.stack[k]),
        ordered(m.stack),
        frame_within(m.env, FrameView::Sequence(q)),
        q.kind != SequenceKind::Program,
        forall|k: int|
            0 <= k < m.stack.len() ==> refs_below(
                #[trigger] m.stack[k],
                floor(FrameView::Sequence(q))->Some_0 as int,
            ),
        control_within(m.env, control),
    ensures
        sound(MachineView { env: leave(m.env, q), scope: q.saved, control, ..m }),
{
    let after = leave(m.env, q);
    lemma_leave_shrinks(m.env, q);
    lemma_values_shrink(m.env, after);
    let first = release(m.env, q.opened as int);
    assert(q.saved < after.len());
    assert forall|i: int| 0 <= i < after.len() implies scope_within(after, #[trigger] after[i]) by {
        assert(after[i] == m.env[i]);
        assert(scope_within(m.env, m.env[i]));
    }
    assert forall|k: int| 0 <= k < m.stack.len() implies frame_within(after, #[trigger] m.stack[k]) by {
        assert(frame_within(m.env, m.stack[k]));
        assert(refs_below(m.stack[k], floor(FrameView::Sequence(q))->Some_0 as int));
        assert(refs_below(m.stack[k], after.len() as int));
    }
}

/// No closure is left without its scope and no frame without the scope
/// it goes back to: a machine that names live scopes only does so after
/// every transition.  So a closure finds, whenever it is called, the
/// scope in which it was made ([`lemma_step_keeps_the_scopes`] says: as it
/// was left), however long ago the block or the call that opened that
/// scope has ended; and what is released is named by nothing.
pub proof fn lemma_step_is_sound(m: MachineView)
    requires
        sound(m),
        step(m).machine.env.len() <= usize::MAX,
    ensures
        sound(step(m).machine),
{
    let n = m.env.len();
    let after = step(m).machine;
    lemma_step_keeps_the_scopes(m);
    match m.control {
        ControlView::Execute(s) => {
            let stay = MachineView { control: after.control, ..m };
            match s {
                StmtView::Block(statements) => {
                    lemma_enclose_grows(m.env, m.scope);
                    lemma_scopes_grow(m.env, after.env);
                    lemma_stack_grows(m.env, after.env, m.stack);
                    lemma_values_grow(m.env, after.env);
                    lemma_stack_pushed(after.env, m.stack, after.stack.last());
                    assert(after.stack =~= m.stack.push(after.stack.last()));
                },
                _ => {
                    if after.stack != m.stack {
                        lemma_stack_pushed(m.env, m.stack, after.stack.last());
                        assert(after.stack =~= m.stack.push(after.stack.last()));
                    }
                },
            }
        },
        ControlView::Evaluate(e) => {
            match e {
                ExprView::Variable(name) => {
                    lemma_get_within(m.env, m.scope as int, name);
                },
                ExprView::Function(parameters, statements) => {
                    lemma_capture_grows(m.env, m.scope as int);
                    lemma_scopes_grow(m.env, after.env);
                    lemma_stack_grows(m.env, after.env, m.stack);
                },
                _ => {
                    if after.stack != m.stack {
                        lemma_stack_pushed(m.env, m.stack, after.stack.last());
                        assert(after.stack =~= m.stack.push(after.stack.last()));
                    }
                },
            }
        },
        ControlView::Value(v) => {
            if m.stack.len() > 0 {
                let rest = popped(m);
                let top = m.stack.last();
                lemma_stack_popped(m.env, m.stack);
                match top {
                    FrameView::Assign(name) => {
                        lemma_assign_grows(m.env, m.scope as int, name, v);
                        lemma_assign_within(m.env, m.scope as int, name, v);
                        lemma_stack_grows(m.env, after.env, rest.stack);
                        lemma_values_grow(m.env, after.env);
                    },
                    FrameView::Let(name) => {
                        lemma_define_grows(m.env, m.scope as int, name, v);
                        lemma_define_within(m.env, m.scope as int, name, v);
                        lemma_stack_grows(m.env, after.env, rest.stack);
                        lemma_values_grow(m.env, after.env);
                    },
                    FrameView::Callee(token, arguments) => {
                        match v {
                            ValueView::Function(parameters, body, scope) => {
                                if parameters.len() == arguments.len() {
                                    lemma_scopes_grow(m.env, after.env);
                                    lemma_stack_grows(m.env, after.env, rest.stack);
                                    lemma_stack_pushed(after.env, rest.stack, after.stack.last());
                                    assert(after.stack =~= rest.stack.push(after.stack.last()));
                                }
                            },
                            _ => {},
                        }
                    },
                    FrameView::Argument(c) => {
                        if c.index < c.parameters.len() && c.index < usize::MAX {
                            let name = c.parameters[c.index as int];
                            let bound = define(m.env, c.closure as int, name, v);
                            lemma_define_grows(m.env, c.closure as int, name, v);
                            lemma_define_within(m.env, c.closure as int, name, v);
                            lemma_values_grow(m.env, bound.env);
                            lemma_stack_grows(m.env, bound.env, rest.stack);
                            if bound.result is Ok {
                                if c.index + 1 >= c.arguments.len() {
                                    lemma_enclose_grows(bound.env, c.closure);
                                    lemma_scopes_grow(bound.env, after.env);
                                    lemma_stack_grows(bound.env, after.env, rest.stack);
                                    lemma_values_grow(bound.env, after.env);
                                }
                                lemma_stack_pushed(after.env, rest.stack, after.stack.last());
                                assert(after.stack =~= rest.stack.push(after.stack.last()));
                            }
                        }
                    },
                    FrameView::Sequence(q) => {
                        if q.next < q.statements.len() && q.next < usize::MAX {
                            lemma_stack_pushed(m.env, rest.stack, after.stack.last());
                            assert(after.stack =~= rest.stack.push(after.stack.last()));
                        } else if q.kind != SequenceKind::Program {
                            lemma_left_is_sound(rest, q, after.control);
                        }
                    },
                    FrameView::Left(_, _) => {
                        lemma_stack_pushed(m.env, rest.stack, after.stack.last());
                        assert(after.stack =~= rest.stack.push(after.stack.last()));
                    },
                    FrameView::WhileCondition(_, _, _) => {
                        if after.stack != rest.stack {
                            lemma_stack_pushed(m.env, rest.stack, after.stack.last());
                            assert(after.stack =~= rest.stack.push(after.stack.last()));
                        }
                    },
                    FrameView::WhileBody(_, _) => {
                        lemma_stack_pushed(m.env, rest.stack, after.stack.last());
                        assert(after.stack =~= rest.stack.push(after.stack.last()));
                    },
                    _ => {},
                }
            }
        },
        ControlView::Raise(r) => {
            if m.stack.len() > 0 {
                let rest = popped(m);
                lemma_stack_popped(m.env, m.stack);
                match m.stack.last() {
                    FrameView::Sequence(q) => {
                        if q.kind != SequenceKind::Program {
                            lemma_left_is_sound(rest, q, after.control);
                        }
                    },
                    _ => {},
                }
            }
        },
        _ => {},
    }
}

/// A new machine names live scopes only.
pub proof fn lemma_new_machine_is_sound()
    ensures
        sound(
            MachineView {
                env: seq![empty_scope(None)],
                scope: 0,
                stack: Seq::empty(),
                control: ControlView::Idle,
            },
        ),
{
}

/// A machine that names live scopes only does so when it is handed a
/// number and when it is loaded with a program.
pub proof fn lemma_supply_and_load_are_sound(m: MachineView, bits: u64, statements: Seq<StmtView>)
    requires
        sound(m),
    ensures
        sound(supply(m, bits)),
        sound(crate::machine::load(m, statements)),
{
}

} // verus!
