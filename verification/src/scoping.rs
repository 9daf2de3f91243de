//! What holds of scopes, whatever the program.

use vstd::prelude::*;

use crate::ast::ValueView;
use crate::env::{
    assign, bind, binds, capture, define, enclose, find, get, holder, release, well_founded,
    BindingView, ScopeView,
};
use crate::error::ErrorView;
use crate::token::TokenView;

verus! {

/// Two arenas that hold the same scopes below `bound` resolve every name
/// alike from each of those scopes: what a scope sees depends on itself
/// and on older scopes only.
pub proof fn lemma_older_scopes_see_the_same(
    env: Seq<ScopeView>,
    other: Seq<ScopeView>,
    bound: int,
    scope: int,
    name: Seq<char>,
)
    requires
        well_founded(env),
        0 <= bound <= env.len(),
        bound <= other.len(),
        forall|i: int| 0 <= i < bound ==> env[i] == other[i],
        scope < bound,
    ensures
        holder(other, scope, name) == holder(env, scope, name),
        holder(env, scope, name) matches Some(h) ==> 0 <= h <= scope && other[h] == env[h],
    decreases scope,
{
    if scope >= 0 && !binds(env[scope], name) {
        match env[scope].enclosing {
            Some(outer) => {
                if outer < scope {
                    lemma_older_scopes_see_the_same(env, other, bound, outer as int, name);
                }
            },
            None => {},
        }
    }
}

/// Opening a scope changes nothing that an existing scope sees.
pub proof fn lemma_opening_a_scope_is_invisible(
    env: Seq<ScopeView>,
    outer: usize,
    scope: int,
    seen: TokenView,
)
    requires
        well_founded(env),
        0 <= scope < env.len(),
    ensures
        get(enclose(env, outer), scope, seen) == get(env, scope, seen),
        well_founded(enclose(env, outer)),
{
    lemma_older_scopes_see_the_same(
        env,
        enclose(env, outer),
        env.len() as int,
        scope,
        seen.lexeme,
    );
}

/// A `let` inside a block is invisible outside of it: a definition in the
/// scope that a block opens changes nothing that an older scope sees,
/// and so nothing that is seen once the block has ended.
pub proof fn lemma_definition_in_a_block_is_invisible(
    env: Seq<ScopeView>,
    current: usize,
    name: TokenView,
    value: ValueView,
    scope: int,
    seen: TokenView,
)
    requires
        well_founded(env),
        0 <= scope < env.len(),
    ensures
        get(define(enclose(env, current), env.len() as int, name, value).env, scope, seen) == get(
            env,
            scope,
            seen,
        ),
{
    let inside = define(enclose(env, current), env.len() as int, name, value).env;
    lemma_older_scopes_see_the_same(env, inside, env.len() as int, scope, seen.lexeme);
}

/// Shadowing leaves the outer binding alone: once a block has defined
/// `name` in its own scope, an assignment to `name` from within the
/// block changes nothing that an older scope sees.
pub proof fn lemma_shadowing_keeps_the_outer_binding(
    env: Seq<ScopeView>,
    current: usize,
    name: TokenView,
    value: ValueView,
    assigned: ValueView,
    scope: int,
    seen: TokenView,
)
    requires
        well_founded(env),
        0 <= scope < env.len(),
    ensures
        ({
            let inside = define(enclose(env, current), env.len() as int, name, value).env;
            let after = assign(inside, env.len() as int, name, assigned);
            &&& after.result == Ok::<ValueView, ErrorView>(assigned)
            &&& !(assigned is Undefined) ==> get(after.env, env.len() as int, name) == Ok::<
                ValueView,
                ErrorView,
            >(assigned)
            &&& get(after.env, scope, seen) == get(env, scope, seen)
        }),
{
    let block = env.len() as int;
    let opened = enclose(env, current);
    let inside = define(opened, block, name, value).env;
    assert(opened[block].bindings.len() == 0);
    assert(!binds(opened[block], name.lexeme));
    assert(inside[block] == bind(opened[block], name.lexeme, value));
    assert(binds(inside[block], name.lexeme));
    assert(holder(inside, block, name.lexeme) == Some(block));
    let after = assign(inside, block, name, assigned);
    assert(after.env[block] == bind(inside[block], name.lexeme, assigned));
    assert(binds(after.env[block], name.lexeme));
    assert(holder(after.env, block, name.lexeme) == Some(block));
    lemma_older_scopes_see_the_same(env, after.env, block, scope, seen.lexeme);
}

/// A scope that does not bind a name sees it as the scope around it does.
pub proof fn lemma_unbound_name_is_seen_from_outside(
    env: Seq<ScopeView>,
    scope: int,
    outer: usize,
    seen: TokenView,
)
    requires
        0 <= scope < env.len(),
        !binds(env[scope], seen.lexeme),
        env[scope].enclosing == Some(outer),
        outer < scope,
    ensures
        get(env, scope, seen) == get(env, outer as int, seen),
{
}

/// Whether `after` holds every scope of `before`, where it was, within the
/// same scope, with at least the same names bound, and marked if it was.
pub open spec fn grows(before: Seq<ScopeView>, after: Seq<ScopeView>) -> bool {
    &&& after.len() >= before.len()
    &&& forall|i: int|
        0 <= i < before.len() ==> (#[trigger] after[i]).enclosing == before[i].enclosing && (
        before[i].captured ==> after[i].captured)
    &&& forall|i: int, name: Seq<char>|
        0 <= i < before.len() && binds(before[i], name) ==> #[trigger] binds(after[i], name)
}

/// Whether `after` is `before` without some of its youngest scopes, none
/// of them the global scope, in none of which a closure was made.
pub open spec fn shrinks(before: Seq<ScopeView>, after: Seq<ScopeView>) -> bool {
    &&& after.len() <= before.len()
    &&& before.len() > 0 ==> after.len() > 0
    &&& forall|i: int| 0 <= i < after.len() ==> #[trigger] after[i] == before[i]
    &&& forall|i: int| after.len() <= i < before.len() ==> !(#[trigger] before[i]).captured
}

/// Where a name is found does not depend on where the search starts, as
/// long as it starts before.
pub proof fn lemma_find(bindings: Seq<BindingView>, name: Seq<char>, from: int)
    requires
        0 <= from <= bindings.len(),
    ensures
        from <= find(bindings, name, from) <= bindings.len(),
        find(bindings, name, from) < bindings.len() ==> bindings[find(
            bindings,
            name,
            from,
        )].name == name,
        forall|i: int| from <= i < find(bindings, name, from) ==> bindings[i].name != name,
    decreases bindings.len() - from,
{
    if from < bindings.len() && bindings[from].name != name {
        lemma_find(bindings, name, from + 1);
    }
}

/// If `name` stands at `at`, it is found at or before `at`.
pub proof fn lemma_found(bindings: Seq<BindingView>, name: Seq<char>, at: int)
    requires
        0 <= at < bindings.len(),
        bindings[at].name == name,
    ensures
        find(bindings, name, 0) <= at,
{
    lemma_find(bindings, name, 0);
}

/// Binding a name in a scope keeps every name bound that was bound, and
/// binds the name.
pub proof fn lemma_bind_keeps(scope: ScopeView, name: Seq<char>, value: ValueView, other: Seq<char>)
    ensures
        binds(bind(scope, name, value), name),
        binds(scope, other) ==> binds(bind(scope, name, value), other),
        bind(scope, name, value).enclosing == scope.enclosing,
        bind(scope, name, value).captured == scope.captured,
{
    let at = find(scope.bindings, name, 0);
    let after = bind(scope, name, value);
    lemma_find(scope.bindings, name, 0);
    lemma_found(after.bindings, name, at);
    if binds(scope, other) {
        let there = find(scope.bindings, other, 0);
        lemma_find(scope.bindings, other, 0);
        if there == at {
            assert(other == name);
        } else {
            assert(after.bindings[there].name == other);
            lemma_found(after.bindings, other, there);
        }
    }
}

/// A definition forgets no scope and no binding.
pub proof fn lemma_define_grows(env: Seq<ScopeView>, scope: int, name: TokenView, value: ValueView)
    ensures
        grows(env, define(env, scope, name, value).env),
        define(env, scope, name, value).env.len() == env.len(),
        well_founded(env) ==> well_founded(define(env, scope, name, value).env),
{
    let after = define(env, scope, name, value).env;
    assert forall|i: int, other: Seq<char>|
        0 <= i < env.len() && binds(env[i], other) implies #[trigger] binds(after[i], other) by {
        if i == scope {
            lemma_bind_keeps(env[scope], name.lexeme, value, other);
        }
    }
    if 0 <= scope < env.len() {
        lemma_bind_keeps(env[scope], name.lexeme, value, name.lexeme);
    }
}

/// The scope that holds a name is a scope that binds it.
pub proof fn lemma_holder_is_a_scope(env: Seq<ScopeView>, scope: int, name: Seq<char>)
    ensures
        holder(env, scope, name) matches Some(h) ==> 0 <= h < env.len() && h <= scope && binds(
            env[h],
            name,
        ),
    decreases scope,
{
    if 0 <= scope < env.len() && !binds(env[scope], name) {
        match env[scope].enclosing {
            Some(outer) => {
                if outer < scope {
                    lemma_holder_is_a_scope(env, outer as int, name);
                }
            },
            None => {},
        }
    }
}

/// An assignment forgets no scope and no binding.
pub proof fn lemma_assign_grows(env: Seq<ScopeView>, scope: int, name: TokenView, value: ValueView)
    ensures
        grows(env, assign(env, scope, name, value).env),
        assign(env, scope, name, value).env.len() == env.len(),
        well_founded(env) ==> well_founded(assign(env, scope, name, value).env),
{
    let after = assign(env, scope, name, value).env;
    lemma_holder_is_a_scope(env, scope, name.lexeme);
    match holder(env, scope, name.lexeme) {
        Some(h) => {
            lemma_bind_keeps(env[h], name.lexeme, value, name.lexeme);
            assert forall|i: int, other: Seq<char>|
                0 <= i < env.len() && binds(env[i], other) implies #[trigger] binds(
                after[i],
                other,
            ) by {
                if i == h {
                    lemma_bind_keeps(env[h], name.lexeme, value, other);
                }
            }
        },
        None => {},
    }
}

/// Opening a scope forgets no scope and no binding.
pub proof fn lemma_enclose_grows(env: Seq<ScopeView>, outer: usize)
    ensures
        grows(env, enclose(env, outer)),
        well_founded(env) ==> well_founded(enclose(env, outer)),
{
}

/// Marking a scope forgets no scope and no binding.
pub proof fn lemma_capture_grows(env: Seq<ScopeView>, scope: int)
    ensures
        grows(env, capture(env, scope)),
        capture(env, scope).len() == env.len(),
        well_founded(env) ==> well_founded(capture(env, scope)),
{
}

/// Releasing a scope only shrinks the arena.
pub proof fn lemma_release_shrinks(env: Seq<ScopeView>, scope: int)
    ensures
        shrinks(env, release(env, scope)),
        well_founded(env) ==> well_founded(release(env, scope)),
{
}

/// Growing is transitive.
pub proof fn lemma_grows_twice(a: Seq<ScopeView>, b: Seq<ScopeView>, c: Seq<ScopeView>)
    requires
        grows(a, b),
        grows(b, c),
    ensures
        grows(a, c),
{
    assert forall|i: int, name: Seq<char>|
        0 <= i < a.len() && binds(a[i], name) implies #[trigger] binds(c[i], name) by {
        assert(binds(b[i], name));
    }
    assert forall|i: int| 0 <= i < a.len() implies (#[trigger] c[i]).enclosing == a[i].enclosing
        && (a[i].captured ==> c[i].captured) by {
        assert(b[i].enclosing == a[i].enclosing);
    }
}

/// Shrinking is transitive.
pub proof fn lemma_shrinks_twice(a: Seq<ScopeView>, b: Seq<ScopeView>, c: Seq<ScopeView>)
    requires
        shrinks(a, b),
        shrinks(b, c),
    ensures
        shrinks(a, c),
{
    assert forall|i: int| 0 <= i < c.len() implies #[trigger] c[i] == a[i] by {
        assert(c[i] == b[i]);
    }
    assert forall|i: int| c.len() <= i < a.len() implies !(#[trigger] a[i]).captured by {
        if i < b.len() {
            assert(b[i] == a[i]);
        }
    }
}

} // verus!
