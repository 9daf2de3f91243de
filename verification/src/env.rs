//! Variable scopes.
//!
//! The scopes of a run live in one arena and are named by their index in
//! it.  A scope holds its own bindings and may name an enclosing scope,
//! which is always an older one.  When the block or the call that opened
//! a scope ends, the scope is released if it is the youngest and no
//! closure was made in it; a closure names the scope in which it was
//! made, and that scope stays for as long as the arena.

use vstd::prelude::*;
use vstd::string::*;

use crate::ast::{Value, ValueView};
use crate::error::{error_at, Error, ErrorView};
use crate::text::same_text;
use crate::token::{Token, TokenView};

verus! {

/// A name and the value bound to it.
pub struct Binding {
    name: String,
    value: Value,
}

/// Mathematical content of a [`Binding`].
pub struct BindingView {
    pub name: Seq<char>,
    pub value: ValueView,
}

impl View for Binding {
    type V = BindingView;

    closed spec fn view(&self) -> BindingView {
        BindingView { name: self.name@, value: self.value@ }
    }
}

/// One scope: its bindings, oldest first, the scope around it, and
/// whether a closure was made in it.  The bindings are searched in order;
/// a name occurs among them at most once, since a definition refuses a
/// name that is bound and an assignment rebinds in place.
pub struct Scope {
    bindings: Vec<Binding>,
    enclosing: Option<usize>,
    captured: bool,
}

/// Mathematical content of a [`Scope`].
pub struct ScopeView {
    pub bindings: Seq<BindingView>,
    pub enclosing: Option<usize>,
    pub captured: bool,
}

impl View for Scope {
    type V = ScopeView;

    closed spec fn view(&self) -> ScopeView {
        ScopeView {
            bindings: Seq::new(self.bindings@.len(), |i: int| self.bindings@[i]@),
            enclosing: self.enclosing,
            captured: self.captured,
        }
    }
}

/// The arena of scopes.
pub struct Environment {
    scopes: Vec<Scope>,
}

impl View for Environment {
    type V = Seq<ScopeView>;

    closed spec fn view(&self) -> Seq<ScopeView> {
        Seq::new(self.scopes@.len(), |i: int| self.scopes@[i]@)
    }
}

/// Index of the first binding of `name` at or after `from`, or the number
/// of bindings if there is none.
pub open spec fn find(bindings: Seq<BindingView>, name: Seq<char>, from: int) -> int
    decreases bindings.len() - from,
{
    if from < 0 || from >= bindings.len() {
        bindings.len() as int
    } else if bindings[from].name == name {
        from
    } else {
        find(bindings, name, from + 1)
    }
}

/// Whether `scope` itself binds `name`.
pub open spec fn binds(scope: ScopeView, name: Seq<char>) -> bool {
    find(scope.bindings, name, 0) < scope.bindings.len()
}

/// The value that `scope` itself binds to `name`.
pub open spec fn bound(scope: ScopeView, name: Seq<char>) -> ValueView {
    scope.bindings[find(scope.bindings, name, 0)].value
}

/// `scope` with `name` bound to `value`: rebound if it was bound, and
/// else added.
pub open spec fn bind(scope: ScopeView, name: Seq<char>, value: ValueView) -> ScopeView {
    let at = find(scope.bindings, name, 0);
    if at < scope.bindings.len() {
        ScopeView { bindings: scope.bindings.update(at, BindingView { name, value }), ..scope }
    } else {
        ScopeView { bindings: scope.bindings.push(BindingView { name, value }), ..scope }
    }
}

/// Every scope names, if any, an older scope as the one around it.
pub open spec fn well_founded(env: Seq<ScopeView>) -> bool {
    forall|i: int|
        0 <= i < env.len() ==> (#[trigger] env[i].enclosing matches Some(outer) ==> outer < i)
}

/// The scope that holds `name` as seen from `scope`: the first that binds
/// it among `scope` and the scopes around it, innermost first.
pub open spec fn holder(env: Seq<ScopeView>, scope: int, name: Seq<char>) -> Option<int>
    decreases scope,
{
    if scope < 0 || scope >= env.len() {
        None
    } else if binds(env[scope], name) {
        Some(scope)
    } else {
        match env[scope].enclosing {
            Some(outer) => if outer < scope {
                holder(env, outer as int, name)
            } else {
                None
            },
            None => None,
        }
    }
}

/// A scope without bindings, in which no closure was made.
pub open spec fn empty_scope(enclosing: Option<usize>) -> ScopeView {
    ScopeView { bindings: Seq::empty(), enclosing, captured: false }
}

/// What opening a scope within `enclosing` makes of `env`: one more
/// scope, empty, around which `enclosing` lies.
pub open spec fn enclose(env: Seq<ScopeView>, enclosing: usize) -> Seq<ScopeView> {
    env.push(
        empty_scope(
            if enclosing < env.len() {
                Some(enclosing)
            } else {
                None
            },
        ),
    )
}

/// What making a closure in `scope` makes of `env`: the scope is marked.
pub open spec fn capture(env: Seq<ScopeView>, scope: int) -> Seq<ScopeView> {
    if 0 <= scope < env.len() {
        env.update(scope, ScopeView { captured: true, ..env[scope] })
    } else {
        env
    }
}

/// What leaving `scope` makes of `env`: the scope is gone if it is the
/// youngest, not the global one, and no closure was made in it.
pub open spec fn release(env: Seq<ScopeView>, scope: int) -> Seq<ScopeView> {
    if 0 < scope && scope + 1 == env.len() && !env[scope].captured {
        env.drop_last()
    } else {
        env
    }
}

/// What a definition or an assignment makes of the scopes, and what it
/// hands back.
pub struct Change {
    pub env: Seq<ScopeView>,
    pub result: Result<ValueView, ErrorView>,
}

/// Defining `name` in `scope`: an error if `scope` binds it already (or
/// is no scope), else the new binding, and `Null`.
pub open spec fn define(env: Seq<ScopeView>, scope: int, name: TokenView, value: ValueView) -> Change {
    if scope < 0 || scope >= env.len() {
        Change { env, result: Err(error_at(name, "Variable not defined."@)) }
    } else if binds(env[scope], name.lexeme) {
        Change { env, result: Err(error_at(name, "Variable already defined."@)) }
    } else {
        Change {
            env: env.update(scope, bind(env[scope], name.lexeme, value)),
            result: Ok(ValueView::Null),
        }
    }
}

/// Assigning `value` to `name` as seen from `scope`: rebinds it in the
/// scope that holds it and hands the value back; an error if no scope
/// holds it.
pub open spec fn assign(env: Seq<ScopeView>, scope: int, name: TokenView, value: ValueView) -> Change {
    match holder(env, scope, name.lexeme) {
        Some(h) => Change {
            env: env.update(h, bind(env[h], name.lexeme, value)),
            result: Ok(value),
        },
        None => Change { env, result: Err(error_at(name, "Variable not defined."@)) },
    }
}

/// Reading `name` as seen from `scope`: its value in the scope that holds
/// it, which must not be `Undefined`.
pub open spec fn get(env: Seq<ScopeView>, scope: int, name: TokenView) -> Result<
    ValueView,
    ErrorView,
> {
    match holder(env, scope, name.lexeme) {
        Some(h) => if bound(env[h], name.lexeme) is Undefined {
            Err(error_at(name, "Variable not initialized."@))
        } else {
            Ok(bound(env[h], name.lexeme))
        },
        None => Err(error_at(name, "Variable not defined."@)),
    }
}

/// What a call of `define`, `assign` or `get` handed back, in the terms
/// of the functions above.
pub open spec fn outcome(r: Result<Value, Error>) -> Result<ValueView, ErrorView> {
    match r {
        Ok(v) => Ok(v@),
        Err(e) => Err(e@),
    }
}

impl Scope {
    /// Index of the binding of `name`, or the number of bindings.
    fn find(&self, name: &str) -> (at: usize)
        ensures
            at == find(self@.bindings, name@, 0),
            at <= self.bindings.len(),
    {
        let mut i: usize = 0;
        while i < self.bindings.len()
            invariant
                0 <= i <= self.bindings.len(),
                find(self@.bindings, name@, 0) == find(self@.bindings, name@, i as int),
            decreases self.bindings.len() - i,
        {
            if same_text(self.bindings[i].name.as_str(), name) {
                return i;
            }
            i += 1;
        }
        i
    }
}

impl Environment {
    /// The scopes hold, if anything, older scopes as the ones around them.
    pub closed spec fn wf(&self) -> bool {
        well_founded(self@)
    }

    /// An arena that holds the global scope, which is scope 0.
    pub fn new() -> (e: Environment)
        ensures
            e.wf(),
            e@ == seq![empty_scope(None)],
    {
        let mut scopes: Vec<Scope> = Vec::new();
        scopes.push(Scope { bindings: Vec::new(), enclosing: None, captured: false });
        let e = Environment { scopes };
        assert(e@ =~= seq![empty_scope(None)]) by {
            assert(e@[0].bindings =~= Seq::empty());
        }
        e
    }

    /// The number of scopes.
    pub fn len(&self) -> (n: usize)
        ensures
            n == self@.len(),
    {
        self.scopes.len()
    }

    /// Opens an empty scope within `enclosing` and hands back its index.
    pub fn enclosed_by(&mut self, enclosing: usize) -> (scope: usize)
        requires
            old(self).wf(),
        ensures
            final(self).wf(),
            final(self)@ == enclose(old(self)@, enclosing),
            scope == old(self)@.len(),
    {
        let scope = self.scopes.len();
        let outer = if enclosing < scope {
            Some(enclosing)
        } else {
            None
        };
        self.scopes.push(Scope { bindings: Vec::new(), enclosing: outer, captured: false });
        proof {
            assert(self@[scope as int].bindings =~= Seq::empty());
            assert(self@ =~= enclose(old(self)@, enclosing));
        }
        scope
    }

    /// Marks `scope` as one in which a closure was made.
    pub fn capture(&mut self, scope: usize)
        requires
            old(self).wf(),
        ensures
            final(self).wf(),
            final(self)@ == capture(old(self)@, scope as int),
    {
        if scope < self.scopes.len() {
            let ghost before = self@;
            self.scopes[scope].captured = true;
            proof {
                assert(self@[scope as int].bindings =~= before[scope as int].bindings);
                assert(self@ =~= capture(before, scope as int));
            }
        }
    }

    /// Releases `scope` if it is the youngest, not the global one, and no
    /// closure was made in it.
    pub fn release(&mut self, scope: usize)
        requires
            old(self).wf(),
        ensures
            final(self).wf(),
            final(self)@ == release(old(self)@, scope as int),
    {
        let n = self.scopes.len();
        if 0 < scope && scope < n && scope == n - 1 && !self.scopes[scope].captured {
            self.scopes.pop();
            proof {
                assert(self@ =~= old(self)@.drop_last());
            }
        }
    }

    /// Defines `name` in `scope`.
    pub fn define(&mut self, scope: usize, name: &Token, val: Value) -> (r: Result<Value, Error>)
        requires
            old(self).wf(),
        ensures
            final(self).wf(),
            final(self)@ == define(old(self)@, scope as int, name@, val@).env,
            outcome(r) == define(old(self)@, scope as int, name@, val@).result,
    {
        if scope >= self.scopes.len() {
            return Err(Error::from_token(name, "Variable not defined."));
        }
        let at = self.scopes[scope].find(name.lexeme.as_str());
        if at < self.scopes[scope].bindings.len() {
            return Err(Error::from_token(name, "Variable already defined."));
        }
        let ghost before = self@;
        self.scopes[scope].bindings.push(Binding { name: name.lexeme.clone(), value: val });
        proof {
            assert(self@[scope as int].bindings =~= bind(
                before[scope as int],
                name@.lexeme,
                val@,
            ).bindings);
            assert(self@ =~= before.update(
                scope as int,
                bind(before[scope as int], name@.lexeme, val@),
            ));
        }
        Ok(Value::Null)
    }

    /// The scope that holds `name` as seen from `scope`.
    fn holder(&self, scope: usize, name: &str) -> (h: Option<usize>)
        requires
            self.wf(),
        ensures
            match h {
                Some(i) => holder(self@, scope as int, name@) == Some(i as int) && i < self@.len()
                    && binds(self@[i as int], name@),
                None => holder(self@, scope as int, name@) is None,
            },
    {
        let mut s = scope;
        loop
            invariant
                self.wf(),
                holder(self@, scope as int, name@) == holder(self@, s as int, name@),
            decreases s,
        {
            if s >= self.scopes.len() {
                return None;
            }
            let at = self.scopes[s].find(name);
            if at < self.scopes[s].bindings.len() {
                return Some(s);
            }
            match self.scopes[s].enclosing {
                Some(outer) => {
                    assert(self@[s as int].enclosing == Some(outer));
                    s = outer;
                },
                None => {
                    return None;
                },
            }
        }
    }

    /// Assigns `val` to `name` as seen from `scope`.
    pub fn assign(&mut self, scope: usize, name: &Token, val: Value) -> (r: Result<Value, Error>)
        requires
            old(self).wf(),
        ensures
            final(self).wf(),
            final(self)@ == assign(old(self)@, scope as int, name@, val@).env,
            outcome(r) == assign(old(self)@, scope as int, name@, val@).result,
    {
        match self.holder(scope, name.lexeme.as_str()) {
            Some(h) => {
                let at = self.scopes[h].find(name.lexeme.as_str());
                let ghost before = self@;
                let result = val.clone();
                self.scopes[h].bindings[at] = Binding { name: name.lexeme.clone(), value: val };
                proof {
                    assert(self@[h as int].bindings =~= bind(
                        before[h as int],
                        name@.lexeme,
                        val@,
                    ).bindings);
                    assert(self@ =~= before.update(
                        h as int,
                        bind(before[h as int], name@.lexeme, val@),
                    ));
                }
                Ok(result)
            },
            None => Err(Error::from_token(name, "Variable not defined.")),
        }
    }

    /// Reads `name` as seen from `scope`.
    pub fn get(&self, scope: usize, name: &Token) -> (r: Result<Value, Error>)
        requires
            self.wf(),
        ensures
            outcome(r) == get(self@, scope as int, name@),
    {
        match self.holder(scope, name.lexeme.as_str()) {
            Some(h) => {
                let at = self.scopes[h].find(name.lexeme.as_str());
                match &self.scopes[h].bindings[at].value {
                    Value::Undefined => Err(Error::from_token(name, "Variable not initialized.")),
                    value => Ok(value.clone()),
                }
            },
            None => Err(Error::from_token(name, "Variable not defined.")),
        }
    }
}

} // verus!
