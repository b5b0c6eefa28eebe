//! Environments: the bindings of names to values, scope within scope.
use crate::expr::{Expr, ExprView, Native};
use vstd::hash_map::StringHashMap;
use vstd::prelude::*;

verus! {

/// A scope: its own bindings, and the scope that encloses it, if any. A name
/// that the scope does not bind itself means what it means in the enclosing
/// scope.
pub struct Env {
    /// The enclosing scope.
    pub parent: Option<Box<Env>>,
    /// The bindings of this scope.
    pub bindings: StringHashMap<Expr>,
}

impl Env {
    /// The bindings of this scope alone.
    pub open spec fn local(&self) -> Map<Seq<char>, ExprView> {
        Map::new(
            |name: Seq<char>| self.bindings@.contains_key(name),
            |name: Seq<char>| self.bindings@[name]@,
        )
    }

    /// The bindings that are visible in this scope: its own, and those of the
    /// enclosing scopes that it does not hide.
    pub open spec fn visible(&self) -> Map<Seq<char>, ExprView>
        decreases self,
    {
        match self.parent {
            None => self.local(),
            Some(parent) => parent.visible().union_prefer_right(self.local()),
        }
    }

    /// A scope with no bindings and no enclosing scope.
    pub fn new() -> (env: Env)
        ensures
            env.parent is None,
            env.bindings@ == Map::<Seq<char>, Expr>::empty(),
            env@ == Map::<Seq<char>, ExprView>::empty(),
    {
        Env { parent: None, bindings: StringHashMap::new() }
    }

    /// A scope with no bindings of its own inside `parent`.
    pub fn nested(parent: Env) -> (env: Env)
        ensures
            env.parent == Some(Box::new(parent)),
            env.bindings@ == Map::<Seq<char>, Expr>::empty(),
            env@ == parent@,
    {
        Env { parent: Some(Box::new(parent)), bindings: StringHashMap::new() }
    }

    /// Binds `name` to `value` in this scope, in place of what the scope
    /// bound it to before; the enclosing scopes stay as they are.
    pub fn bind(&mut self, name: &str, value: Expr)
        ensures
            final(self).parent == old(self).parent,
            final(self).bindings@ == old(self).bindings@.insert(name@, value),
            final(self)@ == old(self)@.insert(name@, value@),
    {
        self.bindings.insert(String::from_str(name), value);
    }

    /// Looks `name` up: in this scope first, then in the enclosing scopes
    /// from the inside out.
    pub fn lookup(&self, name: &str) -> (found: Option<&Expr>)
        ensures
            match found {
                Some(value) => self@.contains_key(name@) && value@ == self@[name@],
                None => !self@.contains_key(name@),
            },
        decreases self,
    {
        match self.bindings.get(name) {
            Some(value) => Some(value),
            None => match &self.parent {
                Some(parent) => parent.lookup(name),
                None => None,
            },
        }
    }
}

impl View for Env {
    type V = Map<Seq<char>, ExprView>;

    open spec fn view(&self) -> Map<Seq<char>, ExprView> {
        self.visible()
    }
}

/// Whether every number that `env` binds, alone or inside a list, has a
/// value.
pub open spec fn well_formed_bindings(env: Map<Seq<char>, ExprView>) -> bool {
    forall|name: Seq<char>| env.contains_key(name) ==> (#[trigger] env[name]).well_formed()
}

/// The name of addition.
pub open spec fn plus() -> Seq<char> {
    seq!['+']
}

/// The name of subtraction.
pub open spec fn minus() -> Seq<char> {
    seq!['-']
}

/// The outermost scope, in which `+` and `-` name the functions of the
/// interpreter and nothing else is bound.
pub fn default_env() -> (env: Env)
    ensures
        env.parent is None,
        env@ == map![
            plus() => ExprView::Func(Native::Add),
            minus() => ExprView::Func(Native::Sub),
        ],
        well_formed_bindings(env@),
{
    let mut env = Env::new();
    proof {
        reveal_strlit("+");
        reveal_strlit("-");
        assert("+"@ =~= plus());
        assert("-"@ =~= minus());
    }
    env.bind("+", Expr::Func(Native::Add));
    env.bind("-", Expr::Func(Native::Sub));
    env
}

} // verus!
