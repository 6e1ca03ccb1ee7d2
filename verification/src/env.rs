//! The environment chain.
//!
//! Scopes form a tree rooted at the global scope.  The whole tree lives in
//! one arena: `encl[e]` is scope `e`'s enclosing scope, and every binding is
//! a `(scope, name, value)` triple in one growing list, later bindings
//! shadowing earlier ones of the same scope.  New scopes only ever point to
//! older ones, so a chain walk always descends and needs no reference
//! counting; a closure can hold its defining scope as a plain index.

use vstd::prelude::*;

use crate::types::Type;

verus! {

#[derive(Clone, Copy, Debug, PartialEq, Eq, Structural)]
pub struct Binding {
    pub env: usize,
    pub sym: usize,
    pub val: Type,
}

/// The binding that `sym` denotes in scope `env` itself (not its enclosing
/// scopes): the index of the last binding of that scope with that name.
pub open spec fn find_bind(binds: Seq<Binding>, env: int, sym: int) -> Option<int>
    decreases binds.len(),
{
    if binds.len() == 0 {
        None
    } else if binds.last().env == env && binds.last().sym == sym {
        Some(binds.len() - 1)
    } else {
        find_bind(binds.drop_last(), env, sym)
    }
}

/// The binding that `sym` denotes in scope `env`, walking the chain from the
/// innermost scope outwards; the first scope that binds the name wins.  A
/// chain edge that does not point to an older scope ends the walk; the
/// interpreter never creates such an edge.
pub open spec fn resolve(encl: Seq<Option<usize>>, binds: Seq<Binding>, env: int, sym: int) -> Option<int>
    decreases env,
{
    if !(0 <= env < encl.len()) {
        None
    } else {
        match find_bind(binds, env, sym) {
            Some(k) => Some(k),
            None => match encl[env] {
                Some(p) => if p < env {
                    resolve(encl, binds, p as int, sym)
                } else {
                    None
                },
                None => None,
            },
        }
    }
}

/// The value `sym` denotes in scope `env`.
pub open spec fn lookup(encl: Seq<Option<usize>>, binds: Seq<Binding>, env: int, sym: int) -> Option<Type> {
    match resolve(encl, binds, env, sym) {
        Some(k) => if 0 <= k < binds.len() {
            Some(binds[k].val)
        } else {
            None
        },
        None => None,
    }
}

pub proof fn lemma_find_bind(binds: Seq<Binding>, env: int, sym: int)
    ensures
        match find_bind(binds, env, sym) {
            Some(k) => 0 <= k < binds.len() && binds[k].env == env && binds[k].sym == sym
                && forall|j: int| k < j < binds.len() ==> !(binds[j].env == env && binds[j].sym == sym),
            None => forall|j: int| 0 <= j < binds.len() ==> !(binds[j].env == env && binds[j].sym == sym),
        },
    decreases binds.len(),
{
    if binds.len() > 0 && !(binds.last().env == env && binds.last().sym == sym) {
        lemma_find_bind(binds.drop_last(), env, sym);
        assert forall|j: int| 0 <= j < binds.len() - 1 implies binds.drop_last()[j] == binds[j] by {}
    }
}

pub struct Environment {
    pub encl: Vec<Option<usize>>,
    pub binds: Vec<Binding>,
}

impl Environment {
    /// The global scope alone, with nothing bound yet.
    pub fn global() -> (r: Environment)
        ensures
            r.encl@ == seq![None::<usize>],
            r.binds@ == Seq::<Binding>::empty(),
    {
        let mut encl: Vec<Option<usize>> = Vec::new();
        encl.push(None);
        let r = Environment { encl, binds: Vec::new() };
        proof {
            assert(r.encl@ =~= seq![None::<usize>]);
            assert(r.binds@ =~= Seq::<Binding>::empty());
        }
        r
    }

    /// A fresh scope whose enclosing scope is `enclosing`; returns its index.
    pub fn new(&mut self, enclosing: Option<usize>) -> (r: usize)
        ensures
            final(self).encl@ == old(self).encl@.push(enclosing),
            final(self).binds == old(self).binds,
            r == old(self).encl@.len(),
    {
        let r = self.encl.len();
        self.encl.push(enclosing);
        r
    }

    /// Bind `sym` to `val` in scope `env`, shadowing any earlier binding of
    /// the same scope.
    pub fn define(&mut self, env: usize, sym: usize, val: Type)
        ensures
            final(self).encl == old(self).encl,
            final(self).binds@ == old(self).binds@.push(Binding { env, sym, val }),
    {
        self.binds.push(Binding { env, sym, val });
    }

    /// The value `sym` denotes in scope `env`, through the chain.
    pub fn get(&self, env: usize, sym: usize) -> (r: Option<Type>)
        ensures
            r == lookup(self.encl@, self.binds@, env as int, sym as int),
        decreases env,
    {
        if env >= self.encl.len() {
            return None;
        }
        proof {
            lemma_find_bind(self.binds@, env as int, sym as int);
        }
        let mut k = self.binds.len();
        while k > 0
            invariant
                env < self.encl.len(),
                0 <= k <= self.binds.len(),
                forall|j: int| k <= j < self.binds@.len() ==> !(self.binds@[j].env == env
                    && self.binds@[j].sym == sym),
            decreases k,
        {
            k -= 1;
            let b = self.binds[k];
            if b.env == env && b.sym == sym {
                proof {
                    lemma_find_bind(self.binds@, env as int, sym as int);
                    lemma_find_bind_at(self.binds@, env as int, sym as int, k as int);
                }
                return Some(b.val);
            }
        }
        proof {
            lemma_find_bind(self.binds@, env as int, sym as int);
            assert(find_bind(self.binds@, env as int, sym as int) is None) by {
                lemma_find_bind_none(self.binds@, env as int, sym as int);
            }
        }
        match self.encl[env] {
            Some(p) => {
                if p < env {
                    self.get(p, sym)
                } else {
                    None
                }
            },
            None => None,
        }
    }

    /// Assign `val` to the binding `sym` resolves to in scope `env`; false
    /// when the name is nowhere bound along the chain.
    pub fn assign(&mut self, env: usize, sym: usize, val: Type) -> (r: bool)
        ensures
            final(self).encl == old(self).encl,
            match resolve(old(self).encl@, old(self).binds@, env as int, sym as int) {
                Some(k) => r && final(self).binds@ == old(self).binds@.update(
                    k,
                    Binding {
                        env: old(self).binds@[k].env,
                        sym: old(self).binds@[k].sym,
                        val,
                    },
                ),
                None => !r && final(self).binds == old(self).binds,
            },
    {
        match self.resolve_at(env, sym) {
            Some(k) => {
                proof {
                    lemma_resolve_in_range(self.encl@, self.binds@, env as int, sym as int);
                }
                let ghost rk = resolve(self.encl@, self.binds@, env as int, sym as int);
                proof {
                    assert(rk == Some(k as int));
                    assert(0 <= k < self.binds@.len());
                }
                let b = self.binds[k];
                self.binds[k] = Binding { env: b.env, sym: b.sym, val };
                proof {
                    assert(self.binds@ =~= old(self).binds@.update(
                        k as int,
                        Binding {
                            env: old(self).binds@[k as int].env,
                            sym: old(self).binds@[k as int].sym,
                            val,
                        },
                    ));
                }
                true
            },
            None => false,
        }
    }

    /// The index of the binding `sym` resolves to in scope `env`.
    fn resolve_at(&self, env: usize, sym: usize) -> (r: Option<usize>)
        ensures
            match r {
                Some(k) => resolve(self.encl@, self.binds@, env as int, sym as int) == Some(
                    k as int,
                ),
                None => resolve(self.encl@, self.binds@, env as int, sym as int) is None,
            },
        decreases env,
    {
        if env >= self.encl.len() {
            return None;
        }
        proof {
            lemma_resolve_in_range(self.encl@, self.binds@, env as int, sym as int);
        }
        let mut k = self.binds.len();
        while k > 0
            invariant
                env < self.encl.len(),
                0 <= k <= self.binds.len(),
                forall|j: int| k <= j < self.binds@.len() ==> !(self.binds@[j].env == env
                    && self.binds@[j].sym == sym),
            decreases k,
        {
            k -= 1;
            let b = self.binds[k];
            if b.env == env && b.sym == sym {
                proof {
                    lemma_find_bind_at(self.binds@, env as int, sym as int, k as int);
                }
                return Some(k);
            }
        }
        proof {
            lemma_find_bind_none(self.binds@, env as int, sym as int);
        }
        match self.encl[env] {
            Some(p) => {
                if p < env {
                    self.resolve_at(p, sym)
                } else {
                    None
                }
            },
            None => None,
        }
    }
}

/// When position `k` holds the name and nothing later does, `find_bind`
/// lands on `k`.
pub proof fn lemma_find_bind_at(binds: Seq<Binding>, env: int, sym: int, k: int)
    requires
        0 <= k < binds.len(),
        binds[k].env == env && binds[k].sym == sym,
        forall|j: int| k < j < binds.len() ==> !(binds[j].env == env && binds[j].sym == sym),
    ensures
        find_bind(binds, env, sym) == Some(k),
    decreases binds.len(),
{
    if k < binds.len() - 1 {
        assert forall|j: int| k < j < binds.len() - 1 implies !(binds.drop_last()[j].env == env
            && binds.drop_last()[j].sym == sym) by {
            assert(binds.drop_last()[j] == binds[j]);
        }
        lemma_find_bind_at(binds.drop_last(), env, sym, k);
    }
}

/// When no position holds the name, `find_bind` finds nothing.
pub proof fn lemma_find_bind_none(binds: Seq<Binding>, env: int, sym: int)
    requires
        forall|j: int| 0 <= j < binds.len() ==> !(binds[j].env == env && binds[j].sym == sym),
    ensures
        find_bind(binds, env, sym) is None,
    decreases binds.len(),
{
    if binds.len() > 0 {
        assert forall|j: int| 0 <= j < binds.len() - 1 implies !(binds.drop_last()[j].env == env
            && binds.drop_last()[j].sym == sym) by {
            assert(binds.drop_last()[j] == binds[j]);
        }
        lemma_find_bind_none(binds.drop_last(), env, sym);
    }
}

/// A resolved binding index lies in range and carries the looked-up name.
pub proof fn lemma_resolve_in_range(encl: Seq<Option<usize>>, binds: Seq<Binding>, env: int, sym: int)
    ensures
        match resolve(encl, binds, env, sym) {
            Some(k) => 0 <= k < binds.len() && binds[k].sym == sym,
            None => true,
        },
    decreases env,
{
    if 0 <= env < encl.len() {
        lemma_find_bind(binds, env, sym);
        match find_bind(binds, env, sym) {
            Some(_) => {},
            None => match encl[env] {
                Some(p) => {
                    if p < env {
                        lemma_resolve_in_range(encl, binds, p as int, sym);
                    }
                },
                None => {},
            },
        }
    }
}

} // verus!
