//! Scoped variable and parameter tracking, compile time only.

use crate::util::uuid::Uuid;
use vstd::prelude::*;

verus! {

/// Which scope in the compiler's scope arena.
#[derive(Debug, Clone, Copy, PartialEq, Eq, Structural)]
pub struct ScopeId(pub usize);

impl ScopeId {
    pub fn new(id: usize) -> (r: Self)
        ensures
            r.0 == id,
    {
        ScopeId(id)
    }

    pub fn into_inner(self) -> (r: usize)
        ensures
            r == self.0,
    {
        self.0
    }
}

/// The run-time store key minted for one variable or parameter binding.
#[derive(Debug, Clone, Copy, PartialEq, Eq, Structural)]
pub struct Local(pub Uuid);

/// One lexical scope: its variable and parameter bindings, newest last, and
/// the scope it sits inside.  Variables and parameters are separate
/// namespaces.
#[derive(Debug)]
pub struct Scope {
    pub vars: Vec<(String, Local)>,
    pub params: Vec<(String, Local)>,
    pub parent: Option<ScopeId>,
}

/// The model of one scope: the same two namespaces and the parent index.
pub struct ScopeModel {
    pub vars: Seq<(String, Local)>,
    pub params: Seq<(String, Local)>,
    pub parent: Option<int>,
}

impl Scope {
    /// The scope as a model value.
    pub open spec fn model(&self) -> ScopeModel {
        ScopeModel {
            vars: self.vars@,
            params: self.params@,
            parent: match self.parent {
                Some(p) => Some(p.0 as int),
                None => None,
            },
        }
    }

    pub fn new() -> (r: Self)
        ensures
            r.model().vars == Seq::<(String, Local)>::empty(),
            r.model().params == Seq::<(String, Local)>::empty(),
            r.model().parent is None,
    {
        let r = Scope { vars: Vec::new(), params: Vec::new(), parent: None };
        proof {
            assert(r.model().vars =~= Seq::<(String, Local)>::empty());
            assert(r.model().params =~= Seq::<(String, Local)>::empty());
        }
        r
    }
}

/// The binding a name resolves to in one namespace: the newest entry with
/// that name, if any.
pub open spec fn bound_in(ns: Seq<(String, Local)>, name: Seq<char>) -> Option<Local>
    decreases ns.len(),
{
    if ns.len() == 0 {
        None
    } else if ns.last().0@ == name {
        Some(ns.last().1)
    } else {
        bound_in(ns.drop_last(), name)
    }
}

/// Look a name up in one namespace, newest binding first.
pub fn lookup_binding(ns: &Vec<(String, Local)>, name: &String) -> (r: Option<Local>)
    ensures
        r == bound_in(ns@, name@),
{
    let mut i: usize = ns.len();
    proof {
        assert(ns@.take(i as int) =~= ns@);
    }
    loop
        invariant
            0 <= i <= ns.len(),
            bound_in(ns@, name@) == bound_in(ns@.take(i as int), name@),
        ensures
            bound_in(ns@, name@) is None,
        decreases i,
    {
        if i == 0 {
            proof {
                assert(ns@.take(0) =~= Seq::<(String, Local)>::empty());
            }
            break ;
        }
        i = i - 1;
        let hit = ns[i].0 == *name;
        proof {
            let t = ns@.take(i + 1);
            assert(t.last() == ns@[i as int]);
            assert(t.drop_last() =~= ns@.take(i as int));
        }
        if hit {
            return Some(ns[i].1);
        }
    }
    None
}

} // verus!
