//! Walks along the chain of enclosing scopes.

use crate::outline::{Scope, ScopeKind};
use vstd::prelude::*;

verus! {

/// Whether scope `s` has an enclosing scope, which then precedes it.
pub open spec fn has_parent(scopes: Seq<Scope>, s: int) -> bool {
    0 < s < scopes.len() && scopes[s].parent is Some && scopes[s].parent->0 < s
}

/// The scope that encloses `s`.
pub open spec fn parent(scopes: Seq<Scope>, s: int) -> int {
    scopes[s].parent->0 as int
}

/// Whether function-scoped declarations made inside the scope stay in it.
pub open spec fn holds_hoisted(scope: Scope) -> bool {
    scope.kind == ScopeKind::Function || scope.kind == ScopeKind::Module
}

/// The scope to which a function-scoped declaration made in `s` belongs: the
/// nearest function or module scope at or around `s`.
pub open spec fn hoist_target(scopes: Seq<Scope>, s: int) -> int
    decreases s,
{
    if has_parent(scopes, s) && !holds_hoisted(scopes[s]) {
        hoist_target(scopes, parent(scopes, s))
    } else {
        s
    }
}

/// Whether `a` is `s` or one of the scopes around `s`.
pub open spec fn encloses(scopes: Seq<Scope>, a: int, s: int) -> bool
    decreases s,
{
    a == s || (has_parent(scopes, s) && encloses(scopes, a, parent(scopes, s)))
}

/// Whether `s` is, or lies in, a scope that was opened in the body of the
/// loop whose scope is `l`.
pub open spec fn under_body_of(scopes: Seq<Scope>, s: int, l: int) -> bool
    decreases s,
{
    has_parent(scopes, s) && ((parent(scopes, s) == l && scopes[s].in_loop_body) || under_body_of(
        scopes,
        parent(scopes, s),
        l,
    ))
}

/// One if leaving the scope crosses a function boundary, else zero.
pub open spec fn crossing(scope: Scope) -> nat {
    if scope.kind == ScopeKind::Function {
        1
    } else {
        0
    }
}

/// The number of function boundaries crossed on the way from `s` outward to
/// `t`, a scope around it.
pub open spec fn crossings(scopes: Seq<Scope>, s: int, t: int) -> nat
    decreases s,
{
    if s != t && has_parent(scopes, s) {
        crossing(scopes[s]) + crossings(scopes, parent(scopes, s), t)
    } else {
        0
    }
}

/// A scope is never enclosed by one that comes after it.
pub proof fn lemma_encloses_precedes(scopes: Seq<Scope>, a: int, s: int)
    requires
        encloses(scopes, a, s),
    ensures
        a <= s,
    decreases s,
{
    if a != s {
        lemma_encloses_precedes(scopes, a, parent(scopes, s));
    }
}

/// The hoisting target of a scope is the scope or precedes it.
pub proof fn lemma_hoist_target_precedes(scopes: Seq<Scope>, s: int)
    requires
        0 <= s,
    ensures
        0 <= hoist_target(scopes, s) <= s,
    decreases s,
{
    if has_parent(scopes, s) && !holds_hoisted(scopes[s]) {
        lemma_hoist_target_precedes(scopes, parent(scopes, s));
    }
}

/// The scope that encloses `s`, if `s` has one that precedes it.
pub fn enclosing(scopes: &Vec<Scope>, s: usize) -> (r: Option<usize>)
    ensures
        r is Some == has_parent(scopes@, s as int),
        r is Some ==> r->0 == parent(scopes@, s as int) && r->0 < s,
{
    if 0 < s && s < scopes.len() {
        match scopes[s].parent {
            Some(p) => if p < s {
                Some(p)
            } else {
                None
            },
            None => None,
        }
    } else {
        None
    }
}

/// The scope in which a function-scoped declaration made in `s` is
/// registered.
pub fn enclosing_function(scopes: &Vec<Scope>, s: usize) -> (r: usize)
    ensures
        r == hoist_target(scopes@, s as int),
        r <= s,
{
    let mut cur = s;
    loop
        invariant
            cur <= s,
            hoist_target(scopes@, cur as int) == hoist_target(scopes@, s as int),
        decreases cur,
    {
        match enclosing(scopes, cur) {
            Some(up) => {
                if scopes[cur].kind == ScopeKind::Function || scopes[cur].kind
                    == ScopeKind::Module {
                    return cur;
                }
                cur = up;
            },
            None => {
                return cur;
            },
        }
    }
}

/// Whether scope `a` is `s` or lies around it.
pub fn is_enclosed(scopes: &Vec<Scope>, a: usize, s: usize) -> (r: bool)
    ensures
        r == encloses(scopes@, a as int, s as int),
{
    let mut cur = s;
    loop
        invariant
            cur <= s,
            encloses(scopes@, a as int, cur as int) == encloses(scopes@, a as int, s as int),
        decreases cur,
    {
        if cur == a {
            return true;
        }
        match enclosing(scopes, cur) {
            Some(up) => {
                cur = up;
            },
            None => {
                return false;
            },
        }
    }
}

/// Whether `s` is, or lies in, a scope opened in the body of loop `l`.
pub fn lies_under_body(scopes: &Vec<Scope>, s: usize, l: usize) -> (r: bool)
    ensures
        r == under_body_of(scopes@, s as int, l as int),
{
    let mut cur = s;
    loop
        invariant
            cur <= s,
            under_body_of(scopes@, cur as int, l as int) == under_body_of(
                scopes@,
                s as int,
                l as int,
            ),
        decreases cur,
    {
        match enclosing(scopes, cur) {
            Some(up) => {
                if up == l && scopes[cur].in_loop_body {
                    return true;
                }
                cur = up;
            },
            None => {
                return false;
            },
        }
    }
}

} // verus!
