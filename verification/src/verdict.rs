//! The verdict on each binding, and the flag on declarations in loop headers
//! whose binding a closure captures.

use crate::binding::{Binding, Reference};
use crate::graph::{GraphView, ScopeGraph};
use crate::outline::Scope;
use crate::scope::{encloses, is_enclosed, lies_under_body, under_body_of};
use vstd::prelude::*;

verus! {

/// Why a binding must stay as it is.
#[derive(Clone, Copy, Debug, PartialEq, Eq, Structural)]
pub enum UnsafeReason {
    /// A construct in or under the binding's scope defeats static name
    /// resolution.
    DynamicScope,
    /// The name is used, outside any closure, before its declaration.
    UseBeforeDeclaration,
}

/// What may become of a function-scoped binding.
#[derive(Clone, Copy, Debug, PartialEq, Eq, Structural)]
pub enum Verdict {
    /// Never assigned after its declaration: may become `const`.
    Immutable,
    /// May become `let`.
    Mutable,
    /// Must stay `var`.
    Unsafe(UnsafeReason),
}

/// A declaration in a loop header whose binding is captured by a closure
/// made in the loop body: once block-scoped, each iteration has a binding of
/// its own, and each closure sees that of its iteration.
#[derive(Clone, Copy, Debug, PartialEq, Eq, Structural)]
pub struct CaptureSemanticsChange {
    /// Where the loop starts in the source.
    pub loop_position: usize,
}

/// Whether one of the first `n` references stores to binding `b`.
pub open spec fn written_by(references: Seq<Reference>, b: int, n: int) -> bool {
    exists|i: int|
        0 <= i < n && (#[trigger] references[i]).binding == b && references[i].access.writes()
}

/// Whether one of the first `n` references uses binding `b`, declared at
/// `position`, before that position and outside any closure.
pub open spec fn used_early_by(references: Seq<Reference>, b: int, position: usize, n: int) -> bool {
    exists|i: int|
        0 <= i < n && (#[trigger] references[i]).binding == b && references[i].depth == 0
            && references[i].position < position
}

/// Whether one of the first `n` dynamic constructs stands in `scope` or in a
/// scope inside it.
pub open spec fn tainted_by(scopes: Seq<Scope>, dynamic: Seq<usize>, scope: int, n: int) -> bool {
    exists|i: int| 0 <= i < n && encloses(scopes, scope, #[trigger] dynamic[i] as int)
}

/// Whether one of the first `n` references captures binding `b` from a
/// closure made in the body of the loop whose scope is `l`.
pub open spec fn captured_by(
    scopes: Seq<Scope>,
    references: Seq<Reference>,
    b: int,
    l: int,
    n: int,
) -> bool {
    exists|i: int|
        0 <= i < n && (#[trigger] references[i]).binding == b && references[i].depth > 0
            && under_body_of(scopes, references[i].scope as int, l)
}

/// The verdict on a binding, from what is known of its uses and its scope.
///
/// A binding that is not function-scoped gets none. A dynamic construct, then
/// a use before the declaration, make it unsafe, whatever else holds. Of the
/// rest, only a binding that is initialized, never stored to and declared
/// outside loop headers is immutable.
pub open spec fn verdict_for(binding: Binding, tainted: bool, used_early: bool, written: bool) -> Option<
    Verdict,
> {
    if !binding.function_scoped {
        None
    } else if tainted {
        Some(Verdict::Unsafe(UnsafeReason::DynamicScope))
    } else if used_early {
        Some(Verdict::Unsafe(UnsafeReason::UseBeforeDeclaration))
    } else if written || !binding.initialized || binding.in_loop_header {
        Some(Verdict::Mutable)
    } else {
        Some(Verdict::Immutable)
    }
}

impl GraphView {
    /// Whether a reference stores to binding `b`.
    pub open spec fn written(self, b: int) -> bool {
        written_by(self.references, b, self.references.len() as int)
    }

    /// Whether binding `b` is used before its declaration, outside any
    /// closure.
    pub open spec fn used_early(self, b: int) -> bool {
        used_early_by(
            self.references,
            b,
            self.bindings[b].position,
            self.references.len() as int,
        )
    }

    /// Whether a dynamic construct stands in or under the scope of binding
    /// `b`.
    pub open spec fn tainted(self, b: int) -> bool {
        tainted_by(self.scopes, self.dynamic, self.bindings[b].scope as int, self.dynamic.len() as int)
    }

    /// The verdict on binding `b`.
    pub open spec fn verdict(self, b: int) -> Option<Verdict> {
        verdict_for(self.bindings[b], self.tainted(b), self.used_early(b), self.written(b))
    }

    /// The verdict on every binding.
    pub open spec fn verdicts(self) -> Seq<Option<Verdict>> {
        Seq::new(self.bindings.len(), |b: int| self.verdict(b))
    }

    /// Whether a closure made in the body of the loop with scope `l` captures
    /// binding `b`.
    pub open spec fn captured(self, b: int, l: int) -> bool {
        captured_by(self.scopes, self.references, b, l, self.references.len() as int)
    }

    /// The flag on site `s`: set where the site stands in a loop header, its
    /// binding is function-scoped, and a closure made in the loop body
    /// captures the binding.
    pub open spec fn flag(self, s: int) -> Option<CaptureSemanticsChange> {
        match self.sites[s].header {
            Some(h) => if self.bindings[self.owners[s] as int].function_scoped && self.captured(
                self.owners[s] as int,
                h.scope as int,
            ) {
                Some(CaptureSemanticsChange { loop_position: h.position })
            } else {
                None
            },
            None => None,
        }
    }

    /// The flag on every site.
    pub open spec fn flags(self) -> Seq<Option<CaptureSemanticsChange>> {
        Seq::new(self.sites.len(), |s: int| self.flag(s))
    }
}

/// The verdict on a binding, from what is known of its uses and its scope.
pub fn judge(binding: Binding, tainted: bool, used_early: bool, written: bool) -> (v: Option<Verdict>)
    ensures
        v == verdict_for(binding, tainted, used_early, written),
{
    if !binding.function_scoped {
        None
    } else if tainted {
        Some(Verdict::Unsafe(UnsafeReason::DynamicScope))
    } else if used_early {
        Some(Verdict::Unsafe(UnsafeReason::UseBeforeDeclaration))
    } else if written || !binding.initialized || binding.in_loop_header {
        Some(Verdict::Mutable)
    } else {
        Some(Verdict::Immutable)
    }
}

/// A list of `n` flags, none of them set.
pub(crate) fn blank(n: usize) -> (v: Vec<bool>)
    ensures
        v.len() == n,
        forall|i: int| 0 <= i < n ==> !#[trigger] v[i],
{
    let mut v: Vec<bool> = Vec::new();
    while v.len() < n
        invariant
            v.len() <= n,
            forall|i: int| 0 <= i < v.len() ==> !#[trigger] v[i],
        decreases n - v.len(),
    {
        v.push(false);
    }
    v
}

/// Whether a dynamic construct stands in `scope` or in a scope inside it.
pub fn is_tainted(scopes: &Vec<Scope>, dynamic: &Vec<usize>, scope: usize) -> (r: bool)
    ensures
        r == tainted_by(scopes@, dynamic@, scope as int, dynamic.len() as int),
{
    let mut i: usize = 0;
    while i < dynamic.len()
        invariant
            i <= dynamic.len(),
            !tainted_by(scopes@, dynamic@, scope as int, i as int),
        decreases dynamic.len() - i,
    {
        if is_enclosed(scopes, scope, dynamic[i]) {
            return true;
        }
        i += 1;
    }
    false
}

/// Gives every binding of the graph its verdict.
pub fn classify(g: &ScopeGraph) -> (verdicts: Vec<Option<Verdict>>)
    ensures
        verdicts@ == g@.verdicts(),
{
    proof {
        use_type_invariant(g);
    }
    let bindings = g.bindings();
    let references = g.references();
    let n = bindings.len();
    let mut written = blank(n);
    let mut early = blank(n);
    let mut i: usize = 0;
    while i < references.len()
        invariant
            g@.wf(),
            n == bindings.len(),
            bindings@ == g@.bindings,
            references@ == g@.references,
            written.len() == n,
            early.len() == n,
            i <= references.len(),
            forall|b: int| 0 <= b < n ==> #[trigger] written[b] == written_by(references@, b, i as int),
            forall|b: int|
                0 <= b < n ==> #[trigger] early[b] == used_early_by(
                    references@,
                    b,
                    bindings[b].position,
                    i as int,
                ),
        decreases references.len() - i,
    {
        let r = references[i];
        assert(g@.references[i as int].binding < n);
        if r.access.is_write() {
            written.set(r.binding, true);
        }
        if r.depth == 0 && r.position < bindings[r.binding].position {
            early.set(r.binding, true);
        }
        i += 1;
    }
    let mut verdicts: Vec<Option<Verdict>> = Vec::new();
    let mut b: usize = 0;
    while b < n
        invariant
            g@.wf(),
            n == bindings.len(),
            bindings@ == g@.bindings,
            references@ == g@.references,
            written.len() == n,
            early.len() == n,
            b <= n,
            verdicts.len() == b,
            forall|k: int| 0 <= k < n ==> #[trigger] written[k] == g@.written(k),
            forall|k: int| 0 <= k < n ==> #[trigger] early[k] == g@.used_early(k),
            forall|k: int| 0 <= k < b ==> #[trigger] verdicts[k] == g@.verdict(k),
        decreases n - b,
    {
        let binding = bindings[b];
        assert(g@.bindings[b as int].scope < g@.scopes.len());
        let tainted = is_tainted(g.scopes(), g.dynamic(), binding.scope);
        verdicts.push(judge(binding, tainted, early[b], written[b]));
        b += 1;
    }
    assert(verdicts@ =~= g@.verdicts());
    verdicts
}

/// Whether a closure made in the body of loop `l` captures binding `b`.
pub fn is_captured(g: &ScopeGraph, b: usize, l: usize) -> (r: bool)
    ensures
        r == g@.captured(b as int, l as int),
{
    proof {
        use_type_invariant(g);
    }
    let scopes = g.scopes();
    let references = g.references();
    let mut i: usize = 0;
    while i < references.len()
        invariant
            g@.wf(),
            scopes@ == g@.scopes,
            references@ == g@.references,
            i <= references.len(),
            !captured_by(scopes@, references@, b as int, l as int, i as int),
        decreases references.len() - i,
    {
        let r = references[i];
        assert(g@.references[i as int].scope < g@.scopes.len());
        if r.binding == b && r.depth > 0 && lies_under_body(scopes, r.scope, l) {
            return true;
        }
        i += 1;
    }
    false
}

/// Gives every declaration site its flag.
pub fn flags(g: &ScopeGraph) -> (r: Vec<Option<CaptureSemanticsChange>>)
    ensures
        r@ == g@.flags(),
{
    proof {
        use_type_invariant(g);
    }
    let sites = g.sites();
    let owners = g.owners();
    let bindings = g.bindings();
    let mut r: Vec<Option<CaptureSemanticsChange>> = Vec::new();
    let mut s: usize = 0;
    while s < sites.len()
        invariant
            g@.wf(),
            sites@ == g@.sites,
            owners@ == g@.owners,
            bindings@ == g@.bindings,
            s <= sites.len(),
            r.len() == s,
            forall|k: int| 0 <= k < s ==> #[trigger] r[k] == g@.flag(k),
        decreases sites.len() - s,
    {
        assert(g@.owners[s as int] < g@.bindings.len());
        let b = owners[s];
        let flag = match sites[s].header {
            Some(h) => if bindings[b].function_scoped && is_captured(g, b, h.scope) {
                Some(CaptureSemanticsChange { loop_position: h.position })
            } else {
                None
            },
            None => None,
        };
        r.push(flag);
        s += 1;
    }
    assert(r@ =~= g@.flags());
    r
}

} // verus!
