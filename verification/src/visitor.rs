//! The whole pass: analyze a program, rewrite its declarations, report.

use crate::graph::{analyze, graph, GraphView, ScopeGraph};
use crate::rewrite::{advanced, apply, decide, rewrite, rewritten, rewritten_kind};
use crate::syntax::{DeclKind, Node};
use crate::verdict::{classify, flags, CaptureSemanticsChange, Verdict};
use vstd::prelude::*;

verus! {

/// What the analysis found for one declared name.
#[derive(Clone, Copy, Debug, PartialEq, Eq, Structural)]
pub struct Entry {
    /// Index of the declaring statement, in source order.
    pub statement: usize,
    /// Where the declaring statement stands.
    pub position: usize,
    /// The keyword of the declaring statement before any rewrite.
    pub kind: DeclKind,
    pub name: u32,
    /// The verdict on the name's binding; `None` where the binding is not
    /// function-scoped.
    pub verdict: Option<Verdict>,
    /// Set where block scoping changes what closures made in the loop see.
    pub flag: Option<CaptureSemanticsChange>,
}

impl GraphView {
    /// The report entry of site `s`.
    pub open spec fn entry(self, s: int) -> Entry {
        Entry {
            statement: self.sites[s].statement,
            position: self.sites[s].position,
            kind: self.sites[s].kind,
            name: self.sites[s].name,
            verdict: self.site_verdict(s),
            flag: self.flag(s),
        }
    }

    /// One entry for each declared name, in source order.
    pub open spec fn report(self) -> Seq<Entry> {
        Seq::new(self.sites.len(), |s: int| self.entry(s))
    }
}

/// Reports, for each declared name, the verdict on its binding and its flag.
pub fn report(g: &ScopeGraph) -> (r: Vec<Entry>)
    ensures
        r@ == g@.report(),
{
    proof {
        use_type_invariant(g);
    }
    let verdicts = classify(g);
    let flags = flags(g);
    let sites = g.sites();
    let owners = g.owners();
    let mut r: Vec<Entry> = Vec::new();
    let mut s: usize = 0;
    while s < sites.len()
        invariant
            g@.wf(),
            sites@ == g@.sites,
            owners@ == g@.owners,
            verdicts@ == g@.verdicts(),
            flags@ == g@.flags(),
            s <= sites.len(),
            r.len() == s,
            forall|k: int| 0 <= k < s ==> #[trigger] r[k] == g@.entry(k),
        decreases sites.len() - s,
    {
        let site = sites[s];
        assert(g@.owners[s as int] < g@.bindings.len());
        r.push(
            Entry {
                statement: site.statement,
                position: site.position,
                kind: site.kind,
                name: site.name,
                verdict: verdicts[owners[s]],
                flag: flags[s],
            },
        );
        s += 1;
    }
    assert(r@ =~= g@.report());
    r
}

/// Rewrites `var` declarations to `let` or `const` as the analysis of their
/// bindings allows. It holds one decision for each declaration statement of
/// the analyzed program and hands them out in source order.
#[derive(Debug)]
pub struct SmartVarToLetVisitor {
    decisions: Vec<Option<DeclKind>>,
    cursor: usize,
}

impl SmartVarToLetVisitor {
    /// The decisions, one for each declaration statement.
    pub closed spec fn decisions(&self) -> Seq<Option<DeclKind>> {
        self.decisions@
    }

    /// The index of the statement that is visited next.
    pub closed spec fn cursor(&self) -> int {
        self.cursor as int
    }

    /// A visitor for the program that `semantic` describes, placed before
    /// its first declaration statement.
    pub fn new(semantic: &ScopeGraph) -> (v: Self)
        ensures
            v.decisions() == semantic@.decisions(),
            v.cursor() == 0,
    {
        SmartVarToLetVisitor { decisions: decide(semantic), cursor: 0 }
    }

    /// Visits the next declaration statement: returns the keyword it gets
    /// and moves on.
    pub fn visit_variable_declaration(&mut self, kind: DeclKind) -> (r: DeclKind)
        ensures
            r == rewritten_kind(kind, old(self).decisions(), old(self).cursor()),
            final(self).cursor() == advanced(old(self).decisions(), old(self).cursor()),
            final(self).decisions() == old(self).decisions(),
    {
        let (kind, next) = apply(kind, &self.decisions, self.cursor);
        self.cursor = next;
        kind
    }

    /// Visits a tree: returns it with every declaration statement rewritten
    /// and moves behind its last.
    pub fn visit_node(&mut self, node: &Node) -> (r: Node)
        ensures
            r@ == rewritten(node@, old(self).decisions(), old(self).cursor()).0,
            final(self).cursor() == rewritten(node@, old(self).decisions(), old(self).cursor()).1,
            final(self).decisions() == old(self).decisions(),
    {
        let (node, next) = rewrite(node, &self.decisions, self.cursor);
        self.cursor = next;
        node
    }
}

/// Analyzes a program and rewrites its declarations: returns the new tree
/// and the report. The tree differs from the program only in the keywords of
/// the `var` statements that the analysis lets become `let` or `const`.
pub fn analyze_and_rewrite(program: &Node) -> (r: (Node, Vec<Entry>))
    ensures
        r.0@ == rewritten(program@, graph(program@).decisions(), 0).0,
        r.1@ == graph(program@).report(),
{
    let semantic = analyze(program);
    let entries = report(&semantic);
    let mut visitor = SmartVarToLetVisitor::new(&semantic);
    let tree = visitor.visit_node(program);
    (tree, entries)
}

} // verus!
