//! The scope graph: scopes, bindings and references of one program.

use crate::binding::{
    accounted, collect, distinct_keys, owner, references_of, references_placed, register,
    registered, Binding, Reference,
};
use crate::outline::{
    outline_of, scopes_wf, indices_within, sites_within, survey, Outline, OutlineView, Scope, Site,
    Statement,
};
use crate::syntax::Node;
use vstd::prelude::*;

verus! {

/// The scope graph of one program. Scopes, bindings and references live in
/// arenas and name each other by index.
#[derive(Debug)]
pub struct ScopeGraph {
    scopes: Vec<Scope>,
    statements: Vec<Statement>,
    sites: Vec<Site>,
    owners: Vec<usize>,
    dynamic: Vec<usize>,
    bindings: Vec<Binding>,
    references: Vec<Reference>,
}

/// The mathematical value of a [`ScopeGraph`].
pub ghost struct GraphView {
    pub scopes: Seq<Scope>,
    /// The declaration statements, in source order.
    pub statements: Seq<Statement>,
    /// The declared names, in source order.
    pub sites: Seq<Site>,
    /// For each site, the binding that its name belongs to.
    pub owners: Seq<usize>,
    /// The scopes in which a construct defeats static name resolution.
    pub dynamic: Seq<usize>,
    pub bindings: Seq<Binding>,
    /// Every resolved use, in source order.
    pub references: Seq<Reference>,
}

impl View for ScopeGraph {
    type V = GraphView;

    closed spec fn view(&self) -> GraphView {
        GraphView {
            scopes: self.scopes@,
            statements: self.statements@,
            sites: self.sites@,
            owners: self.owners@,
            dynamic: self.dynamic@,
            bindings: self.bindings@,
            references: self.references@,
        }
    }
}

impl ScopeGraph {
    /// What holds of every scope graph.
    #[verifier::type_invariant]
    pub open spec fn well_formed(&self) -> bool {
        self@.wf()
    }

    /// The scopes; a scope precedes the scopes inside it.
    pub fn scopes(&self) -> (r: &Vec<Scope>)
        ensures
            r@ == self@.scopes,
    {
        &self.scopes
    }

    /// The declaration statements, in source order.
    pub fn statements(&self) -> (r: &Vec<Statement>)
        ensures
            r@ == self@.statements,
    {
        &self.statements
    }

    /// The declared names, in source order.
    pub fn sites(&self) -> (r: &Vec<Site>)
        ensures
            r@ == self@.sites,
    {
        &self.sites
    }

    /// For each site, the index of the binding that its name belongs to.
    pub fn owners(&self) -> (r: &Vec<usize>)
        ensures
            r@ == self@.owners,
    {
        &self.owners
    }

    /// The scopes in which a construct defeats static name resolution.
    pub fn dynamic(&self) -> (r: &Vec<usize>)
        ensures
            r@ == self@.dynamic,
    {
        &self.dynamic
    }

    /// The bindings, in the order of their first declaration.
    pub fn bindings(&self) -> (r: &Vec<Binding>)
        ensures
            r@ == self@.bindings,
    {
        &self.bindings
    }

    /// Every resolved use, in source order.
    pub fn references(&self) -> (r: &Vec<Reference>)
        ensures
            r@ == self@.references,
    {
        &self.references
    }
}

impl GraphView {
    /// Every index held in the graph is that of a record of the graph, no
    /// scope holds two bindings of one name, each site belongs to the
    /// binding of its name, each binding sums up its sites, and each
    /// reference names a binding that is visible where the use stands.
    pub open spec fn wf(self) -> bool {
        &&& scopes_wf(self.scopes)
        &&& self.owners.len() == self.sites.len()
        &&& sites_within(self.sites, self.scopes.len(), self.statements)
        &&& indices_within(self.dynamic, self.scopes.len())
        &&& forall|b: int|
            0 <= b < self.bindings.len() ==> (#[trigger] self.bindings[b]).scope < self.scopes.len()
        &&& references_placed(self.scopes, self.bindings, self.references)
        &&& distinct_keys(self.bindings)
        &&& accounted(self.scopes, self.sites, self.owners, self.bindings)
    }
}

/// The scope graph that an outline gives rise to: its declaration sites
/// registered in order, then its uses resolved in order.
pub open spec fn graph_of(o: OutlineView) -> GraphView {
    let bindings = registered(o.scopes, o.sites, o.sites.len() as int);
    GraphView {
        scopes: o.scopes,
        statements: o.statements,
        sites: o.sites,
        owners: Seq::new(
            o.sites.len(),
            |i: int| owner(o.scopes, bindings, o.sites[i]).unwrap() as usize,
        ),
        dynamic: o.dynamic,
        bindings,
        references: references_of(o.scopes, bindings, o.uses),
    }
}

/// Builds the scope graph from what the first pass recorded.
pub(crate) fn build(outline: Outline) -> (g: ScopeGraph)
    requires
        outline@.wf(),
    ensures
        g@ == graph_of(outline@),
{
    let ghost o = outline@;
    let Outline { scopes, statements, sites, uses, dynamic } = outline;
    let (bindings, owners) = register(&scopes, &sites);
    let references = collect(&scopes, &bindings, &uses);
    proof {
        assert(owners@ =~= graph_of(o).owners);
    }
    ScopeGraph { scopes, statements, sites, owners, dynamic, bindings, references }
}

/// The scope graph of a whole program.
pub open spec fn graph(program: crate::syntax::Tree) -> GraphView {
    graph_of(outline_of(program))
}

/// Walks a program and builds its scope graph.
pub fn analyze(program: &Node) -> (g: ScopeGraph)
    ensures
        g@ == graph(program@),
{
    build(survey(program))
}

} // verus!
