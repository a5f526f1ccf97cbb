//! What holds of every analysis.

use crate::graph::{graph, GraphView};
use crate::outline::{outline_of, scopes_wf, Context, OutlineView, Scope};
use crate::rewrite::{declares_by, permits, rewritten, rewritten_all};
use crate::scope::{
    encloses, has_parent, hoist_target, holds_hoisted, lemma_encloses_precedes, parent,
};
use crate::statements::{
    declarations, lemma_rewritten_statements, lemma_walk_statements, relabeled,
};
use crate::syntax::{DeclKind, Node, Tree};
use crate::verdict::{CaptureSemanticsChange, Verdict};
use vstd::prelude::*;

verus! {

/// The analysis is a function of the program's value: two programs with the
/// same value get the same report, the same decisions and the same
/// rewritten tree.
pub proof fn lemma_deterministic(a: Node, b: Node)
    requires
        a@ == b@,
    ensures
        graph(a@).report() == graph(b@).report(),
        graph(a@).decisions() == graph(b@).decisions(),
        rewritten(a@, graph(a@).decisions(), 0) == rewritten(b@, graph(b@).decisions(), 0),
{
}

/// A reference stores to every mutable binding, but for those that are
/// mutable because a declaration of them has no initializer or stands in a
/// loop header.
pub proof fn lemma_mutable_is_written(g: GraphView, b: int)
    requires
        g.wf(),
        0 <= b < g.bindings.len(),
        g.verdict(b) == Some(Verdict::Mutable),
    ensures
        !g.bindings[b].initialized || g.bindings[b].in_loop_header || exists|i: int|
            0 <= i < g.references.len() && (#[trigger] g.references[i]).binding == b
                && g.references[i].access.writes(),
        !g.used_early(b),
        !g.tainted(b),
{
}

/// No reference stores to an immutable binding, and none uses it before its
/// declaration outside a closure. Every declaration of it is a `var` with an
/// initializer, outside loop headers.
pub proof fn lemma_immutable_is_never_written(g: GraphView, b: int)
    requires
        g.wf(),
        0 <= b < g.bindings.len(),
        g.verdict(b) == Some(Verdict::Immutable),
    ensures
        forall|i: int|
            0 <= i < g.references.len() && (#[trigger] g.references[i]).binding == b
                ==> !g.references[i].access.writes(),
        forall|i: int|
            0 <= i < g.references.len() && (#[trigger] g.references[i]).binding == b
                && g.references[i].depth == 0 ==> g.references[i].position
                >= g.bindings[b].position,
        forall|s: int|
            0 <= s < g.sites.len() && g.owners[s] == b ==> {
                &&& (#[trigger] g.sites[s]).kind == DeclKind::Var
                &&& g.sites[s].initialized
                &&& g.sites[s].header is None
            },
{
}

/// A binding is immutable where every declaration of it is a `var` with an
/// initializer, outside loop headers, no reference stores to it, none uses
/// it before its declaration outside a closure, and no dynamic construct
/// stands in or under its scope.
pub proof fn lemma_immutable_is_owed(g: GraphView, b: int)
    requires
        g.wf(),
        0 <= b < g.bindings.len(),
        forall|s: int|
            0 <= s < g.sites.len() && #[trigger] g.owners[s] == b ==> {
                &&& g.sites[s].kind == DeclKind::Var
                &&& g.sites[s].initialized
                &&& g.sites[s].header is None
            },
        forall|i: int|
            0 <= i < g.references.len() && (#[trigger] g.references[i]).binding == b
                ==> !g.references[i].access.writes(),
        forall|i: int|
            0 <= i < g.references.len() && (#[trigger] g.references[i]).binding == b
                && g.references[i].depth == 0 ==> g.references[i].position
                >= g.bindings[b].position,
        !g.tainted(b),
    ensures
        g.verdict(b) == Some(Verdict::Immutable),
{
}

/// A binding is mutable where every declaration of it is a `var`, a
/// reference stores to it, none uses it before its declaration outside a
/// closure, and no dynamic construct stands in or under its scope.
pub proof fn lemma_mutable_is_owed(g: GraphView, b: int, i: int)
    requires
        g.wf(),
        0 <= b < g.bindings.len(),
        forall|s: int|
            0 <= s < g.sites.len() && #[trigger] g.owners[s] == b ==> g.sites[s].kind
                == DeclKind::Var,
        0 <= i < g.references.len() && g.references[i].binding == b
            && g.references[i].access.writes(),
        !g.used_early(b),
        !g.tainted(b),
    ensures
        g.verdict(b) == Some(Verdict::Mutable),
{
}

/// A statement becomes `const` exactly where it is a `var` that declares a
/// name and all its names are immutable; it becomes `let` exactly where it is
/// a `var`, all its names are immutable or mutable, and one is mutable.
pub proof fn lemma_decision(g: GraphView, k: int)
    requires
        g.wf(),
        0 <= k < g.statements.len(),
    ensures
        g.decision(k) == Some(DeclKind::Const) <==> {
            &&& g.statements[k].kind == DeclKind::Var
            &&& declares_by(g.sites, k, g.sites.len() as int)
            &&& forall|s: int|
                0 <= s < g.sites.len() && (#[trigger] g.sites[s]).statement == k
                    ==> g.site_verdict(s) == Some(Verdict::Immutable)
        },
        g.decision(k) == Some(DeclKind::Let) <==> {
            &&& g.statements[k].kind == DeclKind::Var
            &&& forall|s: int|
                0 <= s < g.sites.len() && (#[trigger] g.sites[s]).statement == k ==> permits(
                    g.site_verdict(s),
                )
            &&& exists|s: int|
                0 <= s < g.sites.len() && (#[trigger] g.sites[s]).statement == k
                    && g.site_verdict(s) == Some(Verdict::Mutable)
        },
        g.decision(k) is None || g.decision(k) == Some(DeclKind::Const) || g.decision(k) == Some(
            DeclKind::Let,
        ),
{
}

/// A name declared by `let` or `const` gets no verdict, and its statement
/// keeps its keyword.
pub proof fn lemma_block_scoped_is_left(g: GraphView, s: int)
    requires
        g.wf(),
        0 <= s < g.sites.len(),
        g.sites[s].kind != DeclKind::Var,
    ensures
        g.site_verdict(s) is None,
        g.decision(g.sites[s].statement as int) is None,
{
}

/// Whether no declaration statement of the tree is a `var`.
pub open spec fn block_scoped(node: Tree) -> bool
    decreases node, 0int,
{
    match node {
        Tree::Function { body } => block_scoped_all(body, 0),
        Tree::Block { body } => block_scoped_all(body, 0),
        Tree::Loop { position, header, body } => block_scoped_all(header, 0) && block_scoped_all(
            body,
            0,
        ),
        Tree::Declaration { position, kind, names, initializers } => kind != DeclKind::Var
            && block_scoped_all(initializers, 0),
        Tree::Identifier { position, name } => true,
        Tree::Assignment { compound, target, value } => block_scoped(*target) && block_scoped(
            *value,
        ),
        Tree::Pattern { elements } => block_scoped_all(elements, 0),
        Tree::Group { children } => block_scoped_all(children, 0),
        Tree::Dynamic => true,
    }
}

/// Whether no declaration statement of the nodes from index `from` on is a
/// `var`.
pub open spec fn block_scoped_all(nodes: Seq<Tree>, from: int) -> bool
    decreases nodes, nodes.len() - from,
{
    0 <= from < nodes.len() ==> block_scoped(nodes[from]) && block_scoped_all(nodes, from + 1)
}

/// Rewriting a program that holds no `var` changes nothing, whatever the
/// decisions.
pub proof fn lemma_rewrite_keeps_block_scoped(node: Tree, decisions: Seq<Option<DeclKind>>, c: int)
    requires
        block_scoped(node),
    ensures
        rewritten(node, decisions, c).0 == node,
    decreases node, 0int,
{
    match node {
        Tree::Function { body } => {
            lemma_rewrite_keeps_block_scoped_all(body, 0, decisions, c);
        },
        Tree::Block { body } => {
            lemma_rewrite_keeps_block_scoped_all(body, 0, decisions, c);
        },
        Tree::Loop { position, header, body } => {
            lemma_rewrite_keeps_block_scoped_all(header, 0, decisions, c);
            let c1 = rewritten_all(header, 0, decisions, c).1;
            lemma_rewrite_keeps_block_scoped_all(body, 0, decisions, c1);
        },
        Tree::Declaration { position, kind, names, initializers } => {
            lemma_rewrite_keeps_block_scoped_all(
                initializers,
                0,
                decisions,
                crate::rewrite::advanced(decisions, c),
            );
        },
        Tree::Identifier { position, name } => {},
        Tree::Assignment { compound, target, value } => {
            lemma_rewrite_keeps_block_scoped(*target, decisions, c);
            let c1 = rewritten(*target, decisions, c).1;
            lemma_rewrite_keeps_block_scoped(*value, decisions, c1);
        },
        Tree::Pattern { elements } => {
            lemma_rewrite_keeps_block_scoped_all(elements, 0, decisions, c);
        },
        Tree::Group { children } => {
            lemma_rewrite_keeps_block_scoped_all(children, 0, decisions, c);
        },
        Tree::Dynamic => {},
    }
}

/// Rewriting nodes that hold no `var` changes none of them.
pub proof fn lemma_rewrite_keeps_block_scoped_all(
    nodes: Seq<Tree>,
    from: int,
    decisions: Seq<Option<DeclKind>>,
    c: int,
)
    requires
        0 <= from <= nodes.len(),
        block_scoped_all(nodes, from),
    ensures
        rewritten_all(nodes, from, decisions, c).0 == nodes.subrange(from, nodes.len() as int),
        from == 0 ==> rewritten_all(nodes, from, decisions, c).0 == nodes,
    decreases nodes, nodes.len() - from,
{
    if from == 0 {
        assert(nodes.subrange(0, nodes.len() as int) =~= nodes);
    }
    if from < nodes.len() {
        lemma_rewrite_keeps_block_scoped(nodes[from], decisions, c);
        let c1 = rewritten(nodes[from], decisions, c).1;
        lemma_rewrite_keeps_block_scoped_all(nodes, from + 1, decisions, c1);
        assert(seq![nodes[from]] + nodes.subrange(from + 1, nodes.len() as int)
            =~= nodes.subrange(from, nodes.len() as int));
    } else {
        assert(nodes.subrange(from, nodes.len() as int) =~= Seq::<Tree>::empty());
    }
}

/// The analysis leaves a program that holds no `var` as it is.
pub proof fn lemma_block_scoped_program_is_unchanged(program: Tree)
    requires
        block_scoped(program),
    ensures
        rewritten(program, graph(program).decisions(), 0).0 == program,
{
    lemma_rewrite_keeps_block_scoped(program, graph(program).decisions(), 0);
}

/// The tree with the keyword of every declaration statement set to `var`.
pub open spec fn skeleton(node: Tree) -> Tree
    decreases node, 0int,
{
    match node {
        Tree::Function { body } => Tree::Function { body: skeleton_all(body) },
        Tree::Block { body } => Tree::Block { body: skeleton_all(body) },
        Tree::Loop { position, header, body } => Tree::Loop {
            position,
            header: skeleton_all(header),
            body: skeleton_all(body),
        },
        Tree::Declaration { position, kind, names, initializers } => Tree::Declaration {
            position,
            kind: DeclKind::Var,
            names,
            initializers: skeleton_all(initializers),
        },
        Tree::Identifier { position, name } => node,
        Tree::Assignment { compound, target, value } => Tree::Assignment {
            compound,
            target: Box::new(skeleton(*target)),
            value: Box::new(skeleton(*value)),
        },
        Tree::Pattern { elements } => Tree::Pattern { elements: skeleton_all(elements) },
        Tree::Group { children } => Tree::Group { children: skeleton_all(children) },
        Tree::Dynamic => node,
    }
}

/// The skeletons of a list of nodes.
pub open spec fn skeleton_all(nodes: Seq<Tree>) -> Seq<Tree>
    decreases nodes, 1int,
{
    Seq::new(
        nodes.len(),
        |i: int|
            if 0 <= i < nodes.len() {
                skeleton(nodes[i])
            } else {
                Tree::Dynamic
            },
    )
}

/// Rewriting changes nothing but keywords of declaration statements: the
/// rewritten tree has the skeleton of the tree it was made from.
pub proof fn lemma_rewrite_changes_keywords_only(
    node: Tree,
    decisions: Seq<Option<DeclKind>>,
    c: int,
)
    ensures
        skeleton(rewritten(node, decisions, c).0) == skeleton(node),
    decreases node, 0int,
{
    match node {
        Tree::Function { body } => {
            lemma_rewrite_all_changes_keywords_only(body, 0, decisions, c);
        },
        Tree::Block { body } => {
            lemma_rewrite_all_changes_keywords_only(body, 0, decisions, c);
        },
        Tree::Loop { position, header, body } => {
            lemma_rewrite_all_changes_keywords_only(header, 0, decisions, c);
            let c1 = rewritten_all(header, 0, decisions, c).1;
            lemma_rewrite_all_changes_keywords_only(body, 0, decisions, c1);
        },
        Tree::Declaration { position, kind, names, initializers } => {
            lemma_rewrite_all_changes_keywords_only(
                initializers,
                0,
                decisions,
                crate::rewrite::advanced(decisions, c),
            );
        },
        Tree::Identifier { position, name } => {},
        Tree::Assignment { compound, target, value } => {
            lemma_rewrite_changes_keywords_only(*target, decisions, c);
            let c1 = rewritten(*target, decisions, c).1;
            lemma_rewrite_changes_keywords_only(*value, decisions, c1);
        },
        Tree::Pattern { elements } => {
            lemma_rewrite_all_changes_keywords_only(elements, 0, decisions, c);
        },
        Tree::Group { children } => {
            lemma_rewrite_all_changes_keywords_only(children, 0, decisions, c);
        },
        Tree::Dynamic => {},
    }
}

/// The same for the nodes of a list from index `from` on.
pub proof fn lemma_rewrite_all_changes_keywords_only(
    nodes: Seq<Tree>,
    from: int,
    decisions: Seq<Option<DeclKind>>,
    c: int,
)
    requires
        0 <= from <= nodes.len(),
    ensures
        skeleton_all(rewritten_all(nodes, from, decisions, c).0) == skeleton_all(
            nodes.subrange(from, nodes.len() as int),
        ),
        from == 0 ==> skeleton_all(rewritten_all(nodes, from, decisions, c).0) == skeleton_all(
            nodes,
        ),
    decreases nodes, nodes.len() - from,
{
    if from == 0 {
        assert(nodes.subrange(0, nodes.len() as int) =~= nodes);
    }
    if from < nodes.len() {
        lemma_rewrite_changes_keywords_only(nodes[from], decisions, c);
        let (first, c1) = rewritten(nodes[from], decisions, c);
        lemma_rewrite_all_changes_keywords_only(nodes, from + 1, decisions, c1);
        let rest = rewritten_all(nodes, from + 1, decisions, c1).0;
        let tail = nodes.subrange(from + 1, nodes.len() as int);
        assert(skeleton_all(seq![first] + rest) =~= seq![skeleton(first)] + skeleton_all(rest));
        assert(skeleton_all(nodes.subrange(from, nodes.len() as int)) =~= seq![
            skeleton(nodes[from]),
        ] + skeleton_all(tail));
    } else {
        assert(skeleton_all(Seq::<Tree>::empty()) =~= skeleton_all(
            nodes.subrange(from, nodes.len() as int),
        ));
    }
}

/// A function-scoped binding lives in a function scope or in the module
/// scope.
pub proof fn lemma_function_scoped_lives_in_function(g: GraphView, b: int)
    requires
        g.wf(),
        0 <= b < g.bindings.len(),
        g.bindings[b].function_scoped,
    ensures
        holds_hoisted(g.scopes[g.bindings[b].scope as int]),
{
    let k = choose|k: int|
        {
            &&& 0 <= k < g.owners.len() && #[trigger] g.owners[k] == b
            &&& g.sites[k].position == g.bindings[b].position
            &&& forall|j: int| 0 <= j < k ==> #[trigger] g.owners[j] != b
        };
    assert(g.sites[k].kind == DeclKind::Var);
    lemma_hoist_target_is_nearest(g.scopes, g.sites[k].scope as int);
}

/// A `var` in a loop header is flagged exactly where a closure made in the
/// loop body captures its binding, and the flag names the loop's position.
/// Where nothing makes the binding unsafe, it is mutable either way.
pub proof fn lemma_loop_capture(g: GraphView, s: int)
    requires
        g.wf(),
        0 <= s < g.sites.len(),
        g.sites[s].header is Some,
        g.bindings[g.owners[s] as int].function_scoped,
    ensures
        !g.captured(g.owners[s] as int, g.sites[s].header->0.scope as int) ==> g.flag(s) is None,
        g.captured(g.owners[s] as int, g.sites[s].header->0.scope as int) ==> g.flag(s) == Some(
            CaptureSemanticsChange { loop_position: g.sites[s].header->0.position },
        ),
        !g.tainted(g.owners[s] as int) && !g.used_early(g.owners[s] as int) ==> g.site_verdict(s)
            == Some(Verdict::Mutable),
{
}

/// No statement becomes `const` while a reference stores to one of the
/// names it declares, or uses one before its declaration outside a closure.
pub proof fn lemma_const_is_never_stored_to(g: GraphView, s: int, i: int)
    requires
        g.wf(),
        0 <= s < g.sites.len(),
        g.decision(g.sites[s].statement as int) == Some(DeclKind::Const),
        0 <= i < g.references.len(),
        g.references[i].binding == g.owners[s],
    ensures
        !g.references[i].access.writes(),
        g.references[i].depth == 0 ==> g.references[i].position
            >= g.bindings[g.owners[s] as int].position,
{
    lemma_decision(g, g.sites[s].statement as int);
    lemma_immutable_is_never_written(g, g.owners[s] as int);
}

/// A statement keeps its keyword where one of the names it declares has an
/// unsafe binding, or one that is not function-scoped.
pub proof fn lemma_unsafe_is_left(g: GraphView, s: int)
    requires
        g.wf(),
        0 <= s < g.sites.len(),
        !permits(g.site_verdict(s)),
    ensures
        g.decision(g.sites[s].statement as int) is None,
{
}

/// A function-scoped declaration made in scope `s` belongs to the nearest
/// scope, from `s` outward, that is a function or the module.
pub proof fn lemma_hoist_target_is_nearest(scopes: Seq<Scope>, s: int)
    requires
        scopes_wf(scopes),
        0 <= s < scopes.len(),
    ensures
        0 <= hoist_target(scopes, s) <= s,
        encloses(scopes, hoist_target(scopes, s), s),
        holds_hoisted(scopes[hoist_target(scopes, s)]),
        forall|x: int|
            #[trigger] encloses(scopes, x, s) && encloses(scopes, hoist_target(scopes, s), x) && x
                != hoist_target(scopes, s) ==> !holds_hoisted(scopes[x]),
    decreases s,
{
    let t = hoist_target(scopes, s);
    if has_parent(scopes, s) && !holds_hoisted(scopes[s]) {
        let p = parent(scopes, s);
        lemma_hoist_target_is_nearest(scopes, p);
        assert forall|x: int|
            #[trigger] encloses(scopes, x, s) && encloses(scopes, t, x) && x != t implies !holds_hoisted(
            scopes[x],
        ) by {
            if x != s {
                assert(encloses(scopes, x, p));
            }
        }
    } else {
        assert forall|x: int|
            #[trigger] encloses(scopes, x, s) && encloses(scopes, t, x) && x != t implies !holds_hoisted(
            scopes[x],
        ) by {
            lemma_encloses_precedes(scopes, x, s);
            lemma_encloses_precedes(scopes, s, x);
        }
    }
}

/// The decision on the k-th declaration statement of a program is what the
/// rewrite applies to that statement: the rewritten program has the same
/// statements at the same positions, and its k-th has the keyword that the
/// k-th decision gives it.
pub proof fn lemma_decisions_reach_their_statements(program: Tree)
    ensures
        graph(program).statements == declarations(program),
        declarations(rewritten(program, graph(program).decisions(), 0).0) == relabeled(
            declarations(program),
            graph(program).decisions(),
            0,
        ),
{
    lemma_walk_statements(program, Context::top(), OutlineView::root());
    assert(outline_of(program).statements =~= declarations(program));
    lemma_rewritten_statements(program, graph(program).decisions(), 0);
}

} // verus!
