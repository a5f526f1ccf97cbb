//! The declaration statements of a tree in source order, and how the
//! analysis and the rewrite both go by that order.

use crate::outline::{walk, walk_all, Context, OutlineView, Statement};
use crate::rewrite::{advanced, rewritten, rewritten_all, rewritten_kind};
use crate::syntax::{trees, DeclKind, Node, Tree};
use vstd::prelude::*;

verus! {

/// The declaration statements of a tree, in source order.
pub open spec fn declarations(node: Tree) -> Seq<Statement>
    decreases node, 0int,
{
    match node {
        Tree::Function { body } => declarations_all(body, 0),
        Tree::Block { body } => declarations_all(body, 0),
        Tree::Loop { position, header, body } => declarations_all(header, 0) + declarations_all(
            body,
            0,
        ),
        Tree::Declaration { position, kind, names, initializers } => seq![
            Statement { position, kind },
        ] + declarations_all(initializers, 0),
        Tree::Identifier { position, name } => Seq::empty(),
        Tree::Assignment { compound, target, value } => declarations(*target) + declarations(
            *value,
        ),
        Tree::Pattern { elements } => declarations_all(elements, 0),
        Tree::Group { children } => declarations_all(children, 0),
        Tree::Dynamic => Seq::empty(),
    }
}

/// The declaration statements of the nodes from index `from` on.
pub open spec fn declarations_all(nodes: Seq<Tree>, from: int) -> Seq<Statement>
    decreases nodes, nodes.len() - from,
{
    if 0 <= from < nodes.len() {
        declarations(nodes[from]) + declarations_all(nodes, from + 1)
    } else {
        Seq::empty()
    }
}

fn list_all(nodes: &Vec<Node>, found: Vec<Statement>) -> (r: Vec<Statement>)
    ensures
        r@ == found@ + declarations_all(trees(nodes@), 0),
    decreases nodes, 1int,
{
    let mut r = found;
    let mut i: usize = 0;
    while i < nodes.len()
        invariant
            i <= nodes.len(),
            r@ + declarations_all(trees(nodes@), i as int) == found@ + declarations_all(
                trees(nodes@),
                0,
            ),
        decreases nodes.len() - i,
    {
        let ghost before = r@;
        r = list(&nodes[i], r);
        proof {
            let first = declarations(nodes[i as int]@);
            let rest = declarations_all(trees(nodes@), i as int + 1);
            assert((before + first) + rest == before + (first + rest));
        }
        i += 1;
    }
    assert(r@ + Seq::<Statement>::empty() == r@);
    r
}

fn list(node: &Node, found: Vec<Statement>) -> (r: Vec<Statement>)
    ensures
        r@ == found@ + declarations(node@),
    decreases node, 0int,
{
    let ghost start = found@;
    match node {
        Node::Function { body } => list_all(body, found),
        Node::Block { body } => list_all(body, found),
        Node::Loop { position, header, body } => {
            let r = list_all(header, found);
            let r = list_all(body, r);
            proof {
                let h = declarations_all(trees(header@), 0);
                let b = declarations_all(trees(body@), 0);
                assert((start + h) + b == start + (h + b));
            }
            r
        },
        Node::Declaration { position, kind, names, initializers } => {
            let mut r = found;
            r.push(Statement { position: *position, kind: *kind });
            let r = list_all(initializers, r);
            proof {
                let s = Statement { position: *position, kind: *kind };
                let i = declarations_all(trees(initializers@), 0);
                assert(start.push(s) + i == start + (seq![s] + i));
            }
            r
        },
        Node::Identifier { position, name } => {
            assert(start + Seq::<Statement>::empty() == start);
            found
        },
        Node::Assignment { compound, target, value } => {
            let r = list(target, found);
            let r = list(value, r);
            proof {
                let t = declarations(target@);
                let v = declarations(value@);
                assert((start + t) + v == start + (t + v));
            }
            r
        },
        Node::Pattern { elements } => list_all(elements, found),
        Node::Group { children } => list_all(children, found),
        Node::Dynamic => {
            assert(start + Seq::<Statement>::empty() == start);
            found
        },
    }
}

/// Lists the declaration statements of a tree, in source order.
pub fn declarations_of(node: &Node) -> (r: Vec<Statement>)
    ensures
        r@ == declarations(node@),
{
    let r = list(node, Vec::new());
    assert(Seq::<Statement>::empty() + declarations(node@) == declarations(node@));
    r
}

/// The walk records the declaration statements of a tree in source order.
pub proof fn lemma_walk_statements(node: Tree, cx: Context, o: OutlineView)
    ensures
        walk(node, cx, o).statements == o.statements + declarations(node),
    decreases node, 0int,
{
    let start = o.statements;
    match node {
        Tree::Function { body } => {
            lemma_walk_all_statements(
                body,
                0,
                Context::inside(o.next_scope()),
                o.open_scope(crate::outline::ScopeKind::Function, cx),
            );
        },
        Tree::Block { body } => {
            lemma_walk_all_statements(
                body,
                0,
                Context::inside(o.next_scope()),
                o.open_scope(crate::outline::ScopeKind::Block, cx),
            );
        },
        Tree::Loop { position, header, body } => {
            let scope = o.next_scope();
            let in_header = Context {
                header: Some(crate::outline::LoopHeader { scope, position }),
                ..Context::inside(scope)
            };
            let in_body = Context { in_body: true, ..Context::inside(scope) };
            let o1 = o.open_scope(crate::outline::ScopeKind::Loop, cx);
            lemma_walk_all_statements(header, 0, in_header, o1);
            let o2 = walk_all(header, 0, in_header, o1);
            lemma_walk_all_statements(body, 0, in_body, o2);
            let h = declarations_all(header, 0);
            let b = declarations_all(body, 0);
            assert((start + h) + b == start + (h + b));
        },
        Tree::Declaration { position, kind, names, initializers } => {
            let o1 = o.declare(position, kind, names, cx);
            lemma_walk_all_statements(initializers, 0, cx.reading(), o1);
            let s = Statement { position, kind };
            let i = declarations_all(initializers, 0);
            assert(start.push(s) + i == start + (seq![s] + i));
        },
        Tree::Identifier { position, name } => {
            assert(start + Seq::<Statement>::empty() == start);
        },
        Tree::Assignment { compound, target, value } => {
            let at = cx.accessing(
                if compound {
                    crate::outline::Access::ReadWrite
                } else {
                    crate::outline::Access::Write
                },
            );
            lemma_walk_statements(*target, at, o);
            let o1 = walk(*target, at, o);
            lemma_walk_statements(*value, cx.reading(), o1);
            let t = declarations(*target);
            let v = declarations(*value);
            assert((start + t) + v == start + (t + v));
        },
        Tree::Pattern { elements } => {
            lemma_walk_all_statements(
                elements,
                0,
                cx.accessing(crate::outline::Access::DestructureBind),
                o,
            );
        },
        Tree::Group { children } => {
            lemma_walk_all_statements(children, 0, cx.reading(), o);
        },
        Tree::Dynamic => {
            assert(start + Seq::<Statement>::empty() == start);
        },
    }
}

/// The walk records the declaration statements of a list of nodes in source
/// order.
pub proof fn lemma_walk_all_statements(nodes: Seq<Tree>, from: int, cx: Context, o: OutlineView)
    requires
        0 <= from <= nodes.len(),
    ensures
        walk_all(nodes, from, cx, o).statements == o.statements + declarations_all(nodes, from),
    decreases nodes, nodes.len() - from,
{
    let start = o.statements;
    if from < nodes.len() {
        lemma_walk_statements(nodes[from], cx, o);
        let o1 = walk(nodes[from], cx, o);
        lemma_walk_all_statements(nodes, from + 1, cx, o1);
        let first = declarations(nodes[from]);
        let rest = declarations_all(nodes, from + 1);
        assert((start + first) + rest == start + (first + rest));
    } else {
        assert(start + Seq::<Statement>::empty() == start);
    }
}

/// The statements with each keyword as the decisions from cursor `c` on
/// give it.
pub open spec fn relabeled(statements: Seq<Statement>, decisions: Seq<Option<DeclKind>>, c: int) -> Seq<
    Statement,
> {
    Seq::new(
        statements.len(),
        |k: int|
            Statement {
                position: statements[k].position,
                kind: rewritten_kind(statements[k].kind, decisions, c + k),
            },
    )
}

/// Where the decisions reach to the end of a tree, rewriting gives its k-th
/// declaration statement the keyword of the k-th decision from the cursor,
/// and moves the cursor by the number of its statements.
pub proof fn lemma_rewritten_statements(node: Tree, decisions: Seq<Option<DeclKind>>, c: int)
    requires
        0 <= c,
        c + declarations(node).len() <= decisions.len(),
    ensures
        rewritten(node, decisions, c).1 == c + declarations(node).len(),
        declarations(rewritten(node, decisions, c).0) == relabeled(
            declarations(node),
            decisions,
            c,
        ),
    decreases node, 0int,
{
    match node {
        Tree::Function { body } => {
            lemma_rewritten_all_statements(body, 0, decisions, c);
        },
        Tree::Block { body } => {
            lemma_rewritten_all_statements(body, 0, decisions, c);
        },
        Tree::Loop { position, header, body } => {
            lemma_rewritten_all_statements(header, 0, decisions, c);
            let c1 = rewritten_all(header, 0, decisions, c).1;
            lemma_rewritten_all_statements(body, 0, decisions, c1);
            assert(relabeled(declarations_all(header, 0), decisions, c) + relabeled(
                declarations_all(body, 0),
                decisions,
                c1,
            ) =~= relabeled(declarations(node), decisions, c));
        },
        Tree::Declaration { position, kind, names, initializers } => {
            lemma_rewritten_all_statements(initializers, 0, decisions, c + 1);
            let s = Statement { position, kind: rewritten_kind(kind, decisions, c) };
            assert(seq![s] + relabeled(declarations_all(initializers, 0), decisions, c + 1)
                =~= relabeled(declarations(node), decisions, c));
        },
        Tree::Identifier { position, name } => {
            assert(relabeled(declarations(node), decisions, c) =~= Seq::<Statement>::empty());
        },
        Tree::Assignment { compound, target, value } => {
            lemma_rewritten_statements(*target, decisions, c);
            let c1 = rewritten(*target, decisions, c).1;
            lemma_rewritten_statements(*value, decisions, c1);
            assert(relabeled(declarations(*target), decisions, c) + relabeled(
                declarations(*value),
                decisions,
                c1,
            ) =~= relabeled(declarations(node), decisions, c));
        },
        Tree::Pattern { elements } => {
            lemma_rewritten_all_statements(elements, 0, decisions, c);
        },
        Tree::Group { children } => {
            lemma_rewritten_all_statements(children, 0, decisions, c);
        },
        Tree::Dynamic => {
            assert(relabeled(declarations(node), decisions, c) =~= Seq::<Statement>::empty());
        },
    }
}

/// The same for the nodes of a list from index `from` on.
pub proof fn lemma_rewritten_all_statements(
    nodes: Seq<Tree>,
    from: int,
    decisions: Seq<Option<DeclKind>>,
    c: int,
)
    requires
        0 <= from <= nodes.len(),
        0 <= c,
        c + declarations_all(nodes, from).len() <= decisions.len(),
    ensures
        rewritten_all(nodes, from, decisions, c).1 == c + declarations_all(nodes, from).len(),
        declarations_all(rewritten_all(nodes, from, decisions, c).0, 0) == relabeled(
            declarations_all(nodes, from),
            decisions,
            c,
        ),
    decreases nodes, nodes.len() - from,
{
    if from < nodes.len() {
        lemma_rewritten_statements(nodes[from], decisions, c);
        let (first, c1) = rewritten(nodes[from], decisions, c);
        lemma_rewritten_all_statements(nodes, from + 1, decisions, c1);
        let (rest, c2) = rewritten_all(nodes, from + 1, decisions, c1);
        let out = seq![first] + rest;
        lemma_declarations_prepend(first, rest);
        assert(relabeled(declarations(nodes[from]), decisions, c) + relabeled(
            declarations_all(nodes, from + 1),
            decisions,
            c1,
        ) =~= relabeled(declarations_all(nodes, from), decisions, c));
    } else {
        assert(relabeled(declarations_all(nodes, from), decisions, c) =~= Seq::<
            Statement,
        >::empty());
    }
}

/// The statements of a list are those of its first node, then those of the
/// rest.
pub proof fn lemma_declarations_prepend(first: Tree, rest: Seq<Tree>)
    ensures
        declarations_all(seq![first] + rest, 0) == declarations(first) + declarations_all(rest, 0),
{
    let all = seq![first] + rest;
    assert(all[0] == first);
    lemma_declarations_shift(all, rest, 1);
}

/// The statements of a list from an index on are those of the list without
/// its first node from the index before.
proof fn lemma_declarations_shift(all: Seq<Tree>, rest: Seq<Tree>, from: int)
    requires
        all.len() == rest.len() + 1,
        forall|i: int| 0 <= i < rest.len() ==> rest[i] == all[i + 1],
        1 <= from <= all.len(),
    ensures
        declarations_all(all, from) == declarations_all(rest, from - 1),
    decreases all.len() - from,
{
    if from < all.len() {
        lemma_declarations_shift(all, rest, from + 1);
    }
}

} // verus!
