//! Builds the nodes of a tree from the constructs of a parsed program.
//!
//! A parser hands over each construct with the nodes of its parts, in source
//! order. What a construct means for scopes and for the role of the
//! identifiers in it is decided here.

use crate::syntax::{trees, DeclKind, DeclaredName, Node, Tree};
use vstd::prelude::*;

verus! {

/// A construct of a parsed program, without its parts.
#[derive(Debug, PartialEq, Eq)]
pub enum Construct {
    /// A function or an arrow function. Its parts are its parameters, then
    /// its body.
    Function,
    /// A block, or another construct that holds block-scoped declarations
    /// of its own.
    Block,
    /// `for (init; test; update) body`. The body is the last part.
    For { position: usize },
    /// `for (left in right) body` or `for (left of right) body`. The first
    /// part is `left`, the last is the body; `declares` says whether `left`
    /// is a declaration.
    ForEach { position: usize, declares: bool },
    /// A `var`, `let` or `const` statement. Its parts are its initializers.
    Declaration { position: usize, kind: DeclKind, names: Vec<DeclaredName> },
    /// An identifier that is used, not declared.
    Identifier { position: usize, name: u32 },
    /// A name that something other than a declaration statement binds: a
    /// parameter, the name of a function or class, a `catch` parameter, an
    /// import.
    Bound { position: usize, name: u32 },
    /// An assignment. The first of its two parts is the target; `compound`
    /// is set for every operator but `=`.
    Assignment { compound: bool },
    /// `++` or `--`. Its one part is the operand.
    Update,
    /// A destructuring pattern on the left of an assignment. Its parts are
    /// its targets.
    Pattern,
    /// A target with a default value inside a pattern. The first part is the
    /// target, the others are read.
    PatternWithDefault,
    /// A property `key: target` inside a pattern. The last part is the
    /// target, the others are read.
    PatternProperty,
    /// A construct that defeats static name resolution: a call of `eval`, a
    /// `with` statement.
    Dynamic,
    /// Anything else.
    Other,
}

/// A group without parts.
pub open spec fn nothing() -> Tree {
    Tree::Group { children: Seq::empty() }
}

/// A plain assignment to `target` of a value that names nothing.
pub open spec fn stored(target: Tree) -> Tree {
    Tree::Assignment { compound: false, target: Box::new(target), value: Box::new(nothing()) }
}

/// The loop whose body is the last of `parts`, with `header` before it.
pub open spec fn looped(position: usize, header: Seq<Tree>, parts: Seq<Tree>) -> Tree {
    Tree::Loop { position, header, body: seq![parts.last()] }
}

/// The node that stands for a construct with the given parts.
///
/// A name bound outside declaration statements becomes a `let` of its own,
/// which is never rewritten. The target of a `for`-`in` or `for`-`of` loop
/// that declares nothing is stored to. A construct that does not have the
/// parts it should have is a plain group of what it has.
pub open spec fn assembled(construct: Construct, parts: Seq<Tree>) -> Tree {
    match construct {
        Construct::Function => Tree::Function { body: parts },
        Construct::Block => Tree::Block { body: parts },
        Construct::For { position } => if parts.len() == 0 {
            nothing()
        } else {
            looped(position, parts.drop_last(), parts)
        },
        Construct::ForEach { position, declares } => if parts.len() == 0 {
            nothing()
        } else if declares || parts.len() == 1 {
            looped(position, parts.drop_last(), parts)
        } else {
            looped(
                position,
                seq![stored(parts[0])] + parts.subrange(1, parts.len() - 1),
                parts,
            )
        },
        Construct::Declaration { position, kind, names } => Tree::Declaration {
            position,
            kind,
            names: names@,
            initializers: parts,
        },
        Construct::Identifier { position, name } => Tree::Identifier { position, name },
        Construct::Bound { position, name } => Tree::Declaration {
            position,
            kind: DeclKind::Let,
            names: seq![DeclaredName { name, initialized: true }],
            initializers: parts,
        },
        Construct::Assignment { compound } => if parts.len() == 2 {
            Tree::Assignment {
                compound,
                target: Box::new(parts[0]),
                value: Box::new(parts[1]),
            }
        } else {
            Tree::Group { children: parts }
        },
        Construct::Update => if parts.len() == 1 {
            Tree::Assignment {
                compound: true,
                target: Box::new(parts[0]),
                value: Box::new(nothing()),
            }
        } else {
            Tree::Group { children: parts }
        },
        Construct::Pattern => Tree::Pattern { elements: parts },
        Construct::PatternWithDefault => if parts.len() == 0 {
            Tree::Pattern { elements: parts }
        } else {
            Tree::Pattern {
                elements: seq![
                    parts[0],
                    Tree::Group { children: parts.subrange(1, parts.len() as int) },
                ],
            }
        },
        Construct::PatternProperty => if parts.len() == 0 {
            Tree::Pattern { elements: parts }
        } else {
            Tree::Pattern {
                elements: seq![Tree::Group { children: parts.drop_last() }, parts.last()],
            }
        },
        Construct::Dynamic => Tree::Group { children: parts.push(Tree::Dynamic) },
        Construct::Other => Tree::Group { children: parts },
    }
}

fn empty() -> (node: Node)
    ensures
        node@ == nothing(),
{
    let node = Node::Group { children: Vec::new() };
    assert(trees(Seq::<Node>::empty()) =~= Seq::<Tree>::empty());
    node
}

fn one(node: Node) -> (list: Vec<Node>)
    ensures
        trees(list@) == seq![node@],
{
    let mut list: Vec<Node> = Vec::new();
    list.push(node);
    assert(trees(list@) =~= seq![node@]);
    list
}

fn two(first: Node, second: Node) -> (list: Vec<Node>)
    ensures
        trees(list@) == seq![first@, second@],
{
    let mut list: Vec<Node> = Vec::new();
    list.push(first);
    list.push(second);
    assert(trees(list@) =~= seq![first@, second@]);
    list
}

/// Takes the last of `parts`, which must hold one.
fn take_last(parts: &mut Vec<Node>) -> (last: Node)
    requires
        old(parts).len() > 0,
    ensures
        last@ == trees(old(parts)@).last(),
        trees(final(parts)@) == trees(old(parts)@).drop_last(),
        final(parts).len() == old(parts).len() - 1,
{
    let ghost before = parts@;
    let last = parts.pop().unwrap();
    assert(trees(parts@) =~= trees(before).drop_last());
    last
}

/// Takes all of `parts` but the first, which must be there.
fn take_rest(parts: &mut Vec<Node>) -> (rest: Vec<Node>)
    requires
        old(parts).len() > 0,
    ensures
        trees(rest@) == trees(old(parts)@).subrange(1, old(parts).len() as int),
        trees(final(parts)@) == seq![trees(old(parts)@)[0]],
        final(parts).len() == 1,
        rest.len() == old(parts).len() - 1,
{
    let ghost before = parts@;
    let rest = parts.split_off(1);
    assert(trees(rest@) =~= trees(before).subrange(1, before.len() as int));
    assert(trees(parts@) =~= seq![trees(before)[0]]);
    rest
}

fn loop_of(position: usize, header: Vec<Node>, body: Node) -> (node: Node)
    ensures
        node@ == (Tree::Loop { position, header: trees(header@), body: seq![body@] }),
{
    let ghost last = body@;
    let node = Node::Loop { position, header, body: one(body) };
    node
}

/// Builds the node that stands for a construct with the given parts.
pub fn assemble(construct: Construct, parts: Vec<Node>) -> (node: Node)
    ensures
        node@ == assembled(construct, trees(parts@)),
{
    let mut parts = parts;
    let ghost all = trees(parts@);
    match construct {
        Construct::Function => Node::Function { body: parts },
        Construct::Block => Node::Block { body: parts },
        Construct::For { position } => {
            if parts.len() == 0 {
                empty()
            } else {
                let body = take_last(&mut parts);
                loop_of(position, parts, body)
            }
        },
        Construct::ForEach { position, declares } => {
            if parts.len() == 0 {
                empty()
            } else if declares || parts.len() == 1 {
                let body = take_last(&mut parts);
                loop_of(position, parts, body)
            } else {
                let body = take_last(&mut parts);
                let mut rest = take_rest(&mut parts);
                let left = take_last(&mut parts);
                let target = Node::Assignment {
                    compound: false,
                    target: Box::new(left),
                    value: Box::new(empty()),
                };
                let mut header = one(target);
                let ghost first = trees(header@);
                let ghost others = trees(rest@);
                header.append(&mut rest);
                assert(trees(header@) =~= first + others);
                assert(others =~= all.subrange(1, all.len() - 1));
                loop_of(position, header, body)
            }
        },
        Construct::Declaration { position, kind, names } => Node::Declaration {
            position,
            kind,
            names,
            initializers: parts,
        },
        Construct::Identifier { position, name } => Node::Identifier { position, name },
        Construct::Bound { position, name } => {
            let mut names: Vec<DeclaredName> = Vec::new();
            names.push(DeclaredName { name, initialized: true });
            assert(names@ =~= seq![DeclaredName { name, initialized: true }]);
            Node::Declaration { position, kind: DeclKind::Let, names, initializers: parts }
        },
        Construct::Assignment { compound } => {
            if parts.len() == 2 {
                let value = take_last(&mut parts);
                let target = take_last(&mut parts);
                Node::Assignment { compound, target: Box::new(target), value: Box::new(value) }
            } else {
                Node::Group { children: parts }
            }
        },
        Construct::Update => {
            if parts.len() == 1 {
                let target = take_last(&mut parts);
                Node::Assignment {
                    compound: true,
                    target: Box::new(target),
                    value: Box::new(empty()),
                }
            } else {
                Node::Group { children: parts }
            }
        },
        Construct::Pattern => Node::Pattern { elements: parts },
        Construct::PatternWithDefault => {
            if parts.len() == 0 {
                Node::Pattern { elements: parts }
            } else {
                let defaults = take_rest(&mut parts);
                let target = take_last(&mut parts);
                Node::Pattern { elements: two(target, Node::Group { children: defaults }) }
            }
        },
        Construct::PatternProperty => {
            if parts.len() == 0 {
                Node::Pattern { elements: parts }
            } else {
                let target = take_last(&mut parts);
                Node::Pattern { elements: two(Node::Group { children: parts }, target) }
            }
        },
        Construct::Dynamic => {
            parts.push(Node::Dynamic);
            assert(trees(parts@) =~= all.push(Tree::Dynamic));
            Node::Group { children: parts }
        },
        Construct::Other => Node::Group { children: parts },
    }
}

} // verus!
