//! The syntax tree that the analysis reads.
//!
//! The tree keeps what decides how a name is bound and used: where scopes
//! open, where names are declared, and where identifiers occur and in which
//! role. Every other construct is a plain group of its parts.

use vstd::prelude::*;

verus! {

/// The keyword that opens a declaration statement.
#[derive(Clone, Copy, Debug, PartialEq, Eq, Structural)]
pub enum DeclKind {
    /// Function-scoped and hoisted.
    Var,
    /// Block-scoped, may be assigned again.
    Let,
    /// Block-scoped, never assigned again.
    Const,
}

/// One name bound by a declaration statement.
#[derive(Clone, Copy, Debug, PartialEq, Eq, Structural)]
pub struct DeclaredName {
    /// The interned identifier.
    pub name: u32,
    /// Whether the declarator that binds the name has an initializer.
    pub initialized: bool,
}

/// A node of the syntax tree.
#[derive(Debug, PartialEq, Eq)]
pub enum Node {
    /// A function; its parameters are block-scoped declarations in `body`.
    Function { body: Vec<Node> },
    /// A block that may hold block-scoped declarations.
    Block { body: Vec<Node> },
    /// A `for`-style loop: what stands in its header, then its body.
    Loop { position: usize, header: Vec<Node>, body: Vec<Node> },
    /// A declaration statement with the names it binds, followed by the
    /// expressions that initialize them.
    Declaration { position: usize, kind: DeclKind, names: Vec<DeclaredName>, initializers: Vec<Node> },
    /// An identifier that is used, not declared.
    Identifier { position: usize, name: u32 },
    /// An assignment; `compound` covers `+=` and its kin, `++` and `--`.
    Assignment { compound: bool, target: Box<Node>, value: Box<Node> },
    /// A destructuring pattern on the left of an assignment.
    Pattern { elements: Vec<Node> },
    /// Any other construct, as the sequence of its parts.
    Group { children: Vec<Node> },
    /// A construct that defeats static name resolution.
    Dynamic,
}

/// The mathematical value of a [`Node`].
pub ghost enum Tree {
    Function { body: Seq<Tree> },
    Block { body: Seq<Tree> },
    Loop { position: usize, header: Seq<Tree>, body: Seq<Tree> },
    Declaration { position: usize, kind: DeclKind, names: Seq<DeclaredName>, initializers: Seq<Tree> },
    Identifier { position: usize, name: u32 },
    Assignment { compound: bool, target: Box<Tree>, value: Box<Tree> },
    Pattern { elements: Seq<Tree> },
    Group { children: Seq<Tree> },
    Dynamic,
}

/// The values of a list of nodes, in order.
pub open spec fn trees(nodes: Seq<Node>) -> Seq<Tree>
    decreases nodes, 1int,
{
    Seq::new(nodes.len(), |i: int| if 0 <= i < nodes.len() { tree(nodes[i]) } else { Tree::Dynamic })
}

/// The value of one node.
pub open spec fn tree(node: Node) -> Tree
    decreases node, 0int,
{
    match node {
        Node::Function { body } => Tree::Function { body: trees(body@) },
        Node::Block { body } => Tree::Block { body: trees(body@) },
        Node::Loop { position, header, body } => Tree::Loop {
            position,
            header: trees(header@),
            body: trees(body@),
        },
        Node::Declaration { position, kind, names, initializers } => Tree::Declaration {
            position,
            kind,
            names: names@,
            initializers: trees(initializers@),
        },
        Node::Identifier { position, name } => Tree::Identifier { position, name },
        Node::Assignment { compound, target, value } => Tree::Assignment {
            compound,
            target: Box::new(tree(*target)),
            value: Box::new(tree(*value)),
        },
        Node::Pattern { elements } => Tree::Pattern { elements: trees(elements@) },
        Node::Group { children } => Tree::Group { children: trees(children@) },
        Node::Dynamic => Tree::Dynamic,
    }
}

impl View for Node {
    type V = Tree;

    open spec fn view(&self) -> Tree {
        tree(*self)
    }
}

} // verus!
