//! The first pass over a syntax tree: the arena of lexical scopes, and every
//! declaration site and identifier use, each with the scope it stands in.

use crate::syntax::{tree, trees, DeclKind, DeclaredName, Node, Tree};
use vstd::prelude::*;

verus! {

/// What opens a lexical scope.
#[derive(Clone, Copy, Debug, PartialEq, Eq, Structural)]
pub enum ScopeKind {
    Function,
    Block,
    Loop,
    Module,
}

/// How an identifier occurrence touches its binding.
#[derive(Clone, Copy, Debug, PartialEq, Eq, Structural)]
pub enum Access {
    /// The value is read.
    Read,
    /// Left-hand side of a plain assignment.
    Write,
    /// Left-hand side of a compound assignment, or operand of `++` / `--`.
    ReadWrite,
    /// Target inside a destructuring pattern of an assignment.
    DestructureBind,
}

impl Access {
    /// Whether the access stores a value.
    pub open spec fn writes(self) -> bool {
        self != Access::Read
    }

    /// Whether the access stores a value.
    pub fn is_write(self) -> (r: bool)
        ensures
            r == self.writes(),
    {
        !(self == Access::Read)
    }
}

/// A lexical scope, addressed by its index in the arena.
#[derive(Clone, Copy, Debug, PartialEq, Eq, Structural)]
pub struct Scope {
    pub kind: ScopeKind,
    /// Index of the enclosing scope; `None` for the root.
    pub parent: Option<usize>,
    /// Whether the scope was opened in the body of the loop that is its parent.
    pub in_loop_body: bool,
}

/// The loop in whose header a declaration stands.
#[derive(Clone, Copy, Debug, PartialEq, Eq, Structural)]
pub struct LoopHeader {
    /// The loop's own scope.
    pub scope: usize,
    /// Where the loop starts in the source.
    pub position: usize,
}

/// A declaration statement, in source order.
#[derive(Clone, Copy, Debug, PartialEq, Eq, Structural)]
pub struct Statement {
    pub position: usize,
    pub kind: DeclKind,
}

/// One name declared by one statement.
#[derive(Clone, Copy, Debug, PartialEq, Eq, Structural)]
pub struct Site {
    /// Index of the declaring statement.
    pub statement: usize,
    /// The scope in which the statement stands.
    pub scope: usize,
    pub kind: DeclKind,
    pub name: u32,
    pub initialized: bool,
    pub position: usize,
    /// Set when the statement stands in a loop header.
    pub header: Option<LoopHeader>,
}

/// One identifier occurrence that is not a declaration.
#[derive(Clone, Copy, Debug, PartialEq, Eq, Structural)]
pub struct Use {
    pub scope: usize,
    pub name: u32,
    pub access: Access,
    pub position: usize,
}

/// What a walk knows of the place it has reached.
#[derive(Clone, Copy, Debug, PartialEq, Eq, Structural)]
pub struct Context {
    /// The innermost scope.
    pub scope: usize,
    /// The role of an identifier met here.
    pub access: Access,
    /// Set while standing directly in a loop header.
    pub header: Option<LoopHeader>,
    /// Whether the place lies in a loop body, with no scope opened since.
    pub in_body: bool,
}

/// Everything the first pass records.
#[derive(Debug)]
pub struct Outline {
    pub scopes: Vec<Scope>,
    pub statements: Vec<Statement>,
    pub sites: Vec<Site>,
    pub uses: Vec<Use>,
    /// The scopes in which a construct defeats static name resolution.
    pub dynamic: Vec<usize>,
}

/// The mathematical value of an [`Outline`].
pub ghost struct OutlineView {
    pub scopes: Seq<Scope>,
    pub statements: Seq<Statement>,
    pub sites: Seq<Site>,
    pub uses: Seq<Use>,
    pub dynamic: Seq<usize>,
}

impl View for Outline {
    type V = OutlineView;

    open spec fn view(&self) -> OutlineView {
        OutlineView {
            scopes: self.scopes@,
            statements: self.statements@,
            sites: self.sites@,
            uses: self.uses@,
            dynamic: self.dynamic@,
        }
    }
}

/// The scopes form a tree rooted in the module scope at index 0, in which
/// every parent precedes its children.
pub open spec fn scopes_wf(scopes: Seq<Scope>) -> bool {
    &&& scopes.len() > 0
    &&& scopes[0].parent is None
    &&& scopes[0].kind == ScopeKind::Module
    &&& forall|i: int|
        0 < i < scopes.len() ==> (#[trigger] scopes[i]).parent is Some && scopes[i].parent->0 < i
}

/// Every site stands in one of the first `scopes` scopes and belongs to one
/// of the statements, whose position and keyword it repeats.
pub open spec fn sites_within(sites: Seq<Site>, scopes: nat, statements: Seq<Statement>) -> bool {
    forall|i: int|
        0 <= i < sites.len() ==> {
            &&& (#[trigger] sites[i]).scope < scopes
            &&& sites[i].statement < statements.len()
            &&& statements[sites[i].statement as int] == Statement {
                position: sites[i].position,
                kind: sites[i].kind,
            }
            &&& sites[i].header matches Some(h) ==> h.scope < scopes
        }
}

/// Every use stands in one of the first `scopes` scopes.
pub open spec fn uses_within(uses: Seq<Use>, scopes: nat) -> bool {
    forall|i: int| 0 <= i < uses.len() ==> (#[trigger] uses[i]).scope < scopes
}

/// Every index is below `bound`.
pub open spec fn indices_within(ids: Seq<usize>, bound: nat) -> bool {
    forall|i: int| 0 <= i < ids.len() ==> #[trigger] ids[i] < bound
}

impl Context {
    /// The place at which the walk of a whole program starts.
    pub open spec fn top() -> Context {
        Context { scope: 0, access: Access::Read, header: None, in_body: false }
    }

    /// The same place, for a part that is read and is no declaration of a
    /// loop header.
    pub open spec fn reading(self) -> Context {
        Context { access: Access::Read, header: None, ..self }
    }

    /// The same place, for the target of an access of the given kind.
    pub open spec fn accessing(self, access: Access) -> Context {
        Context { access, header: None, ..self }
    }

    /// The place just inside a scope that is opened here.
    pub open spec fn inside(scope: usize) -> Context {
        Context { scope, access: Access::Read, header: None, in_body: false }
    }

    /// Whether the place refers to scopes of an arena of the given size.
    pub open spec fn within(self, scopes: nat) -> bool {
        &&& self.scope < scopes
        &&& self.header matches Some(h) ==> h.scope < scopes
    }

    fn read(self) -> (cx: Context)
        ensures
            cx == self.reading(),
    {
        Context { scope: self.scope, access: Access::Read, header: None, in_body: self.in_body }
    }

    fn access(self, access: Access) -> (cx: Context)
        ensures
            cx == self.accessing(access),
    {
        Context { scope: self.scope, access, header: None, in_body: self.in_body }
    }

    fn enter(scope: usize) -> (cx: Context)
        ensures
            cx == Context::inside(scope),
    {
        Context { scope, access: Access::Read, header: None, in_body: false }
    }
}

impl OutlineView {
    /// The outline of an empty program: the root scope alone.
    pub open spec fn root() -> OutlineView {
        OutlineView {
            scopes: seq![Scope { kind: ScopeKind::Module, parent: None, in_loop_body: false }],
            statements: Seq::empty(),
            sites: Seq::empty(),
            uses: Seq::empty(),
            dynamic: Seq::empty(),
        }
    }

    /// Every index that a record holds is that of a recorded scope or
    /// statement.
    pub open spec fn wf(self) -> bool {
        &&& scopes_wf(self.scopes)
        &&& sites_within(self.sites, self.scopes.len(), self.statements)
        &&& uses_within(self.uses, self.scopes.len())
        &&& indices_within(self.dynamic, self.scopes.len())
    }

    /// The index that the next scope will get.
    pub open spec fn next_scope(self) -> usize {
        self.scopes.len() as usize
    }

    /// A scope of the given kind is opened at `cx`.
    pub open spec fn open_scope(self, kind: ScopeKind, cx: Context) -> OutlineView {
        OutlineView {
            scopes: self.scopes.push(
                Scope { kind, parent: Some(cx.scope), in_loop_body: cx.in_body },
            ),
            ..self
        }
    }

    /// A declaration statement at `cx` binds `names`.
    pub open spec fn declare(
        self,
        position: usize,
        kind: DeclKind,
        names: Seq<DeclaredName>,
        cx: Context,
    ) -> OutlineView {
        let statement = self.statements.len() as usize;
        OutlineView {
            statements: self.statements.push(Statement { position, kind }),
            sites: self.sites + Seq::new(
                names.len(),
                |i: int|
                    Site {
                        statement,
                        scope: cx.scope,
                        kind,
                        name: names[i].name,
                        initialized: names[i].initialized,
                        position,
                        header: cx.header,
                    },
            ),
            ..self
        }
    }

    /// An identifier is used at `cx`.
    pub open spec fn mention(self, position: usize, name: u32, cx: Context) -> OutlineView {
        OutlineView {
            uses: self.uses.push(Use { scope: cx.scope, name, access: cx.access, position }),
            ..self
        }
    }

    /// Name resolution is defeated at `cx`.
    pub open spec fn taint(self, cx: Context) -> OutlineView {
        OutlineView { dynamic: self.dynamic.push(cx.scope), ..self }
    }
}

/// The outline after `node`, met at `cx`, is added to `o`.
pub open spec fn walk(node: Tree, cx: Context, o: OutlineView) -> OutlineView
    decreases node, 0int,
{
    match node {
        Tree::Function { body } => walk_all(
            body,
            0,
            Context::inside(o.next_scope()),
            o.open_scope(ScopeKind::Function, cx),
        ),
        Tree::Block { body } => walk_all(
            body,
            0,
            Context::inside(o.next_scope()),
            o.open_scope(ScopeKind::Block, cx),
        ),
        Tree::Loop { position, header, body } => {
            let scope = o.next_scope();
            let in_header = Context {
                header: Some(LoopHeader { scope, position }),
                ..Context::inside(scope)
            };
            let in_body = Context { in_body: true, ..Context::inside(scope) };
            walk_all(
                body,
                0,
                in_body,
                walk_all(header, 0, in_header, o.open_scope(ScopeKind::Loop, cx)),
            )
        },
        Tree::Declaration { position, kind, names, initializers } => walk_all(
            initializers,
            0,
            cx.reading(),
            o.declare(position, kind, names, cx),
        ),
        Tree::Identifier { position, name } => o.mention(position, name, cx),
        Tree::Assignment { compound, target, value } => walk(
            *value,
            cx.reading(),
            walk(
                *target,
                cx.accessing(if compound { Access::ReadWrite } else { Access::Write }),
                o,
            ),
        ),
        Tree::Pattern { elements } => walk_all(
            elements,
            0,
            cx.accessing(Access::DestructureBind),
            o,
        ),
        Tree::Group { children } => walk_all(children, 0, cx.reading(), o),
        Tree::Dynamic => o.taint(cx),
    }
}

/// The outline after the nodes from index `from` on, each met at `cx`, are
/// added to `o` in order.
pub open spec fn walk_all(nodes: Seq<Tree>, from: int, cx: Context, o: OutlineView) -> OutlineView
    decreases nodes, nodes.len() - from,
{
    if 0 <= from < nodes.len() {
        walk_all(nodes, from + 1, cx, walk(nodes[from], cx, o))
    } else {
        o
    }
}

/// The outline of a whole program.
pub open spec fn outline_of(program: Tree) -> OutlineView {
    walk(program, Context::top(), OutlineView::root())
}

fn open_scope(o: Outline, kind: ScopeKind, cx: Context) -> (r: Outline)
    requires
        o@.wf(),
        cx.within(o@.scopes.len()),
    ensures
        r@ == o@.open_scope(kind, cx),
        r@.wf(),
        r@.scopes.len() == o@.scopes.len() + 1,
{
    let mut r = o;
    r.scopes.push(Scope { kind, parent: Some(cx.scope), in_loop_body: cx.in_body });
    proof {
        let before = o@.scopes;
        let after = r@.scopes;
        assert forall|i: int| 0 < i < after.len() implies (#[trigger] after[i]).parent is Some
            && after[i].parent->0 < i by {
            if i < before.len() {
                assert(after[i] == before[i]);
            }
        }
        assert(after[0] == before[0]);
        assert(scopes_wf(after));
    }
    r
}

fn mention(o: Outline, position: usize, name: u32, cx: Context) -> (r: Outline)
    requires
        o@.wf(),
        cx.within(o@.scopes.len()),
    ensures
        r@ == o@.mention(position, name, cx),
        r@.wf(),
        r@.scopes == o@.scopes,
{
    let mut r = o;
    r.uses.push(Use { scope: cx.scope, name, access: cx.access, position });
    assert(uses_within(r@.uses, r@.scopes.len()));
    r
}

fn taint(o: Outline, cx: Context) -> (r: Outline)
    requires
        o@.wf(),
        cx.within(o@.scopes.len()),
    ensures
        r@ == o@.taint(cx),
        r@.wf(),
        r@.scopes == o@.scopes,
{
    let mut r = o;
    r.dynamic.push(cx.scope);
    assert(indices_within(r@.dynamic, r@.scopes.len()));
    r
}

fn declare(o: Outline, position: usize, kind: DeclKind, names: &Vec<DeclaredName>, cx: Context) -> (r:
    Outline)
    requires
        o@.wf(),
        cx.within(o@.scopes.len()),
    ensures
        r@ == o@.declare(position, kind, names@, cx),
        r@.wf(),
        r@.scopes == o@.scopes,
{
    let mut r = o;
    let statement = r.statements.len();
    r.statements.push(Statement { position, kind });
    let ghost goal = o@.declare(position, kind, names@, cx);
    let mut i: usize = 0;
    while i < names.len()
        invariant
            i <= names.len(),
            r.scopes@ == o.scopes@,
            r.statements@ == goal.statements,
            r.uses@ == o.uses@,
            r.dynamic@ == o.dynamic@,
            r.sites@ == goal.sites.subrange(0, o.sites@.len() + i),
            goal == o@.declare(position, kind, names@, cx),
            statement == o.statements@.len(),
            o@.wf(),
            cx.within(o@.scopes.len()),
            r@.wf(),
        decreases names.len() - i,
    {
        let declared = names[i];
        r.sites.push(
            Site {
                statement,
                scope: cx.scope,
                kind,
                name: declared.name,
                initialized: declared.initialized,
                position,
                header: cx.header,
            },
        );
        i += 1;
    }
    assert(r.sites@ == goal.sites);
    r
}

fn gather_all(nodes: &Vec<Node>, cx: Context, o: Outline) -> (r: Outline)
    requires
        o@.wf(),
        cx.within(o@.scopes.len()),
    ensures
        r@ == walk_all(trees(nodes@), 0, cx, o@),
        r@.wf(),
        r@.scopes.len() >= o@.scopes.len(),
    decreases nodes, 1int,
{
    let mut r = o;
    let mut i: usize = 0;
    while i < nodes.len()
        invariant
            i <= nodes.len(),
            r@.wf(),
            cx.within(r@.scopes.len()),
            r@.scopes.len() >= o@.scopes.len(),
            walk_all(trees(nodes@), i as int, cx, r@) == walk_all(trees(nodes@), 0, cx, o@),
        decreases nodes.len() - i,
    {
        r = gather(&nodes[i], cx, r);
        i += 1;
    }
    r
}

fn gather(node: &Node, cx: Context, o: Outline) -> (r: Outline)
    requires
        o@.wf(),
        cx.within(o@.scopes.len()),
    ensures
        r@ == walk(node@, cx, o@),
        r@.wf(),
        r@.scopes.len() >= o@.scopes.len(),
    decreases node, 0int,
{
    match node {
        Node::Function { body } => {
            let scope = o.scopes.len();
            gather_all(body, Context::enter(scope), open_scope(o, ScopeKind::Function, cx))
        },
        Node::Block { body } => {
            let scope = o.scopes.len();
            gather_all(body, Context::enter(scope), open_scope(o, ScopeKind::Block, cx))
        },
        Node::Loop { position, header, body } => {
            let scope = o.scopes.len();
            let in_header = Context {
                scope,
                access: Access::Read,
                header: Some(LoopHeader { scope, position: *position }),
                in_body: false,
            };
            let in_body = Context { scope, access: Access::Read, header: None, in_body: true };
            let o = gather_all(header, in_header, open_scope(o, ScopeKind::Loop, cx));
            gather_all(body, in_body, o)
        },
        Node::Declaration { position, kind, names, initializers } => gather_all(
            initializers,
            cx.read(),
            declare(o, *position, *kind, names, cx),
        ),
        Node::Identifier { position, name } => mention(o, *position, *name, cx),
        Node::Assignment { compound, target, value } => {
            let access = if *compound {
                Access::ReadWrite
            } else {
                Access::Write
            };
            gather(value, cx.read(), gather(target, cx.access(access), o))
        },
        Node::Pattern { elements } => gather_all(elements, cx.access(Access::DestructureBind), o),
        Node::Group { children } => gather_all(children, cx.read(), o),
        Node::Dynamic => taint(o, cx),
    }
}

/// Walks a program once and records its scopes, its declaration sites and
/// its identifier uses.
pub fn survey(program: &Node) -> (o: Outline)
    ensures
        o@ == outline_of(program@),
        o@.wf(),
{
    let mut scopes: Vec<Scope> = Vec::new();
    scopes.push(Scope { kind: ScopeKind::Module, parent: None, in_loop_body: false });
    let o = Outline {
        scopes,
        statements: Vec::new(),
        sites: Vec::new(),
        uses: Vec::new(),
        dynamic: Vec::new(),
    };
    assert(o@ == OutlineView::root());
    gather(program, Context::enter(0), o)
}

} // verus!
