//! From verdicts to the new keyword of each declaration statement, and from
//! there to the rewritten tree.

use crate::graph::{GraphView, ScopeGraph};
use crate::outline::Site;
use crate::syntax::{trees, DeclKind, DeclaredName, Node, Tree};
use crate::verdict::{blank, classify, Verdict};
use vstd::prelude::*;

verus! {

/// Whether a verdict lets the declaration become block-scoped.
pub open spec fn permits(v: Option<Verdict>) -> bool {
    v == Some(Verdict::Immutable) || v == Some(Verdict::Mutable)
}

/// Whether one of the first `n` sites belongs to statement `k`.
pub open spec fn declares_by(sites: Seq<Site>, k: int, n: int) -> bool {
    exists|i: int| 0 <= i < n && (#[trigger] sites[i]).statement == k
}

impl GraphView {
    /// The verdict on the binding of the name declared at site `s`.
    pub open spec fn site_verdict(self, s: int) -> Option<Verdict> {
        self.verdict(self.owners[s] as int)
    }

    /// Whether one of the first `n` sites belongs to statement `k` and has a
    /// binding that must stay as it is.
    pub open spec fn blocked_by(self, k: int, n: int) -> bool {
        exists|i: int|
            0 <= i < n && (#[trigger] self.sites[i]).statement == k && !permits(
                self.site_verdict(i),
            )
    }

    /// Whether one of the first `n` sites belongs to statement `k` and has a
    /// mutable binding.
    pub open spec fn mutable_by(self, k: int, n: int) -> bool {
        exists|i: int|
            0 <= i < n && (#[trigger] self.sites[i]).statement == k && self.site_verdict(i)
                == Some(Verdict::Mutable)
    }

    /// The keyword that statement `k` gets, or `None` where it keeps its own.
    ///
    /// Only a `var` statement that declares a name is rewritten, and only
    /// where every name it declares may become block-scoped. It becomes
    /// `let` where one of its names is mutable, `const` where all are
    /// immutable.
    pub open spec fn decision(self, k: int) -> Option<DeclKind> {
        let n = self.sites.len() as int;
        if self.statements[k].kind != DeclKind::Var || !declares_by(self.sites, k, n)
            || self.blocked_by(k, n) {
            None
        } else if self.mutable_by(k, n) {
            Some(DeclKind::Let)
        } else {
            Some(DeclKind::Const)
        }
    }

    /// The decision on every statement, in source order.
    pub open spec fn decisions(self) -> Seq<Option<DeclKind>> {
        Seq::new(self.statements.len(), |k: int| self.decision(k))
    }
}

/// Decides the keyword of every declaration statement from the verdicts on
/// the bindings.
pub fn decide(g: &ScopeGraph) -> (r: Vec<Option<DeclKind>>)
    ensures
        r@ == g@.decisions(),
{
    proof {
        use_type_invariant(g);
    }
    let verdicts = classify(g);
    let statements = g.statements();
    let sites = g.sites();
    let owners = g.owners();
    let n = statements.len();
    let mut declared = blank(n);
    let mut blocked = blank(n);
    let mut mutable = blank(n);
    let mut i: usize = 0;
    while i < sites.len()
        invariant
            g@.wf(),
            verdicts@ == g@.verdicts(),
            sites@ == g@.sites,
            owners@ == g@.owners,
            n == statements.len(),
            statements@ == g@.statements,
            declared.len() == n,
            blocked.len() == n,
            mutable.len() == n,
            i <= sites.len(),
            forall|k: int| 0 <= k < n ==> #[trigger] declared[k] == declares_by(sites@, k, i as int),
            forall|k: int| 0 <= k < n ==> #[trigger] blocked[k] == g@.blocked_by(k, i as int),
            forall|k: int| 0 <= k < n ==> #[trigger] mutable[k] == g@.mutable_by(k, i as int),
        decreases sites.len() - i,
    {
        let site = sites[i];
        assert(g@.sites[i as int].statement < n);
        assert(g@.owners[i as int] < g@.bindings.len());
        let verdict = verdicts[owners[i]];
        assert(verdict == g@.site_verdict(i as int));
        declared.set(site.statement, true);
        match verdict {
            Some(Verdict::Immutable) => {},
            Some(Verdict::Mutable) => {
                mutable.set(site.statement, true);
            },
            _ => {
                blocked.set(site.statement, true);
            },
        }
        i += 1;
    }
    let mut r: Vec<Option<DeclKind>> = Vec::new();
    let mut k: usize = 0;
    while k < n
        invariant
            n == statements.len(),
            statements@ == g@.statements,
            sites@ == g@.sites,
            declared.len() == n,
            blocked.len() == n,
            mutable.len() == n,
            k <= n,
            r.len() == k,
            forall|j: int|
                0 <= j < n ==> #[trigger] declared[j] == declares_by(
                    sites@,
                    j,
                    sites.len() as int,
                ),
            forall|j: int| 0 <= j < n ==> #[trigger] blocked[j] == g@.blocked_by(j, sites.len() as int),
            forall|j: int| 0 <= j < n ==> #[trigger] mutable[j] == g@.mutable_by(j, sites.len() as int),
            forall|j: int| 0 <= j < k ==> #[trigger] r[j] == g@.decision(j),
        decreases n - k,
    {
        let decision = if !(statements[k].kind == DeclKind::Var) || !declared[k] || blocked[k] {
            None
        } else if mutable[k] {
            Some(DeclKind::Let)
        } else {
            Some(DeclKind::Const)
        };
        r.push(decision);
        k += 1;
    }
    assert(r@ =~= g@.decisions());
    r
}

/// The keyword of a declaration once the decision at cursor `c` is applied:
/// only a `var` changes, and only where a decision stands at `c`.
pub open spec fn rewritten_kind(kind: DeclKind, decisions: Seq<Option<DeclKind>>, c: int) -> DeclKind {
    if kind == DeclKind::Var && 0 <= c < decisions.len() && decisions[c] is Some {
        decisions[c]->0
    } else {
        kind
    }
}

/// The cursor after one declaration statement: it moves to the next decision
/// until the decisions are used up.
pub open spec fn advanced(decisions: Seq<Option<DeclKind>>, c: int) -> int {
    if c < decisions.len() {
        c + 1
    } else {
        c
    }
}

/// The tree in which each declaration statement, counted in source order
/// from cursor `c`, has the keyword that its decision gives it; with it, the
/// cursor behind the last statement of the tree. Nothing else changes.
pub open spec fn rewritten(node: Tree, decisions: Seq<Option<DeclKind>>, c: int) -> (Tree, int)
    decreases node, 0int,
{
    match node {
        Tree::Function { body } => {
            let (body, c) = rewritten_all(body, 0, decisions, c);
            (Tree::Function { body }, c)
        },
        Tree::Block { body } => {
            let (body, c) = rewritten_all(body, 0, decisions, c);
            (Tree::Block { body }, c)
        },
        Tree::Loop { position, header, body } => {
            let (header, c) = rewritten_all(header, 0, decisions, c);
            let (body, c) = rewritten_all(body, 0, decisions, c);
            (Tree::Loop { position, header, body }, c)
        },
        Tree::Declaration { position, kind, names, initializers } => {
            let (initializers, next) = rewritten_all(
                initializers,
                0,
                decisions,
                advanced(decisions, c),
            );
            (
                Tree::Declaration {
                    position,
                    kind: rewritten_kind(kind, decisions, c),
                    names,
                    initializers,
                },
                next,
            )
        },
        Tree::Identifier { position, name } => (node, c),
        Tree::Assignment { compound, target, value } => {
            let (target, c) = rewritten(*target, decisions, c);
            let (value, c) = rewritten(*value, decisions, c);
            (Tree::Assignment { compound, target: Box::new(target), value: Box::new(value) }, c)
        },
        Tree::Pattern { elements } => {
            let (elements, c) = rewritten_all(elements, 0, decisions, c);
            (Tree::Pattern { elements }, c)
        },
        Tree::Group { children } => {
            let (children, c) = rewritten_all(children, 0, decisions, c);
            (Tree::Group { children }, c)
        },
        Tree::Dynamic => (node, c),
    }
}

/// The nodes from index `from` on, rewritten in order from cursor `c`; with
/// them, the cursor behind the last.
pub open spec fn rewritten_all(
    nodes: Seq<Tree>,
    from: int,
    decisions: Seq<Option<DeclKind>>,
    c: int,
) -> (Seq<Tree>, int)
    decreases nodes, nodes.len() - from,
{
    if 0 <= from < nodes.len() {
        let (first, c) = rewritten(nodes[from], decisions, c);
        let (rest, c) = rewritten_all(nodes, from + 1, decisions, c);
        (seq![first] + rest, c)
    } else {
        (Seq::empty(), c)
    }
}

fn copy_names(names: &Vec<DeclaredName>) -> (r: Vec<DeclaredName>)
    ensures
        r@ == names@,
{
    let mut r: Vec<DeclaredName> = Vec::new();
    let mut i: usize = 0;
    while i < names.len()
        invariant
            i <= names.len(),
            r@ == names@.subrange(0, i as int),
        decreases names.len() - i,
    {
        r.push(names[i]);
        i += 1;
    }
    assert(r@ == names@);
    r
}

/// Rewrites a list of nodes from cursor `c`.
pub fn rewrite_all(nodes: &Vec<Node>, decisions: &Vec<Option<DeclKind>>, c: usize) -> (r: (
    Vec<Node>,
    usize,
))
    ensures
        trees(r.0@) == rewritten_all(trees(nodes@), 0, decisions@, c as int).0,
        r.1 == rewritten_all(trees(nodes@), 0, decisions@, c as int).1,
    decreases nodes, 1int,
{
    let mut out: Vec<Node> = Vec::new();
    let mut cursor = c;
    let mut i: usize = 0;
    let ghost goal = rewritten_all(trees(nodes@), 0, decisions@, c as int);
    while i < nodes.len()
        invariant
            i <= nodes.len(),
            goal == rewritten_all(trees(nodes@), 0, decisions@, c as int),
            trees(out@) + rewritten_all(trees(nodes@), i as int, decisions@, cursor as int).0
                == goal.0,
            rewritten_all(trees(nodes@), i as int, decisions@, cursor as int).1 == goal.1,
        decreases nodes.len() - i,
    {
        let ghost before = trees(out@);
        let (node, next) = rewrite(&nodes[i], decisions, cursor);
        out.push(node);
        proof {
            let rest = rewritten_all(trees(nodes@), i as int + 1, decisions@, next as int).0;
            assert(trees(out@) == before + seq![node@]);
            assert((before + seq![node@]) + rest == before + (seq![node@] + rest));
        }
        cursor = next;
        i += 1;
    }
    assert(trees(out@) + Seq::<Tree>::empty() == trees(out@));
    (out, cursor)
}

/// Rewrites a tree from cursor `c`: returns the new tree and the cursor
/// behind its last declaration statement.
pub fn rewrite(node: &Node, decisions: &Vec<Option<DeclKind>>, c: usize) -> (r: (Node, usize))
    ensures
        r.0@ == rewritten(node@, decisions@, c as int).0,
        r.1 == rewritten(node@, decisions@, c as int).1,
    decreases node, 0int,
{
    match node {
        Node::Function { body } => {
            let (body, c) = rewrite_all(body, decisions, c);
            (Node::Function { body }, c)
        },
        Node::Block { body } => {
            let (body, c) = rewrite_all(body, decisions, c);
            (Node::Block { body }, c)
        },
        Node::Loop { position, header, body } => {
            let (header, c) = rewrite_all(header, decisions, c);
            let (body, c) = rewrite_all(body, decisions, c);
            (Node::Loop { position: *position, header, body }, c)
        },
        Node::Declaration { position, kind, names, initializers } => {
            let (kind, next) = apply(*kind, decisions, c);
            let (initializers, next) = rewrite_all(initializers, decisions, next);
            (
                Node::Declaration {
                    position: *position,
                    kind,
                    names: copy_names(names),
                    initializers,
                },
                next,
            )
        },
        Node::Identifier { position, name } => (
            Node::Identifier { position: *position, name: *name },
            c,
        ),
        Node::Assignment { compound, target, value } => {
            let (target, c) = rewrite(target, decisions, c);
            let (value, c) = rewrite(value, decisions, c);
            (
                Node::Assignment {
                    compound: *compound,
                    target: Box::new(target),
                    value: Box::new(value),
                },
                c,
            )
        },
        Node::Pattern { elements } => {
            let (elements, c) = rewrite_all(elements, decisions, c);
            (Node::Pattern { elements }, c)
        },
        Node::Group { children } => {
            let (children, c) = rewrite_all(children, decisions, c);
            (Node::Group { children }, c)
        },
        Node::Dynamic => (Node::Dynamic, c),
    }
}

/// Applies the decision at cursor `c` to one declaration keyword: returns
/// the new keyword and the cursor for the next statement.
pub fn apply(kind: DeclKind, decisions: &Vec<Option<DeclKind>>, c: usize) -> (r: (DeclKind, usize))
    ensures
        r.0 == rewritten_kind(kind, decisions@, c as int),
        r.1 == advanced(decisions@, c as int),
{
    if c < decisions.len() {
        let new = match decisions[c] {
            Some(decided) => if kind == DeclKind::Var {
                decided
            } else {
                kind
            },
            None => kind,
        };
        (new, c + 1)
    } else {
        (kind, c)
    }
}

} // verus!
