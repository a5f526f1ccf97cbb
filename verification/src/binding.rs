//! Bindings: one per declared name and scope, with the references that
//! resolve to it.

use crate::outline::{scopes_wf, Access, Scope, ScopeKind, Site, Use};
use crate::scope::{
    crossing, crossings, encloses, enclosing_function, has_parent, hoist_target,
    lemma_encloses_precedes, lemma_hoist_target_precedes, parent,
};
use crate::syntax::DeclKind;
use vstd::prelude::*;

verus! {

/// One declared variable.
#[derive(Clone, Copy, Debug, PartialEq, Eq, Structural)]
pub struct Binding {
    /// The scope that owns the binding.
    pub scope: usize,
    pub name: u32,
    /// Whether every declaration of the name in this scope is function-scoped.
    pub function_scoped: bool,
    /// Where the first declaration stands.
    pub position: usize,
    /// Whether every declaration of the name in this scope has an initializer.
    pub initialized: bool,
    /// Whether a declaration of the name stands in a loop header.
    pub in_loop_header: bool,
}

/// One use of a binding.
#[derive(Clone, Copy, Debug, PartialEq, Eq, Structural)]
pub struct Reference {
    /// Index of the binding that the name resolves to.
    pub binding: usize,
    pub access: Access,
    /// The number of function boundaries between the use and the binding's
    /// scope; above zero the use is a capture.
    pub depth: usize,
    pub position: usize,
    /// The scope in which the use stands.
    pub scope: usize,
}

/// Whether `b` is the binding of `name` in `scope`.
pub open spec fn key_matches(b: Binding, scope: int, name: u32) -> bool {
    b.scope == scope && b.name == name
}

/// The index of the first binding of `name` in `scope`.
pub open spec fn lookup(bindings: Seq<Binding>, scope: int, name: u32) -> Option<int>
    decreases bindings.len(),
{
    if bindings.len() == 0 {
        None
    } else {
        match lookup(bindings.drop_last(), scope, name) {
            Some(b) => Some(b),
            None => if key_matches(bindings.last(), scope, name) {
                Some(bindings.len() - 1)
            } else {
                None
            },
        }
    }
}

/// No scope holds two bindings of one name.
pub open spec fn distinct_keys(bindings: Seq<Binding>) -> bool {
    forall|a: int, b: int|
        0 <= a < b < bindings.len() ==> !key_matches(
            #[trigger] bindings[a],
            (#[trigger] bindings[b]).scope as int,
            bindings[b].name,
        )
}

/// What `lookup` finds is the first binding with the key; it finds nothing
/// only where no binding has the key.
pub proof fn lemma_lookup(bindings: Seq<Binding>, scope: int, name: u32)
    ensures
        match lookup(bindings, scope, name) {
            Some(b) => {
                &&& 0 <= b < bindings.len()
                &&& key_matches(bindings[b], scope, name)
                &&& forall|j: int| 0 <= j < b ==> !key_matches(#[trigger] bindings[j], scope, name)
            },
            None => forall|j: int|
                0 <= j < bindings.len() ==> !key_matches(#[trigger] bindings[j], scope, name),
        },
    decreases bindings.len(),
{
    if bindings.len() > 0 {
        lemma_lookup(bindings.drop_last(), scope, name);
        assert forall|j: int| 0 <= j < bindings.len() - 1 implies bindings[j]
            == bindings.drop_last()[j] by {}
    }
}

/// The first binding with a key is what `lookup` finds.
pub proof fn lemma_lookup_first(bindings: Seq<Binding>, scope: int, name: u32, b: int)
    requires
        0 <= b < bindings.len(),
        key_matches(bindings[b], scope, name),
        forall|j: int| 0 <= j < b ==> !key_matches(#[trigger] bindings[j], scope, name),
    ensures
        lookup(bindings, scope, name) == Some(b),
    decreases bindings.len(),
{
    let front = bindings.drop_last();
    if b < bindings.len() - 1 {
        assert(front[b] == bindings[b]);
        assert forall|j: int| 0 <= j < b implies !key_matches(#[trigger] front[j], scope, name) by {
            assert(front[j] == bindings[j]);
        }
        lemma_lookup_first(front, scope, name, b);
    } else {
        lemma_lookup(front, scope, name);
        if lookup(front, scope, name) is Some {
            let f = lookup(front, scope, name)->0;
            assert(front[f] == bindings[f]);
        }
    }
}

/// Whether binding `b` stands in the list of scope `s`.
pub open spec fn listed(declared: Seq<Vec<usize>>, s: int, b: int) -> bool {
    0 <= s < declared.len() && exists|j: int|
        0 <= j < declared[s].len() && #[trigger] declared[s][j] == b
}

/// Whether `declared` lists, for each scope, the bindings that the scope
/// holds, in rising order.
pub open spec fn indexed(declared: Seq<Vec<usize>>, bindings: Seq<Binding>) -> bool {
    &&& forall|s: int, j: int|
        0 <= s < declared.len() && 0 <= j < declared[s].len() ==> {
            &&& (#[trigger] declared[s][j]) < bindings.len()
            &&& bindings[declared[s][j] as int].scope == s
        }
    &&& forall|s: int, j: int, k: int|
        0 <= s < declared.len() && 0 <= j < k < declared[s].len() ==> (#[trigger] declared[s][j])
            < #[trigger] declared[s][k]
    &&& forall|b: int|
        0 <= b < bindings.len() ==> listed(declared, (#[trigger] bindings[b]).scope as int, b)
}

/// Lists, for each of `scopes` scopes, the bindings that the scope holds.
pub(crate) fn index(scopes: usize, bindings: &Vec<Binding>) -> (declared: Vec<Vec<usize>>)
    requires
        forall|b: int| 0 <= b < bindings.len() ==> (#[trigger] bindings[b]).scope < scopes,
    ensures
        declared.len() == scopes,
        indexed(declared@, bindings@),
{
    let mut declared = empty_index(scopes);
    let mut b: usize = 0;
    while b < bindings.len()
        invariant
            b <= bindings.len(),
            declared.len() == scopes,
            forall|k: int| 0 <= k < bindings.len() ==> (#[trigger] bindings[k]).scope < scopes,
            indexed(declared@, bindings@.take(b as int)),
        decreases bindings.len() - b,
    {
        enter(
            &mut declared,
            Ghost(bindings@.take(b as int)),
            Ghost(bindings@[b as int]),
            bindings[b].scope,
            b,
        );
        assert(bindings@.take(b as int).push(bindings@[b as int]) =~= bindings@.take(b + 1));
        b += 1;
    }
    assert(bindings@.take(bindings.len() as int) =~= bindings@);
    declared
}

fn empty_index(scopes: usize) -> (declared: Vec<Vec<usize>>)
    ensures
        declared.len() == scopes,
        indexed(declared@, Seq::<Binding>::empty()),
{
    let mut declared: Vec<Vec<usize>> = Vec::new();
    while declared.len() < scopes
        invariant
            declared.len() <= scopes,
            forall|s: int| 0 <= s < declared.len() ==> (#[trigger] declared[s]).len() == 0,
        decreases scopes - declared.len(),
    {
        declared.push(Vec::new());
    }
    declared
}

/// Lists one more binding, the next in line, under its scope.
fn enter(
    declared: &mut Vec<Vec<usize>>,
    Ghost(bindings): Ghost<Seq<Binding>>,
    Ghost(added): Ghost<Binding>,
    scope: usize,
    id: usize,
)
    requires
        indexed(old(declared)@, bindings),
        scope < old(declared).len(),
        added.scope == scope,
        id == bindings.len(),
    ensures
        final(declared).len() == old(declared).len(),
        indexed(final(declared)@, bindings.push(added)),
{
    let ghost before = declared@;
    declared[scope].push(id);
    proof {
        let after = declared@;
        let all = bindings.push(added);
        assert(after[scope as int]@ == before[scope as int]@.push(id));
        assert forall|s: int, j: int| 0 <= s < after.len() && 0 <= j < after[s].len() implies {
            &&& (#[trigger] after[s][j]) < all.len()
            &&& all[after[s][j] as int].scope == s
        } by {
            if s != scope || j < before[s].len() {
                assert(after[s][j] == before[s][j]);
            }
        }
        assert forall|s: int, j: int, k: int|
            0 <= s < after.len() && 0 <= j < k < after[s].len() implies (#[trigger] after[s][j])
            < #[trigger] after[s][k] by {
            assert(after[s][j] == before[s][j]);
            if s != scope || k < before[s].len() {
                assert(after[s][k] == before[s][k]);
            }
        }
        assert forall|b: int| 0 <= b < all.len() implies listed(
            after,
            (#[trigger] all[b]).scope as int,
            b,
        ) by {
            if b < bindings.len() {
                let s = bindings[b].scope as int;
                assert(listed(before, s, b));
                let j = choose|j: int| 0 <= j < before[s].len() && #[trigger] before[s][j] == b;
                assert(after[s][j] == b);
            } else {
                assert(after[scope as int][before[scope as int].len() as int] == b);
            }
        }
    }
}

/// An index stays one where bindings change but keep their scopes.
proof fn lemma_index_kept(declared: Seq<Vec<usize>>, before: Seq<Binding>, after: Seq<Binding>)
    requires
        indexed(declared, before),
        after.len() == before.len(),
        forall|b: int| 0 <= b < before.len() ==> (#[trigger] after[b]).scope == before[b].scope,
    ensures
        indexed(declared, after),
{
    assert forall|b: int| 0 <= b < after.len() implies listed(
        declared,
        (#[trigger] after[b]).scope as int,
        b,
    ) by {
        assert(listed(declared, before[b].scope as int, b));
    }
}

/// Finds the binding of `name` in `scope`.
pub(crate) fn find(declared: &Vec<Vec<usize>>, bindings: &Vec<Binding>, scope: usize, name: u32) -> (r:
    Option<usize>)
    requires
        indexed(declared@, bindings@),
    ensures
        match r {
            Some(b) => lookup(bindings@, scope as int, name) == Some(b as int),
            None => lookup(bindings@, scope as int, name) is None,
        },
{
    proof {
        lemma_lookup(bindings@, scope as int, name);
    }
    if scope >= declared.len() {
        proof {
            if lookup(bindings@, scope as int, name) is Some {
                let b = lookup(bindings@, scope as int, name)->0;
                assert(listed(declared@, bindings@[b].scope as int, b));
            }
        }
        return None;
    }
    let list = &declared[scope];
    let mut j: usize = 0;
    while j < list.len()
        invariant
            j <= list.len(),
            scope < declared.len(),
            *list == declared@[scope as int],
            indexed(declared@, bindings@),
            forall|k: int| 0 <= k < j ==> bindings@[(#[trigger] list[k]) as int].name != name,
        decreases list.len() - j,
    {
        let b = list[j];
        if bindings[b].name == name {
            proof {
                assert forall|x: int| 0 <= x < b implies !key_matches(
                    #[trigger] bindings@[x],
                    scope as int,
                    name,
                ) by {
                    if key_matches(bindings@[x], scope as int, name) {
                        assert(listed(declared@, bindings@[x].scope as int, x));
                        let k = choose|k: int| 0 <= k < list.len() && #[trigger] list[k] == x;
                        if k > j {
                            assert(list[j as int] < list[k]);
                        }
                    }
                }
                lemma_lookup_first(bindings@, scope as int, name, b as int);
            }
            return Some(b);
        }
        j += 1;
    }
    proof {
        if lookup(bindings@, scope as int, name) is Some {
            let b = lookup(bindings@, scope as int, name)->0;
            assert(listed(declared@, bindings@[b].scope as int, b));
        }
    }
    None
}

/// The scope that owns the name declared at `site`: function-scoped
/// declarations are hoisted, the others stay where they stand.
pub open spec fn target_scope(scopes: Seq<Scope>, site: Site) -> int {
    if site.kind == DeclKind::Var {
        hoist_target(scopes, site.scope as int)
    } else {
        site.scope as int
    }
}

/// The binding that a first declaration creates.
pub open spec fn fresh(scopes: Seq<Scope>, site: Site) -> Binding {
    Binding {
        scope: target_scope(scopes, site) as usize,
        name: site.name,
        function_scoped: site.kind == DeclKind::Var,
        position: site.position,
        initialized: site.initialized,
        in_loop_header: site.header is Some,
    }
}

/// A binding after one more declaration of its name in its scope.
pub open spec fn merged(b: Binding, site: Site) -> Binding {
    Binding {
        function_scoped: b.function_scoped && site.kind == DeclKind::Var,
        initialized: b.initialized && site.initialized,
        in_loop_header: b.in_loop_header || site.header is Some,
        ..b
    }
}

/// The bindings after one more site is registered: a name already bound in
/// its target scope is merged into the binding there.
pub open spec fn with_site(scopes: Seq<Scope>, before: Seq<Binding>, site: Site) -> Seq<Binding> {
    match lookup(before, target_scope(scopes, site), site.name) {
        Some(b) => before.update(b, merged(before[b], site)),
        None => before.push(fresh(scopes, site)),
    }
}

/// The index of the binding that gets the next site.
pub open spec fn next_owner(scopes: Seq<Scope>, before: Seq<Binding>, site: Site) -> int {
    match lookup(before, target_scope(scopes, site), site.name) {
        Some(b) => b,
        None => before.len() as int,
    }
}

/// The bindings after the first `n` sites are registered in order.
pub open spec fn registered(scopes: Seq<Scope>, sites: Seq<Site>, n: int) -> Seq<Binding>
    decreases n,
{
    if n <= 0 {
        Seq::empty()
    } else {
        with_site(scopes, registered(scopes, sites, n - 1), sites[n - 1])
    }
}

/// The binding to which the name declared at `site` belongs.
pub open spec fn owner(scopes: Seq<Scope>, bindings: Seq<Binding>, site: Site) -> Option<int> {
    lookup(bindings, target_scope(scopes, site), site.name)
}

/// Whether binding `b`, with index `index`, sums up the sites that `owners`
/// gives it: it is function-scoped where all of them are `var`, initialized
/// where all of them are, marked where one of them stands in a loop header,
/// and its position is that of the first of them.
pub open spec fn sums_up(sites: Seq<Site>, owners: Seq<usize>, b: Binding, index: int) -> bool {
    &&& b.function_scoped == forall|k: int|
        0 <= k < owners.len() && #[trigger] owners[k] == index ==> sites[k].kind == DeclKind::Var
    &&& b.initialized == forall|k: int|
        0 <= k < owners.len() && #[trigger] owners[k] == index ==> sites[k].initialized
    &&& b.in_loop_header == exists|k: int|
        0 <= k < owners.len() && #[trigger] owners[k] == index && sites[k].header is Some
    &&& exists|k: int|
        {
            &&& 0 <= k < owners.len() && #[trigger] owners[k] == index
            &&& sites[k].position == b.position
            &&& forall|j: int| 0 <= j < k ==> #[trigger] owners[j] != index
        }
}

/// Whether `owners` gives each of its sites to the binding of the site's
/// name in the site's target scope, and each binding sums up its sites.
pub open spec fn accounted(
    scopes: Seq<Scope>,
    sites: Seq<Site>,
    owners: Seq<usize>,
    bindings: Seq<Binding>,
) -> bool {
    &&& forall|k: int|
        0 <= k < owners.len() ==> (#[trigger] owners[k]) < bindings.len() && key_matches(
            bindings[owners[k] as int],
            target_scope(scopes, sites[k]),
            sites[k].name,
        )
    &&& forall|b: int| 0 <= b < bindings.len() ==> sums_up(sites, owners, #[trigger] bindings[b], b)
}

/// Registering a site keeps every binding at its index with its scope and
/// name, and gives the site a binding with its own.
pub proof fn lemma_with_site_keys(scopes: Seq<Scope>, before: Seq<Binding>, site: Site)
    ensures
        before.len() <= with_site(scopes, before, site).len() <= before.len() + 1,
        forall|k: int|
            0 <= k < before.len() ==> key_matches(
                #[trigger] with_site(scopes, before, site)[k],
                before[k].scope as int,
                before[k].name,
            ),
        0 <= next_owner(scopes, before, site) < with_site(scopes, before, site).len(),
        key_matches(
            with_site(scopes, before, site)[next_owner(scopes, before, site)],
            target_scope(scopes, site),
            site.name,
        ),
{
    lemma_lookup(before, target_scope(scopes, site), site.name);
    lemma_hoist_target_precedes(scopes, site.scope as int);
}

/// A name that had a binding before a site was registered has the same one
/// after.
pub proof fn lemma_with_site_lookup(
    scopes: Seq<Scope>,
    before: Seq<Binding>,
    site: Site,
    scope: int,
    name: u32,
)
    requires
        lookup(before, scope, name) is Some,
    ensures
        lookup(with_site(scopes, before, site), scope, name) == lookup(before, scope, name),
{
    let after = with_site(scopes, before, site);
    let found = lookup(before, scope, name)->0;
    lemma_with_site_keys(scopes, before, site);
    lemma_lookup(before, scope, name);
    assert(key_matches(after[found], before[found].scope as int, before[found].name));
    assert forall|j: int| 0 <= j < found implies !key_matches(#[trigger] after[j], scope, name) by {
        assert(key_matches(after[j], before[j].scope as int, before[j].name));
    }
    lemma_lookup_first(after, scope, name, found);
}

/// Registering a site leaves no scope with two bindings of one name.
pub proof fn lemma_with_site_distinct(scopes: Seq<Scope>, before: Seq<Binding>, site: Site)
    requires
        distinct_keys(before),
    ensures
        distinct_keys(with_site(scopes, before, site)),
{
    let after = with_site(scopes, before, site);
    lemma_with_site_keys(scopes, before, site);
    lemma_lookup(before, target_scope(scopes, site), site.name);
    assert forall|a: int, b: int| 0 <= a < b < after.len() implies !key_matches(
        #[trigger] after[a],
        (#[trigger] after[b]).scope as int,
        after[b].name,
    ) by {
        assert(key_matches(after[a], before[a].scope as int, before[a].name));
        if b < before.len() {
            assert(key_matches(after[b], before[b].scope as int, before[b].name));
        }
    }
}

/// Registering the next site keeps every site with the binding of its name,
/// and every binding the sum of its sites.
pub proof fn lemma_with_site_accounted(
    scopes: Seq<Scope>,
    sites: Seq<Site>,
    owners: Seq<usize>,
    before: Seq<Binding>,
)
    requires
        owners.len() < sites.len(),
        accounted(scopes, sites, owners, before),
        before.len() <= usize::MAX,
    ensures
        accounted(
            scopes,
            sites,
            owners.push(next_owner(scopes, before, sites[owners.len() as int]) as usize),
            with_site(scopes, before, sites[owners.len() as int]),
        ),
{
    let i = owners.len() as int;
    let site = sites[i];
    let after = with_site(scopes, before, site);
    let mine = next_owner(scopes, before, site);
    let owned = owners.push(mine as usize);
    lemma_with_site_keys(scopes, before, site);
    lemma_lookup(before, target_scope(scopes, site), site.name);
    assert forall|k: int| 0 <= k < owned.len() implies (#[trigger] owned[k]) < after.len()
        && key_matches(after[owned[k] as int], target_scope(scopes, sites[k]), sites[k].name) by {
        if k < i {
            assert(owned[k] == owners[k]);
            let o = owners[k] as int;
            assert(key_matches(after[o], before[o].scope as int, before[o].name));
        }
    }
    assert forall|b: int| 0 <= b < after.len() implies sums_up(sites, owned, #[trigger] after[b], b) by {
        assert forall|k: int| 0 <= k < i implies owned[k] == owners[k] by {}
        assert(owned[i] == mine);
        if b < before.len() {
            assert(sums_up(sites, owners, before[b], b));
            let first = choose|k: int|
                {
                    &&& 0 <= k < owners.len() && #[trigger] owners[k] == b
                    &&& sites[k].position == before[b].position
                    &&& forall|j: int| 0 <= j < k ==> #[trigger] owners[j] != b
                };
            assert(owned[first] == b);
            assert forall|j: int| 0 <= j < first implies #[trigger] owned[j] != b by {
                assert(owners[j] != b);
            }
            if after[b].in_loop_header && before[b].in_loop_header {
                let w = choose|k: int|
                    0 <= k < owners.len() && #[trigger] owners[k] == b && sites[k].header is Some;
                assert(owned[w] == b);
            }
        } else {
            assert(mine == b);
            assert forall|j: int| 0 <= j < i implies #[trigger] owned[j] != b by {
                assert(owners[j] < before.len());
            }
        }
    }
}

/// Registers every declaration site, in order. Returns the bindings and, for
/// each site, the index of the binding it belongs to.
pub(crate) fn register(scopes: &Vec<Scope>, sites: &Vec<Site>) -> (r: (Vec<Binding>, Vec<usize>))
    requires
        scopes_wf(scopes@),
        forall|i: int| 0 <= i < sites.len() ==> (#[trigger] sites[i]).scope < scopes.len(),
    ensures
        r.0@ == registered(scopes@, sites@, sites.len() as int),
        r.1.len() == sites.len(),
        forall|i: int|
            0 <= i < sites.len() ==> owner(scopes@, r.0@, #[trigger] sites[i]) == Some(
                r.1[i] as int,
            ),
        accounted(scopes@, sites@, r.1@, r.0@),
        distinct_keys(r.0@),
        forall|b: int| 0 <= b < r.0.len() ==> (#[trigger] r.0[b]).scope < scopes.len(),
{
    let mut bindings: Vec<Binding> = Vec::new();
    let mut owners: Vec<usize> = Vec::new();
    let mut declared = empty_index(scopes.len());
    let mut i: usize = 0;
    while i < sites.len()
        invariant
            i <= sites.len(),
            scopes_wf(scopes@),
            declared.len() == scopes.len(),
            indexed(declared@, bindings@),
            forall|k: int| 0 <= k < sites.len() ==> (#[trigger] sites[k]).scope < scopes.len(),
            bindings@ == registered(scopes@, sites@, i as int),
            owners.len() == i,
            forall|k: int|
                0 <= k < i ==> owner(scopes@, bindings@, #[trigger] sites[k]) == Some(
                    owners[k] as int,
                ),
            accounted(scopes@, sites@, owners@, bindings@),
            distinct_keys(bindings@),
            forall|b: int| 0 <= b < bindings.len() ==> (#[trigger] bindings[b]).scope < scopes.len(),
        decreases sites.len() - i,
    {
        let site = sites[i];
        let target = if site.kind == DeclKind::Var {
            enclosing_function(scopes, site.scope)
        } else {
            site.scope
        };
        let ghost before = bindings@;
        let ghost owned = owners@;
        proof {
            assert(before.len() == bindings.len());
            lemma_lookup(before, target as int, site.name);
            lemma_with_site_keys(scopes@, before, site);
            lemma_with_site_distinct(scopes@, before, site);
            lemma_with_site_accounted(scopes@, sites@, owned, before);
            assert forall|k: int| 0 <= k < i implies owner(
                scopes@,
                with_site(scopes@, before, site),
                #[trigger] sites[k],
            ) == Some(owned[k] as int) by {
                lemma_with_site_lookup(
                    scopes@,
                    before,
                    site,
                    target_scope(scopes@, sites[k]),
                    sites[k].name,
                );
            }
            lemma_lookup_first(
                with_site(scopes@, before, site),
                target as int,
                site.name,
                next_owner(scopes@, before, site),
            );
        }
        match find(&declared, &bindings, target, site.name) {
            Some(b) => {
                let old = bindings[b];
                bindings.set(
                    b,
                    Binding {
                        scope: old.scope,
                        name: old.name,
                        function_scoped: old.function_scoped && site.kind == DeclKind::Var,
                        position: old.position,
                        initialized: old.initialized && site.initialized,
                        in_loop_header: old.in_loop_header || site.header.is_some(),
                    },
                );
                owners.push(b);
                proof {
                    lemma_index_kept(declared@, before, bindings@);
                }
            },
            None => {
                owners.push(bindings.len());
                enter(
                    &mut declared,
                    Ghost(before),
                    Ghost(fresh(scopes@, site)),
                    target,
                    bindings.len(),
                );
                bindings.push(
                    Binding {
                        scope: target,
                        name: site.name,
                        function_scoped: site.kind == DeclKind::Var,
                        position: site.position,
                        initialized: site.initialized,
                        in_loop_header: site.header.is_some(),
                    },
                );
            },
        }
        i += 1;
    }
    (bindings, owners)
}

/// The binding that `name`, used in `scope`, resolves to: the one in the
/// nearest scope, from `scope` outward, that declares the name. With it
/// comes the number of function boundaries crossed on the way.
pub open spec fn resolved(scopes: Seq<Scope>, bindings: Seq<Binding>, scope: int, name: u32) -> Option<
    (int, nat),
>
    decreases scope,
{
    match lookup(bindings, scope, name) {
        Some(b) => Some((b, 0nat)),
        None => if has_parent(scopes, scope) {
            match resolved(scopes, bindings, parent(scopes, scope), name) {
                Some((b, d)) => Some((b, d + crossing(scopes[scope]))),
                None => None,
            }
        } else {
            None
        },
    }
}

/// A name resolves to its binding in the nearest scope, from the scope of
/// the use outward, that declares it, and the depth that comes with it is
/// the number of function boundaries between the two. It resolves to
/// nothing only where no scope around the use declares it.
pub proof fn lemma_resolved_is_nearest(scopes: Seq<Scope>, bindings: Seq<Binding>, s: int, name: u32)
    requires
        scopes_wf(scopes),
        0 <= s < scopes.len(),
    ensures
        match resolved(scopes, bindings, s, name) {
            Some((b, d)) => {
                &&& 0 <= b < bindings.len()
                &&& bindings[b].name == name
                &&& encloses(scopes, bindings[b].scope as int, s)
                &&& lookup(bindings, bindings[b].scope as int, name) == Some(b)
                &&& d == crossings(scopes, s, bindings[b].scope as int)
                &&& forall|x: int|
                    #[trigger] encloses(scopes, x, s) && encloses(
                        scopes,
                        bindings[b].scope as int,
                        x,
                    ) && x != bindings[b].scope ==> lookup(bindings, x, name) is None
            },
            None => forall|x: int|
                #[trigger] encloses(scopes, x, s) ==> lookup(bindings, x, name) is None,
        },
    decreases s,
{
    lemma_lookup(bindings, s, name);
    if lookup(bindings, s, name) is Some {
        assert forall|x: int| #[trigger]
            encloses(scopes, x, s) && encloses(scopes, s, x) && x != s implies lookup(
            bindings,
            x,
            name,
        ) is None by {
            lemma_encloses_precedes(scopes, x, s);
            lemma_encloses_precedes(scopes, s, x);
        }
    } else if has_parent(scopes, s) {
        let p = parent(scopes, s);
        lemma_resolved_is_nearest(scopes, bindings, p, name);
        match resolved(scopes, bindings, p, name) {
            Some((b, d)) => {
                let t = bindings[b].scope as int;
                lemma_encloses_precedes(scopes, t, p);
                assert forall|x: int| #[trigger]
                    encloses(scopes, x, s) && encloses(scopes, t, x) && x != t implies lookup(
                    bindings,
                    x,
                    name,
                ) is None by {
                    if x != s {
                        assert(encloses(scopes, x, p));
                    }
                }
            },
            None => {
                assert forall|x: int| #[trigger] encloses(scopes, x, s) implies lookup(
                    bindings,
                    x,
                    name,
                ) is None by {
                    if x != s {
                        assert(encloses(scopes, x, p));
                    }
                }
            },
        }
    } else {
        assert forall|x: int| #[trigger] encloses(scopes, x, s) implies lookup(bindings, x, name)
            is None by {}
    }
}

/// A resolution met after `depth` function boundaries were crossed.
pub open spec fn deepened(r: Option<(int, nat)>, depth: nat) -> Option<(int, nat)> {
    match r {
        Some((b, d)) => Some((b, d + depth)),
        None => None,
    }
}

/// Resolves `name`, used in `scope`, to a binding and a closure depth.
pub(crate) fn resolve(
    scopes: &Vec<Scope>,
    declared: &Vec<Vec<usize>>,
    bindings: &Vec<Binding>,
    scope: usize,
    name: u32,
) -> (r: Option<(usize, usize)>)
    requires
        scopes_wf(scopes@),
        indexed(declared@, bindings@),
        scope < scopes.len(),
    ensures
        match r {
            Some((b, d)) => resolved(scopes@, bindings@, scope as int, name) == Some(
                (b as int, d as nat),
            ) && b < bindings.len(),
            None => resolved(scopes@, bindings@, scope as int, name) is None,
        },
{
    let mut cur = scope;
    let mut depth: usize = 0;
    loop
        invariant
            cur <= scope < scopes.len(),
            scopes_wf(scopes@),
            indexed(declared@, bindings@),
            depth <= scope - cur,
            resolved(scopes@, bindings@, scope as int, name) == deepened(
                resolved(scopes@, bindings@, cur as int, name),
                depth as nat,
            ),
        decreases cur,
    {
        let found = find(declared, bindings, cur, name);
        proof {
            lemma_lookup(bindings@, cur as int, name);
        }
        match found {
            Some(b) => {
                return Some((b, depth));
            },
            None => {},
        }
        if cur == 0 {
            return None;
        }
        if scopes[cur].kind == ScopeKind::Function {
            depth += 1;
        }
        cur = scopes[cur].parent.unwrap();
    }
}

/// The reference that a use gives rise to, if its name resolves.
pub open spec fn reference_of(scopes: Seq<Scope>, bindings: Seq<Binding>, u: Use) -> Option<
    Reference,
> {
    match resolved(scopes, bindings, u.scope as int, u.name) {
        Some((b, d)) => Some(
            Reference {
                binding: b as usize,
                access: u.access,
                depth: d as usize,
                position: u.position,
                scope: u.scope,
            },
        ),
        None => None,
    }
}

/// The function that gives each use its reference.
pub open spec fn referencer(scopes: Seq<Scope>, bindings: Seq<Binding>) -> spec_fn(Use) -> Option<
    Reference,
> {
    |u: Use| reference_of(scopes, bindings, u)
}

/// The references of the uses, in source order; a use whose name resolves to
/// no binding leaves none.
pub open spec fn references_of(scopes: Seq<Scope>, bindings: Seq<Binding>, uses: Seq<Use>) -> Seq<
    Reference,
> {
    uses.filter_map(referencer(scopes, bindings))
}

/// The function that tells whether a reference names binding `b`.
pub open spec fn naming(b: int) -> spec_fn(Reference) -> bool {
    |r: Reference| r.binding == b
}

/// The references to binding `b`, in source order.
pub open spec fn references_to(references: Seq<Reference>, b: int) -> Seq<Reference> {
    references.filter(naming(b))
}

/// The function that tells whether a binding belongs to `scope`.
pub open spec fn owned_by(scope: int) -> spec_fn(Binding) -> bool {
    |b: Binding| b.scope == scope
}

/// The bindings that `scope` holds, in the order of their first declaration.
pub open spec fn declared_in(bindings: Seq<Binding>, scope: int) -> Seq<Binding> {
    bindings.filter(owned_by(scope))
}

/// Whether every reference names a binding whose scope is that of the use or
/// lies around it, with the number of function boundaries between the two as
/// its depth.
pub open spec fn references_placed(
    scopes: Seq<Scope>,
    bindings: Seq<Binding>,
    references: Seq<Reference>,
) -> bool {
    forall|i: int|
        0 <= i < references.len() ==> {
            let r = #[trigger] references[i];
            &&& r.binding < bindings.len()
            &&& r.scope < scopes.len()
            &&& encloses(scopes, bindings[r.binding as int].scope as int, r.scope as int)
            &&& r.depth == crossings(scopes, r.scope as int, bindings[r.binding as int].scope as int)
        }
}

/// Resolves every use and returns the references, in source order.
pub(crate) fn collect(scopes: &Vec<Scope>, bindings: &Vec<Binding>, uses: &Vec<Use>) -> (r: Vec<Reference>)
    requires
        scopes_wf(scopes@),
        forall|b: int| 0 <= b < bindings.len() ==> (#[trigger] bindings[b]).scope < scopes.len(),
        forall|i: int| 0 <= i < uses.len() ==> (#[trigger] uses[i]).scope < scopes.len(),
    ensures
        r@ == references_of(scopes@, bindings@, uses@),
        references_placed(scopes@, bindings@, r@),
{
    let declared = index(scopes.len(), bindings);
    let mut references: Vec<Reference> = Vec::new();
    let mut i: usize = 0;
    let ghost each = referencer(scopes@, bindings@);
    while i < uses.len()
        invariant
            i <= uses.len(),
            scopes_wf(scopes@),
            indexed(declared@, bindings@),
            forall|k: int| 0 <= k < uses.len() ==> (#[trigger] uses[k]).scope < scopes.len(),
            each == referencer(scopes@, bindings@),
            references@ == uses@.take(i as int).filter_map(each),
            references_placed(scopes@, bindings@, references@),
        decreases uses.len() - i,
    {
        let u = uses[i];
        proof {
            lemma_resolved_is_nearest(scopes@, bindings@, u.scope as int, u.name);
            uses@.lemma_filter_map_take_succ(each, i as int);
        }
        match resolve(scopes, &declared, bindings, u.scope, u.name) {
            Some((binding, depth)) => {
                references.push(
                    Reference {
                        binding,
                        access: u.access,
                        depth,
                        position: u.position,
                        scope: u.scope,
                    },
                );
            },
            None => {},
        }
        i += 1;
    }
    assert(uses@.take(uses.len() as int) =~= uses@);
    references
}

/// Lists the references to binding `b`, in source order.
pub fn list_references_to(references: &Vec<Reference>, b: usize) -> (r: Vec<Reference>)
    ensures
        r@ == references_to(references@, b as int),
{
    let mut r: Vec<Reference> = Vec::new();
    let mut i: usize = 0;
    let ghost named = naming(b as int);
    proof {
        reveal(Seq::filter);
    }
    while i < references.len()
        invariant
            i <= references.len(),
            named == naming(b as int),
            r@ == references@.take(i as int).filter(named),
        decreases references.len() - i,
    {
        proof {
            let seen = references@.take(i as int);
            seen.lemma_filter_push(references@[i as int], named);
            assert(references@.take(i + 1) =~= seen.push(references@[i as int]));
        }
        if references[i].binding == b {
            r.push(references[i]);
        }
        i += 1;
    }
    assert(references@.take(references.len() as int) =~= references@);
    r
}

/// Lists the bindings that `scope` holds, in the order of their first
/// declaration.
pub fn list_declared_in(bindings: &Vec<Binding>, scope: usize) -> (r: Vec<Binding>)
    ensures
        r@ == declared_in(bindings@, scope as int),
{
    let mut r: Vec<Binding> = Vec::new();
    let mut i: usize = 0;
    let ghost owned = owned_by(scope as int);
    proof {
        reveal(Seq::filter);
    }
    while i < bindings.len()
        invariant
            i <= bindings.len(),
            owned == owned_by(scope as int),
            r@ == bindings@.take(i as int).filter(owned),
        decreases bindings.len() - i,
    {
        proof {
            let seen = bindings@.take(i as int);
            seen.lemma_filter_push(bindings@[i as int], owned);
            assert(bindings@.take(i + 1) =~= seen.push(bindings@[i as int]));
        }
        if bindings[i].scope == scope {
            r.push(bindings[i]);
        }
        i += 1;
    }
    assert(bindings@.take(bindings.len() as int) =~= bindings@);
    r
}

} // verus!
