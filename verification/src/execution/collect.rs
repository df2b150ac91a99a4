//! The parent's side of dependencies that reach worker processes as bytes or through stubs.
use super::materialize;
use super::materialize::Values;
use super::node::SuiteNode;
use super::order;
use super::order::sorted_dependencies;
use super::values::DependencyMap;
use crate::internal;
use crate::internal::{DepScope, DependencyModel, HostId, RegisteredDependency};
use crate::text;
use crate::text::concat;
use std::sync::Arc;
use vstd::prelude::*;

verus! {

/// Wire bytes of a dependency under its fully qualified identifier.
pub type DepWireBytes = (String, Vec<u8>);

/// Descriptors of dependencies, with the owners that have to outlive the workers.
pub type HostedDescriptorCollection<V> = (Vec<DepWireBytes>, Vec<Arc<V>>);

/// What the parent holds of the dependencies whose values in the workers are derived from it. `K`
/// is the type of the cells that hold the owners of remotely called dependencies.
#[verifier::reject_recursive_types(V)]
#[verifier::reject_recursive_types(K)]
pub struct ParentSharedDependencies<V, K> {
    pub cloneable_wire_bytes: Vec<DepWireBytes>,
    /// The values themselves, for a run without worker processes
    pub cloneable_local_values: Vec<(String, Arc<V>)>,
    pub hosted_descriptor_bytes: Vec<DepWireBytes>,
    pub hosted_owners: Vec<Arc<V>>,
    pub hosted_rpc_owner_cells: Vec<(String, K)>,
}

/// A dependency with the value that was constructed for it.
pub type Built<V> = (DependencyModel, Arc<V>);

/// The encoder for the value of this dependency: that of the codec of its scope.
pub open spec fn encoder(dep: DependencyModel) -> HostId {
    match dep.scope {
        DepScope::Hosted => dep.hosted_codec->0.to_wire,
        _ => dep.cloneable_codec->0.to_wire,
    }
}

/// `bytes` is what `to_wire` may return for the value of this dependency, with the encoder of the
/// dependency.
pub open spec fn wired<V, W: Fn(HostId, &Arc<V>) -> Vec<u8>>(
    to_wire: W,
    dep: DependencyModel,
    value: Arc<V>,
    bytes: Vec<u8>,
) -> bool {
    to_wire.ensures((encoder(dep), &value), bytes)
}

/// `cell` is what `owner_into_cell` may return for the value of this dependency, with the factory of
/// the dependency.
pub open spec fn celled<V, K, C: Fn(HostId, &Arc<V>) -> K>(
    owner_into_cell: C,
    dep: DependencyModel,
    value: Arc<V>,
    cell: K,
) -> bool {
    owner_into_cell.ensures((dep.rpc_factory->0.owner_into_cell, &value), cell)
}

/// The dependencies of this scope among those that were built.
pub open spec fn of_scope<V>(built: Seq<Built<V>>, scope: DepScope) -> Seq<Built<V>> {
    built.filter(|b: Built<V>| b.0.scope == scope)
}

/// `after` continues `before` with one entry of wire bytes for each of those that were built.
pub open spec fn adds_wire_bytes<V, W: Fn(HostId, &Arc<V>) -> Vec<u8>>(
    to_wire: W,
    before: Seq<DepWireBytes>,
    after: Seq<DepWireBytes>,
    built: Seq<Built<V>>,
) -> bool {
    &&& after.len() == before.len() + built.len()
    &&& forall|i: int| 0 <= i < before.len() ==> #[trigger] after[i] == before[i]
    &&& forall|i: int|
        before.len() <= i < after.len() ==> {
            let b = built[i - before.len()];
            &&& (#[trigger] after[i]).0@ == b.0.qualified_id()
            &&& wired(to_wire, b.0, b.1, after[i].1)
        }
}

/// `after` continues `before` with the value of each of those that were built.
pub open spec fn adds_values<V>(
    before: Seq<(String, Arc<V>)>,
    after: Seq<(String, Arc<V>)>,
    built: Seq<Built<V>>,
) -> bool {
    &&& after.len() == before.len() + built.len()
    &&& forall|i: int| 0 <= i < before.len() ==> #[trigger] after[i] == before[i]
    &&& forall|i: int|
        before.len() <= i < after.len() ==> {
            let b = built[i - before.len()];
            &&& (#[trigger] after[i]).0@ == b.0.qualified_id()
            &&& after[i].1 == b.1
        }
}

/// `after` continues `before` with one owner for each of those that were built.
pub open spec fn adds_owners<V>(
    before: Seq<Arc<V>>,
    after: Seq<Arc<V>>,
    built: Seq<Built<V>>,
) -> bool {
    after == before + Seq::new(built.len(), |i: int| built[i].1)
}

/// `after` continues `before` with one cell for each of those that were built.
pub open spec fn adds_cells<V, K, C: Fn(HostId, &Arc<V>) -> K>(
    owner_into_cell: C,
    before: Seq<(String, K)>,
    after: Seq<(String, K)>,
    built: Seq<Built<V>>,
) -> bool {
    &&& after.len() == before.len() + built.len()
    &&& forall|i: int| 0 <= i < before.len() ==> #[trigger] after[i] == before[i]
    &&& forall|i: int|
        before.len() <= i < after.len() ==> {
            let b = built[i - before.len()];
            &&& (#[trigger] after[i]).0@ == b.0.qualified_id()
            &&& celled(owner_into_cell, b.0, b.1, after[i].1)
        }
}

/// `after` is `before` with everything that the parent keeps of those that were built, in order.
pub open spec fn ships<
    V,
    K,
    W: Fn(HostId, &Arc<V>) -> Vec<u8>,
    C: Fn(HostId, &Arc<V>) -> K,
>(
    to_wire: W,
    owner_into_cell: C,
    before: ParentSharedDependencies<V, K>,
    after: ParentSharedDependencies<V, K>,
    built: Seq<Built<V>>,
) -> bool {
    &&& adds_wire_bytes(
        to_wire,
        before.cloneable_wire_bytes@,
        after.cloneable_wire_bytes@,
        of_scope(built, DepScope::Cloneable),
    )
    &&& adds_values(
        before.cloneable_local_values@,
        after.cloneable_local_values@,
        of_scope(built, DepScope::Cloneable),
    )
    &&& adds_wire_bytes(
        to_wire,
        before.hosted_descriptor_bytes@,
        after.hosted_descriptor_bytes@,
        of_scope(built, DepScope::Hosted),
    )
    &&& adds_owners(
        before.hosted_owners@,
        after.hosted_owners@,
        of_scope(built, DepScope::Hosted),
    )
    &&& adds_cells(
        owner_into_cell,
        before.hosted_rpc_owner_cells@,
        after.hosted_rpc_owner_cells@,
        of_scope(built, DepScope::HostedRpc),
    )
}

proof fn lemma_ships_nothing<
    V,
    K,
    W: Fn(HostId, &Arc<V>) -> Vec<u8>,
    C: Fn(HostId, &Arc<V>) -> K,
>(to_wire: W, owner_into_cell: C, out: ParentSharedDependencies<V, K>)
    ensures
        ships(to_wire, owner_into_cell, out, out, Seq::empty()),
{
    reveal(Seq::filter);
    let none = Seq::<Built<V>>::empty();
    assert(of_scope(none, DepScope::Cloneable) =~= none);
    assert(of_scope(none, DepScope::Hosted) =~= none);
    assert(of_scope(none, DepScope::HostedRpc) =~= none);
    assert(adds_owners(out.hosted_owners@, out.hosted_owners@, none));
}

proof fn lemma_ships_more<
    V,
    K,
    W: Fn(HostId, &Arc<V>) -> Vec<u8>,
    C: Fn(HostId, &Arc<V>) -> K,
>(
    to_wire: W,
    owner_into_cell: C,
    a: ParentSharedDependencies<V, K>,
    b: ParentSharedDependencies<V, K>,
    c: ParentSharedDependencies<V, K>,
    first: Seq<Built<V>>,
    second: Seq<Built<V>>,
)
    requires
        ships(to_wire, owner_into_cell, a, b, first),
        ships(to_wire, owner_into_cell, b, c, second),
    ensures
        ships(to_wire, owner_into_cell, a, c, first + second),
{
    assert forall|scope: DepScope| #[trigger] of_scope(first + second, scope) == of_scope(
        first,
        scope,
    ) + of_scope(second, scope) by {
        Seq::filter_distributes_over_add(first, second, |b: Built<V>| b.0.scope == scope);
    }
    let all = of_scope(first + second, DepScope::Hosted);
    let owners = Seq::new(all.len(), |i: int| all[i].1);
    assert(c.hosted_owners@ =~= a.hosted_owners@ + owners);
    assert(adds_owners(a.hosted_owners@, c.hosted_owners@, all));
    let cl = of_scope(first + second, DepScope::Cloneable);
    assert(adds_wire_bytes(to_wire, a.cloneable_wire_bytes@, c.cloneable_wire_bytes@, cl)) by {
        let (x, y, z) = (
            a.cloneable_wire_bytes@,
            b.cloneable_wire_bytes@,
            c.cloneable_wire_bytes@,
        );
        assert forall|i: int| 0 <= i < x.len() implies #[trigger] z[i] == x[i] by {
            assert(y[i] == x[i]);
        }
        assert forall|i: int| x.len() <= i < z.len() implies {
            let e = cl[i - x.len()];
            &&& (#[trigger] z[i]).0@ == e.0.qualified_id()
            &&& wired(to_wire, e.0, e.1, z[i].1)
        } by {
            if i < y.len() {
                assert(z[i] == y[i]);
            }
        }
    }
    assert(adds_values(a.cloneable_local_values@, c.cloneable_local_values@, cl)) by {
        let (x, y, z) = (
            a.cloneable_local_values@,
            b.cloneable_local_values@,
            c.cloneable_local_values@,
        );
        assert forall|i: int| 0 <= i < x.len() implies #[trigger] z[i] == x[i] by {
            assert(y[i] == x[i]);
        }
        assert forall|i: int| x.len() <= i < z.len() implies {
            let e = cl[i - x.len()];
            &&& (#[trigger] z[i]).0@ == e.0.qualified_id()
            &&& z[i].1 == e.1
        } by {
            if i < y.len() {
                assert(z[i] == y[i]);
            }
        }
    }
    assert(adds_wire_bytes(to_wire, a.hosted_descriptor_bytes@, c.hosted_descriptor_bytes@, all))
        by {
        let (x, y, z) = (
            a.hosted_descriptor_bytes@,
            b.hosted_descriptor_bytes@,
            c.hosted_descriptor_bytes@,
        );
        assert forall|i: int| 0 <= i < x.len() implies #[trigger] z[i] == x[i] by {
            assert(y[i] == x[i]);
        }
        assert forall|i: int| x.len() <= i < z.len() implies {
            let e = all[i - x.len()];
            &&& (#[trigger] z[i]).0@ == e.0.qualified_id()
            &&& wired(to_wire, e.0, e.1, z[i].1)
        } by {
            if i < y.len() {
                assert(z[i] == y[i]);
            }
        }
    }
    let rpc = of_scope(first + second, DepScope::HostedRpc);
    assert(adds_cells(
        owner_into_cell,
        a.hosted_rpc_owner_cells@,
        c.hosted_rpc_owner_cells@,
        rpc,
    )) by {
        let (x, y, z) = (
            a.hosted_rpc_owner_cells@,
            b.hosted_rpc_owner_cells@,
            c.hosted_rpc_owner_cells@,
        );
        assert forall|i: int| 0 <= i < x.len() implies #[trigger] z[i] == x[i] by {
            assert(y[i] == x[i]);
        }
        assert forall|i: int| x.len() <= i < z.len() implies {
            let e = rpc[i - x.len()];
            &&& (#[trigger] z[i]).0@ == e.0.qualified_id()
            &&& celled(owner_into_cell, e.0, e.1, z[i].1)
        } by {
            if i < y.len() {
                assert(z[i] == y[i]);
            }
        }
    }
}

/// A dependency of a scope that crosses the process boundary comes with what that takes.
pub open spec fn is_shippable(dep: DependencyModel) -> bool {
    match dep.scope {
        DepScope::Cloneable => dep.cloneable_codec is Some,
        DepScope::Hosted => dep.hosted_codec is Some,
        DepScope::HostedRpc => dep.rpc_factory is Some,
        DepScope::Shared => true,
        DepScope::PerWorker => true,
    }
}

/// What is said of a dependency that lacks what its scope takes.
pub open spec fn unshippable_text(dep: DependencyModel) -> Option<Seq<char>> {
    if is_shippable(dep) {
        None
    } else {
        match dep.scope {
            DepScope::Cloneable => Some(
                "Cloneable dep '"@ + dep.name + "' missing CloneableCodec"@,
            ),
            DepScope::Hosted => Some("Hosted dep '"@ + dep.name + "' missing hosted codec"@),
            _ => Some("HostedRpc dep '"@ + dep.name + "' missing RpcFactory"@),
        }
    }
}

fn missing_part(dep: &RegisteredDependency) -> (r: Option<String>)
    ensures
        text::opt_view(r) == unshippable_text(dep@),
{
    let name = dep.name.as_str();
    match dep.scope {
        DepScope::Cloneable => if dep.cloneable_codec.is_none() {
            Some(concat(concat("Cloneable dep '", name).as_str(), "' missing CloneableCodec"))
        } else {
            None
        },
        DepScope::Hosted => if dep.hosted_codec.is_none() {
            Some(concat(concat("Hosted dep '", name).as_str(), "' missing hosted codec"))
        } else {
            None
        },
        DepScope::HostedRpc => if dep.rpc_factory.is_none() {
            Some(concat(concat("HostedRpc dep '", name).as_str(), "' missing RpcFactory"))
        } else {
            None
        },
        _ => None,
    }
}

/// The encoders and the factories can be run on every value.
pub open spec fn ships_any<
    V,
    K,
    W: Fn(HostId, &Arc<V>) -> Vec<u8>,
    C: Fn(HostId, &Arc<V>) -> K,
>(to_wire: W, owner_into_cell: C) -> bool {
    &&& forall|id: HostId, v: &Arc<V>| #[trigger] to_wire.requires((id, v))
    &&& forall|id: HostId, v: &Arc<V>| #[trigger] owner_into_cell.requires((id, v))
}

impl<V, K> ParentSharedDependencies<V, K> {
    pub open spec fn is_blank(self) -> bool {
        &&& self.cloneable_wire_bytes@.len() == 0
        &&& self.cloneable_local_values@.len() == 0
        &&& self.hosted_descriptor_bytes@.len() == 0
        &&& self.hosted_owners@.len() == 0
        &&& self.hosted_rpc_owner_cells@.len() == 0
    }

    pub fn new() -> (r: Self)
        ensures
            r.is_blank(),
    {
        ParentSharedDependencies {
            cloneable_wire_bytes: Vec::new(),
            cloneable_local_values: Vec::new(),
            hosted_descriptor_bytes: Vec::new(),
            hosted_owners: Vec::new(),
            hosted_rpc_owner_cells: Vec::new(),
        }
    }

    /// Keeps what is needed of one dependency: the bytes and the value of a `Cloneable` one, the
    /// descriptor and the owner of a `Hosted` one, the cell of a `HostedRpc` one. Fails where the
    /// dependency lacks what that takes.
    fn ship<W: Fn(HostId, &Arc<V>) -> Vec<u8>, C: Fn(HostId, &Arc<V>) -> K>(
        &mut self,
        dep: &RegisteredDependency,
        value: &Arc<V>,
        to_wire: &W,
        owner_into_cell: &C,
    ) -> (r: Result<(), String>)
        requires
            ships_any(*to_wire, *owner_into_cell),
        ensures
            match r {
                Ok(_) => is_shippable(dep@) && ships(
                    *to_wire,
                    *owner_into_cell,
                    *old(self),
                    *final(self),
                    seq![(dep@, *value)],
                ),
                Err(message) => unshippable_text(dep@) == Some(message@),
            },
    {
        let ghost before = *self;
        let ghost one = seq![(dep@, *value)];
        proof {
            assert forall|scope: DepScope| #[trigger] of_scope(one, scope) == (if dep@.scope
                == scope {
                one
            } else {
                Seq::empty()
            }) by {
                reveal_with_fuel(Seq::filter, 2);
                assert(one.drop_last() =~= Seq::empty());
                assert(of_scope(one, scope) =~= (if dep@.scope == scope {
                    one
                } else {
                    Seq::empty()
                }));
            }
        }
        if let Some(message) = missing_part(dep) {
            return Err(message);
        }
        match (dep.scope, dep.cloneable_codec, dep.hosted_codec, dep.rpc_factory) {
            (DepScope::Cloneable, Some(codec), _, _) => {
                let bytes = to_wire(codec.to_wire, value);
                assert(wired(*to_wire, dep@, *value, bytes));
                self.cloneable_wire_bytes.push((dep.qualified_id(), bytes));
                self.cloneable_local_values.push((dep.qualified_id(), value.clone()));
            },
            (DepScope::Hosted, _, Some(codec), _) => {
                let bytes = to_wire(codec.to_wire, value);
                assert(wired(*to_wire, dep@, *value, bytes));
                self.hosted_descriptor_bytes.push((dep.qualified_id(), bytes));
                self.hosted_owners.push(value.clone());
            },
            (DepScope::HostedRpc, _, _, Some(factory)) => {
                let cell = owner_into_cell(factory.owner_into_cell, value);
                assert(celled(*owner_into_cell, dep@, *value, cell));
                self.hosted_rpc_owner_cells.push((dep.qualified_id(), cell));
            },
            _ => {},
        }
        proof {
            let hosted = of_scope(one, DepScope::Hosted);
            assert(self.hosted_owners@ =~= before.hosted_owners@ + Seq::new(
                hosted.len(),
                |i: int| hosted[i].1,
            ));
        }
        Ok(())
    }
}

/// How the values of a suite, and of those below it, came about.
#[verifier::reject_recursive_types(V)]
pub struct Collection<V> {
    /// The order in which the constructors ran
    pub order: Seq<usize>,
    /// The values that were visible before and after each of them
    pub steps: Seq<Values<V>>,
    /// The same for the suites below
    pub below: Seq<Collection<V>>,
}

/// The dependencies that were built in the first `k` steps.
pub open spec fn built_in<V>(
    deps: Seq<DependencyModel>,
    order: Seq<usize>,
    steps: Seq<Values<V>>,
    k: nat,
) -> Seq<Built<V>>
    decreases k,
{
    if k == 0 {
        Seq::empty()
    } else {
        let before = built_in(deps, order, steps, (k - 1) as nat);
        let dep = deps[order[k - 1] as int];
        if steps[k - 1].contains_key(dep.name) {
            before
        } else {
            before.push((dep, steps[k as int][dep.name]))
        }
    }
}

/// The dependency at place `k` of the order is built without what its scope takes, and every one
/// that was built before it comes with that.
pub open spec fn is_first_lack(
    deps: Seq<DependencyModel>,
    visible: Set<Seq<char>>,
    order: Seq<usize>,
    k: int,
) -> bool {
    &&& order::is_construction_order(deps, order)
    &&& 0 <= k < order.len()
    &&& !visible.contains(deps[order[k] as int].name)
    &&& !is_shippable(deps[order[k] as int])
    &&& forall|m: int|
        0 <= m < k && !visible.contains(deps[#[trigger] order[m] as int].name) ==> is_shippable(
            deps[order[m] as int],
        )
}

impl<V> SuiteNode<V> {
    /// Everything that was built for this suite and then for those below it.
    pub open spec fn built_by(self, c: Collection<V>) -> Seq<Built<V>>
        decreases self,
    {
        built_in(
            internal::dependency_views(self.dependencies@),
            c.order,
            c.steps,
            c.order.len(),
        ) + Self::built_among(self.inner@, c.below)
    }

    /// Everything that was built for the suites, one after another.
    pub open spec fn built_among(nodes: Seq<SuiteNode<V>>, below: Seq<Collection<V>>) -> Seq<
        Built<V>,
    >
        decreases nodes,
    {
        if nodes.len() == 0 {
            Seq::empty()
        } else {
            Self::built_among(nodes.drop_last(), below.drop_last()) + nodes.last().built_by(
                below.last(),
            )
        }
    }

    /// `c` is a way in which the values of this suite and those below it come about where the
    /// enclosing suites have the values `parent`. A name that has a value, here or in an
    /// enclosing suite, is not constructed again.
    pub open spec fn collects<F: Fn(&RegisteredDependency, &DependencyMap<V>) -> Arc<V>>(
        self,
        construct: F,
        parent: Values<V>,
        c: Collection<V>,
    ) -> bool
        decreases self,
    {
        let deps = internal::dependency_views(self.dependencies@);
        &&& order::is_construction_order(deps, c.order)
        &&& materialize::is_construction(construct, deps, c.order, Map::empty(), c.steps)
        &&& c.steps[0] == parent
        &&& c.below.len() == self.inner@.len()
        &&& forall|j: int|
            0 <= j < self.inner@.len() ==> (#[trigger] self.inner@[j]).collects(
                construct,
                c.steps.last(),
                c.below[j],
            )
    }

    /// The names that have a value below this suite, where the enclosing suites have values for
    /// these.
    pub open spec fn names_below(self, visible: Set<Seq<char>>) -> Set<Seq<char>> {
        let deps = internal::dependency_views(self.dependencies@);
        Set::new(
            |n: Seq<char>|
                visible.contains(n) || exists|i: int| #[trigger]
                    order::is_ordered(deps, i) && deps[i].name == n,
        )
    }

    /// Every dependency that is built, here and below, comes with what its scope takes. Those are
    /// not built whose name has a value in an enclosing suite.
    pub open spec fn all_shippable(self, visible: Set<Seq<char>>) -> bool
        decreases self,
    {
        let deps = internal::dependency_views(self.dependencies@);
        &&& forall|i: int| #[trigger]
            order::is_ordered(deps, i) && !visible.contains(deps[i].name) ==> is_shippable(deps[i])
        &&& forall|j: int|
            0 <= j < self.inner@.len() ==> (#[trigger] self.inner@[j]).all_shippable(
                self.names_below(visible),
            )
    }

    /// `message` is what is said of a dependency that is built without what its scope takes, and
    /// before which none was built of which that holds: of this suite, or of the first suite below
    /// that has one.
    pub open spec fn is_lack(self, visible: Set<Seq<char>>, message: Seq<char>) -> bool
        decreases self,
    {
        let deps = internal::dependency_views(self.dependencies@);
        let below = self.names_below(visible);
        ||| exists|order: Seq<usize>, k: int| #[trigger]
            is_first_lack(deps, visible, order, k) && unshippable_text(deps[order[k] as int])
                == Some(message)
        ||| {
            &&& forall|i: int| #[trigger]
                order::is_ordered(deps, i) && !visible.contains(deps[i].name) ==> is_shippable(
                    deps[i],
                )
            &&& exists|j: int|
                0 <= j < self.inner@.len() && (#[trigger] self.inner@[j]).is_lack(below, message)
                    && forall|i: int|
                    0 <= i < j ==> (#[trigger] self.inner@[i]).all_shippable(below)
        }
    }

    /// Something is lacking only where not everything that is built comes with what it takes.
    pub proof fn lack_is_not_shippable(self, visible: Set<Seq<char>>, message: Seq<char>)
        requires
            self.is_lack(visible, message),
        ensures
            !self.all_shippable(visible),
        decreases self,
    {
        let deps = internal::dependency_views(self.dependencies@);
        let below = self.names_below(visible);
        if exists|order: Seq<usize>, k: int| #[trigger]
            is_first_lack(deps, visible, order, k) && unshippable_text(deps[order[k] as int])
                == Some(message) {
            let (order, k) = choose|order: Seq<usize>, k: int| #[trigger]
                is_first_lack(deps, visible, order, k) && unshippable_text(deps[order[k] as int])
                    == Some(message);
            let i = order[k] as int;
            assert(order::is_first(deps, order[k] as int));
            order::orders_hold_the_same(deps, order, i);
            assert(order::is_ordered(deps, i));
        } else {
            let j = choose|j: int|
                0 <= j < self.inner@.len() && (#[trigger] self.inner@[j]).is_lack(below, message)
                    && forall|i: int|
                    0 <= i < j ==> (#[trigger] self.inner@[i]).all_shippable(below);
            self.inner@[j].lack_is_not_shippable(below, message);
            assert(!self.inner@[j].all_shippable(below));
        }
    }

    /// Constructs the values of this suite and of those below it, each in the order of its
    /// dependencies, and adds to `out` what the parent keeps of them. Fails at the first one that was
    /// built without what its scope takes.
    pub fn collect_parent_shared_dependencies_into_sync<
        K,
        F: Fn(&RegisteredDependency, &DependencyMap<V>) -> Arc<V>,
        W: Fn(HostId, &Arc<V>) -> Vec<u8>,
        C: Fn(HostId, &Arc<V>) -> K,
    >(
        &self,
        parent_map: &DependencyMap<V>,
        out: &mut ParentSharedDependencies<V, K>,
        construct: &F,
        to_wire: &W,
        owner_into_cell: &C,
    ) -> (r: Result<(), String>)
        requires
            parent_map.wf(),
            materialize::constructs_any(*construct),
            ships_any(*to_wire, *owner_into_cell),
        ensures
            match r {
                Ok(_) => {
                    &&& self.all_shippable(parent_map@.dom())
                    &&& exists|c: Collection<V>| #[trigger]
                        self.collects(*construct, parent_map@, c) && ships(
                            *to_wire,
                            *owner_into_cell,
                            *old(out),
                            *final(out),
                            self.built_by(c),
                        )
                },
                Err(message) => self.is_lack(parent_map@.dom(), message@),
            },
        decreases self,
    {
        let ghost blank = *out;
        let ghost deps = internal::dependency_views(self.dependencies@);
        let ghost parent = parent_map@;
        let mut dependency_map = parent_map.duplicate();
        let order = sorted_dependencies(&self.dependencies);
        let ghost mut steps = seq![parent];
        let mut k: usize = 0;
        proof {
            assert(materialize::is_construction(
                *construct,
                deps,
                order@.take(0),
                Map::empty(),
                steps,
            ));
            lemma_ships_nothing(*to_wire, *owner_into_cell, *out);
        }
        while k < order.len()
            invariant
                k <= order.len(),
                parent == parent_map@,
                deps == internal::dependency_views(self.dependencies@),
                order::is_construction_order(deps, order@),
                forall|m: int|
                    0 <= m < k && !parent.contains_key(deps[#[trigger] order@[m] as int].name)
                        ==> is_shippable(deps[order@[m] as int]),
                forall|n: Seq<char>|
                    #[trigger] dependency_map@.contains_key(n) <==> parent.contains_key(n)
                        || exists|m: int|
                        0 <= m < k && deps[#[trigger] order@[m] as int].name == n,
                materialize::constructs_any(*construct),
                ships_any(*to_wire, *owner_into_cell),
                dependency_map.wf(),
                materialize::is_construction(
                    *construct,
                    deps,
                    order@.take(k as int),
                    Map::empty(),
                    steps,
                ),
                steps[0] == parent,
                steps.last() == dependency_map@,
                ships(
                    *to_wire,
                    *owner_into_cell,
                    blank,
                    *out,
                    built_in(deps, order@, steps, k as nat),
                ),
            decreases order.len() - k,
        {
            let ghost so_far = steps;
            let ghost visible = dependency_map@;
            let ghost out_before = *out;
            let ghost built_before = built_in(deps, order@, steps, k as nat);
            assert(order::is_first(deps, order@[k as int] as int));
            let dep = &self.dependencies[order[k]];
            assert(deps[order@[k as int] as int] == dep@);
            if !dependency_map.contains_key(dep.name.as_str()) {
                let value = construct(dep, &dependency_map);
                assert(Map::<Seq<char>, Arc<V>>::empty().union_prefer_right(visible) =~= visible);
                assert(materialize::constructed(
                    *construct,
                    dep@,
                    Map::empty().union_prefer_right(visible),
                    value,
                ));
                if let Err(message) = out.ship(dep, &value, to_wire, owner_into_cell) {
                    assert(is_first_lack(deps, parent.dom(), order@, k as int));
                    return Err(message);
                }
                dependency_map.insert(dep.name.clone(), value.clone());
                proof {
                    steps = steps.push(dependency_map@);
                    lemma_ships_more(
                        *to_wire,
                        *owner_into_cell,
                        blank,
                        out_before,
                        *out,
                        built_before,
                        seq![(dep@, value)],
                    );
                    lemma_built_in_prefix(deps, order@, so_far, steps, k as nat);
                    assert(built_before + seq![(dep@, value)] =~= built_in(
                        deps,
                        order@,
                        steps,
                        (k + 1) as nat,
                    ));
                }
            } else {
                proof {
                    steps = steps.push(dependency_map@);
                    lemma_built_in_prefix(deps, order@, so_far, steps, k as nat);
                }
            }
            proof {
                Self::lemma_next_name(deps, order@, k as int, visible, dependency_map@, parent);
                assert(materialize::constructs_next(
                    *construct,
                    dep@,
                    Map::empty(),
                    visible,
                    dependency_map@,
                ));
                assert forall|i: int| 0 <= i < k + 1 implies materialize::constructs_next(
                    *construct,
                    deps[#[trigger] order@.take(k + 1)[i] as int],
                    Map::empty(),
                    steps[i],
                    steps[i + 1],
                ) by {
                    if i < k {
                        assert(order@.take(k as int)[i] == order@.take(k + 1)[i]);
                        assert(steps[i] == so_far[i] && steps[i + 1] == so_far[i + 1]);
                    }
                }
            }
            k = k + 1;
        }
        assert(order@.take(k as int) =~= order@);
        let ghost names = self.names_below(parent.dom());
        proof {
            self.lemma_all_ordered(deps, order@, parent, dependency_map@);
        }
        let ghost own = built_in(deps, order@, steps, order@.len());
        let ghost mut below: Seq<Collection<V>> = Seq::empty();
        let mut j: usize = 0;
        assert(own + Self::built_among(self.inner@.take(0), below) =~= own);
        while j < self.inner.len()
            invariant
                j <= self.inner.len(),
                parent == parent_map@,
                deps == internal::dependency_views(self.dependencies@),
                names == self.names_below(parent.dom()),
                names == dependency_map@.dom(),
                forall|i: int| #[trigger]
                    order::is_ordered(deps, i) && !parent.dom().contains(deps[i].name)
                        ==> is_shippable(deps[i]),
                forall|i: int| 0 <= i < j ==> (#[trigger] self.inner@[i]).all_shippable(names),
                materialize::constructs_any(*construct),
                ships_any(*to_wire, *owner_into_cell),
                dependency_map.wf(),
                steps.last() == dependency_map@,
                below.len() == j,
                forall|i: int|
                    0 <= i < j ==> (#[trigger] self.inner@[i]).collects(
                        *construct,
                        steps.last(),
                        below[i],
                    ),
                ships(
                    *to_wire,
                    *owner_into_cell,
                    blank,
                    *out,
                    own + Self::built_among(self.inner@.take(j as int), below),
                ),
            decreases self.inner.len() - j,
        {
            let ghost out_before = *out;
            let shipped = self.inner[j].collect_parent_shared_dependencies_into_sync(
                &dependency_map,
                out,
                construct,
                to_wire,
                owner_into_cell,
            );
            if let Err(message) = shipped {
                assert(self.inner@[j as int].is_lack(names, message@));
                return Err(message);
            }
            proof {
                let node = self.inner@[j as int];
                let c = choose|c: Collection<V>| #[trigger]
                    node.collects(*construct, dependency_map@, c) && ships(
                        *to_wire,
                        *owner_into_cell,
                        out_before,
                        *out,
                        node.built_by(c),
                    );
                let head = Self::built_among(self.inner@.take(j as int), below);
                lemma_ships_more(
                    *to_wire,
                    *owner_into_cell,
                    blank,
                    out_before,
                    *out,
                    own + head,
                    node.built_by(c),
                );
                let longer = below.push(c);
                assert(self.inner@.take(j + 1).drop_last() =~= self.inner@.take(j as int));
                assert(longer.drop_last() =~= below);
                assert((own + head) + node.built_by(c) =~= own + Self::built_among(
                    self.inner@.take(j + 1),
                    longer,
                ));
                below = longer;
            }
            j = j + 1;
        }
        proof {
            assert(self.inner@.take(j as int) =~= self.inner@);
            let c = Collection { order: order@, steps, below };
            assert(self.collects(*construct, parent, c));
            assert(self.built_by(c) == own + Self::built_among(self.inner@, below));
        }
        Ok(())
    }

    proof fn lemma_next_name(
        deps: Seq<DependencyModel>,
        order: Seq<usize>,
        k: int,
        before: Values<V>,
        after: Values<V>,
        parent: Values<V>,
    )
        requires
            0 <= k < order.len(),
            forall|n: Seq<char>|
                #[trigger] before.contains_key(n) <==> parent.contains_key(n) || exists|m: int|
                    0 <= m < k && deps[#[trigger] order[m] as int].name == n,
            forall|n: Seq<char>|
                #[trigger] after.contains_key(n) <==> before.contains_key(n) || n
                    == deps[order[k] as int].name,
        ensures
            forall|n: Seq<char>|
                #[trigger] after.contains_key(n) <==> parent.contains_key(n) || exists|m: int|
                    0 <= m < k + 1 && deps[#[trigger] order[m] as int].name == n,
    {
        assert forall|n: Seq<char>| #[trigger] after.contains_key(n) <==> parent.contains_key(n)
            || exists|m: int| 0 <= m < k + 1 && deps[#[trigger] order[m] as int].name == n by {
            if before.contains_key(n) && !parent.contains_key(n) {
                let m = choose|m: int| 0 <= m < k && deps[#[trigger] order[m] as int].name == n;
                assert(deps[order[m] as int].name == n);
            }
            if n == deps[order[k] as int].name {
                assert(deps[order[k] as int].name == n);
            }
        }
    }

    proof fn lemma_all_ordered(
        self,
        deps: Seq<DependencyModel>,
        order: Seq<usize>,
        parent: Values<V>,
        values: Values<V>,
    )
        requires
            deps == internal::dependency_views(self.dependencies@),
            order::is_construction_order(deps, order),
            forall|m: int|
                0 <= m < order.len() && !parent.contains_key(
                    deps[#[trigger] order[m] as int].name,
                ) ==> is_shippable(deps[order[m] as int]),
            forall|n: Seq<char>|
                #[trigger] values.contains_key(n) <==> parent.contains_key(n) || exists|m: int|
                    0 <= m < order.len() && deps[#[trigger] order[m] as int].name == n,
        ensures
            self.names_below(parent.dom()) == values.dom(),
            forall|i: int| #[trigger]
                order::is_ordered(deps, i) && !parent.dom().contains(deps[i].name)
                    ==> is_shippable(deps[i]),
    {
        assert(self.dependencies.len() <= usize::MAX);
        assert forall|i: int| #[trigger] order::is_ordered(deps, i) implies exists|m: int|
            0 <= m < order.len() && #[trigger] order[m] == i by {
            order::orders_hold_the_same(deps, order, i);
            let m = order.index_of(i as usize);
            assert(order[m] == i as usize);
        }
        assert forall|i: int| #[trigger]
            order::is_ordered(deps, i) && !parent.dom().contains(deps[i].name) implies is_shippable(
            deps[i],
        ) by {
            let m = choose|m: int| 0 <= m < order.len() && #[trigger] order[m] == i;
            assert(deps[order[m] as int] == deps[i]);
        }
        let names = self.names_below(parent.dom());
        assert forall|n: Seq<char>| names.contains(n) <==> values.contains_key(n) by {
            if names.contains(n) && !parent.contains_key(n) {
                let i = choose|i: int| #[trigger]
                    order::is_ordered(deps, i) && deps[i].name == n;
                let m = choose|m: int| 0 <= m < order.len() && #[trigger] order[m] == i;
                assert(deps[order[m] as int].name == n);
            }
            if values.contains_key(n) && !parent.contains_key(n) {
                let m = choose|m: int|
                    0 <= m < order.len() && deps[#[trigger] order[m] as int].name == n;
                let i = order[m] as int;
                assert(order::is_first(deps, order[m] as int));
                order::orders_hold_the_same(deps, order, i);
                assert(order::is_ordered(deps, i));
            }
        }
        assert(names =~= values.dom());
    }
}

proof fn lemma_built_in_prefix<V>(
    deps: Seq<DependencyModel>,
    order: Seq<usize>,
    a: Seq<Values<V>>,
    b: Seq<Values<V>>,
    k: nat,
)
    requires
        k < a.len() <= b.len(),
        forall|i: int| 0 <= i < a.len() ==> a[i] == b[i],
    ensures
        built_in(deps, order, a, k) == built_in(deps, order, b, k),
    decreases k,
{
    if k > 0 {
        lemma_built_in_prefix(deps, order, a, b, (k - 1) as nat);
        assert(a[k - 1] == b[k - 1]);
        assert(a[k as int] == b[k as int]);
    }
}

} // verus!
