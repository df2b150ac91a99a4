//! Constructing the values of the dependencies of a suite.
use super::node::SuiteNode;
use super::order;
use super::order::sorted_dependencies;
use super::values::DependencyMap;
use crate::internal;
use crate::internal::{DependencyModel, RegisteredDependency};
use std::sync::Arc;
use vstd::prelude::*;

verus! {

/// The values of dependencies by name.
pub type Values<V> = Map<Seq<char>, Arc<V>>;

/// The constructor can be run for every dependency, whatever it sees of the others.
pub open spec fn constructs_any<V, F: Fn(&RegisteredDependency, &DependencyMap<V>) -> Arc<V>>(
    construct: F,
) -> bool {
    forall|d: &RegisteredDependency, m: &DependencyMap<V>|
        m.wf() ==> #[trigger] construct.requires((d, m))
}

/// `value` is what the constructor of `dep` may return where it sees these values.
pub open spec fn constructed<V, F: Fn(&RegisteredDependency, &DependencyMap<V>) -> Arc<V>>(
    construct: F,
    dep: DependencyModel,
    visible: Values<V>,
    value: Arc<V>,
) -> bool {
    exists|d: RegisteredDependency, m: DependencyMap<V>|
        d@ == dep && m.wf() && m@ == visible && #[trigger] construct.ensures((&d, &m), value)
}

/// One step: a name that has a value keeps it, any other one is constructed.
pub open spec fn constructs_next<V, F: Fn(&RegisteredDependency, &DependencyMap<V>) -> Arc<V>>(
    construct: F,
    dep: DependencyModel,
    parent: Values<V>,
    before: Values<V>,
    after: Values<V>,
) -> bool {
    if before.contains_key(dep.name) {
        after == before
    } else {
        exists|value: Arc<V>|
            #[trigger] constructed(
                construct,
                dep,
                parent.union_prefer_right(before),
                value,
            ) && after == before.insert(dep.name, value)
    }
}

/// The values after each step of running the constructors in this order; each sees the values of
/// the enclosing suites and those that are there already.
pub open spec fn is_construction<V, F: Fn(&RegisteredDependency, &DependencyMap<V>) -> Arc<V>>(
    construct: F,
    deps: Seq<DependencyModel>,
    order: Seq<usize>,
    parent: Values<V>,
    steps: Seq<Values<V>>,
) -> bool {
    &&& steps.len() == order.len() + 1
    &&& forall|i: int|
        0 <= i < order.len() ==> constructs_next(
            construct,
            deps[#[trigger] order[i] as int],
            parent,
            steps[i],
            steps[i + 1],
        )
}

/// Running the constructors in this order leads from `before` to `after`.
pub open spec fn constructs_all<V, F: Fn(&RegisteredDependency, &DependencyMap<V>) -> Arc<V>>(
    construct: F,
    deps: Seq<DependencyModel>,
    order: Seq<usize>,
    parent: Values<V>,
    before: Values<V>,
    after: Values<V>,
) -> bool {
    exists|steps: Seq<Values<V>>|
        #[trigger] is_construction(construct, deps, order, parent, steps) && steps[0] == before
            && steps.last() == after
}

pub proof fn lemma_construction<V, F: Fn(&RegisteredDependency, &DependencyMap<V>) -> Arc<V>>(
    construct: F,
    deps: Seq<DependencyModel>,
    order: Seq<usize>,
    parent: Values<V>,
    steps: Seq<Values<V>>,
    k: int,
)
    requires
        is_construction(construct, deps, order, parent, steps),
        0 <= k <= order.len(),
    ensures
        steps[0].submap_of(steps[k]),
        forall|i: int|
            0 <= i < k ==> steps[k].contains_key(deps[#[trigger] order[i] as int].name),
        forall|n: Seq<char>|
            steps[k].contains_key(n) ==> steps[0].contains_key(n) || exists|i: int|
                0 <= i < k && deps[#[trigger] order[i] as int].name == n,
    decreases k,
{
    if k > 0 {
        lemma_construction(construct, deps, order, parent, steps, k - 1);
        assert(constructs_next(
            construct,
            deps[order[k - 1] as int],
            parent,
            steps[k - 1],
            steps[k - 1 + 1],
        ));
        assert forall|n: Seq<char>| steps[k].contains_key(n) implies steps[0].contains_key(n)
            || exists|i: int| 0 <= i < k && deps[#[trigger] order[i] as int].name == n by {
            if steps[k - 1].contains_key(n) && !steps[0].contains_key(n) {
                let i = choose|i: int|
                    0 <= i < k - 1 && deps[#[trigger] order[i] as int].name == n;
                assert(deps[order[i] as int].name == n);
            } else if !steps[k - 1].contains_key(n) {
                assert(deps[order[k - 1] as int].name == n);
            }
        }
    }
}

/// Constructors are run for names without a value only: values that are there stay, and in the
/// end every name of the order has one and no other name got one.
pub proof fn constructing_keeps_values<
    V,
    F: Fn(&RegisteredDependency, &DependencyMap<V>) -> Arc<V>,
>(
    construct: F,
    deps: Seq<DependencyModel>,
    order: Seq<usize>,
    parent: Values<V>,
    before: Values<V>,
    after: Values<V>,
)
    requires
        constructs_all(construct, deps, order, parent, before, after),
    ensures
        before.submap_of(after),
        forall|i: int|
            0 <= i < order.len() ==> after.contains_key(deps[#[trigger] order[i] as int].name),
        forall|n: Seq<char>|
            after.contains_key(n) ==> before.contains_key(n) || exists|i: int|
                0 <= i < order.len() && deps[#[trigger] order[i] as int].name == n,
{
    let steps = choose|steps: Seq<Values<V>>|
        #[trigger] is_construction(construct, deps, order, parent, steps) && steps[0] == before
            && steps.last() == after;
    lemma_construction(construct, deps, order, parent, steps, order.len() as int);
}

impl<V> SuiteNode<V> {
    /// No constructor is left to run for this suite.
    pub open spec fn complete_with(self, values: Values<V>) -> bool {
        self.skip_creating_dependencies || values.dom().len() == self.dependencies@.len()
    }

    /// `values` are the values of this suite once it was visited below `parent`.
    pub open spec fn materialized_as<
        F: Fn(&RegisteredDependency, &DependencyMap<V>) -> Arc<V>,
    >(self, construct: F, parent: Values<V>, values: Values<V>) -> bool {
        let deps = internal::dependency_views(self.dependencies@);
        if self.complete_with(self.materialized_dependencies@) {
            values == self.materialized_dependencies@
        } else {
            exists|order: Seq<usize>|
                order::is_construction_order(deps, order) && #[trigger] constructs_all(
                    construct,
                    deps,
                    order,
                    parent,
                    self.materialized_dependencies@,
                    values,
                )
        }
    }

    pub fn is_materialized(&self) -> (r: bool)
        requires
            self.materialized_dependencies.wf(),
        ensures
            r == self.complete_with(self.materialized_dependencies@),
    {
        self.skip_creating_dependencies || self.materialized_dependencies.len()
            == self.dependencies.len()
    }

    /// The values that the tests of this suite see: its own ones, and those of the enclosing
    /// suites under other names.
    pub fn create_dependency_map(&self, parent_map: &DependencyMap<V>) -> (r: DependencyMap<V>)
        requires
            self.materialized_dependencies.wf(),
            parent_map.wf(),
        ensures
            r.wf(),
            r@ == parent_map@.union_prefer_right(self.materialized_dependencies@),
    {
        let mut r = parent_map.duplicate();
        r.extend(&self.materialized_dependencies);
        r
    }

    /// Runs the constructors of the dependencies that have no value yet, and returns the values
    /// that the tests of this suite see.
    pub fn materialize_deps_sync<
        F: Fn(&RegisteredDependency, &DependencyMap<V>) -> Arc<V>,
    >(&mut self, parent_map: &DependencyMap<V>, construct: &F) -> (r: DependencyMap<V>)
        requires
            old(self).materialized_dependencies.wf(),
            parent_map.wf(),
            constructs_any(*construct),
        ensures
            final(self).materialized_dependencies.wf(),
            *final(self) == (SuiteNode {
                materialized_dependencies: final(self).materialized_dependencies,
                ..*old(self)
            }),
            exists|order: Seq<usize>|
                order::is_construction_order(
                    internal::dependency_views(old(self).dependencies@),
                    order,
                ) && #[trigger] constructs_all(
                    *construct,
                    internal::dependency_views(old(self).dependencies@),
                    order,
                    parent_map@,
                    old(self).materialized_dependencies@,
                    final(self).materialized_dependencies@,
                ),
            r.wf(),
            r@ == parent_map@.union_prefer_right(final(self).materialized_dependencies@),
    {
        let ghost before = self.materialized_dependencies@;
        let ghost views = internal::dependency_views(self.dependencies@);
        let mut deps = self.materialized_dependencies.duplicate();
        let mut dependency_map = self.create_dependency_map(parent_map);
        let order = sorted_dependencies(&self.dependencies);
        let mut k: usize = 0;
        let ghost mut steps = seq![before];
        assert(is_construction(*construct, views, order@.take(0), parent_map@, steps));
        while k < order.len()
            invariant
                k <= order.len(),
                *self == *old(self),
                views == internal::dependency_views(self.dependencies@),
                order::is_construction_order(views, order@),
                constructs_any(*construct),
                deps.wf(),
                dependency_map.wf(),
                dependency_map@ == parent_map@.union_prefer_right(deps@),
                is_construction(*construct, views, order@.take(k as int), parent_map@, steps),
                steps[0] == before,
                steps.last() == deps@,
            decreases order.len() - k,
        {
            let ghost mid = deps@;
            assert(order::is_first(views, order@[k as int] as int));
            let dep = &self.dependencies[order[k]];
            assert(views[order@[k as int] as int] == dep@);
            if !deps.contains_key(dep.name.as_str()) {
                let value = construct(dep, &dependency_map);
                assert(constructed(*construct, dep@, parent_map@.union_prefer_right(mid), value));
                deps.insert(dep.name.clone(), value.clone());
                dependency_map.insert(dep.name.clone(), value);
                assert(dependency_map@ =~= parent_map@.union_prefer_right(deps@));
            }
            proof {
                let so_far = steps;
                steps = steps.push(deps@);
                assert(constructs_next(*construct, dep@, parent_map@, mid, deps@));
                assert forall|i: int| 0 <= i < k + 1 implies constructs_next(
                    *construct,
                    views[#[trigger] order@.take(k + 1)[i] as int],
                    parent_map@,
                    steps[i],
                    steps[i + 1],
                ) by {
                    if i < k {
                        assert(order@.take(k as int)[i] == order@.take(k + 1)[i]);
                        assert(steps[i] == so_far[i] && steps[i + 1] == so_far[i + 1]);
                    }
                }
            }
            k = k + 1;
        }
        assert(order@.take(k as int) =~= order@);
        assert(constructs_all(*construct, views, order@, parent_map@, before, deps@));
        self.materialized_dependencies = deps;
        dependency_map
    }
}

} // verus!
