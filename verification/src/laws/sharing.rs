//! What the parent keeps of dependencies for its workers.
use super::planning::{lemma_stands_in, stands_in};
use super::words::{is_clear, lemma_clear};
use crate::args::Arguments;
use crate::execution::collect;
use crate::execution::collect::{Built, Collection, ParentSharedDependencies};
use crate::execution::materialize;
use crate::execution::materialize::Values;
use crate::execution::node::SuiteNode;
use crate::execution::order;
use crate::execution::path;
use crate::execution::plan;
use crate::execution::prune;
use crate::execution::suite::TestSuiteExecution;
use crate::execution::values::DependencyMap;
use crate::internal;
use crate::internal::{
    DepScope, DependencyModel, HostId, RegisteredDependency, RegisteredTest,
    RegisteredTestSuiteProperty, TestModel,
};
use crate::sync::runner;
use crate::sync::runner::Prepared;
use crate::table;
use std::sync::Arc;
use vstd::prelude::*;

verus! {

/// One of the dependencies has the name.
pub open spec fn has_name(deps: Seq<DependencyModel>, name: Seq<char>) -> bool {
    exists|i: int| 0 <= i < deps.len() && (#[trigger] deps[i]).name == name
}

/// One of the tests says that it uses the name.
pub open spec fn is_asked(tests: Seq<TestModel>, name: Seq<char>) -> bool {
    exists|i: int|
        0 <= i < tests.len() && (#[trigger] tests[i]).dependencies is Some
            && tests[i].dependencies->0.contains(name)
}

proof fn lemma_encloses_both(a: Seq<char>, b: Seq<char>, c: Seq<char>)
    requires
        path::encloses(a, b),
        path::encloses(b, c),
    ensures
        path::encloses(a, c),
{
    if a.len() > 0 && a != b && b != c {
        let pre = a + internal::colons();
        let n = pre.len() as int;
        let whole = b + internal::colons();
        assert(b.subrange(0, 0 + n) == pre);
        assert(c.subrange(0, 0 + whole.len() as int) == whole);
        assert forall|i: int| 0 <= i < n implies c[i] == pre[i] by {
            assert(c.subrange(0, whole.len() as int)[i] == whole[i]);
            assert(b.subrange(0, n)[i] == pre[i]);
        }
        assert(c.subrange(0, 0 + n) =~= pre);
    }
}

impl<V> SuiteNode<V> {
    /// What stands in a suite on the way to a path is found in the suite below that leads there.
    proof fn lemma_on_the_way(self, q: Seq<char>, r: Seq<char>)
        requires
            self.wf(),
            self.crate_and_module@ != q,
            Self::route(self.inner@, q) < self.inner@.len(),
            path::encloses(r, q),
        ensures
            ({
                let child = self.inner@[Self::route(self.inner@, q)];
                &&& path::encloses(child.crate_and_module@, r) ==> self.node_at(r)
                    == child.node_at(r)
                &&& !path::encloses(child.crate_and_module@, r) ==> child.node_at(r) is None
            }),
    {
        Self::lemma_route(self.inner@, q);
        let k = Self::route(self.inner@, q);
        let child = self.inner@[k];
        assert(child.wf());
        if path::encloses(child.crate_and_module@, r) {
            assert forall|j: int| 0 <= j < k implies !path::encloses(
                (#[trigger] self.inner@[j]).crate_and_module@,
                r,
            ) by {
                if path::encloses(self.inner@[j].crate_and_module@, r) {
                    lemma_encloses_both(self.inner@[j].crate_and_module@, r, q);
                }
            }
            Self::lemma_route_is(self.inner@, r, k);
            Self::lemma_route(self.inner@, r);
            if self.crate_and_module@ == r {
                path::lemma_encloses_shorter(child.crate_and_module@, r);
            }
        } else {
            child.lemma_not_inside(r);
        }
    }

    pub proof fn lemma_not_inside(self, r: Seq<char>)
        requires
            self.wf(),
            !path::encloses(self.crate_and_module@, r),
        ensures
            self.node_at(r) is None,
        decreases self,
    {
        Self::lemma_route(self.inner@, r);
        let k = Self::route(self.inner@, r);
        if k < self.inner@.len() {
            let child = self.inner@[k];
            assert(child.wf());
            lemma_encloses_both(self.crate_and_module@, child.crate_and_module@, r);
        }
    }

    /// What a test asks for is asked for in every suite around it, as far as no suite in between has
    /// a dependency of the name.
    pub proof fn lemma_asked(self, q: Seq<char>, name: Seq<char>)
        requires
            self.wf(),
            path::encloses(self.crate_and_module@, q),
            is_asked(self.contents_at(q).tests, name),
            forall|r: Seq<char>| #[trigger]
                path::encloses(r, q) && r != self.crate_and_module@ ==> !has_name(
                    self.contents_at(r).dependencies,
                    name,
                ),
        ensures
            self.asked_for() matches Some(direct) ==> direct.contains(name),
        decreases self,
    {
        let tests = internal::test_views(self.tests@);
        if self.crate_and_module@ == q {
            let i = choose|i: int|
                0 <= i < tests.len() && (#[trigger] tests[i]).dependencies is Some
                    && tests[i].dependencies->0.contains(name);
            assert(tests[i].dependencies->0.contains(name));
        } else {
            Self::lemma_route(self.inner@, q);
            let k = Self::route(self.inner@, q);
            let child = self.inner@[k];
            assert(child.wf());
            let here = child.crate_and_module@;
            lemma_self_encloses(q);
            self.lemma_on_the_way(q, q);
            assert forall|r: Seq<char>| #[trigger]
                path::encloses(r, q) && r != here implies !has_name(
                child.contents_at(r).dependencies,
                name,
            ) by {
                self.lemma_on_the_way(q, r);
                if path::encloses(here, r) && r == self.crate_and_module@ {
                    path::lemma_encloses_shorter(here, r);
                }
            }
            child.lemma_asked(q, name);
            self.lemma_on_the_way(q, here);
            lemma_self_encloses(here);
            assert(self.contents_at(here) == child.contents());
            let deps = internal::dependency_views(child.dependencies@);
            assert(!has_name(deps, name));
            order::lemma_first_named(deps, name);
            if self.asked_for() is Some {
                assert(child.needs() is Some);
                assert(!prune::is_local(deps, name)) by {
                    if prune::is_local(deps, name) {
                        let i = order::first_named(deps, name);
                        assert(deps[i].name == name);
                    }
                }
                assert(child.needs()->0.contains(name));
            }
        }
    }

    /// The dependency is built for the suite at its path, if the test asks for it and nothing stands
    /// in the way.
    proof fn lemma_built<F: Fn(&RegisteredDependency, &DependencyMap<V>) -> Arc<V>>(
        self,
        other: SuiteNode<V>,
        construct: F,
        parent: Values<V>,
        c: Collection<V>,
        p: Seq<char>,
        q: Seq<char>,
        dep: DependencyModel,
    ) -> (value: Arc<V>)
        requires
            self.wf(),
            self.pruned_to(other),
            other.collects(construct, parent, c),
            !parent.contains_key(dep.name),
            dep.dependencies.len() == 0,
            path::encloses(self.crate_and_module@, p),
            path::encloses(p, q),
            path::is_unambiguous(q),
            self.contents_at(p).dependencies.contains(dep),
            is_asked(self.contents_at(q).tests, dep.name),
            forall|r: Seq<char>| #[trigger]
                path::encloses(r, q) && r != p ==> !has_name(
                    self.contents_at(r).dependencies,
                    dep.name,
                ),
            forall|i: int, j: int|
                0 <= i < j < self.contents_at(p).dependencies.len() && (
                #[trigger] self.contents_at(p).dependencies[i]).name == dep.name ==> (
                #[trigger] self.contents_at(p).dependencies[j]).name != dep.name,
        ensures
            other.built_by(c).contains((dep, value)),
            exists|visible: Values<V>| #[trigger]
                materialize::constructed(construct, dep, visible, value),
        decreases self,
    {
        let here = self.crate_and_module@;
        let deps = internal::dependency_views(self.dependencies@);
        let kept = internal::dependency_views(other.dependencies@);
        let own = collect::built_in(kept, c.order, c.steps, c.order.len());
        let all = other.built_by(c);
        materialize::lemma_construction(
            construct,
            kept,
            c.order,
            Map::empty(),
            c.steps,
            c.order.len() as int,
        );
        if here == p {
            self.lemma_asked(q, dep.name);
            let x = deps.index_of(dep);
            let keep = |d: DependencyModel|
                prune::is_kept(deps, self.asked_for()->0, d.name);
            order::lemma_first_named(deps, dep.name);
            assert(deps[x].name == dep.name);
            if self.asked_for() is Some {
                prune::asked_dependency_is_kept(deps, self.asked_for()->0, dep.name);
                deps.lemma_filter_contains(keep, x);
            }
            assert(kept.contains(dep));
            let y = kept.index_of(dep);
            assert forall|i: int| 0 <= i < kept.len() && (#[trigger] kept[i]).name
                == dep.name implies i == y by {
                if self.asked_for() is Some {
                    lemma_filter_once(deps, keep, dep.name, i, y);
                } else {
                    if i < y {
                        assert(deps[i].name == dep.name && deps[y].name == dep.name);
                    }
                    if y < i {
                        assert(deps[y].name == dep.name && deps[i].name == dep.name);
                    }
                }
            }
            order::lemma_first_named(kept, dep.name);
            assert(kept[y].name == dep.name);
            assert(order::is_first(kept, y));
            assert(other.dependencies.len() <= usize::MAX);
            if !c.order.contains(y as usize) {
                assert(order::is_blocked(kept, c.order, y));
                let a = choose|a: int| #[trigger]
                    order::uses(kept, y, a) && !c.order.contains(a as usize);
                let (i, d) = choose|i: int, d: int| #[trigger] order::uses_at(kept, i, d, y, a);
                order::lemma_first_named(kept, kept[i].name);
                assert(kept[i].name == dep.name);
                assert(false);
            }
            let m = c.order.index_of(y as usize);
            let value = lemma_built_here(construct, kept, c.order, c.steps, m, dep, y);
            let z = own.index_of((dep, value));
            assert(all[z] == (dep, value));
            value
        } else {
            let k = self.lemma_next_on_the_way(p, q, dep.name);
            let child = self.inner@[k];
            lemma_encloses_both(here, p, q);
            assert(child.pruned_to(other.inner@[k]));
            assert(other.inner@[k].collects(construct, c.steps.last(), c.below[k]));
            assert(!c.steps.last().contains_key(dep.name)) by {
                if c.steps.last().contains_key(dep.name) {
                    let i = choose|i: int|
                        0 <= i < c.order.len() && kept[#[trigger] c.order[i] as int].name
                            == dep.name;
                    assert(order::is_first(kept, c.order[i] as int));
                    let found = kept[c.order[i] as int];
                    assert(kept.contains(found));
                    self.lemma_kept_is_there(other, found);
                    assert(self.contents_at(here) == self.contents());
                    let x = deps.index_of(found);
                    assert(deps[x].name == dep.name);
                    assert(path::encloses(here, q));
                    assert(has_name(self.contents_at(here).dependencies, dep.name));
                }
            }
            let value = child.lemma_built(
                other.inner@[k],
                construct,
                c.steps.last(),
                c.below[k],
                p,
                q,
                dep,
            );
            Self::lemma_built_among(other.inner@, c.below, k, (dep, value));
            let tail = Self::built_among(other.inner@, c.below);
            let z = tail.index_of((dep, value));
            assert(all[own.len() + z] == (dep, value));
            value
        }
    }

    /// The dependency stands in the plan, if the test asks for it and nothing stands in the way.
    proof fn lemma_stays(
        self,
        other: SuiteNode<V>,
        p: Seq<char>,
        q: Seq<char>,
        dep: DependencyModel,
    )
        requires
            self.wf(),
            self.pruned_to(other),
            path::encloses(self.crate_and_module@, p),
            path::encloses(p, q),
            path::is_unambiguous(q),
            self.contents_at(p).dependencies.contains(dep),
            is_asked(self.contents_at(q).tests, dep.name),
            forall|r: Seq<char>| #[trigger]
                path::encloses(r, q) && r != p ==> !has_name(
                    self.contents_at(r).dependencies,
                    dep.name,
                ),
        ensures
            other.dependencies_below().contains(dep),
        decreases self,
    {
        let here = self.crate_and_module@;
        let deps = internal::dependency_views(self.dependencies@);
        let kept = internal::dependency_views(other.dependencies@);
        if here == p {
            self.lemma_asked(q, dep.name);
            let x = deps.index_of(dep);
            order::lemma_first_named(deps, dep.name);
            assert(deps[x].name == dep.name);
            if self.asked_for() is Some {
                let keep = |d: DependencyModel|
                    prune::is_kept(deps, self.asked_for()->0, d.name);
                prune::asked_dependency_is_kept(deps, self.asked_for()->0, dep.name);
                deps.lemma_filter_contains(keep, x);
            }
            let y = kept.index_of(dep);
            assert(other.dependencies_below()[y] == dep);
        } else {
            let k = self.lemma_next_on_the_way(p, q, dep.name);
            let child = self.inner@[k];
            assert(self.contents_at(p) == child.contents_at(p));
            assert(child.pruned_to(other.inner@[k]));
            child.lemma_stays(other.inner@[k], p, q, dep);
            Self::lemma_dependencies_among(other.inner@, k);
            let inner = Self::dependencies_among(other.inner@);
            assert(inner.contains(dep));
            let w = inner.index_of(dep);
            assert(other.dependencies_below()[kept.len() + w] == dep);
        }
    }

    proof fn lemma_next_on_the_way(self, p: Seq<char>, q: Seq<char>, name: Seq<char>) -> (k: int)
        requires
            self.wf(),
            self.crate_and_module@ != p,
            path::encloses(self.crate_and_module@, p),
            path::encloses(p, q),
            path::is_unambiguous(q),
            self.contents_at(p).dependencies.len() > 0,
            forall|r: Seq<char>| #[trigger]
                path::encloses(r, q) && r != p ==> !has_name(
                    self.contents_at(r).dependencies,
                    name,
                ),
        ensures
            0 <= k < self.inner@.len(),
            self.inner@[k].wf(),
            path::encloses(self.inner@[k].crate_and_module@, p),
            self.contents_at(p) == self.inner@[k].contents_at(p),
            self.contents_at(q) == self.inner@[k].contents_at(q),
            forall|r: Seq<char>| #[trigger]
                path::encloses(r, q) && r != p ==> !has_name(
                    self.inner@[k].contents_at(r).dependencies,
                    name,
                ),
    {
        let here = self.crate_and_module@;
        Self::lemma_route(self.inner@, p);
        let k = Self::route(self.inner@, p);
        assert(k < self.inner@.len()) by {
            if k >= self.inner@.len() {
                assert(self.contents_at(p).dependencies.len() == 0);
            }
        }
        let child = self.inner@[k];
        assert(child.wf());
        lemma_encloses_both(child.crate_and_module@, p, q);
        lemma_encloses_both(here, p, q);
        self.lemma_same_way(p, q);
        path::lemma_encloses_shorter(here, p);
        if p != q {
            path::lemma_encloses_shorter(p, q);
        }
        lemma_self_encloses(q);
        self.lemma_on_the_way(q, q);
        self.lemma_on_the_way(q, p);
        assert forall|r: Seq<char>| #[trigger] path::encloses(r, q) && r != p implies !has_name(
            child.contents_at(r).dependencies,
            name,
        ) by {
            self.lemma_on_the_way(q, r);
        }
        k
    }

    proof fn lemma_kept_is_there(self, other: SuiteNode<V>, dep: DependencyModel)
        requires
            self.pruned_to(other),
            internal::dependency_views(other.dependencies@).contains(dep),
        ensures
            internal::dependency_views(self.dependencies@).contains(dep),
    {
        let deps = internal::dependency_views(self.dependencies@);
        if self.asked_for() is Some {
            let keep = |d: DependencyModel| prune::is_kept(deps, self.asked_for()->0, d.name);
            deps.lemma_filter_contains_rev(keep, dep);
        }
    }

    proof fn lemma_same_way(self, p: Seq<char>, q: Seq<char>)
        requires
            self.wf(),
            path::encloses(p, q),
            path::is_unambiguous(q),
            Self::route(self.inner@, p) < self.inner@.len(),
        ensures
            Self::route(self.inner@, q) == Self::route(self.inner@, p),
    {
        Self::lemma_route(self.inner@, p);
        Self::lemma_route(self.inner@, q);
        let (a, b) = (Self::route(self.inner@, p), Self::route(self.inner@, q));
        let (x, y) = (self.inner@[a], self.inner@[b]);
        lemma_encloses_both(x.crate_and_module@, p, q);
        assert(x.wf() && y.wf());
        path::lemma_one_way(self.crate_and_module@, x.crate_and_module@, y.crate_and_module@, q);
    }

    proof fn lemma_built_among(
        nodes: Seq<SuiteNode<V>>,
        below: Seq<Collection<V>>,
        k: int,
        b: Built<V>,
    )
        requires
            nodes.len() == below.len(),
            0 <= k < nodes.len(),
            nodes[k].built_by(below[k]).contains(b),
        ensures
            Self::built_among(nodes, below).contains(b),
        decreases nodes.len(),
    {
        let all = Self::built_among(nodes, below);
        let head = Self::built_among(nodes.drop_last(), below.drop_last());
        let tail = nodes.last().built_by(below.last());
        if k < nodes.len() - 1 {
            assert(nodes.drop_last()[k] == nodes[k]);
            assert(below.drop_last()[k] == below[k]);
            Self::lemma_built_among(nodes.drop_last(), below.drop_last(), k, b);
            let i = head.index_of(b);
            assert(all[i] == b);
        } else {
            let i = tail.index_of(b);
            assert(all[head.len() + i] == b);
        }
    }
}

proof fn lemma_self_encloses(p: Seq<char>)
    ensures
        path::encloses(p, p),
{
}

pub proof fn lemma_filter_once(
    deps: Seq<DependencyModel>,
    keep: spec_fn(DependencyModel) -> bool,
    name: Seq<char>,
    i: int,
    j: int,
)
    requires
        forall|a: int, b: int|
            0 <= a < b < deps.len() && (#[trigger] deps[a]).name == name ==> (
            #[trigger] deps[b]).name != name,
        0 <= i < deps.filter(keep).len(),
        0 <= j < deps.filter(keep).len(),
        deps.filter(keep)[i].name == name,
        deps.filter(keep)[j].name == name,
    ensures
        i == j,
    decreases deps.len(),
{
    reveal(Seq::filter);
    let init = deps.drop_last();
    if deps.len() > 0 {
        assert forall|a: int, b: int| 0 <= a < b < init.len() && (#[trigger] init[a]).name
            == name implies (#[trigger] init[b]).name != name by {
            assert(init[a] == deps[a] && init[b] == deps[b]);
        }
        let kept = init.filter(keep);
        let n = deps.len() - 1;
        if i < kept.len() && j < kept.len() {
            lemma_filter_once(init, keep, name, i, j);
        } else if i < kept.len() || j < kept.len() {
            let k = if i < kept.len() {
                i
            } else {
                j
            };
            assert(kept.contains(kept[k]));
            init.lemma_filter_contains_rev(keep, kept[k]);
            let a = init.index_of(kept[k]);
            assert(deps[a].name == name && deps[n].name == name);
        }
    }
}

proof fn lemma_built_here<V, F: Fn(&RegisteredDependency, &DependencyMap<V>) -> Arc<V>>(
    construct: F,
    deps: Seq<DependencyModel>,
    order: Seq<usize>,
    steps: Seq<Values<V>>,
    m: int,
    dep: DependencyModel,
    y: int,
) -> (value: Arc<V>)
    requires
        order::is_construction_order(deps, order),
        materialize::is_construction(construct, deps, order, Map::empty(), steps),
        0 <= m < order.len(),
        order[m] == y,
        deps[y] == dep,
        !steps[0].contains_key(dep.name),
    ensures
        collect::built_in(deps, order, steps, order.len()).contains((dep, value)),
        exists|visible: Values<V>| #[trigger]
            materialize::constructed(construct, dep, visible, value),
{
    materialize::lemma_construction(construct, deps, order, Map::empty(), steps, m);
    assert(order::is_first(deps, order[m] as int));
    if steps[m].contains_key(dep.name) {
        let i = choose|i: int| 0 <= i < m && deps[#[trigger] order[i] as int].name == dep.name;
        assert(order::is_first(deps, order[i] as int));
        assert(order[i] == order[m]);
    }
    assert(materialize::constructs_next(
        construct,
        deps[order[m] as int],
        Map::empty(),
        steps[m],
        steps[m + 1],
    ));
    let value = steps[m + 1][dep.name];
    lemma_built_stays(deps, order, steps, m, order.len() as int, (dep, value));
    value
}

proof fn lemma_built_stays<V>(
    deps: Seq<DependencyModel>,
    order: Seq<usize>,
    steps: Seq<Values<V>>,
    m: int,
    k: int,
    b: Built<V>,
)
    requires
        0 <= m < k <= order.len(),
        !steps[m].contains_key(b.0.name),
        deps[order[m] as int] == b.0,
        b.1 == steps[m + 1][b.0.name],
    ensures
        collect::built_in(deps, order, steps, k as nat).contains(b),
    decreases k,
{
    let now = collect::built_in(deps, order, steps, k as nat);
    let before = collect::built_in(deps, order, steps, (k - 1) as nat);
    if m == k - 1 {
        assert(now[before.len() as int] == b);
    } else {
        lemma_built_stays(deps, order, steps, m, k - 1, b);
        let i = before.index_of(b);
        assert(now[i] == b);
    }
}

proof fn lemma_has_scope<V>(root: SuiteNode<V>, dep: DependencyModel)
    requires
        root.dependencies_below().contains(dep),
    ensures
        root.has_scope(dep.scope),
{
    let i = root.dependencies_below().index_of(dep);
    assert(root.dependencies_below()[i].scope == dep.scope);
}

proof fn lemma_of_scope<V>(built: Seq<Built<V>>, b: Built<V>)
    requires
        built.contains(b),
    ensures
        collect::of_scope(built, b.0.scope).contains(b),
{
    let scope = b.0.scope;
    built.lemma_filter_contains(|x: Built<V>| x.0.scope == scope, built.index_of(b));
}

/// The dependency is registered once under its name, needs no other one, and a selected test of its
/// module, or of a module in it, says that it uses it.
pub open spec fn is_wanted(
    dependencies: Seq<RegisteredDependency>,
    x: int,
    filtered: Seq<RegisteredTest>,
    z: int,
) -> bool {
    &&& 0 <= x < dependencies.len()
    &&& dependencies[x].dependencies@.len() == 0
    &&& dependencies[x].crate_name@.len() > 0
    &&& forall|y: int|
        0 <= y < dependencies.len() && (#[trigger] dependencies[y]).name@ == dependencies[x].name@
            ==> y == x
    &&& 0 <= z < filtered.len()
    &&& stands_in(filtered[z], dependencies[x].crate_name@, dependencies[x].module@)
    &&& is_clear(filtered[z]@.crate_and_module())
    &&& filtered[z].dependencies matches Some(names) && exists|i: int|
        0 <= i < names@.len() && (#[trigger] names@[i])@ == dependencies[x].name@
}

proof fn lemma_wanted_is_gathered<
    V,
    K,
    F: Fn(&RegisteredDependency, &DependencyMap<V>) -> Arc<V>,
    W: Fn(HostId, &Arc<V>) -> Vec<u8>,
    C: Fn(HostId, &Arc<V>) -> K,
>(
    arguments: crate::args::ArgumentsModel,
    dependencies: Seq<RegisteredDependency>,
    tests: Seq<RegisteredTest>,
    props: Seq<RegisteredTestSuiteProperty>,
    planned: TestSuiteExecution<V>,
    filtered: Seq<RegisteredTest>,
    x: int,
    z: int,
    construct: F,
    to_wire: W,
    owner_into_cell: C,
    shared: ParentSharedDependencies<V, K>,
    sharing: crate::args::ArgumentsModel,
) -> (value: Arc<V>)
    requires
        TestSuiteExecution::constructs(arguments, dependencies, tests, props, planned, filtered),
        is_wanted(dependencies, x, filtered, z),
        sharing.ipc is None,
        dependencies[x].scope is Cloneable || dependencies[x].scope is Hosted
            || dependencies[x].scope is HostedRpc,
        runner::is_shared_by(sharing, planned, construct, to_wire, owner_into_cell, shared),
    ensures
        exists|visible: Values<V>| #[trigger]
            materialize::constructed(construct, dependencies[x]@, visible, value),
        dependencies[x].scope is Cloneable ==> exists|i: int|
            0 <= i < shared.cloneable_wire_bytes@.len() && (
            #[trigger] shared.cloneable_wire_bytes@[i]).0@ == dependencies[x]@.qualified_id()
                && collect::wired(
                to_wire,
                dependencies[x]@,
                value,
                shared.cloneable_wire_bytes@[i].1,
            ),
        dependencies[x].scope is Cloneable ==> exists|i: int|
            0 <= i < shared.cloneable_local_values@.len() && (
            #[trigger] shared.cloneable_local_values@[i]).0@ == dependencies[x]@.qualified_id()
                && shared.cloneable_local_values@[i].1 == value,
        dependencies[x].scope is Hosted ==> shared.hosted_owners@.contains(value),
        dependencies[x].scope is Hosted ==> exists|i: int|
            0 <= i < shared.hosted_descriptor_bytes@.len() && (
            #[trigger] shared.hosted_descriptor_bytes@[i]).0@ == dependencies[x]@.qualified_id()
                && collect::wired(
                to_wire,
                dependencies[x]@,
                value,
                shared.hosted_descriptor_bytes@[i].1,
            ),
        dependencies[x].scope is HostedRpc ==> exists|i: int|
            0 <= i < shared.hosted_rpc_owner_cells@.len() && (
            #[trigger] shared.hosted_rpc_owner_cells@[i]).0@ == dependencies[x]@.qualified_id()
                && collect::celled(
                owner_into_cell,
                dependencies[x]@,
                value,
                shared.hosted_rpc_owner_cells@[i].1,
            ),
{
    let dep = dependencies[x]@;
    let p = dep.crate_and_module();
    let q = filtered[z]@.crate_and_module();
    let all = internal::dependency_views(dependencies);
    let order = internal::test_views(filtered);
    planned.root.counted_tests_are_held();
    plan::chosen(arguments, tests, props).to_multiset_ensures();
    let (tree, locked) = choose|tree: SuiteNode<V>, locked: SuiteNode<V>|
        #[trigger] plan::plan_steps(tree, locked, planned.root, all, order, props);
    tree.handing_down_keeps_tests(None, locked);
    assert forall|r: Seq<char>| (#[trigger] locked.contents_at(r)).dependencies == plan::planned(
        all,
        order,
        props,
        r,
    ).dependencies && locked.contents_at(r).tests == plan::planned(
        all,
        order,
        props,
        r,
    ).tests by {
        tree.handing_down_keeps_suites(None, locked, r);
        assert(tree.contents_at(r) == plan::planned(all, order, props, r));
    }
    lemma_stands_in(filtered[z], dep.crate_name, dep.module);
    lemma_clear(q);
    assert forall|r: Seq<char>| #[trigger] path::encloses(r, q) && r != p implies !has_name(
        locked.contents_at(r).dependencies,
        dep.name,
    ) by {
        let there = locked.contents_at(r).dependencies;
        if has_name(there, dep.name) {
            let i = choose|i: int| 0 <= i < there.len() && (#[trigger] there[i]).name == dep.name;
            let keep = |d: DependencyModel| d.crate_and_module() == r;
            assert(there == all.filter(keep));
            all.lemma_filter_pred(keep, i);
            assert(there.contains(there[i]));
            all.lemma_filter_contains_rev(keep, there[i]);
            let y = all.index_of(there[i]);
            assert(dependencies[y].name@ == dep.name);
        }
    }
    let keep = |d: DependencyModel| d.crate_and_module() == p;
    let there = locked.contents_at(p).dependencies;
    assert(there == all.filter(keep));
    assert(all[x] == dep);
    all.lemma_filter_contains(keep, x);
    assert forall|i: int, j: int| 0 <= i < j < there.len() && (#[trigger] there[i]).name
        == dep.name implies (#[trigger] there[j]).name != dep.name by {
        if there[j].name == dep.name {
            assert forall|a: int, b: int| 0 <= a < b < all.len() && (#[trigger] all[a]).name
                == dep.name implies (#[trigger] all[b]).name != dep.name by {
                assert(dependencies[a].name@ == all[a].name);
                assert(dependencies[b].name@ == all[b].name);
            }
            lemma_filter_once(all, keep, dep.name, i, j);
        }
    }
    let asking = |t: TestModel| t.crate_and_module() == q;
    let asked = locked.contents_at(q).tests;
    assert(asked == order.filter(asking));
    assert(order[z] == filtered[z]@);
    order.lemma_filter_contains(asking, z);
    let w = asked.index_of(filtered[z]@);
    let names = filtered[z].dependencies->0;
    let n = choose|i: int|
        0 <= i < names@.len() && (#[trigger] names@[i])@ == dependencies[x].name@;
    assert(crate::text::views(names@)[n] == dep.name);
    assert(asked[w].dependencies->0.contains(dep.name));
    assert(path::encloses(locked.crate_and_module@, p));
    locked.lemma_stays(planned.root, p, q, dep);
    lemma_has_scope(planned.root, dep);
    let (c, blank) = choose|c: Collection<V>, blank: ParentSharedDependencies<V, K>| #[trigger]
        planned.root.collects(construct, Map::empty(), c) && blank.is_blank()
            && #[trigger] collect::ships(
            to_wire,
            owner_into_cell,
            blank,
            shared,
            planned.root.built_by(c),
        );
    let value = locked.lemma_built(planned.root, construct, Map::empty(), c, p, q, dep);
    let built = planned.root.built_by(c);
    lemma_of_scope(built, (dep, value));
    let mine = collect::of_scope(built, dep.scope);
    let k = mine.index_of((dep, value));
    if dep.scope is Cloneable {
        assert(shared.cloneable_wire_bytes@[k].0@ == dep.qualified_id());
        assert(shared.cloneable_local_values@[k].0@ == dep.qualified_id());
    }
    if dep.scope is Hosted {
        assert(shared.hosted_descriptor_bytes@[k].0@ == dep.qualified_id());
        assert(shared.hosted_owners@[k] == value);
    }
    if dep.scope is HostedRpc {
        assert(shared.hosted_rpc_owner_cells@[k].0@ == dep.qualified_id());
    }
    value
}

proof fn lemma_entry_stays<T>(entries: Seq<(String, T)>, i: int)
    requires
        0 <= i < entries.len(),
    ensures
        table::entries_map(entries).contains_key(entries[i].0@),
    decreases entries.len(),
{
    if i < entries.len() - 1 {
        assert(entries.drop_last()[i] == entries[i]);
        lemma_entry_stays(entries.drop_last(), i);
    }
}

/// The constructor of the dependency may have made the value.
pub open spec fn is_made<V, F: Fn(&RegisteredDependency, &DependencyMap<V>) -> Arc<V>>(
    construct: F,
    dep: RegisteredDependency,
    value: Arc<V>,
) -> bool {
    exists|d: RegisteredDependency, seen: DependencyMap<V>|
        d@ == dep@ && #[trigger] construct.ensures((&d, &seen), value)
}

/// The process that the user started keeps for its workers what they need of a dependency that a
/// selected test uses, whichever other dependencies there are: of a `HostedRpc` one the cell of its
/// owner, of a `Cloneable` one the bytes of its value, of a `Hosted` one its descriptor and its owner.
/// Each is made of what the constructor of the dependency made, with the codec or the factory of the
/// dependency, and stands under the identifier of the dependency.
pub proof fn parent_keeps_what_workers_need<
    V,
    K,
    F: Fn(&RegisteredDependency, &DependencyMap<V>) -> Arc<V>,
    W: Fn(HostId, &Arc<V>) -> Vec<u8>,
    C: Fn(HostId, &Arc<V>) -> K,
    R: Fn(HostId, HostId, &Vec<u8>) -> Arc<V>,
    B: Fn(HostId, &String) -> Arc<V>,
>(
    before: Arguments,
    dependencies: Vec<RegisteredDependency>,
    tests: Vec<RegisteredTest>,
    props: Vec<RegisteredTestSuiteProperty>,
    available: Option<usize>,
    drawn_seed: u64,
    construct: F,
    to_wire: W,
    owner_into_cell: C,
    rebuild: R,
    build_stub: B,
    prepared: Prepared<V, K>,
    x: int,
    z: int,
    id: String,
)
    requires
        before.ipc is None,
        exists|args: &mut Arguments|
            *args == before && #[trigger] call_ensures(
                runner::prepare_run::<V, K, F, W, C, R, B>,
                (
                    args,
                    &dependencies,
                    &tests,
                    &props,
                    available,
                    drawn_seed,
                    &construct,
                    &to_wire,
                    &owner_into_cell,
                    &rebuild,
                    &build_stub,
                ),
                Ok(prepared),
            ),
        is_wanted(dependencies@, x, prepared.filtered_tests@, z),
        call_ensures(RegisteredDependency::qualified_id, (&dependencies@[x],), id),
    ensures
        dependencies@[x].scope == DepScope::HostedRpc ==> exists|i: int|
            0 <= i < prepared.owner_cells@.len() && (#[trigger] prepared.owner_cells@[i]).0@ == id@,
        dependencies@[x].scope == DepScope::Cloneable ==> exists|i: int, value: Arc<V>|
            0 <= i < prepared.cloneable_wire_bytes@.len() && (
            #[trigger] prepared.cloneable_wire_bytes@[i]).0@ == id@ && #[trigger] is_made(
                construct,
                dependencies@[x],
                value,
            ) && to_wire.ensures(
                (dependencies@[x].cloneable_codec->0.to_wire, &value),
                prepared.cloneable_wire_bytes@[i].1,
            ),
        dependencies@[x].scope == DepScope::Hosted ==> exists|i: int, value: Arc<V>|
            0 <= i < prepared.hosted_descriptor_bytes@.len() && (
            #[trigger] prepared.hosted_descriptor_bytes@[i]).0@ == id@ && #[trigger] is_made(
                construct,
                dependencies@[x],
                value,
            ) && to_wire.ensures(
                (dependencies@[x].hosted_codec->0.to_wire, &value),
                prepared.hosted_descriptor_bytes@[i].1,
            ) && prepared.hosted_owners@.contains(value),
{
    let args = choose|args: &mut Arguments|
        *args == before && #[trigger] call_ensures(
            runner::prepare_run::<V, K, F, W, C, R, B>,
            (
                args,
                &dependencies,
                &tests,
                &props,
                available,
                drawn_seed,
                &construct,
                &to_wire,
                &owner_into_cell,
                &rebuild,
                &build_stub,
            ),
            Ok(prepared),
        );
    let asked = Arguments::ordered(before@, drawn_seed);
    let (planned, filtered) = choose|
        planned: TestSuiteExecution<V>,
        filtered: Seq<RegisteredTest>,
    |
        {
            &&& #[trigger] TestSuiteExecution::constructs(
                Arguments::ordered(before@, drawn_seed),
                dependencies@,
                tests@,
                props@,
                planned,
                filtered,
            )
            &&& final(args)@ == Arguments::finalized(
                asked,
                planned.root.has_scope(DepScope::Shared),
                available,
            )
            &&& prepared.filtered_tests@ == filtered
            &&& exists|shared: ParentSharedDependencies<V, K>| #[trigger]
                runner::is_shared_by(
                    final(args)@,
                    planned,
                    construct,
                    to_wire,
                    owner_into_cell,
                    shared,
                ) && runner::is_prepared(
                    final(args)@,
                    internal::dependency_views(dependencies@),
                    planned,
                    shared,
                    rebuild,
                    build_stub,
                    prepared,
                )
        };
    let shared = choose|shared: ParentSharedDependencies<V, K>| #[trigger]
        runner::is_shared_by(
            final(args)@,
            planned,
            construct,
            to_wire,
            owner_into_cell,
            shared,
        ) && runner::is_prepared(
            final(args)@,
            internal::dependency_views(dependencies@),
            planned,
            shared,
            rebuild,
            build_stub,
            prepared,
        );
    let scope = dependencies@[x].scope;
    if scope is HostedRpc || scope is Cloneable || scope is Hosted {
        let value = lemma_wanted_is_gathered(
            asked,
            dependencies@,
            tests@,
            props@,
            planned,
            filtered,
            x,
            z,
            construct,
            to_wire,
            owner_into_cell,
            shared,
            final(args)@,
        );
        let visible = choose|visible: Values<V>| #[trigger]
            materialize::constructed(construct, dependencies@[x]@, visible, value);
        assert(is_made(construct, dependencies@[x], value));
        if scope is HostedRpc {
            let i = choose|i: int|
                0 <= i < shared.hosted_rpc_owner_cells@.len() && (
                #[trigger] shared.hosted_rpc_owner_cells@[i]).0@ == id@;
            lemma_entry_stays(shared.hosted_rpc_owner_cells@, i);
            table::lemma_entries_map(prepared.owner_cells@);
        }
    }
}

/// A worker process keeps nothing for others.
pub proof fn worker_keeps_nothing_for_others<
    V,
    K,
    F: Fn(&RegisteredDependency, &DependencyMap<V>) -> Arc<V>,
    W: Fn(HostId, &Arc<V>) -> Vec<u8>,
    C: Fn(HostId, &Arc<V>) -> K,
>(
    args: Arguments,
    planned: TestSuiteExecution<V>,
    construct: F,
    to_wire: W,
    owner_into_cell: C,
    shared: Result<ParentSharedDependencies<V, K>, String>,
)
    requires
        args.ipc is Some,
        call_ensures(
            runner::share_dependencies::<V, K, F, W, C>,
            (&args, &planned, &construct, &to_wire, &owner_into_cell),
            shared,
        ),
    ensures
        shared is Ok,
        shared->Ok_0.cloneable_wire_bytes@.len() == 0,
        shared->Ok_0.hosted_descriptor_bytes@.len() == 0,
        shared->Ok_0.hosted_rpc_owner_cells@.len() == 0,
{
}

} // verus!
