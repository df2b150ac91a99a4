//! Which values tests see.
use super::sharing::{has_name, is_asked, is_made, lemma_filter_once};
use super::waiting::{both, is_at_or_above};
use super::words::{at_or_in, colons, is_clear, lemma_clear};
use crate::args::Arguments;
use crate::execution::materialize;
use crate::execution::materialize::Values;
use crate::execution::node::{SequentialExecutionLock, SuiteNode};
use crate::execution::order;
use crate::execution::path;
use crate::execution::pick;
use crate::execution::pick::Visit;
use crate::execution::plan;
use crate::execution::prune;
use crate::execution::run;
use crate::execution::run::{is_run, PlanStep};
use crate::execution::seen;
use crate::execution::suite::{visible_to, TestExecution, TestSuiteExecution};
use crate::execution::values::{DependencyMap, DependencyView};
use crate::internal;
use crate::internal::{
    DependencyModel, RegisteredDependency, RegisteredTest, RegisteredTestSuiteProperty,
};
use std::sync::Arc;
use vstd::prelude::*;

verus! {

/// The value was made by the constructor of one of the dependencies, which has this name.
pub open spec fn has_source<V, F: Fn(&RegisteredDependency, &DependencyMap<V>) -> Arc<V>>(
    construct: F,
    deps: Seq<DependencyModel>,
    name: Seq<char>,
    value: Arc<V>,
) -> bool {
    exists|i: int, visible: Values<V>|
        0 <= i < deps.len() && (#[trigger] deps[i]).name == name
            && #[trigger] materialize::constructed(construct, deps[i], visible, value)
}

/// No other one of the dependencies has this name.
pub open spec fn is_single(deps: Seq<DependencyModel>, name: Seq<char>) -> bool {
    forall|i: int, j: int|
        0 <= i < j < deps.len() && (#[trigger] deps[i]).name == name ==> (#[trigger] deps[j]).name
            != name
}

/// What a suite at this path has of a dependency that belongs to `p` and that a test at `q` asks for.
pub open spec fn has_its_part(
    here: Seq<char>,
    deps: Seq<DependencyModel>,
    p: Seq<char>,
    q: Seq<char>,
    dep: DependencyModel,
) -> bool {
    &&& here == p ==> deps.contains(dep) && is_single(deps, dep.name)
    &&& path::encloses(p, here) && here != p && path::encloses(here, q) ==> !has_name(deps, dep.name)
}

proof fn lemma_sourced_steps<V, F: Fn(&RegisteredDependency, &DependencyMap<V>) -> Arc<V>>(
    construct: F,
    deps: Seq<DependencyModel>,
    order: Seq<usize>,
    parent: Values<V>,
    steps: Seq<Values<V>>,
    k: int,
)
    requires
        order::is_construction_order(deps, order),
        materialize::is_construction(construct, deps, order, parent, steps),
        0 <= k <= order.len(),
        forall|n: Seq<char>| #[trigger]
            steps[0].contains_key(n) ==> has_source(construct, deps, n, steps[0][n]),
    ensures
        forall|n: Seq<char>| #[trigger]
            steps[k].contains_key(n) ==> has_source(construct, deps, n, steps[k][n]),
    decreases k,
{
    if k > 0 {
        lemma_sourced_steps(construct, deps, order, parent, steps, k - 1);
        let at = order[k - 1] as int;
        assert(order::is_first(deps, order[k - 1] as int));
        let dep = deps[order[k - 1] as int];
        assert(materialize::constructs_next(construct, dep, parent, steps[k - 1], steps[k - 1 + 1]));
        assert forall|n: Seq<char>| #[trigger] steps[k].contains_key(n) implies has_source(
            construct,
            deps,
            n,
            steps[k][n],
        ) by {
            if steps[k - 1].contains_key(n) {
                assert(steps[k][n] == steps[k - 1][n]);
            } else {
                let visible = parent.union_prefer_right(steps[k - 1]);
                assert(deps[at].name == n);
                assert(materialize::constructed(construct, deps[at], visible, steps[k][n]));
            }
        }
    }
}

impl<V> SuiteNode<V> {
    /// The values that this suite and those below it have come from constructors of their own
    /// dependencies, and each of them has its part of the dependency.
    pub open spec fn is_ready<F: Fn(&RegisteredDependency, &DependencyMap<V>) -> Arc<V>>(
        self,
        construct: F,
        p: Seq<char>,
        q: Seq<char>,
        dep: DependencyModel,
    ) -> bool
        decreases self,
    {
        let deps = internal::dependency_views(self.dependencies@);
        &&& !self.skip_creating_dependencies
        &&& forall|n: Seq<char>| #[trigger]
            self.materialized_dependencies@.contains_key(n) ==> has_source(
                construct,
                deps,
                n,
                self.materialized_dependencies@[n],
            )
        &&& has_its_part(self.crate_and_module@, deps, p, q, dep)
        &&& forall|j: int|
            0 <= j < self.inner@.len() ==> (#[trigger] self.inner@[j]).is_ready(
                construct,
                p,
                q,
                dep,
            )
    }

    proof fn lemma_visited<F: Fn(&RegisteredDependency, &DependencyMap<V>) -> Arc<V>>(
        self,
        construct: F,
        parent: Values<V>,
        values: Values<V>,
        p: Seq<char>,
        q: Seq<char>,
        dep: DependencyModel,
    )
        requires
            self.is_ready(construct, p, q, dep),
            self.materialized_as(construct, parent, values),
            dep.dependencies.len() == 0,
        ensures
            forall|n: Seq<char>| #[trigger]
                values.contains_key(n) ==> has_source(
                    construct,
                    internal::dependency_views(self.dependencies@),
                    n,
                    values[n],
                ),
            self.crate_and_module@ == p ==> values.contains_key(dep.name),
    {
        let deps = internal::dependency_views(self.dependencies@);
        let before = self.materialized_dependencies@;
        let name = dep.name;
        if self.complete_with(before) {
            if self.crate_and_module@ == p {
                lemma_complete(construct, deps, before, dep);
            }
        } else {
            let order = choose|order: Seq<usize>|
                order::is_construction_order(deps, order) && #[trigger]
                    materialize::constructs_all(construct, deps, order, parent, before, values);
            let steps = choose|steps: Seq<Values<V>>|
                #[trigger] materialize::is_construction(construct, deps, order, parent, steps)
                    && steps[0] == before && steps.last() == values;
            lemma_sourced_steps(construct, deps, order, parent, steps, order.len() as int);
            materialize::lemma_construction(
                construct,
                deps,
                order,
                parent,
                steps,
                order.len() as int,
            );
            if self.crate_and_module@ == p {
                let x = deps.index_of(dep);
                assert(deps[x].name == name);
                order::lemma_first_named(deps, name);
                let c = order::first_named(deps, name);
                assert(c == x) by {
                    if c < x {
                        assert(deps[c].name == name && deps[x].name == name);
                    }
                }
                if !order.contains(c as usize) {
                    assert(order::is_first(deps, c));
                    assert(order::is_blocked(deps, order, c));
                    let a = choose|a: int| #[trigger]
                        order::uses(deps, c, a) && !order.contains(a as usize);
                    let (i, d) = choose|i: int, d: int| #[trigger]
                        order::uses_at(deps, i, d, c, a);
                    order::lemma_first_named(deps, deps[i].name);
                    assert(deps[i].name == name);
                    assert(i == x) by {
                        if i < x {
                            assert(deps[x].name != name);
                        } else if x < i {
                            assert(deps[i].name != name);
                        }
                    }
                    assert(false);
                }
                let m = order.index_of(c as usize);
                assert(c < self.dependencies.len());
                assert(order[m] == c);
                assert(deps[order[m] as int].name == name);
            }
        }
    }

    proof fn lemma_advancing_keeps_ready<
        F: Fn(&RegisteredDependency, &DependencyMap<V>) -> Arc<V>,
    >(
        self,
        construct: F,
        held: Set<Seq<char>>,
        parent: Values<V>,
        visit: Visit<V>,
        other: SuiteNode<V>,
        deps: Option<Values<V>>,
        p: Seq<char>,
        q: Seq<char>,
        dep: DependencyModel,
    )
        requires
            self.is_ready(construct, p, q, dep),
            dep.dependencies.len() == 0,
            self.advanced_to(construct, held, parent, visit, other, deps),
        ensures
            other.is_ready(construct, p, q, dep),
        decreases self,
    {
        if !self.is_exhausted() {
            self.lemma_visited(construct, parent, visit.values, p, q, dep);
        }
        if !self.is_exhausted() && !self.takes_own(held) {
            let k = Self::first_offering(self.inner@, held);
            Self::lemma_first_offering(self.inner@, held);
            let visible = parent.union_prefer_right(visit.values);
            let mid = visit.inner;
            assert forall|i: int| 0 <= i < mid.len() implies (#[trigger] mid[i]).is_ready(
                construct,
                p,
                q,
                dep,
            ) by {
                let a = self.inner@[i];
                assert(a.is_ready(construct, p, q, dep));
                if i <= k {
                    let got = if i < k {
                        None
                    } else {
                        deps
                    };
                    a.lemma_advancing_keeps_ready(
                        construct,
                        held,
                        visible,
                        visit.below[i],
                        mid[i],
                        got,
                        p,
                        q,
                        dep,
                    );
                }
            }
            Self::lemma_drop_exhausted(mid);
            assert forall|i: int| 0 <= i < other.inner@.len() implies (
            #[trigger] other.inner@[i]).is_ready(construct, p, q, dep) by {
                assert(mid.contains(Self::unexhausted(mid)[i]));
                let j = mid.index_of(other.inner@[i]);
                assert(mid[j] == other.inner@[i]);
            }
        }
    }

    proof fn lemma_finishing_keeps_ready<
        F: Fn(&RegisteredDependency, &DependencyMap<V>) -> Arc<V>,
    >(
        self,
        construct: F,
        at: Seq<char>,
        other: SuiteNode<V>,
        p: Seq<char>,
        q: Seq<char>,
        dep: DependencyModel,
    )
        requires
            self.is_ready(construct, p, q, dep),
            self.finished_to(at, other),
        ensures
            other.is_ready(construct, p, q, dep),
        decreases self,
    {
        let r = Self::route(self.inner@, at);
        if self.crate_and_module@ != at && 0 <= r < self.inner@.len() {
            self.inner@[r].lemma_finishing_keeps_ready(
                construct,
                at,
                other.inner@[r],
                p,
                q,
                dep,
            );
            assert forall|j: int| 0 <= j < other.inner@.len() implies (
            #[trigger] other.inner@[j]).is_ready(construct, p, q, dep) by {
                if j != r {
                    assert(other.inner@[j] == self.inner@[j]);
                }
            }
        }
    }

    /// The next test stands here or below.
    proof fn lemma_choice_is_inside(self, held: Set<Seq<char>>)
        requires
            self.wf(),
        ensures
            self.next(held) matches Some(choice) ==> {
                &&& choice.suite == choice.test.crate_and_module()
                &&& path::encloses(self.crate_and_module@, choice.suite)
            },
        decreases self,
    {
        if self.takes_own(held) {
            let n = self.tests@.len() - 1;
            assert(self.tests@[n]@.crate_and_module() == self.crate_and_module@);
        } else {
            Self::lemma_first_offering(self.inner@, held);
            let k = Self::first_offering(self.inner@, held);
            if k < self.inner@.len() {
                let child = self.inner@[k];
                assert(child.wf());
                child.lemma_choice_is_inside(held);
                if child.next(held) is Some {
                    lemma_enclosed(
                        self.crate_and_module@,
                        child.crate_and_module@,
                        child.next(held)->0.suite,
                    );
                }
            }
        }
    }

    /// A value from above reaches the test where no suite on the way has a dependency of its name.
    proof fn lemma_handed_down<F: Fn(&RegisteredDependency, &DependencyMap<V>) -> Arc<V>>(
        self,
        construct: F,
        held: Set<Seq<char>>,
        parent: Values<V>,
        visit: Visit<V>,
        other: SuiteNode<V>,
        seen: Values<V>,
        p: Seq<char>,
        q: Seq<char>,
        dep: DependencyModel,
        value: Arc<V>,
    )
        requires
            self.wf(),
            self.is_ready(construct, p, q, dep),
            dep.dependencies.len() == 0,
            self.advanced_to(construct, held, parent, visit, other, Some(seen)),
            self.next(held) is Some,
            self.next(held)->0.suite == q,
            path::encloses(p, self.crate_and_module@),
            p != self.crate_and_module@,
            parent.contains_pair(dep.name, value),
        ensures
            seen.contains_pair(dep.name, value),
        decreases self,
    {
        let here = self.crate_and_module@;
        let deps = internal::dependency_views(self.dependencies@);
        self.lemma_visited(construct, parent, visit.values, p, q, dep);
        self.lemma_choice_is_inside(held);
        assert(!visit.values.contains_key(dep.name)) by {
            if visit.values.contains_key(dep.name) {
                assert(has_source(construct, deps, dep.name, visit.values[dep.name]));
                assert(has_name(deps, dep.name));
            }
        }
        if !self.takes_own(held) {
            let k = Self::first_offering(self.inner@, held);
            Self::lemma_first_offering(self.inner@, held);
            let child = self.inner@[k];
            assert(child.wf());
            lemma_enclosed(p, here, child.crate_and_module@);
            path::lemma_encloses_shorter(p, here);
            child.lemma_handed_down(
                construct,
                held,
                parent.union_prefer_right(visit.values),
                visit.below[k],
                visit.inner[k],
                seen,
                p,
                q,
                dep,
                value,
            );
        }
    }

    proof fn lemma_sees<F: Fn(&RegisteredDependency, &DependencyMap<V>) -> Arc<V>>(
        self,
        construct: F,
        held: Set<Seq<char>>,
        parent: Values<V>,
        visit: Visit<V>,
        other: SuiteNode<V>,
        seen: Values<V>,
        p: Seq<char>,
        q: Seq<char>,
        dep: DependencyModel,
    )
        requires
            self.wf(),
            self.is_ready(construct, p, q, dep),
            dep.dependencies.len() == 0,
            self.advanced_to(construct, held, parent, visit, other, Some(seen)),
            self.next(held) is Some,
            self.next(held)->0.suite == q,
            path::encloses(self.crate_and_module@, p),
            path::encloses(p, q),
            path::is_unambiguous(q),
            path::is_rooted(q),
        ensures
            seen.contains_key(dep.name),
            exists|visible: Values<V>| #[trigger]
                materialize::constructed(construct, dep, visible, seen[dep.name]),
        decreases self,
    {
        let here = self.crate_and_module@;
        let deps = internal::dependency_views(self.dependencies@);
        self.lemma_visited(construct, parent, visit.values, p, q, dep);
        self.lemma_choice_is_inside(held);
        let k = Self::first_offering(self.inner@, held);
        Self::lemma_first_offering(self.inner@, held);
        let visible = parent.union_prefer_right(visit.values);
        if here == p {
            let value = visit.values[dep.name];
            assert(has_source(construct, deps, dep.name, value));
            let (i, v) = choose|i: int, v: Values<V>|
                0 <= i < deps.len() && (#[trigger] deps[i]).name == dep.name
                    && #[trigger] materialize::constructed(construct, deps[i], v, value);
            let x = deps.index_of(dep);
            assert(deps[x].name == dep.name);
            assert(i == x) by {
                if i < x {
                    assert(deps[x].name != dep.name);
                } else if x < i {
                    assert(deps[i].name != dep.name);
                }
            }
            assert(materialize::constructed(construct, dep, v, value));
            assert(visible.contains_pair(dep.name, value));
            if !self.takes_own(held) {
                let child = self.inner@[k];
                assert(child.wf());
                child.lemma_handed_down(
                    construct,
                    held,
                    visible,
                    visit.below[k],
                    visit.inner[k],
                    seen,
                    p,
                    q,
                    dep,
                    value,
                );
            }
        } else {
            path::lemma_encloses_shorter(here, p);
            if self.takes_own(held) {
                assert(q == here);
                if p != q {
                    path::lemma_encloses_shorter(p, q);
                }
                assert(false);
            }
            let child = self.inner@[k];
            assert(child.wf());
            child.lemma_choice_is_inside(held);
            lemma_same_step(here, child.crate_and_module@, p, q);
            child.lemma_sees(
                construct,
                held,
                visible,
                visit.below[k],
                visit.inner[k],
                seen,
                p,
                q,
                dep,
            );
        }
    }

    proof fn lemma_planned_ready<F: Fn(&RegisteredDependency, &DependencyMap<V>) -> Arc<V>>(
        self,
        construct: F,
        other: SuiteNode<V>,
        p: Seq<char>,
        q: Seq<char>,
        dep: DependencyModel,
    )
        requires
            self.wf(),
            self.pruned_to(other),
            self.is_untouched(),
            path::is_unambiguous(q),
            path::encloses(p, q),
            forall|r: Seq<char>|
                path::encloses(self.crate_and_module@, r) && path::encloses(r, q) ==> has_its_part(
                    r,
                    #[trigger] self.contents_at(r).dependencies,
                    p,
                    q,
                    dep,
                ),
            path::encloses(self.crate_and_module@, q) ==> is_asked(
                self.contents_at(q).tests,
                dep.name,
            ),
        ensures
            other.is_ready(construct, p, q, dep),
        decreases self,
    {
        let here = self.crate_and_module@;
        let deps = internal::dependency_views(self.dependencies@);
        let kept = internal::dependency_views(other.dependencies@);
        if path::encloses(here, q) {
            assert(self.contents_at(here) == self.contents());
            assert(has_its_part(here, self.contents_at(here).dependencies, p, q, dep));
        }
        assert forall|i: int| 0 <= i < kept.len() implies deps.contains(#[trigger] kept[i]) by {
            if self.asked_for() is Some {
                let keep = |d: DependencyModel| prune::is_kept(deps, self.asked_for()->0, d.name);
                assert(kept.contains(kept[i]));
                deps.lemma_filter_contains_rev(keep, kept[i]);
            } else {
                assert(deps.contains(deps[i]));
            }
        }
        if here == p {
            assert forall|r: Seq<char>| #[trigger] path::encloses(r, q) && r != here implies !has_name(
                self.contents_at(r).dependencies,
                dep.name,
            ) by {
                if path::encloses(here, r) {
                    assert(has_its_part(r, self.contents_at(r).dependencies, p, q, dep));
                } else {
                    self.lemma_not_inside(r);
                }
            }
            self.lemma_asked(q, dep.name);
            let x = deps.index_of(dep);
            assert(deps[x].name == dep.name);
            order::lemma_first_named(deps, dep.name);
            if self.asked_for() is Some {
                let keep = |d: DependencyModel| prune::is_kept(deps, self.asked_for()->0, d.name);
                prune::asked_dependency_is_kept(deps, self.asked_for()->0, dep.name);
                deps.lemma_filter_contains(keep, x);
                assert forall|i: int, j: int|
                    0 <= i < j < kept.len() && (#[trigger] kept[i]).name == dep.name implies (
                #[trigger] kept[j]).name != dep.name by {
                    if kept[j].name == dep.name {
                        lemma_filter_once(deps, keep, dep.name, i, j);
                    }
                }
            }
        }
        if path::encloses(p, here) && here != p && path::encloses(here, q) {
            if has_name(kept, dep.name) {
                let i = choose|i: int| 0 <= i < kept.len() && (#[trigger] kept[i]).name == dep.name;
                assert(deps.contains(kept[i]));
                let j = deps.index_of(kept[i]);
                assert(deps[j].name == dep.name);
            }
        }
        assert forall|j: int| 0 <= j < other.inner@.len() implies (
        #[trigger] other.inner@[j]).is_ready(construct, p, q, dep) by {
            let child = self.inner@[j];
            let below = child.crate_and_module@;
            assert(child.wf());
            assert(child.pruned_to(other.inner@[j]));
            assert forall|r: Seq<char>|
                path::encloses(below, r) && path::encloses(r, q) implies child.contents_at(r)
                == #[trigger] self.contents_at(r) && path::encloses(here, r) by {
                lemma_enclosed(here, below, r);
                lemma_enclosed(below, r, q);
                path::lemma_encloses_shorter(here, below);
                if below != r {
                    path::lemma_encloses_shorter(below, r);
                }
                assert forall|i: int| 0 <= i < j implies !path::encloses(
                    (#[trigger] self.inner@[i]).crate_and_module@,
                    r,
                ) by {
                    let sibling = self.inner@[i].crate_and_module@;
                    if path::encloses(sibling, r) {
                        lemma_enclosed(sibling, r, q);
                        path::lemma_one_way(here, sibling, below, q);
                    }
                }
                Self::lemma_route_is(self.inner@, r, j);
                Self::lemma_route(self.inner@, r);
                assert(here != r);
            }
            assert forall|r: Seq<char>|
                path::encloses(below, r) && path::encloses(r, q) implies has_its_part(
                r,
                #[trigger] child.contents_at(r).dependencies,
                p,
                q,
                dep,
            ) by {
                assert(child.contents_at(r) == self.contents_at(r));
                assert(has_its_part(r, self.contents_at(r).dependencies, p, q, dep));
            }
            if path::encloses(below, q) {
                lemma_enclosed(here, below, q);
                assert(child.contents_at(q) == self.contents_at(q));
            }
            child.lemma_planned_ready(construct, other.inner@[j], p, q, dep);
        }
    }

    /// No value was made yet, here or below.
    pub open spec fn is_untouched(self) -> bool
        decreases self,
    {
        &&& self.materialized_dependencies@ == Map::<Seq<char>, Arc<V>>::empty()
        &&& !self.skip_creating_dependencies
        &&& forall|j: int| 0 <= j < self.inner@.len() ==> (#[trigger] self.inner@[j]).is_untouched()
    }

    proof fn lemma_locked_untouched(
        self,
        inherited: Option<SequentialExecutionLock>,
        other: SuiteNode<V>,
    )
        requires
            self.fresh(),
            self.handed_down_to(inherited, other),
        ensures
            other.is_untouched(),
        decreases self,
    {
        assert forall|j: int| 0 <= j < other.inner@.len() implies (
        #[trigger] other.inner@[j]).is_untouched() by {
            assert(self.inner@[j].handed_down_to(other.lock_for_children(), other.inner@[j]));
            assert(self.inner@[j].fresh());
            self.inner@[j].lemma_locked_untouched(other.lock_for_children(), other.inner@[j]);
        }
    }
}

proof fn lemma_complete<V, F: Fn(&RegisteredDependency, &DependencyMap<V>) -> Arc<V>>(
    construct: F,
    deps: Seq<DependencyModel>,
    values: Values<V>,
    dep: DependencyModel,
)
    requires
        deps.contains(dep),
        values.dom().len() == deps.len(),
        forall|n: Seq<char>| #[trigger]
            values.contains_key(n) ==> has_source(construct, deps, n, values[n]),
    ensures
        values.contains_key(dep.name),
{
    let names = deps.map_values(|d: DependencyModel| d.name);
    let set = names.to_set();
    names.lemma_cardinality_of_set();
    assert(values.dom().subset_of(set)) by {
        assert forall|n: Seq<char>| values.dom().contains(n) implies set.contains(n) by {
            assert(values.contains_key(n));
            let (i, v) = choose|i: int, v: Values<V>|
                0 <= i < deps.len() && (#[trigger] deps[i]).name == n
                    && #[trigger] materialize::constructed(construct, deps[i], v, values[n]);
            assert(names[i] == n);
        }
    }
    let x = deps.index_of(dep);
    assert(names[x] == dep.name);
    assert(set.contains(dep.name));
    vstd::set_lib::lemma_len_subset(values.dom(), set);
    vstd::set_lib::lemma_subset_equality(values.dom(), set);
}

proof fn lemma_enclosed(a: Seq<char>, b: Seq<char>, c: Seq<char>)
    requires
        path::encloses(a, b),
        path::encloses(b, c),
    ensures
        path::encloses(a, c),
{
    if a.len() > 0 && a != b && b != c {
        let pre = a + internal::colons();
        let n = pre.len() as int;
        let whole = b + internal::colons();
        assert(b.subrange(0, 0 + n) == pre);
        assert(c.subrange(0, 0 + whole.len() as int) == whole);
        assert forall|i: int| 0 <= i < n implies c[i] == pre[i] by {
            assert(c.subrange(0, whole.len() as int)[i] == whole[i]);
            assert(b.subrange(0, n)[i] == pre[i]);
        }
        assert(c.subrange(0, 0 + n) =~= pre);
    }
}

/// The suite below that leads to a path leads to every path on the way there.
proof fn lemma_same_step(here: Seq<char>, child: Seq<char>, p: Seq<char>, q: Seq<char>)
    requires
        path::directly_below(here, child),
        path::encloses(child, q),
        path::encloses(here, p),
        here != p,
        path::encloses(p, q),
        path::is_unambiguous(q),
        path::is_rooted(q),
    ensures
        path::encloses(child, p),
{
    assert(path::is_rooted(p)) by {
        if !path::is_rooted(p) {
            let two = internal::colons();
            assert(p.subrange(0, 0 + two.len() as int) == two);
            if p != q {
                let pre = p + two;
                assert(q.subrange(0, 0 + pre.len() as int) == pre);
                assert forall|i: int| 0 <= i < 2 implies q[i] == two[i] by {
                    assert(q.subrange(0, pre.len() as int)[i] == pre[i]);
                    assert(p.subrange(0, 2)[i] == two[i]);
                }
                assert(q.subrange(0, 0 + two.len() as int) =~= two);
            }
        }
    }
    let step = path::one_below(here, p);
    path::lemma_one_below_direct(here, p);
    path::lemma_one_below(here, p);
    lemma_enclosed(step, p, q);
    path::lemma_one_way(here, step, child, q);
}

proof fn lemma_ready_step<V, F: Fn(&RegisteredDependency, &DependencyMap<V>) -> Arc<V>>(
    step: PlanStep<V>,
    construct: F,
    before: TestSuiteExecution<V>,
    after: TestSuiteExecution<V>,
    p: Seq<char>,
    q: Seq<char>,
    dep: DependencyModel,
)
    requires
        step.leads(construct, before, after),
        !(step is Provided),
        before.wf(),
        before.root.is_ready(construct, p, q, dep),
        dep.dependencies.len() == 0,
        path::encloses(p, q),
        path::is_unambiguous(q),
        path::is_rooted(q),
    ensures
        after.wf(),
        after.root.is_ready(construct, p, q, dep),
        step.given() matches Some(next) ==> next.test@.crate_and_module() == q ==> {
            &&& next.deps@.contains_key(dep.name)
            &&& exists|visible: Values<V>| #[trigger]
                materialize::constructed(construct, dep, visible, next.deps@[dep.name])
        },
{
    let held = pick::held_set(before.held@);
    match step {
        PlanStep::Picked(next) => {
            let visit = choose|visit: Visit<V>| #[trigger]
                before.root.advanced_to(
                    construct,
                    held,
                    Map::empty(),
                    visit,
                    after.root,
                    visible_to(next),
                );
            before.root.lemma_advancing_keeps_ready(
                construct,
                held,
                Map::empty(),
                visit,
                after.root,
                visible_to(next),
                p,
                q,
                dep,
            );
            before.root.lemma_choice_is_inside(held);
            if next is Some && next->0.test@.crate_and_module() == q {
                before.root.lemma_sees(
                    construct,
                    held,
                    Map::empty(),
                    visit,
                    after.root,
                    next->0.deps@,
                    p,
                    q,
                    dep,
                );
            }
        },
        PlanStep::Finished(done) => {
            before.root.lemma_finishing_keeps_ready(
                construct,
                done.suite@,
                after.root,
                p,
                q,
                dep,
            );
        },
        PlanStep::Provided(id, value) => {},
    }
}

proof fn lemma_ready_run<V, F: Fn(&RegisteredDependency, &DependencyMap<V>) -> Arc<V>>(
    construct: F,
    plans: Seq<TestSuiteExecution<V>>,
    steps: Seq<PlanStep<V>>,
    p: Seq<char>,
    q: Seq<char>,
    dep: DependencyModel,
    k: int,
)
    requires
        is_run(construct, plans, steps),
        forall|n: int| 0 <= n < steps.len() ==> !(#[trigger] steps[n] is Provided),
        plans[0].wf(),
        plans[0].root.is_ready(construct, p, q, dep),
        dep.dependencies.len() == 0,
        path::encloses(p, q),
        path::is_unambiguous(q),
        path::is_rooted(q),
        0 <= k < plans.len(),
    ensures
        plans[k].wf(),
        plans[k].root.is_ready(construct, p, q, dep),
    decreases k,
{
    if k > 0 {
        lemma_ready_run(construct, plans, steps, p, q, dep, k - 1);
        assert(steps[k - 1].leads(construct, plans[k - 1], plans[k - 1 + 1]));
        lemma_ready_step(steps[k - 1], construct, plans[k - 1], plans[k], p, q, dep);
    }
}

proof fn lemma_at_or_above_encloses(p: Seq<char>, q: Seq<char>)
    ensures
        is_at_or_above(p, q) <==> path::encloses(p, q),
{
    let pre = p + internal::colons();
    assert(pre =~= p + colons());
    if is_at_or_above(p, q) && p.len() > 0 && p != q {
        let rest = choose|rest: Seq<char>| q == #[trigger] (p + colons() + rest);
        assert(q.subrange(0, 0 + pre.len() as int) =~= pre);
    }
    if path::encloses(p, q) && p.len() > 0 && p != q {
        assert(q.subrange(0, 0 + pre.len() as int) == pre);
        let rest = q.skip(pre.len() as int);
        assert(q =~= pre + rest) by {
            assert forall|i: int| 0 <= i < pre.len() implies q[i] == pre[i] by {
                assert(q.subrange(0, pre.len() as int)[i] == pre[i]);
            }
        }
        assert(q == p + colons() + rest);
        assert(at_or_in(q, p));
    }
}

proof fn lemma_handed_was_selected<V, F: Fn(&RegisteredDependency, &DependencyMap<V>) -> Arc<V>>(
    arguments: Arguments,
    dependencies: Vec<RegisteredDependency>,
    tests: Vec<RegisteredTest>,
    props: Vec<RegisteredTestSuiteProperty>,
    filtered: Vec<RegisteredTest>,
    construct: F,
    plans: Seq<TestSuiteExecution<V>>,
    steps: Seq<PlanStep<V>>,
    k: int,
    next: TestExecution<V>,
) -> (z: int)
    requires
        TestSuiteExecution::constructs(
            arguments@,
            dependencies@,
            tests@,
            props@,
            plans[0],
            filtered@,
        ),
        is_run(construct, plans, steps),
        0 <= k < steps.len(),
        steps[k] == PlanStep::Picked(Some(next)),
    ensures
        0 <= z < filtered@.len(),
        filtered@[z]@ == next.test@,
{
    let (some_plans, some_steps) = (plans.take(k + 1), steps.take(k));
    assert forall|i: int| 0 <= i < some_steps.len() implies (#[trigger] some_steps[i]).leads(
        construct,
        some_plans[i],
        some_plans[i + 1],
    ) by {
        assert(steps[i].leads(construct, plans[i], plans[i + 1]));
    }
    assert(is_run(construct, some_plans, some_steps));
    run::run_hands_out_what_was_selected(
        arguments@,
        dependencies@,
        tests@,
        props@,
        filtered@,
        construct,
        some_plans,
        some_steps,
    );
    assert(some_plans.last() == plans[k]);
    assert(steps[k].leads(construct, plans[k], plans[k + 1]));
    let t = next.test@;
    let selected = internal::test_views(filtered@);
    selected.to_multiset_ensures();
    assert(plans[k].root.tests_below().count(t) > 0);
    assert(selected.to_multiset().count(t) > 0);
    assert(selected.contains(t));
    let z = selected.index_of(t);
    assert(filtered@[z]@ == t);
    z
}

proof fn lemma_part_of_the_plan(
    dependencies: Seq<RegisteredDependency>,
    x: int,
    q: Seq<char>,
    r: Seq<char>,
)
    requires
        0 <= x < dependencies.len(),
        path::encloses(r, q),
        path::encloses(dependencies[x]@.crate_and_module(), q),
        forall|y: int|
            0 <= y < dependencies.len() && y != x && (#[trigger] dependencies[y]).name@
                == dependencies[x].name@ && path::encloses(dependencies[y]@.crate_and_module(), q)
                ==> path::encloses(
                dependencies[y]@.crate_and_module(),
                dependencies[x]@.crate_and_module(),
            ) && dependencies[y]@.crate_and_module() != dependencies[x]@.crate_and_module(),
    ensures
        has_its_part(
            r,
            internal::dependency_views(dependencies).filter(
                |d: DependencyModel| d.crate_and_module() == r,
            ),
            dependencies[x]@.crate_and_module(),
            q,
            dependencies[x]@,
        ),
{
    let all = internal::dependency_views(dependencies);
    let here = |d: DependencyModel| d.crate_and_module() == r;
    let deps = all.filter(here);
    let (p, dep) = (dependencies[x]@.crate_and_module(), dependencies[x]@);
    assert(all[x] == dep);
    if r == p {
        all.lemma_filter_contains(here, x);
        assert forall|i: int, j: int|
            0 <= i < j < deps.len() && (#[trigger] deps[i]).name == dep.name implies (
        #[trigger] deps[j]).name != dep.name by {
            lemma_one_of_them(all, here, dep.name, x, i, j);
        }
    }
    if path::encloses(p, r) && r != p && has_name(deps, dep.name) {
        let i = choose|i: int| 0 <= i < deps.len() && (#[trigger] deps[i]).name == dep.name;
        all.lemma_filter_pred(here, i);
        assert(deps.contains(deps[i]));
        all.lemma_filter_contains_rev(here, deps[i]);
        let y = all.index_of(deps[i]);
        assert(all[y] == dependencies[y]@);
        path::lemma_encloses_shorter(p, r);
        if y != x {
            path::lemma_encloses_shorter(dependencies[y]@.crate_and_module(), p);
        }
    }
}

/// Where only one of the dependencies of a module has the name, only one is among those that are
/// filtered.
proof fn lemma_one_of_them(
    all: Seq<DependencyModel>,
    here: spec_fn(DependencyModel) -> bool,
    name: Seq<char>,
    x: int,
    i: int,
    j: int,
)
    requires
        0 <= x < all.len(),
        forall|y: int|
            0 <= y < all.len() && y != x && here(#[trigger] all[y]) ==> all[y].name != name,
        0 <= i < j < all.filter(here).len(),
        all.filter(here)[i].name == name,
    ensures
        all.filter(here)[j].name != name,
    decreases all.len(),
{
    reveal(Seq::filter);
    let init = all.drop_last();
    let kept = init.filter(here);
    let n = all.len() - 1;
    assert forall|y: int| 0 <= y < init.len() && y != x && here(#[trigger] init[y]) implies init[y].name
        != name by {
        assert(init[y] == all[y]);
    }
    if all.filter(here)[j].name == name {
        if j < kept.len() {
            if x < init.len() {
                lemma_one_of_them(init, here, name, x, i, j);
            } else {
                init.lemma_filter_pred(here, j);
                assert(kept.contains(kept[j]));
                init.lemma_filter_contains_rev(here, kept[j]);
                let y = init.index_of(kept[j]);
                assert(all[y] == init[y]);
            }
        } else {
            assert(all.filter(here)[j] == all[n]);
            assert(here(all[n]));
            assert(x == n);
            init.lemma_filter_pred(here, i);
            assert(kept.contains(kept[i]));
            init.lemma_filter_contains_rev(here, kept[i]);
            let y = init.index_of(kept[i]);
            assert(all[y] == init[y]);
        }
    }
}

/// The test says that it uses the dependency, which needs no others, stands around the test and is the
/// innermost of its name there.
pub open spec fn uses_innermost(
    test: RegisteredTest,
    dependencies: Seq<RegisteredDependency>,
    x: int,
) -> bool {
    let here = both(test.crate_name@, test.module@);
    let place = both(dependencies[x].crate_name@, dependencies[x].module@);
    &&& test.crate_name@.len() > 0
    &&& test.crate_name@[0] != ':'
    &&& is_clear(here)
    &&& 0 <= x < dependencies.len()
    &&& dependencies[x].dependencies@.len() == 0
    &&& test.dependencies matches Some(names) && exists|i: int|
        0 <= i < names@.len() && (#[trigger] names@[i])@ == dependencies[x].name@
    &&& is_at_or_above(place, here)
    &&& forall|y: int|
        0 <= y < dependencies.len() && y != x && (#[trigger] dependencies[y]).name@
            == dependencies[x].name@ && is_at_or_above(
            both(dependencies[y].crate_name@, dependencies[y].module@),
            here,
        ) ==> is_at_or_above(both(dependencies[y].crate_name@, dependencies[y].module@), place)
            && both(dependencies[y].crate_name@, dependencies[y].module@) != place
}

proof fn lemma_ready_at_first<V, F: Fn(&RegisteredDependency, &DependencyMap<V>) -> Arc<V>>(
    arguments: Arguments,
    dependencies: Vec<RegisteredDependency>,
    tests: Vec<RegisteredTest>,
    props: Vec<RegisteredTestSuiteProperty>,
    filtered: Vec<RegisteredTest>,
    construct: F,
    plans: Seq<TestSuiteExecution<V>>,
    steps: Seq<PlanStep<V>>,
    k: int,
    next: TestExecution<V>,
    x: int,
)
    requires
        TestSuiteExecution::constructs(
            arguments@,
            dependencies@,
            tests@,
            props@,
            plans[0],
            filtered@,
        ),
        is_run(construct, plans, steps),
        0 <= k < steps.len(),
        steps[k] == PlanStep::Picked(Some(next)),
        uses_innermost(next.test, dependencies@, x),
    ensures
        ({
            let (p, q) = (
                dependencies@[x]@.crate_and_module(),
                next.test@.crate_and_module(),
            );
            &&& plans[0].root.is_ready(construct, p, q, dependencies@[x]@)
            &&& path::encloses(p, q)
            &&& path::is_unambiguous(q)
            &&& path::is_rooted(q)
        }),
        dependencies@[x]@.dependencies.len() == 0,
{
    let deps = internal::dependency_views(dependencies@);
    let order = internal::test_views(filtered@);
    let dep = dependencies@[x]@;
    let (p, q) = (dep.crate_and_module(), next.test@.crate_and_module());
    lemma_clear(q);
    lemma_at_or_above_encloses(p, q);
    assert(q[0] == next.test.crate_name@[0]);
    assert(path::is_rooted(q)) by {
        if !path::is_rooted(q) {
            let two = internal::colons();
            assert(q.subrange(0, 0 + two.len() as int)[0] == two[0]);
        }
    }
    let z = lemma_handed_was_selected(
        arguments,
        dependencies,
        tests,
        props,
        filtered,
        construct,
        plans,
        steps,
        k,
        next,
    );
    assert(order[z] == next.test@);
    plan::chosen(arguments@, tests@, props@).to_multiset_ensures();
    order.to_multiset_ensures();
    let (tree, locked) = choose|tree: SuiteNode<V>, locked: SuiteNode<V>|
        #[trigger] plan::plan_steps(tree, locked, plans[0].root, deps, order, props@);
    tree.handing_down_keeps_tests(None, locked);
    tree.lemma_locked_untouched(None, locked);
    assert forall|y: int|
        0 <= y < dependencies@.len() && y != x && (#[trigger] dependencies@[y]).name@
            == dependencies@[x].name@ && path::encloses(
            dependencies@[y]@.crate_and_module(),
            q,
        ) implies path::encloses(dependencies@[y]@.crate_and_module(), p)
        && dependencies@[y]@.crate_and_module() != p by {
        lemma_at_or_above_encloses(dependencies@[y]@.crate_and_module(), q);
        lemma_at_or_above_encloses(dependencies@[y]@.crate_and_module(), p);
    }
    assert forall|r: Seq<char>|
        path::encloses(locked.crate_and_module@, r) && path::encloses(r, q) implies has_its_part(
        r,
        #[trigger] locked.contents_at(r).dependencies,
        p,
        q,
        dep,
    ) by {
        tree.handing_down_keeps_suites(None, locked, r);
        assert(tree.contents_at(r) == plan::planned(deps, order, props@, r));
        lemma_part_of_the_plan(dependencies@, x, q, r);
    }
    assert(is_asked(locked.contents_at(q).tests, dep.name)) by {
        tree.handing_down_keeps_suites(None, locked, q);
        assert(tree.contents_at(q) == plan::planned(deps, order, props@, q));
        let at = |t: internal::TestModel| t.crate_and_module() == q;
        order.lemma_filter_contains(at, z);
        let here = order.filter(at);
        let w = here.index_of(next.test@);
        let names = next.test.dependencies->0;
        let i = choose|i: int| 0 <= i < names@.len() && (#[trigger] names@[i])@ == dep.name;
        assert(here[w].dependencies->0[i] == dep.name);
    }
    locked.lemma_planned_ready(construct, plans[0].root, p, q, dep);
}

/// A test that says it uses a dependency sees, under the name of the dependency, what the constructor of
/// the dependency made that is the innermost of this name around the test. This is said of dependencies
/// that need no others, while no value is provided from elsewhere.
pub proof fn innermost_dependency_is_seen<
    V,
    F: Fn(&RegisteredDependency, &DependencyMap<V>) -> Arc<V>,
>(
    arguments: Arguments,
    dependencies: Vec<RegisteredDependency>,
    tests: Vec<RegisteredTest>,
    props: Vec<RegisteredTestSuiteProperty>,
    filtered: Vec<RegisteredTest>,
    construct: F,
    plans: Seq<TestSuiteExecution<V>>,
    steps: Seq<PlanStep<V>>,
    k: int,
    next: TestExecution<V>,
    x: int,
    name: &str,
    value: Option<Arc<V>>,
)
    requires
        call_ensures(
            TestSuiteExecution::<V>::construct,
            (&arguments, &dependencies, &tests, &props),
            (plans[0], filtered),
        ),
        plans.len() == steps.len() + 1,
        forall|n: int|
            0 <= n < steps.len() ==> match #[trigger] steps[n] {
                PlanStep::Picked(next) => exists|plan: &mut TestSuiteExecution<V>|
                    {
                        &&& *plan == plans[n]
                        &&& *final(plan) == plans[n + 1]
                        &&& #[trigger] call_ensures(
                            TestSuiteExecution::<V>::pick_next_sync::<F>,
                            (plan, &construct),
                            next,
                        )
                    },
                PlanStep::Finished(done) => exists|plan: &mut TestSuiteExecution<V>|
                    {
                        &&& *plan == plans[n]
                        &&& *final(plan) == plans[n + 1]
                        &&& #[trigger] call_ensures(
                            TestSuiteExecution::<V>::finish,
                            (plan, done),
                            (),
                        )
                    },
                PlanStep::Provided(id, value) => exists|
                    plan: &mut TestSuiteExecution<V>,
                    dep_id: &str,
                    applied: bool,
                |
                    {
                        &&& *plan == plans[n]
                        &&& *final(plan) == plans[n + 1]
                        &&& dep_id@ == id@
                        &&& #[trigger] call_ensures(
                            TestSuiteExecution::<V>::provide_cloneable_value,
                            (plan, dep_id, value),
                            applied,
                        )
                    },
            },
        forall|n: int| 0 <= n < steps.len() ==> !(#[trigger] steps[n] is Provided),
        0 <= k < steps.len(),
        steps[k] == PlanStep::Picked(Some(next)),
        uses_innermost(next.test, dependencies@, x),
        dependencies@[x].name@ == name@,
        call_ensures(DependencyMap::<V>::get, (&next.deps, name), value),
    ensures
        value matches Some(v) && is_made(construct, dependencies@[x], v),
{
    assert forall|n: int| 0 <= n < steps.len() implies (#[trigger] steps[n]).leads(
        construct,
        plans[n],
        plans[n + 1],
    ) by {}
    let dep = dependencies@[x]@;
    let (p, q) = (dep.crate_and_module(), next.test@.crate_and_module());
    lemma_ready_at_first(
        arguments,
        dependencies,
        tests,
        props,
        filtered,
        construct,
        plans,
        steps,
        k,
        next,
        x,
    );
    lemma_ready_run(construct, plans, steps, p, q, dep, k);
    assert(steps[k].leads(construct, plans[k], plans[k + 1]));
    lemma_ready_step(steps[k], construct, plans[k], plans[k + 1], p, q, dep);
    let visible = choose|visible: Values<V>| #[trigger]
        materialize::constructed(construct, dep, visible, next.deps@[dep.name]);
}

impl<V> SuiteNode<V> {
    /// Nothing is said of suites that do not lead to the path.
    proof fn lemma_keeps_elsewhere(self, p: Seq<char>, name: Seq<char>, value: Arc<V>)
        requires
            self.wf(),
            self.crate_and_module@ != p,
            !path::encloses(self.crate_and_module@, p) || path::encloses(p, self.crate_and_module@),
        ensures
            self.keeps_value(p, name, value),
        decreases self,
    {
        let here = self.crate_and_module@;
        assert forall|j: int| 0 <= j < self.inner@.len() implies (
        #[trigger] self.inner@[j]).keeps_value(p, name, value) by {
            let child = self.inner@[j];
            let below = child.crate_and_module@;
            assert(child.wf());
            if path::encloses(p, here) {
                lemma_enclosed(p, here, below);
                path::lemma_encloses_shorter(p, here);
            } else if path::encloses(below, p) {
                lemma_enclosed(here, below, p);
            }
            child.lemma_keeps_elsewhere(p, name, value);
        }
    }

    proof fn lemma_advancing_keeps_place<
        F: Fn(&RegisteredDependency, &DependencyMap<V>) -> Arc<V>,
    >(
        self,
        construct: F,
        held: Set<Seq<char>>,
        parent: Values<V>,
        visit: Visit<V>,
        other: SuiteNode<V>,
        deps: Option<Values<V>>,
    )
        requires
            self.advanced_to(construct, held, parent, visit, other, deps),
        ensures
            other.crate_and_module == self.crate_and_module,
    {
    }

    /// What the test sees of a dependency is kept for those after it.
    proof fn lemma_seen_is_kept<F: Fn(&RegisteredDependency, &DependencyMap<V>) -> Arc<V>>(
        self,
        construct: F,
        held: Set<Seq<char>>,
        parent: Values<V>,
        visit: Visit<V>,
        other: SuiteNode<V>,
        seen: Values<V>,
        p: Seq<char>,
        q: Seq<char>,
        dep: DependencyModel,
    )
        requires
            self.wf(),
            other.wf(),
            self.is_ready(construct, p, q, dep),
            dep.dependencies.len() == 0,
            self.advanced_to(construct, held, parent, visit, other, Some(seen)),
            self.next(held) is Some,
            self.next(held)->0.suite == q,
            path::encloses(self.crate_and_module@, p),
            path::encloses(p, q),
            path::is_unambiguous(q),
            path::is_rooted(q),
        ensures
            other.keeps_value(p, dep.name, seen[dep.name]),
        decreases self,
    {
        let here = self.crate_and_module@;
        let value = seen[dep.name];
        self.lemma_visited(construct, parent, visit.values, p, q, dep);
        self.lemma_choice_is_inside(held);
        let k = Self::first_offering(self.inner@, held);
        Self::lemma_first_offering(self.inner@, held);
        let visible = parent.union_prefer_right(visit.values);
        if here == p {
            assert(visible.contains_pair(dep.name, visit.values[dep.name]));
            if !self.takes_own(held) {
                let child = self.inner@[k];
                assert(child.wf());
                child.lemma_handed_down(
                    construct,
                    held,
                    visible,
                    visit.below[k],
                    visit.inner[k],
                    seen,
                    p,
                    q,
                    dep,
                    visit.values[dep.name],
                );
            }
            assert(visit.values[dep.name] == value);
            assert forall|j: int| 0 <= j < other.inner@.len() implies (
            #[trigger] other.inner@[j]).keeps_value(p, dep.name, value) by {
                assert(other.inner@[j].wf());
                other.inner@[j].lemma_keeps_elsewhere(p, dep.name, value);
            }
        } else {
            path::lemma_encloses_shorter(here, p);
            if self.takes_own(held) {
                assert(q == here);
                if p != q {
                    path::lemma_encloses_shorter(p, q);
                }
                assert(false);
            }
            let child = self.inner@[k];
            let way = child.crate_and_module@;
            assert(child.wf());
            child.lemma_choice_is_inside(held);
            lemma_same_step(here, way, p, q);
            let mid = visit.inner;
            Self::lemma_drop_exhausted(mid);
            assert forall|j: int| 0 <= j < other.inner@.len() implies (
            #[trigger] other.inner@[j]).keeps_value(p, dep.name, value) by {
                let node = other.inner@[j];
                assert(node.wf());
                assert(mid.contains(Self::unexhausted(mid)[j]));
                let i = mid.index_of(node);
                assert(mid[i] == node);
                if i == k {
                    child.lemma_seen_is_kept(
                        construct,
                        held,
                        visible,
                        visit.below[k],
                        mid[k],
                        seen,
                        p,
                        q,
                        dep,
                    );
                } else {
                    let sibling = self.inner@[i];
                    assert(sibling.wf());
                    if i < k {
                        sibling.lemma_advancing_keeps_place(
                            construct,
                            held,
                            visible,
                            visit.below[i],
                            mid[i],
                            None,
                        );
                    }
                    assert(node.crate_and_module == sibling.crate_and_module);
                    if path::encloses(sibling.crate_and_module@, p) {
                        lemma_enclosed(sibling.crate_and_module@, p, q);
                        path::lemma_one_way(here, sibling.crate_and_module@, way, q);
                        assert(false);
                    }
                    node.lemma_keeps_elsewhere(p, dep.name, value);
                }
            }
        }
    }

    /// A value that was kept is seen again.
    proof fn lemma_kept_is_seen<F: Fn(&RegisteredDependency, &DependencyMap<V>) -> Arc<V>>(
        self,
        construct: F,
        held: Set<Seq<char>>,
        parent: Values<V>,
        visit: Visit<V>,
        other: SuiteNode<V>,
        seen: Values<V>,
        p: Seq<char>,
        q: Seq<char>,
        dep: DependencyModel,
        value: Arc<V>,
    )
        requires
            self.wf(),
            self.is_ready(construct, p, q, dep),
            self.keeps_value(p, dep.name, value),
            dep.dependencies.len() == 0,
            self.advanced_to(construct, held, parent, visit, other, Some(seen)),
            self.next(held) is Some,
            self.next(held)->0.suite == q,
            path::encloses(self.crate_and_module@, p),
            path::encloses(p, q),
            path::is_unambiguous(q),
            path::is_rooted(q),
        ensures
            seen.contains_pair(dep.name, value),
        decreases self,
    {
        let here = self.crate_and_module@;
        let deps = internal::dependency_views(self.dependencies@);
        let before = self.materialized_dependencies@;
        self.lemma_choice_is_inside(held);
        let k = Self::first_offering(self.inner@, held);
        Self::lemma_first_offering(self.inner@, held);
        let visible = parent.union_prefer_right(visit.values);
        if here == p {
            assert(before.contains_pair(dep.name, value));
            if !self.complete_with(before) {
                let order = choose|order: Seq<usize>|
                    order::is_construction_order(deps, order) && #[trigger]
                        materialize::constructs_all(
                        construct,
                        deps,
                        order,
                        parent,
                        before,
                        visit.values,
                    );
                materialize::constructing_keeps_values(
                    construct,
                    deps,
                    order,
                    parent,
                    before,
                    visit.values,
                );
            }
            assert(visit.values.contains_pair(dep.name, value));
            if !self.takes_own(held) {
                let child = self.inner@[k];
                assert(child.wf());
                child.lemma_handed_down(
                    construct,
                    held,
                    visible,
                    visit.below[k],
                    visit.inner[k],
                    seen,
                    p,
                    q,
                    dep,
                    value,
                );
            }
        } else {
            path::lemma_encloses_shorter(here, p);
            if self.takes_own(held) {
                assert(q == here);
                if p != q {
                    path::lemma_encloses_shorter(p, q);
                }
                assert(false);
            }
            let child = self.inner@[k];
            assert(child.wf());
            child.lemma_choice_is_inside(held);
            lemma_same_step(here, child.crate_and_module@, p, q);
            child.lemma_kept_is_seen(
                construct,
                held,
                visible,
                visit.below[k],
                visit.inner[k],
                seen,
                p,
                q,
                dep,
                value,
            );
        }
    }
}

/// Tests that use a dependency share its value: what one of them saw is what those after it see.
pub proof fn tests_share_the_value<
    V,
    F: Fn(&RegisteredDependency, &DependencyMap<V>) -> Arc<V>,
>(
    arguments: Arguments,
    dependencies: Vec<RegisteredDependency>,
    tests: Vec<RegisteredTest>,
    props: Vec<RegisteredTestSuiteProperty>,
    filtered: Vec<RegisteredTest>,
    construct: F,
    plans: Seq<TestSuiteExecution<V>>,
    steps: Seq<PlanStep<V>>,
    i: int,
    k: int,
    first: TestExecution<V>,
    second: TestExecution<V>,
    x: int,
    name: &str,
    value: Option<Arc<V>>,
    again: Option<Arc<V>>,
)
    requires
        call_ensures(
            TestSuiteExecution::<V>::construct,
            (&arguments, &dependencies, &tests, &props),
            (plans[0], filtered),
        ),
        plans.len() == steps.len() + 1,
        forall|n: int|
            0 <= n < steps.len() ==> match #[trigger] steps[n] {
                PlanStep::Picked(next) => exists|plan: &mut TestSuiteExecution<V>|
                    {
                        &&& *plan == plans[n]
                        &&& *final(plan) == plans[n + 1]
                        &&& #[trigger] call_ensures(
                            TestSuiteExecution::<V>::pick_next_sync::<F>,
                            (plan, &construct),
                            next,
                        )
                    },
                PlanStep::Finished(done) => exists|plan: &mut TestSuiteExecution<V>|
                    {
                        &&& *plan == plans[n]
                        &&& *final(plan) == plans[n + 1]
                        &&& #[trigger] call_ensures(
                            TestSuiteExecution::<V>::finish,
                            (plan, done),
                            (),
                        )
                    },
                PlanStep::Provided(id, value) => exists|
                    plan: &mut TestSuiteExecution<V>,
                    dep_id: &str,
                    applied: bool,
                |
                    {
                        &&& *plan == plans[n]
                        &&& *final(plan) == plans[n + 1]
                        &&& dep_id@ == id@
                        &&& #[trigger] call_ensures(
                            TestSuiteExecution::<V>::provide_cloneable_value,
                            (plan, dep_id, value),
                            applied,
                        )
                    },
            },
        forall|n: int| 0 <= n < steps.len() ==> !(#[trigger] steps[n] is Provided),
        0 <= i < k < steps.len(),
        steps[i] == PlanStep::Picked(Some(first)),
        steps[k] == PlanStep::Picked(Some(second)),
        uses_innermost(first.test, dependencies@, x),
        uses_innermost(second.test, dependencies@, x),
        dependencies@[x].name@ == name@,
        call_ensures(DependencyMap::<V>::get, (&first.deps, name), value),
        call_ensures(DependencyMap::<V>::get, (&second.deps, name), again),
    ensures
        value is Some,
        again == value,
{
    assert forall|n: int| 0 <= n < steps.len() implies (#[trigger] steps[n]).leads(
        construct,
        plans[n],
        plans[n + 1],
    ) by {}
    let dep = dependencies@[x]@;
    let p = dep.crate_and_module();
    let (q, r) = (first.test@.crate_and_module(), second.test@.crate_and_module());
    lemma_ready_at_first(
        arguments,
        dependencies,
        tests,
        props,
        filtered,
        construct,
        plans,
        steps,
        i,
        first,
        x,
    );
    lemma_ready_at_first(
        arguments,
        dependencies,
        tests,
        props,
        filtered,
        construct,
        plans,
        steps,
        k,
        second,
        x,
    );
    lemma_ready_run(construct, plans, steps, p, q, dep, i);
    lemma_ready_run(construct, plans, steps, p, r, dep, i + 1);
    lemma_ready_run(construct, plans, steps, p, r, dep, k);
    assert(steps[i].leads(construct, plans[i], plans[i + 1]));
    assert(steps[k].leads(construct, plans[k], plans[k + 1]));
    lemma_ready_step(steps[i], construct, plans[i], plans[i + 1], p, q, dep);
    let v = first.deps@[dep.name];
    lemma_kept_after(construct, plans[i], plans[i + 1], first, p, q, dep);
    let states = plans.subrange(i + 1, k + 1);
    let id = internal::path_join(p, dep.name);
    assert forall|n: int| 0 <= n < states.len() - 1 implies seen::goes_on(
        construct,
        id,
        #[trigger] states[n],
        states[n + 1],
    ) by {
        let m = i + 1 + n;
        assert(states[n] == plans[m] && states[n + 1] == plans[m + 1]);
        assert(steps[m].leads(construct, plans[m], plans[m + 1]));
        assert(!(steps[m] is Provided));
    }
    assert(states[0] == plans[i + 1] && states[k - i - 1] == plans[k]);
    seen::lemma_keeps_all_along(construct, p, dep.name, v, states, k - i - 1);
    let held = pick::held_set(plans[k].held@);
    let visit = choose|visit: Visit<V>| #[trigger]
        plans[k].root.advanced_to(
            construct,
            held,
            Map::empty(),
            visit,
            plans[k + 1].root,
            visible_to(Some(second)),
        );
    plans[k].root.lemma_choice_is_inside(held);
    plans[k].root.lemma_kept_is_seen(
        construct,
        held,
        Map::empty(),
        visit,
        plans[k + 1].root,
        second.deps@,
        p,
        r,
        dep,
        v,
    );
}

proof fn lemma_kept_after<V, F: Fn(&RegisteredDependency, &DependencyMap<V>) -> Arc<V>>(
    construct: F,
    before: TestSuiteExecution<V>,
    after: TestSuiteExecution<V>,
    next: TestExecution<V>,
    p: Seq<char>,
    q: Seq<char>,
    dep: DependencyModel,
)
    requires
        before.wf(),
        before.picks(construct, Some(next), after),
        before.root.is_ready(construct, p, q, dep),
        dep.dependencies.len() == 0,
        next.test@.crate_and_module() == q,
        path::encloses(p, q),
        path::is_unambiguous(q),
        path::is_rooted(q),
    ensures
        after.root.keeps_value(p, dep.name, next.deps@[dep.name]),
{
    let held = pick::held_set(before.held@);
    let visit = choose|visit: Visit<V>| #[trigger]
        before.root.advanced_to(
            construct,
            held,
            Map::empty(),
            visit,
            after.root,
            visible_to(Some(next)),
        );
    before.root.lemma_choice_is_inside(held);
    before.root.lemma_seen_is_kept(
        construct,
        held,
        Map::empty(),
        visit,
        after.root,
        next.deps@,
        p,
        q,
        dep,
    );
}

} // verus!
