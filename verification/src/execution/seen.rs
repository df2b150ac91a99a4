//! What tests see of a value that was provided.
use super::materialize;
use super::materialize::Values;
use super::node::SuiteNode;
use super::order;
use super::pick;
use super::pick::Visit;
use super::provide;
use super::suite::{visible_to, TestExecution, TestSuiteExecution};
use super::values::DependencyMap;
use crate::internal;
use crate::internal::RegisteredDependency;
use std::sync::Arc;
use vstd::prelude::*;

verus! {

impl<V> SuiteNode<V> {
    /// The suite registers no dependency of this name and has no value for it.
    pub open spec fn lacks(self, name: Seq<char>) -> bool {
        let deps = internal::dependency_views(self.dependencies@);
        &&& !self.materialized_dependencies@.contains_key(name)
        &&& forall|i: int| 0 <= i < deps.len() ==> (#[trigger] deps[i]).name != name
    }

    /// No suite from this one down to the one that gives the next test has the name.
    pub open spec fn route_lacks(self, held: Set<Seq<char>>, name: Seq<char>) -> bool
        decreases self,
    {
        let k = Self::first_offering(self.inner@, held);
        &&& self.lacks(name)
        &&& self.takes_own(held) || (0 <= k < self.inner@.len() && self.inner@[k].route_lacks(
            held,
            name,
        ))
    }

    /// The next test comes from the suite at `path` or from below it, and no suite further down has
    /// the name.
    pub open spec fn route_passes(
        self,
        held: Set<Seq<char>>,
        path: Seq<char>,
        name: Seq<char>,
    ) -> bool
        decreases self,
    {
        let here = self.crate_and_module@ == path;
        let k = Self::first_offering(self.inner@, held);
        if self.takes_own(held) {
            here
        } else {
            &&& 0 <= k < self.inner@.len()
            &&& self.inner@[k].route_passes(held, path, name) || (here
                && self.inner@[k].route_lacks(held, name))
        }
    }

    /// The suite at `path`, here or below, registers the dependency with this identifier.
    pub open spec fn registers_at(self, path: Seq<char>, id: Seq<char>) -> bool
        decreases self,
    {
        let deps = internal::dependency_views(self.dependencies@);
        &&& self.crate_and_module@ == path ==> provide::first_identified(deps, id) < deps.len()
        &&& forall|j: int|
            0 <= j < self.inner@.len() ==> (#[trigger] self.inner@[j]).registers_at(path, id)
    }

    /// The suite at `path`, here or below, has this value under this name as long as it holds
    /// anything.
    pub open spec fn keeps_value(self, path: Seq<char>, name: Seq<char>, value: Arc<V>) -> bool
        decreases self,
    {
        &&& self.crate_and_module@ == path ==> self.is_exhausted()
            || self.materialized_dependencies@.contains_pair(name, value)
        &&& forall|j: int|
            0 <= j < self.inner@.len() ==> (#[trigger] self.inner@[j]).keeps_value(
                path,
                name,
                value,
            )
    }

    /// A suite from this one down to the one that gives the next test has this value under this
    /// name, and no suite further down has the name.
    pub open spec fn route_gives(
        self,
        held: Set<Seq<char>>,
        name: Seq<char>,
        value: Arc<V>,
    ) -> bool
        decreases self,
    {
        let here = self.materialized_dependencies@.contains_pair(name, value);
        let k = Self::first_offering(self.inner@, held);
        if self.takes_own(held) {
            here
        } else {
            &&& 0 <= k < self.inner@.len()
            &&& self.inner@[k].route_gives(held, name, value) || (here
                && self.inner@[k].route_lacks(held, name))
        }
    }

    proof fn lemma_same_offers(
        a: Seq<SuiteNode<V>>,
        b: Seq<SuiteNode<V>>,
        held: Set<Seq<char>>,
    )
        requires
            a.len() == b.len(),
            forall|i: int| 0 <= i < a.len() ==> (#[trigger] a[i]).next(held) == b[i].next(held),
        ensures
            Self::first_offering(a, held) == Self::first_offering(b, held),
            Self::next_among(a, held) == Self::next_among(b, held),
        decreases a.len(),
    {
        if a.len() > 0 {
            assert(a[0].next(held) == b[0].next(held));
            assert forall|i: int| 0 <= i < a.skip(1).len() implies (
            #[trigger] a.skip(1)[i]).next(held) == b.skip(1)[i].next(held) by {
                assert(a.skip(1)[i] == a[i + 1]);
            }
            Self::lemma_same_offers(a.skip(1), b.skip(1), held);
        }
    }

    /// Providing a value does not change which test is next.
    pub proof fn providing_keeps_the_choice(
        self,
        id: Seq<char>,
        value: Arc<V>,
        other: SuiteNode<V>,
        held: Set<Seq<char>>,
    )
        requires
            self.provided_to(id, value, other),
        ensures
            other.next(held) == self.next(held),
            Self::first_offering(other.inner@, held) == Self::first_offering(self.inner@, held),
        decreases self,
    {
        assert forall|i: int| 0 <= i < self.inner@.len() implies (
        #[trigger] self.inner@[i]).next(held) == other.inner@[i].next(held) by {
            self.inner@[i].providing_keeps_the_choice(id, value, other.inner@[i], held);
        }
        Self::lemma_same_offers(self.inner@, other.inner@, held);
    }

    /// Pruning does not change which test is next.
    pub proof fn pruning_keeps_the_choice(self, other: SuiteNode<V>, held: Set<Seq<char>>)
        requires
            self.pruned_to(other),
        ensures
            other.next(held) == self.next(held),
            Self::first_offering(other.inner@, held) == Self::first_offering(self.inner@, held),
        decreases self,
    {
        assert forall|i: int| 0 <= i < self.inner@.len() implies (
        #[trigger] self.inner@[i]).next(held) == other.inner@[i].next(held) by {
            self.inner@[i].pruning_keeps_the_choice(other.inner@[i], held);
        }
        Self::lemma_same_offers(self.inner@, other.inner@, held);
    }

    proof fn lemma_provided_keeps(
        self,
        value: Arc<V>,
        other: SuiteNode<V>,
        path: Seq<char>,
        name: Seq<char>,
    )
        requires
            self.wf(),
            self.registers_at(path, internal::path_join(path, name)),
            self.provided_to(internal::path_join(path, name), value, other),
        ensures
            other.keeps_value(path, name, value),
        decreases self,
    {
        let id = internal::path_join(path, name);
        let deps = internal::dependency_views(self.dependencies@);
        let i = provide::first_identified(deps, id);
        provide::lemma_first_identified_bounds(deps, id);
        if self.crate_and_module@ == path {
            assert(self.dependencies@[i]@.crate_and_module() == path);
            assert(deps[i] == self.dependencies@[i]@);
            lemma_path_join_names(path, deps[i].name, name);
        }
        assert forall|j: int| 0 <= j < other.inner@.len() implies (
        #[trigger] other.inner@[j]).keeps_value(path, name, value) by {
            assert(self.inner@[j].provided_to(id, value, other.inner@[j]));
            assert(self.inner@[j].wf() && self.inner@[j].registers_at(path, id));
            self.inner@[j].lemma_provided_keeps(value, other.inner@[j], path, name);
        }
    }

    proof fn lemma_providing_another_keeps(
        self,
        id: Seq<char>,
        given: Arc<V>,
        other: SuiteNode<V>,
        path: Seq<char>,
        name: Seq<char>,
        value: Arc<V>,
    )
        requires
            self.wf(),
            id != internal::path_join(path, name),
            self.keeps_value(path, name, value),
            self.provided_to(id, given, other),
        ensures
            other.keeps_value(path, name, value),
        decreases self,
    {
        let deps = internal::dependency_views(self.dependencies@);
        let i = provide::first_identified(deps, id);
        provide::lemma_first_identified_bounds(deps, id);
        if self.crate_and_module@ == path && i < deps.len() {
            assert(self.dependencies@[i]@.crate_and_module() == path);
            assert(deps[i] == self.dependencies@[i]@);
            assert(deps[i].name != name);
        }
        assert forall|j: int| 0 <= j < other.inner@.len() implies (
        #[trigger] other.inner@[j]).keeps_value(path, name, value) by {
            assert(self.inner@[j].provided_to(id, given, other.inner@[j]));
            assert(self.inner@[j].wf() && self.inner@[j].keeps_value(path, name, value));
            self.inner@[j].lemma_providing_another_keeps(
                id,
                given,
                other.inner@[j],
                path,
                name,
                value,
            );
        }
    }

    proof fn lemma_pruning_keeps(
        self,
        other: SuiteNode<V>,
        path: Seq<char>,
        name: Seq<char>,
        value: Arc<V>,
    )
        requires
            self.pruned_to(other),
            self.keeps_value(path, name, value),
        ensures
            other.keeps_value(path, name, value),
        decreases self,
    {
        assert forall|j: int| 0 <= j < other.inner@.len() implies (
        #[trigger] other.inner@[j]).keeps_value(path, name, value) by {
            assert(self.inner@[j].pruned_to(other.inner@[j]));
            assert(self.inner@[j].keeps_value(path, name, value));
            self.inner@[j].lemma_pruning_keeps(other.inner@[j], path, name, value);
        }
    }

    proof fn lemma_finishing_keeps(
        self,
        finished: Seq<char>,
        other: SuiteNode<V>,
        path: Seq<char>,
        name: Seq<char>,
        value: Arc<V>,
    )
        requires
            self.finished_to(finished, other),
            self.keeps_value(path, name, value),
        ensures
            other.keeps_value(path, name, value),
        decreases self,
    {
        let r = Self::route(self.inner@, finished);
        if self.crate_and_module@ != finished && 0 <= r < self.inner@.len() {
            assert(self.inner@[r].keeps_value(path, name, value));
            self.inner@[r].lemma_finishing_keeps(finished, other.inner@[r], path, name, value);
        }
        assert forall|j: int| 0 <= j < other.inner@.len() implies (
        #[trigger] other.inner@[j]).keeps_value(path, name, value) by {
            assert(self.inner@[j].keeps_value(path, name, value));
        }
    }

    proof fn lemma_advancing_keeps<F: Fn(&RegisteredDependency, &DependencyMap<V>) -> Arc<V>>(
        self,
        construct: F,
        held: Set<Seq<char>>,
        parent: Values<V>,
        visit: Visit<V>,
        other: SuiteNode<V>,
        deps: Option<Values<V>>,
        path: Seq<char>,
        name: Seq<char>,
        value: Arc<V>,
    )
        requires
            self.advanced_to(construct, held, parent, visit, other, deps),
            self.keeps_value(path, name, value),
        ensures
            other.keeps_value(path, name, value),
        decreases self,
    {
        self.advancing_keeps_values(construct, held, parent, visit, other, deps);
        if self.is_exhausted() {
        } else if self.takes_own(held) {
            assert forall|j: int| 0 <= j < other.inner@.len() implies (
            #[trigger] other.inner@[j]).keeps_value(path, name, value) by {
                assert(self.inner@[j].keeps_value(path, name, value));
            }
        } else {
            let k = Self::first_offering(self.inner@, held);
            let visible = parent.union_prefer_right(visit.values);
            let mid = visit.inner;
            Self::lemma_drop_exhausted(mid);
            assert forall|j: int| 0 <= j < other.inner@.len() implies (
            #[trigger] other.inner@[j]).keeps_value(path, name, value) by {
                assert(mid.contains(Self::unexhausted(mid)[j]));
                let i = mid.index_of(other.inner@[j]);
                assert(mid[i] == other.inner@[j]);
                let a = self.inner@[i];
                assert(a.keeps_value(path, name, value));
                if i < k {
                    a.lemma_advancing_keeps(
                        construct,
                        held,
                        visible,
                        visit.below[i],
                        mid[i],
                        None,
                        path,
                        name,
                        value,
                    );
                } else if i == k {
                    a.lemma_advancing_keeps(
                        construct,
                        held,
                        visible,
                        visit.below[i],
                        mid[i],
                        deps,
                        path,
                        name,
                        value,
                    );
                }
            }
        }
    }

    proof fn lemma_kept_value_is_given(
        self,
        held: Set<Seq<char>>,
        path: Seq<char>,
        name: Seq<char>,
        value: Arc<V>,
    )
        requires
            self.keeps_value(path, name, value),
            self.route_passes(held, path, name),
        ensures
            self.route_gives(held, name, value),
        decreases self,
    {
        if !self.takes_own(held) {
            let k = Self::first_offering(self.inner@, held);
            assert(self.inner@[k].keeps_value(path, name, value));
            if self.inner@[k].route_passes(held, path, name) {
                self.inner@[k].lemma_kept_value_is_given(held, path, name, value);
            }
        }
    }

    /// Providing a value never moves a suite: the suite at a path is the one that was there before,
    /// with the value if it registers the dependency.
    pub proof fn providing_keeps_suites(
        self,
        id: Seq<char>,
        value: Arc<V>,
        other: SuiteNode<V>,
        path: Seq<char>,
    )
        requires
            self.provided_to(id, value, other),
        ensures
            self.node_at(path) is Some <==> other.node_at(path) is Some,
            self.node_at(path) matches Some(node) ==> node.provided_to(
                id,
                value,
                other.node_at(path)->0,
            ),
        decreases self,
    {
        if self.crate_and_module@ != path {
            Self::lemma_route(self.inner@, path);
            Self::lemma_route(other.inner@, path);
            let r = Self::route(self.inner@, path);
            assert forall|j: int| 0 <= j < self.inner@.len() implies (
            #[trigger] other.inner@[j]).crate_and_module == self.inner@[j].crate_and_module by {
                assert(self.inner@[j].provided_to(id, value, other.inner@[j]));
            }
            Self::lemma_route_is(other.inner@, path, r);
            if r < self.inner@.len() {
                self.inner@[r].providing_keeps_suites(id, value, other.inner@[r], path);
            }
        }
    }

    /// What a suite has after its missing values were constructed: what it had before, and values
    /// for names of its dependencies only.
    proof fn lemma_materialized<F: Fn(&RegisteredDependency, &DependencyMap<V>) -> Arc<V>>(
        self,
        construct: F,
        parent: Values<V>,
        values: Values<V>,
        name: Seq<char>,
    )
        requires
            self.materialized_as(construct, parent, values),
        ensures
            self.materialized_dependencies@.submap_of(values),
            self.lacks(name) ==> !values.contains_key(name),
    {
        let deps = internal::dependency_views(self.dependencies@);
        if !self.complete_with(self.materialized_dependencies@) {
            let order = choose|order: Seq<usize>|
                order::is_construction_order(deps, order) && #[trigger]
                    materialize::constructs_all(
                    construct,
                    deps,
                    order,
                    parent,
                    self.materialized_dependencies@,
                    values,
                );
            materialize::constructing_keeps_values(
                construct,
                deps,
                order,
                parent,
                self.materialized_dependencies@,
                values,
            );
            if values.contains_key(name) && self.lacks(name) {
                let i = choose|i: int|
                    0 <= i < order.len() && deps[#[trigger] order[i] as int].name == name;
                assert(deps[order[i] as int].name != name);
            }
        }
    }

    proof fn lemma_lacking_hands_down<F: Fn(&RegisteredDependency, &DependencyMap<V>) -> Arc<V>>(
        self,
        construct: F,
        held: Set<Seq<char>>,
        parent: Values<V>,
        visit: Visit<V>,
        other: SuiteNode<V>,
        deps: Values<V>,
        name: Seq<char>,
        value: Arc<V>,
    )
        requires
            self.advanced_to(construct, held, parent, visit, other, Some(deps)),
            self.route_lacks(held, name),
            parent.contains_pair(name, value),
        ensures
            deps.contains_pair(name, value),
        decreases self,
    {
        self.lemma_materialized(construct, parent, visit.values, name);
        if !self.takes_own(held) {
            let k = Self::first_offering(self.inner@, held);
            self.inner@[k].lemma_lacking_hands_down(
                construct,
                held,
                parent.union_prefer_right(visit.values),
                visit.below[k],
                visit.inner[k],
                deps,
                name,
                value,
            );
        }
    }

    /// The next test sees the value that the innermost of its suites with this name has.
    pub proof fn innermost_value_is_seen<
        F: Fn(&RegisteredDependency, &DependencyMap<V>) -> Arc<V>,
    >(
        self,
        construct: F,
        held: Set<Seq<char>>,
        parent: Values<V>,
        visit: Visit<V>,
        other: SuiteNode<V>,
        deps: Values<V>,
        name: Seq<char>,
        value: Arc<V>,
    )
        requires
            self.advanced_to(construct, held, parent, visit, other, Some(deps)),
            self.route_gives(held, name, value),
        ensures
            deps.contains_pair(name, value),
        decreases self,
    {
        self.lemma_materialized(construct, parent, visit.values, name);
        if !self.takes_own(held) {
            let k = Self::first_offering(self.inner@, held);
            let visible = parent.union_prefer_right(visit.values);
            if self.inner@[k].route_gives(held, name, value) {
                self.inner@[k].innermost_value_is_seen(
                    construct,
                    held,
                    visible,
                    visit.below[k],
                    visit.inner[k],
                    deps,
                    name,
                    value,
                );
            } else {
                self.inner@[k].lemma_lacking_hands_down(
                    construct,
                    held,
                    visible,
                    visit.below[k],
                    visit.inner[k],
                    deps,
                    name,
                    value,
                );
            }
        }
    }
}

proof fn lemma_path_join_names(path: Seq<char>, a: Seq<char>, b: Seq<char>)
    requires
        internal::path_join(path, a) == internal::path_join(path, b),
    ensures
        a == b,
{
    let start = path + internal::colons();
    if path.len() > 0 && a.len() > 0 && b.len() > 0 {
        assert((start + a).skip(start.len() as int) =~= a);
        assert((start + b).skip(start.len() as int) =~= b);
    } else if path.len() > 0 {
        assert((start + a).len() > path.len() || a.len() == 0);
        assert((start + b).len() > path.len() || b.len() == 0);
        assert(a =~= b);
    }
}

/// What may happen to a plan while it is carried out: a test is looked for, a test goes back, or a
/// value is provided for a dependency other than the one with this identifier.
pub open spec fn goes_on<V, F: Fn(&RegisteredDependency, &DependencyMap<V>) -> Arc<V>>(
    construct: F,
    id: Seq<char>,
    before: TestSuiteExecution<V>,
    after: TestSuiteExecution<V>,
) -> bool {
    ||| exists|next: Option<TestExecution<V>>| #[trigger] before.picks(construct, next, after)
    ||| exists|done: TestExecution<V>| #[trigger] before.takes_back(done, after)
    ||| exists|other: Seq<char>, given: Arc<V>|
        other != id && #[trigger] before.provides(other, given, after)
}

pub proof fn lemma_goes_on<V, F: Fn(&RegisteredDependency, &DependencyMap<V>) -> Arc<V>>(
    construct: F,
    path: Seq<char>,
    name: Seq<char>,
    value: Arc<V>,
    before: TestSuiteExecution<V>,
    after: TestSuiteExecution<V>,
)
    requires
        before.wf(),
        before.root.keeps_value(path, name, value),
        goes_on(construct, internal::path_join(path, name), before, after),
    ensures
        after.wf(),
        after.root.keeps_value(path, name, value),
{
    let id = internal::path_join(path, name);
    if exists|next: Option<TestExecution<V>>| #[trigger] before.picks(construct, next, after) {
        let next = choose|next: Option<TestExecution<V>>| #[trigger]
            before.picks(construct, next, after);
        let visit = choose|visit: Visit<V>| #[trigger]
            before.root.advanced_to(
                construct,
                pick::held_set(before.held@),
                Map::empty(),
                visit,
                after.root,
                visible_to(next),
            );
        before.root.lemma_advancing_keeps(
            construct,
            pick::held_set(before.held@),
            Map::empty(),
            visit,
            after.root,
            visible_to(next),
            path,
            name,
            value,
        );
    } else if exists|done: TestExecution<V>| #[trigger] before.takes_back(done, after) {
        let done = choose|done: TestExecution<V>| #[trigger] before.takes_back(done, after);
        before.root.lemma_finishing_keeps(done.suite@, after.root, path, name, value);
    } else {
        let (other, given) = choose|other: Seq<char>, given: Arc<V>|
            other != id && #[trigger] before.provides(other, given, after);
        if before.root.identifies(other) {
            let mid = choose|mid: SuiteNode<V>| #[trigger]
                before.root.provided_to(other, given, mid) && mid.pruned_to(after.root);
            before.root.lemma_providing_another_keeps(other, given, mid, path, name, value);
            mid.lemma_pruning_keeps(after.root, path, name, value);
        }
    }
}

pub proof fn lemma_keeps_all_along<V, F: Fn(&RegisteredDependency, &DependencyMap<V>) -> Arc<V>>(
    construct: F,
    path: Seq<char>,
    name: Seq<char>,
    value: Arc<V>,
    states: Seq<TestSuiteExecution<V>>,
    k: int,
)
    requires
        0 <= k < states.len(),
        states[0].wf(),
        states[0].root.keeps_value(path, name, value),
        forall|i: int|
            0 <= i < states.len() - 1 ==> goes_on(
                construct,
                internal::path_join(path, name),
                #[trigger] states[i],
                states[i + 1],
            ),
    ensures
        states[k].wf(),
        states[k].root.keeps_value(path, name, value),
    decreases k,
{
    if k > 0 {
        lemma_keeps_all_along(construct, path, name, value, states, k - 1);
        assert(goes_on(
            construct,
            internal::path_join(path, name),
            states[k - 1],
            states[k - 1 + 1],
        ));
        lemma_goes_on(construct, path, name, value, states[k - 1], states[k]);
    }
}

/// A value that was provided for a dependency is what every test at or below the suite of the
/// dependency sees under its name from then on, however the plan went on in between, unless a suite
/// further in has a dependency or a value of that name: no constructor replaces what was provided.
pub proof fn provided_value_is_seen<
    V,
    F: Fn(&RegisteredDependency, &DependencyMap<V>) -> Arc<V>,
>(
    plan: TestSuiteExecution<V>,
    path: Seq<char>,
    name: Seq<char>,
    value: Arc<V>,
    states: Seq<TestSuiteExecution<V>>,
    construct: F,
    next: TestExecution<V>,
    after: TestSuiteExecution<V>,
)
    requires
        plan.wf(),
        plan.root.identifies(internal::path_join(path, name)),
        plan.root.registers_at(path, internal::path_join(path, name)),
        states.len() > 0,
        plan.provides(internal::path_join(path, name), value, states[0]),
        forall|i: int|
            0 <= i < states.len() - 1 ==> goes_on(
                construct,
                internal::path_join(path, name),
                #[trigger] states[i],
                states[i + 1],
            ),
        states.last().picks(construct, Some(next), after),
        states.last().root.route_passes(pick::held_set(states.last().held@), path, name),
    ensures
        next.deps@.contains_pair(name, value),
{
    let id = internal::path_join(path, name);
    let mid = choose|mid: SuiteNode<V>| #[trigger]
        plan.root.provided_to(id, value, mid) && mid.pruned_to(states[0].root);
    plan.root.lemma_provided_keeps(value, mid, path, name);
    mid.lemma_pruning_keeps(states[0].root, path, name, value);
    let now = states.last();
    lemma_keeps_all_along(construct, path, name, value, states, states.len() - 1);
    let held = pick::held_set(now.held@);
    now.root.lemma_kept_value_is_given(held, path, name, value);
    let visit = choose|visit: Visit<V>| #[trigger]
        now.root.advanced_to(
            construct,
            held,
            Map::empty(),
            visit,
            after.root,
            visible_to(Some(next)),
        );
    now.root.innermost_value_is_seen(
        construct,
        held,
        Map::empty(),
        visit,
        after.root,
        next.deps@,
        name,
        value,
    );
}

/// Providing a value changes the values of no suite that does not register the dependency, also
/// where one of its own dependencies has the same name, and it does not change the next test.
pub proof fn namesakes_are_untouched<V>(
    plan: TestSuiteExecution<V>,
    id: Seq<char>,
    value: Arc<V>,
    provided: TestSuiteExecution<V>,
    path: Seq<char>,
)
    requires
        plan.provides(id, value, provided),
    ensures
        provided.next() == plan.next(),
        plan.root.node_at(path) matches Some(node) ==> {
            &&& provided.root.node_at(path) is Some
            &&& provide::first_identified(internal::dependency_views(node.dependencies@), id)
                >= node.dependencies@.len() ==> provided.root.node_at(
                path,
            )->0.materialized_dependencies@ == node.materialized_dependencies@
        },
{
    if plan.root.identifies(id) {
        let held = pick::held_set(plan.held@);
        let mid = choose|mid: SuiteNode<V>| #[trigger]
            plan.root.provided_to(id, value, mid) && mid.pruned_to(provided.root);
        plan.root.providing_keeps_the_choice(id, value, mid, held);
        mid.pruning_keeps_the_choice(provided.root, held);
        plan.root.providing_keeps_suites(id, value, mid, path);
        mid.pruning_keeps_suites(provided.root, path);
    }
}

} // verus!
