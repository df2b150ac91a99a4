//! How tests are handed out.
use super::selecting::is_benchmark;
use super::words::{at_or_in, colons, is_clear, lemma_clear};
use crate::args::Arguments;
use crate::execution::materialize::Values;
use crate::execution::node::{SequentialExecutionLock, SuiteNode};
use crate::execution::path;
use crate::execution::pick;
use crate::execution::pick::{SequentialExecutionLockGuard, Visit};
use crate::execution::plan;
use crate::execution::run::{is_run, PlanStep};
use crate::execution::suite::{visible_to, TestExecution, TestSuiteExecution};
use crate::execution::values::DependencyMap;
use crate::internal;
use crate::internal::{
    RegisteredDependency, RegisteredTest, RegisteredTestSuiteProperty,
};
use crate::text;
use std::sync::Arc;
use vstd::prelude::*;

verus! {

impl<V> SuiteNode<V> {
    /// All suites at the path and below it, as far as they stand here or below, are sequential and
    /// under the lock of this owner.
    pub open spec fn guards(self, p: Seq<char>, owner: Seq<char>) -> bool
        decreases self,
    {
        let here = self.crate_and_module@;
        &&& path::encloses(p, here) && path::is_unambiguous(here) ==> self.is_sequential
            && self.sequential_lock.owner@ == owner
        &&& forall|j: int|
            0 <= j < self.inner@.len() ==> (#[trigger] self.inner@[j]).guards(p, owner)
    }

    /// All suites here and below are sequential and under this lock.
    pub open spec fn all_under(self, lock: SequentialExecutionLock) -> bool
        decreases self,
    {
        &&& self.is_sequential
        &&& self.sequential_lock == lock
        &&& forall|j: int| 0 <= j < self.inner@.len() ==> (#[trigger] self.inner@[j]).all_under(lock)
    }

    proof fn lemma_under_guards(self, lock: SequentialExecutionLock, p: Seq<char>)
        requires
            self.all_under(lock),
        ensures
            self.guards(p, lock.owner@),
        decreases self,
    {
        assert forall|j: int| 0 <= j < self.inner@.len() implies (#[trigger] self.inner@[j]).guards(
            p,
            lock.owner@,
        ) by {
            self.inner@[j].lemma_under_guards(lock, p);
        }
    }

    proof fn lemma_handed_to_all(self, lock: SequentialExecutionLock, other: SuiteNode<V>)
        requires
            self.handed_down_to(Some(lock), other),
        ensures
            other.all_under(lock),
        decreases self,
    {
        assert forall|j: int| 0 <= j < other.inner@.len() implies (
        #[trigger] other.inner@[j]).all_under(lock) by {
            assert(self.inner@[j].handed_down_to(other.lock_for_children(), other.inner@[j]));
            self.inner@[j].lemma_handed_to_all(lock, other.inner@[j]);
        }
    }

    /// No suite here or below is at the path or below it.
    proof fn lemma_elsewhere(
        self,
        from: Seq<char>,
        way: Seq<char>,
        p: Seq<char>,
        owner: Seq<char>,
        top: Seq<char>,
        other: SuiteNode<V>,
        inherited: Option<SequentialExecutionLock>,
    )
        requires
            self.wf(),
            self.handed_down_to(inherited, other),
            path::directly_below(from, top),
            path::directly_below(from, way),
            top != way,
            path::encloses(way, p),
            path::encloses(top, self.crate_and_module@),
        ensures
            other.guards(p, owner),
        decreases self,
    {
        let here = self.crate_and_module@;
        if path::encloses(p, here) && path::is_unambiguous(here) {
            lemma_encloses_on(way, p, here);
            path::lemma_one_way(from, top, way, here);
        }
        assert forall|j: int| 0 <= j < other.inner@.len() implies (#[trigger] other.inner@[j]).guards(
            p,
            owner,
        ) by {
            let child = self.inner@[j];
            assert(child.handed_down_to(other.lock_for_children(), other.inner@[j]));
            assert(child.wf());
            lemma_encloses_on(top, here, child.crate_and_module@);
            child.lemma_elsewhere(
                from,
                way,
                p,
                owner,
                top,
                other.inner@[j],
                other.lock_for_children(),
            );
        }
    }

    proof fn lemma_sequential_suite_is_guarded(self, other: SuiteNode<V>, p: Seq<char>) -> (owner:
        Seq<char>)
        requires
            self.wf(),
            self.handed_down_to(None, other),
            path::encloses(self.crate_and_module@, p),
            self.contents_at(p).is_sequential,
        ensures
            other.guards(p, owner),
        decreases self,
    {
        let here = self.crate_and_module@;
        if self.is_sequential {
            let lock = self.sequential_lock;
            assert forall|j: int| 0 <= j < other.inner@.len() implies (
            #[trigger] other.inner@[j]).all_under(lock) by {
                assert(self.inner@[j].handed_down_to(other.lock_for_children(), other.inner@[j]));
                self.inner@[j].lemma_handed_to_all(lock, other.inner@[j]);
            }
            assert(other.all_under(lock));
            other.lemma_under_guards(lock, p);
            lock.owner@
        } else {
            assert(here != p);
            Self::lemma_route(self.inner@, p);
            let r = Self::route(self.inner@, p);
            let child = self.inner@[r];
            assert(child.handed_down_to(other.lock_for_children(), other.inner@[r]));
            assert(child.wf());
            let owner = child.lemma_sequential_suite_is_guarded(other.inner@[r], p);
            assert forall|j: int| 0 <= j < other.inner@.len() implies (
            #[trigger] other.inner@[j]).guards(p, owner) by {
                let sibling = self.inner@[j];
                assert(sibling.handed_down_to(other.lock_for_children(), other.inner@[j]));
                assert(sibling.wf());
                if j != r {
                    sibling.lemma_elsewhere(
                        here,
                        child.crate_and_module@,
                        p,
                        owner,
                        sibling.crate_and_module@,
                        other.inner@[j],
                        None,
                    );
                }
            }
            if path::encloses(p, here) {
                path::lemma_encloses_shorter(p, here);
                path::lemma_encloses_shorter(here, p);
            }
            owner
        }
    }

    proof fn lemma_guarded_choice(self, held: Set<Seq<char>>, p: Seq<char>, owner: Seq<char>)
        requires
            self.wf(),
            self.guards(p, owner),
        ensures
            self.next(held) matches Some(choice) ==> {
                &&& choice.suite == choice.test.crate_and_module()
                &&& path::encloses(p, choice.suite) && path::is_unambiguous(choice.suite)
                    ==> choice.lock == Some(owner)
            },
        decreases self,
    {
        if self.takes_own(held) {
            let n = self.tests@.len() - 1;
            assert(self.tests@[n]@.crate_and_module() == self.crate_and_module@);
        } else {
            Self::lemma_first_offering(self.inner@, held);
            let k = Self::first_offering(self.inner@, held);
            if k < self.inner@.len() {
                self.inner@[k].lemma_guarded_choice(held, p, owner);
            }
        }
    }

    proof fn lemma_advancing_keeps_guards<
        F: Fn(&RegisteredDependency, &DependencyMap<V>) -> Arc<V>,
    >(
        self,
        construct: F,
        held: Set<Seq<char>>,
        parent: Values<V>,
        visit: Visit<V>,
        other: SuiteNode<V>,
        deps: Option<Values<V>>,
        p: Seq<char>,
        owner: Seq<char>,
    )
        requires
            self.guards(p, owner),
            self.advanced_to(construct, held, parent, visit, other, deps),
        ensures
            other.guards(p, owner),
        decreases self,
    {
        if !self.is_exhausted() && !self.takes_own(held) {
            let k = Self::first_offering(self.inner@, held);
            Self::lemma_first_offering(self.inner@, held);
            let visible = parent.union_prefer_right(visit.values);
            let mid = visit.inner;
            assert forall|i: int| 0 <= i < mid.len() implies (#[trigger] mid[i]).guards(
                p,
                owner,
            ) by {
                let a = self.inner@[i];
                assert(a.guards(p, owner));
                if i <= k {
                    let got = if i < k {
                        None
                    } else {
                        deps
                    };
                    a.lemma_advancing_keeps_guards(
                        construct,
                        held,
                        visible,
                        visit.below[i],
                        mid[i],
                        got,
                        p,
                        owner,
                    );
                }
            }
            Self::lemma_drop_exhausted(mid);
            assert forall|i: int| 0 <= i < other.inner@.len() implies (
            #[trigger] other.inner@[i]).guards(p, owner) by {
                assert(mid.contains(Self::unexhausted(mid)[i]));
                let j = mid.index_of(other.inner@[i]);
                assert(mid[j] == other.inner@[i]);
            }
        }
    }

    proof fn lemma_finishing_keeps_guards(
        self,
        at: Seq<char>,
        other: SuiteNode<V>,
        p: Seq<char>,
        owner: Seq<char>,
    )
        requires
            self.guards(p, owner),
            self.finished_to(at, other),
        ensures
            other.guards(p, owner),
        decreases self,
    {
        let r = Self::route(self.inner@, at);
        if self.crate_and_module@ != at && 0 <= r < self.inner@.len() {
            self.inner@[r].lemma_finishing_keeps_guards(at, other.inner@[r], p, owner);
            assert forall|j: int| 0 <= j < other.inner@.len() implies (
            #[trigger] other.inner@[j]).guards(p, owner) by {
                if j != r {
                    assert(other.inner@[j] == self.inner@[j]);
                }
            }
        }
    }

    proof fn lemma_providing_keeps_guards(
        self,
        id: Seq<char>,
        value: Arc<V>,
        other: SuiteNode<V>,
        p: Seq<char>,
        owner: Seq<char>,
    )
        requires
            self.guards(p, owner),
            self.provided_to(id, value, other),
        ensures
            other.guards(p, owner),
        decreases self,
    {
        assert forall|j: int| 0 <= j < other.inner@.len() implies (#[trigger] other.inner@[j]).guards(
            p,
            owner,
        ) by {
            assert(self.inner@[j].provided_to(id, value, other.inner@[j]));
            self.inner@[j].lemma_providing_keeps_guards(id, value, other.inner@[j], p, owner);
        }
    }

    proof fn lemma_pruning_keeps_guards(
        self,
        other: SuiteNode<V>,
        p: Seq<char>,
        owner: Seq<char>,
    )
        requires
            self.guards(p, owner),
            self.pruned_to(other),
        ensures
            other.guards(p, owner),
        decreases self,
    {
        assert forall|j: int| 0 <= j < other.inner@.len() implies (#[trigger] other.inner@[j]).guards(
            p,
            owner,
        ) by {
            assert(self.inner@[j].pruned_to(other.inner@[j]));
            self.inner@[j].lemma_pruning_keeps_guards(other.inner@[j], p, owner);
        }
    }
}

proof fn lemma_encloses_on(a: Seq<char>, b: Seq<char>, c: Seq<char>)
    requires
        path::encloses(a, b),
        path::encloses(b, c),
    ensures
        path::encloses(a, c),
{
    if a.len() > 0 && a != b && b != c {
        let pre = a + internal::colons();
        let n = pre.len() as int;
        let whole = b + internal::colons();
        assert(b.subrange(0, 0 + n) == pre);
        assert(c.subrange(0, 0 + whole.len() as int) == whole);
        assert forall|i: int| 0 <= i < n implies c[i] == pre[i] by {
            assert(c.subrange(0, whole.len() as int)[i] == whole[i]);
            assert(b.subrange(0, n)[i] == pre[i]);
        }
        assert(c.subrange(0, 0 + n) =~= pre);
    }
}

/// The test stands in the module of the crate, or in a module in it.
pub open spec fn stands_in(test: RegisteredTest, c: Seq<char>, m: Seq<char>) -> bool {
    &&& test.crate_name@ == c
    &&& m.len() == 0 || at_or_in(test.module@, m)
}

pub proof fn lemma_stands_in(test: RegisteredTest, c: Seq<char>, m: Seq<char>)
    requires
        c.len() > 0,
        stands_in(test, c, m),
    ensures
        path::encloses(internal::path_join(c, m), test@.crate_and_module()),
{
    let p = internal::path_join(c, m);
    let path = test@.crate_and_module();
    if m.len() == 0 {
        if test.module@.len() > 0 {
            assert(path.subrange(0, 0 + (c + internal::colons()).len() as int) =~= c
                + internal::colons());
        }
    } else if test.module@ != m {
        let rest = choose|rest: Seq<char>| test.module@ == #[trigger] (m + colons() + rest);
        assert(path =~= (p + internal::colons()) + rest);
        let pre = p + internal::colons();
        assert(path.subrange(0, 0 + pre.len() as int) =~= pre);
    }
}

/// The lock that goes with one test is not the one that goes with the other.
pub open spec fn other_lock<V>(a: TestExecution<V>, b: TestExecution<V>) -> bool {
    !(a.lock matches SequentialExecutionLockGuard::Locked(x)
        && b.lock matches SequentialExecutionLockGuard::Locked(y) && x.owner@ == y.owner@)
}

proof fn lemma_guarded_step<V, F: Fn(&RegisteredDependency, &DependencyMap<V>) -> Arc<V>>(
    step: PlanStep<V>,
    construct: F,
    before: TestSuiteExecution<V>,
    after: TestSuiteExecution<V>,
    p: Seq<char>,
    owner: Seq<char>,
)
    requires
        step.leads(construct, before, after),
        before.wf(),
        before.root.guards(p, owner),
    ensures
        after.wf(),
        after.root.guards(p, owner),
        step.given() matches Some(next) ==> {
            let q = next.test@.crate_and_module();
            path::encloses(p, q) && path::is_unambiguous(q) ==> {
                &&& next.lock.owner() == Some(owner)
                &&& !pick::held_set(before.held@).contains(owner)
                &&& pick::held_set(after.held@).contains(owner)
            }
        },
        pick::held_set(before.held@).contains(owner) ==> pick::held_set(after.held@).contains(owner)
            || (step matches PlanStep::Finished(done) && done.lock.owner() == Some(owner)),
{
    let held = pick::held_set(before.held@);
    let (x, y) = (text::views(before.held@), text::views(after.held@));
    match step {
        PlanStep::Picked(next) => {
            let visit = choose|visit: Visit<V>| #[trigger]
                before.root.advanced_to(
                    construct,
                    held,
                    Map::empty(),
                    visit,
                    after.root,
                    visible_to(next),
                );
            before.root.lemma_advancing_keeps_guards(
                construct,
                held,
                Map::empty(),
                visit,
                after.root,
                visible_to(next),
                p,
                owner,
            );
            before.root.lemma_guarded_choice(held, p, owner);
            before.root.choice_takes_a_free_lock(held);
            if held.contains(owner) {
                let i = x.index_of(owner);
                assert(y[i] == owner);
            }
            if next is Some && next->0.lock.owner() is Some {
                assert(y[x.len() as int] == next->0.lock.owner()->0);
            }
        },
        PlanStep::Finished(done) => {
            before.root.lemma_finishing_keeps_guards(done.suite@, after.root, p, owner);
        },
        PlanStep::Provided(id, value) => {
            if before.root.identifies(id@) {
                let mid = choose|mid: SuiteNode<V>| #[trigger]
                    before.root.provided_to(id@, value, mid) && mid.pruned_to(after.root);
                before.root.lemma_providing_keeps_guards(id@, value, mid, p, owner);
                mid.lemma_pruning_keeps_guards(after.root, p, owner);
            }
        },
    }
}

proof fn lemma_guarded_run<V, F: Fn(&RegisteredDependency, &DependencyMap<V>) -> Arc<V>>(
    construct: F,
    plans: Seq<TestSuiteExecution<V>>,
    steps: Seq<PlanStep<V>>,
    p: Seq<char>,
    owner: Seq<char>,
    k: int,
)
    requires
        is_run(construct, plans, steps),
        plans[0].wf(),
        plans[0].root.guards(p, owner),
        0 <= k < plans.len(),
    ensures
        plans[k].wf(),
        plans[k].root.guards(p, owner),
    decreases k,
{
    if k > 0 {
        lemma_guarded_run(construct, plans, steps, p, owner, k - 1);
        assert(steps[k - 1].leads(construct, plans[k - 1], plans[k - 1 + 1]));
        lemma_guarded_step(steps[k - 1], construct, plans[k - 1], plans[k], p, owner);
    }
}

proof fn lemma_still_held<V, F: Fn(&RegisteredDependency, &DependencyMap<V>) -> Arc<V>>(
    construct: F,
    plans: Seq<TestSuiteExecution<V>>,
    steps: Seq<PlanStep<V>>,
    p: Seq<char>,
    owner: Seq<char>,
    first: TestExecution<V>,
    i: int,
    k: int,
)
    requires
        is_run(construct, plans, steps),
        plans[0].wf(),
        plans[0].root.guards(p, owner),
        0 <= i < k < plans.len(),
        steps[i].given() == Some(first),
        path::encloses(p, first.test@.crate_and_module()),
        path::is_unambiguous(first.test@.crate_and_module()),
        forall|j: int|
            i < j < k ==> ((#[trigger] steps[j]) matches PlanStep::Finished(done) ==> other_lock(
                first,
                done,
            )),
    ensures
        pick::held_set(plans[k].held@).contains(owner),
    decreases k,
{
    lemma_guarded_run(construct, plans, steps, p, owner, i);
    assert(steps[i].leads(construct, plans[i], plans[i + 1]));
    lemma_guarded_step(steps[i], construct, plans[i], plans[i + 1], p, owner);
    if k > i + 1 {
        lemma_still_held(construct, plans, steps, p, owner, first, i, k - 1);
        lemma_guarded_run(construct, plans, steps, p, owner, k - 1);
        assert(steps[k - 1].leads(construct, plans[k - 1], plans[k - 1 + 1]));
        lemma_guarded_step(steps[k - 1], construct, plans[k - 1], plans[k], p, owner);
    }
}

proof fn lemma_one_at_a_time<V, F: Fn(&RegisteredDependency, &DependencyMap<V>) -> Arc<V>>(
    arguments: Arguments,
    dependencies: Vec<RegisteredDependency>,
    tests: Vec<RegisteredTest>,
    props: Vec<RegisteredTestSuiteProperty>,
    filtered: Vec<RegisteredTest>,
    construct: F,
    plans: Seq<TestSuiteExecution<V>>,
    steps: Seq<PlanStep<V>>,
    c: Seq<char>,
    m: Seq<char>,
    i: int,
    k: int,
    first: TestExecution<V>,
    second: TestExecution<V>,
)
    requires
        TestSuiteExecution::constructs(
            arguments@,
            dependencies@,
            tests@,
            props@,
            plans[0],
            filtered@,
        ),
        filtered@.len() > 0,
        plan::planned(
            internal::dependency_views(dependencies@),
            internal::test_views(filtered@),
            props@,
            internal::path_join(c, m),
        ).is_sequential,
        is_run(construct, plans, steps),
        0 <= i < k < steps.len(),
        steps[i] == PlanStep::Picked(Some(first)),
        steps[k] == PlanStep::Picked(Some(second)),
        c.len() > 0,
        is_clear(first.test@.crate_and_module()),
        is_clear(second.test@.crate_and_module()),
        forall|j: int|
            i < j < k ==> ((#[trigger] steps[j]) matches PlanStep::Finished(done) ==> other_lock(
                first,
                done,
            )),
        stands_in(first.test, c, m),
    ensures
        !stands_in(second.test, c, m),
{
    let p = internal::path_join(c, m);
    plans[0].root.counted_tests_are_held();
    plan::chosen(arguments@, tests@, props@).to_multiset_ensures();
    let deps = internal::dependency_views(dependencies@);
    let order = internal::test_views(filtered@);
    let (tree, locked) = choose|tree: SuiteNode<V>, locked: SuiteNode<V>|
        #[trigger] plan::plan_steps(tree, locked, plans[0].root, deps, order, props@);
    assert(tree.contents_at(p) == plan::planned(deps, order, props@, p));
    let owner = tree.lemma_sequential_suite_is_guarded(locked, p);
    locked.lemma_pruning_keeps_guards(plans[0].root, p, owner);
    if stands_in(second.test, c, m) {
        lemma_stands_in(first.test, c, m);
        lemma_stands_in(second.test, c, m);
        lemma_clear(first.test@.crate_and_module());
        lemma_clear(second.test@.crate_and_module());
        lemma_still_held(construct, plans, steps, p, owner, first, i, k);
        lemma_guarded_run(construct, plans, steps, p, owner, k);
        assert(steps[k].leads(construct, plans[k], plans[k + 1]));
        lemma_guarded_step(steps[k], construct, plans[k], plans[k + 1], p, owner);
    }
}

/// Benchmarks are run alone: where a benchmark is selected, no two tests of its module, or of modules
/// in it, are handed out at once. As long as the lock of the first one was not given back, none of the
/// others is handed out.
pub proof fn benchmarks_run_alone<V, F: Fn(&RegisteredDependency, &DependencyMap<V>) -> Arc<V>>(
    arguments: Arguments,
    dependencies: Vec<RegisteredDependency>,
    tests: Vec<RegisteredTest>,
    props: Vec<RegisteredTestSuiteProperty>,
    filtered: Vec<RegisteredTest>,
    construct: F,
    plans: Seq<TestSuiteExecution<V>>,
    steps: Seq<PlanStep<V>>,
    b: int,
    i: int,
    k: int,
    first: TestExecution<V>,
    second: TestExecution<V>,
)
    requires
        call_ensures(
            TestSuiteExecution::<V>::construct,
            (&arguments, &dependencies, &tests, &props),
            (plans[0], filtered),
        ),
        plans.len() == steps.len() + 1,
        forall|n: int|
            0 <= n < steps.len() ==> match #[trigger] steps[n] {
                PlanStep::Picked(next) => exists|plan: &mut TestSuiteExecution<V>|
                    {
                        &&& *plan == plans[n]
                        &&& *final(plan) == plans[n + 1]
                        &&& #[trigger] call_ensures(
                            TestSuiteExecution::<V>::pick_next_sync::<F>,
                            (plan, &construct),
                            next,
                        )
                    },
                PlanStep::Finished(done) => exists|plan: &mut TestSuiteExecution<V>|
                    {
                        &&& *plan == plans[n]
                        &&& *final(plan) == plans[n + 1]
                        &&& #[trigger] call_ensures(
                            TestSuiteExecution::<V>::finish,
                            (plan, done),
                            (),
                        )
                    },
                PlanStep::Provided(id, value) => exists|
                    plan: &mut TestSuiteExecution<V>,
                    dep_id: &str,
                    applied: bool,
                |
                    {
                        &&& *plan == plans[n]
                        &&& *final(plan) == plans[n + 1]
                        &&& dep_id@ == id@
                        &&& #[trigger] call_ensures(
                            TestSuiteExecution::<V>::provide_cloneable_value,
                            (plan, dep_id, value),
                            applied,
                        )
                    },
            },
        0 <= b < filtered@.len(),
        is_benchmark(filtered@[b]),
        filtered@[b].crate_name@.len() > 0,
        0 <= i < k < steps.len(),
        steps[i] == PlanStep::Picked(Some(first)),
        steps[k] == PlanStep::Picked(Some(second)),
        is_clear(first.test@.crate_and_module()),
        is_clear(second.test@.crate_and_module()),
        forall|j: int|
            i < j < k ==> ((#[trigger] steps[j]) matches PlanStep::Finished(done) ==> other_lock(
                first,
                done,
            )),
        stands_in(first.test, filtered@[b].crate_name@, filtered@[b].module@),
    ensures
        !stands_in(second.test, filtered@[b].crate_name@, filtered@[b].module@),
{
    let (c, m) = (filtered@[b].crate_name@, filtered@[b].module@);
    assert(internal::test_views(filtered@)[b].crate_and_module() == internal::path_join(c, m));
    assert forall|n: int| 0 <= n < steps.len() implies (#[trigger] steps[n]).leads(
        construct,
        plans[n],
        plans[n + 1],
    ) by {}
    lemma_one_at_a_time(
        arguments,
        dependencies,
        tests,
        props,
        filtered,
        construct,
        plans,
        steps,
        c,
        m,
        i,
        k,
        first,
        second,
    );
}

/// The tests of a sequential suite, and of the suites in it, are run one at a time: as long as the lock
/// of one was not given back, none of the others is handed out.
pub proof fn sequential_suite_runs_one_test_at_a_time<
    V,
    F: Fn(&RegisteredDependency, &DependencyMap<V>) -> Arc<V>,
>(
    arguments: Arguments,
    dependencies: Vec<RegisteredDependency>,
    tests: Vec<RegisteredTest>,
    props: Vec<RegisteredTestSuiteProperty>,
    filtered: Vec<RegisteredTest>,
    construct: F,
    plans: Seq<TestSuiteExecution<V>>,
    steps: Seq<PlanStep<V>>,
    s: int,
    c: Seq<char>,
    m: Seq<char>,
    i: int,
    k: int,
    first: TestExecution<V>,
    second: TestExecution<V>,
)
    requires
        call_ensures(
            TestSuiteExecution::<V>::construct,
            (&arguments, &dependencies, &tests, &props),
            (plans[0], filtered),
        ),
        plans.len() == steps.len() + 1,
        forall|n: int|
            0 <= n < steps.len() ==> match #[trigger] steps[n] {
                PlanStep::Picked(next) => exists|plan: &mut TestSuiteExecution<V>|
                    {
                        &&& *plan == plans[n]
                        &&& *final(plan) == plans[n + 1]
                        &&& #[trigger] call_ensures(
                            TestSuiteExecution::<V>::pick_next_sync::<F>,
                            (plan, &construct),
                            next,
                        )
                    },
                PlanStep::Finished(done) => exists|plan: &mut TestSuiteExecution<V>|
                    {
                        &&& *plan == plans[n]
                        &&& *final(plan) == plans[n + 1]
                        &&& #[trigger] call_ensures(
                            TestSuiteExecution::<V>::finish,
                            (plan, done),
                            (),
                        )
                    },
                PlanStep::Provided(id, value) => exists|
                    plan: &mut TestSuiteExecution<V>,
                    dep_id: &str,
                    applied: bool,
                |
                    {
                        &&& *plan == plans[n]
                        &&& *final(plan) == plans[n + 1]
                        &&& dep_id@ == id@
                        &&& #[trigger] call_ensures(
                            TestSuiteExecution::<V>::provide_cloneable_value,
                            (plan, dep_id, value),
                            applied,
                        )
                    },
            },
        filtered@.len() > 0,
        0 <= s < props@.len(),
        c.len() > 0,
        m.len() > 0,
        props@[s] matches RegisteredTestSuiteProperty::Sequential { name, crate_name, module }
            && crate_name@ == c && (if module@.len() == 0 {
            m == name@
        } else {
            name@.len() > 0 && m == module@ + colons() + name@
        }),
        0 <= i < k < steps.len(),
        steps[i] == PlanStep::Picked(Some(first)),
        steps[k] == PlanStep::Picked(Some(second)),
        is_clear(first.test@.crate_and_module()),
        is_clear(second.test@.crate_and_module()),
        forall|j: int|
            i < j < k ==> ((#[trigger] steps[j]) matches PlanStep::Finished(done) ==> other_lock(
                first,
                done,
            )),
        stands_in(first.test, c, m),
    ensures
        !stands_in(second.test, c, m),
{
    let prop = props@[s];
    assert(prop.spec_crate_and_module() =~= internal::path_join(c, m));
    assert forall|n: int| 0 <= n < steps.len() implies (#[trigger] steps[n]).leads(
        construct,
        plans[n],
        plans[n + 1],
    ) by {}
    lemma_one_at_a_time(
        arguments,
        dependencies,
        tests,
        props,
        filtered,
        construct,
        plans,
        steps,
        c,
        m,
        i,
        k,
        first,
        second,
    );
}

} // verus!
