//! What a run hands out, from the plan that was built to the end.
use super::node::SuiteNode;
use super::pick;
use super::plan;
use super::suite::{TestExecution, TestSuiteExecution};
use super::values::DependencyMap;
use crate::args::ArgumentsModel;
use crate::internal;
use crate::internal::{
    RegisteredDependency, RegisteredTest, RegisteredTestSuiteProperty, TestModel,
};
use crate::text;
use std::sync::Arc;
use vstd::multiset::Multiset;
use vstd::prelude::*;

verus! {

/// What happens to a plan while it is carried out: a test is looked for, a test goes back, or a
/// value is provided.
#[verifier::reject_recursive_types(V)]
pub enum PlanStep<V> {
    Picked(Option<TestExecution<V>>),
    Finished(TestExecution<V>),
    Provided(String, Arc<V>),
}

impl<V> PlanStep<V> {
    /// The test that was handed out.
    pub open spec fn given(self) -> Option<TestExecution<V>> {
        match self {
            PlanStep::Picked(next) => next,
            _ => None,
        }
    }

    /// The lock of this suite was handed out with a test.
    pub open spec fn takes_lock(self, owner: Seq<char>) -> bool {
        &&& self.given() is Some
        &&& self.given()->0.lock.owner() == Some(owner)
    }

    /// The lock of this suite went back with a test.
    pub open spec fn frees_lock(self, owner: Seq<char>) -> bool {
        match self {
            PlanStep::Finished(done) => done.lock.owner() == Some(owner),
            _ => false,
        }
    }

    /// The step leads from one plan to the other.
    pub open spec fn leads<F: Fn(&RegisteredDependency, &DependencyMap<V>) -> Arc<V>>(
        self,
        construct: F,
        before: TestSuiteExecution<V>,
        after: TestSuiteExecution<V>,
    ) -> bool {
        match self {
            PlanStep::Picked(next) => before.picks(construct, next, after),
            PlanStep::Finished(done) => before.takes_back(done, after),
            PlanStep::Provided(id, value) => before.provides(id@, value, after),
        }
    }
}

/// The steps lead from each plan to the next one.
pub open spec fn is_run<V, F: Fn(&RegisteredDependency, &DependencyMap<V>) -> Arc<V>>(
    construct: F,
    plans: Seq<TestSuiteExecution<V>>,
    steps: Seq<PlanStep<V>>,
) -> bool {
    &&& plans.len() == steps.len() + 1
    &&& forall|i: int|
        0 <= i < steps.len() ==> (#[trigger] steps[i]).leads(construct, plans[i], plans[i + 1])
}

/// The tests that were handed out, one after another.
pub open spec fn handed_out<V>(steps: Seq<PlanStep<V>>) -> Seq<TestExecution<V>>
    decreases steps.len(),
{
    if steps.len() == 0 {
        Seq::empty()
    } else {
        match steps.last().given() {
            Some(next) => handed_out(steps.drop_last()).push(next),
            None => handed_out(steps.drop_last()),
        }
    }
}

/// Their tests.
pub open spec fn tests_of<V>(given: Seq<TestExecution<V>>) -> Seq<TestModel> {
    Seq::new(given.len(), |i: int| given[i].test@)
}

impl<V> SuiteNode<V> {
    /// A suite holds as many tests, here and below, as are counted.
    pub proof fn counted_tests_are_held(self)
        ensures
            self.tests_below().len() == self.total(),
        decreases self,
    {
        broadcast use vstd::seq_lib::group_to_multiset_ensures;

        internal::test_views(self.tests@).to_multiset_ensures();
        Self::lemma_counted_among(self.inner@);
    }

    proof fn lemma_counted_among(nodes: Seq<SuiteNode<V>>)
        ensures
            Self::tests_among(nodes).len() == Self::total_of(nodes),
        decreases nodes,
    {
        if nodes.len() > 0 {
            Self::lemma_counted_among(nodes.drop_last());
            nodes.last().counted_tests_are_held();
        }
    }
}

proof fn lemma_run_so_far<V, F: Fn(&RegisteredDependency, &DependencyMap<V>) -> Arc<V>>(
    construct: F,
    plans: Seq<TestSuiteExecution<V>>,
    steps: Seq<PlanStep<V>>,
)
    requires
        is_run(construct, plans, steps),
        plans[0].wf(),
        plans[0].idx == 0,
    ensures
        plans.last().wf(),
        plans.last().idx == handed_out(steps).len(),
        forall|k: int|
            0 <= k < handed_out(steps).len() ==> (#[trigger] handed_out(steps)[k]).index == k,
        tests_of(handed_out(steps)).to_multiset().add(plans.last().root.tests_below())
            == plans[0].root.tests_below(),
    decreases steps.len(),
{
    broadcast use vstd::seq_lib::group_to_multiset_ensures;

    let given = handed_out(steps);
    if steps.len() == 0 {
        assert(tests_of(given) =~= Seq::empty());
        assert(tests_of(given).to_multiset().add(plans.last().root.tests_below())
            =~= plans[0].root.tests_below());
    } else {
        let n = steps.len() - 1;
        let (init, before) = (steps.drop_last(), plans.drop_last());
        assert forall|i: int| 0 <= i < init.len() implies (#[trigger] init[i]).leads(
            construct,
            before[i],
            before[i + 1],
        ) by {
            assert(steps[i].leads(construct, plans[i], plans[i + 1]));
        }
        lemma_run_so_far(construct, before, init);
        assert(steps[n].leads(construct, plans[n], plans[n + 1]));
        assert(before.last() == plans[n]);
        let earlier = handed_out(init);
        let held = plans[n].root.tests_below();
        match steps[n].given() {
            Some(next) => {
                tests_of(earlier).to_multiset_ensures();
                assert(tests_of(given) =~= tests_of(earlier).push(next.test@));
                assert(tests_of(given).to_multiset() =~= tests_of(earlier).to_multiset().insert(
                    next.test@,
                ));
                assert(tests_of(given).to_multiset().add(held.remove(next.test@)) =~= tests_of(
                    earlier,
                ).to_multiset().add(held));
            },
            None => {
                assert(given == earlier);
                assert(plans[n + 1].root.tests_below() == held);
            },
        }
    }
}

/// Over a run the tests are numbered from zero in the order in which they are handed out, and those
/// that were handed out and those that are left are together the selected tests, each as often as it
/// was selected. When nothing is left, every selected test was handed out exactly once.
pub proof fn run_hands_out_what_was_selected<
    V,
    F: Fn(&RegisteredDependency, &DependencyMap<V>) -> Arc<V>,
>(
    arguments: ArgumentsModel,
    dependencies: Seq<RegisteredDependency>,
    tests: Seq<RegisteredTest>,
    props: Seq<RegisteredTestSuiteProperty>,
    filtered: Seq<RegisteredTest>,
    construct: F,
    plans: Seq<TestSuiteExecution<V>>,
    steps: Seq<PlanStep<V>>,
)
    requires
        is_run(construct, plans, steps),
        TestSuiteExecution::constructs(
            arguments,
            dependencies,
            tests,
            props,
            plans[0],
            filtered,
        ),
    ensures
        forall|k: int|
            0 <= k < handed_out(steps).len() ==> (#[trigger] handed_out(steps)[k]).index == k,
        handed_out(steps).len() + plans.last().root.total() == filtered.len(),
        tests_of(handed_out(steps)).to_multiset().add(plans.last().root.tests_below())
            == plan::chosen(arguments, tests, props).to_multiset(),
        plans.last().root.total() == 0 ==> tests_of(handed_out(steps)).to_multiset()
            == plan::chosen(arguments, tests, props).to_multiset(),
{
    broadcast use vstd::seq_lib::group_to_multiset_ensures;

    let given = tests_of(handed_out(steps));
    lemma_run_so_far(construct, plans, steps);
    given.to_multiset_ensures();
    plans[0].root.counted_tests_are_held();
    plans.last().root.counted_tests_are_held();
    if plans.last().root.total() == 0 {
        assert(plans.last().root.tests_below() =~= Multiset::empty());
        assert(given.to_multiset().add(Multiset::empty()) =~= given.to_multiset());
    }
}

proof fn lemma_held_since<V, F: Fn(&RegisteredDependency, &DependencyMap<V>) -> Arc<V>>(
    construct: F,
    plans: Seq<TestSuiteExecution<V>>,
    steps: Seq<PlanStep<V>>,
    k: int,
    owner: Seq<char>,
) -> (i: int)
    requires
        is_run(construct, plans, steps),
        plans[0].held@.len() == 0,
        0 <= k < plans.len(),
        pick::held_set(plans[k].held@).contains(owner),
    ensures
        0 <= i < k,
        steps[i].takes_lock(owner),
        forall|j: int| i < j < k ==> !(#[trigger] steps[j]).frees_lock(owner),
    decreases k,
{
    if k == 0 {
        assert(text::views(plans[0].held@).len() == 0);
        assert(false);
        0
    } else {
        assert(steps[k - 1].leads(construct, plans[k - 1], plans[k - 1 + 1]));
        let (a, b) = (text::views(plans[k - 1].held@), text::views(plans[k].held@));
        if steps[k - 1].takes_lock(owner) {
            k - 1
        } else {
            assert(a.contains(owner)) by {
                let p = b.index_of(owner);
                assert(b[p] == owner);
                assert(steps[k - 1] is Picked ==> p < a.len() && a[p] == owner);
                assert(steps[k - 1] is Finished ==> pick::held_set(
                    plans[k - 1].held@,
                ).contains(owner));
            }
            lemma_held_since(construct, plans, steps, k - 1, owner)
        }
    }
}

/// A run does not get stuck: while tests are left and every lock that was handed out went back
/// afterwards, the next pick gives a test.
pub proof fn run_goes_on<V, F: Fn(&RegisteredDependency, &DependencyMap<V>) -> Arc<V>>(
    construct: F,
    plans: Seq<TestSuiteExecution<V>>,
    steps: Seq<PlanStep<V>>,
)
    requires
        is_run(construct, plans, steps),
        plans[0].wf(),
        plans[0].held@.len() == 0,
        forall|i: int, owner: Seq<char>|
            0 <= i < steps.len() && #[trigger] steps[i].takes_lock(owner) ==> exists|j: int|
                i < j < steps.len() && #[trigger] steps[j].frees_lock(owner),
        plans.last().root.total() > 0,
    ensures
        plans.last().next() is Some,
{
    let held = pick::held_set(plans.last().held@);
    let n = steps.len() as int;
    assert forall|p: Seq<char>| !held.contains(p) by {
        if held.contains(p) {
            let i = lemma_held_since(construct, plans, steps, n, p);
            assert(steps[i].takes_lock(p));
        }
    }
    plans.last().root.unlocked_suite_gives_a_test(held);
}

} // verus!
