//! What a run hands out, from the first test to the last.
use crate::args::Arguments;
use crate::execution::run;
use crate::execution::run::PlanStep;
use crate::execution::suite::{TestExecution, TestSuiteExecution};
use crate::execution::values::DependencyMap;
use crate::internal;
use crate::internal::{RegisteredDependency, RegisteredTest, RegisteredTestSuiteProperty};
use std::sync::Arc;
use vstd::prelude::*;

verus! {

/// Every test that was selected is handed out exactly once before nothing is left, and nothing else is;
/// each comes with the number of those before it.
pub proof fn every_selected_test_runs_once<
    V,
    F: Fn(&RegisteredDependency, &DependencyMap<V>) -> Arc<V>,
>(
    arguments: Arguments,
    dependencies: Vec<RegisteredDependency>,
    tests: Vec<RegisteredTest>,
    props: Vec<RegisteredTestSuiteProperty>,
    filtered: Vec<RegisteredTest>,
    construct: F,
    plans: Seq<TestSuiteExecution<V>>,
    steps: Seq<PlanStep<V>>,
    left: usize,
    i: int,
)
    requires
        call_ensures(
            TestSuiteExecution::<V>::construct,
            (&arguments, &dependencies, &tests, &props),
            (plans[0], filtered),
        ),
        plans.len() == steps.len() + 1,
        forall|n: int|
            0 <= n < steps.len() ==> match #[trigger] steps[n] {
                PlanStep::Picked(next) => exists|plan: &mut TestSuiteExecution<V>|
                    {
                        &&& *plan == plans[n]
                        &&& *final(plan) == plans[n + 1]
                        &&& #[trigger] call_ensures(
                            TestSuiteExecution::<V>::pick_next_sync::<F>,
                            (plan, &construct),
                            next,
                        )
                    },
                PlanStep::Finished(done) => exists|plan: &mut TestSuiteExecution<V>|
                    {
                        &&& *plan == plans[n]
                        &&& *final(plan) == plans[n + 1]
                        &&& #[trigger] call_ensures(
                            TestSuiteExecution::<V>::finish,
                            (plan, done),
                            (),
                        )
                    },
                PlanStep::Provided(id, value) => exists|
                    plan: &mut TestSuiteExecution<V>,
                    dep_id: &str,
                    applied: bool,
                |
                    {
                        &&& *plan == plans[n]
                        &&& *final(plan) == plans[n + 1]
                        &&& dep_id@ == id@
                        &&& #[trigger] call_ensures(
                            TestSuiteExecution::<V>::provide_cloneable_value,
                            (plan, dep_id, value),
                            applied,
                        )
                    },
            },
        call_ensures(TestSuiteExecution::<V>::remaining, (&plans.last(),), left),
    ensures
        run::handed_out(steps).len() + left == filtered@.len(),
        forall|k: int|
            0 <= k < run::handed_out(steps).len() ==> (
            #[trigger] run::handed_out(steps)[k]).index == k,
        forall|k: int|
            0 <= k < run::handed_out(steps).len() ==> exists|i: int|
                0 <= i < filtered@.len() && (#[trigger] filtered@[i])@ == (
                #[trigger] run::handed_out(steps)[k]).test@,
        left == 0 && 0 <= i < filtered@.len() ==> exists|k: int|
            0 <= k < run::handed_out(steps).len() && (#[trigger] run::handed_out(steps)[k]).test@
                == filtered@[i]@,
        left == 0 ==> run::tests_of(run::handed_out(steps)).to_multiset() == internal::test_views(
            filtered@,
        ).to_multiset(),
{
    assert forall|n: int| 0 <= n < steps.len() implies (#[trigger] steps[n]).leads(
        construct,
        plans[n],
        plans[n + 1],
    ) by {}
    run::run_hands_out_what_was_selected(
        arguments@,
        dependencies@,
        tests@,
        props@,
        filtered@,
        construct,
        plans,
        steps,
    );
    let given = run::handed_out(steps);
    let (handed, selected) = (run::tests_of(given), internal::test_views(filtered@));
    handed.to_multiset_ensures();
    selected.to_multiset_ensures();
    assert forall|k: int| 0 <= k < given.len() implies exists|i: int|
        0 <= i < filtered@.len() && (#[trigger] filtered@[i])@ == (#[trigger] given[k]).test@ by {
        let t = given[k].test@;
        assert(handed[k] == t);
        assert(handed.contains(t));
        assert(handed.to_multiset().count(t) > 0);
        assert(selected.to_multiset().count(t) > 0);
        assert(selected.contains(t));
        let i = selected.index_of(t);
        assert(filtered@[i]@ == t);
    }
    if left == 0 && 0 <= i < filtered@.len() {
        let t = filtered@[i]@;
        assert(selected[i] == t);
        assert(selected.contains(t));
        assert(selected.to_multiset().count(t) > 0);
        assert(handed.to_multiset().count(t) > 0);
        assert(handed.contains(t));
        let k = handed.index_of(t);
        assert(given[k].test@ == t);
    }
}

/// While tests are left and every lock that was handed out went back, the next one is handed out.
pub proof fn run_is_never_stuck<V, F: Fn(&RegisteredDependency, &DependencyMap<V>) -> Arc<V>>(
    arguments: Arguments,
    dependencies: Vec<RegisteredDependency>,
    tests: Vec<RegisteredTest>,
    props: Vec<RegisteredTestSuiteProperty>,
    filtered: Vec<RegisteredTest>,
    construct: F,
    plans: Seq<TestSuiteExecution<V>>,
    steps: Seq<PlanStep<V>>,
    left: usize,
    next: Option<TestExecution<V>>,
)
    requires
        call_ensures(
            TestSuiteExecution::<V>::construct,
            (&arguments, &dependencies, &tests, &props),
            (plans[0], filtered),
        ),
        plans.len() == steps.len() + 1,
        forall|n: int|
            0 <= n < steps.len() ==> match #[trigger] steps[n] {
                PlanStep::Picked(next) => exists|plan: &mut TestSuiteExecution<V>|
                    {
                        &&& *plan == plans[n]
                        &&& *final(plan) == plans[n + 1]
                        &&& #[trigger] call_ensures(
                            TestSuiteExecution::<V>::pick_next_sync::<F>,
                            (plan, &construct),
                            next,
                        )
                    },
                PlanStep::Finished(done) => exists|plan: &mut TestSuiteExecution<V>|
                    {
                        &&& *plan == plans[n]
                        &&& *final(plan) == plans[n + 1]
                        &&& #[trigger] call_ensures(
                            TestSuiteExecution::<V>::finish,
                            (plan, done),
                            (),
                        )
                    },
                PlanStep::Provided(id, value) => exists|
                    plan: &mut TestSuiteExecution<V>,
                    dep_id: &str,
                    applied: bool,
                |
                    {
                        &&& *plan == plans[n]
                        &&& *final(plan) == plans[n + 1]
                        &&& dep_id@ == id@
                        &&& #[trigger] call_ensures(
                            TestSuiteExecution::<V>::provide_cloneable_value,
                            (plan, dep_id, value),
                            applied,
                        )
                    },
            },
        forall|i: int, owner: Seq<char>|
            0 <= i < steps.len() && #[trigger] steps[i].takes_lock(owner) ==> exists|j: int|
                i < j < steps.len() && #[trigger] steps[j].frees_lock(owner),
        call_ensures(TestSuiteExecution::<V>::remaining, (&plans.last(),), left),
        exists|plan: &mut TestSuiteExecution<V>|
            *plan == plans.last() && #[trigger] call_ensures(
                TestSuiteExecution::<V>::pick_next_sync::<F>,
                (plan, &construct),
                next,
            ),
    ensures
        next is Some <==> left > 0,
{
    assert forall|n: int| 0 <= n < steps.len() implies (#[trigger] steps[n]).leads(
        construct,
        plans[n],
        plans[n + 1],
    ) by {}
    run::run_hands_out_what_was_selected(
        arguments@,
        dependencies@,
        tests@,
        props@,
        filtered@,
        construct,
        plans,
        steps,
    );
    if plans.last().root.total() > 0 {
        run::run_goes_on(construct, plans, steps);
    }
}

} // verus!
