//! When a test does not have to wait for others.
use super::selecting::is_benchmark;
use super::words::{at_or_in, colons, is_clear, lemma_clear};
use crate::args::Arguments;
use crate::execution::materialize::Values;
use crate::execution::node::{SequentialExecutionLock, SuiteNode};
use crate::execution::path;
use crate::execution::pick;
use crate::execution::pick::{SequentialExecutionLockGuard, Visit};
use crate::execution::plan;
use crate::execution::run::{is_run, PlanStep};
use crate::execution::suite::{visible_to, TestExecution, TestSuiteExecution};
use crate::execution::values::DependencyMap;
use crate::internal;
use crate::internal::{RegisteredDependency, RegisteredTest, RegisteredTestSuiteProperty};
use std::sync::Arc;
use vstd::prelude::*;

verus! {

impl<V> SuiteNode<V> {
    /// No suite on the way to the path is sequential.
    pub open spec fn leaves_free(self, q: Seq<char>) -> bool
        decreases self,
    {
        &&& path::encloses(self.crate_and_module@, q) ==> !self.is_sequential
        &&& forall|j: int|
            0 <= j < self.inner@.len() ==> (#[trigger] self.inner@[j]).leaves_free(q)
    }

    proof fn lemma_nothing_on_the_way(self, q: Seq<char>)
        requires
            self.wf(),
            path::is_unambiguous(q),
            forall|p: Seq<char>|
                path::encloses(self.crate_and_module@, p) && path::encloses(p, q) ==> !(
                #[trigger] self.contents_at(p)).is_sequential,
        ensures
            self.leaves_free(q),
        decreases self,
    {
        let here = self.crate_and_module@;
        if path::encloses(here, q) {
            assert(!self.contents_at(here).is_sequential);
        }
        assert forall|j: int| 0 <= j < self.inner@.len() implies (
        #[trigger] self.inner@[j]).leaves_free(q) by {
            let child = self.inner@[j];
            let below = child.crate_and_module@;
            assert(child.wf());
            assert forall|p: Seq<char>| path::encloses(below, p) && path::encloses(p, q) implies !(
            #[trigger] child.contents_at(p)).is_sequential by {
                lemma_all_enclose(here, below, p);
                lemma_all_enclose(below, p, q);
                if below != p {
                    path::lemma_encloses_shorter(below, p);
                }
                path::lemma_encloses_shorter(here, below);
                assert forall|i: int| 0 <= i < j implies !path::encloses(
                    (#[trigger] self.inner@[i]).crate_and_module@,
                    p,
                ) by {
                    let sibling = self.inner@[i].crate_and_module@;
                    if path::encloses(sibling, p) {
                        lemma_all_enclose(sibling, p, q);
                        path::lemma_one_way(here, sibling, below, q);
                    }
                }
                Self::lemma_route_is(self.inner@, p, j);
                Self::lemma_route(self.inner@, p);
                assert(here != p);
                assert(self.contents_at(p) == child.contents_at(p));
            }
            child.lemma_nothing_on_the_way(q);
        }
    }

    proof fn lemma_handing_down_keeps_free(
        self,
        inherited: Option<SequentialExecutionLock>,
        other: SuiteNode<V>,
        q: Seq<char>,
    )
        requires
            self.wf(),
            self.handed_down_to(inherited, other),
            self.leaves_free(q),
            path::encloses(self.crate_and_module@, q) ==> inherited is None,
        ensures
            other.leaves_free(q),
        decreases self,
    {
        let here = self.crate_and_module@;
        assert forall|j: int| 0 <= j < other.inner@.len() implies (
        #[trigger] other.inner@[j]).leaves_free(q) by {
            let child = self.inner@[j];
            assert(child.handed_down_to(other.lock_for_children(), other.inner@[j]));
            assert(child.wf());
            if path::encloses(child.crate_and_module@, q) {
                lemma_all_enclose(here, child.crate_and_module@, q);
            }
            child.lemma_handing_down_keeps_free(other.lock_for_children(), other.inner@[j], q);
        }
    }

    proof fn lemma_free_choice(self, held: Set<Seq<char>>, q: Seq<char>)
        requires
            self.wf(),
            self.leaves_free(q),
        ensures
            self.next(held) matches Some(choice) ==> choice.test.crate_and_module() == q
                ==> choice.lock is None,
        decreases self,
    {
        if self.takes_own(held) {
            let n = self.tests@.len() - 1;
            assert(self.tests@[n]@.crate_and_module() == self.crate_and_module@);
        } else {
            Self::lemma_first_offering(self.inner@, held);
            let k = Self::first_offering(self.inner@, held);
            if k < self.inner@.len() {
                self.inner@[k].lemma_free_choice(held, q);
            }
        }
    }

    proof fn lemma_advancing_keeps_free<
        F: Fn(&RegisteredDependency, &DependencyMap<V>) -> Arc<V>,
    >(
        self,
        construct: F,
        held: Set<Seq<char>>,
        parent: Values<V>,
        visit: Visit<V>,
        other: SuiteNode<V>,
        deps: Option<Values<V>>,
        q: Seq<char>,
    )
        requires
            self.leaves_free(q),
            self.advanced_to(construct, held, parent, visit, other, deps),
        ensures
            other.leaves_free(q),
        decreases self,
    {
        if !self.is_exhausted() && !self.takes_own(held) {
            let k = Self::first_offering(self.inner@, held);
            Self::lemma_first_offering(self.inner@, held);
            let visible = parent.union_prefer_right(visit.values);
            let mid = visit.inner;
            assert forall|i: int| 0 <= i < mid.len() implies (#[trigger] mid[i]).leaves_free(q) by {
                let a = self.inner@[i];
                assert(a.leaves_free(q));
                if i <= k {
                    let got = if i < k {
                        None
                    } else {
                        deps
                    };
                    a.lemma_advancing_keeps_free(
                        construct,
                        held,
                        visible,
                        visit.below[i],
                        mid[i],
                        got, q
                    );
                }
            }
            Self::lemma_drop_exhausted(mid);
            assert forall|i: int| 0 <= i < other.inner@.len() implies (
            #[trigger] other.inner@[i]).leaves_free(q) by {
                assert(mid.contains(Self::unexhausted(mid)[i]));
                let j = mid.index_of(other.inner@[i]);
                assert(mid[j] == other.inner@[i]);
            }
        }
    }

    proof fn lemma_finishing_keeps_free(
        self,
        at: Seq<char>,
        other: SuiteNode<V>,
        q: Seq<char>,
    )
        requires
            self.leaves_free(q),
            self.finished_to(at, other),
        ensures
            other.leaves_free(q),
        decreases self,
    {
        let r = Self::route(self.inner@, at);
        if self.crate_and_module@ != at && 0 <= r < self.inner@.len() {
            self.inner@[r].lemma_finishing_keeps_free(at, other.inner@[r], q);
            assert forall|j: int| 0 <= j < other.inner@.len() implies (
            #[trigger] other.inner@[j]).leaves_free(q) by {
                if j != r {
                    assert(other.inner@[j] == self.inner@[j]);
                }
            }
        }
    }

    proof fn lemma_providing_keeps_free(
        self,
        id: Seq<char>,
        value: Arc<V>,
        other: SuiteNode<V>,
        q: Seq<char>,
    )
        requires
            self.leaves_free(q),
            self.provided_to(id, value, other),
        ensures
            other.leaves_free(q),
        decreases self,
    {
        assert forall|j: int| 0 <= j < other.inner@.len() implies (#[trigger] other.inner@[j]).leaves_free(q) by {
            assert(self.inner@[j].provided_to(id, value, other.inner@[j]));
            self.inner@[j].lemma_providing_keeps_free(id, value, other.inner@[j], q);
        }
    }

    proof fn lemma_pruning_keeps_free(
        self,
        other: SuiteNode<V>,
        q: Seq<char>,
    )
        requires
            self.leaves_free(q),
            self.pruned_to(other),
        ensures
            other.leaves_free(q),
        decreases self,
    {
        assert forall|j: int| 0 <= j < other.inner@.len() implies (#[trigger] other.inner@[j]).leaves_free(q) by {
            assert(self.inner@[j].pruned_to(other.inner@[j]));
            self.inner@[j].lemma_pruning_keeps_free(other.inner@[j], q);
        }
    }
}

proof fn lemma_all_enclose(a: Seq<char>, b: Seq<char>, c: Seq<char>)
    requires
        path::encloses(a, b),
        path::encloses(b, c),
    ensures
        path::encloses(a, c),
{
    if a.len() > 0 && a != b && b != c {
        let pre = a + internal::colons();
        let n = pre.len() as int;
        let whole = b + internal::colons();
        assert(b.subrange(0, 0 + n) == pre);
        assert(c.subrange(0, 0 + whole.len() as int) == whole);
        assert forall|i: int| 0 <= i < n implies c[i] == pre[i] by {
            assert(c.subrange(0, whole.len() as int)[i] == whole[i]);
            assert(b.subrange(0, n)[i] == pre[i]);
        }
        assert(c.subrange(0, 0 + n) =~= pre);
    }
}

proof fn lemma_free_step<V, F: Fn(&RegisteredDependency, &DependencyMap<V>) -> Arc<V>>(
    step: PlanStep<V>,
    construct: F,
    before: TestSuiteExecution<V>,
    after: TestSuiteExecution<V>,
    q: Seq<char>,
)
    requires
        step.leads(construct, before, after),
        before.wf(),
        before.root.leaves_free(q),
    ensures
        after.wf(),
        after.root.leaves_free(q),
        step.given() matches Some(next) ==> next.test@.crate_and_module() == q
            ==> next.lock.owner() is None,
{
    let held = pick::held_set(before.held@);
    match step {
        PlanStep::Picked(next) => {
            let visit = choose|visit: Visit<V>| #[trigger]
                before.root.advanced_to(
                    construct,
                    held,
                    Map::empty(),
                    visit,
                    after.root,
                    visible_to(next),
                );
            before.root.lemma_advancing_keeps_free(
                construct,
                held,
                Map::empty(),
                visit,
                after.root,
                visible_to(next),
                q,
            );
            before.root.lemma_free_choice(held, q);
        },
        PlanStep::Finished(done) => {
            before.root.lemma_finishing_keeps_free(done.suite@, after.root, q);
        },
        PlanStep::Provided(id, value) => {
            if before.root.identifies(id@) {
                let mid = choose|mid: SuiteNode<V>| #[trigger]
                    before.root.provided_to(id@, value, mid) && mid.pruned_to(after.root);
                before.root.lemma_providing_keeps_free(id@, value, mid, q);
                mid.lemma_pruning_keeps_free(after.root, q);
            }
        },
    }
}

proof fn lemma_free_run<V, F: Fn(&RegisteredDependency, &DependencyMap<V>) -> Arc<V>>(
    construct: F,
    plans: Seq<TestSuiteExecution<V>>,
    steps: Seq<PlanStep<V>>,
    q: Seq<char>,
    k: int,
)
    requires
        is_run(construct, plans, steps),
        plans[0].wf(),
        plans[0].root.leaves_free(q),
        0 <= k < plans.len(),
    ensures
        plans[k].wf(),
        plans[k].root.leaves_free(q),
    decreases k,
{
    if k > 0 {
        lemma_free_run(construct, plans, steps, q, k - 1);
        assert(steps[k - 1].leads(construct, plans[k - 1], plans[k - 1 + 1]));
        lemma_free_step(steps[k - 1], construct, plans[k - 1], plans[k], q);
    }
}

/// The two parts as one path; an empty part drops out.
pub open spec fn both(a: Seq<char>, b: Seq<char>) -> Seq<char> {
    if a.len() == 0 {
        b
    } else if b.len() == 0 {
        a
    } else {
        a + colons() + b
    }
}

/// The path is the other one, or a part of it that ends between two names.
pub open spec fn is_at_or_above(p: Seq<char>, q: Seq<char>) -> bool {
    p.len() == 0 || at_or_in(q, p)
}

proof fn lemma_at_or_above(p: Seq<char>, q: Seq<char>)
    requires
        path::encloses(p, q),
    ensures
        is_at_or_above(p, q),
{
    if p.len() > 0 && p != q {
        let pre = p + internal::colons();
        assert(q.subrange(0, 0 + pre.len() as int) == pre);
        let rest = q.skip(pre.len() as int);
        assert(q =~= p + colons() + rest) by {
            assert forall|i: int| 0 <= i < pre.len() implies q[i] == pre[i] by {
                assert(q.subrange(0, pre.len() as int)[i] == pre[i]);
            }
            assert(q =~= pre + rest);
            assert(pre =~= p + colons());
        }
    }
}

/// A test waits for no other one where its module, and those around it, hold no benchmark that was
/// selected and none of them was declared sequential.
pub proof fn test_without_reason_does_not_wait<
    V,
    F: Fn(&RegisteredDependency, &DependencyMap<V>) -> Arc<V>,
>(
    arguments: Arguments,
    dependencies: Vec<RegisteredDependency>,
    tests: Vec<RegisteredTest>,
    props: Vec<RegisteredTestSuiteProperty>,
    filtered: Vec<RegisteredTest>,
    construct: F,
    plans: Seq<TestSuiteExecution<V>>,
    steps: Seq<PlanStep<V>>,
    k: int,
    next: TestExecution<V>,
)
    requires
        call_ensures(
            TestSuiteExecution::<V>::construct,
            (&arguments, &dependencies, &tests, &props),
            (plans[0], filtered),
        ),
        plans.len() == steps.len() + 1,
        forall|n: int|
            0 <= n < steps.len() ==> match #[trigger] steps[n] {
                PlanStep::Picked(next) => exists|plan: &mut TestSuiteExecution<V>|
                    {
                        &&& *plan == plans[n]
                        &&& *final(plan) == plans[n + 1]
                        &&& #[trigger] call_ensures(
                            TestSuiteExecution::<V>::pick_next_sync::<F>,
                            (plan, &construct),
                            next,
                        )
                    },
                PlanStep::Finished(done) => exists|plan: &mut TestSuiteExecution<V>|
                    {
                        &&& *plan == plans[n]
                        &&& *final(plan) == plans[n + 1]
                        &&& #[trigger] call_ensures(
                            TestSuiteExecution::<V>::finish,
                            (plan, done),
                            (),
                        )
                    },
                PlanStep::Provided(id, value) => exists|
                    plan: &mut TestSuiteExecution<V>,
                    dep_id: &str,
                    applied: bool,
                |
                    {
                        &&& *plan == plans[n]
                        &&& *final(plan) == plans[n + 1]
                        &&& dep_id@ == id@
                        &&& #[trigger] call_ensures(
                            TestSuiteExecution::<V>::provide_cloneable_value,
                            (plan, dep_id, value),
                            applied,
                        )
                    },
            },
        0 <= k < steps.len(),
        steps[k] == PlanStep::Picked(Some(next)),
        filtered@.len() > 0,
        is_clear(both(next.test.crate_name@, next.test.module@)),
        forall|b: int|
            0 <= b < filtered@.len() && is_benchmark(#[trigger] filtered@[b]) ==> !is_at_or_above(
                both(filtered@[b].crate_name@, filtered@[b].module@),
                both(next.test.crate_name@, next.test.module@),
            ),
        forall|s: int|
            0 <= s < props@.len() ==> (
            #[trigger] props@[s] matches RegisteredTestSuiteProperty::Sequential {
                name,
                crate_name,
                module,
            } ==> !is_at_or_above(
                both(both(crate_name@, module@), name@),
                both(next.test.crate_name@, next.test.module@),
            )),
    ensures
        !(next.lock matches SequentialExecutionLockGuard::Locked(_)),
{
    assert forall|n: int| 0 <= n < steps.len() implies (#[trigger] steps[n]).leads(
        construct,
        plans[n],
        plans[n + 1],
    ) by {}
    let q = next.test@.crate_and_module();
    assert(q == both(next.test.crate_name@, next.test.module@));
    lemma_clear(q);
    let deps = internal::dependency_views(dependencies@);
    let order = internal::test_views(filtered@);
    plan::chosen(arguments@, tests@, props@).to_multiset_ensures();
    order.to_multiset_ensures();
    let (tree, locked) = choose|tree: SuiteNode<V>, locked: SuiteNode<V>|
        #[trigger] plan::plan_steps(tree, locked, plans[0].root, deps, order, props@);
    assert forall|p: Seq<char>|
        path::encloses(tree.crate_and_module@, p) && path::encloses(p, q) implies !(
    #[trigger] tree.contents_at(p)).is_sequential by {
        lemma_at_or_above(p, q);
        assert(tree.contents_at(p) == plan::planned(deps, order, props@, p));
        if plan::planned(deps, order, props@, p).is_sequential {
            if exists|i: int|
                0 <= i < props@.len() && (#[trigger] props@[i]).spec_crate_and_module() == p
                    && props@[i] is Sequential {
                let i = choose|i: int|
                    0 <= i < props@.len() && (#[trigger] props@[i]).spec_crate_and_module() == p
                        && props@[i] is Sequential;
                assert(props@[i].spec_crate_and_module() == p);
            } else {
                let i = choose|i: int|
                    0 <= i < order.len() && (#[trigger] order[i]).crate_and_module() == p
                        && order[i].run.spec_is_bench();
                assert(order[i] == filtered@[i]@);
                assert(is_benchmark(filtered@[i]));
            }
        }
    }
    tree.lemma_nothing_on_the_way(q);
    tree.lemma_handing_down_keeps_free(None, locked, q);
    locked.lemma_pruning_keeps_free(plans[0].root, q);
    lemma_free_run(construct, plans, steps, q, k);
    assert(steps[k].leads(construct, plans[k], plans[k + 1]));
    lemma_free_step(steps[k], construct, plans[k], plans[k + 1], q);
}

} // verus!
