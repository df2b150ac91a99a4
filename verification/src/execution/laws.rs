//! What holds of the execution plan over several steps.
use super::node::SuiteNode;
use super::pick;
use super::plan;
use super::suite::TestSuiteExecution;
use crate::args::ArgumentsModel;
use crate::internal;
use crate::internal::{RegisteredTest, RegisteredTestSuiteProperty, TestModel};
use crate::text;
use vstd::prelude::*;

verus! {

impl<V> SuiteNode<V> {
    /// While no lock is held, a suite that has tests left, here or below, gives one.
    pub proof fn unlocked_suite_gives_a_test(self, held: Set<Seq<char>>)
        requires
            self.total() > 0,
            forall|p: Seq<char>| !held.contains(p),
        ensures
            self.next(held) is Some,
        decreases self,
    {
        if !self.takes_own(held) {
            assert(Self::total_of(self.inner@) > 0);
            Self::lemma_some_child_has_tests(self.inner@);
            let j = choose|j: int|
                0 <= j < self.inner@.len() && (#[trigger] self.inner@[j]).total() > 0;
            self.inner@[j].unlocked_suite_gives_a_test(held);
            Self::lemma_first_offering(self.inner@, held);
        }
    }

    proof fn lemma_some_child_has_tests(nodes: Seq<SuiteNode<V>>)
        requires
            Self::total_of(nodes) > 0,
        ensures
            exists|j: int| 0 <= j < nodes.len() && (#[trigger] nodes[j]).total() > 0,
        decreases nodes.len(),
    {
        if nodes.len() > 0 {
            if nodes.last().total() > 0 {
                assert(nodes[nodes.len() - 1].total() > 0);
            } else {
                Self::lemma_some_child_has_tests(nodes.drop_last());
                let j = choose|j: int|
                    0 <= j < nodes.drop_last().len() && (
                    #[trigger] nodes.drop_last()[j]).total() > 0;
                assert(nodes[j].total() > 0);
            }
        }
    }
}

/// A plan that has tests left and holds no lock hands out a test: a run cannot get stuck once the
/// tests of sequential suites are finished.
pub proof fn idle_plan_gives_a_test<V>(execution: TestSuiteExecution<V>)
    requires
        execution.wf(),
        execution.held@.len() == 0,
        execution.root.remaining_count > 0,
    ensures
        execution.next() is Some,
{
    let held = pick::held_set(execution.held@);
    assert forall|p: Seq<char>| !held.contains(p) by {
        assert(text::views(execution.held@).len() == 0);
    }
    execution.root.unlocked_suite_gives_a_test(held);
}

proof fn lemma_filter_reverse<A>(s: Seq<A>, pred: spec_fn(A) -> bool)
    ensures
        s.reverse().filter(pred) == s.filter(pred).reverse(),
    decreases s.len(),
{
    reveal(Seq::filter);
    if s.len() == 0 {
        assert(s.reverse() =~= s);
        assert(s.filter(pred).reverse() =~= s.reverse().filter(pred));
    } else {
        let (init, last) = (s.drop_last(), s.last());
        lemma_filter_reverse(init, pred);
        let head = seq![last];
        assert(s.reverse() =~= head + init.reverse());
        Seq::filter_distributes_over_add(head, init.reverse(), pred);
        assert(head.drop_last() =~= Seq::empty());
        assert(head.drop_last().filter(pred) =~= Seq::empty());
        assert(s.reverse().filter(pred) =~= s.filter(pred).reverse());
    }
}

/// A suite gives its tests in the order of the run: the last test that the plan holds for it is
/// the first one of its tests in that order.
pub proof fn suite_holds_tests_in_reverse_run_order(
    args: ArgumentsModel,
    tests: Seq<RegisteredTest>,
    props: Seq<RegisteredTestSuiteProperty>,
    deps: Seq<internal::DependencyModel>,
    path: Seq<char>,
)
    ensures
        plan::planned(deps, plan::plan_order(args, tests, props), props, path).tests
            == super::shuffle::run_order(
            plan::chosen(args, tests, props),
            args.shuffle_seed,
        ).filter(|t: TestModel| t.crate_and_module() == path).reverse(),
{
    lemma_filter_reverse(
        super::shuffle::run_order(plan::chosen(args, tests, props), args.shuffle_seed),
        |t: TestModel| t.crate_and_module() == path,
    );
}

} // verus!
