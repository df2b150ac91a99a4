//! The execution plan as a whole.
use super::collect;
use super::collect::{
    Collection, DepWireBytes, HostedDescriptorCollection, ParentSharedDependencies,
};
use super::materialize;
use super::materialize::Values;
use super::node::SuiteNode;
use super::path;
use super::pick;
use super::pick::{Choice, SequentialExecutionLockGuard, Visit};
use super::plan;
use super::plan::{build_bare_root, build_tree, reversed};
use super::shuffle;
use super::shuffle::shuffle;
use super::values::DependencyMap;
use crate::args::{Arguments, ArgumentsModel};
use crate::internal;
use crate::internal::{
    apply_suite_props_to_tests, filter_registered_tests, DepScope, DependencyModel, HostId,
    RegisteredDependency, RegisteredTest, RegisteredTestSuiteProperty, TestModel,
};
use crate::text;
use crate::text::str_eq;
use std::sync::Arc;
use vstd::multiset::Multiset;
use vstd::prelude::*;

verus! {

/// The execution plan of a run: the tree of suites, and the locks that are held.
#[verifier::reject_recursive_types(V)]
pub struct TestSuiteExecution<V> {
    pub root: SuiteNode<V>,
    /// The paths of the suites whose locks are held
    pub held: Vec<String>,
    /// How many tests have been handed out
    pub idx: usize,
}

/// A test that was handed out. It goes back with [`TestSuiteExecution::finish`] when it is done.
#[verifier::reject_recursive_types(V)]
pub struct TestExecution<V> {
    pub test: RegisteredTest,
    pub deps: DependencyMap<V>,
    pub index: usize,
    pub suite: String,
    pub lock: SequentialExecutionLockGuard,
}

/// The values that a test which was handed out sees.
pub open spec fn visible_to<V>(next: Option<TestExecution<V>>) -> Option<Values<V>> {
    match next {
        Some(next) => Some(next.deps@),
        None => None,
    }
}

impl<V> TestSuiteExecution<V> {
    /// The tree is in order, its locks are shared below sequential suites, and no lock is held
    /// twice.
    pub open spec fn wf(self) -> bool {
        &&& self.root.wf()
        &&& self.root.locks_shared()
        &&& self.root.crate_and_module@ == Seq::<char>::empty()
        &&& self.idx + self.root.remaining_count <= usize::MAX
        &&& text::views(self.held@).no_duplicates()
    }

    /// The next test.
    pub open spec fn next(self) -> Option<Choice> {
        self.root.next(pick::held_set(self.held@))
    }

    /// `execution` is the plan for the tests that the arguments select, and `filtered` are these
    /// tests in the order in which they were put into it.
    pub open spec fn constructs(
        arguments: ArgumentsModel,
        dependencies: Seq<RegisteredDependency>,
        tests: Seq<RegisteredTest>,
        props: Seq<RegisteredTestSuiteProperty>,
        execution: Self,
        filtered: Seq<RegisteredTest>,
    ) -> bool {
        &&& execution.wf()
        &&& execution.held@.len() == 0
        &&& execution.idx == 0
        &&& internal::test_views(filtered) == plan::plan_order(arguments, tests, props)
        &&& internal::test_views(filtered).to_multiset() == plan::chosen(
            arguments,
            tests,
            props,
        ).to_multiset()
        &&& execution.root.tests_below() == plan::chosen(arguments, tests, props).to_multiset()
        &&& execution.root.remaining_count == filtered.len()
        &&& if plan::chosen(arguments, tests, props).len() == 0 {
            execution.root.inner@.len() == 0 && execution.root.contents() == plan::bare_root(
                internal::dependency_views(dependencies),
                props,
            )
        } else {
            plan::is_plan(
                execution.root,
                internal::dependency_views(dependencies),
                plan::plan_order(arguments, tests, props),
                props,
            )
        }
    }

    /// Builds the plan for the tests that the arguments select, and returns it with these tests
    /// in the order in which they were put into it.
    pub fn construct(
        arguments: &Arguments,
        dependencies: &Vec<RegisteredDependency>,
        tests: &Vec<RegisteredTest>,
        props: &Vec<RegisteredTestSuiteProperty>,
    ) -> (r: (Self, Vec<RegisteredTest>))
        requires
            plan::all_rooted(dependencies@, tests@, props@),
        ensures
            Self::constructs(arguments@, dependencies@, tests@, props@, r.0, r.1@),
    {
        let tests_with_props = apply_suite_props_to_tests(tests, props);
        let ghost applied = plan::with_suite_properties(tests@, props@);
        assert(internal::test_views(tests_with_props@) =~= applied);
        let filtered = filter_registered_tests(arguments, &tests_with_props);
        let ghost chosen = plan::chosen(arguments@, tests@, props@);
        let in_run_order = shuffle(&filtered, arguments.shuffle_seed);
        let planned_tests = reversed(&in_run_order);
        let ghost order = plan::plan_order(arguments@, tests@, props@);
        proof {
            let run = internal::test_views(in_run_order@);
            run.lemma_reverse_to_multiset();
            assert(order.to_multiset() == chosen.to_multiset());
            order.to_multiset_ensures();
            chosen.to_multiset_ensures();
            assert forall|i: int| 0 <= i < planned_tests@.len() implies path::is_rooted(
                (#[trigger] planned_tests@[i])@.crate_and_module(),
            ) by {
                let t = planned_tests@[i]@;
                assert(order[i] == t);
                assert(order.contains(t));
                assert(chosen.to_multiset().count(t) > 0);
                assert(chosen.contains(t));
                applied.lemma_filter_contains_rev(
                    |t: TestModel| internal::selected(arguments@, t),
                    t,
                );
                let j = applied.index_of(t);
                plan::lemma_properties_keep_path(tests@[j]@, props@);
                assert(path::is_rooted(tests@[j]@.crate_and_module()));
            }
        }
        if planned_tests.is_empty() {
            let root = build_bare_root(dependencies, props);
            proof {
                assert(chosen.len() == 0);
                assert(chosen =~= Seq::empty());
                assert(chosen.to_multiset() =~= Multiset::empty());
            }
            let r = TestSuiteExecution { root, held: Vec::new(), idx: 0 };
            (r, planned_tests)
        } else {
            let mut root: SuiteNode<V> = build_tree(dependencies, &planned_tests, props);
            let ghost tree = root;
            root.propagate_sequential(None);
            let ghost locked = root;
            let needed = root.prune_unused_deps();
            proof {
                tree.handing_down_keeps_tests(None, locked);
                tree.handing_down_shares_locks(None, locked);
                locked.pruning_keeps_tests(root);
                assert(plan::plan_steps(
                    tree,
                    locked,
                    root,
                    internal::dependency_views(dependencies@),
                    order,
                    props@,
                ));
            }
            let r = TestSuiteExecution { root, held: Vec::new(), idx: 0 };
            (r, planned_tests)
        }
    }

    /// `next` is handed out and `after` is the plan from then on: the test is the next one, it is
    /// taken out of the plan, its lock is held, and it sees the values of its suites.
    pub open spec fn picks<F: Fn(&RegisteredDependency, &DependencyMap<V>) -> Arc<V>>(
        self,
        construct: F,
        next: Option<TestExecution<V>>,
        after: Self,
    ) -> bool {
        &&& after.wf()
        &&& match next {
            Some(next) => {
                &&& self.next() == Some(
                    Choice { test: next.test@, suite: next.suite@, lock: next.lock.owner() },
                )
                &&& next.deps.wf()
                &&& next.index == self.idx
                &&& after.idx == self.idx + 1
                &&& self.root.tests_below().count(next.test@) > 0
                &&& after.root.tests_below() == self.root.tests_below().remove(next.test@)
                &&& after.root.remaining_count == self.root.remaining_count - 1
                &&& text::views(after.held@) == (match next.lock.owner() {
                    Some(owner) => text::views(self.held@).push(owner),
                    None => text::views(self.held@),
                })
            },
            None => {
                &&& self.next() is None
                &&& after.idx == self.idx
                &&& after.root.tests_below() == self.root.tests_below()
                &&& after.root.remaining_count == self.root.remaining_count
                &&& text::views(after.held@) == text::views(self.held@)
            },
        }
        &&& exists|visit: Visit<V>| #[trigger]
            self.root.advanced_to(
                construct,
                pick::held_set(self.held@),
                Map::empty(),
                visit,
                after.root,
                visible_to(next),
            )
    }

    /// Hands out the next test, if there is one that may run now.
    pub fn pick_next_sync<F: Fn(&RegisteredDependency, &DependencyMap<V>) -> Arc<V>>(
        &mut self,
        construct: &F,
    ) -> (r: Option<TestExecution<V>>)
        requires
            old(self).wf(),
            materialize::constructs_any(*construct),
        ensures
            old(self).picks(*construct, r, *final(self)),
    {
        let ghost before = *self;
        let ghost locks = pick::held_set(self.held@);
        let no_deps: DependencyMap<V> = DependencyMap::new();
        let picked = self.root.pick_next_internal_sync(&no_deps, &mut self.held, construct);
        proof {
            let visit = choose|visit: Visit<V>| #[trigger]
                before.root.advanced_to(
                    *construct,
                    locks,
                    Map::empty(),
                    visit,
                    self.root,
                    pick::seen(picked),
                );
            before.root.advancing_takes_the_choice(
                *construct,
                locks,
                Map::empty(),
                visit,
                self.root,
                pick::seen(picked),
            );
            before.root.advancing_keeps_locks(
                *construct,
                locks,
                Map::empty(),
                visit,
                self.root,
                pick::seen(picked),
            );
            before.root.choice_takes_a_free_lock(locks);
            before.root.lemma_next_counts(locks);
        }
        match picked {
            Some(picked) => {
                let index = self.idx;
                self.idx = self.idx + 1;
                Some(
                    TestExecution {
                        test: picked.test,
                        deps: picked.deps,
                        index,
                        suite: picked.suite,
                        lock: picked.lock,
                    },
                )
            },
            None => None,
        }
    }

    /// `after` is the plan when this test has gone back.
    pub open spec fn takes_back(self, execution: TestExecution<V>, after: Self) -> bool {
        &&& after.wf()
        &&& after.idx == self.idx
        &&& self.root.finished_to(execution.suite@, after.root)
        &&& after.root.tests_below() == self.root.tests_below()
        &&& after.root.remaining_count == self.root.remaining_count
        &&& forall|p: Seq<char>| #[trigger]
            pick::held_set(after.held@).contains(p) <==> pick::held_set(self.held@).contains(p)
                && execution.lock.owner() != Some(p)
    }

    /// Takes a test back that is done: its lock becomes free, and its suite has one test less in
    /// progress.
    pub fn finish(&mut self, execution: TestExecution<V>)
        requires
            old(self).wf(),
        ensures
            old(self).takes_back(execution, *final(self)),
    {
        let ghost before = *self;
        self.root.finish(execution.suite.as_str());
        proof {
            before.root.finishing_keeps_tests(execution.suite@, self.root);
        }
        if let SequentialExecutionLockGuard::Locked(lock) = &execution.lock {
            let ghost locks = text::views(self.held@);
            let mut i: usize = 0;
            while i < self.held.len() && !str_eq(self.held[i].as_str(), lock.owner.as_str())
                invariant
                    i <= self.held.len(),
                    locks == text::views(self.held@),
                    forall|j: int| 0 <= j < i ==> #[trigger] locks[j] != lock.owner@,
                decreases self.held.len() - i,
            {
                assert(locks[i as int] == self.held@[i as int]@);
                i = i + 1;
            }
            if i < self.held.len() {
                assert(locks[i as int] == self.held@[i as int]@);
                self.held.remove(i);
                let ghost after = text::views(self.held@);
                proof {
                    assert(after =~= locks.remove(i as int));
                    assert forall|p: Seq<char>| #[trigger] after.contains(p) <==> locks.contains(p)
                        && p != lock.owner@ by {
                        if locks.contains(p) && p != lock.owner@ {
                            let j = locks.index_of(p);
                            if j < i {
                                assert(after[j] == p);
                            } else {
                                assert(after[j - 1] == p);
                            }
                        }
                        if after.contains(p) {
                            let j = after.index_of(p);
                            let k = if j < i {
                                j
                            } else {
                                j + 1
                            };
                            assert(locks[k] == p);
                            assert(locks[i as int] == lock.owner@);
                        }
                    }
                    assert forall|a: int, b: int| 0 <= a < after.len() && 0 <= b < after.len() && a
                        != b implies after[a] != after[b] by {
                        let x = if a < i {
                            a
                        } else {
                            a + 1
                        };
                        let y = if b < i {
                            b
                        } else {
                            b + 1
                        };
                        assert(after[a] == locks[x] && after[b] == locks[y]);
                    }
                }
            } else {
                assert(!locks.contains(lock.owner@));
            }
        }
    }

    /// How many tests are left.
    pub fn remaining(&self) -> (r: usize)
        ensures
            self.wf() ==> r == self.root.total(),
    {
        self.root.remaining_count
    }

    /// Whether neither tests nor suites are left.
    pub fn is_empty(&self) -> (r: bool)
        ensures
            r == self.root.is_exhausted(),
    {
        self.root.is_empty()
    }

    /// Whether all tests have been handed out.
    pub fn is_done(&self) -> (r: bool)
        ensures
            self.wf() ==> r == (self.root.total() == 0),
    {
        self.root.remaining_count == 0
    }

    /// Whether there are dependencies anywhere in the plan.
    pub fn has_dependencies(&self) -> (r: bool)
        ensures
            r == (self.root.dependencies_below().len() > 0),
    {
        self.root.has_dependencies()
    }

    /// Whether a dependency of the plan is `Shared`: its value cannot cross the boundary between
    /// parent and worker, so capturing output forces such a plan onto a single thread.
    pub fn has_shared_dependencies(&self) -> (r: bool)
        ensures
            r == self.root.has_scope(DepScope::Shared),
    {
        self.root.any_of_scope(DepScope::Shared)
    }

    /// Whether a dependency of the plan is `Cloneable`.
    pub fn has_cloneable_dependencies(&self) -> (r: bool)
        ensures
            r == self.root.has_scope(DepScope::Cloneable),
    {
        self.root.any_of_scope(DepScope::Cloneable)
    }

    /// Whether a dependency of the plan is `Hosted`.
    pub fn has_hosted_dependencies(&self) -> (r: bool)
        ensures
            r == self.root.has_scope(DepScope::Hosted),
    {
        self.root.any_of_scope(DepScope::Hosted)
    }

    /// Whether a dependency of the plan is `HostedRpc`.
    pub fn has_hosted_rpc_dependencies(&self) -> (r: bool)
        ensures
            r == self.root.has_scope(DepScope::HostedRpc),
    {
        self.root.any_of_scope(DepScope::HostedRpc)
    }

    /// The `Cloneable` dependencies of the plan, depth first.
    pub fn collect_cloneable_dependencies(&self) -> (r: Vec<RegisteredDependency>)
        ensures
            internal::dependency_views(r@) == self.root.dependencies_below().filter(
                |d: DependencyModel| d.scope == DepScope::Cloneable,
            ),
    {
        let mut out: Vec<RegisteredDependency> = Vec::new();
        self.root.collect_scope_into(DepScope::Cloneable, &mut out);
        assert(internal::dependency_views(out@) =~= self.root.dependencies_below().filter(
            |d: DependencyModel| d.scope == DepScope::Cloneable,
        ));
        out
    }

    /// Whether the output of one of the tests has to be captured, by the given default and what
    /// the tests say themselves.
    pub fn requires_capturing(&self, capture_by_default: bool) -> (r: bool)
        ensures
            r == self.root.wants_capturing(capture_by_default),
    {
        self.root.requires_capturing(capture_by_default)
    }

    /// Switches the construction of values off, for a plan that only drives worker processes.
    pub fn skip_creating_dependencies(&mut self)
        requires
            old(self).wf(),
        ensures
            final(self).wf(),
            old(self).root.skipping_to(final(self).root),
            final(self).held == old(self).held,
            final(self).idx == old(self).idx,
            final(self).root.tests_below() == old(self).root.tests_below(),
    {
        let ghost before = *self;
        self.root.skip_creating_dependencies();
        proof {
            before.root.skipping_keeps_tests(self.root);
        }
    }

    /// `after` is the plan in which the dependency with this identifier has this value, without
    /// what only its constructor needed. A plan in which it is not registered stays as it is.
    pub open spec fn provides(self, dep_id: Seq<char>, value: Arc<V>, after: Self) -> bool {
        &&& after.wf()
        &&& if self.root.identifies(dep_id) {
            exists|provided: SuiteNode<V>| #[trigger]
                self.root.provided_to(dep_id, value, provided) && provided.pruned_to(after.root)
        } else {
            after == self
        }
        &&& after.held == self.held
        &&& after.idx == self.idx
        &&& after.root.tests_below() == self.root.tests_below()
    }

    /// Gives the value to the dependency with this fully qualified identifier, wherever in the
    /// plan it is registered, and says whether it is. The constructor of the dependency will not
    /// run, and what only that constructor needed is dropped from the plan.
    pub fn provide_cloneable_value(&mut self, dep_id: &str, value: Arc<V>) -> (applied: bool)
        requires
            old(self).wf(),
        ensures
            applied == old(self).root.identifies(dep_id@),
            old(self).provides(dep_id@, value, *final(self)),
    {
        if !self.root.is_identified(dep_id) {
            return false;
        }
        let ghost before = *self;
        let applied = self.root.provide_cloneable_value_internal(dep_id, value);
        let ghost provided = self.root;
        proof {
            before.root.providing_keeps_tests(dep_id@, value, provided);
        }
        let needed = self.root.prune_unused_deps();
        proof {
            provided.pruning_keeps_tests(self.root);
        }
        applied
    }

    /// `shared` is what the parent keeps of the dependencies of the plan after it has constructed
    /// them.
    pub open spec fn gathers<
        K,
        F: Fn(&RegisteredDependency, &DependencyMap<V>) -> Arc<V>,
        W: Fn(HostId, &Arc<V>) -> Vec<u8>,
        C: Fn(HostId, &Arc<V>) -> K,
    >(
        self,
        construct: F,
        to_wire: W,
        owner_into_cell: C,
        shared: ParentSharedDependencies<V, K>,
    ) -> bool {
        exists|c: Collection<V>, blank: ParentSharedDependencies<V, K>| #[trigger]
            self.root.collects(construct, Map::empty(), c) && blank.is_blank()
                && #[trigger] collect::ships(
                to_wire,
                owner_into_cell,
                blank,
                shared,
                self.root.built_by(c),
            )
    }

    /// Constructs the dependencies of the plan in the parent, and returns what the parent keeps
    /// of those that reach the workers as bytes, as descriptors or through stubs. Fails at the first
    /// one that was built without what its scope takes.
    pub fn gather_parent_shared_dependencies<
        K,
        F: Fn(&RegisteredDependency, &DependencyMap<V>) -> Arc<V>,
        W: Fn(HostId, &Arc<V>) -> Vec<u8>,
        C: Fn(HostId, &Arc<V>) -> K,
    >(&self, construct: &F, to_wire: &W, owner_into_cell: &C) -> (r: Result<
        ParentSharedDependencies<V, K>,
        String,
    >)
        requires
            materialize::constructs_any(*construct),
            collect::ships_any(*to_wire, *owner_into_cell),
        ensures
            match r {
                Ok(shared) => self.root.all_shippable(Set::empty()) && self.gathers(
                    *construct,
                    *to_wire,
                    *owner_into_cell,
                    shared,
                ),
                Err(message) => self.root.is_lack(Set::empty(), message@),
            },
    {
        let mut out: ParentSharedDependencies<V, K> = ParentSharedDependencies::new();
        let ghost blank = out;
        let parent_map: DependencyMap<V> = DependencyMap::new();
        assert(parent_map@.dom() =~= Set::empty());
        let shipped = self.root.collect_parent_shared_dependencies_into_sync(
            &parent_map,
            &mut out,
            construct,
            to_wire,
            owner_into_cell,
        );
        match shipped {
            Ok(_) => Ok(out),
            Err(message) => Err(message),
        }
    }

    /// The same for a plan in which nothing is lacking.
    pub fn collect_parent_shared_dependencies_sync<
        K,
        F: Fn(&RegisteredDependency, &DependencyMap<V>) -> Arc<V>,
        W: Fn(HostId, &Arc<V>) -> Vec<u8>,
        C: Fn(HostId, &Arc<V>) -> K,
    >(&self, construct: &F, to_wire: &W, owner_into_cell: &C) -> (r: ParentSharedDependencies<
        V,
        K,
    >)
        requires
            self.root.all_shippable(Set::empty()),
            materialize::constructs_any(*construct),
            collect::ships_any(*to_wire, *owner_into_cell),
        ensures
            self.gathers(*construct, *to_wire, *owner_into_cell, r),
    {
        match self.gather_parent_shared_dependencies(construct, to_wire, owner_into_cell) {
            Ok(shared) => shared,
            Err(message) => {
                proof {
                    self.root.lack_is_not_shippable(Set::empty(), message@);
                }
                ParentSharedDependencies::new()
            },
        }
    }

    /// What the workers are sent of the dependencies that reach them as bytes.
    pub fn collect_cloneable_wire_bytes_sync<
        K,
        F: Fn(&RegisteredDependency, &DependencyMap<V>) -> Arc<V>,
        W: Fn(HostId, &Arc<V>) -> Vec<u8>,
        C: Fn(HostId, &Arc<V>) -> K,
    >(&self, construct: &F, to_wire: &W, owner_into_cell: &C) -> (r: Vec<DepWireBytes>)
        requires
            self.root.all_shippable(Set::empty()),
            materialize::constructs_any(*construct),
            collect::ships_any(*to_wire, *owner_into_cell),
        ensures
            exists|shared: ParentSharedDependencies<V, K>| #[trigger]
                self.gathers(*construct, *to_wire, *owner_into_cell, shared) && r == shared.cloneable_wire_bytes,
    {
        let shared = self.collect_parent_shared_dependencies_sync(
            construct,
            to_wire,
            owner_into_cell,
        );
        let ghost gathered = shared;
        assert(self.gathers(*construct, *to_wire, *owner_into_cell, gathered));
        shared.cloneable_wire_bytes
    }

    /// What the workers are sent of the dependencies that reach them as descriptors, with the
    /// owners, which have to outlive the workers.
    pub fn collect_hosted_descriptor_bytes_sync<
        K,
        F: Fn(&RegisteredDependency, &DependencyMap<V>) -> Arc<V>,
        W: Fn(HostId, &Arc<V>) -> Vec<u8>,
        C: Fn(HostId, &Arc<V>) -> K,
    >(&self, construct: &F, to_wire: &W, owner_into_cell: &C) -> (r: HostedDescriptorCollection<V>)
        requires
            self.root.all_shippable(Set::empty()),
            materialize::constructs_any(*construct),
            collect::ships_any(*to_wire, *owner_into_cell),
        ensures
            exists|shared: ParentSharedDependencies<V, K>| #[trigger]
                self.gathers(*construct, *to_wire, *owner_into_cell, shared) && r == (
                    shared.hosted_descriptor_bytes,
                    shared.hosted_owners,
                ),
    {
        let shared = self.collect_parent_shared_dependencies_sync(
            construct,
            to_wire,
            owner_into_cell,
        );
        let ghost gathered = shared;
        assert(self.gathers(*construct, *to_wire, *owner_into_cell, gathered));
        (shared.hosted_descriptor_bytes, shared.hosted_owners)
    }

    /// The owners that the workers call.
    pub fn collect_hosted_rpc_owner_cells_sync<
        K,
        F: Fn(&RegisteredDependency, &DependencyMap<V>) -> Arc<V>,
        W: Fn(HostId, &Arc<V>) -> Vec<u8>,
        C: Fn(HostId, &Arc<V>) -> K,
    >(&self, construct: &F, to_wire: &W, owner_into_cell: &C) -> (r: Vec<(String, K)>)
        requires
            self.root.all_shippable(Set::empty()),
            materialize::constructs_any(*construct),
            collect::ships_any(*to_wire, *owner_into_cell),
        ensures
            exists|shared: ParentSharedDependencies<V, K>| #[trigger]
                self.gathers(*construct, *to_wire, *owner_into_cell, shared) && r == shared.hosted_rpc_owner_cells,
    {
        let shared = self.collect_parent_shared_dependencies_sync(
            construct,
            to_wire,
            owner_into_cell,
        );
        let ghost gathered = shared;
        assert(self.gathers(*construct, *to_wire, *owner_into_cell, gathered));
        shared.hosted_rpc_owner_cells
    }
}

} // verus!
