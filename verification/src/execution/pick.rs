//! Handing out the next test.
use super::materialize;
use super::materialize::Values;
use super::node::{SequentialExecutionLock, SuiteNode};
use super::order;
use super::path;
use super::path::is_prefix_of;
use super::values::DependencyMap;
use crate::internal;
use crate::internal::{RegisteredDependency, RegisteredTest, TestModel};
use crate::text;
use crate::text::{contains_string, str_eq};
use std::sync::Arc;
use vstd::multiset::Multiset;
use vstd::prelude::*;

verus! {

/// What keeps the other tests of a sequential suite from being handed out.
pub enum SequentialExecutionLockGuard {
    /// The suite is not sequential
    Unlocked,
    /// The lock of a sequential suite
    Locked(SequentialExecutionLock),
}

impl SequentialExecutionLockGuard {
    /// The path of the suite whose lock is held.
    pub open spec fn owner(self) -> Option<Seq<char>> {
        match self {
            SequentialExecutionLockGuard::Unlocked => None,
            SequentialExecutionLockGuard::Locked(lock) => Some(lock.owner@),
        }
    }
}

impl SequentialExecutionLock {
    /// The lock is among those that are held.
    pub fn is_locked_sync(&self, held: &Vec<String>) -> (r: bool)
        ensures
            r == text::views(held@).contains(self.owner@),
    {
        contains_string(held, self.owner.as_str())
    }

    /// Takes the lock where it belongs to a sequential suite.
    pub fn lock_sync(&self, is_sequential: bool, held: &mut Vec<String>) -> (r:
        SequentialExecutionLockGuard)
        ensures
            r.owner() == (if is_sequential {
                Some(self.owner@)
            } else {
                None
            }),
            text::views(final(held)@) == (match r.owner() {
                Some(owner) => text::views(old(held)@).push(owner),
                None => text::views(old(held)@),
            }),
    {
        let ghost before = held@;
        if is_sequential {
            held.push(self.owner.clone());
            assert(text::views(held@) =~= text::views(before).push(self.owner@));
            SequentialExecutionLockGuard::Locked(self.clone())
        } else {
            SequentialExecutionLockGuard::Unlocked
        }
    }
}

/// The choice of the next test: the test, the suite it comes from, and the lock that it takes.
#[verifier::ext_equal]
pub struct Choice {
    pub test: TestModel,
    pub suite: Seq<char>,
    pub lock: Option<Seq<char>>,
}

/// A test that was taken out of a suite, with the values that it sees.
#[verifier::reject_recursive_types(V)]
pub struct Picked<V> {
    pub test: RegisteredTest,
    pub deps: DependencyMap<V>,
    pub suite: String,
    pub lock: SequentialExecutionLockGuard,
}

/// The values that the test sees, if there is one.
pub open spec fn seen<V>(picked: Option<Picked<V>>) -> Option<Values<V>> {
    match picked {
        Some(picked) => Some(picked.deps@),
        None => None,
    }
}

/// What happened in a suite and in those below it while the next test was looked for.
#[verifier::reject_recursive_types(V)]
pub struct Visit<V> {
    /// The values of the suite's dependencies
    pub values: Values<V>,
    /// The suites below it, before empty ones are removed
    pub inner: Seq<SuiteNode<V>>,
    /// What happened in these
    pub below: Seq<Visit<V>>,
}

impl<V> SuiteNode<V> {
    /// Neither tests nor suites are left.
    pub open spec fn is_exhausted(self) -> bool {
        self.tests@.len() == 0 && self.inner@.len() == 0
    }

    /// The lock of the suite is held.
    pub open spec fn is_locked(self, held: Set<Seq<char>>) -> bool {
        held.contains(self.sequential_lock.owner@)
    }

    /// The next test comes from this suite itself.
    pub open spec fn takes_own(self, held: Set<Seq<char>>) -> bool {
        self.tests@.len() > 0 && !self.is_locked(held)
    }

    /// The next test while these locks are held: the last one of the suite, or what the first
    /// suite below that has something to offer chooses if this one has no test left or is locked.
    pub open spec fn next(self, held: Set<Seq<char>>) -> Option<Choice>
        decreases self,
    {
        if self.takes_own(held) {
            Some(
                Choice {
                    test: self.tests@.last()@,
                    suite: self.crate_and_module@,
                    lock: if self.is_sequential {
                        Some(self.sequential_lock.owner@)
                    } else {
                        None
                    },
                },
            )
        } else {
            Self::next_among(self.inner@, held)
        }
    }

    /// The choice of the first of the suites that has something to offer.
    pub open spec fn next_among(nodes: Seq<SuiteNode<V>>, held: Set<Seq<char>>) -> Option<Choice>
        decreases nodes,
    {
        if nodes.len() == 0 {
            None
        } else {
            match nodes[0].next(held) {
                Some(choice) => Some(choice),
                None => Self::next_among(nodes.skip(1), held),
            }
        }
    }

    /// The first of the suites that has something to offer, or their number if none has.
    pub open spec fn first_offering(nodes: Seq<SuiteNode<V>>, held: Set<Seq<char>>) -> int
        decreases nodes.len(),
    {
        if nodes.len() == 0 || nodes[0].next(held) is Some {
            0
        } else {
            1 + Self::first_offering(nodes.skip(1), held)
        }
    }

    pub proof fn lemma_first_offering(nodes: Seq<SuiteNode<V>>, held: Set<Seq<char>>)
        ensures
            0 <= Self::first_offering(nodes, held) <= nodes.len(),
            forall|j: int|
                0 <= j < Self::first_offering(nodes, held) ==> (#[trigger] nodes[j]).next(
                    held,
                ) is None,
            Self::first_offering(nodes, held) < nodes.len() ==> nodes[Self::first_offering(
                nodes,
                held,
            )].next(held) is Some,
            Self::next_among(nodes, held) == (if Self::first_offering(nodes, held) < nodes.len() {
                nodes[Self::first_offering(nodes, held)].next(held)
            } else {
                None
            }),
        decreases nodes.len(),
    {
        if nodes.len() > 0 && nodes[0].next(held) is None {
            Self::lemma_first_offering(nodes.skip(1), held);
            assert forall|j: int| 0 <= j < Self::first_offering(nodes, held) implies (
            #[trigger] nodes[j]).next(held) is None by {
                if j > 0 {
                    assert(nodes.skip(1)[j - 1] == nodes[j]);
                }
            }
        }
    }

    /// A suite that offers a test holds one.
    pub proof fn lemma_next_counts(self, held: Set<Seq<char>>)
        ensures
            self.next(held) is Some ==> self.total() > 0 && !self.is_exhausted(),
            self.next(held) matches Some(choice) ==> self.tests_below().count(choice.test) > 0,
        decreases self,
    {
        broadcast use vstd::seq_lib::group_to_multiset_ensures;

        if self.takes_own(held) {
            let tests = internal::test_views(self.tests@);
            assert(tests.last() == self.tests@.last()@);
            assert(tests.contains(tests.last()));
        } else {
            Self::lemma_first_offering(self.inner@, held);
            let k = Self::first_offering(self.inner@, held);
            if k < self.inner@.len() {
                self.inner@[k].lemma_next_counts(held);
                Self::lemma_total_update(self.inner@, k, self.inner@[k]);
                Self::lemma_among_contains(self.inner@, k);
            }
        }
    }

    proof fn lemma_among_contains(nodes: Seq<SuiteNode<V>>, k: int)
        requires
            0 <= k < nodes.len(),
        ensures
            forall|t: TestModel|
                #[trigger] nodes[k].tests_below().count(t) <= Self::tests_among(nodes).count(t),
        decreases nodes.len(),
    {
        if k < nodes.len() - 1 {
            Self::lemma_among_contains(nodes.drop_last(), k);
            assert(nodes.drop_last()[k] == nodes[k]);
        }
        assert forall|t: TestModel| #[trigger]
            nodes[k].tests_below().count(t) <= Self::tests_among(nodes).count(t) by {
            assert(Self::tests_among(nodes).count(t) == Self::tests_among(nodes.drop_last()).count(
                t,
            ) + nodes.last().tests_below().count(t));
        }
    }

    /// The suites that still hold something.
    pub open spec fn unexhausted(nodes: Seq<SuiteNode<V>>) -> Seq<SuiteNode<V>> {
        nodes.filter(|n: SuiteNode<V>| !n.is_exhausted())
    }

    /// What the search for the next test does not touch.
    pub open spec fn same_fixture(self, other: SuiteNode<V>) -> bool {
        &&& other.crate_and_module == self.crate_and_module
        &&& other.dependencies == self.dependencies
        &&& other.props == self.props
        &&& other.sequential_lock == self.sequential_lock
        &&& other.is_sequential == self.is_sequential
        &&& other.skip_creating_dependencies == self.skip_creating_dependencies
        &&& other.materialized_dependencies.wf()
    }

    /// `other` is what is left of this suite after the next test was looked for; `deps` are the
    /// values that the test sees, if there is one.
    ///
    /// A suite that is visited constructs its missing values first. It then gives its last test,
    /// or lets the suites below try in turn until one gives a test; of these only suites that
    /// still hold something remain. A visited suite that holds nothing any more drops its values
    /// once none of its tests is running.
    pub open spec fn advanced_to<F: Fn(&RegisteredDependency, &DependencyMap<V>) -> Arc<V>>(
        self,
        construct: F,
        held: Set<Seq<char>>,
        parent: Values<V>,
        visit: Visit<V>,
        other: SuiteNode<V>,
        deps: Option<Values<V>>,
    ) -> bool
        decreases self,
    {
        let visible = parent.union_prefer_right(visit.values);
        let k = Self::first_offering(self.inner@, held);
        if self.is_exhausted() {
            other == self && deps is None
        } else if self.takes_own(held) {
            &&& self.same_fixture(other)
            &&& self.materialized_as(construct, parent, visit.values)
            &&& other.materialized_dependencies@ == visit.values
            &&& other.tests@ == self.tests@.drop_last()
            &&& other.inner == self.inner
            &&& other.in_progress == self.in_progress + 1
            &&& other.remaining_count == self.remaining_count - 1
            &&& deps == Some(visible)
        } else {
            &&& self.same_fixture(other)
            &&& self.materialized_as(construct, parent, visit.values)
            &&& other.tests == self.tests
            &&& other.in_progress == self.in_progress
            &&& visit.inner.len() == self.inner@.len()
            &&& visit.below.len() == self.inner@.len()
            &&& forall|i: int|
                0 <= i < self.inner@.len() && i < k ==> (#[trigger] self.inner@[i]).advanced_to(
                    construct,
                    held,
                    visible,
                    visit.below[i],
                    visit.inner[i],
                    None,
                )
            &&& 0 <= k < self.inner@.len() ==> deps is Some && self.inner@[k].advanced_to(
                construct,
                held,
                visible,
                visit.below[k],
                visit.inner[k],
                deps,
            )
            &&& forall|i: int|
                k < i < self.inner@.len() ==> visit.inner[i] == #[trigger] self.inner@[i]
            &&& k >= self.inner@.len() ==> deps is None
            &&& other.inner@ == Self::unexhausted(visit.inner)
            &&& other.remaining_count == self.remaining_count - (if deps is Some {
                1int
            } else {
                0
            })
            &&& other.materialized_dependencies@ == (if deps is None && other.is_exhausted()
                && self.complete_with(visit.values) && !self.is_locked(held) && self.in_progress
                == 0 {
                Map::empty()
            } else {
                visit.values
            })
        }
    }
}

/// The locks that are held.
pub open spec fn held_set(held: Seq<String>) -> Set<Seq<char>> {
    Set::new(|p: Seq<char>| text::views(held).contains(p))
}

/// The suites that still hold something.
fn retain_unexhausted<V>(nodes: Vec<SuiteNode<V>>) -> (r: Vec<SuiteNode<V>>)
    ensures
        r@ == SuiteNode::unexhausted(nodes@),
{
    let ghost all = nodes@;
    let ghost keep = |n: SuiteNode<V>| !n.is_exhausted();
    let mut nodes = nodes;
    let mut back: Vec<SuiteNode<V>> = Vec::new();
    // `back` holds, in reverse, what is kept of the tail that was taken off `nodes`.
    assert(back@.reverse() =~= Seq::<SuiteNode<V>>::empty());
    proof {
        reveal(Seq::filter);
        assert(all.skip(all.len() as int).filter(keep) =~= Seq::empty());
    }
    while nodes.len() > 0
        invariant
            nodes@.len() <= all.len(),
            nodes@ == all.take(nodes@.len() as int),
            keep == (|n: SuiteNode<V>| !n.is_exhausted()),
            back@.reverse() == all.skip(nodes@.len() as int).filter(keep),
        decreases nodes.len(),
    {
        let ghost before = back@;
        let ghost m = nodes@.len() as int;
        match nodes.pop() {
            Some(node) => {
                proof {
                    let head = seq![node];
                    assert(all.skip(m - 1) =~= head + all.skip(m));
                    Seq::filter_distributes_over_add(head, all.skip(m), keep);
                    reveal(Seq::filter);
                    assert(head.drop_last() =~= Seq::empty());
                    assert(head.drop_last().filter(keep) =~= Seq::empty());
                    assert(head.filter(keep) =~= (if keep(node) {
                        head
                    } else {
                        Seq::empty()
                    }));
                }
                if !(node.tests.is_empty() && node.inner.is_empty()) {
                    back.push(node);
                    assert(back@.reverse() =~= seq![node] + before.reverse());
                } else {
                    assert(all.skip(m - 1).filter(keep) =~= all.skip(m).filter(keep));
                }
            },
            None => {},
        }
    }
    assert(all.skip(0) =~= all);
    let mut r: Vec<SuiteNode<V>> = Vec::new();
    let ghost whole = back@;
    while back.len() > 0
        invariant
            back@.len() <= whole.len(),
            back@ == whole.take(back@.len() as int),
            r@ == whole.reverse().take(whole.len() - back@.len()),
        decreases back.len(),
    {
        let ghost m = back@.len() as int;
        let ghost before = r@;
        match back.pop() {
            Some(node) => {
                r.push(node);
                assert(whole.reverse()[whole.len() - m] == node);
                assert(r@ =~= whole.reverse().take(whole.len() - m + 1));
            },
            None => {},
        }
    }
    assert(r@ =~= whole.reverse());
    r
}

impl<V> SuiteNode<V> {
    pub fn is_empty(&self) -> (r: bool)
        ensures
            r == self.is_exhausted(),
    {
        self.tests.is_empty() && self.inner.is_empty()
    }

    /// Takes the next test out of this suite or one below it.
    #[verifier::rlimit(40)]
    pub fn pick_next_internal_sync<
        F: Fn(&RegisteredDependency, &DependencyMap<V>) -> Arc<V>,
    >(
        &mut self,
        materialized_parent_deps: &DependencyMap<V>,
        held: &mut Vec<String>,
        construct: &F,
    ) -> (r: Option<Picked<V>>)
        requires
            old(self).wf(),
            materialized_parent_deps.wf(),
            materialize::constructs_any(*construct),
        ensures
            r is Some <==> old(self).next(held_set(old(held)@)) is Some,
            r matches Some(picked) ==> picked.deps.wf() && old(self).next(held_set(old(held)@))
                == Some(
                Choice {
                    test: picked.test@,
                    suite: picked.suite@,
                    lock: picked.lock.owner(),
                },
            ),
            text::views(final(held)@) == (match r {
                Some(picked) => match picked.lock.owner() {
                    Some(owner) => text::views(old(held)@).push(owner),
                    None => text::views(old(held)@),
                },
                None => text::views(old(held)@),
            }),
            exists|visit: Visit<V>| #[trigger]
                old(self).advanced_to(
                    *construct,
                    held_set(old(held)@),
                    materialized_parent_deps@,
                    visit,
                    *final(self),
                    seen(r),
                ),
        decreases *old(self),
    {
        let ghost before = *self;
        let ghost locks = held_set(held@);
        let ghost parent = materialized_parent_deps@;
        proof {
            before.lemma_next_counts(locks);
            Self::lemma_first_offering(before.inner@, locks);
        }
        if self.is_empty() {
            assert(before.next(locks) is None);
            let ghost nothing = Visit {
                values: Map::empty(),
                inner: Seq::empty(),
                below: Seq::empty(),
            };
            assert(before.advanced_to(*construct, locks, parent, nothing, *self, None));
            return None;
        }
        let dependency_map = if !self.is_materialized() {
            self.materialize_deps_sync(materialized_parent_deps, construct)
        } else {
            self.create_dependency_map(materialized_parent_deps)
        };
        let ghost values = self.materialized_dependencies@;
        let ghost visible = parent.union_prefer_right(values);
        assert(dependency_map@ == visible);
        assert(before.materialized_as(*construct, parent, values));
        assert(*self == (SuiteNode {
            materialized_dependencies: self.materialized_dependencies,
            ..before
        }));
        let locked = self.sequential_lock.is_locked_sync(held);
        assert(locked == before.is_locked(locks));
        if !self.tests.is_empty() && !locked {
            assert(before.takes_own(locks));
            let guard = self.sequential_lock.lock_sync(self.is_sequential, held);
            self.in_progress = self.in_progress + 1;
            self.remaining_count = self.remaining_count - 1;
            let suite = self.crate_and_module.clone();
            match self.tests.pop() {
                Some(test) => {
                    let ghost visit = Visit {
                        values,
                        inner: Seq::empty(),
                        below: Seq::empty(),
                    };
                    assert(before.advanced_to(
                        *construct,
                        locks,
                        parent,
                        visit,
                        *self,
                        Some(dependency_map@),
                    ));
                    return Some(Picked { test, deps: dependency_map, suite, lock: guard });
                },
                None => {
                    return None;
                },
            }
        }
        let ghost k = Self::first_offering(before.inner@, locks);
        let mut result: Option<Picked<V>> = None;
        let ghost mut below: Seq<Visit<V>> = Seq::empty();
        let mut i: usize = 0;
        while i < self.inner.len() && result.is_none()
            invariant
                i <= self.inner.len(),
                before == *old(self),
                before.wf(),
                self.inner@.len() == before.inner@.len(),
                *self == (SuiteNode {
                    materialized_dependencies: self.materialized_dependencies,
                    inner: self.inner,
                    ..before
                }),
                self.materialized_dependencies.wf(),
                self.materialized_dependencies@ == values,
                dependency_map.wf(),
                dependency_map@ == visible,
                materialize::constructs_any(*construct),
                k == Self::first_offering(before.inner@, locks),
                0 <= k <= before.inner@.len(),
                below.len() == i,
                forall|j: int|
                    0 <= j < k ==> (#[trigger] before.inner@[j]).next(locks) is None,
                k < before.inner@.len() ==> before.inner@[k].next(locks) is Some,
                forall|j: int|
                    0 <= j < i && j < k ==> (#[trigger] before.inner@[j]).advanced_to(
                        *construct,
                        locks,
                        visible,
                        below[j],
                        self.inner@[j],
                        None,
                    ),
                forall|j: int|
                    i <= j < before.inner@.len() ==> #[trigger] self.inner@[j]
                        == before.inner@[j],
                result is Some <==> k < i,
                i <= k + 1,
                locks == held_set(old(held)@),
                result is None ==> text::views(held@) == text::views(old(held)@),
                result matches Some(picked) ==> {
                    &&& k == i - 1
                    &&& picked.deps.wf()
                    &&& before.inner@[k].next(locks) == Some(
                        Choice {
                            test: picked.test@,
                            suite: picked.suite@,
                            lock: picked.lock.owner(),
                        },
                    )
                    &&& text::views(held@) == (match picked.lock.owner() {
                        Some(owner) => text::views(old(held)@).push(owner),
                        None => text::views(old(held)@),
                    })
                    &&& before.inner@[k].advanced_to(
                        *construct,
                        locks,
                        visible,
                        below[k],
                        self.inner@[k],
                        Some(picked.deps@),
                    )
                },
            decreases self.inner.len() - i,
        {
            let ghost at_start = self.inner@;
            let ghost child = before.inner@[i as int];
            assert(self.inner@[i as int] == child);
            assert(child.wf());
            assert(held_set(held@) =~= locks);
            result = self.inner[i].pick_next_internal_sync(&dependency_map, held, construct);
            proof {
                assert(self.inner@ =~= at_start.update(i as int, self.inner@[i as int]));
                let got = seen(result);
                let visit = choose|visit: Visit<V>| #[trigger]
                    child.advanced_to(
                        *construct,
                        locks,
                        visible,
                        visit,
                        self.inner@[i as int],
                        got,
                    );
                below = below.push(visit);
                if i < k {
                    assert(before.inner@[i as int].next(locks) is None);
                }
            }
            i = i + 1;
        }
        let ghost tried = below;
        let ghost mid = self.inner@;
        let ghost whole: Seq<Visit<V>> = Seq::new(
            before.inner@.len(),
            |j: int|
                if j < tried.len() {
                    tried[j]
                } else {
                    Visit { values: Map::empty(), inner: Seq::empty(), below: Seq::empty() }
                },
        );
        let mut inner: Vec<SuiteNode<V>> = Vec::new();
        std::mem::swap(&mut inner, &mut self.inner);
        self.inner = retain_unexhausted(inner);
        if result.is_none() && self.is_empty() && self.is_materialized() && !locked
            && self.in_progress == 0 {
            self.materialized_dependencies.clear();
        }
        if result.is_some() {
            self.remaining_count = self.remaining_count - 1;
        }
        proof {
            let visit = Visit { values, inner: mid, below: whole };
            let got = seen(result);
            assert forall|j: int| 0 <= j < before.inner@.len() && j < k implies (
            #[trigger] before.inner@[j]).advanced_to(
                *construct,
                locks,
                visible,
                whole[j],
                mid[j],
                None,
            ) by {
                assert(whole[j] == tried[j]);
            }
            if k < before.inner@.len() {
                assert(whole[k] == tried[k]);
            }
            assert(before.advanced_to(*construct, locks, parent, visit, *self, got));
        }
        result
    }
}

impl<V> SuiteNode<V> {
    pub proof fn lemma_drop_exhausted(nodes: Seq<SuiteNode<V>>)
        ensures
            Self::total_of(Self::unexhausted(nodes)) == Self::total_of(nodes),
            Self::tests_among(Self::unexhausted(nodes)) == Self::tests_among(nodes),
            (forall|i: int, j: int|
                0 <= i < j < nodes.len() ==> (#[trigger] nodes[i]).crate_and_module@ != (
                #[trigger] nodes[j]).crate_and_module@) ==> (forall|i: int, j: int|
                0 <= i < j < Self::unexhausted(nodes).len() ==> (
                #[trigger] Self::unexhausted(nodes)[i]).crate_and_module@ != (
                #[trigger] Self::unexhausted(nodes)[j]).crate_and_module@),
            forall|i: int|
                0 <= i < Self::unexhausted(nodes).len() ==> nodes.contains(
                    #[trigger] Self::unexhausted(nodes)[i],
                ),
        decreases nodes.len(),
    {
        reveal(Seq::filter);
        let keep = |n: SuiteNode<V>| !n.is_exhausted();
        let kept = Self::unexhausted(nodes);
        if nodes.len() > 0 {
            let init = nodes.drop_last();
            let last = nodes.last();
            let kept_init = Self::unexhausted(init);
            Self::lemma_drop_exhausted(init);
            if keep(last) {
                assert(kept.drop_last() =~= kept_init);
            } else {
                broadcast use vstd::seq_lib::group_to_multiset_ensures;

                assert(internal::test_views(last.tests@) =~= Seq::empty());
                assert(last.tests_below() =~= Multiset::empty());
                assert(last.total() == 0);
                assert(kept =~= kept_init);
                assert(Self::tests_among(nodes) =~= Self::tests_among(init));
            }
            assert forall|i: int| 0 <= i < kept.len() implies nodes.contains(
                #[trigger] kept[i],
            ) by {
                if i < kept_init.len() {
                    assert(kept[i] == kept_init[i]);
                    assert(init.contains(kept_init[i]));
                    let k = init.index_of(kept_init[i]);
                    assert(nodes[k] == kept[i]);
                } else {
                    assert(nodes[nodes.len() - 1] == kept[i]);
                }
            }
            if forall|i: int, j: int|
                0 <= i < j < nodes.len() ==> (#[trigger] nodes[i]).crate_and_module@ != (
                #[trigger] nodes[j]).crate_and_module@ {
                assert forall|i: int, j: int| 0 <= i < j < init.len() implies (
                #[trigger] init[i]).crate_and_module@ != (
                #[trigger] init[j]).crate_and_module@ by {
                    assert(init[i] == nodes[i] && init[j] == nodes[j]);
                }
                assert forall|i: int, j: int| 0 <= i < j < kept.len() implies (
                #[trigger] kept[i]).crate_and_module@ != (
                #[trigger] kept[j]).crate_and_module@ by {
                    if j < kept_init.len() {
                        assert(kept[i] == kept_init[i] && kept[j] == kept_init[j]);
                    } else {
                        assert(kept[i] == kept_init[i]);
                        assert(init.contains(kept_init[i]));
                        let k = init.index_of(kept_init[i]);
                        assert(nodes[k] == kept[i]);
                        assert(nodes[nodes.len() - 1] == kept[j]);
                    }
                }
            }
        }
    }

    /// Looking for the next test takes exactly the chosen test out of the plan, and none if there
    /// is no choice.
    #[verifier::rlimit(40)]
    pub proof fn advancing_takes_the_choice<
        F: Fn(&RegisteredDependency, &DependencyMap<V>) -> Arc<V>,
    >(
        self,
        construct: F,
        held: Set<Seq<char>>,
        parent: Values<V>,
        visit: Visit<V>,
        other: SuiteNode<V>,
        deps: Option<Values<V>>,
    )
        requires
            self.wf(),
            self.advanced_to(construct, held, parent, visit, other, deps),
        ensures
            other.wf(),
            other.crate_and_module == self.crate_and_module,
            deps is Some <==> self.next(held) is Some,
            match self.next(held) {
                Some(choice) => {
                    &&& self.tests_below().count(choice.test) > 0
                    &&& other.tests_below() == self.tests_below().remove(choice.test)
                    &&& other.total() == self.total() - 1
                },
                None => {
                    &&& other.tests_below() == self.tests_below()
                    &&& other.total() == self.total()
                },
            },
        decreases self,
    {
        broadcast use vstd::seq_lib::group_to_multiset_ensures;

        self.lemma_next_counts(held);
        Self::lemma_first_offering(self.inner@, held);
        if self.is_exhausted() {
        } else if self.takes_own(held) {
            let tests = internal::test_views(self.tests@);
            let last = tests.len() - 1;
            assert(internal::test_views(other.tests@) =~= tests.remove(last));
            tests.to_multiset_ensures();
            let t = tests[last];
            assert(tests.contains(t));
            assert(other.tests_below() =~= self.tests_below().remove(t));
        } else {
            let k = Self::first_offering(self.inner@, held);
            let visible = parent.union_prefer_right(visit.values);
            let mid = visit.inner;
            assert forall|i: int| 0 <= i < self.inner@.len() && i != k implies {
                let (a, b) = (self.inner@[i], #[trigger] mid[i]);
                &&& b.wf()
                &&& b.crate_and_module == a.crate_and_module
                &&& b.tests_below() == a.tests_below()
                &&& b.total() == a.total()
            } by {
                let a = self.inner@[i];
                assert(a.wf());
                if i < k {
                    a.advancing_takes_the_choice(
                        construct,
                        held,
                        visible,
                        visit.below[i],
                        mid[i],
                        None,
                    );
                }
            }
            if k < self.inner@.len() {
                let a = self.inner@[k];
                assert(a.wf());
                a.advancing_takes_the_choice(
                    construct,
                    held,
                    visible,
                    visit.below[k],
                    mid[k],
                    deps,
                );
                // All suites but the one that gave the test are as before.
                let put_back = mid.update(k, a);
                assert forall|i: int| 0 <= i < put_back.len() implies (
                #[trigger] put_back[i]).total() == self.inner@[i].total()
                    && put_back[i].tests_below() == self.inner@[i].tests_below() by {
                    if i != k {
                        assert(put_back[i] == mid[i]);
                    }
                }
                Self::lemma_pointwise(put_back, self.inner@);
                Self::lemma_total_update(mid, k, a);
                Self::lemma_tests_update(mid, k, a);
                let choice = a.next(held)->0;
                assert forall|t: TestModel| #[trigger]
                    Self::tests_among(mid).count(t) == Self::tests_among(self.inner@).remove(
                        choice.test,
                    ).count(t) by {
                    assert(Self::tests_among(put_back).count(t) + mid[k].tests_below().count(t)
                        == Self::tests_among(mid).count(t) + a.tests_below().count(t));
                    Self::lemma_among_contains(self.inner@, k);
                }
                assert(Self::tests_among(mid) =~= Self::tests_among(self.inner@).remove(
                    choice.test,
                ));
                Self::lemma_among_contains(self.inner@, k);
                assert(Self::tests_among(self.inner@).count(choice.test) > 0);
            } else {
                Self::lemma_pointwise(mid, self.inner@);
            }
            Self::lemma_drop_exhausted(mid);
            let kept = Self::unexhausted(mid);
            assert(other.inner@ == kept);
            assert forall|i: int| 0 <= i < mid.len() implies (#[trigger] mid[i]).wf()
                && mid[i].crate_and_module == self.inner@[i].crate_and_module by {}
            assert forall|i: int| 0 <= i < kept.len() implies (#[trigger] kept[i]).wf()
                && path::directly_below(
                other.crate_and_module@,
                kept[i].crate_and_module@,
            ) by {
                assert(mid.contains(kept[i]));
                let j = mid.index_of(kept[i]);
                assert(mid[j] == kept[i]);
                assert(self.inner@[j].wf());
            }
            assert forall|i: int, j: int| 0 <= i < j < mid.len() implies (
            #[trigger] mid[i]).crate_and_module@ != (#[trigger] mid[j]).crate_and_module@ by {
                assert(self.inner@[i].crate_and_module@ != self.inner@[j].crate_and_module@);
            }
            if let Some(choice) = self.next(held) {
                assert(other.tests_below() =~= self.tests_below().remove(choice.test));
            }
        }
    }
}

impl<V> SuiteNode<V> {
    /// A test is never handed out under a lock that is held.
    pub proof fn choice_takes_a_free_lock(self, held: Set<Seq<char>>)
        ensures
            self.next(held) matches Some(choice) ==> (choice.lock matches Some(owner)
                ==> !held.contains(owner)),
        decreases self,
    {
        if !self.takes_own(held) {
            Self::lemma_first_offering(self.inner@, held);
            let k = Self::first_offering(self.inner@, held);
            if k < self.inner@.len() {
                self.inner@[k].choice_takes_a_free_lock(held);
            }
        }
    }

    /// While the lock of a sequential suite is held, neither it nor any suite below it gives a
    /// test.
    pub proof fn held_lock_blocks_suite(self, held: Set<Seq<char>>)
        requires
            self.locks_shared(),
            self.is_sequential,
            self.is_locked(held),
        ensures
            self.next(held) is None,
        decreases self,
    {
        Self::lemma_first_offering(self.inner@, held);
        let k = Self::first_offering(self.inner@, held);
        if k < self.inner@.len() {
            self.inner@[k].held_lock_blocks_suite(held);
        }
    }

    /// Looking for the next test leaves the sharing of locks as it is.
    pub proof fn advancing_keeps_locks<
        F: Fn(&RegisteredDependency, &DependencyMap<V>) -> Arc<V>,
    >(
        self,
        construct: F,
        held: Set<Seq<char>>,
        parent: Values<V>,
        visit: Visit<V>,
        other: SuiteNode<V>,
        deps: Option<Values<V>>,
    )
        requires
            self.locks_shared(),
            self.advanced_to(construct, held, parent, visit, other, deps),
        ensures
            other.locks_shared(),
            other.sequential_lock == self.sequential_lock,
            other.is_sequential == self.is_sequential,
        decreases self,
    {
        if !self.is_exhausted() && !self.takes_own(held) {
            let k = Self::first_offering(self.inner@, held);
            Self::lemma_first_offering(self.inner@, held);
            let visible = parent.union_prefer_right(visit.values);
            let mid = visit.inner;
            assert forall|i: int| 0 <= i < mid.len() implies {
                let child = #[trigger] mid[i];
                &&& child.locks_shared()
                &&& child.sequential_lock == self.inner@[i].sequential_lock
                &&& child.is_sequential == self.inner@[i].is_sequential
            } by {
                let a = self.inner@[i];
                assert(a.locks_shared());
                if i <= k {
                    let got = if i < k {
                        None
                    } else {
                        deps
                    };
                    a.advancing_keeps_locks(
                        construct,
                        held,
                        visible,
                        visit.below[i],
                        mid[i],
                        got,
                    );
                }
            }
            Self::lemma_drop_exhausted(mid);
            assert forall|i: int| 0 <= i < other.inner@.len() implies {
                let child = #[trigger] other.inner@[i];
                &&& child.locks_shared()
                &&& other.is_sequential ==> child.is_sequential && child.sequential_lock
                    == other.sequential_lock
            } by {
                assert(mid.contains(Self::unexhausted(mid)[i]));
                let j = mid.index_of(other.inner@[i]);
                assert(mid[j] == other.inner@[i]);
                assert(self.inner@[j].locks_shared());
            }
        }
    }

    /// A test sees the values of all suites that enclose it: what an enclosing suite hands down
    /// and what this suite adds are there under their names.
    pub proof fn advancing_shows_values<
        F: Fn(&RegisteredDependency, &DependencyMap<V>) -> Arc<V>,
    >(
        self,
        construct: F,
        held: Set<Seq<char>>,
        parent: Values<V>,
        visit: Visit<V>,
        other: SuiteNode<V>,
        deps: Values<V>,
    )
        requires
            self.advanced_to(construct, held, parent, visit, other, Some(deps)),
        ensures
            forall|n: Seq<char>|
                parent.contains_key(n) || visit.values.contains_key(n) ==> #[trigger]
                    deps.contains_key(n),
        decreases self,
    {
        if !self.is_exhausted() && !self.takes_own(held) {
            let k = Self::first_offering(self.inner@, held);
            Self::lemma_first_offering(self.inner@, held);
            let visible = parent.union_prefer_right(visit.values);
            self.inner@[k].advancing_shows_values(
                construct,
                held,
                visible,
                visit.below[k],
                visit.inner[k],
                deps,
            );
        }
    }

    /// A value that a visited suite has stays its value until the suite holds nothing any more:
    /// its constructor does not run again.
    pub proof fn advancing_keeps_values<
        F: Fn(&RegisteredDependency, &DependencyMap<V>) -> Arc<V>,
    >(
        self,
        construct: F,
        held: Set<Seq<char>>,
        parent: Values<V>,
        visit: Visit<V>,
        other: SuiteNode<V>,
        deps: Option<Values<V>>,
    )
        requires
            self.advanced_to(construct, held, parent, visit, other, deps),
        ensures
            other.is_exhausted() || self.materialized_dependencies@.submap_of(
                other.materialized_dependencies@,
            ),
    {
        if !self.is_exhausted() {
            if !self.complete_with(self.materialized_dependencies@) {
                let views = internal::dependency_views(self.dependencies@);
                let order = choose|order: Seq<usize>|
                    order::is_construction_order(views, order)
                        && #[trigger] materialize::constructs_all(
                        construct,
                        views,
                        order,
                        parent,
                        self.materialized_dependencies@,
                        visit.values,
                    );
                materialize::constructing_keeps_values(
                    construct,
                    views,
                    order,
                    parent,
                    self.materialized_dependencies@,
                    visit.values,
                );
            }
        }
    }

    /// Whatever is left of the suite at a path after a test was looked for has all values that it
    /// had before, unless it holds nothing any more: no constructor of the plan runs again while
    /// tests of its suite are left.
    pub proof fn values_survive<
        F: Fn(&RegisteredDependency, &DependencyMap<V>) -> Arc<V>,
    >(
        self,
        construct: F,
        held: Set<Seq<char>>,
        parent: Values<V>,
        visit: Visit<V>,
        other: SuiteNode<V>,
        deps: Option<Values<V>>,
        path: Seq<char>,
    )
        requires
            self.wf(),
            path::is_unambiguous(path),
            self.advanced_to(construct, held, parent, visit, other, deps),
        ensures
            other.node_at(path) matches Some(after) ==> {
                &&& self.node_at(path) is Some
                &&& after.is_exhausted()
                    || self.node_at(path)->0.materialized_dependencies@.submap_of(
                    after.materialized_dependencies@,
                )
            },
        decreases self,
    {
        self.advancing_keeps_values(construct, held, parent, visit, other, deps);
        if !self.is_exhausted() && !self.takes_own(held) && self.crate_and_module@ != path {
            let k = Self::first_offering(self.inner@, held);
            Self::lemma_first_offering(self.inner@, held);
            let visible = parent.union_prefer_right(visit.values);
            let mid = visit.inner;
            Self::lemma_drop_exhausted(mid);
            Self::lemma_route(self.inner@, path);
            Self::lemma_route(other.inner@, path);
            let r = Self::route(other.inner@, path);
            if r < other.inner@.len() {
                assert(mid.contains(Self::unexhausted(mid)[r]));
                let j = mid.index_of(other.inner@[r]);
                assert(mid[j] == other.inner@[r]);
                let a = self.inner@[j];
                assert(a.wf());
                assert(mid[j].crate_and_module == a.crate_and_module) by {
                    if j < k {
                        a.advancing_takes_the_choice(
                            construct,
                            held,
                            visible,
                            visit.below[j],
                            mid[j],
                            None,
                        );
                    } else if j == k {
                        a.advancing_takes_the_choice(
                            construct,
                            held,
                            visible,
                            visit.below[j],
                            mid[j],
                            deps,
                        );
                    }
                }
                assert forall|i: int| 0 <= i < j implies !path::encloses(
                    (#[trigger] self.inner@[i]).crate_and_module@,
                    path,
                ) by {
                    let c = self.inner@[i];
                    assert(c.wf());
                    assert(c.crate_and_module@ != a.crate_and_module@);
                    if path::encloses(c.crate_and_module@, path) {
                        path::lemma_one_way(
                            self.crate_and_module@,
                            c.crate_and_module@,
                            a.crate_and_module@,
                            path,
                        );
                    }
                }
                Self::lemma_route_is(self.inner@, path, j);
                if j <= k {
                    let got = if j < k {
                        None
                    } else {
                        deps
                    };
                    a.values_survive(
                        construct,
                        held,
                        visible,
                        visit.below[j],
                        mid[j],
                        got,
                        path,
                    );
                }
            }
        }
    }

    /// `other` is this suite with one test less in progress in the suite at `path`.
    pub open spec fn finished_to(self, path: Seq<char>, other: SuiteNode<V>) -> bool
        decreases self,
    {
        let r = Self::route(self.inner@, path);
        if self.crate_and_module@ == path {
            other == (SuiteNode {
                in_progress: if self.in_progress > 0 {
                    (self.in_progress - 1) as usize
                } else {
                    0
                },
                ..self
            })
        } else if 0 <= r < self.inner@.len() {
            &&& other == (SuiteNode { inner: other.inner, ..self })
            &&& other.inner@ == self.inner@.update(r, other.inner@[r])
            &&& self.inner@[r].finished_to(path, other.inner@[r])
        } else {
            other == self
        }
    }

    /// Notes that a test of the suite at `path` is finished, if the suite still stands.
    pub fn finish(&mut self, path: &str)
        ensures
            old(self).finished_to(path@, *final(self)),
        decreases *old(self),
    {
        let ghost before = *self;
        if str_eq(self.crate_and_module.as_str(), path) {
            if self.in_progress > 0 {
                self.in_progress = self.in_progress - 1;
            }
            return;
        }
        let mut i: usize = 0;
        while i < self.inner.len() && !is_prefix_of(self.inner[i].crate_and_module.as_str(), path)
            invariant
                i <= self.inner.len(),
                *self == before,
                forall|j: int|
                    0 <= j < i ==> !path::encloses(
                        (#[trigger] before.inner@[j]).crate_and_module@,
                        path@,
                    ),
            decreases self.inner.len() - i,
        {
            i = i + 1;
        }
        proof {
            Self::lemma_route_is(before.inner@, path@, i as int);
        }
        if i < self.inner.len() {
            self.inner[i].finish(path);
            assert(self.inner@ =~= before.inner@.update(i as int, self.inner@[i as int]));
        }
    }

    /// Finishing a test changes nothing but a count.
    pub proof fn finishing_keeps_tests(self, path: Seq<char>, other: SuiteNode<V>)
        requires
            self.wf(),
            self.finished_to(path, other),
        ensures
            other.wf(),
            other.total() == self.total(),
            other.tests_below() == self.tests_below(),
            other.crate_and_module == self.crate_and_module,
            other.sequential_lock == self.sequential_lock,
            other.is_sequential == self.is_sequential,
            self.locks_shared() ==> other.locks_shared(),
        decreases self,
    {
        let r = Self::route(self.inner@, path);
        if self.crate_and_module@ == path {
            assert(other.inner == self.inner);
        } else if 0 <= r < self.inner@.len() {
            let (a, b) = (self.inner@[r], other.inner@[r]);
            assert(a.wf());
            a.finishing_keeps_tests(path, b);
            Self::lemma_total_update(self.inner@, r, b);
            Self::lemma_tests_update(self.inner@, r, b);
            assert(Self::tests_among(other.inner@) =~= Self::tests_among(self.inner@)) by {
                assert forall|t: TestModel| #[trigger]
                    Self::tests_among(other.inner@).count(t) == Self::tests_among(
                        self.inner@,
                    ).count(t) by {}
            }
            assert forall|i: int| 0 <= i < other.inner@.len() implies (
            #[trigger] other.inner@[i]).wf() && path::directly_below(
                other.crate_and_module@,
                other.inner@[i].crate_and_module@,
            ) by {
                assert(self.inner@[i].wf());
            }
            assert forall|i: int, j: int| 0 <= i < j < other.inner@.len() implies (
            #[trigger] other.inner@[i]).crate_and_module@ != (
            #[trigger] other.inner@[j]).crate_and_module@ by {
                assert(self.inner@[i].crate_and_module@ != self.inner@[j].crate_and_module@);
            }
            if self.locks_shared() {
                assert(a.locks_shared());
                assert forall|i: int| 0 <= i < other.inner@.len() implies {
                    let child = #[trigger] other.inner@[i];
                    &&& child.locks_shared()
                    &&& other.is_sequential ==> child.is_sequential && child.sequential_lock
                        == other.sequential_lock
                } by {
                    assert(self.inner@[i].locks_shared());
                }
            }
        }
    }
}

} // verus!
