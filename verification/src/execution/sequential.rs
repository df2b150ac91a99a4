//! Sequential suites: at most one of their tests runs at a time.
use super::node::{SequentialExecutionLock, SuiteNode};
use super::path;
use vstd::prelude::*;

verus! {

impl<V> SuiteNode<V> {
    /// The lock that the suites below get from this one.
    pub open spec fn lock_for_children(self) -> Option<SequentialExecutionLock> {
        if self.is_sequential {
            Some(self.sequential_lock)
        } else {
            None
        }
    }

    /// The two suites differ in what makes them sequential and in the suites below at most.
    pub open spec fn same_but_locks(self, other: SuiteNode<V>) -> bool {
        &&& other.crate_and_module == self.crate_and_module
        &&& other.dependencies == self.dependencies
        &&& other.tests == self.tests
        &&& other.props == self.props
        &&& other.materialized_dependencies == self.materialized_dependencies
        &&& other.remaining_count == self.remaining_count
        &&& other.skip_creating_dependencies == self.skip_creating_dependencies
        &&& other.in_progress == self.in_progress
        &&& other.inner@.len() == self.inner@.len()
    }

    /// `other` is this suite with the lock of a sequential suite handed down to all suites below
    /// it, starting with the lock that comes from above.
    pub open spec fn handed_down_to(
        self,
        inherited: Option<SequentialExecutionLock>,
        other: SuiteNode<V>,
    ) -> bool
        decreases self,
    {
        &&& self.same_but_locks(other)
        &&& other.is_sequential == (self.is_sequential || inherited is Some)
        &&& other.sequential_lock == (match inherited {
            Some(lock) => lock,
            None => self.sequential_lock,
        })
        &&& forall|i: int|
            0 <= i < self.inner@.len() ==> (#[trigger] self.inner@[i]).handed_down_to(
                other.lock_for_children(),
                other.inner@[i],
            )
    }

    /// All suites below a sequential one are sequential and share its lock.
    pub open spec fn locks_shared(self) -> bool
        decreases self,
    {
        forall|i: int|
            0 <= i < self.inner@.len() ==> {
                let child = #[trigger] self.inner@[i];
                &&& child.locks_shared()
                &&& self.is_sequential ==> child.is_sequential && child.sequential_lock
                    == self.sequential_lock
            }
    }

    /// Makes all suites below a sequential one sequential, under the lock of the outermost one.
    pub fn propagate_sequential(&mut self, inherited_lock: Option<&SequentialExecutionLock>)
        ensures
            old(self).handed_down_to(
                match inherited_lock {
                    Some(lock) => Some(*lock),
                    None => None,
                },
                *final(self),
            ),
        decreases *old(self),
    {
        let ghost before = *self;
        if let Some(lock) = inherited_lock {
            self.is_sequential = true;
            self.sequential_lock = lock.clone();
        }
        let lock_for_children = if self.is_sequential {
            Some(self.sequential_lock.clone())
        } else {
            None
        };
        let ghost here = *self;
        let mut i: usize = 0;
        while i < self.inner.len()
            invariant
                i <= self.inner.len(),
                before == *old(self),
                here.same_but_locks(*self),
                self.is_sequential == here.is_sequential,
                self.sequential_lock == here.sequential_lock,
                here.inner == before.inner,
                lock_for_children == here.lock_for_children(),
                forall|j: int|
                    0 <= j < i ==> (#[trigger] before.inner@[j]).handed_down_to(
                        here.lock_for_children(),
                        self.inner@[j],
                    ),
                forall|j: int| i <= j < before.inner@.len() ==> self.inner@[j] == before.inner@[j],
            decreases self.inner.len() - i,
        {
            let ghost at_start = self.inner@;
            assert(self.inner@[i as int] == before.inner@[i as int]);
            self.inner[i].propagate_sequential(lock_for_children.as_ref());
            assert(self.inner@ =~= at_start.update(i as int, self.inner@[i as int]));
            i = i + 1;
        }
    }

    /// After the locks were handed down, all suites below a sequential one share its lock.
    pub proof fn handing_down_shares_locks(
        self,
        inherited: Option<SequentialExecutionLock>,
        other: SuiteNode<V>,
    )
        requires
            self.handed_down_to(inherited, other),
        ensures
            other.locks_shared(),
        decreases self,
    {
        assert forall|i: int| 0 <= i < other.inner@.len() implies {
            let child = #[trigger] other.inner@[i];
            &&& child.locks_shared()
            &&& other.is_sequential ==> child.is_sequential && child.sequential_lock
                == other.sequential_lock
        } by {
            assert(self.inner@[i].handed_down_to(other.lock_for_children(), other.inner@[i]));
            self.inner@[i].handing_down_shares_locks(other.lock_for_children(), other.inner@[i]);
        }
    }

    /// Handing locks down changes neither tests nor dependencies.
    pub proof fn handing_down_keeps_tests(
        self,
        inherited: Option<SequentialExecutionLock>,
        other: SuiteNode<V>,
    )
        requires
            self.wf(),
            self.handed_down_to(inherited, other),
        ensures
            other.wf(),
            other.total() == self.total(),
            other.tests_below() == self.tests_below(),
        decreases self,
    {
        assert forall|i: int| 0 <= i < self.inner@.len() implies {
            let (a, b) = (#[trigger] self.inner@[i], other.inner@[i]);
            &&& b.wf()
            &&& b.total() == a.total()
            &&& b.tests_below() == a.tests_below()
            &&& b.crate_and_module == a.crate_and_module
        } by {
            assert(self.inner@[i].wf());
            self.inner@[i].handing_down_keeps_tests(other.lock_for_children(), other.inner@[i]);
        }
        Self::lemma_pointwise(self.inner@, other.inner@);
        assert forall|i: int| 0 <= i < other.inner@.len() implies (#[trigger] other.inner@[i]).wf()
            && path::directly_below(
            other.crate_and_module@,
            other.inner@[i].crate_and_module@,
        ) by {
            assert(self.inner@[i].wf());
        }
        assert forall|i: int, j: int| 0 <= i < j < other.inner@.len() implies (
        #[trigger] other.inner@[i]).crate_and_module@ != (
        #[trigger] other.inner@[j]).crate_and_module@ by {
            assert(self.inner@[i].crate_and_module@ != self.inner@[j].crate_and_module@);
        }
    }

    /// Handing locks down never moves a suite.
    pub proof fn handing_down_keeps_suites(
        self,
        inherited: Option<SequentialExecutionLock>,
        other: SuiteNode<V>,
        path: Seq<char>,
    )
        requires
            self.handed_down_to(inherited, other),
        ensures
            self.node_at(path) is Some <==> other.node_at(path) is Some,
            self.node_at(path) matches Some(node) ==> node.same_but_locks(other.node_at(path)->0)
                && (node.is_sequential ==> other.node_at(path)->0.is_sequential),
        decreases self,
    {
        if self.crate_and_module@ != path {
            Self::lemma_route(self.inner@, path);
            Self::lemma_route(other.inner@, path);
            let r = Self::route(self.inner@, path);
            let lock = other.lock_for_children();
            assert forall|j: int| 0 <= j < self.inner@.len() implies (
            #[trigger] other.inner@[j]).crate_and_module == self.inner@[j].crate_and_module by {
                assert(self.inner@[j].handed_down_to(lock, other.inner@[j]));
            }
            Self::lemma_route_is(other.inner@, path, r);
            if r < self.inner@.len() {
                assert(self.inner@[r].handed_down_to(lock, other.inner@[r]));
                self.inner@[r].handing_down_keeps_suites(lock, other.inner@[r], path);
            }
        }
    }
}

} // verus!
