//! Values that come from elsewhere: from the parent process, or from a stub.
use super::node::SuiteNode;
use super::path;
use crate::internal;
use crate::internal::{DependencyModel, RegisteredDependency};
use crate::text;
use crate::text::str_eq;
use std::sync::Arc;
use vstd::prelude::*;

verus! {

/// The position of the first dependency with this identifier, or the number of dependencies if
/// none has it.
pub open spec fn first_identified(deps: Seq<DependencyModel>, id: Seq<char>) -> int
    decreases deps.len(),
{
    if deps.len() == 0 || deps[0].qualified_id() == id {
        0
    } else {
        1 + first_identified(deps.skip(1), id)
    }
}

proof fn lemma_first_identified(deps: Seq<DependencyModel>, id: Seq<char>, i: int)
    requires
        0 <= i <= deps.len(),
        i < deps.len() ==> deps[i].qualified_id() == id,
        forall|j: int| 0 <= j < i ==> (#[trigger] deps[j]).qualified_id() != id,
    ensures
        first_identified(deps, id) == i,
    decreases deps.len(),
{
    if i > 0 {
        assert(deps[0].qualified_id() != id);
        assert forall|j: int| 0 <= j < i - 1 implies (#[trigger] deps.skip(1)[j]).qualified_id()
            != id by {
            assert(deps.skip(1)[j] == deps[j + 1]);
        }
        lemma_first_identified(deps.skip(1), id, i - 1);
    }
}

pub proof fn lemma_first_identified_bounds(deps: Seq<DependencyModel>, id: Seq<char>)
    ensures
        0 <= first_identified(deps, id) <= deps.len(),
        first_identified(deps, id) < deps.len() ==> deps[first_identified(deps, id)].qualified_id()
            == id,
    decreases deps.len(),
{
    if deps.len() > 0 && deps[0].qualified_id() != id {
        lemma_first_identified_bounds(deps.skip(1), id);
    }
}

fn find_identified(deps: &Vec<RegisteredDependency>, id: &str) -> (r: Option<usize>)
    ensures
        match r {
            Some(i) => i < deps.len() && i == first_identified(
                internal::dependency_views(deps@),
                id@,
            ),
            None => first_identified(internal::dependency_views(deps@), id@) == deps.len(),
        },
{
    let ghost views = internal::dependency_views(deps@);
    let mut i: usize = 0;
    while i < deps.len()
        invariant
            i <= deps.len(),
            views == internal::dependency_views(deps@),
            forall|j: int| 0 <= j < i ==> (#[trigger] views[j]).qualified_id() != id@,
        decreases deps.len() - i,
    {
        assert(views[i as int] == deps@[i as int]@);
        let own = deps[i].qualified_id();
        if str_eq(own.as_str(), id) {
            proof {
                lemma_first_identified(views, id@, i as int);
            }
            return Some(i);
        }
        i = i + 1;
    }
    proof {
        lemma_first_identified(views, id@, i as int);
    }
    None
}

impl<V> SuiteNode<V> {
    /// The two suites differ in their dependencies, their values and the suites below at most.
    pub open spec fn same_but_values(self, other: SuiteNode<V>) -> bool {
        &&& other.crate_and_module == self.crate_and_module
        &&& other.tests == self.tests
        &&& other.props == self.props
        &&& other.sequential_lock == self.sequential_lock
        &&& other.remaining_count == self.remaining_count
        &&& other.is_sequential == self.is_sequential
        &&& other.skip_creating_dependencies == self.skip_creating_dependencies
        &&& other.in_progress == self.in_progress
        &&& other.inner@.len() == self.inner@.len()
    }

    /// A dependency with this identifier is registered here or below.
    pub open spec fn identifies(self, id: Seq<char>) -> bool
        decreases self,
    {
        ||| first_identified(internal::dependency_views(self.dependencies@), id)
            < self.dependencies@.len()
        ||| exists|j: int|
            0 <= j < self.inner@.len() && (#[trigger] self.inner@[j]).identifies(id)
    }

    /// Whether a dependency with this identifier is registered here or below.
    pub fn is_identified(&self, dep_id: &str) -> (r: bool)
        ensures
            r == self.identifies(dep_id@),
        decreases self,
    {
        if find_identified(&self.dependencies, dep_id).is_some() {
            return true;
        }
        let mut j: usize = 0;
        while j < self.inner.len()
            invariant
                j <= self.inner.len(),
                forall|k: int| 0 <= k < j ==> !(#[trigger] self.inner@[k]).identifies(dep_id@),
            decreases self.inner.len() - j,
        {
            if self.inner[j].is_identified(dep_id) {
                assert(self.inner@[j as int].identifies(dep_id@));
                return true;
            }
            j = j + 1;
        }
        false
    }

    /// `other` is this suite with the value given to the dependency with this identifier, here
    /// and below. The dependency uses no others any more: its constructor will not run.
    pub open spec fn provided_to(self, id: Seq<char>, value: Arc<V>, other: SuiteNode<V>) -> bool
        decreases self,
    {
        let deps = internal::dependency_views(self.dependencies@);
        let i = first_identified(deps, id);
        &&& self.same_but_values(other)
        &&& other.materialized_dependencies.wf()
        &&& internal::dependency_views(other.dependencies@) == (if i < deps.len() {
            deps.update(i, DependencyModel { dependencies: Seq::empty(), ..deps[i] })
        } else {
            deps
        })
        &&& other.materialized_dependencies@ == (if i < deps.len() {
            self.materialized_dependencies@.insert(deps[i].name, value)
        } else {
            self.materialized_dependencies@
        })
        &&& forall|j: int|
            0 <= j < self.inner@.len() ==> (#[trigger] self.inner@[j]).provided_to(
                id,
                value,
                other.inner@[j],
            )
    }

    /// Gives the value to the dependency with this identifier, and says whether there is one.
    pub fn provide_cloneable_value_internal(&mut self, dep_id: &str, value: Arc<V>) -> (applied:
        bool)
        requires
            old(self).wf(),
        ensures
            old(self).provided_to(dep_id@, value, *final(self)),
            applied == old(self).identifies(dep_id@),
        decreases *old(self),
    {
        let ghost before = *self;
        let ghost deps = internal::dependency_views(self.dependencies@);
        let mut applied = false;
        match find_identified(&self.dependencies, dep_id) {
            Some(i) => {
                let local_name = self.dependencies[i].name.clone();
                assert(deps[i as int] == before.dependencies@[i as int]@);
                let mut dep = self.dependencies[i].clone();
                dep.dependencies.clear();
                assert(text::views(dep.dependencies@) =~= Seq::empty());
                self.dependencies.set(i, dep);
                assert(internal::dependency_views(self.dependencies@) =~= deps.update(
                    i as int,
                    DependencyModel { dependencies: Seq::empty(), ..deps[i as int] },
                ));
                self.materialized_dependencies.insert(local_name, value.clone());
                applied = true;
            },
            None => {},
        }
        let ghost here = *self;
        let ghost found = applied;
        let mut j: usize = 0;
        while j < self.inner.len()
            invariant
                j <= self.inner.len(),
                before == *old(self),
                before.wf(),
                here.same_but_values(*self),
                self.dependencies == here.dependencies,
                self.materialized_dependencies == here.materialized_dependencies,
                here.inner == before.inner,
                forall|k: int|
                    0 <= k < j ==> (#[trigger] before.inner@[k]).provided_to(
                        dep_id@,
                        value,
                        self.inner@[k],
                    ),
                forall|k: int| j <= k < before.inner@.len() ==> self.inner@[k] == before.inner@[k],
                applied == (found || exists|k: int|
                    0 <= k < j && (#[trigger] before.inner@[k]).identifies(dep_id@)),
            decreases self.inner.len() - j,
        {
            let ghost at_start = self.inner@;
            assert(self.inner@[j as int] == before.inner@[j as int]);
            assert(before.inner@[j as int].wf());
            let below = self.inner[j].provide_cloneable_value_internal(dep_id, value.clone());
            assert(self.inner@ =~= at_start.update(j as int, self.inner@[j as int]));
            if below {
                assert(before.inner@[j as int].identifies(dep_id@));
                applied = true;
            }
            j = j + 1;
        }
        applied
    }

    /// Giving a value away changes no test.
    pub proof fn providing_keeps_tests(self, id: Seq<char>, value: Arc<V>, other: SuiteNode<V>)
        requires
            self.wf(),
            self.provided_to(id, value, other),
        ensures
            other.wf(),
            other.total() == self.total(),
            other.tests_below() == self.tests_below(),
            self.locks_shared() ==> other.locks_shared(),
        decreases self,
    {
        assert forall|i: int| 0 <= i < self.inner@.len() implies {
            let (a, b) = (self.inner@[i], #[trigger] other.inner@[i]);
            &&& b.wf()
            &&& b.total() == a.total()
            &&& b.tests_below() == a.tests_below()
            &&& b.crate_and_module == a.crate_and_module
            &&& b.sequential_lock == a.sequential_lock
            &&& b.is_sequential == a.is_sequential
            &&& a.locks_shared() ==> b.locks_shared()
            &&& path::directly_below(other.crate_and_module@, b.crate_and_module@)
        } by {
            assert(self.inner@[i].wf());
            self.inner@[i].providing_keeps_tests(id, value, other.inner@[i]);
        }
        assert forall|i: int| 0 <= i < self.inner@.len() implies (
        #[trigger] self.inner@[i]).total() == other.inner@[i].total()
            && self.inner@[i].tests_below() == other.inner@[i].tests_below() by {
            assert(other.inner@[i].wf());
        }
        Self::lemma_pointwise(self.inner@, other.inner@);
        assert forall|i: int, j: int| 0 <= i < j < other.inner@.len() implies (
        #[trigger] other.inner@[i]).crate_and_module@ != (
        #[trigger] other.inner@[j]).crate_and_module@ by {
            assert(self.inner@[i].crate_and_module@ != self.inner@[j].crate_and_module@);
        }
        let deps = internal::dependency_views(self.dependencies@);
        lemma_first_identified_bounds(deps, id);
        assert(internal::dependency_views(other.dependencies@).len() == deps.len());
        assert forall|i: int| 0 <= i < other.dependencies@.len() implies (
        #[trigger] other.dependencies@[i])@.crate_and_module() == other.crate_and_module@ by {
            assert(internal::dependency_views(other.dependencies@)[i] == other.dependencies@[i]@);
            assert(deps[i] == self.dependencies@[i]@);
        }
        if self.locks_shared() {
            assert forall|i: int| 0 <= i < other.inner@.len() implies {
                let child = #[trigger] other.inner@[i];
                &&& child.locks_shared()
                &&& other.is_sequential ==> child.is_sequential && child.sequential_lock
                    == other.sequential_lock
            } by {
                assert(self.inner@[i].locks_shared());
            }
        }
    }

    /// `other` is this suite with the construction of values switched off, here and below.
    pub open spec fn skipping_to(self, other: SuiteNode<V>) -> bool
        decreases self,
    {
        &&& other == (SuiteNode {
            skip_creating_dependencies: true,
            inner: other.inner,
            ..self
        })
        &&& other.inner@.len() == self.inner@.len()
        &&& forall|j: int|
            0 <= j < self.inner@.len() ==> (#[trigger] self.inner@[j]).skipping_to(
                other.inner@[j],
            )
    }

    /// Switches the construction of values off, for a plan that only drives worker processes.
    pub fn skip_creating_dependencies(&mut self)
        ensures
            old(self).skipping_to(*final(self)),
        decreases *old(self),
    {
        let ghost before = *self;
        self.skip_creating_dependencies = true;
        let mut j: usize = 0;
        while j < self.inner.len()
            invariant
                j <= self.inner.len(),
                before == *old(self),
                *self == (SuiteNode {
                    skip_creating_dependencies: true,
                    inner: self.inner,
                    ..before
                }),
                self.inner@.len() == before.inner@.len(),
                forall|k: int|
                    0 <= k < j ==> (#[trigger] before.inner@[k]).skipping_to(self.inner@[k]),
                forall|k: int| j <= k < before.inner@.len() ==> self.inner@[k] == before.inner@[k],
            decreases self.inner.len() - j,
        {
            let ghost at_start = self.inner@;
            assert(self.inner@[j as int] == before.inner@[j as int]);
            self.inner[j].skip_creating_dependencies();
            assert(self.inner@ =~= at_start.update(j as int, self.inner@[j as int]));
            j = j + 1;
        }
    }

    /// Switching the construction of values off changes neither tests nor dependencies.
    pub proof fn skipping_keeps_tests(self, other: SuiteNode<V>)
        requires
            self.wf(),
            self.skipping_to(other),
        ensures
            other.wf(),
            other.total() == self.total(),
            other.tests_below() == self.tests_below(),
            self.locks_shared() ==> other.locks_shared(),
        decreases self,
    {
        assert forall|i: int| 0 <= i < self.inner@.len() implies {
            let (a, b) = (self.inner@[i], #[trigger] other.inner@[i]);
            &&& b.wf()
            &&& b.total() == a.total()
            &&& b.tests_below() == a.tests_below()
            &&& b.crate_and_module == a.crate_and_module
            &&& b.sequential_lock == a.sequential_lock
            &&& b.is_sequential == a.is_sequential
            &&& a.locks_shared() ==> b.locks_shared()
            &&& path::directly_below(other.crate_and_module@, b.crate_and_module@)
        } by {
            assert(self.inner@[i].wf());
            self.inner@[i].skipping_keeps_tests(other.inner@[i]);
        }
        assert forall|i: int| 0 <= i < self.inner@.len() implies (
        #[trigger] self.inner@[i]).total() == other.inner@[i].total()
            && self.inner@[i].tests_below() == other.inner@[i].tests_below() by {
            assert(other.inner@[i].wf());
        }
        Self::lemma_pointwise(self.inner@, other.inner@);
        assert forall|i: int, j: int| 0 <= i < j < other.inner@.len() implies (
        #[trigger] other.inner@[i]).crate_and_module@ != (
        #[trigger] other.inner@[j]).crate_and_module@ by {
            assert(self.inner@[i].crate_and_module@ != self.inner@[j].crate_and_module@);
        }
        if self.locks_shared() {
            assert forall|i: int| 0 <= i < other.inner@.len() implies {
                let child = #[trigger] other.inner@[i];
                &&& child.locks_shared()
                &&& other.is_sequential ==> child.is_sequential && child.sequential_lock
                    == other.sequential_lock
            } by {
                assert(self.inner@[i].locks_shared());
            }
        }
    }
}

} // verus!
