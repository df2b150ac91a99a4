//! What can be asked of the execution plan.
use super::node::SuiteNode;
use crate::internal;
use crate::internal::{DepScope, DependencyModel, RegisteredDependency};
use vstd::prelude::*;

verus! {

impl<V> SuiteNode<V> {
    /// The dependencies of this suite, then those of the suites below it, depth first.
    pub open spec fn dependencies_below(self) -> Seq<DependencyModel>
        decreases self,
    {
        internal::dependency_views(self.dependencies@) + Self::dependencies_among(self.inner@)
    }

    /// The dependencies of the suites, one suite after another.
    pub open spec fn dependencies_among(nodes: Seq<SuiteNode<V>>) -> Seq<DependencyModel>
        decreases nodes,
    {
        if nodes.len() == 0 {
            Seq::empty()
        } else {
            Self::dependencies_among(nodes.drop_last()) + nodes.last().dependencies_below()
        }
    }

    /// One of the dependencies, here or below, is of this scope.
    pub open spec fn has_scope(self, scope: DepScope) -> bool {
        exists|i: int|
            0 <= i < self.dependencies_below().len() && (
            #[trigger] self.dependencies_below()[i]).scope == scope
    }

    pub proof fn lemma_dependencies_among(nodes: Seq<SuiteNode<V>>, k: int)
        requires
            0 <= k < nodes.len(),
        ensures
            forall|d: DependencyModel|
                nodes[k].dependencies_below().contains(d) ==> #[trigger] Self::dependencies_among(
                    nodes,
                ).contains(d),
        decreases nodes.len(),
    {
        let all = Self::dependencies_among(nodes);
        let head = Self::dependencies_among(nodes.drop_last());
        let tail = nodes.last().dependencies_below();
        if k < nodes.len() - 1 {
            Self::lemma_dependencies_among(nodes.drop_last(), k);
            assert(nodes.drop_last()[k] == nodes[k]);
        }
        assert forall|d: DependencyModel| nodes[k].dependencies_below().contains(
            d,
        ) implies #[trigger] all.contains(d) by {
            if k < nodes.len() - 1 {
                assert(head.contains(d));
                let i = head.index_of(d);
                assert(all[i] == d);
            } else {
                let i = tail.index_of(d);
                assert(all[head.len() + i] == d);
            }
        }
    }

    /// Adds the dependencies of this scope, here and below, to `out`.
    pub fn collect_scope_into(&self, scope: DepScope, out: &mut Vec<RegisteredDependency>)
        ensures
            internal::dependency_views(final(out)@) == internal::dependency_views(old(out)@)
                + self.dependencies_below().filter(|d: DependencyModel| d.scope == scope),
        decreases self,
    {
        let ghost before = internal::dependency_views(out@);
        let ghost own = internal::dependency_views(self.dependencies@);
        let ghost wanted = |d: DependencyModel| d.scope == scope;
        let mut i: usize = 0;
        proof {
            reveal(Seq::filter);
            assert(before + own.take(0).filter(wanted) =~= before);
        }
        while i < self.dependencies.len()
            invariant
                i <= self.dependencies.len(),
                own == internal::dependency_views(self.dependencies@),
                wanted == (|d: DependencyModel| d.scope == scope),
                internal::dependency_views(out@) == before + own.take(i as int).filter(wanted),
            decreases self.dependencies.len() - i,
        {
            let ghost so_far = out@;
            proof {
                reveal(Seq::filter);
            }
            assert(own[i as int] == self.dependencies@[i as int]@);
            assert(own.take(i + 1).drop_last() =~= own.take(i as int));
            if self.dependencies[i].scope == scope {
                out.push(self.dependencies[i].clone());
                assert(internal::dependency_views(out@) =~= internal::dependency_views(
                    so_far,
                ).push(own[i as int]));
                assert(internal::dependency_views(out@) =~= before + own.take(i + 1).filter(
                    wanted,
                ));
            }
            i = i + 1;
        }
        assert(own.take(i as int) =~= own);
        let ghost here = before + own.filter(wanted);
        let mut j: usize = 0;
        assert(here + Self::dependencies_among(self.inner@.take(0)).filter(wanted) =~= here) by {
            reveal(Seq::filter);
        }
        while j < self.inner.len()
            invariant
                j <= self.inner.len(),
                wanted == (|d: DependencyModel| d.scope == scope),
                internal::dependency_views(out@) == here + Self::dependencies_among(
                    self.inner@.take(j as int),
                ).filter(wanted),
            decreases self.inner.len() - j,
        {
            self.inner[j].collect_scope_into(scope, out);
            proof {
                let head = Self::dependencies_among(self.inner@.take(j as int));
                let tail = self.inner@[j as int].dependencies_below();
                assert(self.inner@.take(j + 1).drop_last() =~= self.inner@.take(j as int));
                Seq::filter_distributes_over_add(head, tail, wanted);
                assert(internal::dependency_views(out@) =~= here + (head.filter(wanted)
                    + tail.filter(wanted)));
            }
            j = j + 1;
        }
        proof {
            assert(self.inner@.take(j as int) =~= self.inner@);
            let among = Self::dependencies_among(self.inner@);
            Seq::filter_distributes_over_add(own, among, wanted);
            assert(internal::dependency_views(out@) =~= before + (own.filter(wanted)
                + among.filter(wanted)));
        }
    }

    /// Whether one of the dependencies, here or below, is of this scope.
    pub fn any_of_scope(&self, scope: DepScope) -> (r: bool)
        ensures
            r == self.has_scope(scope),
        decreases self,
    {
        let ghost own = internal::dependency_views(self.dependencies@);
        let ghost all = self.dependencies_below();
        let mut i: usize = 0;
        while i < self.dependencies.len()
            invariant
                i <= self.dependencies.len(),
                own == internal::dependency_views(self.dependencies@),
                all == self.dependencies_below(),
                forall|k: int| 0 <= k < i ==> (#[trigger] own[k]).scope != scope,
            decreases self.dependencies.len() - i,
        {
            assert(own[i as int] == self.dependencies@[i as int]@);
            if self.dependencies[i].scope == scope {
                assert(all[i as int].scope == scope);
                return true;
            }
            i = i + 1;
        }
        let mut j: usize = 0;
        while j < self.inner.len()
            invariant
                j <= self.inner.len(),
                own == internal::dependency_views(self.dependencies@),
                all == self.dependencies_below(),
                forall|k: int|
                    0 <= k < Self::dependencies_among(self.inner@.take(j as int)).len() ==> (
                    #[trigger] Self::dependencies_among(self.inner@.take(j as int))[k]).scope
                        != scope,
            decreases self.inner.len() - j,
        {
            if self.inner[j].any_of_scope(scope) {
                proof {
                    let below = self.inner@[j as int].dependencies_below();
                    let k = choose|k: int|
                        0 <= k < below.len() && (#[trigger] below[k]).scope == scope;
                    Self::lemma_dependencies_among(self.inner@, j as int);
                    let among = Self::dependencies_among(self.inner@);
                    assert(below.contains(below[k]));
                    assert(among.contains(below[k]));
                    let m = among.index_of(below[k]);
                    assert(all[own.len() + m] == below[k]);
                }
                return true;
            }
            proof {
                let head = Self::dependencies_among(self.inner@.take(j as int));
                let tail = self.inner@[j as int].dependencies_below();
                assert(self.inner@.take(j + 1).drop_last() =~= self.inner@.take(j as int));
                let next = Self::dependencies_among(self.inner@.take(j + 1));
                assert(next == head + tail);
                assert forall|k: int| 0 <= k < next.len() implies (#[trigger] next[k]).scope
                    != scope by {
                    if k < head.len() {
                        assert(next[k] == head[k]);
                    } else {
                        assert(next[k] == tail[k - head.len()]);
                    }
                }
            }
            j = j + 1;
        }
        proof {
            assert(self.inner@.take(j as int) =~= self.inner@);
            let among = Self::dependencies_among(self.inner@);
            assert forall|k: int| 0 <= k < all.len() implies (#[trigger] all[k]).scope != scope by {
                if k < own.len() {
                    assert(all[k] == own[k]);
                } else {
                    assert(all[k] == among[k - own.len()]);
                }
            }
        }
        false
    }

    /// Whether there are dependencies, here or below.
    pub fn has_dependencies(&self) -> (r: bool)
        ensures
            r == (self.dependencies_below().len() > 0),
        decreases self,
    {
        if !self.dependencies.is_empty() {
            return true;
        }
        let mut j: usize = 0;
        while j < self.inner.len()
            invariant
                j <= self.inner.len(),
                self.dependencies@.len() == 0,
                Self::dependencies_among(self.inner@.take(j as int)).len() == 0,
            decreases self.inner.len() - j,
        {
            if self.inner[j].has_dependencies() {
                proof {
                    Self::lemma_dependencies_among(self.inner@, j as int);
                    let below = self.inner@[j as int].dependencies_below();
                    assert(below.contains(below[0]));
                    assert(Self::dependencies_among(self.inner@).contains(below[0]));
                }
                return true;
            }
            assert(self.inner@.take(j + 1).drop_last() =~= self.inner@.take(j as int));
            j = j + 1;
        }
        assert(self.inner@.take(j as int) =~= self.inner@);
        false
    }

    /// The output of one of the tests, here or below, has to be captured.
    pub open spec fn wants_capturing(self, capture_by_default: bool) -> bool
        decreases self,
    {
        ||| exists|i: int|
            0 <= i < self.tests@.len() && (
            #[trigger] self.tests@[i])@.props.capture_control.spec_requires_capturing(
                capture_by_default,
            )
        ||| exists|j: int|
            0 <= j < self.inner@.len() && (#[trigger] self.inner@[j]).wants_capturing(
                capture_by_default,
            )
    }

    /// Whether the output of one of the tests has to be captured, by the given default and what
    /// the tests say themselves.
    pub fn requires_capturing(&self, capture_by_default: bool) -> (r: bool)
        ensures
            r == self.wants_capturing(capture_by_default),
        decreases self,
    {
        let mut i: usize = 0;
        while i < self.tests.len()
            invariant
                i <= self.tests.len(),
                forall|k: int|
                    0 <= k < i ==> !(
                    #[trigger] self.tests@[k])@.props.capture_control.spec_requires_capturing(
                        capture_by_default,
                    ),
            decreases self.tests.len() - i,
        {
            if self.tests[i].props.capture_control.requires_capturing(capture_by_default) {
                assert(self.tests@[i as int]@.props.capture_control.spec_requires_capturing(
                    capture_by_default,
                ));
                return true;
            }
            i = i + 1;
        }
        let mut j: usize = 0;
        while j < self.inner.len()
            invariant
                j <= self.inner.len(),
                forall|k: int|
                    0 <= k < self.tests@.len() ==> !(
                    #[trigger] self.tests@[k])@.props.capture_control.spec_requires_capturing(
                        capture_by_default,
                    ),
                forall|k: int|
                    0 <= k < j ==> !(#[trigger] self.inner@[k]).wants_capturing(
                        capture_by_default,
                    ),
            decreases self.inner.len() - j,
        {
            if self.inner[j].requires_capturing(capture_by_default) {
                return true;
            }
            j = j + 1;
        }
        false
    }
}

} // verus!
