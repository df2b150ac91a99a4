//! One suite of the execution plan, with the suites below it.
use super::path;
use super::path::{is_prefix_of, next_level};
use super::values::DependencyMap;
use crate::internal;
use crate::internal::{
    DependencyModel, RegisteredDependency, RegisteredTest, RegisteredTestSuiteProperty, TestModel,
};
use crate::text;
use crate::text::str_eq;
use vstd::multiset::Multiset;
use vstd::prelude::*;

verus! {

/// The lock that keeps the tests of a sequential suite from running at once. It is known by the
/// path of the suite that it was made for; the suites below share it.
pub struct SequentialExecutionLock {
    pub owner: String,
}

impl SequentialExecutionLock {
    /// A lock of its own for the suite at this path.
    pub fn new(owner: &str) -> (r: Self)
        ensures
            r.owner@ == owner@,
    {
        SequentialExecutionLock { owner: owner.to_owned() }
    }
}

impl Clone for SequentialExecutionLock {
    fn clone(&self) -> (r: Self)
        ensures
            r == *self,
    {
        SequentialExecutionLock { owner: self.owner.clone() }
    }
}

/// A suite: the tests and dependencies of one module, and the suites below it.
#[verifier::reject_recursive_types(V)]
pub struct SuiteNode<V> {
    pub crate_and_module: String,
    pub dependencies: Vec<RegisteredDependency>,
    pub tests: Vec<RegisteredTest>,
    pub props: Vec<RegisteredTestSuiteProperty>,
    pub inner: Vec<SuiteNode<V>>,
    pub materialized_dependencies: DependencyMap<V>,
    pub sequential_lock: SequentialExecutionLock,
    /// How many tests this suite and those below it still hold
    pub remaining_count: usize,
    pub is_sequential: bool,
    pub skip_creating_dependencies: bool,
    /// How many tests of this suite have been handed out and are not finished
    pub in_progress: usize,
}

/// What stands in one suite, leaving out the suites below it.
#[verifier::ext_equal]
pub struct SuiteContents {
    pub dependencies: Seq<DependencyModel>,
    pub tests: Seq<TestModel>,
    pub props: Seq<RegisteredTestSuiteProperty>,
    pub is_sequential: bool,
}

impl SuiteContents {
    pub open spec fn empty() -> SuiteContents {
        SuiteContents {
            dependencies: Seq::empty(),
            tests: Seq::empty(),
            props: Seq::empty(),
            is_sequential: false,
        }
    }
}

/// Something that is added to the suite of its module.
pub enum SuiteItem {
    Dependency(RegisteredDependency),
    Test(RegisteredTest),
    Property(RegisteredTestSuiteProperty),
}

impl SuiteItem {
    pub open spec fn path(self) -> Seq<char> {
        match self {
            SuiteItem::Dependency(dep) => dep@.crate_and_module(),
            SuiteItem::Test(test) => test@.crate_and_module(),
            SuiteItem::Property(prop) => prop.spec_crate_and_module(),
        }
    }

    /// The tests with the item among them, if it is one.
    pub open spec fn counted_in(self, tests: Multiset<TestModel>) -> Multiset<TestModel> {
        match self {
            SuiteItem::Test(test) => tests.insert(test@),
            _ => tests,
        }
    }

    /// The contents of a suite with the item added. A benchmark, or the property that says so,
    /// makes the suite sequential.
    pub open spec fn added_to(self, contents: SuiteContents) -> SuiteContents {
        match self {
            SuiteItem::Dependency(dep) => SuiteContents {
                dependencies: contents.dependencies.push(dep@),
                ..contents
            },
            SuiteItem::Test(test) => SuiteContents {
                tests: contents.tests.push(test@),
                is_sequential: contents.is_sequential || test@.run.spec_is_bench(),
                ..contents
            },
            SuiteItem::Property(prop) => SuiteContents {
                props: contents.props.push(prop),
                is_sequential: contents.is_sequential || prop is Sequential,
                ..contents
            },
        }
    }
}

impl<V> SuiteNode<V> {
    /// What stands in this suite.
    pub open spec fn contents(self) -> SuiteContents {
        SuiteContents {
            dependencies: internal::dependency_views(self.dependencies@),
            tests: internal::test_views(self.tests@),
            props: self.props@,
            is_sequential: self.is_sequential,
        }
    }

    /// The suite at `path`: this one, or the one found in the first suite below that encloses the
    /// path.
    pub open spec fn node_at(self, path: Seq<char>) -> Option<SuiteNode<V>>
        decreases self,
    {
        if self.crate_and_module@ == path {
            Some(self)
        } else {
            Self::node_among(self.inner@, path)
        }
    }

    /// The suite at `path` in the first of `nodes` that encloses the path.
    pub open spec fn node_among(nodes: Seq<SuiteNode<V>>, path: Seq<char>) -> Option<SuiteNode<V>>
        decreases nodes,
    {
        if nodes.len() == 0 {
            None
        } else if path::encloses(nodes[0].crate_and_module@, path) {
            nodes[0].node_at(path)
        } else {
            Self::node_among(nodes.skip(1), path)
        }
    }

    /// What stands in the suite at `path`.
    pub open spec fn contents_at(self, path: Seq<char>) -> SuiteContents {
        match self.node_at(path) {
            Some(node) => node.contents(),
            None => SuiteContents::empty(),
        }
    }

    /// How many tests this suite and those below it hold.
    pub open spec fn total(self) -> nat
        decreases self,
    {
        self.tests@.len() + Self::total_of(self.inner@)
    }

    /// How many tests the suites hold, together with those below them.
    pub open spec fn total_of(nodes: Seq<SuiteNode<V>>) -> nat
        decreases nodes,
    {
        if nodes.len() == 0 {
            0
        } else {
            Self::total_of(nodes.drop_last()) + nodes.last().total()
        }
    }

    /// The tests that this suite and those below it hold.
    pub open spec fn tests_below(self) -> Multiset<TestModel>
        decreases self,
    {
        internal::test_views(self.tests@).to_multiset().add(Self::tests_among(self.inner@))
    }

    /// The tests that the suites hold, together with those below them.
    pub open spec fn tests_among(nodes: Seq<SuiteNode<V>>) -> Multiset<TestModel>
        decreases nodes,
    {
        if nodes.len() == 0 {
            Multiset::empty()
        } else {
            Self::tests_among(nodes.drop_last()).add(nodes.last().tests_below())
        }
    }

    /// Every test and every dependency stands in the suite of its module.
    pub open spec fn placed(self) -> bool {
        &&& forall|i: int|
            0 <= i < self.tests@.len() ==> (#[trigger] self.tests@[i])@.crate_and_module()
                == self.crate_and_module@
        &&& forall|i: int|
            0 <= i < self.dependencies@.len() ==> (
            #[trigger] self.dependencies@[i])@.crate_and_module() == self.crate_and_module@
    }

    /// Here and below: the counters are right, everything stands in the suite of its module, and
    /// the suites that a suite holds are different ones directly below it.
    pub open spec fn wf(self) -> bool
        decreases self,
    {
        &&& self.materialized_dependencies.wf()
        &&& self.remaining_count == self.total()
        &&& self.remaining_count + self.in_progress <= usize::MAX
        &&& self.placed()
        &&& forall|i: int|
            0 <= i < self.inner@.len() ==> (#[trigger] self.inner@[i]).wf() && path::directly_below(
                self.crate_and_module@,
                self.inner@[i].crate_and_module@,
            )
        &&& forall|i: int, j: int|
            0 <= i < j < self.inner@.len() ==> (#[trigger] self.inner@[i]).crate_and_module@ != (
            #[trigger] self.inner@[j]).crate_and_module@
    }

    /// Nothing has been handed out or materialised yet, and every suite has a lock of its own.
    pub open spec fn fresh(self) -> bool
        decreases self,
    {
        &&& self.materialized_dependencies@ == Map::<Seq<char>, std::sync::Arc<V>>::empty()
        &&& self.sequential_lock.owner@ == self.crate_and_module@
        &&& !self.skip_creating_dependencies
        &&& self.in_progress == 0
        &&& forall|i: int| 0 <= i < self.inner@.len() ==> (#[trigger] self.inner@[i]).fresh()
    }

    /// The first of the suites that encloses the path, or the number of suites if none does.
    pub open spec fn route(nodes: Seq<SuiteNode<V>>, path: Seq<char>) -> int
        decreases nodes.len(),
    {
        if nodes.len() == 0 || path::encloses(nodes[0].crate_and_module@, path) {
            0
        } else {
            1 + Self::route(nodes.skip(1), path)
        }
    }

    pub proof fn lemma_route(nodes: Seq<SuiteNode<V>>, path: Seq<char>)
        ensures
            0 <= Self::route(nodes, path) <= nodes.len(),
            Self::route(nodes, path) < nodes.len() ==> path::encloses(
                nodes[Self::route(nodes, path)].crate_and_module@,
                path,
            ),
            forall|j: int|
                0 <= j < Self::route(nodes, path) ==> !path::encloses(
                    (#[trigger] nodes[j]).crate_and_module@,
                    path,
                ),
            Self::node_among(nodes, path) == (if Self::route(nodes, path) < nodes.len() {
                nodes[Self::route(nodes, path)].node_at(path)
            } else {
                None
            }),
        decreases nodes.len(),
    {
        if nodes.len() > 0 && !path::encloses(nodes[0].crate_and_module@, path) {
            Self::lemma_route(nodes.skip(1), path);
            assert forall|j: int| 0 <= j < Self::route(nodes, path) implies !path::encloses(
                (#[trigger] nodes[j]).crate_and_module@,
                path,
            ) by {
                if j > 0 {
                    assert(nodes.skip(1)[j - 1] == nodes[j]);
                }
            }
        }
    }

    pub proof fn lemma_route_is(nodes: Seq<SuiteNode<V>>, path: Seq<char>, i: int)
        requires
            0 <= i <= nodes.len(),
            i < nodes.len() ==> path::encloses(nodes[i].crate_and_module@, path),
            forall|j: int|
                0 <= j < i ==> !path::encloses((#[trigger] nodes[j]).crate_and_module@, path),
        ensures
            Self::route(nodes, path) == i,
    {
        Self::lemma_route(nodes, path);
    }

    pub proof fn lemma_total_update(nodes: Seq<SuiteNode<V>>, i: int, node: SuiteNode<V>)
        requires
            0 <= i < nodes.len(),
        ensures
            Self::total_of(nodes.update(i, node)) == Self::total_of(nodes) - nodes[i].total()
                + node.total(),
            nodes[i].total() <= Self::total_of(nodes),
        decreases nodes.len(),
    {
        let after = nodes.update(i, node);
        if i == nodes.len() - 1 {
            assert(after.drop_last() =~= nodes.drop_last());
        } else {
            assert(after.drop_last() =~= nodes.drop_last().update(i, node));
            Self::lemma_total_update(nodes.drop_last(), i, node);
        }
    }

    pub proof fn lemma_tests_update(
        nodes: Seq<SuiteNode<V>>,
        i: int,
        node: SuiteNode<V>,
    )
        requires
            0 <= i < nodes.len(),
        ensures
            forall|t: TestModel|
                #![trigger Self::tests_among(nodes.update(i, node)).count(t)]
                Self::tests_among(nodes.update(i, node)).count(t) + nodes[i].tests_below().count(t)
                    == Self::tests_among(nodes).count(t) + node.tests_below().count(t),
        decreases nodes.len(),
    {
        let after = nodes.update(i, node);
        if i == nodes.len() - 1 {
            assert(after.drop_last() =~= nodes.drop_last());
        } else {
            assert(after.drop_last() =~= nodes.drop_last().update(i, node));
            Self::lemma_tests_update(nodes.drop_last(), i, node);
        }
        assert forall|t: TestModel|
            #![trigger Self::tests_among(after).count(t)]
            Self::tests_among(after).count(t) + nodes[i].tests_below().count(t)
                == Self::tests_among(nodes).count(t) + node.tests_below().count(t) by {
            assert(Self::tests_among(after).count(t) == Self::tests_among(after.drop_last()).count(
                t,
            ) + after.last().tests_below().count(t));
            assert(Self::tests_among(nodes).count(t) == Self::tests_among(nodes.drop_last()).count(
                t,
            ) + nodes.last().tests_below().count(t));
        }
    }

    /// Suites that hold the same tests one by one hold the same tests together.
    pub proof fn lemma_pointwise(a: Seq<SuiteNode<V>>, b: Seq<SuiteNode<V>>)
        requires
            a.len() == b.len(),
            forall|i: int|
                0 <= i < a.len() ==> (#[trigger] a[i]).total() == b[i].total()
                    && a[i].tests_below() == b[i].tests_below(),
        ensures
            Self::total_of(a) == Self::total_of(b),
            Self::tests_among(a) == Self::tests_among(b),
        decreases a.len(),
    {
        if a.len() > 0 {
            let (x, y) = (a.drop_last(), b.drop_last());
            assert forall|i: int| 0 <= i < x.len() implies (#[trigger] x[i]).total() == y[i].total()
                && x[i].tests_below() == y[i].tests_below() by {
                assert(x[i] == a[i]);
            }
            Self::lemma_pointwise(x, y);
            assert(a[a.len() - 1].total() == b[b.len() - 1].total());
        }
    }

    proof fn lemma_push_test(tests: Seq<RegisteredTest>, test: RegisteredTest)
        ensures
            internal::test_views(tests.push(test)).to_multiset() == internal::test_views(
                tests,
            ).to_multiset().insert(test@),
    {
        broadcast use vstd::seq_lib::group_to_multiset_ensures;
        assert(internal::test_views(tests.push(test)) =~= internal::test_views(tests).push(test@));
    }

    /// A suite in which nothing stands.
    pub fn empty(path: String) -> (r: Self)
        ensures
            r.wf(),
            r.fresh(),
            r.crate_and_module@ == path@,
            r.remaining_count == 0,
            r.contents() == SuiteContents::empty(),
            forall|q: Seq<char>| #[trigger] r.contents_at(q) == SuiteContents::empty(),
            r.inner@.len() == 0,
            r.tests_below() == Multiset::<TestModel>::empty(),
    {
        broadcast use vstd::seq_lib::group_to_multiset_ensures;
        let sequential_lock = SequentialExecutionLock::new(path.as_str());
        let r = SuiteNode {
            crate_and_module: path,
            dependencies: Vec::new(),
            tests: Vec::new(),
            props: Vec::new(),
            inner: Vec::new(),
            materialized_dependencies: DependencyMap::new(),
            sequential_lock,
            remaining_count: 0,
            is_sequential: false,
            skip_creating_dependencies: false,
            in_progress: 0,
        };
        assert(r.contents() =~= SuiteContents::empty());
        assert forall|q: Seq<char>| #[trigger] r.contents_at(q) == SuiteContents::empty() by {
            Self::lemma_route(r.inner@, q);
        }
        assert(internal::test_views(r.tests@) =~= Seq::empty());
        assert(r.tests_below() =~= Multiset::empty());
        r
    }

    /// Adds the item to the suite of its module, which is made where it does not exist yet.
    pub fn add(&mut self, path: &str, item: SuiteItem)
        requires
            old(self).wf(),
            old(self).fresh(),
            old(self).remaining_count < usize::MAX,
            path@ == item.path(),
            path::encloses(old(self).crate_and_module@, path@),
            path::is_rooted(path@),
        ensures
            final(self).wf(),
            final(self).fresh(),
            final(self).crate_and_module@ == old(self).crate_and_module@,
            final(self).remaining_count == old(self).remaining_count + (if item is Test {
                1int
            } else {
                0
            }),
            final(self).tests_below() == item.counted_in(old(self).tests_below()),
            forall|q: Seq<char>| #[trigger]
                final(self).contents_at(q) == (if q == path@ {
                    item.added_to(old(self).contents_at(q))
                } else {
                    old(self).contents_at(q)
                }),
        decreases path@.len() - old(self).crate_and_module@.len(),
    {
        let ghost before = *self;
        let is_test = matches!(item, SuiteItem::Test(_));
        if str_eq(self.crate_and_module.as_str(), path) {
            match item {
                SuiteItem::Dependency(dep) => {
                    self.dependencies.push(dep);
                },
                SuiteItem::Test(test) => {
                    if test.run.is_bench() {
                        self.is_sequential = true;
                    }
                    proof {
                        Self::lemma_push_test(self.tests@, test);
                    }
                    self.tests.push(test);
                    self.remaining_count = self.remaining_count + 1;
                },
                SuiteItem::Property(prop) => {
                    if matches!(prop, RegisteredTestSuiteProperty::Sequential { .. }) {
                        self.is_sequential = true;
                    }
                    self.props.push(prop);
                },
            }
            assert(self.contents() =~= item.added_to(before.contents()));
            assert(self.inner@ == before.inner@);
            assert(self.tests_below() =~= item.counted_in(before.tests_below()));
        } else {
            let mut i: usize = 0;
            while i < self.inner.len() && !is_prefix_of(self.inner[i].crate_and_module.as_str(), path)
                invariant
                    i <= self.inner.len(),
                    *self == before,
                    forall|j: int|
                        0 <= j < i ==> !path::encloses(
                            (#[trigger] before.inner@[j]).crate_and_module@,
                            path@,
                        ),
                decreases self.inner.len() - i,
            {
                i = i + 1;
            }
            proof {
                Self::lemma_route_is(before.inner@, path@, i as int);
            }
            if i < self.inner.len() {
                proof {
                    Self::lemma_total_update(before.inner@, i as int, before.inner@[i as int]);
                    let child = before.inner@[i as int];
                    assert(child.wf() && child.fresh());
                    assert(child.remaining_count == child.total());
                    assert(before.total() == before.tests@.len() + Self::total_of(before.inner@));
                    if self.inner@[i as int].crate_and_module@ != path@ {
                        path::lemma_encloses_shorter(
                            self.inner@[i as int].crate_and_module@,
                            path@,
                        );
                    }
                }
                self.inner[i].add(path, item);
                proof {
                    let child = self.inner@[i as int];
                    assert(self.inner@ =~= before.inner@.update(i as int, child));
                    Self::lemma_total_update(before.inner@, i as int, child);
                    Self::lemma_tests_update(before.inner@, i as int, child);
                    let expected = item.counted_in(before.tests_below());
                    assert forall|t: TestModel| #[trigger]
                        self.tests_below().count(t) == expected.count(t) by {
                        let own = internal::test_views(before.tests@).to_multiset();
                        assert(internal::test_views(self.tests@).to_multiset() == own);
                        assert(self.tests_below().count(t) == own.count(t) + Self::tests_among(
                            before.inner@.update(i as int, child),
                        ).count(t));
                        assert(before.tests_below().count(t) == own.count(t) + Self::tests_among(
                            before.inner@,
                        ).count(t));
                    }
                    assert(self.tests_below() =~= expected);
                }
            } else {
                proof {
                    path::lemma_one_below(before.crate_and_module@, path@);
                }
                let mut node = Self::empty(next_level(self.crate_and_module.as_str(), path));
                node.add(path, item);
                let ghost added = node;
                proof {
                    path::lemma_one_below_direct(before.crate_and_module@, path@);
                    assert forall|j: int| 0 <= j < before.inner@.len() implies (
                    #[trigger] before.inner@[j]).crate_and_module@ != added.crate_and_module@ by {}
                }
                self.inner.push(node);
                assert(self.inner@.drop_last() =~= before.inner@);
                assert(Self::tests_among(self.inner@) == Self::tests_among(before.inner@).add(
                    added.tests_below(),
                ));
                assert(self.tests_below() =~= item.counted_in(before.tests_below()));
            }
            let ghost placed = *self;
            if is_test {
                self.remaining_count = self.remaining_count + 1;
            }
            proof {
                assert(self.tests_below() == placed.tests_below());
                assert forall|q: Seq<char>| #[trigger] self.contents_at(q) == (if q == path@ {
                    item.added_to(before.contents_at(q))
                } else {
                    before.contents_at(q)
                }) by {
                    Self::lemma_route(before.inner@, q);
                    Self::lemma_route(self.inner@, q);
                    assert(self.contents_at(before.crate_and_module@) == self.contents());
                    if q != before.crate_and_module@ {
                        let r = Self::route(before.inner@, q);
                        assert(before.node_at(q) == Self::node_among(before.inner@, q));
                        assert(self.node_at(q) == Self::node_among(self.inner@, q));
                        if r < before.inner@.len() {
                            Self::lemma_route_is(self.inner@, q, r);
                            let child = before.inner@[r];
                            assert(before.contents_at(q) == child.contents_at(q));
                            assert(self.contents_at(q) == self.inner@[r].contents_at(q));
                            if r != i {
                                assert(self.inner@[r] == child);
                            }
                        } else if i < before.inner@.len() {
                            Self::lemma_route_is(self.inner@, q, r);
                        } else if path::encloses(self.inner@[i as int].crate_and_module@, q) {
                            Self::lemma_route_is(self.inner@, q, r);
                            assert(self.contents_at(q) == self.inner@[r].contents_at(q));
                        } else {
                            Self::lemma_route_is(self.inner@, q, r + 1);
                        }
                    }
                }
            }
        }
    }
}

} // verus!
