//! Building the execution plan of a run.
use super::node::{SuiteContents, SuiteItem, SuiteNode};
use super::path;
use super::shuffle;
use super::shuffle::shuffle;
use crate::args::ArgumentsModel;
use crate::internal;
use crate::internal::{
    DependencyModel, RegisteredDependency, RegisteredTest, RegisteredTestSuiteProperty, TestModel,
};
use vstd::multiset::Multiset;
use vstd::prelude::*;

verus! {

/// What a suite holds of everything that is put into the plan: what belongs to its path, in the
/// given order.
pub open spec fn planned(
    deps: Seq<DependencyModel>,
    tests: Seq<TestModel>,
    props: Seq<RegisteredTestSuiteProperty>,
    path: Seq<char>,
) -> SuiteContents {
    SuiteContents {
        dependencies: deps.filter(|d: DependencyModel| d.crate_and_module() == path),
        tests: tests.filter(|t: TestModel| t.crate_and_module() == path),
        props: props.filter(
            |p: RegisteredTestSuiteProperty| p.spec_crate_and_module() == path,
        ),
        is_sequential: {
            ||| exists|i: int|
                0 <= i < props.len() && (#[trigger] props[i]).spec_crate_and_module() == path
                    && props[i] is Sequential
            ||| exists|i: int|
                0 <= i < tests.len() && (#[trigger] tests[i]).crate_and_module() == path
                    && tests[i].run.spec_is_bench()
        },
    }
}

proof fn lemma_planned_push_prop(
    deps: Seq<DependencyModel>,
    tests: Seq<TestModel>,
    props: Seq<RegisteredTestSuiteProperty>,
    prop: RegisteredTestSuiteProperty,
    path: Seq<char>,
)
    ensures
        planned(deps, tests, props.push(prop), path) == (if prop.spec_crate_and_module() == path {
            SuiteItem::Property(prop).added_to(planned(deps, tests, props, path))
        } else {
            planned(deps, tests, props, path)
        }),
{
    reveal(Seq::filter);
    let more = props.push(prop);
    assert(more.drop_last() =~= props);
    assert(more[props.len() as int] == prop);
    assert(forall|i: int| 0 <= i < props.len() ==> more[i] == props[i]);
    let a = planned(deps, tests, more, path);
    let b = planned(deps, tests, props, path);
    if b.is_sequential && !(exists|i: int|
        0 <= i < tests.len() && (#[trigger] tests[i]).crate_and_module() == path
            && tests[i].run.spec_is_bench()) {
        let i = choose|i: int|
            0 <= i < props.len() && (#[trigger] props[i]).spec_crate_and_module() == path
                && props[i] is Sequential;
        assert(more[i].spec_crate_and_module() == path);
    }
    if prop.spec_crate_and_module() == path {
        assert(more[props.len() as int].spec_crate_and_module() == path);
        assert(a =~= SuiteItem::Property(prop).added_to(b));
    } else {
        assert(a =~= b);
    }
}

proof fn lemma_planned_push_dep(
    deps: Seq<DependencyModel>,
    tests: Seq<TestModel>,
    props: Seq<RegisteredTestSuiteProperty>,
    dep: RegisteredDependency,
    path: Seq<char>,
)
    ensures
        planned(deps.push(dep@), tests, props, path) == (if dep@.crate_and_module() == path {
            SuiteItem::Dependency(dep).added_to(planned(deps, tests, props, path))
        } else {
            planned(deps, tests, props, path)
        }),
{
    reveal(Seq::filter);
    assert(deps.push(dep@).drop_last() =~= deps);
    let a = planned(deps.push(dep@), tests, props, path);
    let b = planned(deps, tests, props, path);
    if dep@.crate_and_module() == path {
        assert(a =~= SuiteItem::Dependency(dep).added_to(b));
    } else {
        assert(a =~= b);
    }
}

proof fn lemma_planned_push_test(
    deps: Seq<DependencyModel>,
    tests: Seq<TestModel>,
    props: Seq<RegisteredTestSuiteProperty>,
    test: RegisteredTest,
    path: Seq<char>,
)
    ensures
        planned(deps, tests.push(test@), props, path) == (if test@.crate_and_module() == path {
            SuiteItem::Test(test).added_to(planned(deps, tests, props, path))
        } else {
            planned(deps, tests, props, path)
        }),
{
    reveal(Seq::filter);
    let more = tests.push(test@);
    assert(more.drop_last() =~= tests);
    assert(more[tests.len() as int] == test@);
    assert(forall|i: int| 0 <= i < tests.len() ==> more[i] == tests[i]);
    let a = planned(deps, more, props, path);
    let b = planned(deps, tests, props, path);
    if b.is_sequential && !(exists|i: int|
        0 <= i < props.len() && (#[trigger] props[i]).spec_crate_and_module() == path
            && props[i] is Sequential) {
        let i = choose|i: int|
            0 <= i < tests.len() && (#[trigger] tests[i]).crate_and_module() == path
                && tests[i].run.spec_is_bench();
        assert(more[i].crate_and_module() == path);
    }
    if test@.crate_and_module() == path {
        assert(more[tests.len() as int].crate_and_module() == path);
        assert(a =~= SuiteItem::Test(test).added_to(b));
    } else {
        assert(a =~= b);
    }
}

/// All of these can be put into the plan: no path begins with the separator.
pub open spec fn all_rooted(
    deps: Seq<RegisteredDependency>,
    tests: Seq<RegisteredTest>,
    props: Seq<RegisteredTestSuiteProperty>,
) -> bool {
    &&& forall|i: int|
        0 <= i < deps.len() ==> path::is_rooted((#[trigger] deps[i])@.crate_and_module())
    &&& forall|i: int|
        0 <= i < tests.len() ==> path::is_rooted((#[trigger] tests[i])@.crate_and_module())
    &&& forall|i: int|
        0 <= i < props.len() ==> path::is_rooted((#[trigger] props[i]).spec_crate_and_module())
}

/// The tree of suites with everything in its place.
pub fn build_tree<V>(
    deps: &Vec<RegisteredDependency>,
    tests: &Vec<RegisteredTest>,
    props: &Vec<RegisteredTestSuiteProperty>,
) -> (root: SuiteNode<V>)
    requires
        all_rooted(deps@, tests@, props@),
    ensures
        root.wf(),
        root.fresh(),
        root.crate_and_module@ == Seq::<char>::empty(),
        root.remaining_count == tests.len(),
        root.tests_below() == internal::test_views(tests@).to_multiset(),
        forall|q: Seq<char>| #[trigger]
            root.contents_at(q) == planned(
                internal::dependency_views(deps@),
                internal::test_views(tests@),
                props@,
                q,
            ),
{
    let ghost all_deps = internal::dependency_views(deps@);
    let ghost all_tests = internal::test_views(tests@);
    let ghost no_deps = Seq::<DependencyModel>::empty();
    let ghost no_tests = Seq::<TestModel>::empty();
    let mut root: SuiteNode<V> = SuiteNode::empty(String::new());
    proof {
        reveal(Seq::filter);
        assert forall|q: Seq<char>| #[trigger] root.contents_at(q) == planned(
            no_deps,
            no_tests,
            props@.take(0),
            q,
        ) by {
            assert(planned(no_deps, no_tests, props@.take(0), q) =~= SuiteContents::empty());
        }
    }
    let mut i: usize = 0;
    while i < props.len()
        invariant
            i <= props.len(),
            all_rooted(deps@, tests@, props@),
            root.wf(),
            root.fresh(),
            root.crate_and_module@ == Seq::<char>::empty(),
            root.remaining_count == 0,
            root.tests_below() == Multiset::<TestModel>::empty(),
            forall|q: Seq<char>| #[trigger]
                root.contents_at(q) == planned(no_deps, no_tests, props@.take(i as int), q),
        decreases props.len() - i,
    {
        let prop = props[i].clone();
        let at = prop.crate_and_module();
        let ghost before = root;
        root.add(at.as_str(), SuiteItem::Property(prop));
        assert forall|q: Seq<char>| #[trigger] root.contents_at(q) == planned(
            no_deps,
            no_tests,
            props@.take(i + 1),
            q,
        ) by {
            assert(props@.take(i + 1) =~= props@.take(i as int).push(prop));
            lemma_planned_push_prop(no_deps, no_tests, props@.take(i as int), prop, q);
            assert(before.contents_at(q) == planned(no_deps, no_tests, props@.take(i as int), q));
        }
        i = i + 1;
    }
    assert(props@.take(i as int) =~= props@);
    let mut j: usize = 0;
    assert(all_deps.take(0) =~= no_deps);
    while j < deps.len()
        invariant
            j <= deps.len(),
            all_deps == internal::dependency_views(deps@),
            all_rooted(deps@, tests@, props@),
            root.wf(),
            root.fresh(),
            root.crate_and_module@ == Seq::<char>::empty(),
            root.remaining_count == 0,
            root.tests_below() == Multiset::<TestModel>::empty(),
            forall|q: Seq<char>| #[trigger]
                root.contents_at(q) == planned(all_deps.take(j as int), no_tests, props@, q),
        decreases deps.len() - j,
    {
        let dep = deps[j].clone();
        let at = dep.crate_and_module();
        let ghost before = root;
        root.add(at.as_str(), SuiteItem::Dependency(dep));
        assert forall|q: Seq<char>| #[trigger] root.contents_at(q) == planned(
            all_deps.take(j + 1),
            no_tests,
            props@,
            q,
        ) by {
            assert(all_deps.take(j + 1) =~= all_deps.take(j as int).push(dep@));
            lemma_planned_push_dep(all_deps.take(j as int), no_tests, props@, dep, q);
            assert(before.contents_at(q) == planned(all_deps.take(j as int), no_tests, props@, q));
        }
        j = j + 1;
    }
    assert(all_deps.take(j as int) =~= all_deps);
    let mut k: usize = 0;
    assert(all_tests.take(0) =~= no_tests);
    proof {
        no_tests.to_multiset_ensures();
        assert(no_tests.to_multiset() =~= Multiset::empty());
    }
    while k < tests.len()
        invariant
            k <= tests.len(),
            all_tests == internal::test_views(tests@),
            all_rooted(deps@, tests@, props@),
            root.wf(),
            root.fresh(),
            root.crate_and_module@ == Seq::<char>::empty(),
            root.remaining_count == k,
            root.tests_below() == all_tests.take(k as int).to_multiset(),
            forall|q: Seq<char>| #[trigger]
                root.contents_at(q) == planned(all_deps, all_tests.take(k as int), props@, q),
        decreases tests.len() - k,
    {
        let test = tests[k].clone();
        let at = test.crate_and_module();
        let ghost before = root;
        root.add(at.as_str(), SuiteItem::Test(test));
        proof {
            assert(all_tests.take(k + 1) =~= all_tests.take(k as int).push(test@));
            all_tests.take(k as int).to_multiset_ensures();
            assert forall|q: Seq<char>| #[trigger] root.contents_at(q) == planned(
                all_deps,
                all_tests.take(k + 1),
                props@,
                q,
            ) by {
                lemma_planned_push_test(all_deps, all_tests.take(k as int), props@, test, q);
                assert(before.contents_at(q) == planned(
                    all_deps,
                    all_tests.take(k as int),
                    props@,
                    q,
                ));
            }
        }
        k = k + 1;
    }
    assert(all_tests.take(k as int) =~= all_tests);
    root
}

/// The registered tests with the properties of their suites.
pub open spec fn with_suite_properties(
    tests: Seq<RegisteredTest>,
    props: Seq<RegisteredTestSuiteProperty>,
) -> Seq<TestModel> {
    Seq::new(tests.len(), |i: int| internal::with_properties(tests[i]@, props))
}

/// The tests that the arguments select.
pub open spec fn chosen(
    args: ArgumentsModel,
    tests: Seq<RegisteredTest>,
    props: Seq<RegisteredTestSuiteProperty>,
) -> Seq<TestModel> {
    with_suite_properties(tests, props).filter(|t: TestModel| internal::selected(args, t))
}

/// The selected tests as they are put into the plan: suites hand out their last test first, so
/// the order in which they are to run is reversed.
pub open spec fn plan_order(
    args: ArgumentsModel,
    tests: Seq<RegisteredTest>,
    props: Seq<RegisteredTestSuiteProperty>,
) -> Seq<TestModel> {
    shuffle::run_order(chosen(args, tests, props), args.shuffle_seed).reverse()
}

/// `root` is made of a tree with everything in its place, by handing down locks and then dropping
/// the dependencies that are not needed.
pub open spec fn plan_steps<V>(
    tree: SuiteNode<V>,
    locked: SuiteNode<V>,
    root: SuiteNode<V>,
    deps: Seq<DependencyModel>,
    tests: Seq<TestModel>,
    props: Seq<RegisteredTestSuiteProperty>,
) -> bool {
    &&& tree.wf()
    &&& tree.fresh()
    &&& tree.crate_and_module@ == Seq::<char>::empty()
    &&& forall|q: Seq<char>| #[trigger]
        tree.contents_at(q) == planned(deps, tests, props, q)
    &&& tree.handed_down_to(None, locked)
    &&& locked.pruned_to(root)
}

/// `root` is the plan for these tests.
pub open spec fn is_plan<V>(
    root: SuiteNode<V>,
    deps: Seq<DependencyModel>,
    tests: Seq<TestModel>,
    props: Seq<RegisteredTestSuiteProperty>,
) -> bool {
    exists|tree: SuiteNode<V>, locked: SuiteNode<V>|
        #[trigger] plan_steps(tree, locked, root, deps, tests, props)
}

/// What the root holds when no test is selected: what was registered outside of any module.
pub open spec fn bare_root(
    deps: Seq<DependencyModel>,
    props: Seq<RegisteredTestSuiteProperty>,
) -> SuiteContents {
    let top_props = props.filter(
        |p: RegisteredTestSuiteProperty|
            p.spec_crate_name().len() == 0 && p.spec_module().len() == 0,
    );
    SuiteContents {
        dependencies: deps.filter(
            |d: DependencyModel| d.crate_name.len() == 0 && d.module.len() == 0,
        ),
        tests: Seq::empty(),
        props: top_props,
        is_sequential: exists|i: int|
            0 <= i < top_props.len() && (#[trigger] top_props[i]) is Sequential,
    }
}

pub proof fn lemma_properties_keep_path(test: TestModel, props: Seq<RegisteredTestSuiteProperty>)
    ensures
        internal::with_properties(test, props).crate_and_module() == test.crate_and_module(),
    decreases props.len(),
{
    if props.len() > 0 {
        lemma_properties_keep_path(test, props.drop_last());
    }
}

pub fn reversed(tests: &Vec<RegisteredTest>) -> (r: Vec<RegisteredTest>)
    ensures
        internal::test_views(r@) == internal::test_views(tests@).reverse(),
{
    let ghost all = internal::test_views(tests@);
    let mut r: Vec<RegisteredTest> = Vec::new();
    let mut i: usize = tests.len();
    while i > 0
        invariant
            i <= tests.len(),
            all == internal::test_views(tests@),
            internal::test_views(r@) == all.reverse().take(tests.len() - i),
        decreases i,
    {
        let ghost before = r@;
        r.push(tests[i - 1].clone());
        assert(internal::test_views(r@) =~= internal::test_views(before).push(all[i - 1]));
        assert(all.reverse().take(tests.len() - i + 1) =~= all.reverse().take(
            tests.len() - i,
        ).push(all[i - 1]));
        i = i - 1;
    }
    assert(all.reverse().take(tests.len() - i) =~= all.reverse());
    r
}

/// The root suite of a run in which no test is selected.
pub fn build_bare_root<V>(
    deps: &Vec<RegisteredDependency>,
    props: &Vec<RegisteredTestSuiteProperty>,
) -> (root: SuiteNode<V>)
    ensures
        root.wf(),
        root.fresh(),
        root.crate_and_module@ == Seq::<char>::empty(),
        root.remaining_count == 0,
        root.inner@.len() == 0,
        root.tests_below() == Multiset::<TestModel>::empty(),
        root.contents() == bare_root(internal::dependency_views(deps@), props@),
{
    let ghost all_deps = internal::dependency_views(deps@);
    let ghost want_dep = |d: DependencyModel| d.crate_name.len() == 0 && d.module.len() == 0;
    let ghost want_prop = |p: RegisteredTestSuiteProperty|
        p.spec_crate_name().len() == 0 && p.spec_module().len() == 0;
    let mut root: SuiteNode<V> = SuiteNode::empty(String::new());
    proof {
        reveal(Seq::filter);
        assert(internal::dependency_views(root.dependencies@) =~= all_deps.take(0).filter(
            want_dep,
        ));
        assert(root.props@ =~= props@.take(0).filter(want_prop));
    }
    let mut i: usize = 0;
    while i < deps.len()
        invariant
            i <= deps.len(),
            all_deps == internal::dependency_views(deps@),
            want_dep == (|d: DependencyModel| d.crate_name.len() == 0 && d.module.len() == 0),
            root.wf(),
            root.fresh(),
            root.crate_and_module@ == Seq::<char>::empty(),
            root.remaining_count == 0,
            root.inner@.len() == 0,
            root.tests@.len() == 0,
            root.props@.len() == 0,
            !root.is_sequential,
            root.tests_below() == Multiset::<TestModel>::empty(),
            internal::dependency_views(root.dependencies@) == all_deps.take(i as int).filter(
                want_dep,
            ),
        decreases deps.len() - i,
    {
        proof {
            reveal(Seq::filter);
        }
        assert(all_deps[i as int] == deps@[i as int]@);
        assert(all_deps.take(i + 1).drop_last() =~= all_deps.take(i as int));
        if deps[i].crate_name.as_str().is_empty() && deps[i].module.as_str().is_empty() {
            let ghost before = root.dependencies@;
            assert(deps@[i as int]@.crate_and_module() =~= Seq::<char>::empty());
            root.dependencies.push(deps[i].clone());
            assert(internal::dependency_views(root.dependencies@) =~= internal::dependency_views(
                before,
            ).push(all_deps[i as int]));
        }
        i = i + 1;
    }
    assert(all_deps.take(i as int) =~= all_deps);
    let ghost filled = root.dependencies;
    let mut j: usize = 0;
    while j < props.len()
        invariant
            j <= props.len(),
            want_prop == (|p: RegisteredTestSuiteProperty|
                p.spec_crate_name().len() == 0 && p.spec_module().len() == 0),
            root.wf(),
            root.fresh(),
            root.crate_and_module@ == Seq::<char>::empty(),
            root.remaining_count == 0,
            root.inner@.len() == 0,
            root.tests@.len() == 0,
            root.tests_below() == Multiset::<TestModel>::empty(),
            root.dependencies == filled,
            root.props@ == props@.take(j as int).filter(want_prop),
            root.is_sequential == exists|k: int|
                0 <= k < root.props@.len() && (#[trigger] root.props@[k]) is Sequential,
        decreases props.len() - j,
    {
        proof {
            reveal(Seq::filter);
        }
        assert(props@.take(j + 1).drop_last() =~= props@.take(j as int));
        if props[j].crate_name().as_str().is_empty() && props[j].module().as_str().is_empty() {
            let ghost before = root.props@;
            let ghost was = root.is_sequential;
            let prop = props[j].clone();
            if matches!(prop, RegisteredTestSuiteProperty::Sequential { .. }) {
                root.is_sequential = true;
            }
            root.props.push(prop);
            proof {
                assert(root.props@[before.len() as int] == prop);
                assert(forall|k: int| 0 <= k < before.len() ==> root.props@[k] == before[k]);
                if was {
                    let k = choose|k: int|
                        0 <= k < before.len() && (#[trigger] before[k]) is Sequential;
                    assert(root.props@[k] is Sequential);
                }
            }
        }
        j = j + 1;
    }
    assert(props@.take(j as int) =~= props@);
    assert(root.contents() =~= bare_root(all_deps, props@));
    root
}

} // verus!
