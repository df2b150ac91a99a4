//! Which dependencies are left out of a run.
use crate::execution::node::SuiteNode;
use crate::execution::order;
use crate::execution::prune;
use crate::internal;
use crate::internal::{DependencyModel, RegisteredDependency, RegisteredTest};
use crate::text;
use vstd::prelude::*;

verus! {

/// The test says which dependencies it uses, and this is none of them.
pub open spec fn does_without(test: RegisteredTest, name: Seq<char>) -> bool {
    test.dependencies matches Some(names) && forall|i: int|
        0 <= i < names@.len() ==> (#[trigger] names@[i])@ != name
}

/// The dependency has nothing to do with those of this name: it does not use them and is not kept
/// together with them.
pub open spec fn is_unrelated(dep: RegisteredDependency, name: Seq<char>) -> bool {
    &&& dep.name@ == name ==> dep.companions@.len() == 0
    &&& dep.name@ != name ==> forall|i: int|
        0 <= i < dep.dependencies@.len() ==> (#[trigger] dep.dependencies@[i])@ != name
    &&& dep.name@ != name ==> forall|i: int|
        0 <= i < dep.companions@.len() ==> (#[trigger] dep.companions@[i])@ != name
}

impl<V> SuiteNode<V> {
    /// Nothing here or below uses a dependency of this name.
    pub open spec fn does_without_all(self, name: Seq<char>) -> bool
        decreases self,
    {
        &&& forall|i: int| 0 <= i < self.tests@.len() ==> does_without(#[trigger] self.tests@[i], name)
        &&& forall|i: int|
            0 <= i < self.dependencies@.len() ==> is_unrelated(
                #[trigger] self.dependencies@[i],
                name,
            )
        &&& forall|j: int|
            0 <= j < self.inner@.len() ==> (#[trigger] self.inner@[j]).does_without_all(name)
    }

    /// No dependency here or below has this name.
    pub open spec fn is_without(self, name: Seq<char>) -> bool
        decreases self,
    {
        &&& forall|i: int|
            0 <= i < self.dependencies@.len() ==> (#[trigger] self.dependencies@[i]).name@ != name
        &&& forall|j: int| 0 <= j < self.inner@.len() ==> (#[trigger] self.inner@[j]).is_without(name)
    }

    proof fn lemma_not_asked(self, name: Seq<char>)
        requires
            self.does_without_all(name),
        ensures
            self.asked_for() is Some,
            !self.asked_for()->0.contains(name),
            self.needs() is Some,
            !self.needs()->0.contains(name),
            !prune::is_kept(
                internal::dependency_views(self.dependencies@),
                self.asked_for()->0,
                name,
            ),
        decreases self,
    {
        let tests = internal::test_views(self.tests@);
        let deps = internal::dependency_views(self.dependencies@);
        assert forall|i: int| 0 <= i < tests.len() implies (#[trigger] tests[i]).dependencies is Some
            && !tests[i].dependencies->0.contains(name) by {
            let test = self.tests@[i];
            assert(does_without(test, name));
            assert(tests[i] == test@);
            let names = test.dependencies->0;
            assert(tests[i].dependencies->0 == text::views(names@));
            if tests[i].dependencies->0.contains(name) {
                let k = tests[i].dependencies->0.index_of(name);
                assert(names@[k]@ == name);
            }
        }
        assert forall|j: int| 0 <= j < self.inner@.len() implies (
        #[trigger] self.inner@[j]).needs() is Some && !self.inner@[j].needs()->0.contains(
            name,
        ) by {
            self.inner@[j].lemma_not_asked(name);
        }
        let direct = self.asked_for()->0;
        assert forall|a: Seq<char>| a != name implies !(#[trigger] prune::leads_to(
            deps,
            a,
            name,
        )) by {
            order::lemma_first_named(deps, a);
            order::lemma_first_named(deps, name);
            if prune::is_local(deps, a) {
                let x = order::first_named(deps, a);
                lemma_unrelated(self.dependencies@[x], name);
                assert(is_unrelated(self.dependencies@[x], name));
                assert(deps[x] == self.dependencies@[x]@);
            }
            if prune::is_local(deps, name) {
                let x = order::first_named(deps, name);
                lemma_unrelated(self.dependencies@[x], name);
                assert(is_unrelated(self.dependencies@[x], name));
                assert(deps[x] == self.dependencies@[x]@);
            }
        }
        if prune::is_kept(deps, direct, name) {
            let chain = choose|chain: Seq<Seq<char>>|
                #[trigger] prune::is_chain(deps, direct, chain) && chain.last() == name;
            lemma_no_chain(deps, direct, chain, name, chain.len() - 1);
        }
        if self.needs()->0.contains(name) {
            let k = choose|k: Seq<char>|
                prune::is_kept(deps, direct, k) && #[trigger] prune::leads_to(deps, k, name);
            assert(k == name);
        }
    }

    proof fn lemma_left_out(self, other: SuiteNode<V>, name: Seq<char>)
        requires
            self.does_without_all(name),
            self.pruned_to(other),
        ensures
            other.is_without(name),
        decreases self,
    {
        let deps = internal::dependency_views(self.dependencies@);
        let kept = internal::dependency_views(other.dependencies@);
        self.lemma_not_asked(name);
        let keep = |d: DependencyModel| prune::is_kept(deps, self.asked_for()->0, d.name);
        assert forall|i: int| 0 <= i < other.dependencies@.len() implies (
        #[trigger] other.dependencies@[i]).name@ != name by {
            assert(kept[i] == other.dependencies@[i]@);
            deps.lemma_filter_pred(keep, i);
        }
        assert forall|j: int| 0 <= j < other.inner@.len() implies (
        #[trigger] other.inner@[j]).is_without(name) by {
            assert(self.inner@[j].pruned_to(other.inner@[j]));
            self.inner@[j].lemma_left_out(other.inner@[j], name);
        }
    }
}

proof fn lemma_unrelated(dep: RegisteredDependency, name: Seq<char>)
    requires
        is_unrelated(dep, name),
    ensures
        dep.name@ != name ==> !dep@.dependencies.contains(name) && !dep@.companions.contains(name),
        dep.name@ == name ==> dep@.companions.len() == 0,
{
    if dep.name@ != name {
        if dep@.dependencies.contains(name) {
            let k = dep@.dependencies.index_of(name);
            assert(dep.dependencies@[k]@ == name);
        }
        if dep@.companions.contains(name) {
            let k = dep@.companions.index_of(name);
            assert(dep.companions@[k]@ == name);
        }
    }
}

proof fn lemma_no_chain(
    deps: Seq<DependencyModel>,
    direct: Set<Seq<char>>,
    chain: Seq<Seq<char>>,
    name: Seq<char>,
    k: int,
)
    requires
        prune::is_chain(deps, direct, chain),
        !direct.contains(name),
        forall|a: Seq<char>| a != name ==> !(#[trigger] prune::leads_to(deps, a, name)),
        0 <= k < chain.len(),
    ensures
        chain[k] != name,
    decreases k,
{
    if k > 0 {
        lemma_no_chain(deps, direct, chain, name, k - 1);
        assert(prune::leads_to(deps, chain[k - 1], chain[k]));
    }
}

/// A dependency that no test uses, directly or through another dependency, is left out of the run: its
/// constructor will not be called.
pub proof fn unused_dependency_is_left_out<V>(
    before: SuiteNode<V>,
    after: SuiteNode<V>,
    needed: Option<Vec<String>>,
    name: Seq<char>,
)
    requires
        before.does_without_all(name),
        exists|node: &mut SuiteNode<V>|
            *node == before && *final(node) == after && #[trigger] call_ensures(
                SuiteNode::<V>::prune_unused_deps,
                (node,),
                needed,
            ),
    ensures
        after.is_without(name),
        needed matches Some(names) && forall|i: int|
            0 <= i < names@.len() ==> (#[trigger] names@[i])@ != name,
{
    before.lemma_left_out(after, name);
    before.lemma_not_asked(name);
    let names = needed->0;
    assert forall|i: int| 0 <= i < names@.len() implies (#[trigger] names@[i])@ != name by {
        assert(text::views(names@)[i] == names@[i]@);
        assert(text::views(names@).contains(names@[i]@));
    }
}

/// What a test of the suite uses stays, and everything stays where a test does not say what it uses.
pub proof fn used_dependency_stays<V>(
    before: SuiteNode<V>,
    after: SuiteNode<V>,
    needed: Option<Vec<String>>,
    x: int,
    t: int,
)
    requires
        exists|node: &mut SuiteNode<V>|
            *node == before && *final(node) == after && #[trigger] call_ensures(
                SuiteNode::<V>::prune_unused_deps,
                (node,),
                needed,
            ),
        0 <= x < before.dependencies@.len(),
        0 <= t < before.tests@.len(),
        before.tests@[t].dependencies matches Some(names) ==> exists|i: int|
            0 <= i < names@.len() && (#[trigger] names@[i])@ == before.dependencies@[x].name@,
    ensures
        exists|y: int|
            0 <= y < after.dependencies@.len() && (#[trigger] after.dependencies@[y])@
                == before.dependencies@[x]@,
{
    let tests = internal::test_views(before.tests@);
    let deps = internal::dependency_views(before.dependencies@);
    let kept = internal::dependency_views(after.dependencies@);
    let name = before.dependencies@[x].name@;
    assert(tests[t] == before.tests@[t]@);
    assert(deps[x] == before.dependencies@[x]@);
    if before.asked_for() is Some {
        let direct = before.asked_for()->0;
        let names = before.tests@[t].dependencies->0;
        let i = choose|i: int| 0 <= i < names@.len() && (#[trigger] names@[i])@ == name;
        assert(tests[t].dependencies->0[i] == name);
        assert(tests[t].dependencies->0.contains(name));
        assert(direct.contains(name));
        order::lemma_first_named(deps, name);
        assert(deps[x].name == name);
        prune::asked_dependency_is_kept(deps, direct, name);
        let keep = |d: DependencyModel| prune::is_kept(deps, direct, d.name);
        deps.lemma_filter_contains(keep, x);
        let y = kept.index_of(deps[x]);
        assert(kept[y] == after.dependencies@[y]@);
    } else {
        assert(before.pruned_to(after));
        assert(kept == deps);
        assert(kept[x] == after.dependencies@[x]@);
    }
}

} // verus!
