//! Dropping the dependencies that no selected test needs.
use super::node::SuiteNode;
use super::order;
use super::order::find_named;
use super::path;
use crate::internal;
use crate::internal::{DependencyModel, RegisteredDependency, RegisteredTest};
use crate::text;
use crate::text::contains_string;
use vstd::prelude::*;

verus! {

/// A dependency of this name is among them.
pub open spec fn is_local(deps: Seq<DependencyModel>, name: Seq<char>) -> bool {
    order::first_named(deps, name) < deps.len()
}

/// The dependency of the name `a` is one of these, and names `b` as a companion.
pub open spec fn names_companion(deps: Seq<DependencyModel>, a: Seq<char>, b: Seq<char>) -> bool {
    is_local(deps, a) && deps[order::first_named(deps, a)].companions.contains(b)
}

/// The dependency of the name `a` is one of these, and it uses `b` or one of the two names the other
/// as a companion.
pub open spec fn leads_to(deps: Seq<DependencyModel>, a: Seq<char>, b: Seq<char>) -> bool {
    &&& is_local(deps, a)
    &&& deps[order::first_named(deps, a)].dependencies.contains(b) || names_companion(deps, a, b)
        || names_companion(deps, b, a)
}

/// A chain of local dependencies that starts with one that is asked for directly, each of which
/// leads to the next.
pub open spec fn is_chain(
    deps: Seq<DependencyModel>,
    direct: Set<Seq<char>>,
    chain: Seq<Seq<char>>,
) -> bool {
    &&& chain.len() > 0
    &&& direct.contains(chain[0])
    &&& forall|i: int| 0 <= i < chain.len() ==> is_local(deps, #[trigger] chain[i])
    &&& forall|i: int|
        0 < i < chain.len() ==> leads_to(deps, chain[i - 1], #[trigger] chain[i])
}

/// The dependency is asked for, directly or by a chain of others.
pub open spec fn is_kept(
    deps: Seq<DependencyModel>,
    direct: Set<Seq<char>>,
    name: Seq<char>,
) -> bool {
    exists|chain: Seq<Seq<char>>| #[trigger] is_chain(deps, direct, chain) && chain.last() == name
}

/// The name has to come from an enclosing suite: no dependency here has it, and it is asked for
/// directly or by a dependency that is kept.
pub open spec fn is_asked_of_parent(
    deps: Seq<DependencyModel>,
    direct: Set<Seq<char>>,
    name: Seq<char>,
) -> bool {
    &&& !is_local(deps, name)
    &&& direct.contains(name) || exists|k: Seq<char>|
        is_kept(deps, direct, k) && #[trigger] leads_to(deps, k, name)
}

impl<V> SuiteNode<V> {
    /// The names that the tests of this suite and the suites below it ask for, or `None` if that
    /// is not known of one of the tests.
    pub open spec fn asked_for(self) -> Option<Set<Seq<char>>>
        decreases self, 0nat,
    {
        let tests = internal::test_views(self.tests@);
        if (exists|i: int| 0 <= i < tests.len() && (#[trigger] tests[i]).dependencies is None)
            || (exists|j: int|
            0 <= j < self.inner@.len() && (#[trigger] self.inner@[j]).needs() is None) {
            None
        } else {
            Some(
                Set::new(
                    |name: Seq<char>|
                        {
                            ||| exists|i: int|
                                0 <= i < tests.len() && (
                                #[trigger] tests[i]).dependencies->0.contains(name)
                            ||| exists|j: int|
                                0 <= j < self.inner@.len() && (
                                #[trigger] self.inner@[j]).needs()->0.contains(name)
                        },
                ),
            )
        }
    }

    /// The names that have to come from enclosing suites, or `None` if that is not known.
    pub open spec fn needs(self) -> Option<Set<Seq<char>>>
        decreases self, 1nat,
    {
        match self.asked_for() {
            Some(direct) => Some(
                Set::new(
                    |name: Seq<char>|
                        is_asked_of_parent(
                            internal::dependency_views(self.dependencies@),
                            direct,
                            name,
                        ),
                ),
            ),
            None => None,
        }
    }

    /// The dependencies of this suite that are kept: those that are asked for, or all of them if
    /// it is not known what is.
    pub open spec fn kept_dependencies(self) -> Seq<DependencyModel> {
        let deps = internal::dependency_views(self.dependencies@);
        match self.asked_for() {
            Some(direct) => deps.filter(|d: DependencyModel| is_kept(deps, direct, d.name)),
            None => deps,
        }
    }

    /// The two suites differ in their dependencies and the suites below at most.
    pub open spec fn same_but_dependencies(self, other: SuiteNode<V>) -> bool {
        &&& other.crate_and_module == self.crate_and_module
        &&& other.tests == self.tests
        &&& other.props == self.props
        &&& other.materialized_dependencies == self.materialized_dependencies
        &&& other.sequential_lock == self.sequential_lock
        &&& other.remaining_count == self.remaining_count
        &&& other.is_sequential == self.is_sequential
        &&& other.skip_creating_dependencies == self.skip_creating_dependencies
        &&& other.in_progress == self.in_progress
        &&& other.inner@.len() == self.inner@.len()
    }

    /// `other` is this suite without the dependencies that are not kept, here and below.
    pub open spec fn pruned_to(self, other: SuiteNode<V>) -> bool
        decreases self,
    {
        &&& self.same_but_dependencies(other)
        &&& internal::dependency_views(other.dependencies@) == self.kept_dependencies()
        &&& forall|i: int|
            0 <= i < self.inner@.len() ==> (#[trigger] self.inner@[i]).pruned_to(other.inner@[i])
    }
}

/// Puts the name among the others, unless it is there already.
fn add_name(names: &mut Vec<String>, name: &String) -> (added: bool)
    requires
        text::views(old(names)@).no_duplicates(),
    ensures
        added == !text::views(old(names)@).contains(name@),
        text::views(final(names)@) == (if added {
            text::views(old(names)@).push(name@)
        } else {
            text::views(old(names)@)
        }),
        text::views(final(names)@).no_duplicates(),
        forall|n: Seq<char>|
            #[trigger] text::views(final(names)@).contains(n) <==> text::views(
                old(names)@,
            ).contains(n) || n == name@,
{
    let ghost before = text::views(names@);
    if contains_string(names, name.as_str()) {
        return false;
    }
    names.push(name.clone());
    let ghost after = text::views(names@);
    assert(after =~= before.push(name@));
    assert forall|n: Seq<char>| #[trigger] after.contains(n) <==> before.contains(n) || n
        == name@ by {
        if before.contains(n) {
            let i = before.index_of(n);
            assert(after[i] == n);
        }
        assert(after[before.len() as int] == name@);
    }
    true
}

/// Puts all of the names among the others.
fn add_names(names: &mut Vec<String>, more: &Vec<String>)
    requires
        text::views(old(names)@).no_duplicates(),
    ensures
        text::views(final(names)@).no_duplicates(),
        forall|n: Seq<char>|
            #[trigger] text::views(final(names)@).contains(n) <==> text::views(
                old(names)@,
            ).contains(n) || text::views(more@).contains(n),
{
    let ghost before = text::views(names@);
    let ghost all = text::views(more@);
    let mut i: usize = 0;
    while i < more.len()
        invariant
            i <= more.len(),
            all == text::views(more@),
            text::views(names@).no_duplicates(),
            forall|n: Seq<char>|
                #[trigger] text::views(names@).contains(n) <==> before.contains(n) || all.take(
                    i as int,
                ).contains(n),
        decreases more.len() - i,
    {
        add_name(names, &more[i]);
        assert(all.take(i + 1) =~= all.take(i as int).push(all[i as int]));
        assert forall|n: Seq<char>| all.take(i + 1).contains(n) <==> all.take(i as int).contains(n)
            || n == all[i as int] by {
            if all.take(i as int).contains(n) {
                let k = all.take(i as int).index_of(n);
                assert(all.take(i + 1)[k] == n);
            }
            assert(all.take(i + 1)[i as int] == all[i as int]);
        }
        i = i + 1;
    }
    assert(all.take(i as int) =~= all);
}

/// The names as a set.
pub open spec fn name_set(names: Seq<String>) -> Set<Seq<char>> {
    Set::new(|n: Seq<char>| text::views(names).contains(n))
}

/// Sorts the names that a dependency leads to: those of local dependencies are to be kept, the
/// others are asked of the enclosing suite.
fn visit(
    deps: &Vec<RegisteredDependency>,
    names: &Vec<String>,
    keep: &mut Vec<String>,
    parent: &mut Vec<String>,
)
    requires
        text::views(old(keep)@).no_duplicates(),
        text::views(old(parent)@).no_duplicates(),
    ensures
        text::views(final(keep)@).no_duplicates(),
        text::views(final(parent)@).no_duplicates(),
        final(keep)@.len() >= old(keep)@.len(),
        forall|j: int|
            0 <= j < old(keep)@.len() ==> #[trigger] text::views(final(keep)@)[j] == text::views(
                old(keep)@,
            )[j],
        forall|n: Seq<char>|
            #[trigger] text::views(final(keep)@).contains(n) <==> text::views(
                old(keep)@,
            ).contains(n) || (text::views(names@).contains(n) && is_local(
                internal::dependency_views(deps@),
                n,
            )),
        forall|n: Seq<char>|
            #[trigger] text::views(final(parent)@).contains(n) <==> text::views(
                old(parent)@,
            ).contains(n) || (text::views(names@).contains(n) && !is_local(
                internal::dependency_views(deps@),
                n,
            )),
{
    let ghost views = internal::dependency_views(deps@);
    let ghost all = text::views(names@);
    let ghost k0 = text::views(keep@);
    let ghost p0 = text::views(parent@);
    let mut i: usize = 0;
    while i < names.len()
        invariant
            i <= names.len(),
            all == text::views(names@),
            views == internal::dependency_views(deps@),
            text::views(keep@).no_duplicates(),
            text::views(parent@).no_duplicates(),
            text::views(keep@).len() >= k0.len(),
            k0.len() == old(keep)@.len(),
            forall|j: int| 0 <= j < k0.len() ==> #[trigger] text::views(keep@)[j] == k0[j],
            forall|n: Seq<char>|
                #[trigger] text::views(keep@).contains(n) <==> k0.contains(n) || (all.take(
                    i as int,
                ).contains(n) && is_local(views, n)),
            forall|n: Seq<char>|
                #[trigger] text::views(parent@).contains(n) <==> p0.contains(n) || (all.take(
                    i as int,
                ).contains(n) && !is_local(views, n)),
        decreases names.len() - i,
    {
        assert(all[i as int] == names@[i as int]@);
        if find_named(deps, names[i].as_str()).is_some() {
            add_name(keep, &names[i]);
        } else {
            add_name(parent, &names[i]);
        }
        assert(all.take(i + 1) =~= all.take(i as int).push(all[i as int]));
        assert forall|n: Seq<char>| #[trigger] all.take(i + 1).contains(n) <==> all.take(
            i as int,
        ).contains(n) || n == all[i as int] by {
            if all.take(i as int).contains(n) {
                let k = all.take(i as int).index_of(n);
                assert(all.take(i + 1)[k] == n);
            }
            assert(all.take(i + 1)[i as int] == all[i as int]);
        }
        i = i + 1;
    }
    assert(all.take(i as int) =~= all);
}

proof fn lemma_local_names(deps: Seq<DependencyModel>, names: Seq<Seq<char>>)
    requires
        deps.len() <= usize::MAX,
        names.no_duplicates(),
        forall|i: int| 0 <= i < names.len() ==> is_local(deps, #[trigger] names[i]),
    ensures
        names.len() <= deps.len(),
{
    let places = Seq::new(names.len(), |i: int| order::first_named(deps, names[i]) as usize);
    assert forall|i: int| 0 <= i < places.len() implies #[trigger] places[i] < deps.len() by {
        order::lemma_first_named(deps, names[i]);
    }
    assert forall|i: int, j: int| 0 <= i < places.len() && 0 <= j < places.len() && i
        != j implies places[i] != places[j] by {
        order::lemma_first_named(deps, names[i]);
        order::lemma_first_named(deps, names[j]);
    }
    order::lemma_distinct_below(places, deps.len());
}

/// A local dependency that a test asks for directly is kept.
pub proof fn asked_dependency_is_kept(deps: Seq<DependencyModel>, direct: Set<Seq<char>>, name: Seq<char>)
    requires
        direct.contains(name),
        is_local(deps, name),
    ensures
        is_kept(deps, direct, name),
{
    let chain = seq![name];
    assert(is_chain(deps, direct, chain));
    assert(chain.last() == name);
}

/// What a kept dependency uses or has as a companion is kept, or is asked of the enclosing suite
/// if no dependency here has the name.
pub proof fn kept_dependency_keeps_what_it_leads_to(
    deps: Seq<DependencyModel>,
    direct: Set<Seq<char>>,
    a: Seq<char>,
    b: Seq<char>,
)
    requires
        is_kept(deps, direct, a),
        leads_to(deps, a, b),
    ensures
        is_local(deps, b) ==> is_kept(deps, direct, b),
        !is_local(deps, b) ==> is_asked_of_parent(deps, direct, b),
{
    if !is_local(deps, b) {
        return;
    }
    let chain = choose|chain: Seq<Seq<char>>|
        #[trigger] is_chain(deps, direct, chain) && chain.last() == a;
    let longer = chain.push(b);
    assert forall|i: int| 0 <= i < longer.len() implies is_local(deps, #[trigger] longer[i]) by {
        if i < chain.len() {
            assert(longer[i] == chain[i]);
        }
    }
    assert forall|i: int| 0 < i < longer.len() implies leads_to(
        deps,
        longer[i - 1],
        #[trigger] longer[i],
    ) by {
        if i < chain.len() {
            assert(longer[i] == chain[i]);
            assert(longer[i - 1] == chain[i - 1]);
        }
    }
    assert(is_chain(deps, direct, longer));
    assert(longer.last() == b);
}

/// Companions stay together: of two dependencies one of which names the other as a companion, both
/// are kept or neither is.
pub proof fn companions_are_kept_together(
    deps: Seq<DependencyModel>,
    direct: Set<Seq<char>>,
    a: Seq<char>,
    b: Seq<char>,
)
    requires
        is_local(deps, b),
        names_companion(deps, a, b),
    ensures
        is_kept(deps, direct, a) <==> is_kept(deps, direct, b),
{
    if is_kept(deps, direct, a) {
        assert(leads_to(deps, a, b));
        kept_dependency_keeps_what_it_leads_to(deps, direct, a, b);
    }
    if is_kept(deps, direct, b) {
        assert(leads_to(deps, b, a));
        kept_dependency_keeps_what_it_leads_to(deps, direct, b, a);
    }
}

/// The names of the dependencies that name this one as a companion.
fn companions_of(deps: &Vec<RegisteredDependency>, name: &String) -> (r: Vec<String>)
    ensures
        forall|n: Seq<char>|
            #[trigger] text::views(r@).contains(n) <==> names_companion(
                internal::dependency_views(deps@),
                n,
                name@,
            ),
{
    let ghost views = internal::dependency_views(deps@);
    let mut r: Vec<String> = Vec::new();
    let mut i: usize = 0;
    proof {
        assert(text::views(r@) =~= Seq::empty());
        assert forall|n: Seq<char>| 0 <= #[trigger] order::first_named(views, n) by {
            order::lemma_first_named(views, n);
        }
    }
    while i < deps.len()
        invariant
            i <= deps.len(),
            views == internal::dependency_views(deps@),
            forall|n: Seq<char>|
                #[trigger] text::views(r@).contains(n) <==> names_companion(views, n, name@)
                    && order::first_named(views, n) < i,
        decreases deps.len() - i,
    {
        let ghost before = text::views(r@);
        assert(views[i as int] == deps@[i as int]@);
        let is_first = match find_named(deps, deps[i].name.as_str()) {
            Some(at) => at == i,
            None => false,
        };
        let ghost own = views[i as int].name;
        let companion = is_first && contains_string(&deps[i].companions, name.as_str());
        proof {
            order::lemma_first_named(views, own);
        }
        if companion {
            r.push(deps[i].name.clone());
            assert(text::views(r@) =~= before.push(own));
        }
        assert forall|n: Seq<char>| #[trigger] text::views(r@).contains(n) <==> names_companion(
            views,
            n,
            name@,
        ) && order::first_named(views, n) < i + 1 by {
            order::lemma_first_named(views, n);
            if companion {
                let now = text::views(r@);
                assert(now[before.len() as int] == own);
                if before.contains(n) {
                    let k = before.index_of(n);
                    assert(now[k] == n);
                }
            }
        }
        i = i + 1;
    }
    assert forall|n: Seq<char>| #[trigger] text::views(r@).contains(n) <==> names_companion(
        views,
        n,
        name@,
    ) by {
        order::lemma_first_named(views, n);
    }
    r
}

/// A set of names that holds what is asked for directly and what its members lead to holds every
/// name that is kept.
proof fn lemma_kept_inside(
    deps: Seq<DependencyModel>,
    direct: Set<Seq<char>>,
    inside: Seq<Seq<char>>,
    chain: Seq<Seq<char>>,
    i: int,
)
    requires
        is_chain(deps, direct, chain),
        0 <= i < chain.len(),
        forall|n: Seq<char>| direct.contains(n) && is_local(deps, n) ==> inside.contains(n),
        forall|a: Seq<char>, b: Seq<char>|
            inside.contains(a) && #[trigger] leads_to(deps, a, b) && is_local(deps, b)
                ==> inside.contains(b),
    ensures
        inside.contains(chain[i]),
    decreases i,
{
    assert(is_local(deps, chain[i]));
    if i > 0 {
        lemma_kept_inside(deps, direct, inside, chain, i - 1);
        assert(leads_to(deps, chain[i - 1], chain[i]));
    }
}

/// What is asked for directly, followed through the dependencies: the names that are kept, and
/// the names that are asked of the enclosing suite.
fn close_over(deps: &Vec<RegisteredDependency>, direct: &Vec<String>) -> (r: (
    Vec<String>,
    Vec<String>,
))
    ensures
        forall|n: Seq<char>|
            #[trigger] text::views(r.0@).contains(n) <==> is_kept(
                internal::dependency_views(deps@),
                name_set(direct@),
                n,
            ),
        forall|n: Seq<char>|
            #[trigger] text::views(r.1@).contains(n) <==> is_asked_of_parent(
                internal::dependency_views(deps@),
                name_set(direct@),
                n,
            ),
{
    let ghost views = internal::dependency_views(deps@);
    let ghost asked = name_set(direct@);
    let mut keep: Vec<String> = Vec::new();
    let mut parent: Vec<String> = Vec::new();
    visit(deps, direct, &mut keep, &mut parent);
    proof {
        assert forall|n: Seq<char>| #[trigger] text::views(keep@).contains(n) implies is_kept(
            views,
            asked,
            n,
        ) by {
            asked_dependency_is_kept(views, asked, n);
        }
    }
    let mut next: usize = 0;
    while next < keep.len()
        invariant
            next <= keep.len(),
            views == internal::dependency_views(deps@),
            asked == name_set(direct@),
            text::views(keep@).no_duplicates(),
            text::views(parent@).no_duplicates(),
            forall|n: Seq<char>|
                #[trigger] text::views(keep@).contains(n) ==> is_kept(views, asked, n)
                    && is_local(views, n),
            forall|n: Seq<char>|
                asked.contains(n) && is_local(views, n) ==> text::views(keep@).contains(n),
            forall|n: Seq<char>|
                #[trigger] text::views(parent@).contains(n) ==> is_asked_of_parent(
                    views,
                    asked,
                    n,
                ),
            forall|n: Seq<char>|
                asked.contains(n) && !is_local(views, n) ==> text::views(parent@).contains(n),
            forall|j: int, b: Seq<char>|
                0 <= j < next && #[trigger] leads_to(views, text::views(keep@)[j], b) ==> (
                if is_local(views, b) {
                    text::views(keep@).contains(b)
                } else {
                    text::views(parent@).contains(b)
                }),
        decreases deps.len() - next,
    {
        let ghost k0 = text::views(keep@);
        let ghost p0 = text::views(parent@);
        let ghost a = k0[next as int];
        proof {
            assert(k0.contains(a));
            assert forall|i: int| 0 <= i < k0.len() implies is_local(views, #[trigger] k0[i]) by {
                assert(k0.contains(k0[i]));
            }
            lemma_local_names(views, k0);
        }
        let name = keep[next].clone();
        match find_named(deps, name.as_str()) {
            Some(at) => {
                assert(views[at as int] == deps@[at as int]@);
                visit(deps, &deps[at].dependencies, &mut keep, &mut parent);
                let ghost k1 = text::views(keep@);
                visit(deps, &deps[at].companions, &mut keep, &mut parent);
                let ghost k2 = text::views(keep@);
                let ghost p2 = text::views(parent@);
                let others = companions_of(deps, &name);
                visit(deps, &others, &mut keep, &mut parent);
                proof {
                    let k3 = text::views(keep@);
                    assert forall|n: Seq<char>| #[trigger] text::views(keep@).contains(
                        n,
                    ) implies is_kept(views, asked, n) && is_local(views, n) by {
                        if !k0.contains(n) {
                            assert(k1.contains(n) || !k1.contains(n));
                            assert(k2.contains(n) || text::views(others@).contains(n));
                            assert(leads_to(views, a, n));
                            kept_dependency_keeps_what_it_leads_to(views, asked, a, n);
                        }
                    }
                    assert forall|n: Seq<char>| #[trigger] text::views(parent@).contains(
                        n,
                    ) implies is_asked_of_parent(views, asked, n) by {
                        if !p0.contains(n) {
                            assert(p2.contains(n) || text::views(others@).contains(n));
                            assert(leads_to(views, a, n));
                        }
                    }
                    assert forall|j: int, b: Seq<char>| 0 <= j < next + 1 && #[trigger] leads_to(
                        views,
                        text::views(keep@)[j],
                        b,
                    ) implies (if is_local(views, b) {
                        text::views(keep@).contains(b)
                    } else {
                        text::views(parent@).contains(b)
                    }) by {
                        assert(k1[j] == k0[j]);
                        assert(k2[j] == k1[j]);
                        assert(k3[j] == k2[j]);
                        if j < next {
                            assert(leads_to(views, k0[j], b));
                            if is_local(views, b) {
                                assert(k0.contains(b));
                                assert(k1.contains(b));
                                assert(k2.contains(b));
                            } else {
                                assert(p0.contains(b));
                                assert(p2.contains(b));
                            }
                        } else if names_companion(views, b, a) {
                            assert(text::views(others@).contains(b));
                        } else if is_local(views, b) {
                            assert(views[at as int].dependencies.contains(b) ==> k1.contains(b));
                            assert(k2.contains(b));
                        } else {
                            assert(p2.contains(b));
                        }
                    }
                }
            },
            None => {},
        }
        next = next + 1;
    }
    proof {
        let all = text::views(keep@);
        assert forall|x: Seq<char>, b: Seq<char>| all.contains(x) && #[trigger] leads_to(
            views,
            x,
            b,
        ) && is_local(views, b) implies all.contains(b) by {
            let j = all.index_of(x);
            assert(leads_to(views, all[j], b));
        }
        assert forall|n: Seq<char>| is_kept(views, asked, n) implies #[trigger] text::views(
            keep@,
        ).contains(n) by {
            let chain = choose|chain: Seq<Seq<char>>|
                #[trigger] is_chain(views, asked, chain) && chain.last() == n;
            lemma_kept_inside(views, asked, all, chain, chain.len() - 1);
        }
        assert forall|n: Seq<char>| is_asked_of_parent(
            views,
            asked,
            n,
        ) implies #[trigger] text::views(parent@).contains(n) by {
            if !asked.contains(n) {
                let k = choose|k: Seq<char>|
                    is_kept(views, asked, k) && #[trigger] leads_to(views, k, n);
                assert(all.contains(k));
                let j = all.index_of(k);
                assert(leads_to(views, all[j], n));
            }
        }
    }
    (keep, parent)
}

/// The dependencies whose names are among `keep`, in order.
fn retain_named(deps: &Vec<RegisteredDependency>, keep: &Vec<String>) -> (r: Vec<
    RegisteredDependency,
>)
    ensures
        internal::dependency_views(r@) == internal::dependency_views(deps@).filter(
            |d: DependencyModel| text::views(keep@).contains(d.name),
        ),
{
    let ghost all = internal::dependency_views(deps@);
    let ghost wanted = |d: DependencyModel| text::views(keep@).contains(d.name);
    let mut r: Vec<RegisteredDependency> = Vec::new();
    let mut i: usize = 0;
    proof {
        reveal(Seq::filter);
        assert(internal::dependency_views(r@) =~= all.take(0).filter(wanted));
    }
    while i < deps.len()
        invariant
            i <= deps.len(),
            all == internal::dependency_views(deps@),
            wanted == (|d: DependencyModel| text::views(keep@).contains(d.name)),
            internal::dependency_views(r@) == all.take(i as int).filter(wanted),
        decreases deps.len() - i,
    {
        let ghost before = r@;
        assert(all[i as int] == deps@[i as int]@);
        assert(all.take(i + 1).drop_last() =~= all.take(i as int));
        proof {
            reveal(Seq::filter);
        }
        if contains_string(keep, deps[i].name.as_str()) {
            r.push(deps[i].clone());
            assert(internal::dependency_views(r@) =~= internal::dependency_views(before).push(
                all[i as int],
            ));
        }
        i = i + 1;
    }
    assert(all.take(i as int) =~= all);
    r
}

/// What the tests ask for, or `None` if that is not known of one of them.
fn asked_by_tests(tests: &Vec<RegisteredTest>) -> (r: Option<Vec<String>>)
    ensures
        r is None <==> exists|i: int|
            0 <= i < tests.len() && (
            #[trigger] internal::test_views(tests@)[i]).dependencies is None,
        r matches Some(names) ==> text::views(names@).no_duplicates() && forall|n: Seq<char>|
            #[trigger] text::views(names@).contains(n) <==> exists|i: int|
                0 <= i < tests.len() && (
                #[trigger] internal::test_views(tests@)[i]).dependencies->0.contains(n),
{
    let ghost all = internal::test_views(tests@);
    let mut names: Vec<String> = Vec::new();
    let mut i: usize = 0;
    while i < tests.len()
        invariant
            i <= tests.len(),
            all == internal::test_views(tests@),
            text::views(names@).no_duplicates(),
            forall|k: int| 0 <= k < i ==> (#[trigger] all[k]).dependencies is Some,
            forall|n: Seq<char>|
                #[trigger] text::views(names@).contains(n) <==> exists|k: int|
                    0 <= k < i && (#[trigger] all[k]).dependencies->0.contains(n),
        decreases tests.len() - i,
    {
        assert(all[i as int] == tests@[i as int]@);
        match &tests[i].dependencies {
            None => {
                assert(all[i as int].dependencies is None);
                return None;
            },
            Some(deps) => {
                let ghost before = text::views(names@);
                add_names(&mut names, deps);
                assert forall|n: Seq<char>| #[trigger] text::views(names@).contains(
                    n,
                ) <==> exists|k: int|
                    0 <= k < i + 1 && (#[trigger] all[k]).dependencies->0.contains(n) by {
                    if before.contains(n) {
                        let k = choose|k: int|
                            0 <= k < i && (#[trigger] all[k]).dependencies->0.contains(n);
                        assert(all[k].dependencies->0.contains(n));
                    }
                    if text::views(deps@).contains(n) {
                        assert(all[i as int].dependencies->0.contains(n));
                    }
                }
            },
        }
        i = i + 1;
    }
    Some(names)
}

impl<V> SuiteNode<V> {
    /// Drops the dependencies that no test of this suite or of those below it needs, and returns
    /// the names that have to come from enclosing suites. Where it is not known what a test
    /// needs, nothing is dropped here or in the enclosing suites, and nothing is returned.
    pub fn prune_unused_deps(&mut self) -> (r: Option<Vec<String>>)
        ensures
            old(self).pruned_to(*final(self)),
            r is Some <==> old(self).needs() is Some,
            r matches Some(names) ==> forall|n: Seq<char>|
                #[trigger] text::views(names@).contains(n) <==> old(self).needs()->0.contains(n),
        decreases *old(self),
    {
        let ghost before = *self;
        let ghost tests = internal::test_views(self.tests@);
        let mut needed = asked_by_tests(&self.tests);
        let mut i: usize = 0;
        while i < self.inner.len()
            invariant
                i <= self.inner.len(),
                before == *old(self),
                before.same_but_dependencies(*self),
                self.dependencies == before.dependencies,
                tests == internal::test_views(before.tests@),
                forall|j: int|
                    0 <= j < i ==> (#[trigger] before.inner@[j]).pruned_to(self.inner@[j]),
                forall|j: int| i <= j < before.inner@.len() ==> self.inner@[j] == before.inner@[j],
                needed is None <==> (exists|k: int|
                    0 <= k < tests.len() && (#[trigger] tests[k]).dependencies is None) || (exists|
                    j: int,
                |
                    0 <= j < i && (#[trigger] before.inner@[j]).needs() is None),
                needed matches Some(names) ==> text::views(names@).no_duplicates() && forall|
                    n: Seq<char>,
                |
                    #[trigger] text::views(names@).contains(n) <==> (exists|k: int|
                        0 <= k < tests.len() && (
                        #[trigger] tests[k]).dependencies->0.contains(n)) || (exists|j: int|
                        0 <= j < i && (#[trigger] before.inner@[j]).needs()->0.contains(n)),
            decreases self.inner.len() - i,
        {
            let ghost child = before.inner@[i as int];
            assert(self.inner@[i as int] == child);
            let ghost at_start = self.inner@;
            let child_needs = self.inner[i].prune_unused_deps();
            assert(self.inner@ =~= at_start.update(i as int, self.inner@[i as int]));
            let ghost so_far = needed;
            needed = match (needed, child_needs) {
                (Some(mut names), Some(more)) => {
                    let ghost had = text::views(names@);
                    add_names(&mut names, &more);
                    proof {
                        assert forall|n: Seq<char>| #[trigger] text::views(names@).contains(n) <==> (
                        exists|k: int|
                            0 <= k < tests.len() && (
                            #[trigger] tests[k]).dependencies->0.contains(n)) || (exists|j: int|
                            0 <= j < i + 1 && (#[trigger] before.inner@[j]).needs()->0.contains(
                                n,
                            )) by {
                            if text::views(more@).contains(n) {
                                assert(before.inner@[i as int].needs()->0.contains(n));
                            }
                        }
                    }
                    Some(names)
                },
                _ => {
                    assert(so_far is None || child.needs() is None);
                    None
                },
            };
            i = i + 1;
        }
        match needed {
            None => {
                assert(before.asked_for() is None);
                None
            },
            Some(names) => {
                let (keep, parent) = close_over(&self.dependencies, &names);
                proof {
                    assert(before.asked_for() is Some);
                    assert(before.asked_for()->0 =~= name_set(names@));
                    let deps = internal::dependency_views(before.dependencies@);
                    let direct = before.asked_for()->0;
                    let a = |d: DependencyModel| text::views(keep@).contains(d.name);
                    let b = |d: DependencyModel| is_kept(deps, direct, d.name);
                    assert(a =~= b);
                }
                self.dependencies = retain_named(&self.dependencies, &keep);
                Some(parent)
            },
        }
    }
}

impl<V> SuiteNode<V> {
    /// Pruning changes nothing but dependencies: the plan keeps its tests and its order.
    pub proof fn pruning_keeps_tests(self, other: SuiteNode<V>)
        requires
            self.wf(),
            self.pruned_to(other),
        ensures
            other.wf(),
            other.total() == self.total(),
            other.tests_below() == self.tests_below(),
            self.fresh() ==> other.fresh(),
            self.locks_shared() ==> other.locks_shared(),
        decreases self,
    {
        assert forall|i: int| 0 <= i < self.inner@.len() implies {
            let (a, b) = (#[trigger] self.inner@[i], other.inner@[i]);
            &&& b.wf()
            &&& b.total() == a.total()
            &&& b.tests_below() == a.tests_below()
            &&& b.crate_and_module == a.crate_and_module
            &&& a.fresh() ==> b.fresh()
            &&& a.locks_shared() ==> b.locks_shared()
        } by {
            assert(self.inner@[i].wf());
            self.inner@[i].pruning_keeps_tests(other.inner@[i]);
        }
        Self::lemma_pointwise(self.inner@, other.inner@);
        assert forall|i: int| 0 <= i < other.inner@.len() implies (#[trigger] other.inner@[i]).wf()
            && path::directly_below(
            other.crate_and_module@,
            other.inner@[i].crate_and_module@,
        ) && (self.inner@[i].fresh() ==> other.inner@[i].fresh()) by {
            assert(self.inner@[i].wf());
        }
        assert forall|i: int, j: int| 0 <= i < j < other.inner@.len() implies (
        #[trigger] other.inner@[i]).crate_and_module@ != (
        #[trigger] other.inner@[j]).crate_and_module@ by {
            assert(self.inner@[i].crate_and_module@ != self.inner@[j].crate_and_module@);
        }
        if self.locks_shared() {
            assert forall|i: int| 0 <= i < other.inner@.len() implies {
                let child = #[trigger] other.inner@[i];
                &&& child.locks_shared()
                &&& other.is_sequential ==> child.is_sequential && child.sequential_lock
                    == other.sequential_lock
            } by {
                assert(self.inner@[i].locks_shared());
                assert(self.inner@[i].pruned_to(other.inner@[i]));
            }
        }
        assert forall|i: int| 0 <= i < other.dependencies@.len() implies (
        #[trigger] other.dependencies@[i])@.crate_and_module() == other.crate_and_module@ by {
            let deps = internal::dependency_views(self.dependencies@);
            let kept = self.kept_dependencies();
            assert(kept[i] == other.dependencies@[i]@);
            assert(kept.contains(kept[i]));
            if let Some(direct) = self.asked_for() {
                let p = |d: DependencyModel| is_kept(deps, direct, d.name);
                deps.lemma_filter_contains_rev(p, kept[i]);
            }
            assert(deps.contains(kept[i]));
            let k = deps.index_of(kept[i]);
            assert(self.dependencies@[k]@ == kept[i]);
        }
    }

    /// Pruning never moves a suite: the suite at a path is the pruned form of the one that was
    /// there before.
    pub proof fn pruning_keeps_suites(self, other: SuiteNode<V>, path: Seq<char>)
        requires
            self.pruned_to(other),
        ensures
            self.node_at(path) is Some <==> other.node_at(path) is Some,
            self.node_at(path) matches Some(node) ==> node.pruned_to(other.node_at(path)->0),
        decreases self,
    {
        if self.crate_and_module@ != path {
            Self::lemma_route(self.inner@, path);
            Self::lemma_route(other.inner@, path);
            let r = Self::route(self.inner@, path);
            assert forall|j: int| 0 <= j < self.inner@.len() implies (
            #[trigger] other.inner@[j]).crate_and_module == self.inner@[j].crate_and_module by {
                assert(self.inner@[j].pruned_to(other.inner@[j]));
            }
            Self::lemma_route_is(other.inner@, path, r);
            if r < self.inner@.len() {
                assert(self.inner@[r].pruned_to(other.inner@[r]));
                self.inner@[r].pruning_keeps_suites(other.inner@[r], path);
            }
        }
    }
}

} // verus!
