//! The order in which the dependencies of one suite are constructed.
use crate::internal;
use crate::internal::RegisteredDependency;
use crate::text::str_eq;
use topological_sort::TopologicalSort;
use vstd::prelude::*;

verus! {

/// The sorter of the `topological-sort` crate.
#[verifier::external_type_specification]
#[verifier::external_body]
#[verifier::reject_recursive_types(T)]
pub struct ExTopologicalSort<T>(TopologicalSort<T>);

/// The items that a sorter still holds.
pub uninterp spec fn sorter_items(ts: TopologicalSort<usize>) -> Set<usize>;

/// The links that a sorter still holds: `(a, b)` where `a` has to come out before `b`.
pub uninterp spec fn sorter_links(ts: TopologicalSort<usize>) -> Set<(usize, usize)>;

/// The items that no remaining link leads to.
pub open spec fn ready_items(items: Set<usize>, links: Set<(usize, usize)>) -> Set<usize> {
    items.filter(|b: usize| forall|a: usize| !links.contains((a, b)))
}

/// `TopologicalSort::new`: a sorter without items and links.
#[verifier::external_body]
fn sorter_new() -> (ts: TopologicalSort<usize>)
    ensures
        sorter_items(ts) == Set::<usize>::empty(),
        sorter_links(ts) == Set::<(usize, usize)>::empty(),
{
    TopologicalSort::new()
}

/// `TopologicalSort::add_dependency`: adds the link from `before` to `after`, and both items
/// where they are not there yet.
#[verifier::external_body]
fn sorter_add_dependency(ts: &mut TopologicalSort<usize>, before: usize, after: usize)
    ensures
        sorter_items(*final(ts)) == sorter_items(*old(ts)).insert(before).insert(after),
        sorter_links(*final(ts)) == sorter_links(*old(ts)).insert((before, after)),
{
    ts.add_dependency(before, after);
}

/// `TopologicalSort::insert`: adds the item where it is not there yet, and no link.
#[verifier::external_body]
fn sorter_insert(ts: &mut TopologicalSort<usize>, item: usize)
    ensures
        sorter_items(*final(ts)) == sorter_items(*old(ts)).insert(item),
        sorter_links(*final(ts)) == sorter_links(*old(ts)),
{
    ts.insert(item);
}

/// `TopologicalSort::pop_all`: takes out every item that no remaining link leads to, together
/// with the links that start there, and returns these items, each once and in any order.
#[verifier::external_body]
#[allow(deprecated)]
fn sorter_pop_all(ts: &mut TopologicalSort<usize>) -> (chunk: Vec<usize>)
    ensures
        chunk@.no_duplicates(),
        chunk@.to_set() == ready_items(sorter_items(*old(ts)), sorter_links(*old(ts))),
        sorter_items(*final(ts)) == sorter_items(*old(ts)).difference(chunk@.to_set()),
        sorter_links(*final(ts)) == sorter_links(*old(ts)).filter(
            |l: (usize, usize)| !chunk@.contains(l.0),
        ),
{
    ts.pop_all()
}

/// The position of the first dependency of this name, or the number of dependencies if none has
/// it.
pub open spec fn first_named(deps: Seq<internal::DependencyModel>, name: Seq<char>) -> int
    decreases deps.len(),
{
    if deps.len() == 0 || deps[0].name == name {
        0
    } else {
        1 + first_named(deps.skip(1), name)
    }
}

/// `i` is the position of a dependency, and none before it has its name.
pub open spec fn is_first(deps: Seq<internal::DependencyModel>, i: int) -> bool {
    0 <= i < deps.len() && first_named(deps, deps[i].name) == i
}

/// The constructor of a dependency of `b`'s name uses the one at `a`.
pub open spec fn uses(deps: Seq<internal::DependencyModel>, b: int, a: int) -> bool {
    exists|i: int, d: int| #[trigger] uses_at(deps, i, d, b, a)
}

/// Dependency `i` counts as the one at `b`, and the `d`-th one it uses is the one at `a`.
pub open spec fn uses_at(deps: Seq<internal::DependencyModel>, i: int, d: int, b: int, a: int) -> bool {
    &&& 0 <= i < deps.len()
    &&& 0 <= d < deps[i].dependencies.len()
    &&& first_named(deps, deps[i].name) == b
    &&& first_named(deps, deps[i].dependencies[d]) == a
    &&& a < deps.len()
}

/// `order` lists positions of dependencies, one per name and each once; whatever a constructor
/// uses comes before it; and a dependency is left out only because it uses one that is left out.
pub open spec fn is_construction_order(deps: Seq<internal::DependencyModel>, order: Seq<usize>) -> bool {
    &&& order.no_duplicates()
    &&& forall|k: int| 0 <= k < order.len() ==> is_first(deps, #[trigger] order[k] as int)
    &&& forall|k: int, a: int|
        0 <= k < order.len() && #[trigger] uses(deps, order[k] as int, a)
            ==> order.take(k).contains(a as usize)
    &&& forall|c: int|
        is_first(deps, c) && !order.contains(c as usize) ==> #[trigger] is_blocked(deps, order, c)
}

/// The dependency at `c` uses one that is not in `order`.
pub open spec fn is_blocked(deps: Seq<internal::DependencyModel>, order: Seq<usize>, c: int) -> bool {
    exists|a: int| #[trigger] uses(deps, c, a) && !order.contains(a as usize)
}

/// The dependency at `i` is constructed: it is the first of its name, and it does not lead into a
/// circle.
pub open spec fn is_ordered(deps: Seq<internal::DependencyModel>, i: int) -> bool {
    exists|order: Seq<usize>| #[trigger]
        is_construction_order(deps, order) && is_first(deps, i) && order.contains(i as usize)
}

proof fn lemma_orders_agree(
    deps: Seq<internal::DependencyModel>,
    a: Seq<usize>,
    b: Seq<usize>,
    k: int,
)
    requires
        is_construction_order(deps, a),
        is_construction_order(deps, b),
        0 <= k < a.len(),
    ensures
        b.contains(a[k]),
    decreases k,
{
    let c = a[k] as int;
    assert(is_first(deps, a[k] as int));
    if !b.contains(a[k]) {
        assert(is_blocked(deps, b, c));
        let used = choose|used: int| #[trigger]
            uses(deps, c, used) && !b.contains(used as usize);
        assert(a.take(k).contains(used as usize));
        let m = a.take(k).index_of(used as usize);
        assert(a[m] == used as usize);
        lemma_orders_agree(deps, a, b, m);
    }
}

/// Every order has the same dependencies: those that are constructed.
pub proof fn orders_hold_the_same(deps: Seq<internal::DependencyModel>, order: Seq<usize>, i: int)
    requires
        is_construction_order(deps, order),
        is_first(deps, i),
    ensures
        order.contains(i as usize) <==> is_ordered(deps, i),
{
    if is_ordered(deps, i) {
        let other = choose|other: Seq<usize>| #[trigger]
            is_construction_order(deps, other) && is_first(deps, i) && other.contains(i as usize);
        let k = other.index_of(i as usize);
        lemma_orders_agree(deps, other, order, k);
    }
}

/// The first dependency of a name has it, and none before it does.
pub proof fn lemma_first_named(deps: Seq<internal::DependencyModel>, name: Seq<char>)
    ensures
        0 <= first_named(deps, name) <= deps.len(),
        first_named(deps, name) < deps.len() ==> deps[first_named(deps, name)].name == name,
        forall|j: int| 0 <= j < first_named(deps, name) ==> (#[trigger] deps[j]).name != name,
        first_named(deps, name) < deps.len() ==> is_first(deps, first_named(deps, name)),
    decreases deps.len(),
{
    if deps.len() > 0 && deps[0].name != name {
        lemma_first_named(deps.skip(1), name);
        assert forall|j: int| 0 <= j < first_named(deps, name) implies (
        #[trigger] deps[j]).name != name by {
            if j > 0 {
                assert(deps.skip(1)[j - 1] == deps[j]);
            }
        }
    }
}

proof fn lemma_first_named_is(deps: Seq<internal::DependencyModel>, name: Seq<char>, i: int)
    requires
        0 <= i <= deps.len(),
        i < deps.len() ==> deps[i].name == name,
        forall|j: int| 0 <= j < i ==> (#[trigger] deps[j]).name != name,
    ensures
        first_named(deps, name) == i,
{
    lemma_first_named(deps, name);
}

/// The position of the first dependency of this name.
pub fn find_named(deps: &Vec<RegisteredDependency>, name: &str) -> (r: Option<usize>)
    ensures
        match r {
            Some(i) => i < deps.len() && i == first_named(internal::dependency_views(deps@), name@),
            None => first_named(internal::dependency_views(deps@), name@) == deps.len(),
        },
{
    let ghost views = internal::dependency_views(deps@);
    let mut i: usize = 0;
    while i < deps.len()
        invariant
            i <= deps.len(),
            views == internal::dependency_views(deps@),
            forall|j: int| 0 <= j < i ==> (#[trigger] views[j]).name != name@,
        decreases deps.len() - i,
    {
        assert(views[i as int] == deps@[i as int]@);
        if str_eq(deps[i].name.as_str(), name) {
            proof {
                lemma_first_named_is(views, name@, i as int);
            }
            return Some(i);
        }
        i = i + 1;
    }
    proof {
        lemma_first_named_is(views, name@, i as int);
    }
    None
}

/// The sorter holds nothing but dependencies and links between them, and all those that the
/// first `i` dependencies, and the first `d` names that the next one uses, bring in.
spec fn collected(
    deps: Seq<internal::DependencyModel>,
    items: Set<usize>,
    links: Set<(usize, usize)>,
    i: int,
    d: int,
) -> bool {
    &&& forall|c: usize| #[trigger] items.contains(c) ==> is_first(deps, c as int)
    &&& forall|x: int|
        0 <= x < i ==> items.contains(first_named(deps, (#[trigger] deps[x]).name) as usize)
    &&& forall|l: (usize, usize)|
        #[trigger] links.contains(l) ==> uses(deps, l.1 as int, l.0 as int)
    &&& forall|x: int, y: int, b: int, a: int|
        (x < i || (x == i && y < d)) && #[trigger] uses_at(deps, x, y, b, a) ==> links.contains(
            (a as usize, b as usize),
        )
}

/// Fills a sorter with the dependencies and the links between them.
fn collect_links(deps: &Vec<RegisteredDependency>) -> (ts: TopologicalSort<usize>)
    ensures
        forall|c: usize|
            #[trigger] sorter_items(ts).contains(c) <==> is_first(
                internal::dependency_views(deps@),
                c as int,
            ),
        forall|l: (usize, usize)|
            #[trigger] sorter_links(ts).contains(l) <==> uses(
                internal::dependency_views(deps@),
                l.1 as int,
                l.0 as int,
            ),
{
    let ghost views = internal::dependency_views(deps@);
    let mut ts = sorter_new();
    let mut i: usize = 0;
    while i < deps.len()
        invariant
            i <= deps.len(),
            views == internal::dependency_views(deps@),
            collected(views, sorter_items(ts), sorter_links(ts), i as int, 0),
        decreases deps.len() - i,
    {
        assert(views[i as int] == deps@[i as int]@);
        proof {
            lemma_first_named(views, views[i as int].name);
        }
        let at: usize = match find_named(deps, deps[i].name.as_str()) {
            Some(at) => at,
            None => i,
        };
        let mut added = false;
        let mut d: usize = 0;
        while d < deps[i].dependencies.len()
            invariant
                i < deps.len(),
                views == internal::dependency_views(deps@),
                views[i as int] == deps@[i as int]@,
                d <= deps@[i as int].dependencies.len(),
                at == first_named(views, views[i as int].name),
                is_first(views, at as int),
                added ==> sorter_items(ts).contains(at),
                collected(views, sorter_items(ts), sorter_links(ts), i as int, d as int),
            decreases deps@[i as int].dependencies.len() - d,
        {
            let ghost before_items = sorter_items(ts);
            let ghost before_links = sorter_links(ts);
            let ghost used = views[i as int].dependencies[d as int];
            assert(used == deps@[i as int].dependencies@[d as int]@);
            proof {
                lemma_first_named(views, used);
            }
            match find_named(deps, deps[i].dependencies[d].as_str()) {
                Some(before) => {
                    sorter_add_dependency(&mut ts, before, at);
                    added = true;
                    assert(uses_at(views, i as int, d as int, at as int, before as int));
                },
                None => {},
            }
            assert(collected(views, sorter_items(ts), sorter_links(ts), i as int, d + 1));
            d = d + 1;
        }
        if !added {
            sorter_insert(&mut ts, at);
        }
        assert(collected(views, sorter_items(ts), sorter_links(ts), i + 1, 0));
        i = i + 1;
    }
    proof {
        assert forall|c: usize| is_first(views, c as int) implies #[trigger] sorter_items(
            ts,
        ).contains(c) by {
            assert(sorter_items(ts).contains(
                first_named(views, views[c as int].name) as usize,
            ));
        }
        assert forall|l: (usize, usize)| uses(views, l.1 as int, l.0 as int) implies
            #[trigger] sorter_links(ts).contains(l) by {
            let (x, y) = choose|x: int, y: int|
                #[trigger] uses_at(views, x, y, l.1 as int, l.0 as int);
            assert(sorter_links(ts).contains((l.0 as int as usize, l.1 as int as usize)));
        }
    }
    ts
}

/// Different numbers below `n` are at most `n` numbers.
pub proof fn lemma_distinct_below(s: Seq<usize>, n: nat)
    requires
        s.no_duplicates(),
        forall|i: int| 0 <= i < s.len() ==> #[trigger] s[i] < n,
    ensures
        s.len() <= n,
    decreases n,
{
    if n == 0 {
        if s.len() > 0 {
            assert(s[0] < n);
        }
    } else if exists|i: int| 0 <= i < s.len() && #[trigger] s[i] == n - 1 {
        let i = choose|i: int| 0 <= i < s.len() && #[trigger] s[i] == n - 1;
        let rest = s.remove(i);
        assert forall|k: int| 0 <= k < rest.len() implies #[trigger] rest[k] < n - 1 by {
            let j = if k < i {
                k
            } else {
                k + 1
            };
            assert(rest[k] == s[j]);
            assert(s[j] != s[i]);
        }
        assert forall|k: int, l: int| 0 <= k < rest.len() && 0 <= l < rest.len() && k
            != l implies rest[k] != rest[l] by {
            assert(rest[k] == s[if k < i {
                k
            } else {
                k + 1
            }]);
            assert(rest[l] == s[if l < i {
                l
            } else {
                l + 1
            }]);
        }
        lemma_distinct_below(rest, (n - 1) as nat);
    } else {
        lemma_distinct_below(s, (n - 1) as nat);
    }
}

/// The positions of the dependencies in an order in which they can be constructed. A name that
/// no dependency here has is expected to come from an enclosing suite.
pub fn sorted_dependencies(deps: &Vec<RegisteredDependency>) -> (order: Vec<usize>)
    ensures
        is_construction_order(internal::dependency_views(deps@), order@),
{
    let ghost views = internal::dependency_views(deps@);
    let mut ts = collect_links(deps);
    let mut order: Vec<usize> = Vec::new();
    loop
        invariant
            views == internal::dependency_views(deps@),
            order@.no_duplicates(),
            forall|k: int| 0 <= k < order.len() ==> is_first(views, #[trigger] order@[k] as int),
            forall|k: int, a: int|
                0 <= k < order.len() && #[trigger] uses(views, order@[k] as int, a)
                    ==> order@.take(k).contains(a as usize),
            forall|c: usize|
                #[trigger] sorter_items(ts).contains(c) <==> is_first(views, c as int)
                    && !order@.contains(c),
            forall|l: (usize, usize)|
                #[trigger] sorter_links(ts).contains(l) <==> uses(
                    views,
                    l.1 as int,
                    l.0 as int,
                ) && !order@.contains(l.0),
        ensures
            is_construction_order(views, order@),
        decreases deps.len() - order.len(),
    {
        let ghost items = sorter_items(ts);
        let ghost links = sorter_links(ts);
        let ghost before = order@;
        let mut chunk = sorter_pop_all(&mut ts);
        let ghost popped = chunk@;
        assert(forall|c: usize| popped.contains(c) <==> popped.to_set().contains(c));
        if chunk.is_empty() {
            assert forall|c: int| is_first(views, c) && !order@.contains(
                c as usize,
            ) implies #[trigger] is_blocked(views, order@, c) by {
                let cu = c as usize;
                assert(items.contains(cu));
                assert(!popped.to_set().contains(cu));
                assert(!ready_items(items, links).contains(cu));
                let a = choose|a: usize| links.contains((a, cu));
                assert(links.contains((a, cu)));
                assert(uses(views, c, a as int));
            }
            break;
        }
        order.append(&mut chunk);
        proof {
            assert(order@ == before + popped);
            assert forall|c: usize| order@.contains(c) <==> before.contains(c) || popped.contains(
                c,
            ) by {
                if before.contains(c) {
                    let i = before.index_of(c);
                    assert(order@[i] == c);
                }
                if popped.contains(c) {
                    let i = popped.index_of(c);
                    assert(order@[before.len() + i] == c);
                }
            }
            assert forall|k: int| 0 <= k < popped.len() implies items.contains(
                #[trigger] popped[k],
            ) && (forall|a: usize| !links.contains((a, popped[k]))) by {
                assert(popped.contains(popped[k]));
                assert(ready_items(items, links).contains(popped[k]));
            }
            assert forall|k: int| 0 <= k < order@.len() implies is_first(
                views,
                #[trigger] order@[k] as int,
            ) by {
                if k >= before.len() {
                    assert(items.contains(popped[k - before.len()]));
                }
            }
            assert forall|k: int, l: int| 0 <= k < order@.len() && 0 <= l < order@.len() && k
                != l implies order@[k] != order@[l] by {
                if k >= before.len() && l < before.len() {
                    assert(items.contains(popped[k - before.len()]));
                    assert(before.contains(before[l]));
                }
                if l >= before.len() && k < before.len() {
                    assert(items.contains(popped[l - before.len()]));
                    assert(before.contains(before[k]));
                }
            }
            assert forall|k: int, a: int| 0 <= k < order@.len() && #[trigger] uses(
                views,
                order@[k] as int,
                a,
            ) implies order@.take(k).contains(a as usize) by {
                lemma_uses_first(views, order@[k] as int, a);
                if k < before.len() {
                    assert(order@.take(k) =~= before.take(k));
                } else {
                    let c = popped[k - before.len()];
                    assert(!links.contains((a as usize, c)));
                    assert(before.contains(a as usize));
                    let i = before.index_of(a as usize);
                    assert(order@.take(k)[i] == a as usize);
                }
            }
            lemma_distinct_below(order@, deps@.len());
        }
    }
    order
}

proof fn lemma_uses_first(deps: Seq<internal::DependencyModel>, b: int, a: int)
    requires
        uses(deps, b, a),
    ensures
        is_first(deps, a),
        is_first(deps, b),
{
    let (x, y) = choose|x: int, y: int| #[trigger] uses_at(deps, x, y, b, a);
    lemma_first_named(deps, deps[x].name);
    lemma_first_named(deps, deps[x].dependencies[y]);
}

/// Where no dependency uses itself in a circle, the order leaves none out.
pub proof fn acyclic_order_is_complete(
    deps: Seq<internal::DependencyModel>,
    order: Seq<usize>,
    rank: spec_fn(int) -> nat,
    c: int,
)
    requires
        deps.len() <= usize::MAX,
        is_construction_order(deps, order),
        forall|b: int, a: int| #[trigger] uses(deps, b, a) ==> rank(a) < rank(b),
        is_first(deps, c),
    ensures
        order.contains(c as usize),
    decreases rank(c),
{
    if !order.contains(c as usize) {
        assert(is_blocked(deps, order, c));
        let a = choose|a: int| #[trigger] uses(deps, c, a) && !order.contains(a as usize);
        lemma_uses_first(deps, c, a);
        acyclic_order_is_complete(deps, order, rank, a);
    }
}

} // verus!
