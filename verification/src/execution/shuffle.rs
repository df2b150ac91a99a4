//! Running the tests in a random order.
use crate::internal;
use crate::internal::{RegisteredTest, TestModel};
use rand::prelude::{SliceRandom, StdRng};
use rand::SeedableRng;
use vstd::prelude::*;

verus! {

/// The order into which `SliceRandom::shuffle` brings the items with the generator that
/// `StdRng::seed_from_u64` makes of the seed.
pub uninterp spec fn shuffled(items: Seq<usize>, seed: u64) -> Seq<usize>;

/// `StdRng::seed_from_u64` and `SliceRandom::shuffle`: the items are permuted, and the seed alone
/// decides how.
#[verifier::external_body]
fn shuffle_with_seed(items: &mut Vec<usize>, seed: u64)
    ensures
        final(items)@ == shuffled(old(items)@, seed),
        final(items)@.to_multiset() == old(items)@.to_multiset(),
{
    items.shuffle(&mut StdRng::seed_from_u64(seed));
}

/// The numbers below `n` in ascending order.
pub open spec fn positions(n: nat) -> Seq<usize> {
    Seq::new(n, |i: int| i as usize)
}

/// The tests in the order of their positions in `order`.
pub open spec fn in_order(tests: Seq<TestModel>, order: Seq<usize>) -> Seq<TestModel> {
    Seq::new(order.len(), |i: int| tests[order[i] as int])
}

/// The tests in the order in which they are to run: as given, or shuffled where there is a seed.
pub open spec fn run_order(tests: Seq<TestModel>, seed: Option<u64>) -> Seq<TestModel> {
    match seed {
        Some(seed) => in_order(tests, shuffled(positions(tests.len()), seed)),
        None => tests,
    }
}

proof fn lemma_in_order_multiset(tests: Seq<TestModel>, a: Seq<usize>, b: Seq<usize>)
    requires
        a.to_multiset() == b.to_multiset(),
    ensures
        in_order(tests, a).to_multiset() == in_order(tests, b).to_multiset(),
    decreases a.len(),
{
    broadcast use vstd::seq_lib::group_to_multiset_ensures;

    a.to_multiset_ensures();
    b.to_multiset_ensures();
    assert(a.len() == b.len());
    if a.len() == 0 {
        assert(a =~= b);
    } else {
        let last = a.len() - 1;
        let x = a[last];
        assert(a.contains(x));
        assert(b.to_multiset().count(x) > 0);
        assert(b.contains(x));
        let j = b.index_of(x);
        let (a1, b1) = (a.remove(last), b.remove(j));
        assert(a1.to_multiset() =~= a.to_multiset().remove(x));
        assert(b1.to_multiset() =~= b.to_multiset().remove(x));
        lemma_in_order_multiset(tests, a1, b1);
        let (ia, ib) = (in_order(tests, a), in_order(tests, b));
        ia.to_multiset_ensures();
        ib.to_multiset_ensures();
        assert(ia.remove(last) =~= in_order(tests, a1));
        assert(ib.remove(j) =~= in_order(tests, b1));
        let t = tests[x as int];
        assert(ia[last] == t && ib[j] == t);
        assert(ia.contains(t) && ib.contains(t));
        assert(ia.to_multiset() =~= ia.remove(last).to_multiset().insert(t));
        assert(ib.to_multiset() =~= ib.remove(j).to_multiset().insert(t));
    }
}

/// Brings the tests into the order in which they are to run. Shuffling loses and repeats no test.
pub fn shuffle(tests: &Vec<RegisteredTest>, seed: Option<u64>) -> (r: Vec<RegisteredTest>)
    ensures
        internal::test_views(r@) == run_order(internal::test_views(tests@), seed),
        internal::test_views(r@).to_multiset() == internal::test_views(tests@).to_multiset(),
{
    let ghost all = internal::test_views(tests@);
    let mut order: Vec<usize> = Vec::new();
    let mut i: usize = 0;
    while i < tests.len()
        invariant
            i <= tests.len(),
            order@ == positions(i as nat),
        decreases tests.len() - i,
    {
        order.push(i);
        assert(order@ =~= positions((i + 1) as nat));
        i = i + 1;
    }
    let ghost straight = order@;
    assert(in_order(all, straight) =~= all);
    if let Some(seed) = seed {
        shuffle_with_seed(&mut order, seed);
    }
    proof {
        lemma_in_order_multiset(all, straight, order@);
        straight.to_multiset_ensures();
        order@.to_multiset_ensures();
    }
    let mut r: Vec<RegisteredTest> = Vec::new();
    let mut k: usize = 0;
    while k < order.len()
        invariant
            k <= order.len(),
            all == internal::test_views(tests@),
            straight == positions(tests@.len()),
            order@.to_multiset() == straight.to_multiset(),
            internal::test_views(r@) == in_order(all, order@).take(k as int),
        decreases order.len() - k,
    {
        proof {
            straight.to_multiset_ensures();
            order@.to_multiset_ensures();
            assert(order@.contains(order@[k as int]));
            assert(straight.to_multiset().count(order@[k as int]) > 0);
            assert(straight.contains(order@[k as int]));
        }
        let ghost before = r@;
        r.push(tests[order[k]].clone());
        assert(internal::test_views(r@) =~= internal::test_views(before).push(
            in_order(all, order@)[k as int],
        ));
        assert(in_order(all, order@).take(k + 1) =~= in_order(all, order@).take(k as int).push(
            in_order(all, order@)[k as int],
        ));
        k = k + 1;
    }
    assert(in_order(all, order@).take(k as int) =~= in_order(all, order@));
    r
}

} // verus!
