//! Tables: vectors of named values.
use crate::text::str_eq;
use vstd::prelude::*;

verus! {

/// The values by name; of two entries with one name the later one stands.
pub open spec fn entries_map<T>(entries: Seq<(String, T)>) -> Map<Seq<char>, T>
    decreases entries.len(),
{
    if entries.len() == 0 {
        Map::empty()
    } else {
        entries_map(entries.drop_last()).insert(entries.last().0@, entries.last().1)
    }
}

/// No name occurs twice.
pub open spec fn distinct_names<T>(entries: Seq<(String, T)>) -> bool {
    forall|i: int, j: int|
        0 <= i < j < entries.len() ==> (#[trigger] entries[i]).0@ != (#[trigger] entries[j]).0@
}

pub proof fn lemma_entries_map<T>(entries: Seq<(String, T)>)
    requires
        distinct_names(entries),
    ensures
        entries_map(entries).dom().finite(),
        entries_map(entries).dom().len() == entries.len(),
        forall|i: int|
            0 <= i < entries.len() ==> entries_map(entries).contains_key(
                (#[trigger] entries[i]).0@,
            ) && entries_map(entries)[entries[i].0@] == entries[i].1,
        forall|k: Seq<char>|
            entries_map(entries).contains_key(k) ==> exists|i: int|
                0 <= i < entries.len() && (#[trigger] entries[i]).0@ == k,
    decreases entries.len(),
{
    if entries.len() > 0 {
        let init = entries.drop_last();
        lemma_entries_map(init);
        assert(entries_map(entries).dom() =~= entries_map(init).dom().insert(entries.last().0@));
        if entries_map(init).contains_key(entries.last().0@) {
            let i = choose|i: int|
                0 <= i < init.len() && (#[trigger] init[i]).0@ == entries.last().0@;
            assert(entries[i].0@ == entries[entries.len() - 1].0@);
        }
        assert forall|i: int| 0 <= i < entries.len() implies entries_map(entries).contains_key(
            (#[trigger] entries[i]).0@,
        ) && entries_map(entries)[entries[i].0@] == entries[i].1 by {
            if i < init.len() {
                assert(init[i] == entries[i]);
            }
        }
        assert forall|k: Seq<char>| entries_map(entries).contains_key(k) implies exists|i: int|
            0 <= i < entries.len() && (#[trigger] entries[i]).0@ == k by {
            if k == entries.last().0@ {
                assert(entries[entries.len() - 1].0@ == k);
            } else {
                let i = choose|i: int| 0 <= i < init.len() && (#[trigger] init[i]).0@ == k;
                assert(entries[i].0@ == k);
            }
        }
    }
}

pub proof fn lemma_entries_update<T>(entries: Seq<(String, T)>, i: int, e: (String, T))
    requires
        distinct_names(entries),
        0 <= i < entries.len(),
        e.0@ == entries[i].0@,
    ensures
        distinct_names(entries.update(i, e)),
        entries_map(entries.update(i, e)) == entries_map(entries).insert(e.0@, e.1),
    decreases entries.len(),
{
    let after = entries.update(i, e);
    assert(distinct_names(after));
    let init = entries.drop_last();
    if i == entries.len() - 1 {
        assert(after.drop_last() =~= init);
        assert(entries_map(after) =~= entries_map(entries).insert(e.0@, e.1));
    } else {
        assert(after.drop_last() =~= init.update(i, e));
        lemma_entries_update(init, i, e);
        assert(entries[i].0@ != entries.last().0@);
        assert(entries_map(after) =~= entries_map(entries).insert(e.0@, e.1));
    }
}

/// Finds the entry of this name.
pub fn find<T>(entries: &Vec<(String, T)>, name: &str) -> (r: Option<usize>)
    requires
        distinct_names(entries@),
    ensures
        r is Some <==> entries_map(entries@).contains_key(name@),
        r matches Some(i) ==> i < entries.len() && entries@[i as int].0@ == name@
            && entries@[i as int].1 == entries_map(entries@)[name@],
{
    proof {
        lemma_entries_map(entries@);
    }
    let mut i: usize = 0;
    while i < entries.len()
        invariant
            i <= entries.len(),
            forall|k: int| 0 <= k < i ==> (#[trigger] entries@[k]).0@ != name@,
            forall|k: int|
                0 <= k < entries@.len() ==> entries_map(entries@).contains_key(
                    (#[trigger] entries@[k]).0@,
                ) && entries_map(entries@)[entries@[k].0@] == entries@[k].1,
        decreases entries.len() - i,
    {
        if str_eq(entries[i].0.as_str(), name) {
            return Some(i);
        }
        i = i + 1;
    }
    None
}

/// Gives the name this value.
pub fn put<T>(entries: &mut Vec<(String, T)>, name: String, value: T)
    requires
        distinct_names(old(entries)@),
    ensures
        distinct_names(final(entries)@),
        entries_map(final(entries)@) == entries_map(old(entries)@).insert(name@, value),
{
    let ghost before = entries@;
    match find(entries, name.as_str()) {
        Some(i) => {
            proof {
                lemma_entries_update(before, i as int, (name, value));
            }
            entries.set(i, (name, value));
        },
        None => {
            proof {
                lemma_entries_map(before);
                assert forall|k: int| 0 <= k < before.len() implies (#[trigger] before[k]).0@
                    != name@ by {}
            }
            entries.push((name, value));
            assert(entries@.drop_last() =~= before);
        },
    }
}

/// Makes a table of the entries; of two entries with one name the later one stands.
pub fn tabulate<T>(entries: Vec<(String, T)>) -> (r: Vec<(String, T)>)
    ensures
        distinct_names(r@),
        entries_map(r@) == entries_map(entries@),
{
    let ghost all = entries@;
    let mut rest = entries;
    let mut last: Vec<(String, T)> = Vec::new();
    while rest.len() > 0
        invariant
            rest@.len() + last@.len() == all.len(),
            rest@ == all.take(rest@.len() as int),
            forall|i: int| 0 <= i < last@.len() ==> #[trigger] last@[i] == all[all.len() - 1 - i],
        decreases rest.len(),
    {
        let ghost before = rest@;
        let entry = rest.pop().unwrap();
        assert(rest@ =~= all.take(rest@.len() as int));
        last.push(entry);
    }
    let mut r: Vec<(String, T)> = Vec::new();
    assert(all.take(0) =~= Seq::empty());
    while last.len() > 0
        invariant
            last@.len() <= all.len(),
            forall|i: int| 0 <= i < last@.len() ==> #[trigger] last@[i] == all[all.len() - 1 - i],
            distinct_names(r@),
            entries_map(r@) == entries_map(all.take(all.len() - last@.len())),
        decreases last.len(),
    {
        let ghost n = all.len() - last@.len();
        assert(last@[last@.len() - 1] == all[n]);
        assert(all.take(n + 1).drop_last() =~= all.take(n));
        let (name, value) = last.pop().unwrap();
        put(&mut r, name, value);
    }
    assert(all.take(all.len() as int) =~= all);
    r
}

} // verus!
