//! Panics of tests, and of the tasks that tests spawn.
use crate::results::PanicCause;
use std::collections::HashMap;
use vstd::prelude::*;

verus! {

broadcast use vstd::std_specs::hash::group_hash_axioms;

/// What was captured of panics, by the number of the test.
pub struct PanicHook {
    pub next_id: u64,
    /// The panics that were captured and not yet taken, in the order in which they happened
    pub captures: HashMap<u64, Vec<PanicCause>>,
    /// The panics of the tasks that running tests have spawned
    pub detached: HashMap<u64, Vec<PanicCause>>,
}

/// The panics of the test with this number, none where nothing is known of it.
pub open spec fn panics_of(panics: Map<u64, Vec<PanicCause>>, id: u64) -> Seq<PanicCause> {
    if panics.contains_key(id) {
        panics[id]@
    } else {
        Seq::empty()
    }
}

/// Nothing has changed for the other tests.
pub open spec fn same_for_others(
    before: Map<u64, Vec<PanicCause>>,
    after: Map<u64, Vec<PanicCause>>,
    id: u64,
) -> bool {
    forall|other: u64|
        other != id ==> #[trigger] after.contains_key(other) == before.contains_key(other) && (
        after.contains_key(other) ==> after[other] == before[other])
}

impl PanicHook {
    pub fn new() -> (r: Self)
        ensures
            r.next_id == 1,
            r.captures@ == Map::<u64, Vec<PanicCause>>::empty(),
            r.detached@ == Map::<u64, Vec<PanicCause>>::empty(),
    {
        PanicHook { next_id: 1, captures: HashMap::new(), detached: HashMap::new() }
    }

    /// A number for another test.
    pub fn next_test_id(&mut self) -> (r: u64)
        ensures
            r == old(self).next_id,
            final(self).next_id == (if old(self).next_id == u64::MAX {
                0
            } else {
                old(self).next_id + 1
            }),
            final(self).captures == old(self).captures,
            final(self).detached == old(self).detached,
    {
        let id: u64 = self.next_id;
        self.next_id = id.wrapping_add(1);
        id
    }

    /// Captures a panic of the test that runs on the thread, and says whether there is one: other
    /// panics are left to the previous hook.
    pub fn capture(&mut self, current: Option<u64>, cause: PanicCause) -> (r: bool)
        ensures
            r == (current is Some),
            match current {
                Some(id) => {
                    &&& panics_of(final(self).captures@, id) == panics_of(
                        old(self).captures@,
                        id,
                    ).push(cause)
                    &&& same_for_others(old(self).captures@, final(self).captures@, id)
                },
                None => final(self).captures@ == old(self).captures@,
            },
            final(self).next_id == old(self).next_id,
            final(self).detached == old(self).detached,
    {
        match current {
            Some(id) => {
                let mut panics = match self.captures.remove(&id) {
                    Some(panics) => panics,
                    None => Vec::new(),
                };
                panics.push(cause);
                self.captures.insert(id, panics);
                true
            },
            None => false,
        }
    }

    /// Takes the last panic that was captured of a test.
    pub fn take_panic_capture(&mut self, id: u64) -> (r: Option<PanicCause>)
        ensures
            match r {
                Some(cause) => panics_of(old(self).captures@, id) == panics_of(
                    final(self).captures@,
                    id,
                ).push(cause),
                None => {
                    &&& panics_of(old(self).captures@, id).len() == 0
                    &&& panics_of(final(self).captures@, id).len() == 0
                },
            },
            same_for_others(old(self).captures@, final(self).captures@, id),
            final(self).next_id == old(self).next_id,
            final(self).detached == old(self).detached,
    {
        let mut panics = match self.captures.remove(&id) {
            Some(panics) => panics,
            None => {
                return None;
            },
        };
        let ghost all = panics@;
        let cause = panics.pop();
        assert(cause is Some ==> panics@.push(cause->0) =~= all);
        if panics.len() > 0 {
            self.captures.insert(id, panics);
        } else {
            assert(panics@ =~= Seq::empty());
        }
        cause
    }

    /// Takes the last panic that was captured of the test that runs on the thread.
    pub fn take_current_panic_capture(&mut self, current: Option<u64>) -> (r: Option<PanicCause>)
        ensures
            match current {
                Some(id) => {
                    &&& match r {
                        Some(cause) => panics_of(old(self).captures@, id) == panics_of(
                            final(self).captures@,
                            id,
                        ).push(cause),
                        None => panics_of(old(self).captures@, id).len() == 0 && panics_of(
                            final(self).captures@,
                            id,
                        ).len() == 0,
                    }
                    &&& same_for_others(old(self).captures@, final(self).captures@, id)
                },
                None => r is None && final(self).captures@ == old(self).captures@,
            },
            final(self).next_id == old(self).next_id,
            final(self).detached == old(self).detached,
    {
        match current {
            Some(id) => self.take_panic_capture(id),
            None => None,
        }
    }

    /// Starts to collect the panics of the tasks that a test spawns.
    pub fn create_detached_collector(&mut self, id: u64)
        ensures
            final(self).detached@.contains_key(id),
            panics_of(final(self).detached@, id).len() == 0,
            same_for_others(old(self).detached@, final(self).detached@, id),
            final(self).next_id == old(self).next_id,
            final(self).captures == old(self).captures,
    {
        self.detached.insert(id, Vec::new());
    }

    /// Collects a panic of a task that a test has spawned, if the test still runs.
    pub fn collect_detached(&mut self, id: u64, cause: PanicCause)
        ensures
            if old(self).detached@.contains_key(id) {
                &&& final(self).detached@.contains_key(id)
                &&& panics_of(final(self).detached@, id) == panics_of(old(self).detached@, id).push(
                    cause,
                )
                &&& same_for_others(old(self).detached@, final(self).detached@, id)
            } else {
                final(self).detached@ == old(self).detached@
            },
            final(self).next_id == old(self).next_id,
            final(self).captures == old(self).captures,
    {
        let ghost before = self.detached@;
        match self.detached.remove(&id) {
            Some(panics) => {
                let mut panics = panics;
                panics.push(cause);
                self.detached.insert(id, panics);
            },
            None => {
                assert(self.detached@ =~= before);
            },
        }
    }

    /// Ends the collection of the panics of the tasks that a test has spawned.
    pub fn take_detached_collector(&mut self, id: u64) -> (r: Option<Vec<PanicCause>>)
        ensures
            match r {
                Some(panics) => old(self).detached@.contains_key(id) && panics
                    == old(self).detached@[id],
                None => !old(self).detached@.contains_key(id),
            },
            final(self).detached@ == old(self).detached@.remove(id),
            final(self).next_id == old(self).next_id,
            final(self).captures == old(self).captures,
    {
        let ghost before = self.detached@;
        let r = self.detached.remove(&id);
        assert(self.detached@ =~= before.remove(id));
        r
    }
}

/// The panic that was captured last is the one that is taken, and what was captured before it is
/// left.
pub proof fn captured_panic_is_taken_back(
    before: Map<u64, Vec<PanicCause>>,
    between: Map<u64, Vec<PanicCause>>,
    after: Map<u64, Vec<PanicCause>>,
    id: u64,
    cause: PanicCause,
    taken: PanicCause,
)
    requires
        panics_of(between, id) == panics_of(before, id).push(cause),
        panics_of(between, id) == panics_of(after, id).push(taken),
    ensures
        taken == cause,
        panics_of(after, id) == panics_of(before, id),
{
    let all = panics_of(between, id);
    assert(all.last() == cause && all.last() == taken);
    assert(panics_of(after, id) =~= all.drop_last());
    assert(panics_of(before, id) =~= all.drop_last());
}

} // verus!
