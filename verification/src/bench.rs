//! How long a benchmark runs.
use crate::results::Summary;
use vstd::prelude::*;

verus! {

/// What one round of measurements came to.
#[derive(Debug)]
pub struct Round {
    /// How long the round took, in nanoseconds
    pub loop_run: u64,
    /// The medians of the two halves of the round agree
    pub converged: bool,
    /// The summary of the second half
    pub summary: Summary,
}

/// The number of iterations that take about a millisecond if one takes this many nanoseconds, and
/// at least one.
pub open spec fn first_iterations(ns_single: u64) -> int {
    let n = 1_000_000int / (if ns_single > 1 {
        ns_single as int
    } else {
        1
    });
    if n > 1 {
        n
    } else {
        1
    }
}

/// The number of iterations in the round with this index.
pub open spec fn iterations(ns_single: u64, round: nat) -> int
    decreases round,
{
    if round == 0 {
        first_iterations(ns_single)
    } else {
        2 * iterations(ns_single, (round - 1) as nat)
    }
}

/// How long the rounds took together.
pub open spec fn total_run(rounds: Seq<Round>) -> int
    decreases rounds.len(),
{
    if rounds.len() == 0 {
        0
    } else {
        total_run(rounds.drop_last()) + rounds.last().loop_run
    }
}

/// Whether the last of these rounds, which had `n` iterations, is the last of all: the medians
/// agree after a tenth of a second, three seconds have passed, or there can be no more iterations.
pub open spec fn is_last(rounds: Seq<Round>, n: int) -> bool {
    ||| rounds.last().loop_run > 100_000_000 && rounds.last().converged
    ||| total_run(rounds) > 3_000_000_000
    ||| n * 10 > u64::MAX
}

/// This is what `measure` may make of the round with this index.
pub open spec fn is_measured<F: Fn(u64) -> Round>(
    ns_single: u64,
    measure: F,
    round: Round,
    index: nat,
) -> bool {
    &&& iterations(ns_single, index) * 5 <= u64::MAX
    &&& measure.ensures((iterations(ns_single, index) as u64,), round)
}

/// These are the rounds of a benchmark: each has twice the iterations of the one before it, and
/// there is another one until one is the last.
pub open spec fn is_bench_history<F: Fn(u64) -> Round>(
    ns_single: u64,
    measure: F,
    rounds: Seq<Round>,
) -> bool {
    &&& rounds.len() > 0
    &&& forall|i: int|
        0 <= i < rounds.len() ==> #[trigger] is_measured(ns_single, measure, rounds[i], i as nat)
    &&& forall|i: int|
        0 <= i < rounds.len() ==> (#[trigger] is_last(
            rounds.take(i + 1),
            iterations(ns_single, i as nat),
        ) <==> i == rounds.len() - 1)
}

/// How far a benchmark has come.
#[derive(Debug, Clone, Copy, PartialEq, Eq, Structural)]
pub struct Progress {
    /// The number of iterations in the next round
    pub n: u64,
    /// How long the rounds took so far, in nanoseconds
    pub total_run: u64,
}

impl Progress {
    /// There is time for another round, and its iterations can be counted.
    pub open spec fn wf(self) -> bool {
        &&& 1 <= self.n
        &&& self.n * 5 <= u64::MAX
        &&& self.total_run <= 3_000_000_000
    }

    /// Whether this round is the last one.
    pub open spec fn ends_with(self, round: Round) -> bool {
        ||| round.loop_run > 100_000_000 && round.converged
        ||| self.total_run + round.loop_run > 3_000_000_000
        ||| self.n * 10 > u64::MAX
    }

    /// The start of a benchmark of which one iteration took this many nanoseconds.
    pub fn start(ns_single: u64) -> (r: Self)
        ensures
            r.wf(),
            r.n == first_iterations(ns_single),
            r.total_run == 0,
    {
        let single: u64 = if ns_single > 1 {
            ns_single
        } else {
            1
        };
        let n: u64 = 1_000_000 / single;
        assert(1_000_000int / single as int <= 1_000_000) by (nonlinear_arith)
            requires
                single >= 1,
        ;
        Progress {
            n: if n < 1 {
                1
            } else {
                n
            },
            total_run: 0,
        }
    }

    /// Takes note of a round, and says whether there is another one: with twice the iterations.
    pub fn advance(&mut self, round: &Round) -> (r: bool)
        requires
            old(self).wf(),
        ensures
            r == !old(self).ends_with(*round),
            if r {
                &&& final(self).wf()
                &&& final(self).n == 2 * old(self).n
                &&& final(self).total_run == old(self).total_run + round.loop_run
            } else {
                *final(self) == *old(self)
            },
    {
        if round.loop_run > 100_000_000 && round.converged {
            return false;
        }
        if round.loop_run > 3_000_000_000 - self.total_run || self.n > u64::MAX / 10 {
            return false;
        }
        self.total_run = self.total_run + round.loop_run;
        self.n = self.n * 2;
        true
    }
}

/// Measures a benchmark of which one iteration took this many nanoseconds. `measure` makes a round
/// with the given number of iterations, and with five times as many in its second half.
pub fn iter<F: Fn(u64) -> Round>(ns_single: u64, measure: &F) -> (r: Summary)
    requires
        forall|n: u64| n * 5 <= u64::MAX ==> #[trigger] measure.requires((n,)),
    ensures
        exists|rounds: Seq<Round>| #[trigger]
            is_bench_history(ns_single, *measure, rounds) && r == rounds.last().summary,
{
    let mut progress = Progress::start(ns_single);
    let ghost mut rounds: Seq<Round> = Seq::empty();
    loop
        invariant
            progress.wf(),
            progress.n == iterations(ns_single, rounds.len()),
            progress.total_run == total_run(rounds),
            forall|n: u64| n * 5 <= u64::MAX ==> #[trigger] measure.requires((n,)),
            forall|i: int|
                0 <= i < rounds.len() ==> #[trigger] is_measured(
                    ns_single,
                    *measure,
                    rounds[i],
                    i as nat,
                ),
            forall|i: int|
                0 <= i < rounds.len() ==> !(#[trigger] is_last(
                    rounds.take(i + 1),
                    iterations(ns_single, i as nat),
                )),
        decreases u64::MAX - progress.n,
    {
        let ghost n = progress.n;
        let round = measure(progress.n);
        let ghost before = rounds;
        proof {
            rounds = rounds.push(round);
            assert(rounds.drop_last() =~= before);
            assert(rounds.take(rounds.len() as int) =~= rounds);
            assert forall|i: int| 0 <= i < before.len() implies !(#[trigger] is_last(
                rounds.take(i + 1),
                iterations(ns_single, i as nat),
            )) by {
                assert(rounds.take(i + 1) =~= before.take(i + 1));
                assert(!is_last(before.take(i + 1), iterations(ns_single, i as nat)));
            }
            assert forall|i: int| 0 <= i < rounds.len() implies #[trigger] is_measured(
                ns_single,
                *measure,
                rounds[i],
                i as nat,
            ) by {
                if i < before.len() {
                    assert(is_measured(ns_single, *measure, before[i], i as nat));
                }
            }
        }
        if !progress.advance(&round) {
            assert(is_last(rounds.take(rounds.len() as int), n as int));
            assert(is_bench_history(ns_single, *measure, rounds));
            return round.summary;
        }
    }
}

/// The first round takes about a millisecond where one iteration takes less than that.
pub proof fn first_round_takes_a_millisecond(ns_single: u64)
    requires
        0 < ns_single <= 1_000_000,
    ensures
        first_iterations(ns_single) * ns_single <= 1_000_000,
        (first_iterations(ns_single) + 1) * ns_single > 1_000_000,
{
    let n = 1_000_000int / ns_single as int;
    assert(n >= 1 && n * ns_single <= 1_000_000 && (n + 1) * ns_single > 1_000_000)
        by (nonlinear_arith)
        requires
            0 < ns_single <= 1_000_000,
            n == 1_000_000int / ns_single as int,
    ;
}

} // verus!
