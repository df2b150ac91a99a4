//! Running one test: repeated attempts, the limit on its time, and panics of detached tasks.
use crate::args::TimeThreshold;
use crate::internal::{DetachedPanicPolicy, FlakinessControl, RegisteredTest};
use crate::results;
use crate::results::{FailureCause, Outcome, PanicCause, PanicReport, Summary, TestResult};
use crate::text;
use crate::text::{concat, join};
use std::time::Duration;
use vstd::prelude::*;

verus! {

/// How one attempt to run a test ended: it returned, or it panicked.
pub type AttemptResult = Result<Result<(), FailureCause>, PanicReport>;

/// Announces that a test is run once more.
#[derive(Debug)]
pub struct Repeat {
    /// Which attempt this is, counted from one
    pub attempt: usize,
    pub max_attempts: usize,
    pub reason: String,
}

/// `announced` is what is announced before the attempt with this index.
pub open spec fn announces(
    control: FlakinessControl,
    index: int,
    announced: Option<Repeat>,
) -> bool {
    if index == 0 {
        announced is None
    } else {
        &&& announced matches Some(repeat)
        &&& repeat.attempt == index + 1
        &&& match control {
            FlakinessControl::NoControl => false,
            FlakinessControl::ProveNonFlaky(tries) => repeat.max_attempts == tries
                && repeat.reason@ == "to ensure test is not flaky"@,
            FlakinessControl::RetryKnownFlaky(max_retries) => repeat.max_attempts == max_retries
                && repeat.reason@ == "because test is known to be flaky"@,
        }
    }
}

/// Whether the test is attempted at all.
pub open spec fn is_attempted(control: FlakinessControl) -> bool {
    match control {
        FlakinessControl::ProveNonFlaky(tries) => tries > 0,
        _ => true,
    }
}

/// Whether there is another attempt after the one with this index ended so.
pub open spec fn is_repeated(control: FlakinessControl, index: int, result: AttemptResult) -> bool {
    match control {
        FlakinessControl::NoControl => false,
        FlakinessControl::ProveNonFlaky(tries) => result is Ok && result->Ok_0 is Ok && index + 1
            < tries,
        FlakinessControl::RetryKnownFlaky(max_retries) => result is Err && index + 1 < max_retries,
    }
}

/// These are the results of the attempts to run a test, first to last.
pub open spec fn is_attempt_history(
    control: FlakinessControl,
    results: Seq<AttemptResult>,
) -> bool {
    &&& results.len() > 0 <==> is_attempted(control)
    &&& forall|i: int|
        0 <= i < results.len() ==> (#[trigger] is_repeated(control, i, results[i]) <==> i
            < results.len() - 1)
}

/// What counts as the result of a test with these attempts.
pub open spec fn verdict(results: Seq<AttemptResult>) -> AttemptResult {
    if results.len() == 0 {
        Ok(Ok(()))
    } else {
        results.last()
    }
}

/// Each result is what `attempt` may return after its announcement.
pub open spec fn attempts<F: Fn(Option<Repeat>) -> AttemptResult>(
    control: FlakinessControl,
    attempt: F,
    announced: Seq<Option<Repeat>>,
    results: Seq<AttemptResult>,
) -> bool {
    &&& announced.len() == results.len()
    &&& forall|i: int|
        0 <= i < results.len() ==> announces(control, i, #[trigger] announced[i])
            && attempt.ensures((announced[i],), results[i])
}

/// Runs a test as often as its flakiness control asks for. `attempt` announces the attempt, where
/// there is something to announce, and makes it.
pub fn run_with_flakiness_control<F: Fn(Option<Repeat>) -> AttemptResult>(
    control: &FlakinessControl,
    attempt: &F,
) -> (r: AttemptResult)
    requires
        forall|announced: Option<Repeat>| #[trigger] attempt.requires((announced,)),
    ensures
        exists|announced: Seq<Option<Repeat>>, results: Seq<AttemptResult>| #[trigger]
            attempts(*control, *attempt, announced, results) && is_attempt_history(
                *control,
                results,
            ) && r == verdict(results),
{
    let ghost mut announced: Seq<Option<Repeat>> = Seq::empty();
    let ghost mut results: Seq<AttemptResult> = Seq::empty();
    match control {
        FlakinessControl::NoControl => {
            let first: Option<Repeat> = None;
            let ghost said = first;
            let r = attempt(first);
            proof {
                announced = announced.push(said);
                results = results.push(r);
                assert(attempts(*control, *attempt, announced, results));
                assert(results.last() == r);
            }
            r
        },
        FlakinessControl::ProveNonFlaky(tries) => {
            let mut n: usize = 0;
            while n < *tries
                invariant
                    *control == FlakinessControl::ProveNonFlaky(*tries),
                    n <= *tries,
                    results.len() == n,
                    attempts(*control, *attempt, announced, results),
                    forall|i: int|
                        0 <= i < n ==> (#[trigger] results[i]) is Ok && results[i]->Ok_0 is Ok,
                    forall|announced: Option<Repeat>| #[trigger] attempt.requires((announced,)),
                decreases *tries - n,
            {
                let next = if n > 0 {
                    Some(
                        Repeat {
                            attempt: n + 1,
                            max_attempts: *tries,
                            reason: "to ensure test is not flaky".to_owned(),
                        },
                    )
                } else {
                    None
                };
                let ghost said = next;
                let r = attempt(next);
                proof {
                    announced = announced.push(said);
                    results = results.push(r);
                    assert(attempts(*control, *attempt, announced, results));
                    assert(results.last() == r);
                }
                match r {
                    Ok(Ok(_)) => {},
                    other => {
                        return other;
                    },
                }
                n = n + 1;
            }
            assert(verdict(results) == Ok::<Result<(), FailureCause>, PanicReport>(Ok(()))) by {
                if results.len() > 0 {
                    let unit = results[n - 1]->Ok_0->Ok_0;
                    assert(unit == ());
                }
            }
            Ok(Ok(()))
        },
        FlakinessControl::RetryKnownFlaky(max_retries) => {
            let mut tries: usize = 1;
            let mut next: Option<Repeat> = None;
            loop
                invariant
                    *control == FlakinessControl::RetryKnownFlaky(*max_retries),
                    1 <= tries,
                    tries == 1 || tries <= *max_retries,
                    results.len() == tries - 1,
                    announces(*control, tries - 1, next),
                    attempts(*control, *attempt, announced, results),
                    forall|i: int| 0 <= i < tries - 1 ==> (#[trigger] results[i]) is Err,
                    forall|announced: Option<Repeat>| #[trigger] attempt.requires((announced,)),
                decreases *max_retries - tries,
            {
                let ghost said = next;
                let r = attempt(next);
                proof {
                    announced = announced.push(said);
                    results = results.push(r);
                    assert(attempts(*control, *attempt, announced, results));
                    assert(results.last() == r);
                }
                if r.is_err() && tries < *max_retries {
                    tries = tries + 1;
                    next = Some(
                        Repeat {
                            attempt: tries,
                            max_attempts: *max_retries,
                            reason: "because test is known to be flaky".to_owned(),
                        },
                    );
                } else {
                    return r;
                }
            }
        },
    }
}

/// A test that has to prove itself passes only if every one of the attempts that it is granted is
/// made and passes.
pub proof fn proven_test_passed_every_attempt(tries: usize, results: Seq<AttemptResult>)
    requires
        is_attempt_history(FlakinessControl::ProveNonFlaky(tries), results),
        verdict(results) is Ok,
        verdict(results)->Ok_0 is Ok,
    ensures
        results.len() == tries,
        forall|i: int| 0 <= i < results.len() ==> (#[trigger] results[i]) is Ok && results[i]->Ok_0 is Ok,
{
    let control = FlakinessControl::ProveNonFlaky(tries);
    assert forall|i: int| 0 <= i < results.len() implies (#[trigger] results[i]) is Ok
        && results[i]->Ok_0 is Ok by {
        assert(is_repeated(control, i, results[i]) <==> i < results.len() - 1);
    }
    if results.len() > 0 {
        let last = results.len() - 1;
        assert(!is_repeated(control, last, results[last]));
        if results.len() > 1 {
            assert(is_repeated(control, last - 1, results[last - 1]));
        }
    }
}

/// A test that is known to be flaky counts as panicked only if every attempt that it is granted,
/// and there is at least one, is made and panics.
pub proof fn retried_test_panicked_every_attempt(max_retries: usize, results: Seq<AttemptResult>)
    requires
        is_attempt_history(FlakinessControl::RetryKnownFlaky(max_retries), results),
        verdict(results) is Err,
    ensures
        results.len() == (if max_retries > 1 {
            max_retries as int
        } else {
            1
        }),
        forall|i: int| 0 <= i < results.len() ==> (#[trigger] results[i]) is Err,
{
    let control = FlakinessControl::RetryKnownFlaky(max_retries);
    assert forall|i: int| 0 <= i < results.len() implies (#[trigger] results[i]) is Err by {
        assert(is_repeated(control, i, results[i]) <==> i < results.len() - 1);
    }
    let last = results.len() - 1;
    assert(!is_repeated(control, last, results[last]));
    if results.len() > 1 {
        assert(is_repeated(control, last - 1, results[last - 1]));
    }
}

/// How `std::time::Duration` shows itself for debugging.
pub uninterp spec fn duration_shown(nanos: u64) -> Seq<char>;

/// The `Debug` rendering of `std::time::Duration`, of a duration of this many nanoseconds.
#[verifier::external_body]
fn show_duration(nanos: u64) -> (r: String)
    ensures
        r@ == duration_shown(nanos),
{
    format!("{:?}", Duration::from_nanos(nanos))
}

/// `checked` is the result of an attempt after the limit on its time was applied.
pub open spec fn is_time_checked(
    result: AttemptResult,
    ensure_time: Option<TimeThreshold>,
    elapsed: u64,
    checked: AttemptResult,
) -> bool {
    if result is Ok && result->Ok_0 is Ok && ensure_time is Some && elapsed
        >= ensure_time->0.critical {
        &&& checked matches Ok(Err(FailureCause::HarnessError(message)))
        &&& message@ == "Test run time exceeds critical threshold: "@ + duration_shown(elapsed)
    } else {
        checked == result
    }
}

/// Applies the limit on the time of a test to an attempt that took this many nanoseconds: an
/// attempt that passed fails if it took too long.
pub fn check_time(result: AttemptResult, ensure_time: Option<TimeThreshold>, elapsed: u64) -> (r:
    AttemptResult)
    ensures
        is_time_checked(result, ensure_time, elapsed, r),
{
    match result {
        Ok(Ok(unit)) => {
            if let Some(limits) = ensure_time {
                if limits.is_critical(elapsed as u128) {
                    return Ok(
                        Err(
                            FailureCause::HarnessError(
                                concat(
                                    "Test run time exceeds critical threshold: ",
                                    show_duration(elapsed).as_str(),
                                ),
                            ),
                        ),
                    );
                }
            }
            Ok(Ok(unit))
        },
        other => other,
    }
}

/// The renderings of panics.
pub open spec fn panics_rendered(panics: Seq<PanicCause>) -> Seq<Seq<char>> {
    Seq::new(panics.len(), |i: int| panics[i].rendered())
}

/// Whether the panics of detached tasks make a test with this outcome fail.
pub open spec fn fails_by_detached(
    outcome: Outcome,
    policy: DetachedPanicPolicy,
    panics: Seq<PanicCause>,
) -> bool {
    outcome is Passed && policy is FailTest && panics.len() > 0
}

/// `cause` is why a test fails of whose detached tasks some panicked.
pub open spec fn is_detached_cause(panics: Seq<PanicCause>, cause: FailureCause) -> bool {
    &&& cause matches FailureCause::Panic(panic)
    &&& panic.message matches Some(message)
    &&& message@ == "Detached task(s) panicked:\n"@ + text::joined(
        panics_rendered(panics),
        "\n---\n"@,
    )
    &&& panic.location == panics[0].location
    &&& panic.backtrace == panics[0].backtrace
}

/// Applies the panics of the tasks that a test has spawned: where the policy says so, a test that
/// passed fails. `elapsed` is the time that has passed when that is decided.
pub fn apply_detached_panics(
    result: TestResult,
    policy: DetachedPanicPolicy,
    panics: &Vec<PanicCause>,
    elapsed: u64,
) -> (r: TestResult)
    ensures
        if fails_by_detached(result@.outcome, policy, panics@) {
            &&& r@.captured.len() == 0
            &&& r@.outcome matches Outcome::Failed { cause, exec_time }
            &&& exec_time == elapsed
            &&& is_detached_cause(panics@, cause)
        } else {
            r == result
        },
{
    if panics.len() == 0 || policy != DetachedPanicPolicy::FailTest || !result.is_passed() {
        return result;
    }
    let mut messages: Vec<String> = Vec::new();
    let mut i: usize = 0;
    while i < panics.len()
        invariant
            i <= panics.len(),
            text::views(messages@) == panics_rendered(panics@).take(i as int),
        decreases panics.len() - i,
    {
        let ghost before = messages@;
        messages.push(panics[i].render());
        assert(text::views(messages@) =~= text::views(before).push(panics@[i as int].rendered()));
        assert(panics_rendered(panics@).take(i + 1) =~= panics_rendered(panics@).take(i as int).push(
            panics@[i as int].rendered(),
        ));
        i = i + 1;
    }
    assert(panics_rendered(panics@).take(i as int) =~= panics_rendered(panics@));
    let message = concat(
        "Detached task(s) panicked:\n",
        join(&messages, "\n---\n").as_str(),
    );
    let first = panics[0].clone();
    TestResult::failed(
        elapsed,
        FailureCause::Panic(
            PanicCause {
                message: Some(message),
                location: first.location,
                backtrace: first.backtrace,
            },
        ),
    )
}

/// What the clock and the panic hook say when a test has ended.
pub struct Ended {
    /// The time that the test took, in nanoseconds
    pub exec_time: u64,
    /// The panics of the tasks that the last attempt has spawned
    pub detached: Vec<PanicCause>,
    /// The time that has passed when these were collected, in nanoseconds
    pub collected_at: u64,
}

/// An attempt with the time that it took in nanoseconds.
pub struct TimedAttempt {
    pub result: AttemptResult,
    pub elapsed: u64,
}

/// `r` is the result of a test whose attempts and benchmarks came to `plain`, after the panics of
/// its detached tasks were applied.
pub open spec fn is_settled(
    plain: TestResult,
    policy: DetachedPanicPolicy,
    ended: Ended,
    r: TestResult,
) -> bool {
    if fails_by_detached(plain@.outcome, policy, ended.detached@) {
        &&& r@.captured.len() == 0
        &&& r@.outcome matches Outcome::Failed { cause, exec_time }
        &&& exec_time == ended.collected_at
        &&& is_detached_cause(ended.detached@, cause)
    } else {
        r == plain
    }
}

/// The result of a test of which this is the verdict.
pub fn settle_test(test: &RegisteredTest, result: AttemptResult, ended: Ended) -> (r: TestResult)
    ensures
        exists|plain: TestResult| #[trigger]
            is_settled(plain, test.props.detached_panic_policy, ended, r)
                && plain@.captured.len() == 0 && results::is_result_of(
                test.props.should_panic,
                ended.exec_time,
                result,
                plain@.outcome,
            ),
{
    let plain = TestResult::from_result(&test.props.should_panic, ended.exec_time, result);
    let ghost kept = plain;
    let r = apply_detached_panics(
        plain,
        test.props.detached_panic_policy,
        &ended.detached,
        ended.collected_at,
    );
    assert(is_settled(kept, test.props.detached_panic_policy, ended, r));
    r
}

/// `result` is what counts of an attempt that `attempt` may make after this announcement.
pub open spec fn may_count<F: Fn(Option<Repeat>) -> TimedAttempt>(
    attempt: F,
    ensure_time: Option<TimeThreshold>,
    announced: Option<Repeat>,
    result: AttemptResult,
) -> bool {
    exists|timed: TimedAttempt| #[trigger]
        attempt.ensures((announced,), timed) && is_time_checked(
            timed.result,
            ensure_time,
            timed.elapsed,
            result,
        )
}

/// These are the attempts to run a test under a limit on its time.
pub open spec fn is_timed_run<F: Fn(Option<Repeat>) -> TimedAttempt>(
    control: FlakinessControl,
    attempt: F,
    ensure_time: Option<TimeThreshold>,
    announced: Seq<Option<Repeat>>,
    results: Seq<AttemptResult>,
) -> bool {
    &&& announced.len() == results.len()
    &&& forall|i: int|
        0 <= i < results.len() ==> announces(control, i, #[trigger] announced[i]) && may_count(
            attempt,
            ensure_time,
            announced[i],
            results[i],
        )
    &&& is_attempt_history(control, results)
}

/// Runs a test: makes its attempts, applies the limit on its time to each of them, and takes the
/// panics of its detached tasks into account. `attempt` makes one attempt and measures it, and
/// `ended` says what was observed when the last one has ended.
pub fn run_sync_test_function<
    F: Fn(Option<Repeat>) -> TimedAttempt,
    G: Fn() -> Ended,
>(test: &RegisteredTest, ensure_time: Option<TimeThreshold>, attempt: &F, ended: &G) -> (r:
    TestResult)
    requires
        test.run is Sync,
        forall|announced: Option<Repeat>| #[trigger] attempt.requires((announced,)),
        ended.requires(()),
    ensures
        exists|
            announced: Seq<Option<Repeat>>,
            results: Seq<AttemptResult>,
            end: Ended,
            plain: TestResult,
        |
            #![trigger is_timed_run(test.props.flakiness_control, *attempt, ensure_time, announced, results), is_settled(plain, test.props.detached_panic_policy, end, r)]
            {
                &&& is_timed_run(
                    test.props.flakiness_control,
                    *attempt,
                    ensure_time,
                    announced,
                    results,
                )
                &&& ended.ensures((), end)
                &&& plain@.captured.len() == 0
                &&& results::is_result_of(
                    test.props.should_panic,
                    end.exec_time,
                    verdict(results),
                    plain@.outcome,
                )
                &&& is_settled(plain, test.props.detached_panic_policy, end, r)
            },
{
    let checked = |announced: Option<Repeat>| -> (result: AttemptResult)
        requires
            attempt.requires((announced,)),
        ensures
            may_count(*attempt, ensure_time, announced, result),
        {
            let timed = attempt(announced);
            let ghost seen = timed;
            let result = check_time(timed.result, ensure_time, timed.elapsed);
            assert(attempt.ensures((announced,), seen));
            result
        };
    let result = run_with_flakiness_control(&test.props.flakiness_control, &checked);
    let ghost (announced, results) = choose|
        announced: Seq<Option<Repeat>>,
        results: Seq<AttemptResult>,
    | #[trigger]
        attempts(test.props.flakiness_control, checked, announced, results) && is_attempt_history(
            test.props.flakiness_control,
            results,
        ) && result == verdict(results);
    assert(is_timed_run(test.props.flakiness_control, *attempt, ensure_time, announced, results));
    let end = ended();
    let ghost seen = end;
    let r = settle_test(test, result, end);
    assert(ended.ensures((), seen));
    r
}

/// The result of a benchmark that was measured or panicked so. `bytes` is how many bytes one
/// iteration processes.
pub fn settle_bench(
    test: &RegisteredTest,
    result: Result<Summary, PanicReport>,
    bytes: u64,
    ended: Ended,
) -> (r: TestResult)
    requires
        bytes * 1000 <= u64::MAX,
    ensures
        exists|plain: TestResult| #[trigger]
            is_settled(plain, test.props.detached_panic_policy, ended, r)
                && plain@.captured.len() == 0 && results::is_summary_of(
                test.props.should_panic,
                ended.exec_time,
                result,
                bytes,
                plain@.outcome,
            ),
{
    let plain = TestResult::from_summary(&test.props.should_panic, ended.exec_time, result, bytes);
    let ghost kept = plain;
    let r = apply_detached_panics(
        plain,
        test.props.detached_panic_policy,
        &ended.detached,
        ended.collected_at,
    );
    assert(is_settled(kept, test.props.detached_panic_policy, ended, r));
    r
}

} // verus!
