//! Which tests pass and which fail.
use super::words::{holds, lemma_holds};
use crate::args::TimeThreshold;
use crate::internal::{DetachedPanicPolicy, FlakinessControl, RegisteredTest, ShouldPanic};
use crate::results::{
    ErrorKind, FailureCause, PanicCause, PanicReport, SuiteResult, Summary, TestResult,
};
use crate::sync::run;
use crate::sync::run::{AttemptResult, Repeat};
use crate::sync::runner;
use crate::text;
use vstd::prelude::*;

verus! {

/// The message that a panic is known by: the one that the hook captured, else that of the payload.
pub open spec fn message_of(report: PanicReport) -> Option<String> {
    match report.captured {
        Some(cause) => cause.message,
        None => report.payload,
    }
}

/// A test that should panic with a text passes if it panics with a message in which that text stands,
/// wherever it stands.
pub proof fn expected_text_may_stand_anywhere(
    expected: String,
    elapsed: u64,
    report: PanicReport,
    a: Seq<char>,
    b: Seq<char>,
    r: TestResult,
)
    requires
        message_of(report) is Some,
        message_of(report)->0@ == a + expected@ + b,
        call_ensures(
            TestResult::from_panic,
            (&ShouldPanic::WithMessage(expected), elapsed, report),
            r,
        ),
    ensures
        r matches TestResult::Passed { exec_time, .. } && exec_time == elapsed,
{
    let whole = a + expected@ + b;
    assert(whole.subrange(a.len() as int, (a.len() + expected@.len()) as int) =~= expected@);
    assert(text::occurs_at(whole, expected@, a.len() as int));
}

/// It fails if it panics with a message in which the text stands nowhere, or without a message, and
/// the message is then shown.
pub proof fn other_text_is_told(
    expected: String,
    elapsed: u64,
    report: PanicReport,
    r: TestResult,
    shown: Option<String>,
)
    requires
        call_ensures(TestResult::failure_message, (&r,), shown),
        message_of(report) matches Some(message) ==> !holds(message@, expected@),
        call_ensures(
            TestResult::from_panic,
            (&ShouldPanic::WithMessage(expected), elapsed, report),
            r,
        ),
    ensures
        r matches TestResult::Failed { exec_time, .. } && exec_time == elapsed,
        shown is Some,
        message_of(report) matches Some(message) ==> holds(shown->0@, message@),
{
    if let Some(message) = message_of(report) {
        if text::has_substring(message@, expected@) {
            let i = choose|i: int| text::occurs_at(message@, expected@, i);
            let n = i + expected@.len();
            assert(message@ =~= message@.take(i) + expected@ + message@.skip(n));
            lemma_holds(message@, message@.take(i), expected@, message@.skip(n));
        }
        let start = "Test panicked with unexpected message: "@;
        assert(shown->0@ =~= start + message@ + Seq::empty());
        lemma_holds(shown->0@, start, message@, Seq::empty());
    }
}

/// A test that should not panic fails if it panics, and what is known of the panic is kept.
pub proof fn panic_fails_a_test(elapsed: u64, report: PanicReport, r: TestResult)
    requires
        call_ensures(TestResult::from_panic, (&ShouldPanic::No, elapsed, report), r),
    ensures
        r matches TestResult::Failed { cause: FailureCause::Panic(cause), exec_time, .. }
            && exec_time == elapsed && cause.message == message_of(report) && (
        report.captured matches Some(captured) ==> cause == captured),
{
}

/// A test that should panic passes if it panics, with whatever message.
pub proof fn any_panic_will_do(elapsed: u64, report: PanicReport, r: TestResult)
    requires
        call_ensures(TestResult::from_panic, (&ShouldPanic::Yes, elapsed, report), r),
    ensures
        r matches TestResult::Passed { exec_time, .. } && exec_time == elapsed,
{
}

/// A test that returns passes exactly if it returned no error and should not have panicked; an error
/// that it returned is the cause.
pub proof fn return_is_judged(
    should_panic: ShouldPanic,
    elapsed: u64,
    returned: Result<(), FailureCause>,
    r: TestResult,
)
    requires
        call_ensures(
            TestResult::from_result,
            (&should_panic, elapsed, Ok::<Result<(), FailureCause>, PanicReport>(returned)),
            r,
        ),
    ensures
        r is Passed <==> returned is Ok && should_panic == ShouldPanic::No,
        !(r is Passed) ==> r is Failed,
        r matches TestResult::Passed { exec_time, captured } ==> exec_time == elapsed && captured@.len()
            == 0,
        r matches TestResult::Failed { exec_time, captured, .. } ==> exec_time == elapsed
            && captured@.len() == 0,
        returned matches Err(error) ==> (r matches TestResult::Failed { cause, .. } && cause
            == error),
{
}

/// A panic is judged in the same way wherever it is judged.
pub proof fn panic_is_judged_alike(
    should_panic: ShouldPanic,
    elapsed: u64,
    report: PanicReport,
    bytes: u64,
    r: TestResult,
    of_test: TestResult,
    of_bench: TestResult,
)
    requires
        call_ensures(TestResult::from_panic, (&should_panic, elapsed, report), r),
        call_ensures(
            TestResult::from_result,
            (&should_panic, elapsed, Err::<Result<(), FailureCause>, PanicReport>(report)),
            of_test,
        ),
        call_ensures(
            TestResult::from_summary,
            (&should_panic, elapsed, Err::<Summary, PanicReport>(report), bytes),
            of_bench,
        ),
    ensures
        of_test is Passed <==> r is Passed,
        of_test is Failed <==> r is Failed,
        of_bench is Passed <==> r is Passed,
        of_bench is Failed <==> r is Failed,
        r is Passed || r is Failed,
{
}

/// A benchmark that was measured has its measurement as its result. The throughput is the largest
/// number of whole units that the bytes of a thousand iterations make at one unit in a nanosecond of the
/// median, which counts as one nanosecond where it is shorter.
pub proof fn measurement_is_kept(
    should_panic: ShouldPanic,
    elapsed: u64,
    summary: Summary,
    bytes: u64,
    r: TestResult,
)
    requires
        bytes * 1000 <= u64::MAX,
        bytes * 1000 <= usize::MAX,
        call_ensures(
            TestResult::from_summary,
            (&should_panic, elapsed, Ok::<Summary, PanicReport>(summary), bytes),
            r,
        ),
    ensures
        r matches TestResult::Benchmarked { exec_time, ns_iter_summ, mb_s, .. } && {
            let median = if summary.median == 0 {
                1
            } else {
                summary.median as int
            };
            &&& exec_time == elapsed
            &&& ns_iter_summ == summary
            &&& mb_s * median <= bytes * 1000
            &&& bytes * 1000 < (mb_s + 1) * median
        },
{
    let median = if summary.median == 0 {
        1
    } else {
        summary.median as int
    };
    let n = bytes * 1000;
    let q = n / median;
    vstd::arithmetic::div_mod::lemma_fundamental_div_mod(n, median);
    vstd::arithmetic::div_mod::lemma_mod_bound(n, median);
    vstd::arithmetic::div_mod::lemma_div_pos_is_pos(n, median);
    vstd::arithmetic::div_mod::lemma_div_is_ordered_by_denominator(n, 1, median);
    vstd::arithmetic::div_mod::lemma_div_basics(n);
    vstd::arithmetic::mul::lemma_mul_is_commutative(q, median);
    vstd::arithmetic::mul::lemma_mul_is_distributive_add_other_way(median, q, 1);
}

/// A limit on the time fails a passed attempt from the moment on that it names, and changes nothing
/// else.
pub proof fn limit_fails_what_took_too_long(
    result: AttemptResult,
    limits: Option<TimeThreshold>,
    elapsed: u64,
    r: AttemptResult,
)
    requires
        call_ensures(run::check_time, (result, limits, elapsed), r),
    ensures
        result matches Ok(Ok(_)) && (limits matches Some(l) && l.critical <= elapsed) ==> (
        r matches Ok(Err(FailureCause::HarnessError(_)))),
        limits is None ==> r == result,
        limits matches Some(l) && elapsed < l.critical ==> r == result,
        !(result matches Ok(Ok(_))) ==> r == result,
{
}

/// The panic of a detached task fails a test that passed, unless such panics are to be ignored, and
/// every message is told. Nothing else changes.
pub proof fn detached_panic_fails_a_test(
    result: TestResult,
    policy: DetachedPanicPolicy,
    panics: Vec<PanicCause>,
    elapsed: u64,
    r: TestResult,
    shown: Option<String>,
    i: int,
)
    requires
        call_ensures(run::apply_detached_panics, (result, policy, &panics, elapsed), r),
        call_ensures(TestResult::failure_message, (&r,), shown),
        0 <= i < panics@.len(),
    ensures
        result is Passed && policy == DetachedPanicPolicy::FailTest ==> {
            &&& r matches TestResult::Failed { exec_time, .. } && exec_time == elapsed
            &&& shown is Some
            &&& panics@[i].message matches Some(message) ==> holds(shown->0@, message@)
        },
        !(result is Passed) || policy == DetachedPanicPolicy::Ignore ==> r == result,
{
    if result is Passed && policy == DetachedPanicPolicy::FailTest {
        let rendered = run::panics_rendered(panics@);
        if let Some(message) = panics@[i].message {
            let cause = r->cause;
            let start = "Detached task(s) panicked:\n"@;
            let sep = "\n---\n"@;
            let (a, b) = lemma_joined_holds(rendered, sep, i);
            let tail = PanicCause::rendered_location(panics@[i].location)
                + PanicCause::rendered_backtrace(panics@[i].backtrace);
            assert(rendered[i] =~= message@ + tail);
            let end = PanicCause::rendered_location(panics@[0].location)
                + PanicCause::rendered_backtrace(panics@[0].backtrace);
            assert(cause.rendered() =~= (start + a) + message@ + (tail + b + end));
            lemma_holds(shown->0@, start + a, message@, tail + b + end);
        }
    }
}

/// Without a panic of a detached task the result stays as it is.
pub proof fn no_detached_panic_changes_nothing(
    result: TestResult,
    policy: DetachedPanicPolicy,
    panics: Vec<PanicCause>,
    elapsed: u64,
    r: TestResult,
)
    requires
        call_ensures(run::apply_detached_panics, (result, policy, &panics, elapsed), r),
        panics@.len() == 0,
    ensures
        r == result,
{
}

proof fn lemma_joined_holds(parts: Seq<Seq<char>>, sep: Seq<char>, i: int) -> (r: (
    Seq<char>,
    Seq<char>,
))
    requires
        0 <= i < parts.len(),
    ensures
        text::joined(parts, sep) == r.0 + parts[i] + r.1,
    decreases parts.len(),
{
    if parts.len() == 1 {
        assert(text::joined(parts, sep) =~= Seq::<char>::empty() + parts[i] + Seq::<char>::empty());
        (Seq::empty(), Seq::empty())
    } else if i == parts.len() - 1 {
        let before = text::joined(parts.drop_last(), sep) + sep;
        assert(text::joined(parts, sep) =~= before + parts[i] + Seq::<char>::empty());
        (before, Seq::empty())
    } else {
        let (a, b) = lemma_joined_holds(parts.drop_last(), sep, i);
        let after = b + sep + parts.last();
        assert(text::joined(parts, sep) =~= a + parts[i] + after);
        (a, after)
    }
}

/// A test without flakiness control is run once, and what came of that counts.
pub proof fn one_attempt_counts<F: Fn(Option<Repeat>) -> AttemptResult>(
    attempt: F,
    r: AttemptResult,
)
    requires
        call_ensures(
            run::run_with_flakiness_control::<F>,
            (&FlakinessControl::NoControl, &attempt),
            r,
        ),
    ensures
        attempt.ensures((None,), r),
{
    let (announced, results) = lemma_history(FlakinessControl::NoControl, attempt, r);
    if results.len() > 1 {
        assert(run::is_repeated(FlakinessControl::NoControl, 0, results[0]));
    }
    assert(run::announces(FlakinessControl::NoControl, 0, announced[0]));
}

proof fn lemma_history<F: Fn(Option<Repeat>) -> AttemptResult>(
    control: FlakinessControl,
    attempt: F,
    r: AttemptResult,
) -> (h: (Seq<Option<Repeat>>, Seq<AttemptResult>))
    requires
        call_ensures(run::run_with_flakiness_control::<F>, (&control, &attempt), r),
    ensures
        run::attempts(control, attempt, h.0, h.1),
        run::is_attempt_history(control, h.1),
        r == run::verdict(h.1),
{
    choose|announced: Seq<Option<Repeat>>, results: Seq<AttemptResult>| #[trigger]
        run::attempts(control, attempt, announced, results) && run::is_attempt_history(
            control,
            results,
        ) && r == run::verdict(results)
}

/// What counts came of an attempt: a test whose attempts all end in one way ends in that way.
pub proof fn steady_test_keeps_its_result<F: Fn(Option<Repeat>) -> AttemptResult>(
    control: FlakinessControl,
    attempt: F,
    result: AttemptResult,
    r: AttemptResult,
)
    requires
        control != FlakinessControl::ProveNonFlaky(0),
        forall|announced: Option<Repeat>, x: AttemptResult| #[trigger]
            attempt.ensures((announced,), x) ==> x == result,
        call_ensures(run::run_with_flakiness_control::<F>, (&control, &attempt), r),
    ensures
        r == result,
{
    let (announced, results) = lemma_history(control, attempt, r);
    let last = results.len() - 1;
    assert(run::announces(control, last, announced[last]));
}

/// A test that has to prove that it is not flaky passes only if it was run as often as it asks for and
/// passed each time.
pub proof fn proof_takes_every_attempt<F: Fn(Option<Repeat>) -> AttemptResult>(
    tries: usize,
    attempt: F,
    r: AttemptResult,
    k: usize,
)
    requires
        call_ensures(
            run::run_with_flakiness_control::<F>,
            (&FlakinessControl::ProveNonFlaky(tries), &attempt),
            r,
        ),
        r matches Ok(Ok(_)),
        1 <= k <= tries,
    ensures
        exists|announced: Option<Repeat>|
            {
                &&& #[trigger] attempt.ensures((announced,), Ok(Ok(())))
                &&& if k == 1 {
                    announced is None
                } else {
                    announced matches Some(repeat) && repeat.attempt == k && repeat.max_attempts
                        == tries
                }
            },
{
    let control = FlakinessControl::ProveNonFlaky(tries);
    let (announced, results) = lemma_history(control, attempt, r);
    run::proven_test_passed_every_attempt(tries, results);
    let said = announced[k - 1];
    assert(run::announces(control, k - 1, said));
    assert(results[k - 1]->Ok_0->Ok_0 == ());
    assert(attempt.ensures((said,), results[k - 1]));
}

/// A test that has to prove itself fails as soon as an attempt does: what counts is an attempt that did
/// not pass.
pub proof fn failed_proof_counts<F: Fn(Option<Repeat>) -> AttemptResult>(
    control: FlakinessControl,
    attempt: F,
    r: AttemptResult,
)
    requires
        control != FlakinessControl::ProveNonFlaky(0),
        call_ensures(run::run_with_flakiness_control::<F>, (&control, &attempt), r),
    ensures
        exists|announced: Option<Repeat>| #[trigger] attempt.ensures((announced,), r),
{
    let (announced, results) = lemma_history(control, attempt, r);
    let last = results.len() - 1;
    assert(run::announces(control, last, announced[last]));
}

/// A test that is known to be flaky counts as panicked only if it was run as often as it may be and
/// panicked each time.
pub proof fn retry_takes_every_attempt<F: Fn(Option<Repeat>) -> AttemptResult>(
    max_retries: usize,
    attempt: F,
    r: AttemptResult,
    k: usize,
)
    requires
        call_ensures(
            run::run_with_flakiness_control::<F>,
            (&FlakinessControl::RetryKnownFlaky(max_retries), &attempt),
            r,
        ),
        r is Err,
        1 <= k,
        k == 1 || k <= max_retries,
    ensures
        exists|announced: Option<Repeat>, x: AttemptResult|
            {
                &&& #[trigger] attempt.ensures((announced,), x)
                &&& x is Err
                &&& if k == 1 {
                    announced is None
                } else {
                    announced matches Some(repeat) && repeat.attempt == k && repeat.max_attempts
                        == max_retries
                }
            },
{
    let control = FlakinessControl::RetryKnownFlaky(max_retries);
    let (announced, results) = lemma_history(control, attempt, r);
    run::retried_test_panicked_every_attempt(max_retries, results);
    let said = announced[k - 1];
    assert(run::announces(control, k - 1, said));
    assert(attempt.ensures((said,), results[k - 1]));
}

/// A run succeeds exactly if none of its tests failed.
pub proof fn run_succeeds_without_failures(results: Vec<(RegisteredTest, TestResult)>, r: u8)
    requires
        call_ensures(SuiteResult::exit_code, (&results,), r),
    ensures
        r == 0 <==> forall|i: int| 0 <= i < results@.len() ==> !((#[trigger] results@[i]).1 is Failed),
        r != 0 ==> r == 101,
{
}

/// One more result counts once, in the total of its kind, and it is not one that was filtered out.
pub proof fn result_counts_in_its_total(
    registered: Vec<RegisteredTest>,
    before: Vec<(RegisteredTest, TestResult)>,
    after: Vec<(RegisteredTest, TestResult)>,
    test: RegisteredTest,
    result: TestResult,
    exec_time: u64,
    a: SuiteResult,
    b: SuiteResult,
)
    requires
        after@ == before@.push((test, result)),
        call_ensures(SuiteResult::from_test_results, (&registered, &before, exec_time), a),
        call_ensures(SuiteResult::from_test_results, (&registered, &after, exec_time), b),
    ensures
        b.passed == a.passed + (if result is Passed { 1int } else { 0 }),
        b.failed == a.failed + (if result is Failed { 1int } else { 0 }),
        b.ignored == a.ignored + (if result is Ignored { 1int } else { 0 }),
        b.measured == a.measured + (if result is Benchmarked { 1int } else { 0 }),
        b.filtered_out == a.filtered_out - 1,
        b.exec_time == exec_time,
{
    reveal(Seq::filter);
    let (x, y) = (crate::results::outcomes(before@), crate::results::outcomes(after@));
    assert(y.drop_last() =~= x);
    assert(y.last() == result@.outcome);
}

/// Nothing counts where there are no results, and all registered tests were filtered out.
pub proof fn no_results_count_nothing(
    registered: Vec<RegisteredTest>,
    results: Vec<(RegisteredTest, TestResult)>,
    exec_time: u64,
    r: SuiteResult,
)
    requires
        results@.len() == 0,
        call_ensures(SuiteResult::from_test_results, (&registered, &results, exec_time), r),
    ensures
        r.passed == 0 && r.failed == 0 && r.ignored == 0 && r.measured == 0,
        r.filtered_out == registered@.len(),
{
    reveal(Seq::filter);
}

/// A process that makes one run ends with the exit code of that run.
pub proof fn single_run_decides<F: Fn(usize) -> u8>(run: F, r: u8)
    requires
        call_ensures(runner::run_with_retries::<F>, (None, &run), r),
    ensures
        run.ensures((0,), r),
{
    let codes = choose|codes: Seq<u8>| #[trigger]
        runner::may_run(run, codes) && runner::is_run_history(1, codes) && r
            == runner::final_exit_code(codes);
    runner::process_succeeds_with_a_run(1, codes);
}

/// A process that may make several runs succeeds only with a run that succeeds, and fails only if it
/// made all of them and each failed.
pub proof fn runs_are_repeated_until_one_succeeds<F: Fn(usize) -> u8>(
    retries: usize,
    run: F,
    r: u8,
    k: usize,
)
    requires
        k < retries,
        call_ensures(runner::run_with_retries::<F>, (Some(retries), &run), r),
    ensures
        exists|i: usize| i < retries && #[trigger] run.ensures((i,), r),
        r != 0 ==> exists|code: u8| #[trigger] run.ensures((k,), code) && code != 0,
{
    let codes = choose|codes: Seq<u8>| #[trigger]
        runner::may_run(run, codes) && runner::is_run_history(retries, codes) && r
            == runner::final_exit_code(codes);
    runner::process_succeeds_with_a_run(retries, codes);
    let last = codes.len() - 1;
    assert(codes[last] == r);
    assert(run.ensures((last as usize,), r));
    if r != 0 {
        assert(codes[k as int] != 0);
        assert(run.ensures((k,), codes[k as int]));
    }
}

/// What is shown of an error that a test returned is one of its renderings, and of a string the string
/// itself.
pub proof fn returned_error_is_shown(
    display: String,
    debug: String,
    kind: ErrorKind,
    cause: FailureCause,
    shown: String,
)
    requires
        call_ensures(FailureCause::from_error, (display, debug, kind), cause),
        call_ensures(FailureCause::render, (&cause,), shown),
    ensures
        kind == ErrorKind::Chain ==> shown@ == debug@,
        kind == ErrorKind::Message || kind == ErrorKind::Other ==> shown@ == display@,
{
}

/// What is shown of a panic begins with its message, and tells where it happened.
pub proof fn panic_is_shown(cause: PanicCause, shown: String)
    requires
        call_ensures(PanicCause::render, (&cause,), shown),
    ensures
        cause.message matches Some(message) ==> shown@.take(message@.len() as int) == message@,
        cause.location matches Some(location) ==> holds(shown@, location.file@),
        cause.backtrace matches Some(backtrace) ==> backtrace@ == "disabled backtrace"@ || holds(
            shown@,
            backtrace@,
        ),
{
    let start = match cause.message {
        Some(message) => message@,
        None => Seq::empty(),
    };
    let trace = PanicCause::rendered_backtrace(cause.backtrace);
    let place = PanicCause::rendered_location(cause.location);
    if let Some(message) = cause.message {
        assert(shown@.take(message@.len() as int) =~= message@);
    }
    if let Some(location) = cause.location {
        let rest = ":"@ + text::decimal(location.line as nat) + ":"@ + text::decimal(
            location.column as nat,
        ) + trace;
        assert(shown@ =~= (start + "\n  at "@) + location.file@ + rest);
        lemma_holds(shown@, start + "\n  at "@, location.file@, rest);
    }
    if let Some(backtrace) = cause.backtrace {
        if backtrace@.len() == 0 {
            assert(shown@ =~= shown@ + backtrace@ + Seq::empty());
            lemma_holds(shown@, shown@, backtrace@, Seq::empty());
        } else if backtrace@ != "disabled backtrace"@ {
            let before = start + place + "\n\nStack backtrace:\n"@;
            assert(shown@ =~= before + backtrace@ + Seq::empty());
            lemma_holds(shown@, before, backtrace@, Seq::empty());
        }
    }
}

/// A test that is known to be flaky is not run again once an attempt did not panic, and one that is to be
/// proven steady is not run again once an attempt failed: the first attempt then counts.
pub proof fn first_attempt_can_decide<F: Fn(Option<Repeat>) -> AttemptResult>(
    control: FlakinessControl,
    attempt: F,
    r: AttemptResult,
)
    requires
        call_ensures(run::run_with_flakiness_control::<F>, (&control, &attempt), r),
        match control {
            FlakinessControl::NoControl => true,
            FlakinessControl::RetryKnownFlaky(_) => forall|x: AttemptResult| #[trigger]
                attempt.ensures((None,), x) ==> x is Ok,
            FlakinessControl::ProveNonFlaky(tries) => tries > 0 && forall|x: AttemptResult|
                #[trigger]
                attempt.ensures((None,), x) ==> !(x matches Ok(Ok(_))),
        },
    ensures
        attempt.ensures((None,), r),
{
    let (announced, results) = lemma_history(control, attempt, r);
    assert(run::announces(control, 0, announced[0]));
    assert(attempt.ensures((announced[0],), results[0]));
    if results.len() > 1 {
        assert(run::is_repeated(control, 0, results[0]));
    }
}

/// A test that is known to be flaky passes if the attempt after one that panicked passes.
pub proof fn retried_test_can_pass<F: Fn(Option<Repeat>) -> AttemptResult>(
    max_retries: usize,
    attempt: F,
    r: AttemptResult,
)
    requires
        max_retries >= 2,
        call_ensures(
            run::run_with_flakiness_control::<F>,
            (&FlakinessControl::RetryKnownFlaky(max_retries), &attempt),
            r,
        ),
        forall|announced: Option<Repeat>, x: AttemptResult| #[trigger]
            attempt.ensures((announced,), x) && announced is Some ==> x matches Ok(Ok(_)),
        forall|x: AttemptResult| #[trigger]
            attempt.ensures((None,), x) ==> x is Err || x matches Ok(Ok(_)),
    ensures
        r matches Ok(Ok(_)),
{
    let control = FlakinessControl::RetryKnownFlaky(max_retries);
    let (announced, results) = lemma_history(control, attempt, r);
    let last = results.len() - 1;
    assert(run::announces(control, last, announced[last]));
    assert(attempt.ensures((announced[last],), results[last]));
    if last == 0 {
        assert(!run::is_repeated(control, 0, results[0]));
    }
}

} // verus!
