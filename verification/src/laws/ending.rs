//! What a worker process is told on its command line, and how one test is run from end to end.
use crate::args::{
    Arguments, ArgumentsModel, ColorSetting, FormatSetting, TimeThreshold, UnstableFlags,
};
use crate::args;
use crate::command_line;
use crate::internal::{
    DepScope, DetachedPanicPolicy, FlakinessControl, RegisteredTest, ShouldPanic,
};
use crate::output::style;
use crate::output::style::Paint;
use crate::results;
use crate::results::{PanicReport, Summary, TestResult};
use crate::sync::run;
use crate::sync::run::{AttemptResult, Ended, Repeat, TimedAttempt};
use crate::text;
use vstd::prelude::*;

verus! {

/// The option is among the arguments.
pub open spec fn says(r: Seq<String>, option: Seq<char>) -> bool {
    exists|i: int| 0 <= i < r.len() && (#[trigger] r[i])@ == option
}

/// The option is among the arguments, and this value directly behind it.
pub open spec fn says_value(r: Seq<String>, option: Seq<char>, value: Seq<char>) -> bool {
    exists|i: int|
        0 <= i < r.len() - 1 && (#[trigger] r[i])@ == option && r[i + 1]@ == value
}

proof fn lemma_part(a: ArgumentsModel, r: Seq<String>, k: int, j: int)
    requires
        text::views(r) == args::command_line(a),
        0 <= k < command_line::part_count(),
        0 <= j < command_line::part(a, k).len(),
    ensures
        0 <= command_line::start(a, k).len() + j < r.len(),
        r[command_line::start(a, k).len() + j]@ == command_line::part(a, k)[j],
        j + 1 < command_line::part(a, k).len() ==> command_line::start(a, k).len() + j + 1
            < r.len() && r[command_line::start(a, k).len() + j + 1]@ == command_line::part(
            a,
            k,
        )[j + 1],
{
    command_line::lemma_command_line(a);
    command_line::lemma_start_and_rest(a, k);
    let (start, part, rest) = (
        command_line::start(a, k),
        command_line::part(a, k),
        command_line::rest(a, k + 1),
    );
    let all = args::command_line(a);
    assert(all =~= start + (part + rest));
    assert(all[start.len() + j] == part[j]);
    assert(text::views(r)[start.len() + j] == r[start.len() + j]@);
    if j + 1 < part.len() {
        assert(all[start.len() + j + 1] == part[j + 1]);
        assert(text::views(r)[start.len() + j + 1] == r[start.len() + j + 1]@);
    }
}

proof fn lemma_flag(a: ArgumentsModel, r: Seq<String>, k: int)
    requires
        text::views(r) == args::command_line(a),
        0 <= k < command_line::part_count(),
        command_line::part(a, k) == seq![command_line::option_name(k)],
    ensures
        says(r, command_line::option_name(k)),
{
    lemma_part(a, r, k, 0);
    let i = command_line::start(a, k).len() as int;
    assert(r[i]@ == command_line::option_name(k));
}

proof fn lemma_value(a: ArgumentsModel, r: Seq<String>, k: int, value: Seq<char>)
    requires
        text::views(r) == args::command_line(a),
        0 <= k < command_line::part_count(),
        command_line::part(a, k) == seq![command_line::option_name(k), value],
    ensures
        says_value(r, command_line::option_name(k), value),
{
    lemma_part(a, r, k, 0);
    let i = command_line::start(a, k).len() as int;
    assert(r[i]@ == command_line::option_name(k) && r[i + 1]@ == value);
}

/// A worker process is told on its command line which tests its parent was asked to run, under the names
/// of the options that the user gives.
pub proof fn selection_is_passed_on(args: Arguments, r: Vec<String>)
    requires
        call_ensures(Arguments::to_args, (&args,), r),
    ensures
        args.include_ignored ==> says(r@, "--include-ignored"@),
        args.ignored ==> says(r@, "--ignored"@),
        args.exclude_should_panic ==> says(r@, "--exclude-should-panic"@),
        args.test ==> says(r@, "--test"@),
        args.bench ==> says(r@, "--bench"@),
        args.list ==> says(r@, "--list"@),
        args.exact ==> says(r@, "--exact"@),
        args.shuffle ==> says(r@, "--shuffle"@),
        args.spawn_workers ==> says(r@, "--spawn-workers"@),
{
    let a = args@;
    if args.include_ignored {
        lemma_flag(a, r@, 0);
    }
    if args.ignored {
        lemma_flag(a, r@, 1);
    }
    if args.exclude_should_panic {
        lemma_flag(a, r@, 2);
    }
    if args.test {
        lemma_flag(a, r@, 3);
    }
    if args.bench {
        lemma_flag(a, r@, 4);
    }
    if args.list {
        lemma_flag(a, r@, 5);
    }
    if args.exact {
        lemma_flag(a, r@, 11);
    }
    if args.shuffle {
        lemma_flag(a, r@, 18);
    }
    if args.spawn_workers {
        lemma_flag(a, r@, 22);
    }
}

/// The same of what is shown and how times are treated.
pub proof fn display_is_passed_on(args: Arguments, r: Vec<String>)
    requires
        call_ensures(Arguments::to_args, (&args,), r),
    ensures
        args.nocapture ==> says(r@, "--nocapture"@),
        args.quiet ==> says(r@, "--quiet"@),
        args.show_output ==> says(r@, "--show-output"@),
        args.report_time ==> says(r@, "--report-time"@),
        args.ensure_time ==> says(r@, "--ensure-time"@),
        args.color == Some(ColorSetting::Auto) ==> says_value(r@, "--color"@, "auto"@),
        args.color == Some(ColorSetting::Always) ==> says_value(r@, "--color"@, "always"@),
        args.color == Some(ColorSetting::Never) ==> says_value(r@, "--color"@, "never"@),
        args.format == Some(FormatSetting::Pretty) ==> says_value(r@, "--format"@, "pretty"@),
        args.format == Some(FormatSetting::Terse) ==> says_value(r@, "--format"@, "terse"@),
        args.format == Some(FormatSetting::Json) ==> says_value(r@, "--format"@, "json"@),
        args.format == Some(FormatSetting::Junit) ==> says_value(r@, "--format"@, "junit"@),
        args.format == Some(FormatSetting::Ctrf) ==> says_value(r@, "--format"@, "ctrf"@),
        args.unstable_flags == Some(UnstableFlags::UnstableOptions) ==> says_value(
            r@,
            "-Z"@,
            "unstable-options"@,
        ),
{
    let a = args@;
    if args.nocapture {
        lemma_flag(a, r@, 7);
    }
    if args.quiet {
        lemma_flag(a, r@, 10);
    }
    if args.show_output {
        lemma_flag(a, r@, 14);
    }
    if args.report_time {
        lemma_flag(a, r@, 16);
    }
    if args.ensure_time {
        lemma_flag(a, r@, 17);
    }
    if args.color is Some {
        lemma_value(a, r@, 12, command_line::value_at(a, 12)->0);
    }
    if args.format is Some {
        lemma_value(a, r@, 13, command_line::value_at(a, 13)->0);
    }
    if args.unstable_flags is Some {
        lemma_value(a, r@, 15, command_line::value_at(a, 15)->0);
    }
}

/// The same of what comes with a value. `d` is the number in decimal notation.
pub proof fn values_are_passed_on(args: Arguments, r: Vec<String>, n: usize, d: String)
    requires
        call_ensures(Arguments::to_args, (&args,), r),
        call_ensures(text::decimal_u64, (n as u64,), d),
    ensures
        args.logfile matches Some(file) ==> says_value(r@, "--logfile"@, file@),
        args.ipc matches Some(socket) ==> says_value(r@, "--ipc"@, socket@),
        args.test_threads == Some(n) ==> says_value(r@, "--test-threads"@, d@),
        args.shuffle_seed == Some(n as u64) ==> says_value(r@, "--shuffle-seed"@, d@),
        args.worker_index == Some(n) ==> says_value(r@, "--worker-index"@, d@),
        args.flaky_run == Some(n) ==> says_value(r@, "--flaky-run"@, d@),
        forall|i: int| 0 <= i < args.filter@.len() ==> says(r@, (#[trigger] args.filter@[i])@),
        forall|i: int|
            0 <= i < args.skip@.len() ==> says_value(
                r@,
                "--skip"@,
                (#[trigger] args.skip@[i])@,
            ),
{
    let a = args@;
    if args.logfile is Some {
        lemma_value(a, r@, 6, args.logfile->0@);
    }
    if args.ipc is Some {
        lemma_value(a, r@, 21, args.ipc->0@);
    }
    if args.test_threads == Some(n) {
        lemma_value(a, r@, 8, d@);
    }
    if args.shuffle_seed == Some(n as u64) {
        lemma_value(a, r@, 19, d@);
    }
    if args.worker_index == Some(n) {
        lemma_value(a, r@, 23, d@);
    }
    if args.flaky_run == Some(n) {
        lemma_value(a, r@, 24, d@);
    }
    assert forall|i: int| 0 <= i < args.filter@.len() implies says(
        r@,
        (#[trigger] args.filter@[i])@,
    ) by {
        let k = command_line::filter_place();
        assert(a.filter[i] == args.filter@[i]@);
        lemma_part(a, r@, k, i);
        assert(r@[command_line::start(a, k).len() + i]@ == args.filter@[i]@);
    }
    assert forall|i: int| 0 <= i < args.skip@.len() implies says_value(
        r@,
        "--skip"@,
        (#[trigger] args.skip@[i])@,
    ) by {
        lemma_repeated("--skip"@, a.skip, i);
        assert(a.skip[i] == args.skip@[i]@);
        lemma_part(a, r@, 9, 2 * i);
        let at = command_line::start(a, 9).len() + 2 * i;
        assert(r@[at]@ == "--skip"@ && r@[at + 1]@ == args.skip@[i]@);
    }
}

proof fn lemma_repeated(flag: Seq<char>, values: Seq<Seq<char>>, i: int)
    requires
        0 <= i < values.len(),
    ensures
        args::repeated_args(flag, values).len() == 2 * values.len(),
        args::repeated_args(flag, values)[2 * i] == flag,
        args::repeated_args(flag, values)[2 * i + 1] == values[i],
    decreases values.len(),
{
    let init = values.drop_last();
    if values.len() > 1 {
        lemma_repeated(
            flag,
            init,
            if i < init.len() {
                i
            } else {
                0
            },
        );
    } else {
        assert(init.len() == 0);
        assert(args::repeated_args(flag, init) =~= Seq::empty());
    }
}

/// Two processes that are told the same were asked for the same, if their filters can be told from
/// options.
pub proof fn different_arguments_look_different(
    a: Arguments,
    b: Arguments,
    told_a: Vec<String>,
    told_b: Vec<String>,
)
    requires
        call_ensures(Arguments::to_args, (&a,), told_a),
        call_ensures(Arguments::to_args, (&b,), told_b),
        forall|i: int|
            0 <= i < a.filter@.len() ==> (#[trigger] a.filter@[i])@.len() == 0 || a.filter@[i]@[0]
                != '-',
        forall|i: int|
            0 <= i < b.filter@.len() ==> (#[trigger] b.filter@[i])@.len() == 0 || b.filter@[i]@[0]
                != '-',
        told_a@.len() == told_b@.len(),
        forall|i: int| 0 <= i < told_a@.len() ==> (#[trigger] told_a@[i])@ == told_b@[i]@,
    ensures
        a@ == b@,
{
    assert forall|i: int| 0 <= i < told_a@.len() implies text::views(told_a@)[i] == text::views(
        told_b@,
    )[i] by {
        assert(told_a@[i]@ == told_b@[i]@);
    }
    assert(text::views(told_a@) =~= text::views(told_b@));
    assert forall|i: int| 0 <= i < a@.filter.len() implies command_line::is_plain(
        #[trigger] a@.filter[i],
    ) by {
        assert(a@.filter[i] == a.filter@[i]@);
    }
    assert forall|i: int| 0 <= i < b@.filter.len() implies command_line::is_plain(
        #[trigger] b@.filter[i],
    ) by {
        assert(b@.filter[i] == b.filter@[i]@);
    }
    command_line::command_line_tells_the_arguments(a@, b@);
}

/// A test that does what is expected of it in every attempt passes, if it takes no longer than it may and
/// none of its tasks panics.
pub proof fn good_test_passes<F: Fn(Option<Repeat>) -> TimedAttempt, G: Fn() -> Ended>(
    test: RegisteredTest,
    limits: Option<TimeThreshold>,
    attempt: F,
    ended: G,
    r: TestResult,
)
    requires
        call_ensures(run::run_sync_test_function::<F, G>, (&test, limits, &attempt, &ended), r),
        test.props.should_panic == ShouldPanic::No,
        forall|announced: Option<Repeat>, timed: TimedAttempt| #[trigger]
            attempt.ensures((announced,), timed) ==> (
            timed.result matches Ok(returned) && returned is Ok) && (limits matches Some(l) ==> timed.elapsed < l.critical),
        test.props.detached_panic_policy == DetachedPanicPolicy::Ignore || forall|end: Ended|
            #[trigger] ended.ensures((), end) ==> end.detached@.len() == 0,
    ensures
        r is Passed,
{
    let (announced, results, end, plain) = lemma_run(test, limits, attempt, ended, r);
    if results.len() > 0 {
        let last = results.len() - 1;
        assert(run::may_count(attempt, limits, announced[last], results[last]));
    }
}

proof fn lemma_run<F: Fn(Option<Repeat>) -> TimedAttempt, G: Fn() -> Ended>(
    test: RegisteredTest,
    limits: Option<TimeThreshold>,
    attempt: F,
    ended: G,
    r: TestResult,
) -> (w: (Seq<Option<Repeat>>, Seq<AttemptResult>, Ended, TestResult))
    requires
        call_ensures(run::run_sync_test_function::<F, G>, (&test, limits, &attempt, &ended), r),
    ensures
        run::is_timed_run(test.props.flakiness_control, attempt, limits, w.0, w.1),
        forall|i: int|
            0 <= i < w.1.len() ==> run::may_count(attempt, limits, w.0[i], #[trigger] w.1[i]),
        ended.ensures((), w.2),
        w.3@.captured.len() == 0,
        results::is_result_of(
            test.props.should_panic,
            w.2.exec_time,
            run::verdict(w.1),
            w.3@.outcome,
        ),
        run::is_settled(w.3, test.props.detached_panic_policy, w.2, r),
{
    let (announced, results, end, plain) = choose|
        announced: Seq<Option<Repeat>>,
        results: Seq<AttemptResult>,
        end: Ended,
        plain: TestResult,
    |
        #![trigger run::is_timed_run(test.props.flakiness_control, attempt, limits, announced, results), run::is_settled(plain, test.props.detached_panic_policy, end, r)]
        {
            &&& run::is_timed_run(
                test.props.flakiness_control,
                attempt,
                limits,
                announced,
                results,
            )
            &&& ended.ensures((), end)
            &&& plain@.captured.len() == 0
            &&& results::is_result_of(
                test.props.should_panic,
                end.exec_time,
                run::verdict(results),
                plain@.outcome,
            )
            &&& run::is_settled(plain, test.props.detached_panic_policy, end, r)
        };
    assert forall|i: int| 0 <= i < results.len() implies run::may_count(
        attempt,
        limits,
        announced[i],
        #[trigger] results[i],
    ) by {
        assert(run::announces(test.props.flakiness_control, i, announced[i]));
    }
    (announced, results, end, plain)
}

/// A test that panics, returns an error or takes too long in every attempt fails, where it is not expected
/// to panic and is attempted at all.
pub proof fn bad_test_fails<F: Fn(Option<Repeat>) -> TimedAttempt, G: Fn() -> Ended>(
    test: RegisteredTest,
    limits: Option<TimeThreshold>,
    attempt: F,
    ended: G,
    r: TestResult,
)
    requires
        call_ensures(run::run_sync_test_function::<F, G>, (&test, limits, &attempt, &ended), r),
        test.props.should_panic == ShouldPanic::No,
        test.props.flakiness_control != FlakinessControl::ProveNonFlaky(0),
        forall|announced: Option<Repeat>, timed: TimedAttempt| #[trigger]
            attempt.ensures((announced,), timed) ==> timed.result is Err || (
            timed.result matches Ok(returned) && returned is Err) || (limits matches Some(l)
                && timed.elapsed >= l.critical),
    ensures
        r is Failed,
{
    let (announced, results, end, plain) = lemma_run(test, limits, attempt, ended, r);
    let last = results.len() - 1;
    assert(run::may_count(attempt, limits, announced[last], results[last]));
}

/// A test that passes fails after all where one of its tasks has panicked and that is to count.
pub proof fn panicked_task_counts<F: Fn(Option<Repeat>) -> TimedAttempt, G: Fn() -> Ended>(
    test: RegisteredTest,
    limits: Option<TimeThreshold>,
    attempt: F,
    ended: G,
    r: TestResult,
)
    requires
        call_ensures(run::run_sync_test_function::<F, G>, (&test, limits, &attempt, &ended), r),
        test.props.detached_panic_policy == DetachedPanicPolicy::FailTest,
        forall|end: Ended| #[trigger] ended.ensures((), end) ==> end.detached@.len() > 0,
    ensures
        r is Failed,
{
    let (announced, results, end, plain) = lemma_run(test, limits, attempt, ended, r);
}

/// A test that is expected to panic, with whatever message, passes if it panics in every attempt, and fails
/// if it never does.
pub proof fn expected_panic_passes<F: Fn(Option<Repeat>) -> TimedAttempt, G: Fn() -> Ended>(
    test: RegisteredTest,
    limits: Option<TimeThreshold>,
    attempt: F,
    ended: G,
    r: TestResult,
)
    requires
        call_ensures(run::run_sync_test_function::<F, G>, (&test, limits, &attempt, &ended), r),
        test.props.should_panic == ShouldPanic::Yes,
        test.props.flakiness_control != FlakinessControl::ProveNonFlaky(0),
        test.props.detached_panic_policy == DetachedPanicPolicy::Ignore,
    ensures
        (forall|announced: Option<Repeat>, timed: TimedAttempt| #[trigger]
            attempt.ensures((announced,), timed) ==> timed.result is Err) ==> r is Passed,
        (forall|announced: Option<Repeat>, timed: TimedAttempt| #[trigger]
            attempt.ensures((announced,), timed) ==> timed.result is Ok) ==> r is Failed,
{
    let (announced, results, end, plain) = lemma_run(test, limits, attempt, ended, r);
    let last = results.len() - 1;
    assert(run::may_count(attempt, limits, announced[last], results[last]));
}

/// A benchmark that was measured is shown with what was measured, and one that panicked without being
/// expected to has failed.
pub proof fn benchmark_is_settled(
    test: RegisteredTest,
    measured: Result<Summary, PanicReport>,
    bytes: u64,
    end: Ended,
    r: TestResult,
)
    requires
        call_ensures(run::settle_bench, (&test, measured, bytes, end), r),
        test.props.should_panic == ShouldPanic::No,
    ensures
        measured matches Ok(summary) ==> (r matches TestResult::Benchmarked {
            ns_iter_summ,
            exec_time,
            ..
        } && ns_iter_summ == summary && exec_time == end.exec_time),
        measured is Err ==> r is Failed,
{
}

/// Only shared dependencies take a single thread, and the parent makes the value of those that it hands
/// to its workers in some way.
pub proof fn scopes_differ(scope: DepScope, single: bool, by_parent: bool)
    requires
        call_ensures(DepScope::requires_single_thread_when_capturing, (&scope,), single),
        call_ensures(DepScope::parent_must_materialize_under_spawn_workers, (&scope,), by_parent),
    ensures
        single <==> scope == DepScope::Shared,
        scope == DepScope::Shared || scope == DepScope::PerWorker ==> !by_parent,
        scope == DepScope::Cloneable || scope == DepScope::Hosted || scope == DepScope::HostedRpc
            ==> by_parent,
{
}

/// What failed is red and bold, what went well is green, and the two other outcomes look like neither.
pub proof fn looks_tell_outcomes_apart(ok: Paint, failed: Paint, ignored: Paint, bench: Paint)
    requires
        call_ensures(style::style_ok, (), ok),
        call_ensures(style::style_failed, (), failed),
        call_ensures(style::style_ignored, (), ignored),
        call_ensures(style::style_bench, (), bench),
    ensures
        failed.color == 1 && failed.bold,
        ok.color == 2,
        ignored.color != ok.color && ignored.color != failed.color,
        bench.color != ok.color && bench.color != failed.color && bench.color != ignored.color,
{
}

/// Where nothing is configured, a unit test may take a tenth of a second and an integration test a second;
/// half of that deserves a warning.
pub proof fn limits_without_configuration(
    args: Arguments,
    unit: TimeThreshold,
    integration: TimeThreshold,
)
    requires
        call_ensures(Arguments::unit_test_threshold, (&args, None::<TimeThreshold>), unit),
        call_ensures(
            Arguments::integration_test_threshold,
            (&args, None::<TimeThreshold>),
            integration,
        ),
    ensures
        unit.critical == 100_000_000,
        integration.critical == 1_000_000_000,
        unit.warn + unit.warn == unit.critical,
        integration.warn + integration.warn == integration.critical,
{
}

} // verus!
