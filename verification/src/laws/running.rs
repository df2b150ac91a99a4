//! How a run is carried out: its arguments, its threads, and the two ends of a connection.
use super::words::{holds, lemma_holds};
use crate::args::{Arguments, ArgumentsModel, ThresholdError, TimeThreshold};
use crate::execution::suite::{TestExecution, TestSuiteExecution};
use crate::execution::values::DependencyMap;
use crate::hosted::{HostedRpcDispatcher, HostedRpcError, HostedRpcOwnerCell};
use crate::internal::{CaptureControl, HostId, RegisteredDependency, RegisteredTest};
use crate::ipc::{IpcCommand, IpcResponse, SerializableTestResult};
use crate::results;
use crate::results::{CapturedOutput, TestResult};
use crate::sync::runner;
use crate::sync::thread::{RunMode, TestThread, ThreadStep};
use crate::sync::wire::WireCodec;
use crate::sync::worker;
use crate::sync::worker::{IpcHostedRpcTransport, ProvideStep, RpcCall, RunStep};
use crate::text;
use std::sync::Arc;
use vstd::prelude::*;

verus! {

/// A worker process runs its tests on one thread; any other process on as many as the user asks for,
/// else on as many as the machine offers, and on one where that is not known.
pub proof fn threads_of_a_run(args: Arguments, available: Option<usize>, r: usize)
    requires
        call_ensures(Arguments::test_threads, (&args, available), r),
    ensures
        r >= 1,
        args.ipc is Some ==> r == 1,
        args.ipc is None && args.test_threads is Some && args.test_threads->0 > 0 ==> r
            == args.test_threads->0,
        args.ipc is None && args.test_threads is None && available is Some && available->0 > 0
            ==> r == available->0,
        args.ipc is None && args.test_threads is None && available is None ==> r == 1,
        args.ipc is None && args.test_threads == Some(0usize) && available is Some && available->0 > 0
            ==> r == available->0,
{
}

/// Capturing output takes worker processes, and `Shared` dependencies then take a single thread, which
/// the user is told where there were to be more. Where output is not captured, and in a worker process,
/// nothing is changed.
pub proof fn capturing_takes_workers<V>(
    before: Arguments,
    after: Arguments,
    plan: TestSuiteExecution<V>,
    available: Option<usize>,
    warning: Option<String>,
    has_shared: bool,
    wanted: usize,
    threads: usize,
)
    requires
        exists|args: &mut Arguments|
            *args == before && *final(args) == after && #[trigger] call_ensures(
                Arguments::finalize_for_execution::<V>,
                (args, &plan, available),
                warning,
            ),
        call_ensures(TestSuiteExecution::<V>::has_shared_dependencies, (&plan,), has_shared),
        call_ensures(Arguments::test_threads, (&before, available), wanted),
        call_ensures(Arguments::test_threads, (&after, available), threads),
    ensures
        before.nocapture || before.ipc is Some ==> after@ == before@ && warning is None,
        !before.nocapture && before.ipc is None ==> after.spawn_workers,
        !before.nocapture && before.ipc is None && has_shared ==> threads == 1,
        !has_shared ==> threads == wanted && warning is None,
        warning is Some <==> !before.nocapture && before.ipc is None && has_shared && wanted > 1,
        after@ == (ArgumentsModel {
            spawn_workers: after.spawn_workers,
            test_threads: after.test_threads,
            ..before@
        }),
{
    let args = choose|args: &mut Arguments|
        *args == before && *final(args) == after && #[trigger] call_ensures(
            Arguments::finalize_for_execution::<V>,
            (args, &plan, available),
            warning,
        );
    assert(after@ == Arguments::finalized(before@, has_shared, available));
    assert(warning is Some <==> text::opt_view(warning) is Some);
}

/// A worker process is driven over the socket, starts no workers and writes no log file, and is told
/// everything else that the user asked for.
pub proof fn worker_is_told_the_arguments(args: Arguments, socket: String, r: Arguments)
    requires
        call_ensures(Arguments::worker_arguments, (&args, socket), r),
    ensures
        r.ipc is Some,
        r.ipc->0@ == socket@,
        !r.spawn_workers,
        r.logfile is None,
        r@.filter == args@.filter,
        r@.skip == args@.skip,
        r.exact == args.exact,
        r.test == args.test,
        r.bench == args.bench,
        r.ignored == args.ignored,
        r.include_ignored == args.include_ignored,
        r.exclude_should_panic == args.exclude_should_panic,
        r.shuffle_seed == args.shuffle_seed,
        r.nocapture == args.nocapture,
        r.ensure_time == args.ensure_time,
{
    assert(r@.ipc == Some(socket@));
}

/// A thread that drives a worker process tells it which one it is.
pub proof fn worker_is_told_its_number(args: Arguments, idx: usize, r: Arguments)
    requires
        call_ensures(runner::thread_arguments, (&args, idx), r),
    ensures
        args.spawn_workers ==> r.worker_index == Some(idx),
        !args.spawn_workers ==> r.worker_index == args.worker_index,
        r.ipc is Some <==> args.ipc is Some,
        r.spawn_workers == args.spawn_workers,
        r@ == (ArgumentsModel { worker_index: r.worker_index, ..args@ }),
{
    assert(r@.ipc is Some <==> args@.ipc is Some);
}

/// The order of the tests is fixed by a seed where a random one is asked for: the seed that the user
/// gives, else the one that was drawn. Otherwise they run as they were registered.
pub proof fn seed_fixes_the_order(before: Arguments, after: Arguments, drawn: u64)
    requires
        exists|args: &mut Arguments|
            *args == before && *final(args) == after && #[trigger] call_ensures(
                Arguments::fix_order,
                (args, drawn),
                (),
            ),
    ensures
        before.shuffle_seed is Some ==> after.shuffle_seed == before.shuffle_seed,
        before.shuffle_seed is None && before.shuffle ==> after.shuffle_seed == Some(drawn),
        before.shuffle_seed is None && !before.shuffle ==> after.shuffle_seed is None,
        after@ == (ArgumentsModel {
            shuffle: false,
            shuffle_seed: after.shuffle_seed,
            ..before@
        }),
{
    assert(after@ == Arguments::ordered(before@, drawn));
}

/// A limit that is written as two numbers of milliseconds is read as that, if the first is not above the
/// second.
pub proof fn written_limits_are_read(
    warn: u64,
    critical: u64,
    a: String,
    b: String,
    value: &str,
    r: Result<Option<TimeThreshold>, ThresholdError>,
)
    requires
        call_ensures(text::decimal_u64, (warn,), a),
        call_ensures(text::decimal_u64, (critical,), b),
        value@ == a@ + seq![','] + b@,
        call_ensures(TimeThreshold::from_env_var, (Some(value),), r),
    ensures
        warn <= critical ==> (r matches Ok(Some(limits)) && limits.warn == warn * 1_000_000
            && limits.critical == critical * 1_000_000),
        warn > critical ==> r is Err,
{
    text::decimal_reads_back(warn as nat);
    text::decimal_reads_back(critical as nat);
    assert(!a@.contains(',')) by {
        if a@.contains(',') {
            let i = a@.index_of(',');
            assert(text::is_digit(a@[i]));
        }
    }
    lemma_split(a@, ',', b@);
}

proof fn lemma_split(a: Seq<char>, sep: char, b: Seq<char>)
    requires
        !a.contains(sep),
    ensures
        text::split_at_first(a + seq![sep] + b, sep) == Some((a, b)),
{
    let s = a + seq![sep] + b;
    lemma_position(a, sep, b);
    let i = text::position(s, sep);
    assert(s.take(i) =~= a);
    assert(s.skip(i + 1) =~= b);
}

proof fn lemma_position(a: Seq<char>, sep: char, b: Seq<char>)
    requires
        !a.contains(sep),
    ensures
        text::position(a + seq![sep] + b, sep) == a.len(),
    decreases a.len(),
{
    let s = a + seq![sep] + b;
    if a.len() > 0 {
        assert(s[0] == a[0]);
        assert(a.contains(a[0]));
        let rest = a.skip(1);
        assert(!rest.contains(sep)) by {
            if rest.contains(sep) {
                let i = rest.index_of(sep);
                assert(a[i + 1] == sep);
            }
        }
        lemma_position(rest, sep, b);
        assert(s.skip(1) =~= rest + seq![sep] + b);
    }
}

/// A variable that is not set gives no limits, and one without a comma is refused.
pub proof fn unusable_limits_are_refused(
    value: Option<&str>,
    r: Result<Option<TimeThreshold>, ThresholdError>,
)
    requires
        call_ensures(TimeThreshold::from_env_var, (value,), r),
    ensures
        value is None ==> r == Ok::<Option<TimeThreshold>, ThresholdError>(None),
        value matches Some(v) && !v@.contains(',') ==> r is Err,
{
    if let Some(v) = value {
        if !v@.contains(',') {
            lemma_no_position(v@, ',');
        }
    }
}

proof fn lemma_no_position(s: Seq<char>, sep: char)
    requires
        !s.contains(sep),
    ensures
        text::position(s, sep) == s.len(),
    decreases s.len(),
{
    if s.len() > 0 {
        assert(s.contains(s[0]));
        let rest = s.skip(1);
        assert(!rest.contains(sep)) by {
            if rest.contains(sep) {
                let i = rest.index_of(sep);
                assert(s[i + 1] == sep);
            }
        }
        lemma_no_position(rest, sep);
    }
}

/// A time is critical from the critical time on, and deserves a warning from the warn time on.
pub proof fn limits_begin_where_they_say(limits: TimeThreshold, time: u128, c: bool, w: bool)
    requires
        call_ensures(TimeThreshold::is_critical, (&limits, time), c),
        call_ensures(TimeThreshold::is_warn, (&limits, time), w),
    ensures
        c <==> limits.critical <= time,
        w <==> limits.warn <= time,
{
}

/// A thread runs the test that it was given, in its worker process if it has one. A test that is marked
/// as ignored is run only where the user asks for such tests. A worker runs only the test that its
/// parent named, and then expects another one to be named.
pub proof fn thread_runs_what_it_should<V, F: Fn(&RegisteredDependency, &DependencyMap<V>) -> Arc<V>>(
    before: TestThread,
    after: TestThread,
    plan: TestSuiteExecution<V>,
    construct: F,
    next: TestExecution<V>,
    mode: RunMode,
)
    requires
        exists|thread: &mut TestThread, execution: &mut TestSuiteExecution<V>|
            *thread == before && *final(thread) == after && *execution == plan
                && #[trigger] call_ensures(
                TestThread::next_step::<V, F>,
                (thread, execution, &construct),
                ThreadStep::Run { next, mode },
            ),
    ensures
        !before.ignored && next.test.props.is_ignored ==> (mode == RunMode::Ignored
            <==> !before.include_ignored),
        before.ignored && next.test.props.is_ignored ==> mode != RunMode::Ignored,
        !before.ignored && !next.test.props.is_ignored ==> mode != RunMode::Ignored,
        mode != RunMode::Ignored ==> (mode == RunMode::InWorker <==> before.has_worker),
        before.expected matches Some(expected) ==> next.test.name@ == expected.name@
            && next.test.crate_name@ == expected.crate_name@ && next.test.module@
            == expected.module@,
        before.connected ==> before.expected is Some,
        after.expected is None,
        after.results == before.results,
{
}

/// A thread is done exactly if nothing is left to hand out, and the thread of a worker process reads a
/// command where no test has been named.
pub proof fn thread_ends_when_nothing_is_left<
    V,
    F: Fn(&RegisteredDependency, &DependencyMap<V>) -> Arc<V>,
>(
    before: TestThread,
    plan: TestSuiteExecution<V>,
    construct: F,
    step: ThreadStep<V>,
    left: usize,
)
    requires
        plan.wf(),
        exists|thread: &mut TestThread, execution: &mut TestSuiteExecution<V>|
            *thread == before && *execution == plan && #[trigger] call_ensures(
                TestThread::next_step::<V, F>,
                (thread, execution, &construct),
                step,
            ),
        call_ensures(TestSuiteExecution::<V>::remaining, (&plan,), left),
    ensures
        step is Done <==> left == 0,
        step is ReadCommand <==> left > 0 && before.connected && before.expected is None,
{
}

/// A test that was run has its result among those of its thread, and a worker process tells it to its
/// parent; the parent makes of that a result of the same kind, after the same time, with the same failure.
pub proof fn result_is_noted_and_told<V>(
    before: TestThread,
    after: TestThread,
    plan: TestSuiteExecution<V>,
    next: TestExecution<V>,
    result: TestResult,
    marker: &str,
    told: Option<IpcResponse>,
    message: Option<String>,
)
    requires
        exists|thread: &mut TestThread, execution: &mut TestSuiteExecution<V>|
            *thread == before && *final(thread) == after && *execution == plan
                && #[trigger] call_ensures(
                TestThread::finished::<V>,
                (thread, execution, next, result, marker),
                told,
            ),
        call_ensures(TestResult::failure_message, (&result,), message),
    ensures
        after.results@.len() == before.results@.len() + 1,
        forall|i: int| 0 <= i < before.results@.len() ==> #[trigger] after.results@[i]
            == before.results@[i],
        after.results@.last().0@ == next.test@,
        after.results@.last().1 == result,
        told is Some <==> before.connected,
        told matches Some(response) ==> {
            &&& response matches IpcResponse::TestFinished { result: sent, finish_marker }
            &&& finish_marker@ == marker@
            &&& match (result, sent) {
                (
                    TestResult::Passed { exec_time, .. },
                    SerializableTestResult::Passed { exec_time: t },
                ) => t == exec_time,
                (
                    TestResult::Failed { exec_time, .. },
                    SerializableTestResult::Failed { exec_time: t, rendered_failure_cause },
                ) => t == exec_time && message is Some && rendered_failure_cause@ == message->0@,
                (
                    TestResult::Benchmarked { exec_time, ns_iter_summ, mb_s, .. },
                    SerializableTestResult::Benchmarked {
                        exec_time: t,
                        ns_iter_summ: s,
                        mb_s: m,
                    },
                ) => t == exec_time && s == ns_iter_summ && m == mb_s,
                (TestResult::Ignored { .. }, SerializableTestResult::Ignored) => true,
                _ => false,
            }
        },
{
    assert forall|i: int| 0 <= i < before.results@.len() implies #[trigger] after.results@[i]
        == before.results@[i] by {
        assert(after.results@.drop_last()[i] == after.results@[i]);
    }
}

/// The parent makes of what a worker tells it a result of the same kind. The lines that were captured
/// are those of both streams, in the order of their times, and none where output is not captured.
pub proof fn told_result_is_received(
    nocapture: bool,
    test: RegisteredTest,
    sent: SerializableTestResult,
    out_lines: Vec<CapturedOutput>,
    err_lines: Vec<CapturedOutput>,
    r: TestResult,
    captured: Vec<CapturedOutput>,
    message: Option<String>,
    i: int,
    j: int,
)
    requires
        call_ensures(worker::worker_test_result, (nocapture, &test, sent, out_lines, err_lines), r),
        call_ensures(TestResult::captured_output, (&r,), &captured),
        call_ensures(TestResult::failure_message, (&r,), message),
    ensures
        match (r, sent) {
            (
                TestResult::Passed { exec_time, .. },
                SerializableTestResult::Passed { exec_time: t },
            ) => t == exec_time,
            (
                TestResult::Failed { exec_time, .. },
                SerializableTestResult::Failed { exec_time: t, rendered_failure_cause },
            ) => t == exec_time && message is Some && message->0@ == rendered_failure_cause@,
            (
                TestResult::Benchmarked { exec_time, .. },
                SerializableTestResult::Benchmarked { exec_time: t, .. },
            ) => t == exec_time,
            (TestResult::Ignored { .. }, SerializableTestResult::Ignored) => true,
            _ => false,
        },
        ({
            let is_captured = test.props.capture_control == CaptureControl::AlwaysCapture || (
            test.props.capture_control == CaptureControl::Default && !nocapture);
            &&& !is_captured ==> captured@.len() == 0
            &&& is_captured ==> captured@.len() == out_lines@.len() + err_lines@.len()
            &&& is_captured && 0 <= i < out_lines@.len() ==> captured@.contains(out_lines@[i])
            &&& is_captured && 0 <= i < err_lines@.len() ==> captured@.contains(err_lines@[i])
            &&& is_captured && 0 <= i < j < captured@.len() ==> time_of(captured@[i]) <= time_of(
                captured@[j],
            )
        }),
{
    let all = out_lines@ + err_lines@;
    results::sorting_is_stable(all);
    if 0 <= i < out_lines@.len() {
        assert(all[i] == out_lines@[i]);
        results::sorting_keeps_lines(all, out_lines@[i]);
    }
    if 0 <= i < err_lines@.len() {
        assert(all[out_lines@.len() + i] == err_lines@[i]);
        results::sorting_keeps_lines(all, err_lines@[i]);
    }
    if 0 <= i < j < captured@.len() {
        assert(captured@[i].spec_timestamp() == time_of(captured@[i]));
        assert(captured@[j].spec_timestamp() == time_of(captured@[j]));
    }
}

/// When the line was written.
pub open spec fn time_of(line: CapturedOutput) -> u64 {
    match line {
        CapturedOutput::Stdout { timestamp, .. } => timestamp,
        CapturedOutput::Stderr { timestamp, .. } => timestamp,
        CapturedOutput::Host { timestamp, .. } => timestamp,
    }
}

/// The test that the parent commands is the one that the worker then expects.
pub proof fn commanded_test_is_expected<V, F: Fn(HostId, HostId, &Vec<u8>) -> Arc<V>>(
    test: RegisteredTest,
    command: IpcCommand,
    before: TestThread,
    after: TestThread,
    plan: TestSuiteExecution<V>,
    then: TestSuiteExecution<V>,
    codecs: Vec<(String, WireCodec)>,
    rebuild: F,
    r: Result<Option<IpcResponse>, String>,
)
    requires
        call_ensures(worker::run_test_command, (&test,), command),
        exists|thread: &mut TestThread, execution: &mut TestSuiteExecution<V>|
            *thread == before && *final(thread) == after && *execution == plan && *final(execution)
                == then && #[trigger] call_ensures(
                TestThread::on_command::<V, F>,
                (thread, execution, &codecs, command, &rebuild),
                r,
            ),
    ensures
        r is Ok,
        after.expected matches Some(expected) && expected.name@ == test.name@ && expected.crate_name@
            == test.crate_name@ && expected.module@ == test.module@,
        after.results == before.results,
        then == plan,
{
}

/// While a test runs, only the word that it has finished ends the waiting, and every call of the worker
/// is answered.
pub proof fn parent_waits_for_the_test(response: IpcResponse, r: RunStep)
    requires
        call_ensures(worker::on_response_while_running, (response,), r),
    ensures
        r is Finished <==> response is TestFinished,
        r is Answer <==> response is HostedRpcCall,
        r matches RunStep::Finished { result, finish_marker } ==> response == (
        IpcResponse::TestFinished { result, finish_marker }),
        r matches RunStep::Answer(call) ==> response == (IpcResponse::HostedRpcCall {
            request_id: call.request_id,
            dep_id: call.dep_id,
            method_idx: call.method_idx,
            args_bytes: call.args_bytes,
        }),
{
}

/// While a value is provided, only the word that this value was accepted ends the waiting, and every
/// call of the worker is answered.
pub proof fn parent_waits_for_its_value(
    dep_id: &str,
    response: IpcResponse,
    value: ProvideStep,
    descriptor: ProvideStep,
)
    requires
        call_ensures(
            worker::on_response_while_providing_cloneable,
            (dep_id, response),
            value,
        ),
        call_ensures(
            worker::on_response_while_providing_hosted_descriptor,
            (dep_id, response),
            descriptor,
        ),
    ensures
        value is Accepted <==> (response matches IpcResponse::CloneableAccepted { dep_id: d } && d@
            == dep_id@),
        descriptor is Accepted <==> (response matches IpcResponse::HostedDescriptorAccepted {
            dep_id: d,
        } && d@ == dep_id@),
        value is Answer <==> response is HostedRpcCall,
        descriptor is Answer <==> response is HostedRpcCall,
{
}

/// A call of a worker gets the answer to this call: what the owner that it names answered, or the word
/// that the parent has no such owner.
pub proof fn call_gets_its_answer<O: HostedRpcDispatcher>(
    transport: IpcHostedRpcTransport,
    dep_id: &str,
    method_idx: u32,
    args: Vec<u8>,
    sent: IpcResponse,
    call: RpcCall,
    before: Vec<(String, HostedRpcOwnerCell<O>)>,
    after: Vec<(String, HostedRpcOwnerCell<O>)>,
    reply: IpcCommand,
    shown: &str,
    r: Result<Vec<u8>, HostedRpcError>,
)
    requires
        exists|t: &mut IpcHostedRpcTransport|
            *t == transport && #[trigger] call_ensures(
                IpcHostedRpcTransport::begin_call,
                (t, dep_id, method_idx, args),
                sent,
            ),
        call_ensures(worker::on_response_while_running, (sent,), RunStep::Answer(call)),
        exists|cells: &mut Vec<(String, HostedRpcOwnerCell<O>)>|
            *cells == before && *final(cells) == after && #[trigger] call_ensures(
                worker::handle_hosted_rpc_call::<O>,
                (cells, &call),
                reply,
            ),
        call_ensures(
            IpcHostedRpcTransport::end_call,
            (transport.next_request_id, reply, shown),
            r,
        ),
    ensures
        call.dep_id@ == dep_id@,
        call.method_idx == method_idx,
        call.args_bytes == args,
        !(r matches Err(HostedRpcError::Transport(_))),
        (forall|j: int| 0 <= j < before@.len() ==> (#[trigger] before@[j]).0@ != dep_id@) ==> (
        r matches Err(HostedRpcError::Dispatch(message)) && holds(message@, dep_id@)),
{
    if forall|j: int| 0 <= j < before@.len() ==> (#[trigger] before@[j]).0@ != dep_id@ {
        assert(crate::hosted::is_unknown(before@, dep_id@));
        let message = r->Err_0->Dispatch_0;
        let start = "HostedRpc dispatch: unknown dep id '"@;
        let end = "' in parent owner-cell map"@;
        assert(message@ =~= start + dep_id@ + end);
        lemma_holds(message@, start, dep_id@, end);
    }
}

/// The answer to another call is not taken for the answer to this one.
pub proof fn other_answers_are_refused(
    request_id: u64,
    reply: IpcCommand,
    shown: &str,
    r: Result<Vec<u8>, HostedRpcError>,
)
    requires
        call_ensures(IpcHostedRpcTransport::end_call, (request_id, reply, shown), r),
        !(reply matches IpcCommand::HostedRpcReply { request_id: id, .. } && id == request_id),
    ensures
        r matches Err(HostedRpcError::Transport(_)),
{
}

} // verus!
