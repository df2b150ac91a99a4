//! How tests are registered, announced and collected, and what a process makes of its runs.
use super::words::colons;
use crate::args::Arguments;
use crate::execution::node::SuiteNode;
use crate::execution::suite::TestSuiteExecution;
use crate::internal;
use crate::internal::{
    CaptureControl, DetachedPanicPolicy, DynamicTestRegistration, FlakinessControl, GeneratedTest,
    HostId, RegisteredDependency, RegisteredTest, RegisteredTestGenerator,
    RegisteredTestSuiteProperty, ReportTimeControl, ShouldPanic, TestFunction, TestModel,
    TestProperties, TestType,
};
use crate::ipc::{IpcCommand, IpcResponse};
use crate::output::ctrf;
use crate::output::ctrf::Ctrf;
use crate::results;
use crate::results::{CapturedOutput, TestResult};
use crate::sync::runner;
use crate::sync::thread::TestThread;
use crate::sync::wire::WireCodec;
use crate::sync::worker;
use crate::sync::worker::IpcHostedRpcTransport;
use crate::text;
use std::collections::VecDeque;
use std::sync::Arc;
use vstd::prelude::*;

verus! {

/// Nothing special holds of a test unless it is said: it is not ignored, is not to panic, has no limit and
/// no tags, is run once, and fails if one of its tasks panics.
pub proof fn nothing_special_holds_by_default(unit: TestProperties, integration: TestProperties)
    requires
        call_ensures(TestProperties::unit_test, (), unit),
        call_ensures(TestProperties::integration_test, (), integration),
    ensures
        unit.test_type == TestType::UnitTest,
        integration.test_type == TestType::IntegrationTest,
        !unit.is_ignored && !integration.is_ignored,
        unit.should_panic == ShouldPanic::No && integration.should_panic == ShouldPanic::No,
        unit.timeout is None && integration.timeout is None,
        unit.tags@.len() == 0 && integration.tags@.len() == 0,
        unit.flakiness_control == FlakinessControl::NoControl,
        integration.flakiness_control == FlakinessControl::NoControl,
        unit.capture_control == CaptureControl::Default,
        integration.capture_control == CaptureControl::Default,
        unit.report_time_control == ReportTimeControl::Default,
        integration.report_time_control == ReportTimeControl::Default,
        unit.ensure_time_control == ReportTimeControl::Default,
        integration.ensure_time_control == ReportTimeControl::Default,
        unit.detached_panic_policy == DetachedPanicPolicy::FailTest,
        integration.detached_panic_policy == DetachedPanicPolicy::FailTest,
{
    assert(unit@.tags.len() == 0 && integration@.tags.len() == 0);
}

/// Tests that a generator adds are collected in the order in which they were added, each as it was added.
pub proof fn added_tests_are_collected(
    start: DynamicTestRegistration,
    between: DynamicTestRegistration,
    end: DynamicTestRegistration,
    first: &str,
    second: &str,
    props: TestProperties,
    others: TestProperties,
    names: Option<Vec<String>>,
    run: HostId,
    other_run: HostId,
    r: Vec<GeneratedTest>,
)
    requires
        call_ensures(DynamicTestRegistration::new, (), start),
        exists|d: &mut DynamicTestRegistration|
            *d == start && *final(d) == between && #[trigger] call_ensures(
                DynamicTestRegistration::add_sync_test,
                (d, first, props, names, run),
                (),
            ),
        exists|d: &mut DynamicTestRegistration|
            *d == between && *final(d) == end && #[trigger] call_ensures(
                DynamicTestRegistration::add_async_test,
                (d, second, others, names, other_run),
                (),
            ),
        call_ensures(DynamicTestRegistration::to_vec, (end,), r),
    ensures
        r@.len() == 2,
        r@[0].name@ == first@,
        r@[0].run == TestFunction::Sync(run),
        r@[0].props@ == props@,
        r@[1].name@ == second@,
        r@[1].run == TestFunction::Async(other_run),
        r@[1].props@ == others@,
        names is Some <==> r@[0].dependencies is Some,
        names is Some <==> r@[1].dependencies is Some,
{
    assert(end@.len() == 2);
    assert(r@[0]@ == end@[0] && r@[1]@ == end@[1]);
    assert(r@[0]@.dependencies is Some <==> r@[0].dependencies is Some);
    assert(r@[1]@.dependencies is Some <==> r@[1].dependencies is Some);
}

/// Every generator is run, and each of the tests that it made is registered in its name.
pub proof fn every_generator_is_run<F: Fn(&RegisteredTestGenerator) -> Vec<GeneratedTest>>(
    generators: Vec<RegisteredTestGenerator>,
    run: F,
    r: Vec<RegisteredTest>,
    g: int,
)
    requires
        call_ensures(internal::generate_tests::<F>, (&generators, &run), r),
        0 <= g < generators@.len(),
    ensures
        exists|tests: Vec<GeneratedTest>| #[trigger]
            run.ensures((&generators@[g],), tests) && forall|j: int|
                0 <= j < tests@.len() ==> is_registered(r@, generators@[g], #[trigger] tests@[j]),
{
    let batches = choose|batches: Seq<Seq<GeneratedTest>>| #[trigger]
        internal::are_batches(run, generators@, batches) && internal::test_views(r@)
            == internal::generated_tests(generators@, batches);
    assert(internal::is_batch(run, &generators@[g], batches[g]));
    let tests = choose|tests: Vec<GeneratedTest>| #[trigger]
        run.ensures((&generators@[g],), tests) && tests@ == batches[g];
    assert forall|j: int| 0 <= j < tests@.len() implies is_registered(
        r@,
        generators@[g],
        #[trigger] tests@[j],
    ) by {
        let k = lemma_generated(generators@, batches, g, j);
        assert(internal::test_views(r@)[k] == r@[k]@);
    }
}

/// One of the tests is the one that the generator made.
pub open spec fn is_registered(
    r: Seq<RegisteredTest>,
    generator: RegisteredTestGenerator,
    test: GeneratedTest,
) -> bool {
    exists|k: int|
        0 <= k < r.len() && (#[trigger] r[k]).name@ == generator.name@ + colons() + test.name@
            && r[k].crate_name@ == generator.crate_name@ && r[k].module@ == generator.module@
            && r[k].run == test.run
}

proof fn lemma_generated(
    generators: Seq<RegisteredTestGenerator>,
    batches: Seq<Seq<GeneratedTest>>,
    g: int,
    j: int,
) -> (k: int)
    requires
        batches.len() == generators.len(),
        0 <= g < generators.len(),
        0 <= j < batches[g].len(),
    ensures
        0 <= k < internal::generated_tests(generators, batches).len(),
        internal::generated_tests(generators, batches)[k] == generators[g].registered(
            batches[g][j]@,
        ),
    decreases generators.len(),
{
    let before = internal::generated_tests(generators.drop_last(), batches.drop_last());
    if g == generators.len() - 1 {
        before.len() + j
    } else {
        lemma_generated(generators.drop_last(), batches.drop_last(), g, j)
    }
}

/// Registered and generated tests are run together.
pub proof fn all_tests_are_there(
    registered: Vec<RegisteredTest>,
    generated: Vec<RegisteredTest>,
    r: Vec<RegisteredTest>,
)
    requires
        call_ensures(runner::all_tests, (&registered, generated), r),
    ensures
        r@.len() == registered@.len() + generated@.len(),
        forall|i: int| 0 <= i < registered@.len() ==> (#[trigger] r@[i])@ == registered@[i]@,
        forall|i: int|
            0 <= i < generated@.len() ==> (#[trigger] r@[registered@.len() + i])@
                == generated@[i]@,
{
    let all = internal::test_views(r@);
    assert(all.len() == r@.len());
    assert(all.len() == registered@.len() + generated@.len());
    assert forall|i: int| 0 <= i < registered@.len() implies (#[trigger] r@[i])@
        == registered@[i]@ by {
        assert(all[i] == r@[i]@);
    }
    assert forall|i: int| 0 <= i < generated@.len() implies (
    #[trigger] r@[registered@.len() + i])@ == generated@[i]@ by {
        assert(all[registered@.len() + i] == r@[registered@.len() + i]@);
    }
}

/// A worker tells its parent that it has taken a value, which one and of which kind, and only then. The
/// answer to a call is no command.
pub proof fn taken_value_is_acknowledged<V, F: Fn(HostId, HostId, &Vec<u8>) -> Arc<V>>(
    before: TestThread,
    after: TestThread,
    plan: TestSuiteExecution<V>,
    codecs: Vec<(String, WireCodec)>,
    command: IpcCommand,
    rebuild: F,
    r: Result<Option<IpcResponse>, String>,
)
    requires
        exists|thread: &mut TestThread, execution: &mut TestSuiteExecution<V>|
            *thread == before && *final(thread) == after && *execution == plan
                && #[trigger] call_ensures(
                TestThread::on_command::<V, F>,
                (thread, execution, &codecs, command, &rebuild),
                r,
            ),
    ensures
        command matches IpcCommand::ProvideCloneable { dep_id, .. } ==> after == before && (
        r matches Ok(told) ==> (told matches Some(IpcResponse::CloneableAccepted { dep_id: d })
            && d@ == dep_id@)),
        command matches IpcCommand::ProvideHostedDescriptor { dep_id, .. } ==> after == before && (
        r matches Ok(told) ==> (told matches Some(IpcResponse::HostedDescriptorAccepted { dep_id: d })
            && d@ == dep_id@)),
        command is HostedRpcReply ==> r is Err && after == before,
{
}

/// Two calls in a row have different numbers.
pub proof fn calls_are_numbered(
    before: IpcHostedRpcTransport,
    between: IpcHostedRpcTransport,
    dep_id: &str,
    method_idx: u32,
    args: Vec<u8>,
    first: IpcResponse,
    second: IpcResponse,
)
    requires
        exists|t: &mut IpcHostedRpcTransport|
            *t == before && *final(t) == between && #[trigger] call_ensures(
                IpcHostedRpcTransport::begin_call,
                (t, dep_id, method_idx, args),
                first,
            ),
        exists|t: &mut IpcHostedRpcTransport|
            *t == between && #[trigger] call_ensures(
                IpcHostedRpcTransport::begin_call,
                (t, dep_id, method_idx, args),
                second,
            ),
    ensures
        first matches IpcResponse::HostedRpcCall { request_id: a, .. } && second matches
            IpcResponse::HostedRpcCall { request_id: b, .. } && a != b,
{
}

/// The report says of a test that was repeated how often that happened, and whether that was because it is
/// known to be flaky.
pub proof fn repetition_is_reported(
    before: Ctrf,
    started: Ctrf,
    repeated: Ctrf,
    after: Ctrf,
    test: RegisteredTest,
    result: TestResult,
    start: u64,
    stop: u64,
)
    requires
        exists|report: &mut Ctrf|
            *report == before && *final(report) == started && #[trigger] call_ensures(
                Ctrf::start_running_test,
                (report, &test, start),
                (),
            ),
        exists|report: &mut Ctrf|
            *report == started && *final(report) == repeated && #[trigger] call_ensures(
                Ctrf::repeat_running_test,
                (report, &test),
                (),
            ),
        exists|report: &mut Ctrf|
            *report == repeated && *final(report) == after && #[trigger] call_ensures(
                Ctrf::finished_running_test,
                (report, &test, &result, stop),
                (),
            ),
    ensures
        after.tests@.len() == before.tests@.len() + 1,
        after.tests@.last().retries == Some(1usize),
        after.tests@.last().start == Some(start),
        after.tests@.last().stop == Some(stop),
        test.props.flakiness_control == FlakinessControl::NoControl ==> after.tests@.last().flaky
            is None,
        test.props.flakiness_control is ProveNonFlaky ==> after.tests@.last().flaky == Some(false),
        test.props.flakiness_control is RetryKnownFlaky ==> after.tests@.last().flaky == Some(true),
{
    let all = ctrf::entry_views(after.tests@);
    assert(all.len() == before.tests@.len() + 1);
    assert(all.last() == after.tests@.last()@);
}

/// A process that is to list its tests succeeds without running any, and one that may make no run fails.
pub proof fn list_is_no_run<L: Fn(), F: Fn(usize) -> u8>(args: Arguments, list: L, run: F, r: u8)
    requires
        call_ensures(runner::test_runner::<L, F>, (&args, &list, &run), r),
    ensures
        args.list ==> r == 0 && list.ensures((), ()),
        !args.list && args.flaky_run == Some(0usize) ==> r != 0,
        !args.list && args.flaky_run is None ==> run.ensures((0,), r),
{
    if !args.list {
        let codes = choose|codes: Seq<u8>| #[trigger]
            runner::may_run(run, codes) && runner::is_run_history(
                runner::most_runs(args.flaky_run),
                codes,
            ) && r == runner::final_exit_code(codes);
        if args.flaky_run is None {
            assert(codes.len() > 0);
            if codes.len() > 1 {
                assert(runner::is_run_again(1, 0int + 1, codes[0]));
            }
            assert(run.ensures((0 as usize,), codes[0]));
        }
    }
}

/// The text of the line.
pub open spec fn text_of(line: CapturedOutput) -> Seq<char> {
    match line {
        CapturedOutput::Stdout { line, .. } => line@,
        CapturedOutput::Stderr { line, .. } => line@,
        CapturedOutput::Host { line, .. } => line@,
    }
}

/// What a worker wrote before it marked the end of a test belongs to the test, and what is behind the mark
/// does not. Without a mark there is more to come.
pub proof fn lines_before_the_mark_belong_to_the_test(
    before: VecDeque<CapturedOutput>,
    after: VecDeque<CapturedOutput>,
    marker: &str,
    had: Vec<CapturedOutput>,
    has: Vec<CapturedOutput>,
    found: bool,
    n: int,
)
    requires
        exists|source: &mut VecDeque<CapturedOutput>, drained: &mut Vec<CapturedOutput>|
            *source == before && *final(source) == after && *drained == had && *final(drained)
                == has && #[trigger] call_ensures(
                worker::drain_until,
                (source, marker, drained),
                found,
            ),
        0 <= n <= before@.len(),
        forall|i: int| 0 <= i < n ==> text_of(#[trigger] before@[i]) != marker@,
        n < before@.len() ==> text_of(before@[n]) == marker@,
    ensures
        found <==> n < before@.len(),
        has@ == had@ + before@.take(n),
        found ==> after@ == before@.skip(n + 1),
        !found ==> after@.len() == 0,
{
    lemma_mark(before@, marker@, n);
}

proof fn lemma_mark(lines: Seq<CapturedOutput>, marker: Seq<char>, n: int)
    requires
        0 <= n <= lines.len(),
        forall|i: int| 0 <= i < n ==> text_of(#[trigger] lines[i]) != marker,
        n < lines.len() ==> text_of(lines[n]) == marker,
    ensures
        worker::marker_index(lines, marker) == n,
    decreases n,
{
    if n > 0 {
        assert(text_of(lines[0]) != marker);
        let rest = lines.skip(1);
        assert forall|i: int| 0 <= i < n - 1 implies text_of(#[trigger] rest[i]) != marker by {
            assert(rest[i] == lines[i + 1]);
        }
        lemma_mark(rest, marker, n - 1);
    }
}

/// Where the connection to a worker breaks, every line that it wrote is shown.
pub proof fn every_line_is_shown(
    out_lines: Vec<CapturedOutput>,
    err_lines: Vec<CapturedOutput>,
    r: Vec<String>,
    i: int,
)
    requires
        call_ensures(worker::lines_to_dump, (out_lines, err_lines), r),
    ensures
        r@.len() == out_lines@.len() + err_lines@.len(),
        0 <= i < out_lines@.len() ==> exists|k: int|
            0 <= k < r@.len() && (#[trigger] r@[k])@ == text_of(out_lines@[i]),
        0 <= i < err_lines@.len() ==> exists|k: int|
            0 <= k < r@.len() && (#[trigger] r@[k])@ == text_of(err_lines@[i]),
{
    let all = out_lines@ + err_lines@;
    let sorted = results::time_sorted(all);
    results::sorting_is_stable(all);
    if 0 <= i < out_lines@.len() {
        assert(all[i] == out_lines@[i]);
        results::sorting_keeps_lines(all, out_lines@[i]);
        let k = sorted.index_of(out_lines@[i]);
        assert(r@[k]@ == text_of(out_lines@[i]));
    }
    if 0 <= i < err_lines@.len() {
        assert(all[out_lines@.len() + i] == err_lines@[i]);
        results::sorting_keeps_lines(all, err_lines@[i]);
        let k = sorted.index_of(err_lines@[i]);
        assert(r@[k]@ == text_of(err_lines@[i]));
    }
}

impl<V> SuiteNode<V> {
    proof fn lemma_wants(self, default: bool)
        ensures
            self.wants_capturing(default) <==> exists|t: TestModel|
                #[trigger] self.tests_below().count(t) > 0
                    && t.props.capture_control.spec_requires_capturing(default),
        decreases self,
    {
        broadcast use vstd::seq_lib::group_to_multiset_ensures;

        let own = internal::test_views(self.tests@);
        own.to_multiset_ensures();
        Self::lemma_wants_among(self.inner@, default);
        if exists|i: int|
            0 <= i < self.tests@.len() && (
            #[trigger] self.tests@[i])@.props.capture_control.spec_requires_capturing(default) {
            let i = choose|i: int|
                0 <= i < self.tests@.len() && (
                #[trigger] self.tests@[i])@.props.capture_control.spec_requires_capturing(default);
            let t = self.tests@[i]@;
            assert(own[i] == t);
            assert(own.contains(t));
            assert(own.to_multiset().count(t) > 0);
            assert(self.tests_below().count(t) > 0);
        }
        if exists|j: int| 0 <= j < self.inner@.len() && (#[trigger] self.inner@[j]).wants_capturing(
            default,
        ) {
            let t = choose|t: TestModel|
                #[trigger] Self::tests_among(self.inner@).count(t) > 0
                    && t.props.capture_control.spec_requires_capturing(default);
            assert(self.tests_below().count(t) > 0);
        }
        if exists|t: TestModel| #[trigger] self.tests_below().count(t) > 0
            && t.props.capture_control.spec_requires_capturing(default) {
            let t = choose|t: TestModel| #[trigger] self.tests_below().count(t) > 0
                && t.props.capture_control.spec_requires_capturing(default);
            if own.to_multiset().count(t) > 0 {
                assert(own.contains(t));
                let i = own.index_of(t);
                assert(self.tests@[i]@ == t);
            } else {
                assert(Self::tests_among(self.inner@).count(t) > 0);
            }
        }
    }

    proof fn lemma_wants_among(nodes: Seq<SuiteNode<V>>, default: bool)
        ensures
            (exists|j: int|
                0 <= j < nodes.len() && (#[trigger] nodes[j]).wants_capturing(default)) <==> exists|
                t: TestModel,
            |
                #[trigger] Self::tests_among(nodes).count(t) > 0
                    && t.props.capture_control.spec_requires_capturing(default),
        decreases nodes,
    {
        if nodes.len() > 0 {
            let init = nodes.drop_last();
            Self::lemma_wants_among(init, default);
            nodes.last().lemma_wants(default);
            if exists|j: int| 0 <= j < nodes.len() && (#[trigger] nodes[j]).wants_capturing(default) {
                let j = choose|j: int|
                    0 <= j < nodes.len() && (#[trigger] nodes[j]).wants_capturing(default);
                if j < init.len() {
                    assert(init[j].wants_capturing(default));
                    let t = choose|t: TestModel|
                        #[trigger] Self::tests_among(init).count(t) > 0
                            && t.props.capture_control.spec_requires_capturing(default);
                    assert(Self::tests_among(nodes).count(t) > 0);
                } else {
                    let t = choose|t: TestModel|
                        #[trigger] nodes.last().tests_below().count(t) > 0
                            && t.props.capture_control.spec_requires_capturing(default);
                    assert(Self::tests_among(nodes).count(t) > 0);
                }
            }
            if exists|t: TestModel| #[trigger] Self::tests_among(nodes).count(t) > 0
                && t.props.capture_control.spec_requires_capturing(default) {
                let t = choose|t: TestModel| #[trigger] Self::tests_among(nodes).count(t) > 0
                    && t.props.capture_control.spec_requires_capturing(default);
                if Self::tests_among(init).count(t) > 0 {
                    let j = choose|j: int|
                        0 <= j < init.len() && (#[trigger] init[j]).wants_capturing(default);
                    assert(nodes[j].wants_capturing(default));
                } else {
                    assert(nodes.last().tests_below().count(t) > 0);
                    assert(nodes[nodes.len() - 1].wants_capturing(default));
                }
            }
        }
    }
}

/// Output has to be captured in a run where that is the default and a selected test does not forbid it, or
/// where a selected test asks for it, and in no other run.
pub proof fn capturing_follows_the_tests<V>(
    arguments: Arguments,
    dependencies: Vec<RegisteredDependency>,
    tests: Vec<RegisteredTest>,
    props: Vec<RegisteredTestSuiteProperty>,
    plan: TestSuiteExecution<V>,
    filtered: Vec<RegisteredTest>,
    default: bool,
    r: bool,
)
    requires
        call_ensures(
            TestSuiteExecution::<V>::construct,
            (&arguments, &dependencies, &tests, &props),
            (plan, filtered),
        ),
        call_ensures(TestSuiteExecution::<V>::requires_capturing, (&plan, default), r),
    ensures
        r <==> exists|i: int|
            0 <= i < filtered@.len() && ((
            #[trigger] filtered@[i]).props.capture_control == CaptureControl::AlwaysCapture || (
            filtered@[i].props.capture_control == CaptureControl::Default && default)),
{
    let selected = internal::test_views(filtered@);
    selected.to_multiset_ensures();
    plan.root.lemma_wants(default);
    if r {
        let t = choose|t: TestModel| #[trigger] plan.root.tests_below().count(t) > 0
            && t.props.capture_control.spec_requires_capturing(default);
        assert(selected.to_multiset().count(t) > 0);
        assert(selected.contains(t));
        let i = selected.index_of(t);
        assert(filtered@[i]@ == t);
    }
    if exists|i: int|
        0 <= i < filtered@.len() && ((
        #[trigger] filtered@[i]).props.capture_control == CaptureControl::AlwaysCapture || (
        filtered@[i].props.capture_control == CaptureControl::Default && default)) {
        let i = choose|i: int|
            0 <= i < filtered@.len() && ((
            #[trigger] filtered@[i]).props.capture_control == CaptureControl::AlwaysCapture || (
            filtered@[i].props.capture_control == CaptureControl::Default && default));
        let t = filtered@[i]@;
        assert(selected[i] == t);
        assert(selected.contains(t));
        assert(plan.root.tests_below().count(t) > 0);
    }
}

} // verus!
