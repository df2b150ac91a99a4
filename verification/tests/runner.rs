use std::cell::{Cell, RefCell};
use std::collections::VecDeque;
use std::sync::Arc;
use test_r_core::args::{Arguments, TimeThreshold};
use test_r_core::bench::{iter, Round};
use test_r_core::execution::suite::TestSuiteExecution;
use test_r_core::execution::values::{DependencyMap, DependencyView};
use test_r_core::hosted::{
    DispatchOutcome, HostedRpcDispatcher, HostedRpcError, HostedRpcOwnerCell,
};
use test_r_core::internal::{
    CaptureControl, CloneableCodec, DepScope, DependencyConstructor, FlakinessControl, HostId,
    RegisteredDependency, RegisteredTest, RpcFactory, ShouldPanic, TestFunction, TestProperties,
    WorkerReconstructor,
};
use test_r_core::ipc::{HostedRpcReplyBody, IpcCommand, IpcResponse, SerializableTestResult};
use test_r_core::results::{
    CapturedOutput, FailureCause, PanicCause, PanicReport, Summary, TestResult,
};
use test_r_core::sync::run::{
    check_time, run_sync_test_function, run_with_flakiness_control, settle_bench, AttemptResult,
    Ended, Repeat, TimedAttempt,
};
use test_r_core::sync::runner::{prepare_run, run_with_retries, test_runner, Prepared};
use test_r_core::sync::thread::{RunMode, TestThread, ThreadStep};
use test_r_core::sync::wire::{
    apply_provided_wire_bytes, build_rpc_factories, build_worker_wire_codecs,
    install_worker_subprocess_hosted_rpc_stubs,
};
use test_r_core::sync::worker::{
    drain_until, handle_hosted_rpc_call, lines_to_dump, on_response_while_providing_cloneable,
    on_response_while_providing_hosted_descriptor, on_response_while_running, run_test_command,
    socket_name, worker_test_result, IpcHostedRpcTransport, ProvideStep, RpcCall, RunStep,
};

fn make_test(name: &str, deps: &[&str]) -> RegisteredTest {
    RegisteredTest {
        name: name.to_string(),
        crate_name: "c".to_string(),
        module: "m".to_string(),
        run: TestFunction::Sync(0),
        props: TestProperties::default(),
        dependencies: Some(deps.iter().map(|d| d.to_string()).collect()),
    }
}

fn make_dep(name: &str, scope: DepScope) -> RegisteredDependency {
    let mut dep = RegisteredDependency::new_shared(
        name.to_string(),
        "c".to_string(),
        "m".to_string(),
        DependencyConstructor::Sync(0),
        vec![],
    );
    dep.scope = scope;
    let codec = Some(CloneableCodec {
        to_wire: 1,
        from_wire_bytes: 2,
    });
    match scope {
        DepScope::Cloneable => {
            dep.cloneable_codec = codec;
            dep.worker_fn = Some(WorkerReconstructor::Sync(3));
        }
        DepScope::Hosted => {
            dep.hosted_codec = codec;
            dep.worker_fn = Some(WorkerReconstructor::Sync(4));
        }
        DepScope::HostedRpc => {
            dep.rpc_factory = Some(RpcFactory {
                owner_into_cell: 5,
                build_stub: 6,
            });
        }
        _ => {}
    }
    dep
}

fn passed() -> AttemptResult {
    Ok(Ok(()))
}

fn returned_error() -> AttemptResult {
    Ok(Err(FailureCause::ReturnedMessage("no".to_string())))
}

fn panicked() -> AttemptResult {
    Err(PanicReport {
        captured: None,
        payload: Some("boom".to_string()),
    })
}

/// Makes the given attempts one after another and notes what was announced.
fn attempts(
    control: FlakinessControl,
    results: Vec<AttemptResult>,
) -> (AttemptResult, Vec<Option<(usize, usize, String)>>) {
    let left = RefCell::new(results);
    let announced = RefCell::new(Vec::new());
    let r = run_with_flakiness_control(&control, &|repeat: Option<Repeat>| {
        announced
            .borrow_mut()
            .push(repeat.map(|r| (r.attempt, r.max_attempts, r.reason)));
        left.borrow_mut().remove(0)
    });
    (r, announced.into_inner())
}

#[test]
fn test_without_control_is_attempted_once() {
    let (r, announced) = attempts(FlakinessControl::NoControl, vec![panicked()]);
    assert!(r.is_err());
    assert_eq!(announced, vec![None]);
}

#[test]
fn test_that_is_to_prove_itself_passes_every_attempt() {
    let reason = "to ensure test is not flaky".to_string();
    let (r, announced) = attempts(
        FlakinessControl::ProveNonFlaky(3),
        vec![passed(), passed(), passed()],
    );
    assert!(matches!(r, Ok(Ok(()))));
    assert_eq!(
        announced,
        vec![None, Some((2, 3, reason.clone())), Some((3, 3, reason.clone()))]
    );
    let (r, announced) = attempts(
        FlakinessControl::ProveNonFlaky(3),
        vec![passed(), returned_error(), passed()],
    );
    assert!(matches!(r, Ok(Err(_))));
    assert_eq!(announced.len(), 2);
    let (r, announced) = attempts(FlakinessControl::ProveNonFlaky(0), vec![]);
    assert!(matches!(r, Ok(Ok(()))));
    assert!(announced.is_empty());
}

#[test]
fn flaky_test_is_retried_while_it_panics() {
    let reason = "because test is known to be flaky".to_string();
    let (r, announced) = attempts(
        FlakinessControl::RetryKnownFlaky(3),
        vec![panicked(), passed(), passed()],
    );
    assert!(matches!(r, Ok(Ok(()))));
    assert_eq!(announced, vec![None, Some((2, 3, reason))]);
    let (r, announced) = attempts(
        FlakinessControl::RetryKnownFlaky(2),
        vec![panicked(), panicked(), passed()],
    );
    assert!(r.is_err());
    assert_eq!(announced.len(), 2);
    let (r, announced) = attempts(
        FlakinessControl::RetryKnownFlaky(3),
        vec![returned_error(), passed()],
    );
    assert!(matches!(r, Ok(Err(_))));
    assert_eq!(announced.len(), 1);
}

#[test]
fn attempt_that_took_too_long_fails() {
    let limits = Some(TimeThreshold::new(1, 1_500_000_000));
    match check_time(passed(), limits, 1_500_000_000) {
        Ok(Err(FailureCause::HarnessError(message))) => {
            assert_eq!(message, "Test run time exceeds critical threshold: 1.5s")
        }
        other => panic!("expected a failure, got {other:?}"),
    }
    assert!(matches!(check_time(passed(), limits, 1_499_999_999), Ok(Ok(()))));
    assert!(matches!(check_time(passed(), None, u64::MAX), Ok(Ok(()))));
    assert!(check_time(panicked(), limits, u64::MAX).is_err());
}

fn ended(detached: Vec<PanicCause>) -> Ended {
    Ended {
        exec_time: 10,
        detached,
        collected_at: 12,
    }
}

fn panic_cause(message: &str) -> PanicCause {
    PanicCause {
        message: Some(message.to_string()),
        location: None,
        backtrace: None,
    }
}

#[test]
fn whole_test_is_retried_timed_and_settled() {
    let mut test = make_test("t", &[]);
    test.props.flakiness_control = FlakinessControl::RetryKnownFlaky(2);
    let count = Cell::new(0);
    let result = run_sync_test_function(
        &test,
        None,
        &|_: Option<Repeat>| {
            count.set(count.get() + 1);
            TimedAttempt {
                result: if count.get() == 1 { panicked() } else { passed() },
                elapsed: 4,
            }
        },
        &|| ended(vec![]),
    );
    assert_eq!(count.get(), 2);
    assert!(matches!(result, TestResult::Passed { exec_time: 10, .. }));

    let result = run_sync_test_function(
        &make_test("t", &[]),
        None,
        &|_: Option<Repeat>| TimedAttempt {
            result: passed(),
            elapsed: 4,
        },
        &|| ended(vec![panic_cause("a"), panic_cause("b")]),
    );
    assert!(matches!(result, TestResult::Failed { exec_time: 12, .. }));
    assert_eq!(
        result.failure_message().as_deref(),
        Some("Detached task(s) panicked:\na\n---\nb")
    );
}

#[test]
fn expected_panic_settles_as_a_pass() {
    let mut test = make_test("t", &[]);
    test.props.should_panic = ShouldPanic::Yes;
    let result = run_sync_test_function(
        &test,
        None,
        &|_: Option<Repeat>| TimedAttempt {
            result: panicked(),
            elapsed: 4,
        },
        &|| ended(vec![]),
    );
    assert!(result.is_passed());
}

fn summary(median: u64) -> Summary {
    Summary {
        median,
        median_text: String::new(),
        deviation_text: String::new(),
        median_grouped: String::new(),
        deviation_grouped: String::new(),
    }
}

#[test]
fn benchmark_settles_with_its_throughput() {
    let result = settle_bench(&make_test("b", &[]), Ok(summary(10)), 100, ended(vec![]));
    assert!(matches!(
        result,
        TestResult::Benchmarked { mb_s: 10_000, exec_time: 10, .. }
    ));
}

/// Runs a benchmark whose rounds take the given times, and returns the iterations of each.
fn rounds(ns_single: u64, times: Vec<(u64, bool)>) -> (Summary, Vec<u64>) {
    let left = RefCell::new(times);
    let asked = RefCell::new(Vec::new());
    let summary = iter(ns_single, &|n: u64| {
        asked.borrow_mut().push(n);
        let (loop_run, converged) = left.borrow_mut().remove(0);
        Round {
            loop_run,
            converged,
            summary: summary(n),
        }
    });
    (summary, asked.into_inner())
}

#[test]
fn benchmark_doubles_its_iterations_until_it_converges() {
    let ms = 1_000_000;
    let (result, asked) = rounds(
        1000,
        vec![(2 * ms, true), (150 * ms, false), (100 * ms, true), (101 * ms, true)],
    );
    assert_eq!(asked, vec![1000, 2000, 4000, 8000]);
    assert_eq!(result.median, 8000);
    let (_, asked) = rounds(0, vec![(3001 * ms, false)]);
    assert_eq!(asked, vec![1_000_000]);
    let (_, asked) = rounds(5 * ms, vec![(2000 * ms, false), (1001 * ms, false)]);
    assert_eq!(asked, vec![1, 2]);
}

#[test]
fn run_is_repeated_until_it_succeeds() {
    let with = |flaky_run: Option<usize>, codes: Vec<u8>| {
        let left = RefCell::new(codes);
        let r = run_with_retries(flaky_run, &|_: usize| left.borrow_mut().remove(0));
        (r, left.into_inner().len())
    };
    assert_eq!(with(None, vec![101, 0]), (101, 1));
    assert_eq!(with(Some(3), vec![101, 0, 0]), (0, 1));
    assert_eq!(with(Some(2), vec![101, 101, 0]), (101, 1));
    assert_eq!(with(Some(0), vec![0]), (101, 1));
}

#[test]
fn runs_are_numbered() {
    let seen = RefCell::new(vec![]);
    let r = run_with_retries(Some(4), &|run: usize| {
        seen.borrow_mut().push(run);
        if run == 2 {
            0
        } else {
            101
        }
    });
    assert_eq!(r, 0);
    assert_eq!(*seen.borrow(), vec![0, 1, 2]);
}

#[test]
fn listing_runs_nothing() {
    let listed = Cell::new(false);
    let args = Arguments {
        list: true,
        ..Default::default()
    };
    let code = test_runner(&args, &|| listed.set(true), &|_: usize| panic!("must not run"));
    assert_eq!(code, 0);
    assert!(listed.get());
    let code = test_runner(&Arguments::default(), &|| panic!("must not list"), &|_: usize| 7);
    assert_eq!(code, 7);
}

#[test]
fn tables_hold_what_workers_need() {
    let deps = vec![
        make_dep("cl", DepScope::Cloneable),
        make_dep("ho", DepScope::Hosted),
        make_dep("rpc", DepScope::HostedRpc),
        make_dep("sh", DepScope::Shared),
    ];
    let codecs = build_worker_wire_codecs(&deps);
    let ids: Vec<&str> = codecs.iter().map(|(id, _)| id.as_str()).collect();
    assert_eq!(ids, vec!["c::m::cl", "c::m::ho"]);
    assert_eq!(codecs[1].1.worker_fn, WorkerReconstructor::Sync(4));
    let factories = build_rpc_factories(&deps);
    assert_eq!(factories.len(), 1);
    assert_eq!(factories[0].0, "c::m::rpc");
    assert_eq!(factories[0].1.build_stub, 6);
}

fn rebuild(from_wire: HostId, worker_fn: HostId, bytes: &Vec<u8>) -> Arc<String> {
    Arc::new(format!("{from_wire}/{worker_fn}/{bytes:?}"))
}

fn construct(dep: &RegisteredDependency, _: &DependencyMap<String>) -> Arc<String> {
    Arc::new(format!("made {}", dep.name))
}

fn plan(deps: &Vec<RegisteredDependency>, tests: Vec<RegisteredTest>) -> TestSuiteExecution<String> {
    TestSuiteExecution::construct(&Arguments::default(), deps, &tests, &vec![]).0
}

#[test]
fn provided_bytes_become_the_value_that_tests_see() {
    let deps = vec![make_dep("cl", DepScope::Cloneable)];
    let codecs = build_worker_wire_codecs(&deps);
    let mut plan = plan(&deps, vec![make_test("t", &["cl"])]);
    let applied = apply_provided_wire_bytes(
        &mut plan,
        &codecs,
        "c::m::cl",
        &vec![7],
        "ProvideCloneable",
        &rebuild,
    );
    assert_eq!(applied, Ok(()));
    let next = plan.pick_next_sync(&construct).unwrap();
    assert_eq!(next.deps.get("cl").as_deref(), Some(&"2/3/[7]".to_string()));
}

#[test]
fn bytes_of_no_use_are_refused() {
    let mut deps = vec![make_dep("cl", DepScope::Cloneable), make_dep("as", DepScope::Hosted)];
    deps[1].worker_fn = Some(WorkerReconstructor::Async(4));
    let codecs = build_worker_wire_codecs(&deps);
    let mut plan = plan(&deps, vec![make_test("t", &[])]);
    let mut apply = |dep_id: &str| {
        apply_provided_wire_bytes(
            &mut plan,
            &codecs,
            dep_id,
            &vec![7],
            "ProvideCloneable",
            &rebuild,
        )
    };
    assert_eq!(
        apply("c::m::none"),
        Err("ProvideCloneable referenced unknown wire-shared dep 'c::m::none'".to_string())
    );
    assert_eq!(
        apply("c::m::cl"),
        Err("ProvideCloneable for dep 'c::m::cl' did not match any registered dep in this worker".to_string())
    );
    assert!(apply("c::m::as").is_err());
}

#[test]
fn stubs_are_provided_to_a_worker() {
    let deps = vec![make_dep("rpc", DepScope::HostedRpc)];
    let factories = build_rpc_factories(&deps);
    let mut plan = plan(&deps, vec![make_test("t", &["rpc"])]);
    install_worker_subprocess_hosted_rpc_stubs(
        &mut plan,
        &factories,
        &|build_stub: HostId, dep_id: &String| Arc::new(format!("stub {build_stub} of {dep_id}")),
    );
    let next = plan.pick_next_sync(&construct).unwrap();
    assert_eq!(
        next.deps.get("rpc").as_deref(),
        Some(&"stub 6 of c::m::rpc".to_string())
    );
}

fn prepare(args: &mut Arguments) -> Result<Prepared<String, String>, String> {
    let deps = vec![
        make_dep("cl", DepScope::Cloneable),
        make_dep("ho", DepScope::Hosted),
        make_dep("rpc", DepScope::HostedRpc),
    ];
    prepare_of(args, &deps)
}

fn prepare_of(
    args: &mut Arguments,
    deps: &Vec<RegisteredDependency>,
) -> Result<Prepared<String, String>, String> {
    prepare_tests(args, deps, &vec![make_test("t", &["cl", "ho", "rpc"])])
}

fn prepare_tests(
    args: &mut Arguments,
    deps: &Vec<RegisteredDependency>,
    tests: &Vec<RegisteredTest>,
) -> Result<Prepared<String, String>, String> {
    prepare_run(
        args,
        deps,
        tests,
        &vec![],
        Some(2),
        7,
        &construct,
        &|_: HostId, value: &Arc<String>| value.as_bytes().to_vec(),
        &|id: HostId, value: &Arc<String>| format!("cell {id} of {value}"),
        &rebuild,
        &|_: HostId, dep_id: &String| Arc::new(format!("stub of {dep_id}")),
    )
}

#[test]
fn run_in_this_process_sees_values_handles_and_stubs() {
    let mut args = Arguments {
        nocapture: true,
        ..Default::default()
    };
    let mut prepared = prepare(&mut args).unwrap();
    assert!(!args.spawn_workers);
    let next = prepared.execution.pick_next_sync(&construct).unwrap();
    let seen = |name: &str| next.deps.get(name).map(|v| v.to_string());
    assert_eq!(seen("cl").as_deref(), Some("made cl"));
    assert_eq!(
        seen("ho"),
        Some(format!("2/4/{:?}", b"made ho".to_vec()))
    );
    assert_eq!(seen("rpc").as_deref(), Some("stub of c::m::rpc"));
    assert_eq!(prepared.hosted_owners.len(), 1);
    assert_eq!(prepared.owner_cells.len(), 1);
}

#[test]
fn run_with_workers_constructs_nothing_in_the_plan() {
    let mut args = Arguments::default();
    let mut prepared = prepare(&mut args).unwrap();
    assert!(args.spawn_workers);
    assert_eq!(prepared.warning, None);
    assert_eq!(
        prepared.cloneable_wire_bytes,
        vec![("c::m::cl".to_string(), b"made cl".to_vec())]
    );
    assert_eq!(
        prepared.hosted_descriptor_bytes,
        vec![("c::m::ho".to_string(), b"made ho".to_vec())]
    );
    assert_eq!(prepared.owner_cells[0].1, "cell 5 of made rpc");
    let next = prepared
        .execution
        .pick_next_sync(&|_: &RegisteredDependency, _: &DependencyMap<String>| {
            panic!("must not construct")
        })
        .unwrap();
    assert!(next.deps.get("cl").is_none());
}

#[test]
fn worker_process_shares_nothing() {
    let mut args = Arguments {
        ipc: Some("socket".to_string()),
        ..Default::default()
    };
    let prepared = prepare(&mut args).unwrap();
    assert!(prepared.cloneable_wire_bytes.is_empty());
    assert!(prepared.owner_cells.is_empty());
    assert_eq!(prepared.codecs.len(), 2);
    assert_eq!(prepared.factories.len(), 1);
}

#[test]
fn dependency_without_what_its_scope_takes_stops_the_run() {
    let complete = || {
        vec![
            make_dep("cl", DepScope::Cloneable),
            make_dep("ho", DepScope::Hosted),
            make_dep("rpc", DepScope::HostedRpc),
        ]
    };
    let mut deps = complete();
    deps[2].rpc_factory = None;
    assert_eq!(
        prepare_of(&mut Arguments::default(), &deps).err().as_deref(),
        Some("HostedRpc dep 'rpc' missing RpcFactory")
    );
    let mut deps = complete();
    deps[1].hosted_codec = None;
    assert_eq!(
        prepare_of(&mut Arguments::default(), &deps).err().as_deref(),
        Some("Hosted dep 'ho' missing hosted codec")
    );
    let mut deps = complete();
    deps[0].cloneable_codec = None;
    assert_eq!(
        prepare_of(&mut Arguments::default(), &deps).err().as_deref(),
        Some("Cloneable dep 'cl' missing CloneableCodec")
    );
}

#[test]
fn what_another_one_uses_is_missed_first() {
    let mut first = make_dep("first", DepScope::Cloneable);
    let mut second = make_dep("second", DepScope::Hosted);
    first.cloneable_codec = None;
    second.hosted_codec = None;
    second.dependencies = vec!["first".to_string()];
    let tests = vec![make_test("t", &["second"])];
    let prepared = prepare_tests(&mut Arguments::default(), &vec![second, first], &tests);
    assert_eq!(
        prepared.err().as_deref(),
        Some("Cloneable dep 'first' missing CloneableCodec")
    );
}

#[test]
fn dependency_that_is_not_built_may_lack_what_its_scope_takes() {
    let mut outer = make_dep("cl", DepScope::Cloneable);
    outer.module = String::new();
    let mut inner = make_dep("cl", DepScope::Cloneable);
    inner.cloneable_codec = None;
    let mut above = make_test("above", &["cl"]);
    above.module = String::new();
    let tests = vec![above, make_test("t", &["cl"])];
    let prepared = prepare_tests(
        &mut Arguments::default(),
        &vec![outer.clone(), inner.clone()],
        &tests,
    )
    .unwrap();
    assert_eq!(
        prepared.cloneable_wire_bytes,
        vec![("c::cl".to_string(), b"made cl".to_vec())]
    );

    let mut a = make_dep("a", DepScope::Cloneable);
    let mut b = make_dep("b", DepScope::Cloneable);
    a.cloneable_codec = None;
    b.cloneable_codec = None;
    a.dependencies = vec!["b".to_string()];
    b.dependencies = vec!["a".to_string()];
    let prepared = prepare_tests(
        &mut Arguments::default(),
        &vec![a, make_dep("cl", DepScope::Cloneable), b],
        &vec![make_test("t", &["a", "cl"])],
    )
    .unwrap();
    assert_eq!(
        prepared.cloneable_wire_bytes,
        vec![("c::m::cl".to_string(), b"made cl".to_vec())]
    );

    outer.module = "elsewhere".to_string();
    let prepared = prepare_tests(&mut Arguments::default(), &vec![outer, inner], &tests);
    assert_eq!(
        prepared.err().as_deref(),
        Some("Cloneable dep 'cl' missing CloneableCodec")
    );
}

#[test]
fn parent_waits_for_the_test_and_answers_calls() {
    match run_test_command(&make_test("t", &[])) {
        IpcCommand::RunTest { name, crate_name, module } => {
            assert_eq!((name.as_str(), crate_name.as_str(), module.as_str()), ("t", "c", "m"))
        }
        other => panic!("expected a test to run, got {other:?}"),
    }
    let accepted = |dep_id: &str| IpcResponse::CloneableAccepted {
        dep_id: dep_id.to_string(),
    };
    assert!(matches!(on_response_while_running(accepted("d")), RunStep::Wait));
    let call = IpcResponse::HostedRpcCall {
        request_id: 3,
        dep_id: "d".to_string(),
        method_idx: 1,
        args_bytes: vec![9],
    };
    assert!(matches!(
        on_response_while_running(call),
        RunStep::Answer(RpcCall { request_id: 3, method_idx: 1, .. })
    ));
    let finished = IpcResponse::TestFinished {
        result: SerializableTestResult::Ignored,
        finish_marker: "mark".to_string(),
    };
    assert!(matches!(
        on_response_while_running(finished),
        RunStep::Finished { finish_marker, .. } if finish_marker == "mark"
    ));
    assert!(matches!(
        on_response_while_providing_cloneable("d", accepted("d")),
        ProvideStep::Accepted
    ));
    assert!(matches!(
        on_response_while_providing_cloneable("d", accepted("e")),
        ProvideStep::Wait
    ));
    assert!(matches!(
        on_response_while_providing_hosted_descriptor("d", accepted("d")),
        ProvideStep::Wait
    ));
    assert!(matches!(
        on_response_while_providing_hosted_descriptor(
            "d",
            IpcResponse::HostedDescriptorAccepted {
                dep_id: "d".to_string()
            }
        ),
        ProvideStep::Accepted
    ));
    assert_eq!(socket_name("1234"), "1234.sock");
}

fn lines(texts: &[&str]) -> Vec<CapturedOutput> {
    texts
        .iter()
        .enumerate()
        .map(|(i, t)| CapturedOutput::stdout(i as u64, t.to_string()))
        .collect()
}

#[test]
fn output_is_drained_up_to_the_marker() {
    let mut source: VecDeque<CapturedOutput> = lines(&["a", "b"]).into();
    let mut drained = Vec::new();
    assert!(!drain_until(&mut source, "mark", &mut drained));
    assert!(source.is_empty());
    source.extend(lines(&["c", "mark", "d", "mark"]));
    assert!(drain_until(&mut source, "mark", &mut drained));
    let seen: Vec<&str> = drained.iter().map(|c| c.line()).collect();
    assert_eq!(seen, vec!["a", "b", "c"]);
    let rest: Vec<&str> = source.iter().map(|c| c.line()).collect();
    assert_eq!(rest, vec!["d", "mark"]);
}

#[test]
fn output_of_a_test_is_kept_where_it_is_captured() {
    let result = |nocapture: bool, test: &RegisteredTest| {
        worker_test_result(
            nocapture,
            test,
            SerializableTestResult::Passed { exec_time: 1 },
            lines(&["a"]),
            lines(&["b"]),
        )
        .captured_output()
        .len()
    };
    let mut test = make_test("t", &[]);
    assert_eq!(result(false, &test), 2);
    assert_eq!(result(true, &test), 0);
    test.props.capture_control = CaptureControl::AlwaysCapture;
    assert_eq!(result(true, &test), 2);
    test.props.capture_control = CaptureControl::NeverCapture;
    assert_eq!(result(false, &test), 0);
    assert_eq!(
        lines_to_dump(
            vec![CapturedOutput::stdout(2, "b".to_string())],
            vec![CapturedOutput::stderr(1, "a".to_string())]
        ),
        vec!["a", "b"]
    );
}

/// Answers with its arguments, and panics when it is given none.
struct Echo;

impl HostedRpcDispatcher for Echo {
    fn dispatch_outcome(&mut self, _method_idx: u32, args: &[u8]) -> DispatchOutcome {
        if args.is_empty() {
            DispatchOutcome::Panicked(Some("nothing to echo".to_string()))
        } else {
            DispatchOutcome::Returned(Ok(args.to_vec()))
        }
    }
}

/// Makes a call as a worker does, and answers it as the parent does.
fn round_trip(
    transport: &mut IpcHostedRpcTransport,
    cells: &mut Vec<(String, HostedRpcOwnerCell<Echo>)>,
    dep_id: &str,
    args: Vec<u8>,
) -> Result<Vec<u8>, String> {
    let id = transport.next_request_id;
    let call = match on_response_while_running(transport.begin_call(dep_id, 1, args)) {
        RunStep::Answer(call) => call,
        other => panic!("expected a call, got {other:?}"),
    };
    let command = handle_hosted_rpc_call(cells, &call);
    IpcHostedRpcTransport::end_call(id, command, "").map_err(|e| e.message())
}

#[test]
fn remote_calls_reach_the_owner_and_come_back() {
    let mut transport = IpcHostedRpcTransport::new();
    let mut cells = vec![("d".to_string(), HostedRpcOwnerCell::from_owner(Echo))];
    assert_eq!(
        round_trip(&mut transport, &mut cells, "d", vec![1, 2]),
        Ok(vec![1, 2])
    );
    assert_eq!(transport.next_request_id, 2);
    assert_eq!(
        round_trip(&mut transport, &mut cells, "e", vec![1]),
        Err("hosted rpc dispatch error: HostedRpc dispatch: unknown dep id 'e' in parent owner-cell map".to_string())
    );
    assert_eq!(
        round_trip(&mut transport, &mut cells, "d", vec![]),
        Err("hosted rpc dispatch error: hosted rpc owner panicked: nothing to echo".to_string())
    );
    assert_eq!(
        round_trip(&mut transport, &mut cells, "d", vec![1]),
        Err("hosted rpc dispatch error: hosted rpc owner poisoned".to_string())
    );
}

#[test]
fn replies_out_of_order_are_transport_errors() {
    let reply = IpcCommand::HostedRpcReply {
        request_id: 4,
        body: HostedRpcReplyBody::Returned {
            result_bytes: vec![],
        },
    };
    match IpcHostedRpcTransport::end_call(5, reply, "") {
        Err(HostedRpcError::Transport(message)) => assert_eq!(
            message,
            "HostedRpcReply request_id mismatch: expected 5, got 4"
        ),
        other => panic!("expected a transport error, got {other:?}"),
    }
    let other = run_test_command(&make_test("t", &[]));
    match IpcHostedRpcTransport::end_call(5, other, "RunTest") {
        Err(HostedRpcError::Transport(message)) => assert_eq!(
            message,
            "unexpected IpcCommand while waiting for HostedRpcReply: RunTest"
        ),
        other => panic!("expected a transport error, got {other:?}"),
    }
}

#[test]
fn worker_runs_the_test_that_the_parent_names() {
    let deps = vec![make_dep("cl", DepScope::Cloneable)];
    let codecs = build_worker_wire_codecs(&deps);
    let mut plan = plan(&deps, vec![make_test("a", &["cl"]), make_test("b", &["cl"])]);
    let mut thread = TestThread::new(true, false, false, false);
    assert!(matches!(
        thread.next_step(&mut plan, &construct),
        ThreadStep::ReadCommand
    ));
    let provide = IpcCommand::ProvideCloneable {
        dep_id: "c::m::cl".to_string(),
        wire_bytes: vec![1],
    };
    assert!(matches!(
        thread.on_command(&mut plan, &codecs, provide, &rebuild),
        Ok(Some(IpcResponse::CloneableAccepted { dep_id })) if dep_id == "c::m::cl"
    ));
    let run = run_test_command(&make_test("b", &[]));
    assert!(matches!(
        thread.on_command(&mut plan, &codecs, run, &rebuild),
        Ok(None)
    ));
    assert!(matches!(
        thread.next_step(&mut plan, &construct),
        ThreadStep::Retry
    ));
    let next = match thread.next_step(&mut plan, &construct) {
        ThreadStep::Run { next, mode } => {
            assert_eq!(mode, RunMode::Here);
            next
        }
        _ => panic!("expected a test to run"),
    };
    assert_eq!(next.test.name, "b");
    assert_eq!(next.deps.get("cl").as_deref(), Some(&"2/3/[1]".to_string()));
    let response = thread.finished(&mut plan, next, TestResult::passed(3), "mark");
    assert!(matches!(
        response,
        Some(IpcResponse::TestFinished {
            result: SerializableTestResult::Passed { exec_time: 3 },
            finish_marker,
        }) if finish_marker == "mark"
    ));
    assert_eq!(thread.results.len(), 1);
    assert!(matches!(
        thread.next_step(&mut plan, &construct),
        ThreadStep::Done
    ));
}

#[test]
fn reply_that_nobody_waits_for_is_refused() {
    let mut plan = plan(&vec![], vec![make_test("a", &[])]);
    let mut thread = TestThread::new(true, false, false, false);
    let reply = IpcCommand::HostedRpcReply {
        request_id: 1,
        body: HostedRpcReplyBody::Failed {
            message: String::new(),
        },
    };
    assert!(thread
        .on_command(&mut plan, &vec![], reply, &rebuild)
        .is_err());
}

#[test]
fn ignored_tests_and_tests_of_workers_run_elsewhere() {
    let mut ignored = make_test("a", &[]);
    ignored.props.is_ignored = true;
    let mode = |has_worker: bool, include_ignored: bool| {
        let mut plan = plan(&vec![], vec![ignored.clone()]);
        let mut thread = TestThread::new(false, has_worker, include_ignored, false);
        match thread.next_step(&mut plan, &construct) {
            ThreadStep::Run { mode, .. } => mode,
            _ => panic!("expected a test to run"),
        }
    };
    assert_eq!(mode(true, false), RunMode::Ignored);
    assert_eq!(mode(true, true), RunMode::InWorker);
    assert_eq!(mode(false, true), RunMode::Here);
}

#[test]
fn only_ignored_tests_run_where_that_is_asked_for() {
    let mut ignored = make_test("a", &[]);
    ignored.props.is_ignored = true;
    let tests = vec![ignored, make_test("b", &[])];
    let modes = |include_ignored: bool, only_ignored: bool| {
        let args = Arguments {
            include_ignored,
            ignored: only_ignored,
            ..Default::default()
        };
        let mut plan: TestSuiteExecution<String> =
            TestSuiteExecution::construct(&args, &vec![], &tests, &vec![]).0;
        let mut thread = TestThread::new(false, false, include_ignored, only_ignored);
        let mut modes = vec![];
        while let ThreadStep::Run { next, mode } = thread.next_step(&mut plan, &construct) {
            modes.push((next.test.name.clone(), mode));
            thread.finished(&mut plan, next, TestResult::ignored(), "");
        }
        modes
    };
    let pair = |name: &str, mode: RunMode| (name.to_string(), mode);
    assert_eq!(modes(false, true), vec![pair("a", RunMode::Here)]);
    assert_eq!(
        modes(false, false),
        vec![pair("a", RunMode::Ignored), pair("b", RunMode::Here)]
    );
    assert_eq!(
        modes(true, false),
        vec![pair("a", RunMode::Here), pair("b", RunMode::Here)]
    );
}

#[test]
fn random_order_uses_the_seed_that_was_drawn() {
    let names: Vec<String> = (0..20).map(|i| format!("t{i}")).collect();
    let order = |args: &mut Arguments, drawn: u64| {
        let tests: Vec<RegisteredTest> = names.iter().map(|n| make_test(n, &[])).collect();
        let prepared: Prepared<String, String> = prepare_run(
            args,
            &vec![],
            &tests,
            &vec![],
            Some(1),
            drawn,
            &construct,
            &|_: HostId, value: &Arc<String>| value.as_bytes().to_vec(),
            &|_: HostId, value: &Arc<String>| value.to_string(),
            &rebuild,
            &|_: HostId, dep_id: &String| Arc::new(dep_id.clone()),
        )
        .unwrap();
        let mut plan = prepared.execution;
        let mut order = vec![];
        while let Some(next) = plan.pick_next_sync(&construct) {
            order.push(next.test.name.clone());
            plan.finish(next);
        }
        order
    };
    let mut random = Arguments {
        shuffle: true,
        ..Default::default()
    };
    let shuffled = order(&mut random, 5);
    assert_ne!(shuffled, names);
    assert!(!random.shuffle);
    assert_eq!(random.shuffle_seed, Some(5));
    assert_eq!(order(&mut random, 6), shuffled);
    let mut seeded = Arguments {
        shuffle_seed: Some(5),
        ..Default::default()
    };
    assert_eq!(order(&mut seeded, 7), shuffled);
    let mut plain = Arguments::default();
    assert_eq!(order(&mut plain, 8), names);
    assert_eq!(plain.shuffle_seed, None);
}
