use test_r_core::internal::{
    DetachedPanicPolicy, RegisteredTest, ShouldPanic, TestFunction, TestProperties,
};
use test_r_core::panic_hook::PanicHook;
use test_r_core::results::{
    sort_by_time, CapturedOutput, ErrorKind, FailureCause, PanicCause, PanicLocation, PanicReport,
    SuiteResult, Summary, TestResult, TestReturnValue,
};
use test_r_core::sync::run::apply_detached_panics;

fn make_test(name: &str) -> RegisteredTest {
    RegisteredTest {
        name: name.to_string(),
        crate_name: "mycrate".to_string(),
        module: "m".to_string(),
        run: TestFunction::Sync(0),
        props: TestProperties::default(),
        dependencies: None,
    }
}

/// What the panic hook sees of a panic with this message.
fn panicked(message: &str) -> PanicCause {
    PanicCause {
        message: Some(message.to_string()),
        location: Some(PanicLocation {
            file: "src/internal.rs".to_string(),
            line: 12,
            column: 5,
        }),
        backtrace: None,
    }
}

/// The result of a test that panicked with this message while the hook was installed.
fn panic_result(should_panic: &ShouldPanic, message: &str) -> TestResult {
    let mut hook = PanicHook::new();
    let id = hook.next_test_id();
    assert!(hook.capture(Some(id), panicked(message)));
    let report = PanicReport {
        captured: hook.take_current_panic_capture(Some(id)),
        payload: Some(message.to_string()),
    };
    TestResult::from_result(should_panic, 1_000_000, Err(report))
}

fn error_result(cause: FailureCause) -> TestResult {
    TestResult::from_result(&ShouldPanic::No, 1_000_000, Ok(Err(cause)))
}

#[test]
fn failure_cause_variants() {
    // ReturnedMessage
    let cause = FailureCause::ReturnedMessage("simple message".to_string());
    assert_eq!(cause.render(), "simple message");
    assert!(cause.panic_message().is_none());

    // ReturnedError (prefer display)
    let cause = FailureCause::ReturnedError {
        display: "display text".to_string(),
        debug: "debug text".to_string(),
        prefer_debug: false,
    };
    assert_eq!(cause.render(), "display text");

    // ReturnedError (prefer debug, e.g. anyhow)
    let cause = FailureCause::ReturnedError {
        display: "display text".to_string(),
        debug: "debug text".to_string(),
        prefer_debug: true,
    };
    assert_eq!(cause.render(), "debug text");

    // HarnessError
    let cause = FailureCause::HarnessError("harness error".to_string());
    assert_eq!(cause.render(), "harness error");

    // Panic with message
    let cause = FailureCause::Panic(PanicCause {
        message: Some("panic msg".to_string()),
        location: None,
        backtrace: None,
    });
    assert_eq!(cause.render(), "panic msg");
    assert_eq!(cause.panic_message(), Some("panic msg"));
}

#[test]
fn string_error() {
    let result = error_result(FailureCause::from_error(
        "something went wrong".to_string(),
        format!("{:?}", "something went wrong"),
        ErrorKind::Message,
    ));
    assert!(result.is_failed());
    assert_eq!(result.failure_message().unwrap(), "something went wrong");
}

#[test]
fn anyhow_error() {
    let inner = std::io::Error::new(std::io::ErrorKind::NotFound, "file not found");
    let err = anyhow::Error::new(inner).context("operation failed");
    let result = error_result(FailureCause::from_error(
        format!("{err}"),
        format!("{err:?}"),
        ErrorKind::Chain,
    ));
    assert!(result.is_failed());
    let msg = result.failure_message().unwrap();
    assert!(
        msg.contains("operation failed"),
        "Expected 'operation failed', got: {msg}"
    );
    assert!(
        msg.contains("file not found"),
        "Expected 'file not found', got: {msg}"
    );
}

#[test]
fn std_io_error() {
    let err = std::io::Error::new(std::io::ErrorKind::NotFound, "file not found");
    let result = error_result(FailureCause::from_error(
        format!("{err}"),
        format!("{err:?}"),
        ErrorKind::Other,
    ));
    assert!(result.is_failed());
    // Shown by Display, not Debug: no "Custom { kind: NotFound, ... }"
    assert_eq!(result.failure_message().unwrap(), "file not found");
}

#[test]
fn panic_with_location_info() {
    let result = panic_result(&ShouldPanic::No, "test panic with location");
    assert!(result.is_failed());
    match result.failure_cause().unwrap() {
        FailureCause::Panic(p) => {
            assert!(p.location.is_some(), "Expected location info");
            let loc = p.location.as_ref().unwrap();
            assert!(
                loc.file.contains("internal.rs"),
                "Expected file to contain internal.rs, got: {}",
                loc.file
            );
            assert!(loc.line > 0, "Expected non-zero line number");
        }
        other => panic!("Expected Panic cause, got: {other:?}"),
    }
}

#[test]
fn panic_render_includes_location() {
    let result = panic_result(&ShouldPanic::No, "location test");
    let msg = result.failure_message().unwrap();
    assert!(
        msg.contains("location test"),
        "Expected panic message, got: {msg}"
    );
    assert!(
        msg.contains("\n  at "),
        "Expected location line in render, got: {msg}"
    );
    assert_eq!(msg, "location test\n  at src/internal.rs:12:5");
}

#[test]
fn should_panic_with_message_matching() {
    let test_result = panic_result(
        &ShouldPanic::WithMessage("expected panic".to_string()),
        "expected panic message",
    );
    assert!(
        test_result.is_passed(),
        "Expected test to pass with matching panic message"
    );
}

#[test]
fn should_panic_with_wrong_message() {
    let test_result = panic_result(
        &ShouldPanic::WithMessage("completely different".to_string()),
        "actual panic message",
    );
    assert!(
        test_result.is_failed(),
        "Expected test to fail with wrong panic message"
    );
    let msg = test_result.failure_message().unwrap();
    assert!(
        msg.contains("unexpected message"),
        "Expected 'unexpected message' in: {msg}"
    );
}

#[test]
fn detached_thread_panic_detected() {
    let mut hook = PanicHook::new();
    let test_id = hook.next_test_id();
    hook.create_detached_collector(test_id);
    hook.collect_detached(test_id, panicked("background thread panic"));
    let passed = TestResult::from_result(&ShouldPanic::No, 1_000_000, Ok(Ok(())));
    let panics = hook.take_detached_collector(test_id).unwrap();
    let test_result =
        apply_detached_panics(passed, DetachedPanicPolicy::FailTest, &panics, 1_000_000);
    assert!(
        test_result.is_failed(),
        "Expected test to fail due to detached panic"
    );
    let msg = test_result.failure_message().unwrap();
    assert!(
        msg.contains("Detached task(s) panicked"),
        "Expected detached panic message, got: {msg}"
    );
    assert!(
        msg.contains("background thread panic"),
        "Expected original panic message, got: {msg}"
    );
}

#[test]
fn detached_thread_panic_ignored_with_policy() {
    let mut hook = PanicHook::new();
    let test_id = hook.next_test_id();
    hook.create_detached_collector(test_id);
    hook.collect_detached(test_id, panicked("ignored thread panic"));
    let passed = TestResult::from_result(&ShouldPanic::No, 1_000_000, Ok(Ok(())));
    let panics = hook.take_detached_collector(test_id).unwrap();
    assert!(
        !panics.is_empty(),
        "Expected panics in collector even with Ignore policy"
    );
    let test_result =
        apply_detached_panics(passed, DetachedPanicPolicy::Ignore, &panics, 1_000_000);
    assert!(
        test_result.is_passed(),
        "Expected test to pass with Ignore policy"
    );
}

#[test]
fn detached_task_panic_detected() {
    let mut hook = PanicHook::new();
    let test_id = hook.next_test_id();
    hook.create_detached_collector(test_id);
    hook.collect_detached(test_id, panicked("detached task panic"));
    let panics = hook.take_detached_collector(test_id).unwrap();
    assert_eq!(panics.len(), 1);
    assert!(
        panics[0]
            .message
            .as_ref()
            .unwrap()
            .contains("detached task panic"),
        "Expected panic message, got: {:?}",
        panics[0].message
    );
}

#[test]
fn backtrace_is_shown_unless_empty_or_disabled() {
    let with = |backtrace: &str| {
        PanicCause {
            message: Some("m".to_string()),
            location: None,
            backtrace: Some(backtrace.to_string()),
        }
        .render()
    };
    assert_eq!(with("0: main"), "m\n\nStack backtrace:\n0: main");
    assert_eq!(with("disabled backtrace"), "m");
    assert_eq!(with(""), "m");
}

#[test]
fn should_panic_without_panic_fails() {
    let result = TestResult::from_result(&ShouldPanic::Yes, 3, Ok(Ok(())));
    assert_eq!(
        result.failure_message().as_deref(),
        Some("Test did not panic as expected")
    );
    assert!(panic_result(&ShouldPanic::Yes, "any").is_passed());
}

#[test]
fn panic_without_capture_shows_the_payload() {
    let report = PanicReport {
        captured: None,
        payload: Some("from the payload".to_string()),
    };
    let result = TestResult::from_result(&ShouldPanic::No, 3, Err(report));
    assert_eq!(result.failure_message().as_deref(), Some("from the payload"));
}

#[test]
fn returned_unit_and_ok_are_no_failure() {
    assert!(().into_result().is_ok());
    assert!(Ok::<u8, FailureCause>(1).into_result().is_ok());
    let failed: Result<u8, FailureCause> = Err(FailureCause::ReturnedMessage("no".to_string()));
    assert_eq!(failed.into_result().unwrap_err().render(), "no");
}

fn summary(median: u64) -> Summary {
    Summary {
        median,
        median_text: median.to_string(),
        deviation_text: "0".to_string(),
        median_grouped: median.to_string(),
        deviation_grouped: "0".to_string(),
    }
}

#[test]
fn throughput_is_bytes_per_median_iteration() {
    let of = |median: u64, bytes: u64| {
        match TestResult::from_summary(&ShouldPanic::No, 1, Ok(summary(median)), bytes) {
            TestResult::Benchmarked { mb_s, .. } => mb_s,
            other => panic!("Expected a measurement, got: {other:?}"),
        }
    };
    assert_eq!(of(250, 1024), 4096);
    assert_eq!(of(0, 3), 3000);
    let failed = TestResult::from_summary(
        &ShouldPanic::No,
        1,
        Err(PanicReport {
            captured: None,
            payload: None,
        }),
        1,
    );
    assert!(failed.is_failed());
}

#[test]
fn suite_result_counts_each_kind() {
    let tests: Vec<RegisteredTest> = (0..6).map(|i| make_test(&format!("t{i}"))).collect();
    let results = vec![
        (make_test("t0"), TestResult::passed(1)),
        (
            make_test("t1"),
            TestResult::failed(1, FailureCause::HarnessError("x".to_string())),
        ),
        (make_test("t2"), TestResult::ignored()),
        (make_test("t3"), TestResult::benchmarked(1, summary(2), 3)),
        (make_test("t4"), TestResult::passed(1)),
    ];
    let suite = SuiteResult::from_test_results(&tests, &results, 77);
    assert_eq!(
        (suite.passed, suite.failed, suite.ignored, suite.measured),
        (2, 1, 1, 1)
    );
    assert_eq!(
        suite.passed + suite.failed + suite.ignored + suite.measured,
        results.len()
    );
    assert_eq!(suite.filtered_out, 1);
    assert_eq!(suite.exec_time, 77);
    assert_eq!(SuiteResult::exit_code(&results), 101);
    assert_eq!(
        SuiteResult::exit_code(&vec![(make_test("t0"), TestResult::passed(1))]),
        0
    );
}

#[test]
fn sorting_by_time_is_stable() {
    let lines = vec![
        CapturedOutput::stderr(2, "b".to_string()),
        CapturedOutput::stdout(1, "a".to_string()),
        CapturedOutput::host(2, "c".to_string()),
    ];
    let sorted: Vec<String> = sort_by_time(&lines)
        .iter()
        .map(|c| c.line().to_string())
        .collect();
    assert_eq!(sorted, vec!["a", "b", "c"]);
}

#[test]
fn captured_panic_is_taken_once() {
    let mut hook = PanicHook::new();
    let a = hook.next_test_id();
    let b = hook.next_test_id();
    assert_ne!(a, b);
    assert!(!hook.capture(None, panicked("outside of a test")));
    assert!(hook.capture(Some(a), panicked("inside")));
    assert!(hook.take_panic_capture(b).is_none());
    let taken = hook.take_panic_capture(a).unwrap();
    assert_eq!(taken.message.as_deref(), Some("inside"));
    assert!(hook.take_panic_capture(a).is_none());
    assert!(hook.take_detached_collector(a).is_none());
}
