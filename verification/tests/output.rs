use test_r_core::args::{Arguments, ColorSetting, FormatSetting, TimeThreshold};
use test_r_core::internal::{
    FlakinessControl, RegisteredTest, TestFunction, TestProperties,
};
use test_r_core::output::ctrf::{build_test_value, show_report, Ctrf, CtrfStatus, PendingTest};
use test_r_core::output::json::Json;
use test_r_core::output::junit::JUnit;
use test_r_core::output::lines::{collect_stderr, collect_stdout};
use test_r_core::output::pretty::Pretty;
use test_r_core::output::progress::{strip_ansi, StderrProgress};
use test_r_core::output::select::{
    test_runner_output, unique_log_file_name, uses_log_file, OutputKind,
};
use test_r_core::output::style::{
    style_bench, style_critical_time, style_failed, style_ignored, style_ok, style_progress,
    style_stderr, Paint,
};
use test_r_core::output::term_progress::{
    supports_osc_9_4, term_features_has_progress, TermProgress, Terminal,
};
use test_r_core::output::terse::Terse;
use test_r_core::results::{CapturedOutput, FailureCause, Summary, TestResult};

fn make_test(name: &str) -> RegisteredTest {
    RegisteredTest {
        name: name.to_string(),
        crate_name: "c".to_string(),
        module: "m".to_string(),
        run: TestFunction::Sync(0),
        props: TestProperties::default(),
        dependencies: None,
    }
}

fn failed(message: &str) -> TestResult {
    TestResult::failed(1_500_000_000, FailureCause::ReturnedMessage(message.to_string()))
}

fn measured() -> TestResult {
    TestResult::benchmarked(
        7,
        Summary {
            median: 1234,
            median_text: "1234.5".to_string(),
            deviation_text: "7".to_string(),
            median_grouped: "1,234.50".to_string(),
            deviation_grouped: "7.00".to_string(),
        },
        42,
    )
}

fn with_lines(mut result: TestResult, lines: Vec<CapturedOutput>) -> TestResult {
    result.set_captured_output(lines);
    result
}

fn captured() -> Vec<CapturedOutput> {
    vec![
        CapturedOutput::stdout(1, "out \"1\"".to_string()),
        CapturedOutput::stderr(2, "err".to_string()),
        CapturedOutput::stdout(3, "out 2".to_string()),
        CapturedOutput::host(4, "from the host".to_string()),
    ]
}

fn limits(warn: u128, critical: u128) -> TimeThreshold {
    TimeThreshold { warn, critical }
}

fn pretty(report_time: bool) -> Pretty {
    Pretty::new(
        false,
        report_time,
        limits(1_000_000_000, 2_000_000_000),
        limits(5_000_000_000, 6_000_000_000),
    )
}

#[test]
fn styles_render_as_their_codes() {
    assert_eq!(style_ok().render(), "\u{1b}[32m");
    assert_eq!(style_failed().render(), "\u{1b}[1m\u{1b}[31m");
    assert_eq!(style_ignored().render(), "\u{1b}[2m\u{1b}[33m");
    assert_eq!(style_bench().render(), "\u{1b}[36m");
    assert_eq!(style_progress().render(), "\u{1b}[1m\u{1b}[97m");
    assert_eq!(style_stderr().render(), "\u{1b}[33m");
    assert_eq!(style_critical_time().render(), "\u{1b}[31m");
    assert_eq!(style_ok().render_reset(), "\u{1b}[0m");
    for color in 0..16u8 {
        let code = if color < 8 { 30 + color } else { 82 + color };
        let paint = Paint {
            bold: false,
            dimmed: false,
            color,
        };
        assert_eq!(paint.render(), format!("\u{1b}[{code}m"));
    }
    assert_eq!(style_ok().paint("x"), "\u{1b}[32mx\u{1b}[0m");
}

#[test]
fn lines_are_collected_by_stream() {
    assert_eq!(collect_stdout(&captured()), vec!["out \"1\"", "out 2"]);
    assert_eq!(collect_stderr(&captured()), vec!["err"]);
}

#[test]
fn json_report_has_a_line_for_each_event() {
    let json = Json::new(false);
    let test = make_test("a\"b");
    assert_eq!(
        json.start_suite(&vec![make_test("a"), make_test("b")]),
        "{ \"type\": \"suite\", \"event\": \"started\", \"test_count\": 2 }\n"
    );
    assert_eq!(
        json.start_running_test(&test),
        "{ \"type\": \"test\", \"event\": \"started\", \"name\": \"c::m::a\\\"b\" }\n"
    );
    assert_eq!(
        json.finished_running_test(&test, &with_lines(TestResult::passed(1), captured())),
        "{ \"type\": \"test\", \"event\": \"ok\", \"name\": \"c::m::a\\\"b\" }\n"
    );
    assert_eq!(
        json.finished_running_test(&test, &TestResult::ignored()),
        "{ \"type\": \"test\", \"event\": \"ignored\", \"name\": \"c::m::a\\\"b\" }\n"
    );
    assert_eq!(
        json.finished_running_test(&make_test("t"), &measured()),
        "{ \"type\": \"bench\", \"name\": \"c::m::t\", \"median\": 1234.5, \"deviation\": 7, \"mib_per_second\": 42 }\n"
    );
}

#[test]
fn json_report_shows_the_output_of_failures_and_on_demand() {
    assert_eq!(
        Json::new(false)
            .finished_running_test(&make_test("t"), &with_lines(failed("boom"), captured())),
        "{ \"type\": \"test\", \"event\": \"failed\", \"name\": \"c::m::t\", \"stdout\": \"out \\\"1\\\"\\nout 2\\nError: boom\" }\n"
    );
    assert_eq!(
        Json::new(true).finished_running_test(
            &make_test("t"),
            &with_lines(TestResult::passed(1), captured())
        ),
        "{ \"type\": \"test\", \"event\": \"ok\", \"name\": \"c::m::t\", \"stdout\": \"out \\\"1\\\"\\nout 2\" }\n"
    );
}

#[test]
fn json_report_is_made_of_json_documents() {
    let tests = vec![make_test("a\"\\"), make_test("b"), make_test("\n")];
    let json = Json::new(true);
    let result = with_lines(failed("\\\"boom\""), captured());
    let object: serde_json::Value =
        serde_json::from_str(&json.finished_running_test(&tests[0], &result)).expect("an object");
    assert_eq!(field(&object, &["name"]), "c::m::a\"\\");
    assert_eq!(field(&object, &["stdout"]), "out \"1\"\nout 2\nError: \\\"boom\"");
    for line in [
        json.start_suite(&tests),
        json.start_running_test(&tests[2]),
        json.finished_running_test(&tests[1], &with_lines(TestResult::passed(1), captured())),
        json.finished_running_test(&tests[1], &measured()),
        json.finished_suite(&tests, &vec![], 1),
    ] {
        let value: serde_json::Value = serde_json::from_str(&line).expect("an object");
        assert!(value.is_object());
    }
    assert_eq!(
        json.test_list(&tests[..2].to_vec()),
        "[\n\"c::m::a\\\"\\\\\",\n\"c::m::b\"\n]\n"
    );
    let list: serde_json::Value = serde_json::from_str(&json.test_list(&tests)).expect("an array");
    assert_eq!(list.as_array().map(|names| names.len()), Some(3));
    let list: serde_json::Value = serde_json::from_str(&json.test_list(&vec![])).expect("an array");
    assert_eq!(list.as_array().map(|names| names.len()), Some(0));
}

#[test]
fn json_report_ends_with_the_totals() {
    let tests = vec![make_test("a"), make_test("b"), make_test("x")];
    let results = vec![
        (make_test("a"), TestResult::passed(1)),
        (make_test("b"), failed("boom")),
    ];
    assert_eq!(
        Json::new(false).finished_suite(&tests, &results, 1_250_000_000),
        "{ \"type\": \"suite\", \"event\": \"failed\", \"passed\": \"1\", \"failed\": 1, \"ignored\": 0, \"measured\": 0, \"filtered_out\": 1, \"exec_time\": 1.25 }\n"
    );
}

#[test]
fn escaping_covers_every_control_character() {
    let json = Json::new(false);
    let name = "\u{8}\u{c}\n\r\t\u{1}\u{1f}\u{7f}\\\u{e9}";
    assert_eq!(
        json.start_running_test(&make_test(name)),
        "{ \"type\": \"test\", \"event\": \"started\", \"name\": \"c::m::\\b\\f\\n\\r\\t\\u0001\\u001f\u{7f}\\\\\u{e9}\" }\n"
    );
}

#[test]
fn pretty_report_aligns_indexes_and_results() {
    let mut pretty = pretty(false);
    let tests: Vec<RegisteredTest> = (0..10).map(|_| make_test("long_name")).collect();
    assert_eq!(
        pretty.start_suite(&tests),
        "\u{1b}[1m\u{1b}[97mRunning 10 tests\u{1b}[0m\n\n"
    );
    assert_eq!(
        pretty.start_running_test(&make_test("t"), 0, 10),
        "\u{1b}[1m\u{1b}[97m[ 1/10]\u{1b}[0m Running test: c::m::t\n"
    );
    assert_eq!(
        pretty.finished_running_test(&make_test("t"), 9, 10, &TestResult::passed(1)),
        "\u{1b}[1m\u{1b}[97m[10/10]\u{1b}[0m Finished test: c::m::t         [\u{1b}[32mPASSED\u{1b}[0m]\n"
    );
    assert_eq!(
        pretty.finished_running_test(&make_test("long_name"), 0, 10, &TestResult::ignored()),
        "\u{1b}[1m\u{1b}[97m[ 1/10]\u{1b}[0m Finished test: c::m::long_name [\u{1b}[2m\u{1b}[33mIGNORED\u{1b}[0m]\n"
    );
    assert_eq!(
        pretty.finished_running_test(&make_test("long_name"), 0, 10, &measured()),
        "\u{1b}[1m\u{1b}[97m[ 1/10]\u{1b}[0m Finished test: c::m::long_name [\u{1b}[36mBENCH\u{1b}[0m]         \u{1b}[36m      1,234.50 ns/iter (+/- 7.00)\u{1b}[0m\n"
    );
}

#[test]
fn pretty_report_colors_times_by_their_limits() {
    let mut pretty = pretty(true);
    pretty.start_suite(&vec![make_test("t")]);
    let shown = |exec_time: u64| {
        pretty.finished_running_test(&make_test("t"), 0, 1, &TestResult::passed(exec_time))
    };
    let line = |color: &str, time: &str| {
        format!("\u{1b}[1m\u{1b}[97m[1/1]\u{1b}[0m Finished test: c::m::t [\u{1b}[32mPASSED\u{1b}[0m]         <{color}{time}s\u{1b}[0m>\n")
    };
    assert_eq!(shown(999_999_999), line("\u{1b}[32m", "1.000"));
    assert_eq!(shown(1_000_000_000), line("\u{1b}[33m", "1.000"));
    assert_eq!(shown(2_345_678_901), line("\u{1b}[31m", "2.346"));
}

#[test]
fn pretty_report_ends_with_outputs_totals_and_failures() {
    let mut pretty = pretty(false);
    let tests = vec![make_test("a"), make_test("b")];
    pretty.start_suite(&tests);
    let results = vec![
        (
            make_test("a"),
            with_lines(TestResult::passed(1), captured()),
        ),
        (make_test("b"), with_lines(failed("boom"), captured())),
    ];
    let output = |name: &str| {
        format!("---- c::m::{name} stdout/err ----\nout \"1\"\n\u{1b}[33merr\u{1b}[0m\nout 2\n[host] from the host\n\n")
    };
    let end = "\ntest result: \u{1b}[1m\u{1b}[31mFAILED\u{1b}[0m; 1 passed; 1 failed; 0 ignored; 0 measured; 0 filtered out; finished in 0.250s\n\nFailed tests:\n - c::m::b \u{1b}[2m\u{1b}[33m(boom)\u{1b}[0m\n\n";
    assert_eq!(
        pretty.finished_suite(&tests, &results, 250_000_000),
        format!("{}{end}", output("b"))
    );
    pretty.show_output = true;
    assert_eq!(
        pretty.finished_suite(&tests, &results, 250_000_000),
        format!("{}{}{end}", output("a"), output("b"))
    );
    assert_eq!(pretty.finished_suite(&tests, &vec![], 0), "\ntest result: \u{1b}[32mok\u{1b}[0m; 0 passed; 0 failed; 0 ignored; 0 measured; 2 filtered out; finished in 0.000s\n\n");
    assert_eq!(pretty.test_list(&tests), "c::m::a\nc::m::b\n\n2 tests\n");
    assert_eq!(pretty.warning("careful"), "\u{1b}[33mcareful\u{1b}[0m\n");
}

#[test]
fn terse_report_breaks_lines_after_eighty_characters() {
    let mut terse = Terse::new();
    let dot = "\u{1b}[32m.\u{1b}[0m";
    for _ in 0..80 {
        assert_eq!(
            terse.finished_running_test(&make_test("t"), &TestResult::passed(1)),
            dot
        );
    }
    assert_eq!(terse.state.column, 80);
    assert_eq!(
        terse.finished_running_test(&make_test("t"), &TestResult::passed(1)),
        format!("{dot}\n")
    );
    assert_eq!(terse.state.column, 0);
}

#[test]
fn terse_report_gives_failures_a_line() {
    let mut terse = Terse::new();
    let line = "c::m::t --- \u{1b}[1m\u{1b}[31mFAILED\u{1b}[0m\n";
    assert_eq!(
        terse.finished_running_test(&make_test("t"), &failed("boom")),
        line
    );
    assert_eq!(
        terse.finished_running_test(&make_test("t"), &TestResult::ignored()),
        "\u{1b}[2m\u{1b}[33m.\u{1b}[0m"
    );
    assert_eq!(
        terse.finished_running_test(&make_test("t"), &failed("boom")),
        format!("\n{line}")
    );
    assert_eq!(
        terse.finished_running_test(&make_test("t"), &measured()),
        "\u{1b}[36mbench\u{1b}[0m"
    );
    assert_eq!(terse.state.column, 14);
    let end = terse.finished_suite(&vec![], &vec![], 0);
    assert!(end.starts_with("\n\n\ntest result: "));
    assert_eq!(terse.state.column, 0);
}

#[test]
fn progress_lines_are_padded_and_stripped() {
    let mut progress = StderrProgress::new();
    assert_eq!(
        progress.start_suite(100),
        "\u{1b}[1m\u{1b}[97mRunning 100 tests\u{1b}[0m"
    );
    let line = progress.start_running_test(&make_test("t"), 8, 100);
    assert_eq!(
        line,
        "\u{1b}[1m\u{1b}[97m[  9/100]\u{1b}[0m Running test: c::m::t"
    );
    assert_eq!(strip_ansi(&line), "[  9/100] Running test: c::m::t");
    assert_eq!(
        strip_ansi(&progress.finished_running_test(&make_test("t"), 99, 100, &failed("x"))),
        "[100/100] Finished test: c::m::t [FAILED]"
    );
    assert_eq!(
        strip_ansi(&progress.finished_running_test(&make_test("t"), 12345, 100, &measured())),
        "[12346/100] Finished test: c::m::t [BENCH]"
    );
}

#[test]
fn stripping_drops_only_escape_sequences() {
    assert_eq!(strip_ansi(&style_failed().paint("plain")), "plain");
    assert_eq!(strip_ansi("a\u{1b}[1;31mb"), "ab");
    assert_eq!(strip_ansi("a\u{1b}Xb"), "ab");
    assert_eq!(strip_ansi("a\u{1b}"), "a");
    assert_eq!(strip_ansi("a\u{1b}[1;3"), "a");
    assert_eq!(strip_ansi("[31m"), "[31m");
}

#[test]
fn title_bar_shows_progress_and_failure() {
    let mut progress = TermProgress::new(true);
    assert_eq!(progress.update("50").as_deref(), Some("\u{1b}]9;4;1;50\u{1b}\\"));
    progress.mark_failure();
    assert_eq!(progress.update("75").as_deref(), Some("\u{1b}]9;4;2;75\u{1b}\\"));
    assert_eq!(progress.clear().as_deref(), Some("\u{1b}]9;4;0;0\u{1b}\\"));
    let off = TermProgress::new(false);
    assert_eq!(off.update("50"), None);
    assert_eq!(off.clear(), None);
}

#[test]
fn terminals_that_show_progress() {
    let terminal = |program: Option<&str>, features: Option<&str>| Terminal {
        is_terminal: true,
        windows_terminal: false,
        conemu_ansi: None,
        term_program: program.map(String::from),
        term_features: features.map(String::from),
    };
    assert!(!supports_osc_9_4(&terminal(None, None)));
    assert!(supports_osc_9_4(&terminal(Some("WezTerm"), None)));
    assert!(supports_osc_9_4(&terminal(Some("ghostty"), None)));
    assert!(!supports_osc_9_4(&terminal(Some("iTerm.app"), None)));
    assert!(supports_osc_9_4(&terminal(Some("iTerm.app"), Some("T2P"))));
    assert!(!supports_osc_9_4(&Terminal {
        is_terminal: false,
        ..terminal(Some("ghostty"), None)
    }));
    assert!(supports_osc_9_4(&Terminal {
        conemu_ansi: Some("ON".to_string()),
        ..terminal(None, None)
    }));
    assert!(!supports_osc_9_4(&Terminal {
        conemu_ansi: Some("OFF".to_string()),
        ..terminal(None, None)
    }));
    assert!(supports_osc_9_4(&Terminal {
        windows_terminal: true,
        ..terminal(None, None)
    }));
}

#[test]
fn terminal_features_are_read_capability_by_capability() {
    assert!(term_features_has_progress("P"));
    assert!(term_features_has_progress("T3PSc"));
    assert!(!term_features_has_progress("T3P2Sc"));
    assert!(!term_features_has_progress("Pa"));
    assert!(!term_features_has_progress("T3;P"));
    assert!(term_features_has_progress("P;T"));
    assert!(!term_features_has_progress(""));
}

#[test]
fn junit_report_of_a_run() {
    let mut junit = JUnit::new(false);
    junit.start_suite();
    let tests = vec![make_test("a"), make_test("b"), make_test("x")];
    let results = vec![
        (
            make_test("a"),
            with_lines(TestResult::passed(500_000_000), captured()),
        ),
        (make_test("b"), with_lines(failed("a < \"b\""), captured())),
        (make_test("i"), TestResult::ignored()),
    ];
    junit.finished_suite(&tests, &results, 2_000_000_000);
    assert_eq!(
        junit.text(),
        "<?xml version=\"1.0\" encoding=\"UTF-8\"?>
<testsuites time=\"2\">
    <testsuite name=\"test\" package=\"test1\" id=\"0\" errors=\"0\" failures=\"1\" tests=\"3\" skipped=\"1\" time=\"2\">
        <testcase name=\"a\" classname=\"c::m\" time=\"0.5\"/>
        <testcase name=\"b\" classname=\"c::m\" time=\"1.5\">
            <failure type=\"assert\" message=\"a &lt; &quot;b&quot;\"/>
            <system-out><![CDATA[out \"1\"\nout 2]]></system-out>
            <system-err><![CDATA[err]]></system-err>
        </testcase>
    </testsuite>
</testsuites>"
    );
}

#[test]
fn junit_report_shows_output_on_demand_and_marks_benchmarks() {
    let mut junit = JUnit::new(true);
    let results = vec![(make_test("a"), with_lines(measured(), captured()))];
    junit.finished_suite(&vec![make_test("a")], &results, 0);
    assert_eq!(
        junit.text(),
        "<testsuites time=\"0\">
    <testsuite name=\"test\" package=\"test1\" id=\"0\" errors=\"0\" failures=\"0\" tests=\"1\" skipped=\"0\" time=\"0\">
        <testcase name=\"a\" classname=\"benchmark::c::m\" time=\"0.000000007\">
            <system-out><![CDATA[out \"1\"\nout 2]]></system-out>
            <system-err><![CDATA[err]]></system-err>
        </testcase>
    </testsuite>
</testsuites>"
    );
}

#[test]
fn junit_list_of_tests() {
    let mut junit = JUnit::new(false);
    junit.test_list(&vec![make_test("a")]);
    assert_eq!(
        junit.text(),
        "<?xml version=\"1.0\" encoding=\"UTF-8\"?>
<testsuites>
    <testsuite name=\"test\" package=\"test1\" id=\"0\">
        <testcase name=\"a\" classname=\"c::m\"/>
    </testsuite>
</testsuites>"
    );
}

#[test]
fn ctrf_entry_folds_host_lines_into_the_output() {
    let pending = PendingTest {
        start: Some(5),
        retries: None,
        flaky: None,
    };
    let entry = build_test_value(
        &make_test("b"),
        &with_lines(failed("boom"), captured()),
        false,
        pending,
        9,
    );
    assert_eq!(entry.name, "c::m::b");
    assert_eq!(entry.status, CtrfStatus::Failed);
    assert_eq!(entry.stdout, vec!["out \"1\"", "out 2", "[host] from the host"]);
    assert_eq!(entry.stderr, vec!["err"]);
    assert_eq!(entry.message.as_deref(), Some("boom"));
    assert_eq!((entry.start, entry.stop), (Some(5), Some(9)));

    let quiet = build_test_value(
        &make_test("a"),
        &with_lines(TestResult::passed(1), captured()),
        false,
        pending,
        9,
    );
    assert!(quiet.stdout.is_empty() && quiet.stderr.is_empty());
}

fn field<'a>(value: &'a serde_json::Value, path: &[&str]) -> &'a serde_json::Value {
    path.iter().fold(value, |v, key| &v[*key])
}

#[test]
fn ctrf_report_is_a_document_with_summary_and_entries() {
    let mut ctrf = Ctrf::new(false);
    assert_eq!(ctrf.snapshot(true, true, 1, "now"), None);
    ctrf.start_suite(100);
    let mut flaky = make_test("a");
    flaky.props.flakiness_control = FlakinessControl::RetryKnownFlaky(3);
    ctrf.start_running_test(&flaky, 110);
    ctrf.repeat_running_test(&flaky);
    ctrf.repeat_running_test(&flaky);
    ctrf.finished_running_test(&flaky, &TestResult::passed(3_000_000), 120);
    assert_eq!(ctrf.snapshot(false, false, 1, "now"), None);
    assert!(ctrf.snapshot(true, false, 1, "now").is_some());
    ctrf.start_running_test(&make_test("i"), 121);
    ctrf.finished_running_test(&make_test("i"), &TestResult::ignored(), 122);
    let results = vec![
        (flaky, TestResult::passed(3_000_000)),
        (make_test("i"), TestResult::ignored()),
        (make_test("late"), with_lines(failed("boom"), captured())),
    ];
    let report = ctrf
        .finished_suite(&results, 200, "\"now\"")
        .expect("the run was started");
    assert!(report.ends_with("}\n"));
    let value: serde_json::Value = serde_json::from_str(&report).expect("valid JSON");
    assert_eq!(field(&value, &["reportFormat"]), "CTRF");
    assert_eq!(field(&value, &["generatedBy"]), "test-r");
    assert_eq!(field(&value, &["timestamp"]), "\"now\"");
    assert_eq!(field(&value, &["specVersion"]), "0.0.0");
    assert_eq!(field(&value, &["results", "tool", "name"]), "ctrf-rs");
    let summary = field(&value, &["results", "summary"]);
    for (key, expected) in [
        ("tests", 3),
        ("passed", 1),
        ("failed", 1),
        ("skipped", 1),
        ("pending", 0),
        ("other", 0),
        ("suites", 1),
        ("start", 100),
        ("stop", 200),
    ] {
        assert_eq!(summary[key], expected, "{key}");
    }
    let entries = field(&value, &["results", "tests"]);
    assert_eq!(entries[0]["name"], "c::m::a");
    assert_eq!(entries[0]["status"], "passed");
    assert_eq!(entries[0]["duration"], 3);
    assert_eq!(entries[0]["retries"], 2);
    assert_eq!(entries[0]["flaky"], true);
    assert_eq!(entries[0]["start"], 110);
    assert_eq!(entries[0]["stop"], 120);
    assert_eq!(entries[1]["status"], "skipped");
    assert_eq!(entries[2]["status"], "failed");
    assert_eq!(entries[2]["message"], "boom");
    assert_eq!(entries[2]["stop"], 200);
    assert_eq!(entries[2]["suite"], "c::m");
    assert_eq!(ctrf.snapshot(true, true, 1, "now"), None);
}

#[test]
fn ctrf_entry_has_its_fields_in_order() {
    let pending = PendingTest {
        start: Some(5),
        retries: Some(2),
        flaky: Some(true),
    };
    let result = with_lines(failed("a\"b"), captured());
    let entry = build_test_value(&make_test("t"), &result, false, pending, 9);
    let report = show_report(&vec![entry], 1, 2, "t");
    let shown = "\"tests\":[{\"duration\":1500,\"flaky\":true,\"message\":\"a\\\"b\",\"name\":\"c::m::t\",\"retries\":2,\"start\":5,\"status\":\"failed\",\"stderr\":[\"err\"],\"stdout\":[\"out \\\"1\\\"\",\"out 2\",\"[host] from the host\"],\"stop\":9,\"suite\":\"c::m\"}]";
    assert!(report.contains(shown), "{report}");
    let pending = PendingTest {
        start: None,
        retries: None,
        flaky: None,
    };
    let entry = build_test_value(&make_test("t"), &TestResult::passed(3_999_999), false, pending, 9);
    let report = show_report(&vec![entry], 1, 2, "t");
    let shown = "\"tests\":[{\"duration\":3,\"name\":\"c::m::t\",\"status\":\"passed\",\"stop\":9,\"suite\":\"c::m\"}]";
    assert!(report.contains(shown), "{report}");
}

#[test]
fn junit_report_divides_text_that_would_end_its_section() {
    let line = |line: &str| vec![CapturedOutput::stdout(1, line.to_string())];
    let report = |content: &str| {
        let mut junit = JUnit::new(true);
        let tests = vec![make_test("t")];
        let results = vec![(make_test("t"), with_lines(TestResult::passed(1), line(content)))];
        junit.finished_suite(&tests, &results, 1);
        junit.text()
    };
    assert!(report("a]]>b]]>").contains(
        "<system-out><![CDATA[a]]]]><![CDATA[>b]]]]><![CDATA[>]]></system-out>"
    ));
    assert!(report("]>]]").contains("<system-out><![CDATA[]>]]]]></system-out>"));
}

#[test]
fn ctrf_report_without_entries_counts_no_suites() {
    assert_eq!(
        show_report(&vec![], 1, 2, "t"),
        "{\"generatedBy\":\"test-r\",\"reportFormat\":\"CTRF\",\"results\":{\"summary\":{\"failed\":0,\"other\":0,\"passed\":0,\"pending\":0,\"skipped\":0,\"start\":1,\"stop\":2,\"tests\":0},\"tests\":[],\"tool\":{\"name\":\"ctrf-rs\"}},\"specVersion\":\"0.0.0\",\"timestamp\":\"t\"}\n"
    );
}

#[test]
fn report_is_chosen_by_the_arguments() {
    let of = |args: &Arguments| test_runner_output(args, None, None);
    assert_eq!(
        of(&Arguments::default()),
        OutputKind::Pretty {
            color: ColorSetting::Auto,
            show_output: false,
            report_time: false,
            unit_test_threshold: limits(50_000_000, 100_000_000),
            integ_test_threshold: limits(500_000_000, 1_000_000_000),
        }
    );
    let with = |format: FormatSetting| Arguments {
        format: Some(format),
        show_output: true,
        ..Default::default()
    };
    assert_eq!(of(&with(FormatSetting::Terse)), OutputKind::Terse);
    assert_eq!(
        of(&with(FormatSetting::Json)),
        OutputKind::Json { show_output: true }
    );
    assert_eq!(
        of(&with(FormatSetting::Junit)),
        OutputKind::JUnit { show_output: true }
    );
    assert_eq!(
        of(&with(FormatSetting::Ctrf)),
        OutputKind::Ctrf { show_output: true }
    );
    assert_eq!(
        of(&Arguments {
            quiet: true,
            ..with(FormatSetting::Json)
        }),
        OutputKind::Terse
    );
    assert_eq!(
        of(&Arguments {
            ipc: Some("s".to_string()),
            ..with(FormatSetting::Json)
        }),
        OutputKind::IpcWorker
    );
    assert!(uses_log_file(&OutputKind::Json { show_output: true }));
    assert!(!uses_log_file(&OutputKind::Terse));
    assert_eq!(unique_log_file_name("report", "17", "xml"), "report-17.xml");
}
