//! The report in the Common Test Report Format.
use super::json;
use super::pretty;
use crate::internal::{FlakinessControl, RegisteredTest, TestModel};
use crate::results;
use crate::results::{CapturedOutput, Outcome, ResultModel, TestResult};
use crate::table;
use crate::table::{find, put};
use crate::text;
use crate::text::{concat, contains_string, decimal_u64};
use ctrf_rs::test::{Status, Test};
use std::time::Duration;
use vstd::prelude::*;

verus! {

/// The status of a test that has finished.
#[derive(Debug, Clone, Copy, PartialEq, Eq, Structural)]
pub enum CtrfStatus {
    Passed,
    Failed,
    Skipped,
}

/// The entry of a test.
#[derive(Debug)]
pub struct CtrfTest {
    pub name: String,
    pub status: CtrfStatus,
    /// In nanoseconds
    pub duration: u64,
    /// In milliseconds since the epoch
    pub start: Option<u64>,
    /// In milliseconds since the epoch
    pub stop: Option<u64>,
    pub suite: String,
    pub message: Option<String>,
    pub retries: Option<usize>,
    pub flaky: Option<bool>,
    pub stdout: Vec<String>,
    pub stderr: Vec<String>,
}

/// What a [`CtrfTest`] stands for.
#[verifier::ext_equal]
pub struct CtrfModel {
    pub name: Seq<char>,
    pub status: CtrfStatus,
    pub duration: u64,
    pub start: Option<u64>,
    pub stop: Option<u64>,
    pub suite: Seq<char>,
    pub message: Option<Seq<char>>,
    pub retries: Option<usize>,
    pub flaky: Option<bool>,
    pub stdout: Seq<Seq<char>>,
    pub stderr: Seq<Seq<char>>,
}

impl View for CtrfTest {
    type V = CtrfModel;

    open spec fn view(&self) -> CtrfModel {
        CtrfModel {
            name: self.name@,
            status: self.status,
            duration: self.duration,
            start: self.start,
            stop: self.stop,
            suite: self.suite@,
            message: text::opt_view(self.message),
            retries: self.retries,
            flaky: self.flaky,
            stdout: text::views(self.stdout@),
            stderr: text::views(self.stderr@),
        }
    }
}

/// The views of a sequence of entries.
pub open spec fn entry_views(tests: Seq<CtrfTest>) -> Seq<CtrfModel> {
    Seq::new(tests.len(), |i: int| tests[i]@)
}

/// The word for a status.
pub open spec fn status_word(status: CtrfStatus) -> Seq<char> {
    match status {
        CtrfStatus::Passed => "passed"@,
        CtrfStatus::Failed => "failed"@,
        CtrfStatus::Skipped => "skipped"@,
    }
}

/// A further field of an object, if it has a value.
pub open spec fn field(key: Seq<char>, value: Option<Seq<char>>) -> Seq<char> {
    match value {
        Some(value) => ","@ + json::string(key) + ":"@ + value,
        None => Seq::empty(),
    }
}

/// The JSON array of the lines, if there are any.
pub open spec fn lines_json(lines: Seq<Seq<char>>) -> Option<Seq<char>> {
    if lines.len() == 0 {
        None
    } else {
        let shown = Seq::new(lines.len(), |i: int| json::string(lines[i]));
        Some("["@ + text::joined(shown, ","@) + "]"@)
    }
}

/// A number, if there is one.
pub open spec fn number_json(n: Option<u64>) -> Option<Seq<char>> {
    match n {
        Some(n) => Some(text::decimal(n as nat)),
        None => None,
    }
}

/// The first half of the entry of a test. The duration is in milliseconds.
pub open spec fn entry_head(test: CtrfModel) -> Seq<char> {
    "{\"duration\":"@ + text::decimal((test.duration / 1_000_000) as nat) + field(
        "flaky"@,
        match test.flaky {
            Some(true) => Some("true"@),
            Some(false) => Some("false"@),
            None => None,
        },
    ) + field(
        "message"@,
        match test.message {
            Some(message) => Some(json::string(message)),
            None => None,
        },
    ) + field("name"@, Some(json::string(test.name))) + field(
        "retries"@,
        match test.retries {
            Some(n) => Some(text::decimal(n as nat)),
            None => None,
        },
    )
}

/// The JSON object of the entry of a test: the fields that have a value, in the order of their
/// names.
pub open spec fn entry_json(test: CtrfModel) -> Seq<char> {
    entry_head(test) + field("start"@, number_json(test.start)) + field(
        "status"@,
        Some(json::string(status_word(test.status))),
    ) + field("stderr"@, lines_json(test.stderr)) + field("stdout"@, lines_json(test.stdout))
        + field("stop"@, number_json(test.stop)) + field("suite"@, Some(json::string(test.suite)))
        + "}"@
}

/// `ctrf_rs::test::Test`, filled with the entry, and the `Display` rendering of the value that
/// `serde_json::to_value` makes of it: a compact object with its keys in order.
#[verifier::external_body]
fn show_entry(t: &CtrfTest) -> (r: String)
    ensures
        r@ == entry_json(t@),
{
    let status = match t.status {
        CtrfStatus::Passed => Status::Passed,
        CtrfStatus::Failed => Status::Failed,
        CtrfStatus::Skipped => Status::Skipped,
    };
    let mut test = Test::new(t.name.clone(), status, Duration::from_nanos(t.duration));
    (test.start, test.stop, test.suite) = (t.start, t.stop, Some(t.suite.clone()));
    (test.message, test.retries, test.flaky) = (t.message.clone(), t.retries, t.flaky);
    (test.stdout, test.stderr) = (t.stdout.clone(), t.stderr.clone());
    serde_json::to_value(&test).expect("Failed to serialize CTRF test").to_string()
}

/// `serde_json::to_string` of a text: a JSON string.
#[verifier::external_body]
fn json_string(s: &str) -> (r: String)
    ensures
        r@ == json::string(s@),
{
    serde_json::to_string(s).expect("Failed to serialize a string")
}

/// `ctrf_rs::report::REPORT_FORMAT`.
#[verifier::external_body]
fn report_format() -> (r: String)
    ensures
        r@ == "CTRF"@,
{
    ctrf_rs::report::REPORT_FORMAT.to_owned()
}

/// `ctrf_rs::report::SPEC_VERSION`, as text.
#[verifier::external_body]
fn spec_version() -> (r: String)
    ensures
        r@ == "0.0.0"@,
{
    ctrf_rs::report::SPEC_VERSION.to_string()
}

/// The lines of the standard output stream and, marked as such, those of the parent process.
pub open spec fn out_lines(captured: Seq<CapturedOutput>) -> Seq<Seq<char>>
    decreases captured.len(),
{
    if captured.len() == 0 {
        Seq::empty()
    } else {
        let before = out_lines(captured.drop_last());
        match captured.last() {
            CapturedOutput::Stdout { line, .. } => before.push(line@),
            CapturedOutput::Stderr { .. } => before,
            CapturedOutput::Host { line, .. } => before.push("[host] "@ + line@),
        }
    }
}

/// The status for an outcome.
pub open spec fn status_of(outcome: Outcome) -> CtrfStatus {
    match outcome {
        Outcome::Passed { .. } => CtrfStatus::Passed,
        Outcome::Benchmarked { .. } => CtrfStatus::Passed,
        Outcome::Failed { .. } => CtrfStatus::Failed,
        Outcome::Ignored => CtrfStatus::Skipped,
    }
}

/// The time that the test took.
pub open spec fn duration_of(outcome: Outcome) -> u64 {
    match outcome {
        Outcome::Passed { exec_time } => exec_time,
        Outcome::Benchmarked { exec_time, .. } => exec_time,
        Outcome::Failed { exec_time, .. } => exec_time,
        Outcome::Ignored => 0,
    }
}

/// The entry of a test with this result. What was captured is part of it if the test failed or
/// everything is shown.
pub open spec fn entry_of(
    test: TestModel,
    result: ResultModel,
    show_output: bool,
    pending: PendingTest,
    stop: u64,
) -> CtrfModel {
    let shown = result.outcome is Failed || show_output;
    CtrfModel {
        name: test.fully_qualified_name(),
        status: status_of(result.outcome),
        duration: duration_of(result.outcome),
        start: pending.start,
        stop: Some(stop),
        suite: test.crate_and_module(),
        message: match result.outcome {
            Outcome::Failed { cause, .. } => Some(cause.rendered()),
            _ => None,
        },
        retries: pending.retries,
        flaky: pending.flaky,
        stdout: if shown {
            out_lines(result.captured)
        } else {
            Seq::empty()
        },
        stderr: if shown {
            super::lines::stderr_lines(result.captured)
        } else {
            Seq::empty()
        },
    }
}

/// What is known of a test that was started.
#[derive(Debug, Clone, Copy, PartialEq, Eq, Structural)]
pub struct PendingTest {
    /// In milliseconds since the epoch
    pub start: Option<u64>,
    pub retries: Option<usize>,
    pub flaky: Option<bool>,
}

fn collect_out(captured: &Vec<CapturedOutput>) -> (r: Vec<String>)
    ensures
        text::views(r@) == out_lines(captured@),
{
    let mut r: Vec<String> = Vec::new();
    let mut i: usize = 0;
    assert(text::views(r@) =~= out_lines(captured@.take(0)));
    while i < captured.len()
        invariant
            i <= captured.len(),
            text::views(r@) == out_lines(captured@.take(i as int)),
        decreases captured.len() - i,
    {
        assert(captured@.take(i + 1).drop_last() =~= captured@.take(i as int));
        let ghost before = r@;
        match &captured[i] {
            CapturedOutput::Stdout { line, .. } => {
                r.push(line.clone());
                assert(text::views(r@) =~= text::views(before).push(line@));
            },
            CapturedOutput::Stderr { .. } => {},
            CapturedOutput::Host { line, .. } => {
                let shown = concat("[host] ", line.as_str());
                let ghost kept = shown@;
                r.push(shown);
                assert(text::views(r@) =~= text::views(before).push(kept));
            },
        }
        i = i + 1;
    }
    assert(captured@.take(i as int) =~= captured@);
    r
}

/// Makes the entry of a test.
pub fn build_test_value(
    test: &RegisteredTest,
    result: &TestResult,
    show_output: bool,
    pending: PendingTest,
    stop: u64,
) -> (r: CtrfTest)
    ensures
        r@ == entry_of(test@, result@, show_output, pending, stop),
{
    let status = match result {
        TestResult::Passed { .. } => CtrfStatus::Passed,
        TestResult::Benchmarked { .. } => CtrfStatus::Passed,
        TestResult::Failed { .. } => CtrfStatus::Failed,
        TestResult::Ignored { .. } => CtrfStatus::Skipped,
    };
    let duration: u64 = match result {
        TestResult::Passed { exec_time, .. } => *exec_time,
        TestResult::Failed { exec_time, .. } => *exec_time,
        TestResult::Benchmarked { exec_time, .. } => *exec_time,
        TestResult::Ignored { .. } => 0,
    };
    let mut stdout: Vec<String> = Vec::new();
    let mut stderr: Vec<String> = Vec::new();
    if result.is_failed() || show_output {
        stdout = collect_out(result.captured_output());
        stderr = super::lines::collect_stderr(result.captured_output());
    }
    let r = CtrfTest {
        name: test.fully_qualified_name(),
        status,
        duration,
        start: pending.start,
        stop: Some(stop),
        suite: test.crate_and_module(),
        message: result.failure_message(),
        retries: pending.retries,
        flaky: pending.flaky,
        stdout,
        stderr,
    };
    assert(r@ =~= entry_of(test@, result@, show_output, pending, stop));
    r
}

/// How many of the entries have this status.
pub open spec fn count(tests: Seq<CtrfModel>, status: CtrfStatus) -> nat {
    tests.filter(|t: CtrfModel| t.status == status).len()
}

/// The suites of the entries, each once, in the order in which they first occur.
pub open spec fn suites(tests: Seq<CtrfModel>) -> Seq<Seq<char>>
    decreases tests.len(),
{
    if tests.len() == 0 {
        Seq::empty()
    } else {
        let before = suites(tests.drop_last());
        if before.contains(tests.last().suite) {
            before
        } else {
            before.push(tests.last().suite)
        }
    }
}

/// The number of suites, if there are any.
pub open spec fn suites_part(tests: Seq<CtrfModel>) -> Seq<char> {
    if suites(tests).len() == 0 {
        Seq::empty()
    } else {
        ",\"suites\":"@ + text::decimal(suites(tests).len())
    }
}

/// The first half of the summary.
pub open spec fn summary_head(tests: Seq<CtrfModel>) -> Seq<char> {
    "{\"failed\":"@ + text::decimal(count(tests, CtrfStatus::Failed)) + ",\"other\":0,\"passed\":"@
        + text::decimal(count(tests, CtrfStatus::Passed)) + ",\"pending\":0,\"skipped\":"@
        + text::decimal(count(tests, CtrfStatus::Skipped))
}

/// The summary of the entries of a run.
pub open spec fn summary_json(tests: Seq<CtrfModel>, start: u64, stop: u64) -> Seq<char> {
    summary_head(tests) + ",\"start\":"@ + text::decimal(start as nat) + ",\"stop\":"@
        + text::decimal(stop as nat) + suites_part(tests) + ",\"tests\":"@ + text::decimal(
        tests.len(),
    ) + "}"@
}

/// The entries, with commas between them.
pub open spec fn entries_json(tests: Seq<CtrfModel>) -> Seq<char> {
    text::joined(Seq::new(tests.len(), |i: int| entry_json(tests[i])), ","@)
}

/// The first half of the report.
pub open spec fn report_head(tests: Seq<CtrfModel>, start: u64, stop: u64) -> Seq<char> {
    "{\"generatedBy\":"@ + json::string("test-r"@) + ",\"reportFormat\":"@ + json::string("CTRF"@)
        + ",\"results\":{\"summary\":"@ + summary_json(tests, start, stop) + ",\"tests\":["@
        + entries_json(tests)
}

/// The report.
pub open spec fn report_json(
    tests: Seq<CtrfModel>,
    start: u64,
    stop: u64,
    timestamp: Seq<char>,
) -> Seq<char> {
    report_head(tests, start, stop) + "],\"tool\":{\"name\":"@ + json::string("ctrf-rs"@)
        + "}},\"specVersion\":"@ + json::string("0.0.0"@) + ",\"timestamp\":"@ + json::string(timestamp)
        + "}\n"@
}

fn count_status(tests: &Vec<CtrfTest>, status: CtrfStatus) -> (r: usize)
    ensures
        r == count(entry_views(tests@), status),
{
    let ghost all = entry_views(tests@);
    let ghost is = |t: CtrfModel| t.status == status;
    let mut r: usize = 0;
    let mut i: usize = 0;
    proof {
        reveal(Seq::filter);
        assert(all.take(0) =~= Seq::empty());
    }
    while i < tests.len()
        invariant
            i <= tests.len(),
            all == entry_views(tests@),
            r <= i,
            r == count(all.take(i as int), status),
        decreases tests.len() - i,
    {
        proof {
            reveal(Seq::filter);
            assert(all.take(i + 1).drop_last() =~= all.take(i as int));
        }
        if tests[i].status == status {
            r = r + 1;
        }
        i = i + 1;
    }
    assert(all.take(i as int) =~= all);
    r
}

fn distinct_suites(tests: &Vec<CtrfTest>) -> (r: Vec<String>)
    ensures
        text::views(r@) == suites(entry_views(tests@)),
{
    let ghost all = entry_views(tests@);
    let mut r: Vec<String> = Vec::new();
    let mut i: usize = 0;
    assert(text::views(r@) =~= suites(all.take(0)));
    while i < tests.len()
        invariant
            i <= tests.len(),
            all == entry_views(tests@),
            text::views(r@) == suites(all.take(i as int)),
        decreases tests.len() - i,
    {
        assert(all.take(i + 1).drop_last() =~= all.take(i as int));
        assert(all.take(i + 1).last() == tests@[i as int]@);
        let ghost before = r@;
        if !contains_string(&r, tests[i].suite.as_str()) {
            r.push(tests[i].suite.clone());
            assert(text::views(r@) =~= text::views(before).push(tests@[i as int].suite@));
        }
        i = i + 1;
    }
    assert(all.take(i as int) =~= all);
    r
}

fn show_summary(tests: &Vec<CtrfTest>, start: u64, stop: u64) -> (r: String)
    ensures
        r@ == summary_json(entry_views(tests@), start, stop),
{
    let mut out = "{\"failed\":".to_owned();
    out.append(decimal_u64(count_status(tests, CtrfStatus::Failed) as u64).as_str());
    out.append(",\"other\":0,\"passed\":");
    out.append(decimal_u64(count_status(tests, CtrfStatus::Passed) as u64).as_str());
    out.append(",\"pending\":0,\"skipped\":");
    out.append(decimal_u64(count_status(tests, CtrfStatus::Skipped) as u64).as_str());
    assert(out@ == summary_head(entry_views(tests@)));
    out.append(",\"start\":");
    out.append(decimal_u64(start).as_str());
    out.append(",\"stop\":");
    out.append(decimal_u64(stop).as_str());
    out.append(show_suites(tests).as_str());
    out.append(",\"tests\":");
    out.append(decimal_u64(tests.len() as u64).as_str());
    out.append("}");
    out
}

fn show_suites(tests: &Vec<CtrfTest>) -> (r: String)
    ensures
        r@ == suites_part(entry_views(tests@)),
{
    let found = distinct_suites(tests);
    assert(text::views(found@).len() == found@.len());
    if found.len() == 0 {
        String::new()
    } else {
        concat(",\"suites\":", decimal_u64(found.len() as u64).as_str())
    }
}

fn show_entries(tests: &Vec<CtrfTest>) -> (r: String)
    ensures
        r@ == entries_json(entry_views(tests@)),
{
    let ghost all = entry_views(tests@);
    let ghost texts = Seq::new(all.len(), |i: int| entry_json(all[i]));
    let mut parts: Vec<String> = Vec::new();
    let mut i: usize = 0;
    while i < tests.len()
        invariant
            i <= tests.len(),
            all == entry_views(tests@),
            texts == Seq::new(all.len(), |i: int| entry_json(all[i])),
            text::views(parts@) == texts.take(i as int),
        decreases tests.len() - i,
    {
        let ghost before = parts@;
        let part = show_entry(&tests[i]);
        let ghost shown = part@;
        parts.push(part);
        assert(text::views(parts@) =~= text::views(before).push(shown));
        assert(texts.take(i + 1) =~= texts.take(i as int).push(shown));
        i = i + 1;
    }
    assert(texts.take(i as int) =~= texts);
    text::join(&parts, ",")
}

/// Shows the report.
pub fn show_report(tests: &Vec<CtrfTest>, start: u64, stop: u64, timestamp: &str) -> (r: String)
    ensures
        r@ == report_json(entry_views(tests@), start, stop, timestamp@),
{
    let mut out = "{\"generatedBy\":".to_owned();
    out.append(json_string("test-r").as_str());
    out.append(",\"reportFormat\":");
    out.append(json_string(report_format().as_str()).as_str());
    out.append(",\"results\":{\"summary\":");
    out.append(show_summary(tests, start, stop).as_str());
    out.append(",\"tests\":[");
    out.append(show_entries(tests).as_str());
    assert(out@ == report_head(entry_views(tests@), start, stop));
    out.append("],\"tool\":{\"name\":");
    out.append(json_string("ctrf-rs").as_str());
    out.append("}},\"specVersion\":");
    out.append(json_string(spec_version().as_str()).as_str());
    out.append(",\"timestamp\":");
    out.append(json_string(timestamp).as_str());
    out.append("}\n");
    out
}

/// Writes the report.
pub struct Ctrf {
    pub show_output: bool,
    /// When the run started, in milliseconds since the epoch; only while it goes on
    pub start: Option<u64>,
    /// The entries of the tests that have finished
    pub tests: Vec<CtrfTest>,
    /// What is known of the tests that were started, by name
    pub pending_tests: Vec<(String, PendingTest)>,
    /// When tests finished in milliseconds since the epoch, by name
    pub pending_stops: Vec<(String, u64)>,
}

/// What is known of a test by this name, nothing where it was not started.
pub open spec fn known(pending: Map<Seq<char>, PendingTest>, name: Seq<char>) -> PendingTest {
    if pending.contains_key(name) {
        pending[name]
    } else {
        PendingTest { start: None, retries: None, flaky: None }
    }
}

/// When the test of this name finished, or the given time where that is not known.
pub open spec fn stop_of(stops: Map<Seq<char>, u64>, name: Seq<char>, now: u64) -> u64 {
    if stops.contains_key(name) {
        stops[name]
    } else {
        now
    }
}

/// The entries for the results of a run.
pub open spec fn final_entries(
    results: Seq<(TestModel, ResultModel)>,
    show_output: bool,
    pending: Map<Seq<char>, PendingTest>,
    stops: Map<Seq<char>, u64>,
    now: u64,
) -> Seq<CtrfModel> {
    Seq::new(
        results.len(),
        |i: int|
            {
                let name = results[i].0.fully_qualified_name();
                entry_of(
                    results[i].0,
                    results[i].1,
                    show_output,
                    known(pending, name),
                    stop_of(stops, name, now),
                )
            },
    )
}

impl Ctrf {
    /// No test is known twice.
    pub open spec fn wf(self) -> bool {
        table::distinct_names(self.pending_tests@) && table::distinct_names(self.pending_stops@)
    }

    pub fn new(show_output: bool) -> (r: Self)
        ensures
            r.wf(),
            r.show_output == show_output,
            r.start is None,
            r.tests@.len() == 0,
            r.pending_tests@.len() == 0,
            r.pending_stops@.len() == 0,
    {
        Ctrf {
            show_output,
            start: None,
            tests: Vec::new(),
            pending_tests: Vec::new(),
            pending_stops: Vec::new(),
        }
    }

    /// Starts a run; nothing is left of an earlier one.
    pub fn start_suite(&mut self, now: u64)
        ensures
            final(self).wf(),
            final(self).show_output == old(self).show_output,
            final(self).start == Some(now),
            final(self).tests@.len() == 0,
            final(self).pending_tests@.len() == 0,
            final(self).pending_stops@.len() == 0,
    {
        self.start = Some(now);
        self.tests = Vec::new();
        self.pending_tests = Vec::new();
        self.pending_stops = Vec::new();
    }

    pub fn start_running_test(&mut self, test: &RegisteredTest, now: u64)
        requires
            old(self).wf(),
        ensures
            final(self).wf(),
            table::entries_map(final(self).pending_tests@) == table::entries_map(
                old(self).pending_tests@,
            ).insert(
                test@.fully_qualified_name(),
                PendingTest { start: Some(now), retries: None, flaky: None },
            ),
            final(self).show_output == old(self).show_output,
            final(self).start == old(self).start,
            final(self).tests == old(self).tests,
            final(self).pending_stops == old(self).pending_stops,
    {
        put(
            &mut self.pending_tests,
            test.fully_qualified_name(),
            PendingTest { start: Some(now), retries: None, flaky: None },
        );
    }

    /// Takes note that a test is run once more.
    pub fn repeat_running_test(&mut self, test: &RegisteredTest)
        requires
            old(self).wf(),
            table::entries_map(old(self).pending_tests@).contains_key(
                test@.fully_qualified_name(),
            ),
            table::entries_map(old(self).pending_tests@)[test@.fully_qualified_name()].retries
                matches Some(n) ==> n < usize::MAX,
        ensures
            final(self).wf(),
            ({
                let name = test@.fully_qualified_name();
                let before = table::entries_map(old(self).pending_tests@)[name];
                table::entries_map(final(self).pending_tests@) == table::entries_map(
                    old(self).pending_tests@,
                ).insert(
                    name,
                    PendingTest {
                        start: before.start,
                        retries: match before.retries {
                            Some(n) => Some((n + 1) as usize),
                            None => Some(1),
                        },
                        flaky: match test.props.flakiness_control {
                            FlakinessControl::NoControl => None,
                            FlakinessControl::ProveNonFlaky(_) => Some(false),
                            FlakinessControl::RetryKnownFlaky(_) => Some(true),
                        },
                    },
                )
            }),
            final(self).show_output == old(self).show_output,
            final(self).start == old(self).start,
            final(self).tests == old(self).tests,
            final(self).pending_stops == old(self).pending_stops,
    {
        let name = test.fully_qualified_name();
        if let Some(i) = find(&self.pending_tests, name.as_str()) {
            let before = self.pending_tests[i].1;
            let retries: usize = match before.retries {
                Some(n) => n + 1,
                None => 1,
            };
            let flaky = match test.props.flakiness_control {
                FlakinessControl::NoControl => None,
                FlakinessControl::ProveNonFlaky(_) => Some(false),
                FlakinessControl::RetryKnownFlaky(_) => Some(true),
            };
            let after = PendingTest { start: before.start, retries: Some(retries), flaky };
            put(&mut self.pending_tests, name, after);
        }
    }

    fn pending(&self, name: &str) -> (r: PendingTest)
        requires
            self.wf(),
        ensures
            r == known(table::entries_map(self.pending_tests@), name@),
    {
        match find(&self.pending_tests, name) {
            Some(i) => self.pending_tests[i].1,
            None => PendingTest { start: None, retries: None, flaky: None },
        }
    }

    /// Takes note of the result of a test that was started.
    pub fn finished_running_test(&mut self, test: &RegisteredTest, result: &TestResult, now: u64)
        requires
            old(self).wf(),
            table::entries_map(old(self).pending_tests@).contains_key(
                test@.fully_qualified_name(),
            ),
        ensures
            final(self).wf(),
            entry_views(final(self).tests@) == entry_views(old(self).tests@).push(
                entry_of(
                    test@,
                    result@,
                    old(self).show_output,
                    table::entries_map(old(self).pending_tests@)[test@.fully_qualified_name()],
                    now,
                ),
            ),
            table::entries_map(final(self).pending_stops@) == table::entries_map(
                old(self).pending_stops@,
            ).insert(test@.fully_qualified_name(), now),
            final(self).show_output == old(self).show_output,
            final(self).start == old(self).start,
            final(self).pending_tests == old(self).pending_tests,
    {
        let name = test.fully_qualified_name();
        let pending = self.pending(name.as_str());
        put(&mut self.pending_stops, name, now);
        let entry = build_test_value(test, result, self.show_output, pending, now);
        let ghost before = self.tests@;
        let ghost added = entry@;
        self.tests.push(entry);
        assert(entry_views(self.tests@) =~= entry_views(before).push(added));
    }

    /// The report of a run that goes on, if it is to be written: to a log file always, to the
    /// standard output only at the end.
    pub fn snapshot(&self, to_log_file: bool, is_final: bool, now: u64, timestamp: &str) -> (r:
        Option<String>)
        ensures
            text::opt_view(r) == (if self.start is Some && (to_log_file || is_final) {
                Some(report_json(entry_views(self.tests@), self.start->0, now, timestamp@))
            } else {
                None
            }),
    {
        match self.start {
            Some(start) => {
                if to_log_file || is_final {
                    Some(show_report(&self.tests, start, now, timestamp))
                } else {
                    None
                }
            },
            None => None,
        }
    }

    /// Ends a run and returns its report. The entries are made anew from the results, which may
    /// hold more lines than when the tests finished, with the times at which the tests finished.
    pub fn finished_suite(
        &mut self,
        results: &Vec<(RegisteredTest, TestResult)>,
        now: u64,
        timestamp: &str,
    ) -> (r: Option<String>)
        requires
            old(self).wf(),
        ensures
            final(self).wf(),
            entry_views(final(self).tests@) == final_entries(
                pretty::entries(results@),
                old(self).show_output,
                table::entries_map(old(self).pending_tests@),
                table::entries_map(old(self).pending_stops@),
                now,
            ),
            text::opt_view(r) == (match old(self).start {
                Some(start) => Some(
                    report_json(entry_views(final(self).tests@), start, now, timestamp@),
                ),
                None => None,
            }),
            final(self).start is None,
            final(self).show_output == old(self).show_output,
            final(self).pending_tests == old(self).pending_tests,
            final(self).pending_stops == old(self).pending_stops,
    {
        let ghost pending = table::entries_map(self.pending_tests@);
        let ghost stops = table::entries_map(self.pending_stops@);
        let ghost wanted = final_entries(
            pretty::entries(results@),
            self.show_output,
            pending,
            stops,
            now,
        );
        let mut tests: Vec<CtrfTest> = Vec::new();
        let mut i: usize = 0;
        while i < results.len()
            invariant
                i <= results.len(),
                self.wf(),
                *self == *old(self),
                pending == table::entries_map(self.pending_tests@),
                stops == table::entries_map(self.pending_stops@),
                wanted == final_entries(
                    pretty::entries(results@),
                    self.show_output,
                    pending,
                    stops,
                    now,
                ),
                entry_views(tests@) == wanted.take(i as int),
            decreases results.len() - i,
        {
            let name = results[i].0.fully_qualified_name();
            let known_of = self.pending(name.as_str());
            let stop: u64 = match find(&self.pending_stops, name.as_str()) {
                Some(k) => self.pending_stops[k].1,
                None => now,
            };
            let entry = build_test_value(
                &results[i].0,
                &results[i].1,
                self.show_output,
                known_of,
                stop,
            );
            let ghost before = tests@;
            let ghost added = entry@;
            tests.push(entry);
            assert(entry_views(tests@) =~= entry_views(before).push(added));
            assert(wanted.take(i + 1) =~= wanted.take(i as int).push(wanted[i as int]));
            i = i + 1;
        }
        assert(wanted.take(i as int) =~= wanted);
        self.tests = tests;
        let r = self.snapshot(true, true, now, timestamp);
        self.start = None;
        r
    }
}

/// Every entry counts under exactly one status, and together they are all that the report counts.
pub proof fn statuses_add_up(tests: Seq<CtrfModel>)
    ensures
        count(tests, CtrfStatus::Passed) + count(tests, CtrfStatus::Failed) + count(
            tests,
            CtrfStatus::Skipped,
        ) == tests.len(),
    decreases tests.len(),
{
    reveal(Seq::filter);
    if tests.len() > 0 {
        statuses_add_up(tests.drop_last());
    }
}

/// A suite is counted once, however many tests it has.
pub proof fn suites_are_distinct(tests: Seq<CtrfModel>)
    ensures
        suites(tests).no_duplicates(),
        forall|i: int| 0 <= i < tests.len() ==> suites(tests).contains(#[trigger] tests[i].suite),
    decreases tests.len(),
{
    if tests.len() > 0 {
        let init = tests.drop_last();
        suites_are_distinct(init);
        let before = suites(init);
        let after = suites(tests);
        assert forall|i: int| 0 <= i < tests.len() implies after.contains(
            #[trigger] tests[i].suite,
        ) by {
            if i < init.len() {
                assert(init[i] == tests[i]);
                let k = before.index_of(tests[i].suite);
                assert(after[k] == before[k]);
            } else if !before.contains(tests[i].suite) {
                assert(after[after.len() - 1] == tests[i].suite);
            }
        }
    }
}

} // verus!
