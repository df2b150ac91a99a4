//! The report for people.
use super::lines;
use super::lines::show_seconds_rounded;
use super::style;
use super::style::{
    style_bench, style_critical_time, style_failed, style_ignored, style_ok, style_progress,
    style_stderr, Paint,
};
use crate::args::TimeThreshold;
use crate::internal;
use crate::internal::{RegisteredTest, TestModel, TestType};
use crate::results;
use crate::results::{CapturedOutput, Outcome, ResultModel, SuiteResult, Summary, TestResult};
use crate::text;
use crate::text::{byte_len, concat, decimal_u64, spaces};
use vstd::prelude::*;

verus! {

/// Which test of how many, counted from one.
pub open spec fn index_field(idx: nat, count: nat) -> Seq<char> {
    text::decimal(idx + 1) + "/"@ + text::decimal(count)
}

/// Which test of how many, in the look of progress reports and filled up to the given width.
pub open spec fn index_part(field_length: nat, idx: nat, count: nat) -> Seq<char> {
    let field = index_field(idx, count);
    style::spec_style_progress().on() + "["@ + text::blanks(
        (field_length - text::width(field)) as nat,
    ) + field + "]"@ + style::off()
}

/// The line for the start of a run.
pub open spec fn suite_started(count: nat) -> Seq<char> {
    style::spec_style_progress().on() + "Running "@ + text::decimal(count) + " tests"@
        + style::off() + "\n\n"@
}

/// The limits for tests of this type.
pub open spec fn limits_of(pretty: Pretty, test_type: TestType) -> TimeThreshold {
    match test_type {
        TestType::UnitTest => pretty.unit_test_threshold,
        TestType::IntegrationTest => pretty.integ_test_threshold,
    }
}

/// The look of the time that a test took.
pub open spec fn time_paint(limits: TimeThreshold, exec_time: u64) -> Paint {
    if exec_time >= limits.critical {
        style::spec_style_critical_time()
    } else if exec_time >= limits.warn {
        style::spec_style_stderr()
    } else {
        style::spec_style_ok()
    }
}

/// What is shown of the time that a test took.
pub open spec fn time_part(report_time: bool, limits: TimeThreshold, exec_time: u64) -> Seq<char> {
    if report_time {
        "         <"@ + time_paint(limits, exec_time).on() + lines::seconds_rounded(exec_time)
            + "s"@ + style::off() + ">"@
    } else {
        Seq::empty()
    }
}

/// The text, filled up on the left to a number of characters.
pub open spec fn right_aligned(s: Seq<char>, n: nat) -> Seq<char> {
    if s.len() < n {
        text::blanks((n - s.len()) as nat) + s
    } else {
        s
    }
}

/// What is shown of the times of a benchmark.
pub open spec fn bench_part(summary: Summary) -> Seq<char> {
    style::spec_style_bench().on() + right_aligned(summary.median_grouped@, 14) + " ns/iter (+/- "@
        + summary.deviation_grouped@ + ")"@ + style::off()
}

/// What is shown of a result.
pub open spec fn result_part(report_time: bool, limits: TimeThreshold, outcome: Outcome) -> Seq<
    char,
> {
    match outcome {
        Outcome::Passed { exec_time } => "["@ + style::painted(
            style::spec_style_ok(),
            "PASSED"@,
        ) + "]"@ + time_part(report_time, limits, exec_time),
        Outcome::Benchmarked { ns_iter_summ, .. } => "["@ + style::painted(
            style::spec_style_bench(),
            "BENCH"@,
        ) + "]         "@ + bench_part(ns_iter_summ),
        Outcome::Failed { exec_time, .. } => "["@ + style::painted(
            style::spec_style_failed(),
            "FAILED"@,
        ) + "]"@ + time_part(report_time, limits, exec_time),
        Outcome::Ignored => "["@ + style::painted(style::spec_style_ignored(), "IGNORED"@) + "]"@,
    }
}

/// A captured line as it is shown.
pub open spec fn shown_line(line: CapturedOutput) -> Seq<char> {
    match line {
        CapturedOutput::Stdout { line, .. } => line@ + "\n"@,
        CapturedOutput::Stderr { line, .. } => style::painted(style::spec_style_stderr(), line@)
            + "\n"@,
        CapturedOutput::Host { line, .. } => "[host] "@ + line@ + "\n"@,
    }
}

/// Captured lines as they are shown.
pub open spec fn shown_lines(captured: Seq<CapturedOutput>) -> Seq<char>
    decreases captured.len(),
{
    if captured.len() == 0 {
        Seq::empty()
    } else {
        shown_lines(captured.drop_last()) + shown_line(captured.last())
    }
}

/// The tests with their results.
pub open spec fn entries(results: Seq<(RegisteredTest, TestResult)>) -> Seq<
    (TestModel, ResultModel),
> {
    Seq::new(results.len(), |i: int| (results[i].0@, results[i].1@))
}

/// What was captured of a test, under its name.
pub open spec fn output_part(entry: (TestModel, ResultModel)) -> Seq<char> {
    if entry.1.captured.len() == 0 {
        Seq::empty()
    } else {
        "---- "@ + entry.0.fully_qualified_name() + " stdout/err ----\n"@ + shown_lines(
            entry.1.captured,
        ) + "\n"@
    }
}

/// What was captured of the tests that failed, or of those that passed.
pub open spec fn outputs(results: Seq<(TestModel, ResultModel)>, of_failed: bool) -> Seq<char>
    decreases results.len(),
{
    if results.len() == 0 {
        Seq::empty()
    } else {
        let before = outputs(results.drop_last(), of_failed);
        let outcome = results.last().1.outcome;
        if (of_failed && outcome is Failed) || (!of_failed && outcome is Passed) {
            before + output_part(results.last())
        } else {
            before
        }
    }
}

/// The overall result of a run.
pub open spec fn overall(failed: nat) -> Seq<char> {
    if failed == 0 {
        style::painted(style::spec_style_ok(), "ok"@)
    } else {
        style::painted(style::spec_style_failed(), "FAILED"@)
    }
}

/// The first half of the line with the totals.
pub open spec fn totals_head(totals: results::Totals) -> Seq<char> {
    "\ntest result: "@ + overall(totals.failed) + "; "@ + text::decimal(totals.passed)
        + " passed; "@ + text::decimal(totals.failed) + " failed; "@ + text::decimal(totals.ignored)
        + " ignored; "@
}

/// The line with the totals.
pub open spec fn totals_line(totals: results::Totals, filtered_out: nat, exec_time: u64) -> Seq<
    char,
> {
    totals_head(totals) + text::decimal(totals.measured) + " measured; "@ + text::decimal(
        filtered_out,
    ) + " filtered out; finished in "@ + lines::seconds_rounded(exec_time) + "s\n\n"@
}

/// The line for a test that failed.
pub open spec fn failure_line(test: TestModel, outcome: Outcome) -> Seq<char> {
    " - "@ + test.fully_qualified_name() + " "@ + style::spec_style_ignored().on() + "("@ + (
    match outcome {
        Outcome::Failed { cause, .. } => cause.rendered(),
        _ => "???"@,
    }) + ")"@ + style::off() + "\n"@
}

/// The lines for the tests that failed.
pub open spec fn failure_lines(results: Seq<(TestModel, ResultModel)>) -> Seq<char>
    decreases results.len(),
{
    if results.len() == 0 {
        Seq::empty()
    } else {
        let before = failure_lines(results.drop_last());
        let last = results.last();
        if last.1.outcome is Failed {
            before + failure_line(last.0, last.1.outcome)
        } else {
            before
        }
    }
}

/// The list of the tests that failed, if there are any.
pub open spec fn failure_list(results: Seq<(TestModel, ResultModel)>, failed: nat) -> Seq<char> {
    if failed > 0 {
        "Failed tests:\n"@ + failure_lines(results) + "\n"@
    } else {
        Seq::empty()
    }
}

/// What is written at the end of a run.
pub open spec fn suite_finished(
    show_output: bool,
    results: Seq<(TestModel, ResultModel)>,
    totals: results::Totals,
    filtered_out: nat,
    exec_time: u64,
) -> Seq<char> {
    (if show_output {
        outputs(results, false)
    } else {
        Seq::empty()
    }) + outputs(results, true) + totals_line(totals, filtered_out, exec_time) + failure_list(
        results,
        totals.failed,
    )
}

/// The names of the tests, one per line.
pub open spec fn name_lines(tests: Seq<TestModel>) -> Seq<char>
    decreases tests.len(),
{
    if tests.len() == 0 {
        Seq::empty()
    } else {
        name_lines(tests.drop_last()) + (tests.last().fully_qualified_name() + "\n"@)
    }
}

/// The longest of the names, in bytes.
pub open spec fn longest_name(tests: Seq<TestModel>) -> nat
    decreases tests.len(),
{
    if tests.len() == 0 {
        0
    } else {
        let before = longest_name(tests.drop_last());
        let last = text::width(tests.last().fully_qualified_name());
        if last > before {
            last
        } else {
            before
        }
    }
}

/// `after` is the writer when a run of these tests has started: it knows the widest index field and
/// the longest name.
pub open spec fn is_started(before: Pretty, tests: Seq<TestModel>, after: Pretty) -> bool {
    &&& after.show_output == before.show_output
    &&& after.report_time == before.report_time
    &&& after.unit_test_threshold == before.unit_test_threshold
    &&& after.integ_test_threshold == before.integ_test_threshold
    &&& after.longest_name == longest_name(tests)
    &&& after.index_field_length == text::width(
        text::decimal(tests.len()) + "/"@ + text::decimal(tests.len()),
    )
}

/// Writes the report for people.
pub struct Pretty {
    /// What passing tests wrote is shown
    pub show_output: bool,
    /// The times of the tests are shown
    pub report_time: bool,
    pub unit_test_threshold: TimeThreshold,
    pub integ_test_threshold: TimeThreshold,
    /// The width of the widest index field of the run
    pub index_field_length: usize,
    /// The width of the longest name of the run
    pub longest_name: usize,
}

impl Pretty {
    pub fn new(
        show_output: bool,
        report_time: bool,
        unit_test_threshold: TimeThreshold,
        integ_test_threshold: TimeThreshold,
    ) -> (r: Self)
        ensures
            r == (Pretty {
                show_output,
                report_time,
                unit_test_threshold,
                integ_test_threshold,
                index_field_length: 0,
                longest_name: 0,
            }),
    {
        Pretty {
            show_output,
            report_time,
            unit_test_threshold,
            integ_test_threshold,
            index_field_length: 0,
            longest_name: 0,
        }
    }

    /// Starts a run of these tests.
    pub fn start_suite(&mut self, tests: &Vec<RegisteredTest>) -> (r: String)
        ensures
            r@ == suite_started(tests@.len()),
            is_started(*old(self), internal::test_views(tests@), *final(self)),
    {
        let ghost all = internal::test_views(tests@);
        let mut longest: usize = 0;
        let mut i: usize = 0;
        while i < tests.len()
            invariant
                i <= tests.len(),
                all == internal::test_views(tests@),
                longest == longest_name(all.take(i as int)),
            decreases tests.len() - i,
        {
            assert(all.take(i + 1).drop_last() =~= all.take(i as int));
            let len = byte_len(tests[i].fully_qualified_name().as_str());
            if len > longest {
                longest = len;
            }
            i = i + 1;
        }
        assert(all.take(i as int) =~= all);
        self.longest_name = longest;
        let count = decimal_u64(tests.len() as u64);
        let mut field = count.clone();
        field.append("/");
        field.append(count.as_str());
        self.index_field_length = byte_len(field.as_str());
        let mut out = style_progress().render();
        out.append("Running ");
        out.append(count.as_str());
        out.append(" tests");
        out.append(style_progress().render_reset().as_str());
        out.append("\n\n");
        out
    }

    fn show_index(&self, idx: usize, count: usize) -> (r: String)
        requires
            idx < usize::MAX,
            text::width(index_field(idx as nat, count as nat)) <= self.index_field_length,
        ensures
            r@ == index_part(self.index_field_length as nat, idx as nat, count as nat),
    {
        let mut field = decimal_u64(idx as u64 + 1);
        field.append("/");
        field.append(decimal_u64(count as u64).as_str());
        let padding = spaces(self.index_field_length - byte_len(field.as_str()));
        let mut out = style_progress().render();
        out.append("[");
        out.append(padding.as_str());
        out.append(field.as_str());
        out.append("]");
        out.append(style_progress().render_reset().as_str());
        out
    }

    pub fn start_running_test(&self, test: &RegisteredTest, idx: usize, count: usize) -> (r: String)
        requires
            idx < usize::MAX,
            text::width(index_field(idx as nat, count as nat)) <= self.index_field_length,
        ensures
            r@ == index_part(self.index_field_length as nat, idx as nat, count as nat)
                + " Running test: "@ + test@.fully_qualified_name() + "\n"@,
    {
        let mut out = self.show_index(idx, count);
        out.append(" Running test: ");
        out.append(test.fully_qualified_name().as_str());
        out.append("\n");
        out
    }

    fn time_style(&self, test_type: &TestType, exec_time: u64) -> (r: Paint)
        ensures
            r == time_paint(limits_of(*self, *test_type), exec_time),
    {
        let limits = match test_type {
            TestType::UnitTest => self.unit_test_threshold,
            TestType::IntegrationTest => self.integ_test_threshold,
        };
        if limits.is_critical(exec_time as u128) {
            style_critical_time()
        } else if limits.is_warn(exec_time as u128) {
            style_stderr()
        } else {
            style_ok()
        }
    }

    fn show_time(&self, test: &RegisteredTest, exec_time: u64) -> (r: String)
        ensures
            r@ == time_part(
                self.report_time,
                limits_of(*self, test.props.test_type),
                exec_time,
            ),
    {
        if !self.report_time {
            return String::new();
        }
        let paint = self.time_style(&test.props.test_type, exec_time);
        let mut out = "         <".to_owned();
        out.append(paint.render().as_str());
        out.append(show_seconds_rounded(exec_time).as_str());
        out.append("s");
        out.append(paint.render_reset().as_str());
        out.append(">");
        out
    }

    fn show_result(&self, test: &RegisteredTest, result: &TestResult) -> (r: String)
        ensures
            r@ == result_part(
                self.report_time,
                limits_of(*self, test.props.test_type),
                result@.outcome,
            ),
    {
        let mut out = "[".to_owned();
        match result {
            TestResult::Passed { exec_time, .. } => {
                out.append(style_ok().paint("PASSED").as_str());
                out.append("]");
                out.append(self.show_time(test, *exec_time).as_str());
            },
            TestResult::Benchmarked { ns_iter_summ, .. } => {
                out.append(style_bench().paint("BENCH").as_str());
                out.append("]         ");
                out.append(show_bench(ns_iter_summ).as_str());
            },
            TestResult::Failed { exec_time, .. } => {
                out.append(style_failed().paint("FAILED").as_str());
                out.append("]");
                out.append(self.show_time(test, *exec_time).as_str());
            },
            TestResult::Ignored { .. } => {
                out.append(style_ignored().paint("IGNORED").as_str());
                out.append("]");
            },
        }
        out
    }

    pub fn finished_running_test(
        &self,
        test: &RegisteredTest,
        idx: usize,
        count: usize,
        result: &TestResult,
    ) -> (r: String)
        requires
            idx < usize::MAX,
            text::width(index_field(idx as nat, count as nat)) <= self.index_field_length,
            text::width(test@.fully_qualified_name()) <= self.longest_name < usize::MAX,
        ensures
            r@ == index_part(self.index_field_length as nat, idx as nat, count as nat)
                + " Finished test: "@ + test@.fully_qualified_name() + text::blanks(
                (self.longest_name - text::width(test@.fully_qualified_name()) + 1) as nat,
            ) + result_part(
                self.report_time,
                limits_of(*self, test.props.test_type),
                result@.outcome,
            ) + "\n"@,
    {
        let name = test.fully_qualified_name();
        let padding = spaces(self.longest_name - byte_len(name.as_str()) + 1);
        let mut out = self.show_index(idx, count);
        out.append(" Finished test: ");
        out.append(name.as_str());
        out.append(padding.as_str());
        out.append(self.show_result(test, result).as_str());
        out.append("\n");
        out
    }

    /// Ends a run.
    pub fn finished_suite(
        &self,
        registered_tests: &Vec<RegisteredTest>,
        results: &Vec<(RegisteredTest, TestResult)>,
        exec_time: u64,
    ) -> (r: String)
        requires
            results.len() <= registered_tests.len(),
        ensures
            r@ == suite_finished(
                self.show_output,
                entries(results@),
                results::totals(results::outcomes(results@)),
                (registered_tests.len() - results.len()) as nat,
                exec_time,
            ),
    {
        let result = SuiteResult::from_test_results(registered_tests, results, exec_time);
        let mut out = if self.show_output {
            write_outputs(results, false)
        } else {
            String::new()
        };
        out.append(write_outputs(results, true).as_str());
        out.append(show_totals(&result).as_str());
        out.append(show_failure_list(results, result.failed).as_str());
        out
    }

    pub fn test_list(&self, tests: &Vec<RegisteredTest>) -> (r: String)
        ensures
            r@ == name_lines(internal::test_views(tests@)) + "\n"@ + text::decimal(tests@.len())
                + " tests\n"@,
    {
        let ghost all = internal::test_views(tests@);
        let mut out = String::new();
        let mut i: usize = 0;
        assert(name_lines(all.take(0)) =~= Seq::empty());
        while i < tests.len()
            invariant
                i <= tests.len(),
                all == internal::test_views(tests@),
                out@ == name_lines(all.take(i as int)),
            decreases tests.len() - i,
        {
            assert(all.take(i + 1).drop_last() =~= all.take(i as int));
            out.append(concat(tests[i].fully_qualified_name().as_str(), "\n").as_str());
            i = i + 1;
        }
        assert(all.take(i as int) =~= all);
        out.append("\n");
        out.append(decimal_u64(tests.len() as u64).as_str());
        out.append(" tests\n");
        out
    }

    pub fn warning(&self, message: &str) -> (r: String)
        ensures
            r@ == style::painted(style::spec_style_stderr(), message@) + "\n"@,
    {
        concat(style_stderr().paint(message).as_str(), "\n")
    }
}

fn show_bench(summary: &Summary) -> (r: String)
    ensures
        r@ == bench_part(*summary),
{
    let mut out = style_bench().render();
    out.append(align_right(summary.median_grouped.as_str(), 14).as_str());
    out.append(" ns/iter (+/- ");
    out.append(summary.deviation_grouped.as_str());
    out.append(")");
    out.append(style_bench().render_reset().as_str());
    out
}

fn align_right(s: &str, n: usize) -> (r: String)
    ensures
        r@ == right_aligned(s@, n as nat),
{
    let len = text::to_chars(s).len();
    if len < n {
        concat(spaces(n - len).as_str(), s)
    } else {
        s.to_owned()
    }
}

fn show_lines(captured: &Vec<CapturedOutput>) -> (r: String)
    ensures
        r@ == shown_lines(captured@),
{
    let mut out = String::new();
    let mut i: usize = 0;
    assert(shown_lines(captured@.take(0)) =~= Seq::empty());
    while i < captured.len()
        invariant
            i <= captured.len(),
            out@ == shown_lines(captured@.take(i as int)),
        decreases captured.len() - i,
    {
        assert(captured@.take(i + 1).drop_last() =~= captured@.take(i as int));
        let shown = match &captured[i] {
            CapturedOutput::Stdout { line, .. } => concat(line.as_str(), "\n"),
            CapturedOutput::Stderr { line, .. } => concat(
                style_stderr().paint(line.as_str()).as_str(),
                "\n",
            ),
            CapturedOutput::Host { line, .. } => concat(
                concat("[host] ", line.as_str()).as_str(),
                "\n",
            ),
        };
        out.append(shown.as_str());
        i = i + 1;
    }
    assert(captured@.take(i as int) =~= captured@);
    out
}

/// Shows what was captured of the tests that failed, or of those that passed.
fn write_outputs(results: &Vec<(RegisteredTest, TestResult)>, of_failed: bool) -> (r: String)
    ensures
        r@ == outputs(entries(results@), of_failed),
{
    let ghost all = entries(results@);
    let mut out = String::new();
    let mut i: usize = 0;
    assert(outputs(all.take(0), of_failed) =~= Seq::empty());
    while i < results.len()
        invariant
            i <= results.len(),
            all == entries(results@),
            out@ == outputs(all.take(i as int), of_failed),
        decreases results.len() - i,
    {
        assert(all.take(i + 1).drop_last() =~= all.take(i as int));
        let (test, result) = &results[i];
        if (of_failed && result.is_failed()) || (!of_failed && result.is_passed()) {
            let captured = result.captured_output();
            let mut part = String::new();
            if captured.len() > 0 {
                part = "---- ".to_owned();
                part.append(test.fully_qualified_name().as_str());
                part.append(" stdout/err ----\n");
                part.append(show_lines(captured).as_str());
                part.append("\n");
            }
            assert(part@ =~= output_part(all[i as int]));
            out.append(part.as_str());
        }
        i = i + 1;
    }
    assert(all.take(i as int) =~= all);
    out
}

fn show_totals(result: &SuiteResult) -> (r: String)
    ensures
        r@ == totals_line(
            results::Totals {
                passed: result.passed as nat,
                failed: result.failed as nat,
                ignored: result.ignored as nat,
                measured: result.measured as nat,
            },
            result.filtered_out as nat,
            result.exec_time,
        ),
{
    let overall = if result.failed == 0 {
        style_ok().paint("ok")
    } else {
        style_failed().paint("FAILED")
    };
    let mut out = "\ntest result: ".to_owned();
    out.append(overall.as_str());
    out.append("; ");
    out.append(decimal_u64(result.passed as u64).as_str());
    out.append(" passed; ");
    out.append(decimal_u64(result.failed as u64).as_str());
    out.append(" failed; ");
    out.append(decimal_u64(result.ignored as u64).as_str());
    out.append(" ignored; ");
    let ghost head = out@;
    out.append(decimal_u64(result.measured as u64).as_str());
    out.append(" measured; ");
    out.append(decimal_u64(result.filtered_out as u64).as_str());
    out.append(" filtered out; finished in ");
    out.append(show_seconds_rounded(result.exec_time).as_str());
    out.append("s\n\n");
    out
}

fn show_failure(test: &RegisteredTest, result: &TestResult) -> (r: String)
    ensures
        r@ == failure_line(test@, result@.outcome),
{
    let message = match result.failure_message() {
        Some(message) => message,
        None => "???".to_owned(),
    };
    let mut out = " - ".to_owned();
    out.append(test.fully_qualified_name().as_str());
    out.append(" ");
    out.append(style_ignored().render().as_str());
    out.append("(");
    out.append(message.as_str());
    out.append(")");
    out.append(style_ignored().render_reset().as_str());
    out.append("\n");
    out
}

fn show_failure_list(results: &Vec<(RegisteredTest, TestResult)>, failed: usize) -> (r: String)
    ensures
        r@ == failure_list(entries(results@), failed as nat),
{
    if failed == 0 {
        return String::new();
    }
    let ghost all = entries(results@);
    let mut shown = String::new();
    let mut i: usize = 0;
    assert(failure_lines(all.take(0)) =~= Seq::empty());
    while i < results.len()
        invariant
            i <= results.len(),
            all == entries(results@),
            shown@ == failure_lines(all.take(i as int)),
        decreases results.len() - i,
    {
        assert(all.take(i + 1).drop_last() =~= all.take(i as int));
        if results[i].1.is_failed() {
            shown.append(show_failure(&results[i].0, &results[i].1).as_str());
        }
        i = i + 1;
    }
    assert(all.take(i as int) =~= all);
    let mut out = "Failed tests:\n".to_owned();
    out.append(shown.as_str());
    out.append("\n");
    out
}

/// The name of every test of a run fits into the space that is kept for names.
pub proof fn names_fit(tests: Seq<TestModel>, i: int)
    requires
        0 <= i < tests.len(),
    ensures
        text::width(tests[i].fully_qualified_name()) <= longest_name(tests),
    decreases tests.len(),
{
    if i < tests.len() - 1 {
        names_fit(tests.drop_last(), i);
        assert(tests.drop_last()[i] == tests[i]);
    }
}

/// The index field of every test of a run fits into the space that is kept for index fields.
pub proof fn index_fields_fit(idx: nat, count: nat)
    requires
        idx < count,
    ensures
        text::width(index_field(idx, count)) <= text::width(
            text::decimal(count) + "/"@ + text::decimal(count),
        ),
{
    lemma_field_width(idx + 1, count);
    lemma_field_width(count, count);
    text::larger_number_is_no_shorter(idx + 1, count);
}

proof fn lemma_field_width(a: nat, b: nat)
    ensures
        text::width(text::decimal(a) + "/"@ + text::decimal(b)) == text::decimal(a).len() + 1
            + text::decimal(b).len(),
{
    reveal_strlit("/");
    text::digits_take_one_byte(a);
    text::digits_take_one_byte(b);
    let head = text::decimal(a) + "/"@;
    let field = head + text::decimal(b);
    assert forall|i: int| 0 <= i < field.len() implies '\0' <= #[trigger] field[i] <= '\u{7f}' by {
        if i < text::decimal(a).len() {
            assert(field[i] == text::decimal(a)[i]);
        } else if i > text::decimal(a).len() {
            assert(field[i] == text::decimal(b)[i - text::decimal(a).len() - 1]);
        }
    }
    vstd::utf8::is_ascii_chars_encode_utf8(field);
}

/// The results of all tests of a run begin in one column: name and filling take the same space.
pub proof fn results_are_aligned(tests: Seq<TestModel>, i: int)
    requires
        0 <= i < tests.len(),
    ensures
        ({
            let name = text::width(tests[i].fully_qualified_name());
            name + text::blanks((longest_name(tests) - name + 1) as nat).len() == longest_name(
                tests,
            ) + 1
        }),
{
    names_fit(tests, i);
}

} // verus!
