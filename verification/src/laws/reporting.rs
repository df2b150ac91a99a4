//! What the reports tell.
use super::words::{holds, lemma_holds, lemma_holds_inside};
use crate::internal;
use crate::internal::{RegisteredTest, TestModel};
use crate::output::ctrf;
use crate::output::ctrf::{CtrfStatus, CtrfTest, PendingTest};
use crate::output::json;
use crate::output::json::Json;
use crate::output::junit;
use crate::output::junit::{JUnit, XmlEvent};
use crate::output::lines;
use crate::output::pretty;
use crate::output::pretty::Pretty;
use crate::output::style;
use crate::output::terse;
use crate::output::terse::Terse;
use crate::results;
use crate::results::{CapturedOutput, Outcome, ResultModel, SuiteResult, TestResult};
use crate::text;
use vstd::prelude::*;

verus! {

/// The word for a kind of result.
pub open spec fn word_for(result: TestResult) -> Seq<char> {
    match result {
        TestResult::Passed { .. } => "PASSED"@,
        TestResult::Benchmarked { .. } => "BENCH"@,
        TestResult::Failed { .. } => "FAILED"@,
        TestResult::Ignored { .. } => "IGNORED"@,
    }
}

/// The two results are of one kind.
pub open spec fn same_kind(a: TestResult, b: TestResult) -> bool {
    match a {
        TestResult::Passed { .. } => b is Passed,
        TestResult::Benchmarked { .. } => b is Benchmarked,
        TestResult::Failed { .. } => b is Failed,
        TestResult::Ignored { .. } => b is Ignored,
    }
}

/// Nothing but spaces.
pub open spec fn is_blank(s: Seq<char>) -> bool {
    forall|i: int| 0 <= i < s.len() ==> #[trigger] s[i] == ' '
}

/// The line for a test that has finished begins as the one for its start does, tells its name and tells
/// behind it, in brackets, how it ended: a failed test is called failed, a passed one passed.
pub proof fn line_tells_the_outcome(
    report: Pretty,
    test: RegisteredTest,
    idx: usize,
    count: usize,
    result: TestResult,
    name: String,
    started: String,
    r: String,
)
    requires
        call_ensures(RegisteredTest::fully_qualified_name, (&test,), name),
        call_ensures(Pretty::start_running_test, (&report, &test, idx, count), started),
        call_ensures(Pretty::finished_running_test, (&report, &test, idx, count, &result), r),
    ensures
        exists|index: Seq<char>, filling: Seq<char>, told: Seq<char>|
            #![auto]
            {
                &&& started@ == index + " Running test: "@ + name@ + "\n"@
                &&& r@ == index + " Finished test: "@ + name@ + filling + told
                &&& is_blank(filling)
                &&& told.len() > 0
                &&& told[0] == '['
                &&& holds(told, word_for(result))
            },
{
    reveal_strlit("[");
    let index = pretty::index_part(report.index_field_length as nat, idx as nat, count as nat);
    let filling = text::blanks((report.longest_name - text::width(name@) + 1) as nat);
    let part = pretty::result_part(
        report.report_time,
        pretty::limits_of(report, test.props.test_type),
        result@.outcome,
    );
    let told = part + "\n"@;
    assert(r@ =~= index + " Finished test: "@ + name@ + filling + told);
    assert(started@ == index + " Running test: "@ + name@ + "\n"@);
    lemma_part_tells(report, test, result);
    lemma_holds_inside(told, Seq::empty(), part, "\n"@, word_for(result));
    assert(told =~= Seq::<char>::empty() + part + "\n"@);
}

proof fn lemma_part_tells(report: Pretty, test: RegisteredTest, result: TestResult)
    ensures
        ({
            let part = pretty::result_part(
                report.report_time,
                pretty::limits_of(report, test.props.test_type),
                result@.outcome,
            );
            &&& holds(part, word_for(result))
            &&& part.len() > 0
            &&& part[0] == '['
        }),
{
    reveal_strlit("[");
    let limits = pretty::limits_of(report, test.props.test_type);
    let part = pretty::result_part(report.report_time, limits, result@.outcome);
    match result {
        TestResult::Passed { exec_time, .. } => {
            let a = "["@ + style::spec_style_ok().on();
            let b = style::off() + "]"@ + pretty::time_part(report.report_time, limits, exec_time);
            assert(part =~= a + "PASSED"@ + b);
            lemma_holds(part, a, "PASSED"@, b);
        },
        TestResult::Benchmarked { ns_iter_summ, .. } => {
            let a = "["@ + style::spec_style_bench().on();
            let b = style::off() + "]         "@ + pretty::bench_part(ns_iter_summ);
            assert(part =~= a + "BENCH"@ + b);
            lemma_holds(part, a, "BENCH"@, b);
        },
        TestResult::Failed { exec_time, .. } => {
            let a = "["@ + style::spec_style_failed().on();
            let b = style::off() + "]"@ + pretty::time_part(report.report_time, limits, exec_time);
            assert(part =~= a + "FAILED"@ + b);
            lemma_holds(part, a, "FAILED"@, b);
        },
        TestResult::Ignored { .. } => {
            let a = "["@ + style::spec_style_ignored().on();
            let b = style::off() + "]"@;
            assert(part =~= a + "IGNORED"@ + b);
            lemma_holds(part, a, "IGNORED"@, b);
        },
    }
}

/// Results of different kinds are shown by different lines.
pub proof fn outcomes_look_different(
    report: Pretty,
    test: RegisteredTest,
    idx: usize,
    count: usize,
    a: TestResult,
    b: TestResult,
    x: String,
    y: String,
)
    requires
        !same_kind(a, b),
        call_ensures(Pretty::finished_running_test, (&report, &test, idx, count, &a), x),
        call_ensures(Pretty::finished_running_test, (&report, &test, idx, count, &b), y),
    ensures
        x@ != y@,
{
    let index = pretty::index_part(report.index_field_length as nat, idx as nat, count as nat);
    let name = test@.fully_qualified_name();
    let filling = text::blanks((report.longest_name - text::width(name) + 1) as nat);
    let head = index + " Finished test: "@ + name + filling;
    let limits = pretty::limits_of(report, test.props.test_type);
    let p = pretty::result_part(report.report_time, limits, a@.outcome) + "\n"@;
    let q = pretty::result_part(report.report_time, limits, b@.outcome) + "\n"@;
    assert(x@ =~= head + p);
    assert(y@ =~= head + q);
    lemma_kind_mark(report, test, a);
    lemma_kind_mark(report, test, b);
    if x@ == y@ {
        assert forall|i: int| 0 <= i < p.len() && i < q.len() implies p[i] == q[i] by {
            assert(p[i] == (head + p)[head.len() + i]);
            assert(q[i] == (head + q)[head.len() + i]);
        }
        assert(p[3] == q[3] && p[4] == q[4]);
        assert(mark_of(a) == mark_of(b));
    }
}

/// The color codes tell the kinds of results apart.
pub open spec fn mark_of(result: TestResult) -> (char, char) {
    match result {
        TestResult::Passed { .. } => ('3', '2'),
        TestResult::Benchmarked { .. } => ('3', '6'),
        TestResult::Failed { .. } => ('1', 'm'),
        TestResult::Ignored { .. } => ('2', 'm'),
    }
}

proof fn lemma_kind_mark(report: Pretty, test: RegisteredTest, result: TestResult)
    ensures
        ({
            let part = pretty::result_part(
                report.report_time,
                pretty::limits_of(report, test.props.test_type),
                result@.outcome,
            );
            part.len() > 4 && (part[3], part[4]) == mark_of(result)
        }),
{
    reveal_strlit("[");
    reveal_strlit("\u{1b}[1m");
    reveal_strlit("\u{1b}[2m");
    reveal_strlit("\u{1b}[3");
    reveal_strlit("\u{1b}[9");
    reveal_strlit("m");
    reveal_strlit("PASSED");
    reveal_strlit("FAILED");
    reveal_strlit("BENCH");
    reveal_strlit("IGNORED");
    let limits = pretty::limits_of(report, test.props.test_type);
    let part = pretty::result_part(report.report_time, limits, result@.outcome);
    let paint = match result {
        TestResult::Passed { .. } => style::spec_style_ok(),
        TestResult::Benchmarked { .. } => style::spec_style_bench(),
        TestResult::Failed { .. } => style::spec_style_failed(),
        TestResult::Ignored { .. } => style::spec_style_ignored(),
    };
    let start = "["@ + paint.on() + word_for(result);
    assert(part.take(start.len() as int) =~= start);
    assert(part[3] == start[3] && part[4] == start[4]) by {
        assert(part.take(start.len() as int)[3] == part[3]);
        assert(part.take(start.len() as int)[4] == part[4]);
    }
}

/// The end of a run tells of every test that failed its name and why it failed.
pub proof fn failures_are_told(
    report: Pretty,
    registered: Vec<RegisteredTest>,
    results: Vec<(RegisteredTest, TestResult)>,
    exec_time: u64,
    r: String,
    i: int,
    name: String,
    message: Option<String>,
)
    requires
        call_ensures(Pretty::finished_suite, (&report, &registered, &results, exec_time), r),
        0 <= i < results@.len(),
        results@[i].1 is Failed,
        call_ensures(RegisteredTest::fully_qualified_name, (&results@[i].0,), name),
        call_ensures(TestResult::failure_message, (&results@[i].1,), message),
    ensures
        message is Some,
        exists|between: Seq<char>|
            holds(r@, " - "@ + name@ + #[trigger] ((" "@ + between) + "("@ + message->0@ + ")"@)),
{
    let all = pretty::entries(results@);
    let totals = results::totals(results::outcomes(results@));
    let filtered = (registered@.len() - results@.len()) as nat;
    lemma_failed_counts(results::outcomes(results@), i);
    let shown = " "@ + style::spec_style_ignored().on() + "("@ + message->0@ + ")"@;
    let told = " - "@ + name@ + shown;
    lemma_failure_line(all, i, told);
    let head = (if report.show_output {
        pretty::outputs(all, false)
    } else {
        Seq::empty()
    }) + pretty::outputs(all, true) + pretty::totals_line(totals, filtered, exec_time)
        + "Failed tests:\n"@;
    assert(r@ =~= head + pretty::failure_lines(all) + "\n"@);
    lemma_holds_inside(r@, head, pretty::failure_lines(all), "\n"@, told);
    assert(told == " - "@ + name@ + ((" "@ + style::spec_style_ignored().on()) + "("@ + message->0@
        + ")"@));
}

proof fn lemma_failed_counts(outcomes: Seq<Outcome>, i: int)
    requires
        0 <= i < outcomes.len(),
        outcomes[i] is Failed,
    ensures
        results::totals(outcomes).failed > 0,
{
    let p = |o: Outcome| o is Failed;
    outcomes.lemma_filter_contains(p, i);
    let kept = outcomes.filter(p);
    let k = kept.index_of(outcomes[i]);
    assert(0 <= k < kept.len());
}

proof fn lemma_failure_line(all: Seq<(TestModel, ResultModel)>, i: int, told: Seq<char>)
    requires
        0 <= i < all.len(),
        all[i].1.outcome is Failed,
        told == " - "@ + all[i].0.fully_qualified_name() + (" "@ + style::spec_style_ignored().on()
            + "("@ + all[i].1.outcome->cause.rendered() + ")"@),
    ensures
        holds(pretty::failure_lines(all), told),
    decreases all.len(),
{
    let before = pretty::failure_lines(all.drop_last());
    let now = pretty::failure_lines(all);
    let last = all.last();
    if i == all.len() - 1 {
        let line = pretty::failure_line(last.0, last.1.outcome);
        let end = style::off() + "\n"@;
        assert(line =~= told + end);
        assert(now =~= before + told + end);
        lemma_holds(now, before, told, end);
    } else {
        assert(all.drop_last()[i] == all[i]);
        lemma_failure_line(all.drop_last(), i, told);
        let added = if last.1.outcome is Failed {
            pretty::failure_line(last.0, last.1.outcome)
        } else {
            Seq::empty()
        };
        assert(now =~= Seq::<char>::empty() + before + added);
        lemma_holds_inside(now, Seq::empty(), before, added, told);
    }
}

/// What a test wrote is shown at the end if it failed, and if it passed and all output is to be shown.
pub proof fn output_is_shown(
    report: Pretty,
    registered: Vec<RegisteredTest>,
    results: Vec<(RegisteredTest, TestResult)>,
    exec_time: u64,
    r: String,
    i: int,
    captured: Vec<CapturedOutput>,
    k: int,
)
    requires
        call_ensures(Pretty::finished_suite, (&report, &registered, &results, exec_time), r),
        0 <= i < results@.len(),
        results@[i].1 is Failed || results@[i].1 is Passed && report.show_output,
        call_ensures(TestResult::captured_output, (&results@[i].1,), &captured),
        0 <= k < captured@.len(),
    ensures
        match captured@[k] {
            CapturedOutput::Stdout { line, .. } => holds(r@, line@),
            CapturedOutput::Stderr { line, .. } => holds(r@, line@),
            CapturedOutput::Host { line, .. } => holds(r@, "[host] "@ + line@),
        },
{
    let all = pretty::entries(results@);
    let totals = results::totals(results::outcomes(results@));
    let filtered = (registered@.len() - results@.len()) as nat;
    let passed = if report.show_output {
        pretty::outputs(all, false)
    } else {
        Seq::empty()
    };
    let failed = pretty::outputs(all, true);
    let rest = pretty::totals_line(totals, filtered, exec_time) + pretty::failure_list(
        all,
        totals.failed,
    );
    let line = match captured@[k] {
        CapturedOutput::Stdout { line, .. } => line@,
        CapturedOutput::Stderr { line, .. } => line@,
        CapturedOutput::Host { line, .. } => "[host] "@ + line@,
    };
    assert(all[i].1.captured == captured@);
    if results@[i].1 is Failed {
        lemma_output_shown(all, true, i, k, line);
        assert(r@ =~= passed + failed + rest);
        lemma_holds_inside(r@, passed, failed, rest, line);
    } else {
        lemma_output_shown(all, false, i, k, line);
        assert(r@ =~= Seq::<char>::empty() + passed + (failed + rest));
        lemma_holds_inside(r@, Seq::empty(), passed, failed + rest, line);
    }
}

proof fn lemma_output_shown(
    all: Seq<(TestModel, ResultModel)>,
    of_failed: bool,
    i: int,
    k: int,
    line: Seq<char>,
)
    requires
        0 <= i < all.len(),
        of_failed && all[i].1.outcome is Failed || !of_failed && all[i].1.outcome is Passed,
        0 <= k < all[i].1.captured.len(),
        line == (match all[i].1.captured[k] {
            CapturedOutput::Stdout { line, .. } => line@,
            CapturedOutput::Stderr { line, .. } => line@,
            CapturedOutput::Host { line, .. } => "[host] "@ + line@,
        }),
    ensures
        holds(pretty::outputs(all, of_failed), line),
    decreases all.len(),
{
    let before = pretty::outputs(all.drop_last(), of_failed);
    let now = pretty::outputs(all, of_failed);
    let last = all.last();
    if i == all.len() - 1 {
        let head = "---- "@ + last.0.fully_qualified_name() + " stdout/err ----\n"@;
        let shown = pretty::shown_lines(last.1.captured);
        lemma_line_shown(last.1.captured, k, line);
        assert(now =~= (before + head) + shown + "\n"@);
        lemma_holds_inside(now, before + head, shown, "\n"@, line);
    } else {
        assert(all.drop_last()[i] == all[i]);
        lemma_output_shown(all.drop_last(), of_failed, i, k, line);
        let added = if (of_failed && last.1.outcome is Failed) || (!of_failed
            && last.1.outcome is Passed) {
            pretty::output_part(last)
        } else {
            Seq::empty()
        };
        assert(now =~= Seq::<char>::empty() + before + added);
        lemma_holds_inside(now, Seq::empty(), before, added, line);
    }
}

proof fn lemma_line_shown(captured: Seq<CapturedOutput>, k: int, line: Seq<char>)
    requires
        0 <= k < captured.len(),
        line == (match captured[k] {
            CapturedOutput::Stdout { line, .. } => line@,
            CapturedOutput::Stderr { line, .. } => line@,
            CapturedOutput::Host { line, .. } => "[host] "@ + line@,
        }),
    ensures
        holds(pretty::shown_lines(captured), line),
    decreases captured.len(),
{
    let before = pretty::shown_lines(captured.drop_last());
    let now = pretty::shown_lines(captured);
    let last = pretty::shown_line(captured.last());
    if k == captured.len() - 1 {
        let (a, b) = match captured[k] {
            CapturedOutput::Stdout { .. } => (Seq::empty(), "\n"@),
            CapturedOutput::Stderr { .. } => (
                style::spec_style_stderr().on(),
                style::off() + "\n"@,
            ),
            CapturedOutput::Host { .. } => (Seq::empty(), "\n"@),
        };
        assert(last =~= a + line + b);
        assert(now =~= (before + a) + line + b);
        lemma_holds(now, before + a, line, b);
    } else {
        lemma_line_shown(captured.drop_last(), k, line);
        assert(now =~= Seq::<char>::empty() + before + last);
        lemma_holds_inside(now, Seq::empty(), before, last, line);
    }
}

/// What a test that passed wrote makes no difference where only the output of failed tests is shown.
pub proof fn output_of_passed_tests_is_kept_back(
    report: Pretty,
    registered: Vec<RegisteredTest>,
    results: Vec<(RegisteredTest, TestResult)>,
    others: Vec<(RegisteredTest, TestResult)>,
    exec_time: u64,
    r: String,
    s: String,
)
    requires
        !report.show_output,
        results@.len() == others@.len(),
        forall|i: int|
            0 <= i < results@.len() ==> (#[trigger] results@[i]).0@ == others@[i].0@ && results@[i].1@
                == (ResultModel {
                captured: results@[i].1@.captured,
                ..others@[i].1@
            }) && (results@[i].1 is Failed ==> results@[i].1@ == others@[i].1@),
        call_ensures(Pretty::finished_suite, (&report, &registered, &results, exec_time), r),
        call_ensures(Pretty::finished_suite, (&report, &registered, &others, exec_time), s),
    ensures
        r@ == s@,
{
    let (a, b) = (pretty::entries(results@), pretty::entries(others@));
    assert(results::outcomes(results@) =~= results::outcomes(others@));
    assert forall|i: int| 0 <= i < a.len() implies {
        &&& (#[trigger] a[i]).0 == b[i].0
        &&& a[i].1.outcome == b[i].1.outcome
        &&& a[i].1.outcome is Failed ==> a[i] == b[i]
    } by {
        assert(results@[i].0@ == others@[i].0@);
    }
    lemma_same_failed(a, b);
}

proof fn lemma_same_failed(a: Seq<(TestModel, ResultModel)>, b: Seq<(TestModel, ResultModel)>)
    requires
        a.len() == b.len(),
        forall|i: int|
            0 <= i < a.len() ==> {
                &&& (#[trigger] a[i]).0 == b[i].0
                &&& a[i].1.outcome == b[i].1.outcome
                &&& a[i].1.outcome is Failed ==> a[i] == b[i]
            },
    ensures
        pretty::outputs(a, true) == pretty::outputs(b, true),
        pretty::failure_lines(a) == pretty::failure_lines(b),
    decreases a.len(),
{
    if a.len() > 0 {
        let (x, y) = (a.drop_last(), b.drop_last());
        assert forall|i: int| 0 <= i < x.len() implies {
            &&& (#[trigger] x[i]).0 == y[i].0
            &&& x[i].1.outcome == y[i].1.outcome
            &&& x[i].1.outcome is Failed ==> x[i] == y[i]
        } by {
            assert(x[i] == a[i] && y[i] == b[i]);
        }
        lemma_same_failed(x, y);
        let n = a.len() - 1;
        assert(a[n].0 == b[n].0);
    }
}

/// The word for a run as a whole.
pub open spec fn overall_word(totals: SuiteResult) -> Seq<char> {
    if totals.failed == 0 {
        "ok"@
    } else {
        "FAILED"@
    }
}

/// The end of a run tells how many tests passed, failed, were ignored, were measured and were filtered
/// out, and whether the run as a whole failed.
pub proof fn totals_are_told(
    report: Pretty,
    registered: Vec<RegisteredTest>,
    results: Vec<(RegisteredTest, TestResult)>,
    exec_time: u64,
    r: String,
    totals: SuiteResult,
    passed: String,
    failed: String,
    ignored: String,
    measured: String,
    filtered_out: String,
)
    requires
        results@.len() <= registered@.len(),
        call_ensures(Pretty::finished_suite, (&report, &registered, &results, exec_time), r),
        call_ensures(
            SuiteResult::from_test_results,
            (&registered, &results, exec_time),
            totals,
        ),
        call_ensures(text::decimal_u64, (totals.passed as u64,), passed),
        call_ensures(text::decimal_u64, (totals.failed as u64,), failed),
        call_ensures(text::decimal_u64, (totals.ignored as u64,), ignored),
        call_ensures(text::decimal_u64, (totals.measured as u64,), measured),
        call_ensures(text::decimal_u64, (totals.filtered_out as u64,), filtered_out),
    ensures
        exists|a: Seq<char>, b: Seq<char>|
            holds(
                r@,
                "\ntest result: "@ + #[trigger] (a + overall_word(totals) + b) + "; "@ + passed@
                    + " passed; "@ + failed@ + " failed; "@ + ignored@ + " ignored; "@ + measured@
                    + " measured; "@ + filtered_out@ + " filtered out; finished in "@,
            ),
{
    let all = pretty::entries(results@);
    let t = results::totals(results::outcomes(results@));
    let filtered = (registered@.len() - results@.len()) as nat;
    let head = (if report.show_output {
        pretty::outputs(all, false)
    } else {
        Seq::empty()
    }) + pretty::outputs(all, true);
    let a = if t.failed == 0 {
        style::spec_style_ok().on()
    } else {
        style::spec_style_failed().on()
    };
    assert(pretty::overall(t.failed) == a + overall_word(totals) + style::off());
    let told = pretty::totals_head(t) + measured@ + " measured; "@ + filtered_out@
        + " filtered out; finished in "@;
    let seconds = lines::seconds_rounded(exec_time);
    let line = pretty::totals_line(t, filtered, exec_time);
    let end = pretty::failure_list(all, t.failed);
    assert(line == told + seconds + "s\n\n"@);
    assert(line =~= Seq::<char>::empty() + told + (seconds + "s\n\n"@));
    lemma_holds(line, Seq::empty(), told, seconds + "s\n\n"@);
    assert(r@ == head + line + end);
    lemma_holds_inside(r@, head, line, end, told);
    assert(told == "\ntest result: "@ + (a + overall_word(totals) + style::off()) + "; "@ + passed@
        + " passed; "@ + failed@ + " failed; "@ + ignored@ + " ignored; "@ + measured@
        + " measured; "@ + filtered_out@ + " filtered out; finished in "@);
}

/// A list of tests has the name of every test on a line of its own, in their order, and their number.
pub proof fn every_test_is_listed(
    report: Pretty,
    tests: Vec<RegisteredTest>,
    r: String,
    i: int,
    name: String,
)
    requires
        call_ensures(Pretty::test_list, (&report, &tests), r),
        0 <= i < tests@.len(),
        call_ensures(RegisteredTest::fully_qualified_name, (&tests@[i],), name),
    ensures
        holds(r@, name@ + "\n"@),
{
    let all = internal::test_views(tests@);
    lemma_listed(all, i);
    let end = "\n"@ + text::decimal(tests@.len()) + " tests\n"@;
    assert(all[i].fully_qualified_name() == name@);
    assert(r@ =~= Seq::<char>::empty() + pretty::name_lines(all) + end);
    lemma_holds_inside(r@, Seq::empty(), pretty::name_lines(all), end, name@ + "\n"@);
}

proof fn lemma_listed(all: Seq<TestModel>, i: int)
    requires
        0 <= i < all.len(),
    ensures
        holds(pretty::name_lines(all), all[i].fully_qualified_name() + "\n"@),
    decreases all.len(),
{
    let line = all[i].fully_qualified_name() + "\n"@;
    let before = pretty::name_lines(all.drop_last());
    let now = pretty::name_lines(all);
    if i == all.len() - 1 {
        assert(now =~= before + line + Seq::empty());
        lemma_holds(now, before, line, Seq::empty());
    } else {
        assert(all.drop_last()[i] == all[i]);
        lemma_listed(all.drop_last(), i);
        let last = all.last().fully_qualified_name() + "\n"@;
        assert(now =~= Seq::<char>::empty() + before + last);
        lemma_holds_inside(now, Seq::empty(), before, last, line);
    }
}

/// The terse report tells the name of a test that failed, and calls it failed.
pub proof fn terse_report_tells_failures(
    before: Terse,
    test: RegisteredTest,
    result: TestResult,
    name: String,
    r: String,
)
    requires
        exists|report: &mut Terse|
            *report == before && #[trigger] call_ensures(
                Terse::finished_running_test,
                (report, &test, &result),
                r,
            ),
        call_ensures(RegisteredTest::fully_qualified_name, (&test,), name),
    ensures
        result is Failed ==> holds(r@, name@ + " --- "@) && holds(r@, "FAILED"@),
        result is Benchmarked ==> holds(r@, "bench"@),
        result is Passed || result is Ignored ==> r@.contains('.'),
{
    let column = before.state.column as nat;
    let shown = terse::printed(column, name@, result@.outcome).0;
    match result {
        TestResult::Failed { .. } => {
            let word = style::painted(style::spec_style_failed(), "FAILED"@);
            let a = if column > 0 {
                "\n"@
            } else {
                Seq::empty()
            };
            let told = name@ + " --- "@;
            assert(shown =~= a + told + (word + "\n"@));
            lemma_holds(r@, a, told, word + "\n"@);
            let on = style::spec_style_failed().on();
            assert(shown =~= (a + told + on) + "FAILED"@ + (style::off() + "\n"@));
            lemma_holds(r@, a + told + on, "FAILED"@, style::off() + "\n"@);
        },
        TestResult::Benchmarked { .. } => {
            lemma_holds(r@, style::spec_style_bench().on(), "bench"@, style::off());
        },
        TestResult::Passed { .. } => {
            assert(r@[style::spec_style_ok().on().len() as int] == '.');
        },
        TestResult::Ignored { .. } => {
            assert(r@[style::spec_style_ignored().on().len() as int] == '.');
        },
    }
}

/// The words by which a line of the JSON report begins that tells how a test ended.
pub open spec fn json_start(result: TestResult) -> Seq<char> {
    match result {
        TestResult::Passed { .. } => "{ \"type\": \"test\", \"event\": \"ok\", \"name\": "@,
        TestResult::Failed { .. } => {
            "{ \"type\": \"test\", \"event\": \"failed\", \"name\": "@
        },
        TestResult::Ignored { .. } => {
            "{ \"type\": \"test\", \"event\": \"ignored\", \"name\": "@
        },
        TestResult::Benchmarked { .. } => "{ \"type\": \"bench\", \"name\": "@,
    }
}

/// The JSON report tells how each test ended, under the name that it told when the test started. Of a
/// test that failed it tells why, and of a benchmark what was measured.
#[verifier::rlimit(40)]
pub proof fn json_report_tells_the_outcome(
    report: Json,
    test: RegisteredTest,
    result: TestResult,
    started: String,
    r: String,
    message: Option<String>,
)
    requires
        call_ensures(Json::start_running_test, (&report, &test), started),
        call_ensures(Json::finished_running_test, (&report, &test, &result), r),
        call_ensures(TestResult::failure_message, (&result,), message),
    ensures
        exists|name: Seq<char>, rest: Seq<char>|
            {
                &&& started@ == "{ \"type\": \"test\", \"event\": \"started\", \"name\": "@ + name
                    + " }\n"@
                &&& r@ == #[trigger] (json_start(result) + name + rest)
                &&& message matches Some(m) ==> holds(rest, json::escaped("Error: "@ + m@))
                &&& result matches TestResult::Benchmarked { ns_iter_summ, .. } ==> holds(
                    rest,
                    ns_iter_summ.median_text@,
                ) && holds(rest, ns_iter_summ.deviation_text@)
            },
{
    let name = json::string(test@.fully_qualified_name());
    lemma_json_start(result);
    match result {
        TestResult::Benchmarked { ns_iter_summ, mb_s, .. } => {
            let m = ns_iter_summ.median_text@;
            let d = ns_iter_summ.deviation_text@;
            let tail = json::throughput(mb_s as nat) + " }\n"@;
            let rest = ", \"median\": "@ + m + ", \"deviation\": "@ + d + tail;
            assert(r@ =~= json_start(result) + name + rest);
            assert(rest =~= ", \"median\": "@ + m + (", \"deviation\": "@ + d + tail));
            lemma_holds(rest, ", \"median\": "@, m, ", \"deviation\": "@ + d + tail);
            lemma_holds(rest, ", \"median\": "@ + m + ", \"deviation\": "@, d, tail);
            assert(started@ == "{ \"type\": \"test\", \"event\": \"started\", \"name\": "@ + name
                + " }\n"@);
        },
        _ => {
            let extra = json::extra(report.show_output, result@);
            let rest = extra + " }\n"@;
            assert(r@ =~= json_start(result) + name + rest);
            if let Some(m) = message {
                let error = "Error: "@ + m@;
                let captured = lines::stdout_lines(result@.captured);
                let all = captured.push(error);
                lemma_joined_ends(all, "\n"@);
                let before = choose|before: Seq<char>|
                    text::joined(all, "\n"@) == #[trigger] (before + error);
                lemma_escaped_both(before, error);
                let a = ", \"stdout\": "@ + ("\""@ + json::escaped(before));
                assert(rest =~= a + json::escaped(error) + ("\""@ + " }\n"@));
                lemma_holds(rest, a, json::escaped(error), "\""@ + " }\n"@);
            }
            assert(started@ == "{ \"type\": \"test\", \"event\": \"started\", \"name\": "@ + name
                + " }\n"@);
        },
    }
}

proof fn lemma_json_start(result: TestResult)
    ensures
        !(result is Benchmarked) ==> json_start(result) == "{ \"type\": \"test\", \"event\": \""@
            + json::event_word(result@.outcome) + "\", \"name\": "@,
{
    reveal_strlit("{ \"type\": \"test\", \"event\": \"");
    reveal_strlit("\", \"name\": ");
    reveal_strlit("ok");
    reveal_strlit("failed");
    reveal_strlit("ignored");
    reveal_strlit("{ \"type\": \"test\", \"event\": \"ok\", \"name\": ");
    reveal_strlit("{ \"type\": \"test\", \"event\": \"failed\", \"name\": ");
    reveal_strlit("{ \"type\": \"test\", \"event\": \"ignored\", \"name\": ");
    if !(result is Benchmarked) {
        assert(json_start(result) =~= "{ \"type\": \"test\", \"event\": \""@
            + json::event_word(result@.outcome) + "\", \"name\": "@);
    }
}

proof fn lemma_joined_ends(parts: Seq<Seq<char>>, sep: Seq<char>)
    requires
        parts.len() > 0,
    ensures
        exists|before: Seq<char>| text::joined(parts, sep) == #[trigger] (before + parts.last()),
{
    if parts.len() == 1 {
        assert(text::joined(parts, sep) =~= Seq::<char>::empty() + parts.last());
    } else {
        let before = text::joined(parts.drop_last(), sep) + sep;
        assert(text::joined(parts, sep) == before + parts.last());
    }
}

proof fn lemma_escaped_both(a: Seq<char>, b: Seq<char>)
    ensures
        json::escaped(a + b) == json::escaped(a) + json::escaped(b),
    decreases b.len(),
{
    if b.len() == 0 {
        assert(a + b =~= a);
        assert(json::escaped(a + b) =~= json::escaped(a) + json::escaped(b));
    } else {
        lemma_escaped_both(a, b.drop_last());
        assert((a + b).drop_last() =~= a + b.drop_last());
        assert(json::escaped(a + b) =~= json::escaped(a) + json::escaped(b));
    }
}

/// A text without quotation marks, backslashes and control characters stands in a JSON string as it is.
pub proof fn plain_text_is_not_escaped(s: Seq<char>)
    requires
        forall|i: int|
            0 <= i < s.len() ==> (#[trigger] s[i]) != '"' && s[i] != '\\' && s[i] as u32 >= 32,
    ensures
        json::escaped(s) == s,
    decreases s.len(),
{
    if s.len() > 0 {
        let init = s.drop_last();
        assert forall|i: int| 0 <= i < init.len() implies (#[trigger] init[i]) != '"' && init[i]
            != '\\' && init[i] as u32 >= 32 by {
            assert(init[i] == s[i]);
        }
        plain_text_is_not_escaped(init);
        let c = s[s.len() - 1];
        assert(json::escaped_char(c) == seq![c]);
        assert(json::escaped(s) =~= s);
    }
}

/// The end of the JSON report tells whether the run failed, and the totals.
#[verifier::rlimit(40)]
pub proof fn json_report_tells_the_totals(
    report: Json,
    registered: Vec<RegisteredTest>,
    results: Vec<(RegisteredTest, TestResult)>,
    exec_time: u64,
    r: String,
    totals: SuiteResult,
    passed: String,
    failed: String,
    ignored: String,
    measured: String,
    filtered_out: String,
)
    requires
        results@.len() <= registered@.len(),
        call_ensures(Json::finished_suite, (&report, &registered, &results, exec_time), r),
        call_ensures(
            SuiteResult::from_test_results,
            (&registered, &results, exec_time),
            totals,
        ),
        call_ensures(text::decimal_u64, (totals.passed as u64,), passed),
        call_ensures(text::decimal_u64, (totals.failed as u64,), failed),
        call_ensures(text::decimal_u64, (totals.ignored as u64,), ignored),
        call_ensures(text::decimal_u64, (totals.measured as u64,), measured),
        call_ensures(text::decimal_u64, (totals.filtered_out as u64,), filtered_out),
    ensures
        exists|rest: Seq<char>|
            r@ == "{ \"type\": \"suite\", \"event\": \""@ + (if totals.failed == 0 {
                "ok"@
            } else {
                "failed"@
            }) + "\", \"passed\": \""@ + passed@ + "\", \"failed\": "@ + failed@
                + ", \"ignored\": "@ + ignored@ + ", \"measured\": "@ + measured@
                + ", \"filtered_out\": "@ + filtered_out@ + #[trigger] (", \"exec_time\": "@ + rest),
{
    let seconds = lines::seconds_shown(exec_time);
    let t = results::totals(results::outcomes(results@));
    let filtered = (registered@.len() - results@.len()) as nat;
    let head = json::suite_counts(t) + ", \"measured\": "@ + text::decimal(t.measured)
        + ", \"filtered_out\": "@ + text::decimal(filtered);
    let key = ", \"exec_time\": "@;
    let end = " }\n"@;
    assert(r@ == head + key + seconds + end);
    assert(head + key + seconds + end =~= head + (key + (seconds + end)));
    assert(r@ == head + (key + (seconds + end)));
}

/// What the entry of a test in a report of this format says is what came of the test.
pub proof fn entry_tells_the_outcome(
    test: RegisteredTest,
    result: TestResult,
    show_output: bool,
    pending: PendingTest,
    stop: u64,
    r: CtrfTest,
    name: String,
    suite: String,
    message: Option<String>,
)
    requires
        call_ensures(ctrf::build_test_value, (&test, &result, show_output, pending, stop), r),
        call_ensures(RegisteredTest::fully_qualified_name, (&test,), name),
        call_ensures(RegisteredTest::crate_and_module, (&test,), suite),
        call_ensures(TestResult::failure_message, (&result,), message),
    ensures
        r.name@ == name@,
        r.suite@ == suite@,
        result is Failed <==> r.status == CtrfStatus::Failed,
        result is Ignored <==> r.status == CtrfStatus::Skipped,
        result is Passed || result is Benchmarked <==> r.status == CtrfStatus::Passed,
        text::opt_view(r.message) == text::opt_view(message),
        r.start == pending.start,
        r.stop == Some(stop),
        r.retries == pending.retries,
        r.flaky == pending.flaky,
        result matches TestResult::Passed { exec_time, .. } ==> r.duration == exec_time,
        result matches TestResult::Failed { exec_time, .. } ==> r.duration == exec_time,
        result matches TestResult::Benchmarked { exec_time, .. } ==> r.duration == exec_time,
        !(result is Failed) && !show_output ==> r.stdout@.len() == 0 && r.stderr@.len() == 0,
{
    assert(r@ == ctrf::entry_of(test@, result@, show_output, pending, stop));
    if !(result is Failed) && !show_output {
        assert(text::views(r.stdout@).len() == 0);
        assert(text::views(r.stderr@).len() == 0);
    }
}

/// What a test wrote is in its entry if it failed or all output is to be shown: each line under its
/// stream, and lines of the parent marked as such.
pub proof fn entry_holds_the_output(
    test: RegisteredTest,
    result: TestResult,
    show_output: bool,
    pending: PendingTest,
    stop: u64,
    r: CtrfTest,
    captured: Vec<CapturedOutput>,
    k: int,
)
    requires
        call_ensures(ctrf::build_test_value, (&test, &result, show_output, pending, stop), r),
        call_ensures(TestResult::captured_output, (&result,), &captured),
        result is Failed || show_output,
        0 <= k < captured@.len(),
    ensures
        match captured@[k] {
            CapturedOutput::Stdout { line, .. } => text::views(r.stdout@).contains(line@),
            CapturedOutput::Stderr { line, .. } => text::views(r.stderr@).contains(line@),
            CapturedOutput::Host { line, .. } => text::views(r.stdout@).contains(
                "[host] "@ + line@,
            ),
        },
{
    assert(r@ == ctrf::entry_of(test@, result@, show_output, pending, stop));
    lemma_out_line(captured@, k);
}

proof fn lemma_out_line(captured: Seq<CapturedOutput>, k: int)
    requires
        0 <= k < captured.len(),
    ensures
        match captured[k] {
            CapturedOutput::Stdout { line, .. } => ctrf::out_lines(captured).contains(line@)
                && lines::stdout_lines(captured).contains(line@),
            CapturedOutput::Stderr { line, .. } => lines::stderr_lines(captured).contains(line@),
            CapturedOutput::Host { line, .. } => ctrf::out_lines(captured).contains(
                "[host] "@ + line@,
            ),
        },
    decreases captured.len(),
{
    let init = captured.drop_last();
    let (a, b) = (ctrf::out_lines(init), ctrf::out_lines(captured));
    let (c, d) = (lines::stderr_lines(init), lines::stderr_lines(captured));
    let (e, f) = (lines::stdout_lines(init), lines::stdout_lines(captured));
    if k == captured.len() - 1 {
        match captured[k] {
            CapturedOutput::Stdout { line, .. } => {
                assert(b[a.len() as int] == line@);
                assert(f[e.len() as int] == line@);
            },
            CapturedOutput::Stderr { line, .. } => {
                assert(d[c.len() as int] == line@);
            },
            CapturedOutput::Host { line, .. } => {
                assert(b[a.len() as int] == "[host] "@ + line@);
            },
        }
    } else {
        lemma_out_line(init, k);
        assert(init[k] == captured[k]);
        match captured[k] {
            CapturedOutput::Stdout { line, .. } => {
                let i = a.index_of(line@);
                assert(b[i] == line@);
                let j = e.index_of(line@);
                assert(f[j] == line@);
            },
            CapturedOutput::Stderr { line, .. } => {
                let i = c.index_of(line@);
                assert(d[i] == line@);
            },
            CapturedOutput::Host { line, .. } => {
                let i = a.index_of("[host] "@ + line@);
                assert(b[i] == "[host] "@ + line@);
            },
        }
    }
}

/// The part of an XML document says that a test failed.
pub open spec fn is_failure(event: XmlEvent) -> bool {
    match event {
        XmlEvent::Empty(name, _) => name == "failure"@,
        XmlEvent::Start(name, _) => name == "failure"@,
        _ => false,
    }
}

/// The part of an XML document begins a test case.
pub open spec fn is_case(event: XmlEvent) -> bool {
    match event {
        XmlEvent::Empty(name, _) => name == "testcase"@,
        XmlEvent::Start(name, _) => name == "testcase"@,
        _ => false,
    }
}

/// The JUnit report has a test case for every test that was not ignored, under its name; of a test that
/// failed a failure with the message follows, and of no other test.
pub proof fn junit_report_tells_failures(
    before: JUnit,
    after: JUnit,
    registered: Vec<RegisteredTest>,
    results: Vec<(RegisteredTest, TestResult)>,
    exec_time: u64,
    i: int,
    class: String,
    message: Option<String>,
) -> (k: int)
    requires
        exists|report: &mut JUnit|
            *report == before && *final(report) == after && #[trigger] call_ensures(
                JUnit::finished_suite,
                (report, &registered, &results, exec_time),
                (),
            ),
        0 <= i < results@.len(),
        !(results@[i].1 is Ignored),
        call_ensures(RegisteredTest::crate_and_module, (&results@[i].0,), class),
        call_ensures(TestResult::failure_message, (&results@[i].1,), message),
    ensures
        junit::written(before.writer).len() <= k < junit::written(after.writer).len() - 1,
        ({
            let here = junit::written(after.writer)[k];
            let next = junit::written(after.writer)[k + 1];
            let attributes = match here {
                XmlEvent::Start(name, attributes) => attributes,
                XmlEvent::Empty(name, attributes) => attributes,
                _ => Seq::empty(),
            };
            &&& is_case(here)
            &&& results@[i].1 is Failed ==> here is Start
            &&& attributes.contains(("name"@, results@[i].0.name@))
            &&& !(results@[i].1 is Benchmarked) ==> attributes.contains(("classname"@, class@))
            &&& results@[i].1 is Failed ==> (next matches XmlEvent::Empty(name, said) && name
                == "failure"@ && message is Some && said.contains(("message"@, message->0@)))
            &&& !(results@[i].1 is Failed) ==> !is_failure(next)
        }),
{
    let all = pretty::entries(results@);
    let cases = junit::cases(before.show_output, all);
    let old_events = junit::written(before.writer);
    let totals = results::totals(results::outcomes(results@));
    let report = junit::report_events(
        before.show_output,
        all,
        totals,
        registered@.len(),
        exec_time,
    );
    assert(junit::written(after.writer) == old_events + report);
    let j = lemma_case_found(before.show_output, all, i);
    let k = old_events.len() + 2 + j;
    let here = cases[j];
    assert(report[2 + j] == here);
    assert(junit::written(after.writer)[k] == here);
    reveal_strlit("failure");
    reveal_strlit("testcase");
    reveal_strlit("testsuite");
    reveal_strlit("system-out");
    if j + 1 < cases.len() {
        assert(report[2 + j + 1] == cases[j + 1]);
    } else {
        assert(report[2 + j + 1] == XmlEvent::End("testsuite"@));
    }
    assert(junit::written(after.writer)[k + 1] == report[2 + j + 1]);
    assert("failure"@.len() == 7 && "testcase"@.len() == 8 && "system-out"@.len() == 10);
    let events = junit::case_events(before.show_output, all[i].0, all[i].1);
    if !(results@[i].1 is Failed) && events.len() > 1 {
        let shown = junit::captured_events(all[i].1.captured);
        assert(shown[0] == XmlEvent::Start("system-out"@, Seq::empty()));
        assert(events[1] == shown[0]);
    }
    let next = junit::written(after.writer)[k + 1];
    assert(!(results@[i].1 is Failed) ==> !is_failure(next));
    let attributes = junit::case_attrs(
        all[i].0,
        all[i].1.outcome,
        match all[i].1.outcome {
            Outcome::Passed { exec_time } => exec_time,
            Outcome::Benchmarked { exec_time, .. } => exec_time,
            Outcome::Failed { exec_time, .. } => exec_time,
            Outcome::Ignored => 0,
        },
    );
    assert(attributes[0] == ("name"@, results@[i].0.name@));
    assert(attributes[1].0 == "classname"@);
    if results@[i].1 is Failed {
        let said = seq![("type"@, "assert"@), ("message"@, message->0@)];
        assert(said[1] == ("message"@, message->0@));
    }
    k
}

/// Where the test case of a result begins.
proof fn lemma_case_found(show_output: bool, all: Seq<(TestModel, ResultModel)>, i: int) -> (j: int)
    requires
        0 <= i < all.len(),
        !(all[i].1.outcome is Ignored),
    ensures
        0 <= j < junit::cases(show_output, all).len(),
        ({
            let cases = junit::cases(show_output, all);
            let events = junit::case_events(show_output, all[i].0, all[i].1);
            &&& events.len() > 0
            &&& cases[j] == events[0]
            &&& events.len() > 1 ==> j + 1 < cases.len() && cases[j + 1] == events[1]
            &&& events.len() == 1 && j + 1 < cases.len() ==> is_case(cases[j + 1])
        }),
    decreases all.len(),
{
    let init = all.drop_last();
    let before = junit::cases(show_output, init);
    let cases = junit::cases(show_output, all);
    let last = junit::case_events(show_output, all.last().0, all.last().1);
    let events = junit::case_events(show_output, all[i].0, all[i].1);
    assert(cases == before + last);
    if i == all.len() - 1 {
        before.len() as int
    } else {
        assert(init[i] == all[i]);
        let j = lemma_case_found(show_output, init, i);
        if events.len() == 1 && j + 1 < cases.len() && j + 1 >= before.len() {
            assert(cases[j + 1] == last[0]);
        }
        j
    }
}

} // verus!
