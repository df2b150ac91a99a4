//! What reports tell beside the outcomes: times, numbers and output.
use super::words::{holds, lemma_holds, lemma_holds_inside};
use crate::args::TimeThreshold;
use crate::internal::{RegisteredTest, TestType};
use crate::output::json;
use crate::output::json::Json;
use crate::output::junit;
use crate::output::junit::{JUnit, XmlEvent};
use crate::output::lines;
use crate::output::pretty;
use crate::output::pretty::Pretty;
use crate::output::style;
use crate::output::style::Paint;
use crate::output::terse::Terse;
use crate::results;
use crate::results::{CapturedOutput, SuiteResult, TestResult};
use crate::text;
use vstd::prelude::*;

verus! {

/// Where times are reported, the time of a test stands in its line: in red if it is critical, in yellow if
/// it deserves a warning, else in green. The limits are those for tests of its type.
pub proof fn time_is_shown_in_its_color(
    report: Pretty,
    test: RegisteredTest,
    idx: usize,
    count: usize,
    result: TestResult,
    time: u64,
    r: String,
    paint: Paint,
    code: String,
)
    requires
        call_ensures(Pretty::finished_running_test, (&report, &test, idx, count, &result), r),
        result matches TestResult::Passed { exec_time, .. } ==> exec_time == time,
        result matches TestResult::Failed { exec_time, .. } ==> exec_time == time,
        result is Passed || result is Failed,
        report.report_time,
        !paint.bold,
        !paint.dimmed,
        ({
            let limits = if test.props.test_type == TestType::UnitTest {
                report.unit_test_threshold
            } else {
                report.integ_test_threshold
            };
            &&& limits.critical <= time ==> paint.color == 1
            &&& time < limits.critical && limits.warn <= time ==> paint.color == 3
            &&& time < limits.critical && time < limits.warn ==> paint.color == 2
        }),
        call_ensures(Paint::render, (&paint,), code),
    ensures
        holds(r@, "<"@ + code@ + lines::seconds_rounded(time) + "s"@),
{
    let limits = pretty::limits_of(report, test.props.test_type);
    let told = "<"@ + code@ + lines::seconds_rounded(time) + "s"@;
    assert(paint == pretty::time_paint(limits, time));
    let shown = pretty::time_part(true, limits, time);
    lemma_time(limits, time, code@);
    let part = pretty::result_part(true, limits, result@.outcome);
    let (word, look) = if result is Passed {
        ("PASSED"@, style::spec_style_ok())
    } else {
        ("FAILED"@, style::spec_style_failed())
    };
    let a = "["@ + style::painted(look, word) + "]"@;
    assert(part =~= a + shown + Seq::<char>::empty());
    lemma_holds_inside(part, a, shown, Seq::empty(), told);
    let start = pretty::index_part(report.index_field_length as nat, idx as nat, count as nat)
        + " Finished test: "@ + test@.fully_qualified_name() + text::blanks(
        (report.longest_name - text::width(test@.fully_qualified_name()) + 1) as nat,
    );
    assert(r@ == start + part + "\n"@);
    lemma_holds_inside(r@, start, part, "\n"@, told);
}

proof fn lemma_time(limits: TimeThreshold, time: u64, code: Seq<char>)
    requires
        code == pretty::time_paint(limits, time).on(),
    ensures
        holds(
            pretty::time_part(true, limits, time),
            "<"@ + code + lines::seconds_rounded(time) + "s"@,
        ),
{
    let told = "<"@ + code + lines::seconds_rounded(time) + "s"@;
    let shown = pretty::time_part(true, limits, time);
    reveal_strlit("         <");
    reveal_strlit("         ");
    reveal_strlit("<");
    assert("         <"@ =~= "         "@ + "<"@);
    assert(shown =~= "         "@ + told + (style::off() + ">"@));
    lemma_holds(shown, "         "@, told, style::off() + ">"@);
}

/// Where times are not reported, the line of a test does not depend on its time.
pub proof fn time_is_not_shown_unasked(
    report: Pretty,
    test: RegisteredTest,
    idx: usize,
    count: usize,
    a: u64,
    b: u64,
    captured_a: Vec<CapturedOutput>,
    captured_b: Vec<CapturedOutput>,
    r: String,
    s: String,
)
    requires
        !report.report_time,
        call_ensures(
            Pretty::finished_running_test,
            (
                &report,
                &test,
                idx,
                count,
                &(TestResult::Passed { exec_time: a, captured: captured_a }),
            ),
            r,
        ),
        call_ensures(
            Pretty::finished_running_test,
            (
                &report,
                &test,
                idx,
                count,
                &(TestResult::Passed { exec_time: b, captured: captured_b }),
            ),
            s,
        ),
    ensures
        r@ == s@,
{
}

/// The lines of a test tell which of how many it is, counted from one, and the report starts with how many
/// there are.
pub proof fn tests_are_counted(
    before: Pretty,
    after: Pretty,
    tests: Vec<RegisteredTest>,
    opened: String,
    test: RegisteredTest,
    idx: usize,
    r: String,
    number: String,
    count: String,
)
    requires
        exists|report: &mut Pretty|
            *report == before && *final(report) == after && #[trigger] call_ensures(
                Pretty::start_suite,
                (report, &tests),
                opened,
            ),
        idx < usize::MAX,
        call_ensures(Pretty::start_running_test, (&after, &test, idx, tests.len()), r),
        call_ensures(text::decimal_u64, ((idx + 1) as u64,), number),
        call_ensures(text::decimal_u64, (tests.len() as u64,), count),
    ensures
        holds(opened@, "Running "@ + count@ + " tests"@),
        holds(r@, number@ + "/"@ + count@ + "]"@),
{
    let on = style::spec_style_progress().on();
    let what = "Running "@ + count@ + " tests"@;
    assert(opened@ =~= on + what + (style::off() + "\n\n"@));
    lemma_holds(opened@, on, what, style::off() + "\n\n"@);
    let field = pretty::index_field(idx as nat, tests@.len());
    assert(field == number@ + "/"@ + count@);
    let start = on + "["@ + text::blanks(
        (after.index_field_length - text::width(field)) as nat,
    );
    let rest = style::off() + " Running test: "@ + test@.fully_qualified_name() + "\n"@;
    assert(r@ =~= start + (field + "]"@) + rest);
    lemma_holds(r@, start, field + "]"@, rest);
}

/// In the terse report, an ignored test looks different from one that passed.
pub proof fn ignored_tests_look_different(
    before: Terse,
    test: RegisteredTest,
    passed: TestResult,
    ignored: TestResult,
    r: String,
    s: String,
)
    requires
        passed is Passed,
        ignored is Ignored,
        exists|report: &mut Terse|
            *report == before && #[trigger] call_ensures(
                Terse::finished_running_test,
                (report, &test, &passed),
                r,
            ),
        exists|report: &mut Terse|
            *report == before && #[trigger] call_ensures(
                Terse::finished_running_test,
                (report, &test, &ignored),
                s,
            ),
    ensures
        r@ != s@,
{
    reveal_strlit("\u{1b}[2m");
    reveal_strlit("\u{1b}[3");
    let (a, b) = (style::spec_style_ok().on(), style::spec_style_ignored().on());
    assert(a[2] == '3');
    assert(b[2] == '2');
    assert(r@[2] == a[2]);
    assert(s@[2] == b[2]);
}

/// In the JSON report, what a passed test wrote is shown only where the user asks for that; what a failed
/// test wrote is always shown.
pub proof fn json_shows_output_where_asked(
    report: Json,
    test: RegisteredTest,
    result: TestResult,
    i: int,
    captured: Vec<CapturedOutput>,
    r: String,
    quiet: Vec<CapturedOutput>,
    time: u64,
    s: String,
    t: String,
)
    requires
        call_ensures(Json::finished_running_test, (&report, &test, &result), r),
        call_ensures(TestResult::captured_output, (&result,), &captured),
        call_ensures(
            Json::finished_running_test,
            (&report, &test, &(TestResult::Passed { exec_time: time, captured })),
            s,
        ),
        call_ensures(
            Json::finished_running_test,
            (&report, &test, &(TestResult::Passed { exec_time: time, captured: quiet })),
            t,
        ),
        0 <= i < captured@.len(),
    ensures
        !report.show_output ==> s@ == t@,
        result is Failed || (result is Passed && report.show_output) ==> (
        captured@[i] matches CapturedOutput::Stdout { line, .. } ==> holds(
            r@,
            json::escaped(line@),
        )),
{
    if result is Failed || (result is Passed && report.show_output) {
        if let CapturedOutput::Stdout { line, .. } = captured@[i] {
            let found = lines::stdout_lines(captured@);
            let all = if result is Failed {
                found.push("Error: "@ + result@.outcome->cause.rendered())
            } else {
                found
            };
            let k = lemma_stdout_line(captured@, i);
            assert(all[k] == line@);
            let (x, y) = lemma_joined_text(all, "\n"@, k);
            let whole = text::joined(all, "\n"@);
            assert(whole =~= x + line@ + y);
            lemma_escaped_parts(x, line@, y);
            let name = json::string(test@.fully_qualified_name());
            let start = "{ \"type\": \"test\", \"event\": \""@ + json::event_word(result@.outcome)
                + "\", \"name\": "@ + name + ", \"stdout\": "@;
            let shown = json::string(whole);
            assert(r@ =~= start + shown + " }\n"@);
            lemma_string_holds(whole, json::escaped(x), json::escaped(line@), json::escaped(y));
            lemma_holds_inside(r@, start, shown, " }\n"@, json::escaped(line@));
        }
    }
}

proof fn lemma_string_holds(s: Seq<char>, a: Seq<char>, b: Seq<char>, c: Seq<char>)
    requires
        json::escaped(s) == a + b + c,
    ensures
        holds(json::string(s), b),
{
    let quote = seq!['"'];
    reveal_strlit("\"");
    assert("\""@ =~= quote);
    assert(json::string(s) =~= (quote + a) + b + (c + quote));
    lemma_holds(json::string(s), quote + a, b, c + quote);
}

/// Escaping goes character by character.
proof fn lemma_escaped_parts(a: Seq<char>, b: Seq<char>, c: Seq<char>)
    ensures
        json::escaped(a + b + c) == json::escaped(a) + json::escaped(b) + json::escaped(c),
{
    lemma_escaped_two(a + b, c);
    lemma_escaped_two(a, b);
}

proof fn lemma_escaped_two(a: Seq<char>, b: Seq<char>)
    ensures
        json::escaped(a + b) == json::escaped(a) + json::escaped(b),
    decreases b.len(),
{
    if b.len() == 0 {
        assert(a + b =~= a);
        assert(json::escaped(a) + json::escaped(b) =~= json::escaped(a));
    } else {
        let init = b.drop_last();
        lemma_escaped_two(a, init);
        assert((a + b).drop_last() =~= a + init);
        assert((a + b).last() == b.last());
        assert(json::escaped(a + b) =~= json::escaped(a) + json::escaped(b));
    }
}

proof fn lemma_stdout_line(captured: Seq<CapturedOutput>, i: int) -> (k: int)
    requires
        0 <= i < captured.len(),
        captured[i] is Stdout,
    ensures
        0 <= k < lines::stdout_lines(captured).len(),
        captured[i] matches CapturedOutput::Stdout { line, .. } && lines::stdout_lines(captured)[k]
            == line@,
    decreases captured.len(),
{
    let init = captured.drop_last();
    if i == captured.len() - 1 {
        lines::stdout_lines(init).len() as int
    } else {
        assert(init[i] == captured[i]);
        lemma_stdout_line(init, i)
    }
}

proof fn lemma_joined_text(parts: Seq<Seq<char>>, sep: Seq<char>, i: int) -> (r: (
    Seq<char>,
    Seq<char>,
))
    requires
        0 <= i < parts.len(),
    ensures
        text::joined(parts, sep) == r.0 + parts[i] + r.1,
    decreases parts.len(),
{
    let init = parts.drop_last();
    if parts.len() == 1 {
        assert(text::joined(parts, sep) =~= Seq::<char>::empty() + parts[i] + Seq::<char>::empty());
        (Seq::empty(), Seq::empty())
    } else if i == parts.len() - 1 {
        let before = text::joined(init, sep) + sep;
        assert(text::joined(parts, sep) =~= before + parts[i] + Seq::<char>::empty());
        (before, Seq::empty())
    } else {
        assert(init[i] == parts[i]);
        let (a, b) = lemma_joined_text(init, sep, i);
        let after = b + sep + parts.last();
        assert(text::joined(parts, sep) =~= a + parts[i] + after);
        (a, after)
    }
}

/// The JUnit report says how many tests there are, and how many of them failed and were ignored.
pub proof fn junit_report_tells_the_totals(
    before: JUnit,
    after: JUnit,
    registered: Vec<RegisteredTest>,
    results: Vec<(RegisteredTest, TestResult)>,
    exec_time: u64,
    suite: SuiteResult,
    failed: String,
    ignored: String,
    count: String,
) -> (k: int)
    requires
        exists|report: &mut JUnit|
            *report == before && *final(report) == after && #[trigger] call_ensures(
                JUnit::finished_suite,
                (report, &registered, &results, exec_time),
                (),
            ),
        call_ensures(SuiteResult::from_test_results, (&registered, &results, exec_time), suite),
        call_ensures(text::decimal_u64, (suite.failed as u64,), failed),
        call_ensures(text::decimal_u64, (suite.ignored as u64,), ignored),
        call_ensures(text::decimal_u64, (registered.len() as u64,), count),
    ensures
        junit::written(before.writer).len() <= k < junit::written(after.writer).len(),
        junit::written(after.writer)[k] matches XmlEvent::Start(name, attributes) && name
            == "testsuite"@ && attributes.contains(("failures"@, failed@)) && attributes.contains(
            ("skipped"@, ignored@),
        ) && attributes.contains(("tests"@, count@)),
{
    let old_events = junit::written(before.writer);
    let totals = results::totals(results::outcomes(results@));
    let report = junit::report_events(
        before.show_output,
        pretty::entries(results@),
        totals,
        registered@.len(),
        exec_time,
    );
    let attributes = junit::suite_attrs(
        totals.failed,
        registered@.len(),
        totals.ignored,
        exec_time,
    );
    let k = old_events.len() + 1;
    assert(junit::written(after.writer)[k as int] == report[1]);
    assert(report[1] == XmlEvent::Start("testsuite"@, attributes));
    assert(attributes[4] == ("failures"@, failed@));
    assert(attributes[5] == ("tests"@, count@));
    assert(attributes[6] == ("skipped"@, ignored@));
    k as int
}

} // verus!
