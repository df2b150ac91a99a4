//! The JSON report: one line for each event.
use super::lines;
use super::lines::{collect_stdout, show_seconds};
use crate::internal;
use crate::internal::{RegisteredTest, TestModel};
use crate::results;
use crate::results::{Outcome, ResultModel, SuiteResult, Summary, TestResult};
use crate::text;
use crate::text::{concat, decimal_u64, join};
use vstd::prelude::*;

verus! {

/// A hexadecimal digit.
pub open spec fn hex_digit(d: nat) -> char {
    if d < 10 {
        text::digit_char(d)
    } else {
        (d - 10 + 97) as char
    }
}

/// A character as it stands in a JSON string: quotation marks, backslashes and control characters
/// are escaped.
pub open spec fn escaped_char(c: char) -> Seq<char> {
    if c == '"' {
        "\\\""@
    } else if c == '\\' {
        "\\\\"@
    } else if c == '\n' {
        "\\n"@
    } else if c == '\r' {
        "\\r"@
    } else if c == '\t' {
        "\\t"@
    } else if c as u32 == 8 {
        "\\b"@
    } else if c as u32 == 12 {
        "\\f"@
    } else if (c as u32) < 32 {
        "\\u00"@.push(hex_digit((c as nat) / 16)).push(hex_digit((c as nat) % 16))
    } else {
        seq![c]
    }
}

/// A text as it stands in a JSON string.
pub open spec fn escaped(s: Seq<char>) -> Seq<char>
    decreases s.len(),
{
    if s.len() == 0 {
        Seq::empty()
    } else {
        escaped(s.drop_last()) + escaped_char(s.last())
    }
}

/// The JSON string of a text.
pub open spec fn string(s: Seq<char>) -> Seq<char> {
    "\""@ + escaped(s) + "\""@
}

/// `escape8259::escape`: every character as it stands in a JSON string.
#[verifier::external_body]
pub(crate) fn escape(s: &str) -> (r: String)
    ensures
        r@ == escaped(s@),
{
    escape8259::escape(s)
}

fn show_string(s: &str) -> (r: String)
    ensures
        r@ == string(s@),
{
    let mut out = "\"".to_owned();
    out.append(escape(s).as_str());
    out.append("\"");
    out
}

/// The line for the start of a run.
pub open spec fn suite_started(count: nat) -> Seq<char> {
    "{ \"type\": \"suite\", \"event\": \"started\", \"test_count\": "@ + text::decimal(count)
        + " }\n"@
}

/// The line for the start of a test.
pub open spec fn test_started(name: Seq<char>) -> Seq<char> {
    "{ \"type\": \"test\", \"event\": \"started\", \"name\": "@ + string(name) + " }\n"@
}

/// The word for an outcome.
pub open spec fn event_word(outcome: Outcome) -> Seq<char> {
    match outcome {
        Outcome::Passed { .. } => "ok"@,
        Outcome::Failed { .. } => "failed"@,
        _ => "ignored"@,
    }
}

/// What is shown of the standard output stream of a test: of one that failed everything, followed
/// by the failure; of others everything or nothing.
pub open spec fn extra(show_output: bool, result: ResultModel) -> Seq<char> {
    let captured = lines::stdout_lines(result.captured);
    match result.outcome {
        Outcome::Failed { cause, .. } => ", \"stdout\": "@ + string(
            text::joined(captured.push("Error: "@ + cause.rendered()), "\n"@),
        ),
        _ => if show_output {
            ", \"stdout\": "@ + string(text::joined(captured, "\n"@))
        } else {
            Seq::empty()
        },
    }
}

/// The line for the end of a test.
pub open spec fn test_finished(show_output: bool, name: Seq<char>, result: ResultModel) -> Seq<
    char,
> {
    "{ \"type\": \"test\", \"event\": \""@ + event_word(result.outcome) + "\", \"name\": "@
        + string(name) + extra(show_output, result) + " }\n"@
}

/// What is shown of the throughput of a benchmark.
pub open spec fn throughput(mb_s: nat) -> Seq<char> {
    if mb_s == 0 {
        Seq::empty()
    } else {
        ", \"mib_per_second\": "@ + text::decimal(mb_s)
    }
}

/// The line for the end of a benchmark.
pub open spec fn bench_finished(name: Seq<char>, summary: Summary, mb_s: nat) -> Seq<char> {
    "{ \"type\": \"bench\", \"name\": "@ + string(name) + ", \"median\": "@
        + summary.median_text@ + ", \"deviation\": "@ + summary.deviation_text@ + throughput(mb_s)
        + " }\n"@
}

/// The line for the end of a test or benchmark.
pub open spec fn finished(show_output: bool, name: Seq<char>, result: ResultModel) -> Seq<char> {
    match result.outcome {
        Outcome::Benchmarked { ns_iter_summ, mb_s, .. } => bench_finished(
            name,
            ns_iter_summ,
            mb_s as nat,
        ),
        _ => test_finished(show_output, name, result),
    }
}

/// The first half of the line for the end of a run.
pub open spec fn suite_counts(totals: results::Totals) -> Seq<char> {
    "{ \"type\": \"suite\", \"event\": \""@ + (if totals.failed == 0 {
        "ok"@
    } else {
        "failed"@
    }) + "\", \"passed\": \""@ + text::decimal(totals.passed) + "\", \"failed\": "@
        + text::decimal(totals.failed) + ", \"ignored\": "@ + text::decimal(totals.ignored)
}

/// The line for the end of a run.
pub open spec fn suite_finished(totals: results::Totals, filtered_out: nat, exec_time: u64) -> Seq<
    char,
> {
    suite_counts(totals) + ", \"measured\": "@ + text::decimal(totals.measured)
        + ", \"filtered_out\": "@ + text::decimal(filtered_out) + ", \"exec_time\": "@
        + lines::seconds_shown(exec_time) + " }\n"@
}

/// The entries of a list of tests: a line for each, with commas between them.
pub open spec fn list_entries(tests: Seq<TestModel>) -> Seq<char>
    decreases tests.len(),
{
    if tests.len() == 0 {
        Seq::empty()
    } else if tests.len() == 1 {
        string(tests[0].fully_qualified_name())
    } else {
        list_entries(tests.drop_last()) + ",\n"@ + string(tests.last().fully_qualified_name())
    }
}

/// A list of tests.
pub open spec fn test_array(tests: Seq<TestModel>) -> Seq<char> {
    "[\n"@ + list_entries(tests) + "\n]\n"@
}

fn show_throughput(mb_s: usize) -> (r: String)
    ensures
        r@ == throughput(mb_s as nat),
{
    if mb_s == 0 {
        String::new()
    } else {
        concat(", \"mib_per_second\": ", decimal_u64(mb_s as u64).as_str())
    }
}

/// Writes the JSON report.
pub struct Json {
    /// What passing tests wrote is shown
    pub show_output: bool,
}

impl Json {
    pub fn new(show_output: bool) -> (r: Self)
        ensures
            r.show_output == show_output,
    {
        Json { show_output }
    }

    pub fn start_suite(&self, tests: &Vec<RegisteredTest>) -> (r: String)
        ensures
            r@ == suite_started(tests@.len()),
    {
        let mut out = "{ \"type\": \"suite\", \"event\": \"started\", \"test_count\": ".to_owned();
        out.append(decimal_u64(tests.len() as u64).as_str());
        out.append(" }\n");
        out
    }

    pub fn start_running_test(&self, test: &RegisteredTest) -> (r: String)
        ensures
            r@ == test_started(test@.fully_qualified_name()),
    {
        let mut out = "{ \"type\": \"test\", \"event\": \"started\", \"name\": ".to_owned();
        out.append(show_string(test.fully_qualified_name().as_str()).as_str());
        out.append(" }\n");
        out
    }

    fn show_extra(&self, result: &TestResult) -> (r: String)
        ensures
            r@ == extra(self.show_output, result@),
    {
        let mut stdout = collect_stdout(result.captured_output());
        match result.failure_message() {
            Some(message) => {
                let ghost before = stdout@;
                let line = concat("Error: ", message.as_str());
                let ghost shown = line@;
                stdout.push(line);
                assert(text::views(stdout@) =~= text::views(before).push(shown));
                concat(", \"stdout\": ", show_string(join(&stdout, "\n").as_str()).as_str())
            },
            None => {
                if self.show_output {
                    concat(", \"stdout\": ", show_string(join(&stdout, "\n").as_str()).as_str())
                } else {
                    String::new()
                }
            },
        }
    }

    pub fn finished_running_test(&self, test: &RegisteredTest, result: &TestResult) -> (r: String)
        ensures
            r@ == finished(self.show_output, test@.fully_qualified_name(), result@),
    {
        let name = show_string(test.fully_qualified_name().as_str());
        if let TestResult::Benchmarked { ns_iter_summ, mb_s, .. } = result {
            let mut out = "{ \"type\": \"bench\", \"name\": ".to_owned();
            out.append(name.as_str());
            out.append(", \"median\": ");
            out.append(ns_iter_summ.median_text.as_str());
            out.append(", \"deviation\": ");
            out.append(ns_iter_summ.deviation_text.as_str());
            out.append(show_throughput(*mb_s).as_str());
            out.append(" }\n");
            return out;
        }
        let event = match result {
            TestResult::Passed { .. } => "ok",
            TestResult::Failed { .. } => "failed",
            _ => "ignored",
        };
        let mut out = "{ \"type\": \"test\", \"event\": \"".to_owned();
        out.append(event);
        out.append("\", \"name\": ");
        out.append(name.as_str());
        out.append(self.show_extra(result).as_str());
        out.append(" }\n");
        out
    }

    pub fn finished_suite(
        &self,
        registered_tests: &Vec<RegisteredTest>,
        results: &Vec<(RegisteredTest, TestResult)>,
        exec_time: u64,
    ) -> (r: String)
        requires
            results.len() <= registered_tests.len(),
        ensures
            r@ == suite_finished(
                results::totals(results::outcomes(results@)),
                (registered_tests.len() - results.len()) as nat,
                exec_time,
            ),
    {
        let result = SuiteResult::from_test_results(registered_tests, results, exec_time);
        let ghost totals = results::totals(results::outcomes(results@));
        let mut out = "{ \"type\": \"suite\", \"event\": \"".to_owned();
        if result.failed == 0 {
            out.append("ok");
        } else {
            out.append("failed");
        }
        out.append("\", \"passed\": \"");
        out.append(decimal_u64(result.passed as u64).as_str());
        out.append("\", \"failed\": ");
        out.append(decimal_u64(result.failed as u64).as_str());
        out.append(", \"ignored\": ");
        out.append(decimal_u64(result.ignored as u64).as_str());
        assert(out@ == suite_counts(totals));
        out.append(", \"measured\": ");
        out.append(decimal_u64(result.measured as u64).as_str());
        out.append(", \"filtered_out\": ");
        out.append(decimal_u64(result.filtered_out as u64).as_str());
        out.append(", \"exec_time\": ");
        out.append(show_seconds(exec_time).as_str());
        out.append(" }\n");
        out
    }

    pub fn test_list(&self, tests: &Vec<RegisteredTest>) -> (r: String)
        ensures
            r@ == test_array(internal::test_views(tests@)),
    {
        let ghost all = internal::test_views(tests@);
        let mut entries = String::new();
        let mut i: usize = 0;
        assert(list_entries(all.take(0)) =~= Seq::empty());
        while i < tests.len()
            invariant
                i <= tests.len(),
                all == internal::test_views(tests@),
                entries@ == list_entries(all.take(i as int)),
            decreases tests.len() - i,
        {
            assert(all.take(i + 1).drop_last() =~= all.take(i as int));
            if i > 0 {
                entries.append(",\n");
            }
            entries.append(show_string(tests[i].fully_qualified_name().as_str()).as_str());
            i = i + 1;
            assert(entries@ =~= list_entries(all.take(i as int)));
        }
        assert(all.take(i as int) =~= all);
        let mut out = "[\n".to_owned();
        out.append(entries.as_str());
        out.append("\n]\n");
        out
    }
}

proof fn lemma_hex_digit(d: nat)
    requires
        d < 16,
    ensures
        hex_digit(d) as u32 >= 48,
        hex_digit(d) != '"',
{
    if d < 10 {
        let c = text::digit_char(d);
        assert(c as u32 == 48 + d);
    } else {
        let c = (d - 10 + 97) as char;
        assert(c as u32 == d + 87);
    }
}

proof fn lemma_escaped_char(c: char, k: int)
    requires
        0 <= k < escaped_char(c).len(),
    ensures
        escaped_char(c)[k] as u32 >= 32,
        escaped_char(c)[k] == '"' ==> k > 0 && escaped_char(c)[k - 1] == '\\',
{
    reveal_strlit("\\\"");
    reveal_strlit("\\\\");
    reveal_strlit("\\n");
    reveal_strlit("\\r");
    reveal_strlit("\\t");
    reveal_strlit("\\b");
    reveal_strlit("\\f");
    reveal_strlit("\\u00");
    if (c as u32) < 32 {
        lemma_hex_digit((c as nat) / 16);
        lemma_hex_digit((c as nat) % 16);
    }
}

/// No character of a text breaks out of the JSON string in which it stands: the escaped text
/// holds no control character, and every quotation mark in it follows a backslash.
pub proof fn escaped_text_stays_in_its_string(s: Seq<char>, i: int)
    requires
        0 <= i < escaped(s).len(),
    ensures
        escaped(s)[i] as u32 >= 32,
        escaped(s)[i] == '"' ==> i > 0 && escaped(s)[i - 1] == '\\',
    decreases s.len(),
{
    let before = escaped(s.drop_last());
    let c = s.last();
    if i < before.len() {
        escaped_text_stays_in_its_string(s.drop_last(), i);
    } else {
        let k = i - before.len();
        lemma_escaped_char(c, k);
        assert(escaped(s)[i] == escaped_char(c)[k]);
        if k > 0 {
            assert(escaped(s)[i - 1] == escaped_char(c)[k - 1]);
        }
    }
}

/// How far a JSON string reaches whose characters begin `s`: up to the first quotation mark that no
/// backslash escapes.
pub open spec fn string_end(s: Seq<char>) -> nat
    decreases s.len(),
{
    if s.len() == 0 || s[0] == '"' {
        0
    } else if s[0] == '\\' && s.len() >= 2 {
        2 + string_end(s.skip(2))
    } else {
        1 + string_end(s.skip(1))
    }
}

proof fn lemma_string_end_char(c: char, rest: Seq<char>)
    ensures
        string_end(escaped_char(c) + rest) == escaped_char(c).len() + string_end(rest),
{
    reveal_strlit("\\\"");
    reveal_strlit("\\\\");
    reveal_strlit("\\n");
    reveal_strlit("\\r");
    reveal_strlit("\\t");
    reveal_strlit("\\b");
    reveal_strlit("\\f");
    reveal_strlit("\\u00");
    reveal_with_fuel(string_end, 6);
    let shown = escaped_char(c);
    let s = shown + rest;
    if shown.len() == 1 {
        assert(s.skip(1) =~= rest);
    } else if shown.len() == 2 {
        assert(s.skip(2) =~= rest);
    } else {
        lemma_hex_digit((c as nat) / 16);
        lemma_hex_digit((c as nat) % 16);
        assert(s.skip(2).skip(1) =~= s.skip(3));
        assert(s.skip(3).skip(1) =~= s.skip(4));
        assert(s.skip(4).skip(1) =~= s.skip(5));
        assert(s.skip(5).skip(1) =~= rest);
    }
}

proof fn lemma_string_end(s: Seq<char>, rest: Seq<char>)
    ensures
        string_end(escaped(s) + rest) == escaped(s).len() + string_end(rest),
    decreases s.len(),
{
    if s.len() == 0 {
        assert(escaped(s) + rest =~= rest);
    } else {
        let tail = escaped_char(s.last()) + rest;
        lemma_string_end_char(s.last(), rest);
        lemma_string_end(s.drop_last(), tail);
        assert(escaped(s) + rest =~= escaped(s.drop_last()) + tail);
    }
}

/// The JSON string of a text ends with its closing quotation mark, whatever follows it in the
/// document, and not before.
pub proof fn string_ends_with_its_quotation_mark(s: Seq<char>, rest: Seq<char>)
    ensures
        string_end((string(s) + rest).skip(1)) == string(s).len() - 2,
        string(s).first() == '"' && string(s).last() == '"',
{
    reveal_strlit("\"");
    lemma_string_end(s, seq!['"'] + rest);
    assert((string(s) + rest).skip(1) =~= escaped(s) + (seq!['"'] + rest));
    assert(string_end(seq!['"'] + rest) == 0);
}

} // verus!
