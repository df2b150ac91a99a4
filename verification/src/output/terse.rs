//! The report for people in a hurry: one character for each test.
use super::pretty;
use super::pretty::Pretty;
use super::style;
use super::style::{style_bench, style_failed, style_ignored, style_ok, Paint};
use crate::args::TimeThreshold;
use crate::internal;
use crate::internal::RegisteredTest;
use crate::results;
use crate::results::{Outcome, TestResult};
use crate::text;
use crate::text::{byte_len, concat};
use vstd::prelude::*;

verus! {

/// A line is broken when it has more than this many characters.
pub const QUIET_MODE_MAX_COLUMN: usize = 80;

/// Writes the terse report.
pub struct Terse {
    pub pretty: Pretty,
    pub state: TerseOutputState,
}

/// Where the next character goes.
pub struct TerseOutputState {
    /// How many columns of the current line are filled
    pub column: usize,
}

/// What is written and which column is reached when a character is printed in column `column`.
pub open spec fn printed_char(column: nat, paint: Paint, c: char) -> (Seq<char>, nat) {
    let shown = paint.on() + seq![c] + style::off();
    if column + 1 > QUIET_MODE_MAX_COLUMN {
        (shown + "\n"@, 0)
    } else {
        (shown, column + 1)
    }
}

/// What is written when a line is printed on its own.
pub open spec fn printed_line(column: nat, line: Seq<char>) -> Seq<char> {
    if column > 0 {
        "\n"@ + line + "\n"@
    } else {
        line + "\n"@
    }
}

/// What is written and which column is reached when a test has finished.
pub open spec fn printed(column: nat, name: Seq<char>, outcome: Outcome) -> (Seq<char>, nat) {
    match outcome {
        Outcome::Passed { .. } => printed_char(column, style::spec_style_ok(), '.'),
        Outcome::Benchmarked { .. } => {
            let shown = style::painted(style::spec_style_bench(), "bench"@);
            (shown, column + text::width(shown))
        },
        Outcome::Failed { .. } => (
            printed_line(
                column,
                name + " --- "@ + style::painted(style::spec_style_failed(), "FAILED"@),
            ),
            0,
        ),
        Outcome::Ignored => printed_char(column, style::spec_style_ignored(), '.'),
    }
}

impl TerseOutputState {
    pub fn print_char(&mut self, paint: &Paint, c: char) -> (r: String)
        requires
            paint.wf(),
            old(self).column < usize::MAX,
        ensures
            (r@, final(self).column as nat) == printed_char(old(self).column as nat, *paint, c),
    {
        let mut out = paint.render();
        out.push(c);
        out.append(paint.render_reset().as_str());
        assert(out@ =~= paint.on() + seq![c] + style::off());
        self.column = self.column + 1;
        if self.column > QUIET_MODE_MAX_COLUMN {
            out.append("\n");
            self.column = 0;
        }
        out
    }

    pub fn print_inline(&mut self, str: &str) -> (r: String)
        requires
            old(self).column + text::width(str@) <= usize::MAX,
        ensures
            r@ == str@,
            final(self).column == old(self).column + text::width(str@),
    {
        self.column = self.column + byte_len(str);
        str.to_owned()
    }

    pub fn print_separate_line(&mut self, line: &str) -> (r: String)
        ensures
            r@ == printed_line(old(self).column as nat, line@),
            final(self).column == 0,
    {
        let out = if self.column > 0 {
            concat(concat("\n", line).as_str(), "\n")
        } else {
            concat(line, "\n")
        };
        self.column = 0;
        out
    }
}

impl Terse {
    pub fn new() -> (r: Self)
        ensures
            r.state.column == 0,
            r.pretty == (Pretty {
                show_output: false,
                report_time: false,
                unit_test_threshold: TimeThreshold { warn: 0, critical: 0 },
                integ_test_threshold: TimeThreshold { warn: 0, critical: 0 },
                index_field_length: 0,
                longest_name: 0,
            }),
    {
        let limits = TimeThreshold { warn: 0, critical: 0 };
        Terse { pretty: Pretty::new(false, false, limits, limits), state: TerseOutputState { column: 0 } }
    }

    pub fn start_suite(&mut self, tests: &Vec<RegisteredTest>) -> (r: String)
        ensures
            r@ == pretty::suite_started(tests@.len()),
            final(self).state.column == old(self).state.column,
            pretty::is_started(
                old(self).pretty,
                internal::test_views(tests@),
                final(self).pretty,
            ),
    {
        self.pretty.start_suite(tests)
    }

    pub fn finished_running_test(&mut self, test: &RegisteredTest, result: &TestResult) -> (r:
        String)
        requires
            printed(
                old(self).state.column as nat,
                test@.fully_qualified_name(),
                result@.outcome,
            ).1 <= usize::MAX,
            old(self).state.column < usize::MAX,
        ensures
            (r@, final(self).state.column as nat) == printed(
                old(self).state.column as nat,
                test@.fully_qualified_name(),
                result@.outcome,
            ),
            final(self).pretty == old(self).pretty,
    {
        match result {
            TestResult::Passed { .. } => self.state.print_char(&style_ok(), '.'),
            TestResult::Benchmarked { .. } => {
                let shown = style_bench().paint("bench");
                self.state.print_inline(shown.as_str())
            },
            TestResult::Failed { .. } => {
                let line = concat(
                    concat(test.fully_qualified_name().as_str(), " --- ").as_str(),
                    style_failed().paint("FAILED").as_str(),
                );
                self.state.print_separate_line(line.as_str())
            },
            TestResult::Ignored { .. } => self.state.print_char(&style_ignored(), '.'),
        }
    }

    pub fn finished_suite(
        &mut self,
        registered_tests: &Vec<RegisteredTest>,
        results: &Vec<(RegisteredTest, TestResult)>,
        exec_time: u64,
    ) -> (r: String)
        requires
            results.len() <= registered_tests.len(),
        ensures
            r@ == printed_line(old(self).state.column as nat, Seq::empty()) + pretty::suite_finished(
                old(self).pretty.show_output,
                pretty::entries(results@),
                results::totals(results::outcomes(results@)),
                (registered_tests.len() - results.len()) as nat,
                exec_time,
            ),
            final(self).state.column == 0,
            final(self).pretty == old(self).pretty,
    {
        let empty = String::new();
        let mut out = self.state.print_separate_line(empty.as_str());
        out.append(self.pretty.finished_suite(registered_tests, results, exec_time).as_str());
        out
    }

    pub fn test_list(&self, tests: &Vec<RegisteredTest>) -> (r: String)
        ensures
            r@ == pretty::name_lines(internal::test_views(tests@)) + "\n"@ + text::decimal(
                tests@.len(),
            ) + " tests\n"@,
    {
        self.pretty.test_list(tests)
    }
}

/// A line of single characters never grows beyond the limit.
pub proof fn characters_stay_within_the_line(column: nat, paint: Paint, c: char)
    ensures
        printed_char(column, paint, c).1 <= QUIET_MODE_MAX_COLUMN,
{
}

} // verus!
