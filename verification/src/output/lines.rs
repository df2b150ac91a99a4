//! What was captured of a test, by stream.
use crate::results::CapturedOutput;
use crate::text;
use std::time::Duration;
use vstd::prelude::*;

verus! {

/// The lines of the standard output stream.
pub open spec fn stdout_lines(captured: Seq<CapturedOutput>) -> Seq<Seq<char>>
    decreases captured.len(),
{
    if captured.len() == 0 {
        Seq::empty()
    } else {
        let before = stdout_lines(captured.drop_last());
        match captured.last() {
            CapturedOutput::Stdout { line, .. } => before.push(line@),
            _ => before,
        }
    }
}

/// The lines of the standard error stream.
pub open spec fn stderr_lines(captured: Seq<CapturedOutput>) -> Seq<Seq<char>>
    decreases captured.len(),
{
    if captured.len() == 0 {
        Seq::empty()
    } else {
        let before = stderr_lines(captured.drop_last());
        match captured.last() {
            CapturedOutput::Stderr { line, .. } => before.push(line@),
            _ => before,
        }
    }
}

/// Collects the lines of the standard output stream.
pub fn collect_stdout(captured: &Vec<CapturedOutput>) -> (r: Vec<String>)
    ensures
        text::views(r@) == stdout_lines(captured@),
{
    let mut r: Vec<String> = Vec::new();
    let mut i: usize = 0;
    assert(text::views(r@) =~= stdout_lines(captured@.take(0)));
    while i < captured.len()
        invariant
            i <= captured.len(),
            text::views(r@) == stdout_lines(captured@.take(i as int)),
        decreases captured.len() - i,
    {
        assert(captured@.take(i + 1).drop_last() =~= captured@.take(i as int));
        let ghost before = r@;
        if let CapturedOutput::Stdout { line, .. } = &captured[i] {
            r.push(line.clone());
            assert(text::views(r@) =~= text::views(before).push(line@));
        }
        i = i + 1;
    }
    assert(captured@.take(i as int) =~= captured@);
    r
}

/// Collects the lines of the standard error stream.
pub fn collect_stderr(captured: &Vec<CapturedOutput>) -> (r: Vec<String>)
    ensures
        text::views(r@) == stderr_lines(captured@),
{
    let mut r: Vec<String> = Vec::new();
    let mut i: usize = 0;
    assert(text::views(r@) =~= stderr_lines(captured@.take(0)));
    while i < captured.len()
        invariant
            i <= captured.len(),
            text::views(r@) == stderr_lines(captured@.take(i as int)),
        decreases captured.len() - i,
    {
        assert(captured@.take(i + 1).drop_last() =~= captured@.take(i as int));
        let ghost before = r@;
        if let CapturedOutput::Stderr { line, .. } = &captured[i] {
            r.push(line.clone());
            assert(text::views(r@) =~= text::views(before).push(line@));
        }
        i = i + 1;
    }
    assert(captured@.take(i as int) =~= captured@);
    r
}

/// How a duration of this many nanoseconds is shown in seconds with three decimal places.
pub uninterp spec fn seconds_rounded(nanos: u64) -> Seq<char>;

/// `std::time::Duration::as_secs_f64`, of a duration of this many nanoseconds, with three decimal
/// places.
#[verifier::external_body]
pub(crate) fn show_seconds_rounded(nanos: u64) -> (r: String)
    ensures
        r@ == seconds_rounded(nanos),
{
    format!("{:.3}", Duration::from_nanos(nanos).as_secs_f64())
}

/// How a duration of this many nanoseconds is shown in seconds.
pub uninterp spec fn seconds_shown(nanos: u64) -> Seq<char>;

/// `std::time::Duration::as_secs_f64`, of a duration of this many nanoseconds, with as many decimal
/// places as it takes.
#[verifier::external_body]
pub(crate) fn show_seconds(nanos: u64) -> (r: String)
    ensures
        r@ == seconds_shown(nanos),
{
    format!("{}", Duration::from_nanos(nanos).as_secs_f64())
}

} // verus!
