//! Outcomes of tests: what failed and why, what was captured, and the totals of a run.
//!
//! Run times are in nanoseconds, timestamps in nanoseconds since the Unix epoch.
use crate::internal::{RegisteredTest, ShouldPanic};
use crate::text;
use crate::text::{concat, contains_str, decimal_u64, str_eq};
use vstd::prelude::*;

verus! {

/// Where a panic happened.
#[derive(Debug)]
pub struct PanicLocation {
    pub file: String,
    pub line: u32,
    pub column: u32,
}

impl Clone for PanicLocation {
    fn clone(&self) -> (r: Self)
        ensures
            r == *self,
    {
        PanicLocation { file: self.file.clone(), line: self.line, column: self.column }
    }
}

/// A panic: its message, where it happened, and the rendered backtrace.
#[derive(Debug)]
pub struct PanicCause {
    pub message: Option<String>,
    pub location: Option<PanicLocation>,
    pub backtrace: Option<String>,
}

/// Why a test failed.
#[derive(Debug)]
pub enum FailureCause {
    /// The test returned an error, of which both renderings are kept
    ReturnedError { display: String, debug: String, prefer_debug: bool },
    /// The test returned an error that is a plain string
    ReturnedMessage(String),
    /// The test panicked
    Panic(PanicCause),
    /// The test harness itself reports the failure
    HarnessError(String),
}

/// What kind of value a test returned as its error.
#[derive(Debug, Clone, Copy, PartialEq, Eq, Structural)]
pub enum ErrorKind {
    /// A plain string
    Message,
    /// An error whose debug rendering holds the whole chain of causes
    Chain,
    /// Any other error
    Other,
}

impl Clone for PanicCause {
    fn clone(&self) -> (r: Self)
        ensures
            r == *self,
    {
        PanicCause {
            message: self.message.clone(),
            location: match &self.location {
                Some(location) => Some(location.clone()),
                None => None,
            },
            backtrace: self.backtrace.clone(),
        }
    }
}

impl Clone for FailureCause {
    fn clone(&self) -> (r: Self)
        ensures
            r == *self,
    {
        match self {
            FailureCause::ReturnedError { display, debug, prefer_debug } => {
                FailureCause::ReturnedError {
                    display: display.clone(),
                    debug: debug.clone(),
                    prefer_debug: *prefer_debug,
                }
            },
            FailureCause::ReturnedMessage(s) => FailureCause::ReturnedMessage(s.clone()),
            FailureCause::Panic(p) => FailureCause::Panic(p.clone()),
            FailureCause::HarnessError(s) => FailureCause::HarnessError(s.clone()),
        }
    }
}

impl PanicCause {
    /// The rendering of a location, on a line of its own.
    pub open spec fn rendered_location(location: Option<PanicLocation>) -> Seq<char> {
        match location {
            Some(l) => "\n  at "@ + l.file@ + ":"@ + text::decimal(l.line as nat) + ":"@
                + text::decimal(l.column as nat),
            None => Seq::empty(),
        }
    }

    /// The rendering of a backtrace, if there is one to show.
    pub open spec fn rendered_backtrace(backtrace: Option<String>) -> Seq<char> {
        match backtrace {
            Some(b) => if b@.len() > 0 && b@ != "disabled backtrace"@ {
                "\n\nStack backtrace:\n"@ + b@
            } else {
                Seq::empty()
            },
            None => Seq::empty(),
        }
    }

    /// The message, then the location, then the backtrace.
    pub open spec fn rendered(self) -> Seq<char> {
        (match self.message {
            Some(message) => message@,
            None => Seq::empty(),
        }) + Self::rendered_location(self.location) + Self::rendered_backtrace(self.backtrace)
    }

    pub fn render(&self) -> (r: String)
        ensures
            r@ == self.rendered(),
    {
        let mut out = match &self.message {
            Some(message) => message.clone(),
            None => String::new(),
        };
        let ghost message = out@;
        if let Some(location) = &self.location {
            out.append("\n  at ");
            out.append(location.file.as_str());
            out.append(":");
            out.append(decimal_u64(location.line as u64).as_str());
            out.append(":");
            out.append(decimal_u64(location.column as u64).as_str());
        }
        assert(out@ =~= message + Self::rendered_location(self.location));
        let ghost so_far = out@;
        if let Some(backtrace) = &self.backtrace {
            if !backtrace.as_str().is_empty() && !str_eq(backtrace.as_str(), "disabled backtrace") {
                out.append("\n\nStack backtrace:\n");
                out.append(backtrace.as_str());
            }
        }
        assert(out@ =~= so_far + Self::rendered_backtrace(self.backtrace));
        out
    }
}

impl FailureCause {
    /// The cause of a test that returned an error with these renderings. A string stands for
    /// itself; an error that carries a chain of causes is shown by its debug rendering.
    pub fn from_error(display: String, debug: String, kind: ErrorKind) -> (r: Self)
        ensures
            r == (match kind {
                ErrorKind::Message => FailureCause::ReturnedMessage(display),
                ErrorKind::Chain => FailureCause::ReturnedError {
                    display,
                    debug,
                    prefer_debug: true,
                },
                ErrorKind::Other => FailureCause::ReturnedError {
                    display,
                    debug,
                    prefer_debug: false,
                },
            }),
    {
        match kind {
            ErrorKind::Message => FailureCause::ReturnedMessage(display),
            ErrorKind::Chain => FailureCause::ReturnedError { display, debug, prefer_debug: true },
            ErrorKind::Other => FailureCause::ReturnedError { display, debug, prefer_debug: false },
        }
    }

    /// What is shown of the cause.
    pub open spec fn rendered(self) -> Seq<char> {
        match self {
            FailureCause::ReturnedError { display, debug, prefer_debug } => if prefer_debug {
                debug@
            } else {
                display@
            },
            FailureCause::ReturnedMessage(s) => s@,
            FailureCause::Panic(p) => p.rendered(),
            FailureCause::HarnessError(s) => s@,
        }
    }

    pub fn render(&self) -> (r: String)
        ensures
            r@ == self.rendered(),
    {
        match self {
            FailureCause::ReturnedError { display, debug, prefer_debug } => {
                if *prefer_debug {
                    debug.clone()
                } else {
                    display.clone()
                }
            },
            FailureCause::ReturnedMessage(s) => s.clone(),
            FailureCause::Panic(p) => p.render(),
            FailureCause::HarnessError(s) => s.clone(),
        }
    }

    /// The message of the panic, if the cause is one that has a message.
    pub fn panic_message(&self) -> (r: Option<&str>)
        ensures
            match r {
                Some(message) => self matches FailureCause::Panic(p) && p.message matches Some(m)
                    && m@ == message@,
                None => !(self matches FailureCause::Panic(p) && p.message is Some),
            },
    {
        match self {
            FailureCause::Panic(p) => match &p.message {
                Some(message) => Some(message.as_str()),
                None => None,
            },
            _ => None,
        }
    }
}

/// A value that a test may return.
pub trait TestReturnValue: Sized {
    /// The failure that the value stands for.
    spec fn failure(self) -> Option<FailureCause>;

    fn into_result(self) -> (r: Result<(), FailureCause>)
        ensures
            r == (match self.failure() {
                Some(cause) => Err::<(), FailureCause>(cause),
                None => Ok(()),
            }),
    ;
}

impl TestReturnValue for () {
    open spec fn failure(self) -> Option<FailureCause> {
        None
    }

    fn into_result(self) -> (r: Result<(), FailureCause>) {
        Ok(())
    }
}

impl<T> TestReturnValue for Result<T, FailureCause> {
    open spec fn failure(self) -> Option<FailureCause> {
        match self {
            Ok(_) => None,
            Err(cause) => Some(cause),
        }
    }

    fn into_result(self) -> (r: Result<(), FailureCause>) {
        match self {
            Ok(_) => Ok(()),
            Err(cause) => Err(cause),
        }
    }
}

/// One captured line of output.
#[derive(Debug, PartialEq, Eq)]
pub enum CapturedOutput {
    Stdout { timestamp: u64, line: String },
    Stderr { timestamp: u64, line: String },
    /// Written by the parent process while the test was running. Where tests run in parallel one
    /// line may be attributed to several of them.
    Host { timestamp: u64, line: String },
}

impl Clone for CapturedOutput {
    fn clone(&self) -> (r: Self)
        ensures
            r == *self,
    {
        match self {
            CapturedOutput::Stdout { timestamp, line } => {
                CapturedOutput::Stdout { timestamp: *timestamp, line: line.clone() }
            },
            CapturedOutput::Stderr { timestamp, line } => {
                CapturedOutput::Stderr { timestamp: *timestamp, line: line.clone() }
            },
            CapturedOutput::Host { timestamp, line } => {
                CapturedOutput::Host { timestamp: *timestamp, line: line.clone() }
            },
        }
    }
}

impl CapturedOutput {
    pub open spec fn spec_timestamp(self) -> u64 {
        match self {
            CapturedOutput::Stdout { timestamp, .. } => timestamp,
            CapturedOutput::Stderr { timestamp, .. } => timestamp,
            CapturedOutput::Host { timestamp, .. } => timestamp,
        }
    }

    pub open spec fn spec_line(self) -> Seq<char> {
        match self {
            CapturedOutput::Stdout { line, .. } => line@,
            CapturedOutput::Stderr { line, .. } => line@,
            CapturedOutput::Host { line, .. } => line@,
        }
    }

    pub fn stdout(timestamp: u64, line: String) -> (r: Self)
        ensures
            r == (CapturedOutput::Stdout { timestamp, line }),
    {
        CapturedOutput::Stdout { timestamp, line }
    }

    pub fn stderr(timestamp: u64, line: String) -> (r: Self)
        ensures
            r == (CapturedOutput::Stderr { timestamp, line }),
    {
        CapturedOutput::Stderr { timestamp, line }
    }

    pub fn host(timestamp: u64, line: String) -> (r: Self)
        ensures
            r == (CapturedOutput::Host { timestamp, line }),
    {
        CapturedOutput::Host { timestamp, line }
    }

    pub fn timestamp(&self) -> (r: u64)
        ensures
            r == self.spec_timestamp(),
    {
        match self {
            CapturedOutput::Stdout { timestamp, .. } => *timestamp,
            CapturedOutput::Stderr { timestamp, .. } => *timestamp,
            CapturedOutput::Host { timestamp, .. } => *timestamp,
        }
    }

    pub fn line(&self) -> (r: &str)
        ensures
            r@ == self.spec_line(),
    {
        match self {
            CapturedOutput::Stdout { line, .. } => line.as_str(),
            CapturedOutput::Stderr { line, .. } => line.as_str(),
            CapturedOutput::Host { line, .. } => line.as_str(),
        }
    }
}

/// A copy of the captured lines.
pub fn copy_captured(captured: &Vec<CapturedOutput>) -> (r: Vec<CapturedOutput>)
    ensures
        r@ == captured@,
{
    let mut r: Vec<CapturedOutput> = Vec::new();
    let mut i: usize = 0;
    while i < captured.len()
        invariant
            i <= captured.len(),
            r@ == captured@.take(i as int),
        decreases captured.len() - i,
    {
        r.push(captured[i].clone());
        i = i + 1;
    }
    assert(captured@.take(i as int) =~= captured@);
    r
}

/// The lines are in the order of their timestamps.
pub open spec fn in_time_order(captured: Seq<CapturedOutput>) -> bool {
    forall|i: int, j: int|
        0 <= i < j < captured.len() ==> (#[trigger] captured[i]).spec_timestamp() <= (
        #[trigger] captured[j]).spec_timestamp()
}

/// The lines of one timestamp, in order.
pub open spec fn at_time(captured: Seq<CapturedOutput>, timestamp: u64) -> Seq<CapturedOutput> {
    captured.filter(|c: CapturedOutput| c.spec_timestamp() == timestamp)
}

/// `sorted` holds the lines of `captured` in the order of their timestamps; lines of one
/// timestamp keep their order.
pub open spec fn sorted_by_time(captured: Seq<CapturedOutput>, sorted: Seq<CapturedOutput>) -> bool {
    &&& in_time_order(sorted)
    &&& sorted.len() == captured.len()
    &&& forall|t: u64| #[trigger] at_time(sorted, t) == at_time(captured, t)
}

/// Where a line of this timestamp is put among sorted ones: behind all that are not later.
pub open spec fn place_for(sorted: Seq<CapturedOutput>, timestamp: u64) -> int
    decreases sorted.len(),
{
    if sorted.len() == 0 {
        0
    } else if sorted.last().spec_timestamp() <= timestamp {
        sorted.len() as int
    } else {
        place_for(sorted.drop_last(), timestamp)
    }
}

/// The lines in the order of their timestamps, those of one timestamp in the given order.
pub open spec fn time_sorted(captured: Seq<CapturedOutput>) -> Seq<CapturedOutput>
    decreases captured.len(),
{
    if captured.len() == 0 {
        Seq::empty()
    } else {
        let sorted = time_sorted(captured.drop_last());
        sorted.insert(place_for(sorted, captured.last().spec_timestamp()), captured.last())
    }
}

proof fn lemma_place_for(sorted: Seq<CapturedOutput>, timestamp: u64)
    requires
        in_time_order(sorted),
    ensures
        0 <= place_for(sorted, timestamp) <= sorted.len(),
        forall|i: int|
            0 <= i < place_for(sorted, timestamp) ==> (#[trigger] sorted[i]).spec_timestamp()
                <= timestamp,
        forall|i: int|
            place_for(sorted, timestamp) <= i < sorted.len() ==> (
            #[trigger] sorted[i]).spec_timestamp() > timestamp,
    decreases sorted.len(),
{
    if sorted.len() > 0 && sorted.last().spec_timestamp() > timestamp {
        let init = sorted.drop_last();
        assert forall|i: int, j: int| 0 <= i < j < init.len() implies (
        #[trigger] init[i]).spec_timestamp() <= (#[trigger] init[j]).spec_timestamp() by {
            assert(init[i] == sorted[i] && init[j] == sorted[j]);
        }
        lemma_place_for(init, timestamp);
        assert forall|i: int| 0 <= i < place_for(sorted, timestamp) implies (
        #[trigger] sorted[i]).spec_timestamp() <= timestamp by {
            assert(sorted[i] == init[i]);
        }
        assert forall|i: int| place_for(sorted, timestamp) <= i < sorted.len() implies (
        #[trigger] sorted[i]).spec_timestamp() > timestamp by {
            if i < init.len() {
                assert(sorted[i] == init[i]);
            }
        }
    }
}

/// The sorted lines are in the order of their timestamps, none is lost or added, and lines of one
/// timestamp keep their order.
pub proof fn sorting_is_stable(captured: Seq<CapturedOutput>)
    ensures
        sorted_by_time(captured, time_sorted(captured)),
    decreases captured.len(),
{
    if captured.len() > 0 {
        let init = captured.drop_last();
        sorting_is_stable(init);
        let sorted = time_sorted(init);
        let c = captured.last();
        lemma_place_for(sorted, c.spec_timestamp());
        lemma_at_time_insert(sorted, place_for(sorted, c.spec_timestamp()), c, init);
        assert(init.push(c) =~= captured);
    } else {
        assert(captured =~= Seq::empty());
    }
}

proof fn lemma_place_for_is(sorted: Seq<CapturedOutput>, timestamp: u64, k: int)
    requires
        in_time_order(sorted),
        0 <= k <= sorted.len(),
        forall|i: int| 0 <= i < k ==> (#[trigger] sorted[i]).spec_timestamp() <= timestamp,
        forall|i: int|
            k <= i < sorted.len() ==> (#[trigger] sorted[i]).spec_timestamp() > timestamp,
    ensures
        place_for(sorted, timestamp) == k,
{
    lemma_place_for(sorted, timestamp);
    let p = place_for(sorted, timestamp);
    if p < k {
        assert(sorted[p].spec_timestamp() > timestamp);
    }
    if k < p {
        assert(sorted[k].spec_timestamp() <= timestamp);
    }
}

proof fn lemma_at_time_insert(
    sorted: Seq<CapturedOutput>,
    k: int,
    c: CapturedOutput,
    captured: Seq<CapturedOutput>,
)
    requires
        sorted_by_time(captured, sorted),
        0 <= k <= sorted.len(),
        forall|i: int| 0 <= i < k ==> (#[trigger] sorted[i]).spec_timestamp() <= c.spec_timestamp(),
        forall|i: int|
            k <= i < sorted.len() ==> (#[trigger] sorted[i]).spec_timestamp() > c.spec_timestamp(),
    ensures
        sorted_by_time(captured.push(c), sorted.insert(k, c)),
{
    let after = sorted.insert(k, c);
    let head = sorted.take(k);
    let tail = sorted.skip(k);
    assert(after =~= head.push(c) + tail);
    assert(sorted =~= head + tail);
    assert forall|t: u64| #[trigger] at_time(after, t) == at_time(captured.push(c), t) by {
        let p = |x: CapturedOutput| x.spec_timestamp() == t;
        reveal(Seq::filter);
        assert(captured.push(c).drop_last() =~= captured);
        assert(head.push(c).drop_last() =~= head);
        Seq::filter_distributes_over_add(head.push(c), tail, p);
        Seq::filter_distributes_over_add(head, tail, p);
        assert(at_time(sorted, t) == at_time(captured, t));
        if c.spec_timestamp() == t {
            assert forall|i: int| 0 <= i < tail.len() implies !p(tail[i]) by {
                assert(tail[i] == sorted[k + i]);
            }
            tail.lemma_all_neg_filter_empty(p);
            assert(tail.filter(p) =~= Seq::empty());
            assert(at_time(after, t) =~= at_time(captured.push(c), t));
        }
    }
}

/// Sorts the lines by their timestamps; lines of one timestamp keep their order.
pub fn sort_by_time(captured: &Vec<CapturedOutput>) -> (r: Vec<CapturedOutput>)
    ensures
        r@ == time_sorted(captured@),
{
    let mut r: Vec<CapturedOutput> = Vec::new();
    let mut i: usize = 0;
    assert(time_sorted(captured@.take(0)) =~= r@);
    while i < captured.len()
        invariant
            i <= captured.len(),
            r@ == time_sorted(captured@.take(i as int)),
        decreases captured.len() - i,
    {
        let t = captured[i].timestamp();
        proof {
            sorting_is_stable(captured@.take(i as int));
        }
        let mut k: usize = r.len();
        while k > 0 && r[k - 1].timestamp() > t
            invariant
                k <= r.len(),
                in_time_order(r@),
                forall|j: int|
                    k <= j < r@.len() ==> (#[trigger] r@[j]).spec_timestamp() > t,
            decreases k,
        {
            k = k - 1;
        }
        proof {
            assert forall|j: int| 0 <= j < k implies (#[trigger] r@[j]).spec_timestamp() <= t by {
                if j < k - 1 {
                    assert(r@[j].spec_timestamp() <= r@[k - 1].spec_timestamp());
                }
            }
            lemma_place_for_is(r@, t, k as int);
            assert(captured@.take(i + 1).drop_last() =~= captured@.take(i as int));
        }
        r.insert(k, captured[i].clone());
        i = i + 1;
    }
    assert(captured@.take(i as int) =~= captured@);
    r
}

/// Sorting loses no line.
pub proof fn sorting_keeps_lines(captured: Seq<CapturedOutput>, c: CapturedOutput)
    requires
        captured.contains(c),
    ensures
        time_sorted(captured).contains(c),
{
    sorting_is_stable(captured);
    let t = c.spec_timestamp();
    let p = |x: CapturedOutput| x.spec_timestamp() == t;
    let i = captured.index_of(c);
    captured.lemma_filter_contains(p, i);
    assert(at_time(captured, t).contains(c));
    assert(at_time(time_sorted(captured), t) == at_time(captured, t));
    time_sorted(captured).lemma_filter_contains_rev(p, c);
}

/// The summary of a benchmark: the median of the measured times in whole nanoseconds per
/// iteration, and the renderings of the median and of the spread.
#[derive(Debug)]
pub struct Summary {
    pub median: u64,
    /// The median as a plain number
    pub median_text: String,
    /// The difference between the longest and the shortest time as a plain number
    pub deviation_text: String,
    /// The median with thousands separators
    pub median_grouped: String,
    /// The difference with thousands separators
    pub deviation_grouped: String,
}

impl Clone for Summary {
    fn clone(&self) -> (r: Self)
        ensures
            r == *self,
    {
        Summary {
            median: self.median,
            median_text: self.median_text.clone(),
            deviation_text: self.deviation_text.clone(),
            median_grouped: self.median_grouped.clone(),
            deviation_grouped: self.deviation_grouped.clone(),
        }
    }
}

/// The outcome of a test.
#[derive(Debug)]
pub enum TestResult {
    Passed { captured: Vec<CapturedOutput>, exec_time: u64 },
    Benchmarked {
        captured: Vec<CapturedOutput>,
        exec_time: u64,
        ns_iter_summ: Summary,
        mb_s: usize,
    },
    Failed { cause: FailureCause, captured: Vec<CapturedOutput>, exec_time: u64 },
    Ignored { captured: Vec<CapturedOutput> },
}

/// An outcome without what was captured.
pub enum Outcome {
    Passed { exec_time: u64 },
    Benchmarked { exec_time: u64, ns_iter_summ: Summary, mb_s: usize },
    Failed { cause: FailureCause, exec_time: u64 },
    Ignored,
}

/// What a [`TestResult`] stands for.
#[verifier::ext_equal]
pub struct ResultModel {
    pub outcome: Outcome,
    pub captured: Seq<CapturedOutput>,
}

impl View for TestResult {
    type V = ResultModel;

    open spec fn view(&self) -> ResultModel {
        match *self {
            TestResult::Passed { captured, exec_time } => ResultModel {
                outcome: Outcome::Passed { exec_time },
                captured: captured@,
            },
            TestResult::Benchmarked { captured, exec_time, ns_iter_summ, mb_s } => ResultModel {
                outcome: Outcome::Benchmarked { exec_time, ns_iter_summ, mb_s },
                captured: captured@,
            },
            TestResult::Failed { cause, captured, exec_time } => ResultModel {
                outcome: Outcome::Failed { cause, exec_time },
                captured: captured@,
            },
            TestResult::Ignored { captured } => ResultModel {
                outcome: Outcome::Ignored,
                captured: captured@,
            },
        }
    }
}

impl Outcome {
    /// The outcome with nothing captured.
    pub open spec fn silent(self) -> ResultModel {
        ResultModel { outcome: self, captured: Seq::empty() }
    }
}

/// What is known of a panic that ended a test: what the panic hook captured, and the message that
/// the payload holds.
#[derive(Debug)]
pub struct PanicReport {
    pub captured: Option<PanicCause>,
    pub payload: Option<String>,
}

impl PanicReport {
    /// What the hook captured, or the message of the payload alone.
    pub open spec fn spec_cause(self) -> PanicCause {
        match self.captured {
            Some(cause) => cause,
            None => PanicCause { message: self.payload, location: None, backtrace: None },
        }
    }

    pub fn into_cause(self) -> (r: PanicCause)
        ensures
            r == self.spec_cause(),
    {
        match self.captured {
            Some(cause) => cause,
            None => PanicCause { message: self.payload, location: None, backtrace: None },
        }
    }
}

impl Clone for TestResult {
    fn clone(&self) -> (r: Self)
        ensures
            r@ == self@,
    {
        match self {
            TestResult::Passed { captured, exec_time } => TestResult::Passed {
                captured: copy_captured(captured),
                exec_time: *exec_time,
            },
            TestResult::Benchmarked { captured, exec_time, ns_iter_summ, mb_s } => {
                TestResult::Benchmarked {
                    captured: copy_captured(captured),
                    exec_time: *exec_time,
                    ns_iter_summ: ns_iter_summ.clone(),
                    mb_s: *mb_s,
                }
            },
            TestResult::Failed { cause, captured, exec_time } => TestResult::Failed {
                cause: cause.clone(),
                captured: copy_captured(captured),
                exec_time: *exec_time,
            },
            TestResult::Ignored { captured } => TestResult::Ignored {
                captured: copy_captured(captured),
            },
        }
    }
}

/// A test that panics with a message of which `expected` is no part fails with this message.
pub open spec fn unexpected_message(message: Option<String>) -> Seq<char> {
    "Test panicked with unexpected message: "@ + (match message {
        Some(message) => message@,
        None => Seq::empty(),
    })
}

/// `outcome` is the outcome of a test that panicked with this cause.
pub open spec fn is_panic_outcome(
    should_panic: ShouldPanic,
    elapsed: u64,
    cause: PanicCause,
    outcome: Outcome,
) -> bool {
    match should_panic {
        ShouldPanic::Yes => outcome == (Outcome::Passed { exec_time: elapsed }),
        ShouldPanic::No => outcome == (Outcome::Failed {
            cause: FailureCause::Panic(cause),
            exec_time: elapsed,
        }),
        ShouldPanic::WithMessage(expected) => if cause.message is Some && text::has_substring(
            cause.message->0@,
            expected@,
        ) {
            outcome == (Outcome::Passed { exec_time: elapsed })
        } else {
            &&& outcome matches Outcome::Failed { cause: FailureCause::Panic(shown), exec_time }
            &&& exec_time == elapsed
            &&& shown.message matches Some(message)
            &&& message@ == unexpected_message(cause.message)
            &&& shown.location is None
            &&& shown.backtrace is None
        },
    }
}

/// `outcome` is the outcome of a test that returned or panicked so.
pub open spec fn is_result_of(
    should_panic: ShouldPanic,
    elapsed: u64,
    result: Result<Result<(), FailureCause>, PanicReport>,
    outcome: Outcome,
) -> bool {
    match result {
        Ok(Ok(_)) => if should_panic is No {
            outcome == (Outcome::Passed { exec_time: elapsed })
        } else {
            &&& outcome matches Outcome::Failed {
                cause: FailureCause::HarnessError(message),
                exec_time,
            }
            &&& exec_time == elapsed
            &&& message@ == "Test did not panic as expected"@
        },
        Ok(Err(cause)) => outcome == (Outcome::Failed { cause, exec_time: elapsed }),
        Err(report) => is_panic_outcome(should_panic, elapsed, report.spec_cause(), outcome),
    }
}

/// `outcome` is the outcome of a benchmark that was measured or panicked so.
pub open spec fn is_summary_of(
    should_panic: ShouldPanic,
    elapsed: u64,
    result: Result<Summary, PanicReport>,
    bytes: u64,
    outcome: Outcome,
) -> bool {
    match result {
        Ok(summary) => outcome == (Outcome::Benchmarked {
            exec_time: elapsed,
            ns_iter_summ: summary,
            mb_s: (bytes * 1000 / (if summary.median > 0 {
                summary.median as int
            } else {
                1
            })) as usize,
        }),
        Err(report) => is_panic_outcome(should_panic, elapsed, report.spec_cause(), outcome),
    }
}

impl TestResult {
    pub fn passed(exec_time: u64) -> (r: Self)
        ensures
            r@ == (Outcome::Passed { exec_time }).silent(),
    {
        TestResult::Passed { captured: Vec::new(), exec_time }
    }

    pub fn benchmarked(exec_time: u64, ns_iter_summ: Summary, mb_s: usize) -> (r: Self)
        ensures
            r@ == (Outcome::Benchmarked { exec_time, ns_iter_summ, mb_s }).silent(),
    {
        TestResult::Benchmarked { captured: Vec::new(), exec_time, ns_iter_summ, mb_s }
    }

    pub fn failed(exec_time: u64, cause: FailureCause) -> (r: Self)
        ensures
            r@ == (Outcome::Failed { cause, exec_time }).silent(),
    {
        TestResult::Failed { cause, captured: Vec::new(), exec_time }
    }

    pub fn ignored() -> (r: Self)
        ensures
            r@ == Outcome::Ignored.silent(),
    {
        TestResult::Ignored { captured: Vec::new() }
    }

    pub fn is_passed(&self) -> (r: bool)
        ensures
            r == (self@.outcome is Passed),
    {
        matches!(self, TestResult::Passed { .. })
    }

    pub fn is_benchmarked(&self) -> (r: bool)
        ensures
            r == (self@.outcome is Benchmarked),
    {
        matches!(self, TestResult::Benchmarked { .. })
    }

    pub fn is_failed(&self) -> (r: bool)
        ensures
            r == (self@.outcome is Failed),
    {
        matches!(self, TestResult::Failed { .. })
    }

    pub fn is_ignored(&self) -> (r: bool)
        ensures
            r == (self@.outcome is Ignored),
    {
        matches!(self, TestResult::Ignored { .. })
    }

    pub fn captured_output(&self) -> (r: &Vec<CapturedOutput>)
        ensures
            r@ == self@.captured,
    {
        match self {
            TestResult::Passed { captured, .. } => captured,
            TestResult::Failed { captured, .. } => captured,
            TestResult::Ignored { captured, .. } => captured,
            TestResult::Benchmarked { captured, .. } => captured,
        }
    }

    pub fn stats(&self) -> (r: Option<&Summary>)
        ensures
            match r {
                Some(summary) => self@.outcome matches Outcome::Benchmarked { ns_iter_summ, .. }
                    && ns_iter_summ == *summary,
                None => !(self@.outcome is Benchmarked),
            },
    {
        match self {
            TestResult::Benchmarked { ns_iter_summ, .. } => Some(ns_iter_summ),
            _ => None,
        }
    }

    pub fn set_captured_output(&mut self, captured: Vec<CapturedOutput>)
        ensures
            final(self)@ == (ResultModel { captured: captured@, ..old(self)@ }),
    {
        match self {
            TestResult::Passed { captured: captured_ref, .. } => {
                *captured_ref = captured;
            },
            TestResult::Failed { captured: captured_ref, .. } => {
                *captured_ref = captured;
            },
            TestResult::Ignored { captured: captured_ref } => {
                *captured_ref = captured;
            },
            TestResult::Benchmarked { captured: captured_ref, .. } => {
                *captured_ref = captured;
            },
        }
    }

    /// The outcome of a test that returned or panicked. A test that should panic and does not
    /// fails; one that returned an error fails in any case.
    pub fn from_result(
        should_panic: &ShouldPanic,
        elapsed: u64,
        result: Result<Result<(), FailureCause>, PanicReport>,
    ) -> (r: Self)
        ensures
            r@.captured.len() == 0,
            is_result_of(*should_panic, elapsed, result, r@.outcome),
    {
        match result {
            Ok(Ok(_)) => {
                if matches!(should_panic, ShouldPanic::No) {
                    TestResult::passed(elapsed)
                } else {
                    TestResult::failed(
                        elapsed,
                        FailureCause::HarnessError("Test did not panic as expected".to_owned()),
                    )
                }
            },
            Ok(Err(cause)) => TestResult::failed(elapsed, cause),
            Err(report) => TestResult::from_panic(should_panic, elapsed, report),
        }
    }

    /// The outcome of a benchmark that was measured or panicked. `bytes` is how many bytes one
    /// iteration processes.
    pub fn from_summary(
        should_panic: &ShouldPanic,
        elapsed: u64,
        result: Result<Summary, PanicReport>,
        bytes: u64,
    ) -> (r: Self)
        requires
            bytes * 1000 <= u64::MAX,
        ensures
            r@.captured.len() == 0,
            is_summary_of(*should_panic, elapsed, result, bytes, r@.outcome),
    {
        match result {
            Ok(summary) => {
                let ns_iter: u64 = if summary.median > 0 {
                    summary.median
                } else {
                    1
                };
                let mb_s: u64 = bytes * 1000 / ns_iter;
                TestResult::benchmarked(elapsed, summary, mb_s as usize)
            },
            Err(report) => TestResult::from_panic(should_panic, elapsed, report),
        }
    }

    /// The outcome of a test that panicked: it passes if it should panic, with a message that
    /// holds the expected one where there is one.
    pub fn from_panic(should_panic: &ShouldPanic, elapsed: u64, report: PanicReport) -> (r: Self)
        ensures
            r@.captured.len() == 0,
            is_panic_outcome(*should_panic, elapsed, report.spec_cause(), r@.outcome),
    {
        let panic_cause = report.into_cause();
        match should_panic {
            ShouldPanic::WithMessage(expected) => {
                let shown = match &panic_cause.message {
                    Some(message) => {
                        if contains_str(message.as_str(), expected.as_str()) {
                            return TestResult::passed(elapsed);
                        }
                        message.clone()
                    },
                    None => String::new(),
                };
                let message = concat("Test panicked with unexpected message: ", shown.as_str());
                TestResult::failed(
                    elapsed,
                    FailureCause::Panic(
                        PanicCause { message: Some(message), location: None, backtrace: None },
                    ),
                )
            },
            ShouldPanic::Yes => TestResult::passed(elapsed),
            ShouldPanic::No => TestResult::failed(elapsed, FailureCause::Panic(panic_cause)),
        }
    }

    pub fn failure_message(&self) -> (r: Option<String>)
        ensures
            match r {
                Some(message) => self@.outcome matches Outcome::Failed { cause, .. } && message@
                    == cause.rendered(),
                None => !(self@.outcome is Failed),
            },
    {
        match self.failure_cause() {
            Some(cause) => Some(cause.render()),
            None => None,
        }
    }

    pub fn failure_cause(&self) -> (r: Option<&FailureCause>)
        ensures
            match r {
                Some(c) => self@.outcome matches Outcome::Failed { cause, .. } && cause == *c,
                None => !(self@.outcome is Failed),
            },
    {
        match self {
            TestResult::Failed { cause, .. } => Some(cause),
            _ => None,
        }
    }
}

/// The totals of a run.
#[derive(Debug)]
pub struct SuiteResult {
    pub passed: usize,
    pub failed: usize,
    pub ignored: usize,
    pub measured: usize,
    pub filtered_out: usize,
    pub exec_time: u64,
}

/// The outcomes of a run.
pub open spec fn outcomes(results: Seq<(RegisteredTest, TestResult)>) -> Seq<Outcome> {
    Seq::new(results.len(), |i: int| results[i].1@.outcome)
}

/// How many of the outcomes are of each kind.
#[verifier::ext_equal]
pub struct Totals {
    pub passed: nat,
    pub failed: nat,
    pub ignored: nat,
    pub measured: nat,
}

/// The totals of these outcomes.
pub open spec fn totals(outcomes: Seq<Outcome>) -> Totals {
    Totals {
        passed: outcomes.filter(|o: Outcome| o is Passed).len(),
        failed: outcomes.filter(|o: Outcome| o is Failed).len(),
        ignored: outcomes.filter(|o: Outcome| o is Ignored).len(),
        measured: outcomes.filter(|o: Outcome| o is Benchmarked).len(),
    }
}

/// Every result counts in exactly one of the totals.
pub proof fn totals_add_up(outcomes: Seq<Outcome>)
    ensures
        totals(outcomes).passed + totals(outcomes).failed + totals(outcomes).ignored + totals(
            outcomes,
        ).measured == outcomes.len(),
    decreases outcomes.len(),
{
    reveal(Seq::filter);
    if outcomes.len() > 0 {
        totals_add_up(outcomes.drop_last());
    }
}

impl SuiteResult {
    pub fn from_test_results(
        registered_tests: &Vec<RegisteredTest>,
        results: &Vec<(RegisteredTest, TestResult)>,
        exec_time: u64,
    ) -> (r: Self)
        requires
            results.len() <= registered_tests.len(),
        ensures
            ({
                let t = totals(outcomes(results@));
                &&& r.passed == t.passed
                &&& r.failed == t.failed
                &&& r.ignored == t.ignored
                &&& r.measured == t.measured
            }),
            r.filtered_out == registered_tests.len() - results.len(),
            r.exec_time == exec_time,
    {
        let ghost all = outcomes(results@);
        let mut passed: usize = 0;
        let mut failed: usize = 0;
        let mut ignored: usize = 0;
        let mut measured: usize = 0;
        let mut i: usize = 0;
        proof {
            reveal(Seq::filter);
            assert(all.take(0) =~= Seq::empty());
        }
        while i < results.len()
            invariant
                i <= results.len(),
                all == outcomes(results@),
                passed == totals(all.take(i as int)).passed,
                failed == totals(all.take(i as int)).failed,
                ignored == totals(all.take(i as int)).ignored,
                measured == totals(all.take(i as int)).measured,
                passed + failed + ignored + measured == i,
            decreases results.len() - i,
        {
            proof {
                reveal(Seq::filter);
                assert(all.take(i + 1).drop_last() =~= all.take(i as int));
                assert(all[i as int] == results@[i as int].1@.outcome);
            }
            match &results[i].1 {
                TestResult::Passed { .. } => {
                    passed = passed + 1;
                },
                TestResult::Benchmarked { .. } => {
                    measured = measured + 1;
                },
                TestResult::Failed { .. } => {
                    failed = failed + 1;
                },
                TestResult::Ignored { .. } => {
                    ignored = ignored + 1;
                },
            }
            i = i + 1;
        }
        assert(all.take(i as int) =~= all);
        SuiteResult {
            passed,
            failed,
            ignored,
            measured,
            filtered_out: registered_tests.len() - results.len(),
            exec_time,
        }
    }

    /// The exit code of a run: 101 if a test failed, else 0.
    pub fn exit_code(results: &Vec<(RegisteredTest, TestResult)>) -> (r: u8)
        ensures
            r == (if exists|i: int|
                0 <= i < results.len() && (#[trigger] results@[i]).1@.outcome is Failed {
                101u8
            } else {
                0
            }),
    {
        let mut i: usize = 0;
        while i < results.len()
            invariant
                i <= results.len(),
                forall|k: int| 0 <= k < i ==> !((#[trigger] results@[k]).1@.outcome is Failed),
            decreases results.len() - i,
        {
            if results[i].1.is_failed() {
                assert(results@[i as int].1@.outcome is Failed);
                return 101;
            }
            i = i + 1;
        }
        0
    }
}

} // verus!
