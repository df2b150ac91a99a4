//! Command line arguments of the test runner, and the rules that are read off them.
use crate::text;
use crate::text::{
    copy_strings, decimal_u64, parse_u64, split_once,
};
use crate::execution::suite::TestSuiteExecution;
use crate::internal::DepScope;
use vstd::prelude::*;

verus! {

/// Possible values for the `--color` option.
#[derive(Debug, Clone, Copy, PartialEq, Eq, Structural)]
pub enum ColorSetting {
    /// Colorize if stdout is a tty and tests are run on serially (default)
    Auto,
    /// Always colorize output
    Always,
    /// Never colorize output
    Never,
}

impl Default for ColorSetting {
    fn default() -> (r: Self)
        ensures
            r == ColorSetting::Auto,
    {
        ColorSetting::Auto
    }
}

/// Possible values for the `-Z` option
#[derive(Debug, Clone, Copy, PartialEq, Eq, Structural)]
pub enum UnstableFlags {
    /// Allow use of experimental features
    UnstableOptions,
}

/// Possible values for the `--format` option.
#[derive(Debug, Clone, Copy, PartialEq, Eq, Structural)]
pub enum FormatSetting {
    /// Print verbose output
    Pretty,
    /// Display one character per test
    Terse,
    /// Output a json document
    Json,
    /// Output a JUnit document
    Junit,
    /// Output a CTRF document
    Ctrf,
}

impl Default for FormatSetting {
    fn default() -> (r: Self)
        ensures
            r == FormatSetting::Pretty,
    {
        FormatSetting::Pretty
    }
}

/// Command line arguments: everything the user can specify on the command line.
#[derive(Debug)]
pub struct Arguments {
    /// Run ignored and not ignored tests
    pub include_ignored: bool,
    /// Run only ignored tests
    pub ignored: bool,
    /// Excludes tests marked as should_panic
    pub exclude_should_panic: bool,
    /// Run tests and not benchmarks
    pub test: bool,
    /// Run benchmarks instead of tests
    pub bench: bool,
    /// List all tests and benchmarks
    pub list: bool,
    /// Write logs to the specified file
    pub logfile: Option<String>,
    /// Don't capture stdout/stderr of each task, allow printing directly
    pub nocapture: bool,
    /// Number of threads used for running tests in parallel
    pub test_threads: Option<usize>,
    /// Skip tests whose names contain one of these filters
    pub skip: Vec<String>,
    /// Display one character per test instead of one line
    pub quiet: bool,
    /// Exactly match filters rather than by substring
    pub exact: bool,
    /// Configure coloring of output
    pub color: Option<ColorSetting>,
    /// Configure formatting of output
    pub format: Option<FormatSetting>,
    /// Show captured stdout of successful tests
    pub show_output: bool,
    /// Enable nightly-only flags
    pub unstable_flags: Option<UnstableFlags>,
    /// Show execution time of each test
    pub report_time: bool,
    /// Treat excess of the test execution time limit as error
    pub ensure_time: bool,
    /// Run tests in random order
    pub shuffle: bool,
    /// Run tests in random order; seed the random number generator with this
    pub shuffle_seed: Option<u64>,
    /// Run the whole suite up to this many times until it succeeds
    pub flaky_run: Option<usize>,
    /// Only the tests that match one of these filters are run; none at all selects every test
    pub filter: Vec<String>,
    /// Run as a worker that is driven over the local socket of this name
    pub ipc: Option<String>,
    /// Spawn worker processes and run the tests on those
    pub spawn_workers: bool,
    /// The index that the parent gave to this worker
    pub worker_index: Option<usize>,
}

/// What an [`Arguments`] stands for.
#[verifier::ext_equal]
pub struct ArgumentsModel {
    pub include_ignored: bool,
    pub ignored: bool,
    pub exclude_should_panic: bool,
    pub test: bool,
    pub bench: bool,
    pub list: bool,
    pub logfile: Option<Seq<char>>,
    pub nocapture: bool,
    pub test_threads: Option<usize>,
    pub skip: Seq<Seq<char>>,
    pub quiet: bool,
    pub exact: bool,
    pub color: Option<ColorSetting>,
    pub format: Option<FormatSetting>,
    pub show_output: bool,
    pub unstable_flags: Option<UnstableFlags>,
    pub report_time: bool,
    pub ensure_time: bool,
    pub shuffle: bool,
    pub shuffle_seed: Option<u64>,
    pub flaky_run: Option<usize>,
    pub filter: Seq<Seq<char>>,
    pub ipc: Option<Seq<char>>,
    pub spawn_workers: bool,
    pub worker_index: Option<usize>,
}

impl View for Arguments {
    type V = ArgumentsModel;

    open spec fn view(&self) -> ArgumentsModel {
        ArgumentsModel {
            include_ignored: self.include_ignored,
            ignored: self.ignored,
            exclude_should_panic: self.exclude_should_panic,
            test: self.test,
            bench: self.bench,
            list: self.list,
            logfile: text::opt_view(self.logfile),
            nocapture: self.nocapture,
            test_threads: self.test_threads,
            skip: text::views(self.skip@),
            quiet: self.quiet,
            exact: self.exact,
            color: self.color,
            format: self.format,
            show_output: self.show_output,
            unstable_flags: self.unstable_flags,
            report_time: self.report_time,
            ensure_time: self.ensure_time,
            shuffle: self.shuffle,
            shuffle_seed: self.shuffle_seed,
            flaky_run: self.flaky_run,
            filter: text::views(self.filter@),
            ipc: text::opt_view(self.ipc),
            spawn_workers: self.spawn_workers,
            worker_index: self.worker_index,
        }
    }
}

impl ArgumentsModel {
    /// The arguments of a command line without any.
    pub open spec fn none() -> ArgumentsModel {
        ArgumentsModel {
            include_ignored: false,
            ignored: false,
            exclude_should_panic: false,
            test: false,
            bench: false,
            list: false,
            logfile: None,
            nocapture: false,
            test_threads: None,
            skip: Seq::empty(),
            quiet: false,
            exact: false,
            color: None,
            format: None,
            show_output: false,
            unstable_flags: None,
            report_time: false,
            ensure_time: false,
            shuffle: false,
            shuffle_seed: None,
            flaky_run: None,
            filter: Seq::empty(),
            ipc: None,
            spawn_workers: false,
            worker_index: None,
        }
    }
}

impl Default for Arguments {
    fn default() -> (r: Self)
        ensures
            r@ == ArgumentsModel::none(),
    {
        let r = Arguments {
            include_ignored: false,
            ignored: false,
            exclude_should_panic: false,
            test: false,
            bench: false,
            list: false,
            logfile: None,
            nocapture: false,
            test_threads: None,
            skip: Vec::new(),
            quiet: false,
            exact: false,
            color: None,
            format: None,
            show_output: false,
            unstable_flags: None,
            report_time: false,
            ensure_time: false,
            shuffle: false,
            shuffle_seed: None,
            flaky_run: None,
            filter: Vec::new(),
            ipc: None,
            spawn_workers: false,
            worker_index: None,
        };
        assert(r@ =~= ArgumentsModel::none());
        r
    }
}

impl Clone for Arguments {
    fn clone(&self) -> (r: Self)
        ensures
            r@ == self@,
    {
        Arguments {
            include_ignored: self.include_ignored,
            ignored: self.ignored,
            exclude_should_panic: self.exclude_should_panic,
            test: self.test,
            bench: self.bench,
            list: self.list,
            logfile: self.logfile.clone(),
            nocapture: self.nocapture,
            test_threads: self.test_threads,
            skip: copy_strings(&self.skip),
            quiet: self.quiet,
            exact: self.exact,
            color: self.color,
            format: self.format,
            show_output: self.show_output,
            unstable_flags: self.unstable_flags,
            report_time: self.report_time,
            ensure_time: self.ensure_time,
            shuffle: self.shuffle,
            shuffle_seed: self.shuffle_seed,
            flaky_run: self.flaky_run,
            filter: copy_strings(&self.filter),
            ipc: self.ipc.clone(),
            spawn_workers: self.spawn_workers,
            worker_index: self.worker_index,
        }
    }
}

/// The argument `flag` where it is switched on.
pub open spec fn flag_args(on: bool, flag: Seq<char>) -> Seq<Seq<char>> {
    if on {
        seq![flag]
    } else {
        Seq::empty()
    }
}

/// `flag` and its value where there is one.
pub open spec fn value_args(flag: Seq<char>, value: Option<Seq<char>>) -> Seq<Seq<char>> {
    match value {
        Some(value) => seq![flag, value],
        None => Seq::empty(),
    }
}

/// `flag` before each of the values.
pub open spec fn repeated_args(flag: Seq<char>, values: Seq<Seq<char>>) -> Seq<Seq<char>>
    decreases values.len(),
{
    if values.len() == 0 {
        Seq::empty()
    } else {
        repeated_args(flag, values.drop_last()) + seq![flag, values.last()]
    }
}

/// The decimal notation of an optional number.
pub open spec fn opt_decimal(n: Option<nat>) -> Option<Seq<char>> {
    match n {
        Some(n) => Some(text::decimal(n)),
        None => None,
    }
}

/// An optional `usize` as a number.
pub open spec fn opt_nat(n: Option<usize>) -> Option<nat> {
    match n {
        Some(n) => Some(n as nat),
        None => None,
    }
}

/// An optional seed as a number.
pub open spec fn opt_seed(n: Option<u64>) -> Option<nat> {
    match n {
        Some(n) => Some(n as nat),
        None => None,
    }
}

/// The value of the `--color` option.
pub open spec fn color_value(color: Option<ColorSetting>) -> Option<Seq<char>> {
    match color {
        Some(ColorSetting::Auto) => Some("auto"@),
        Some(ColorSetting::Always) => Some("always"@),
        Some(ColorSetting::Never) => Some("never"@),
        None => None,
    }
}

/// The value of the `--format` option.
pub open spec fn format_value(format: Option<FormatSetting>) -> Option<Seq<char>> {
    match format {
        Some(FormatSetting::Pretty) => Some("pretty"@),
        Some(FormatSetting::Terse) => Some("terse"@),
        Some(FormatSetting::Json) => Some("json"@),
        Some(FormatSetting::Junit) => Some("junit"@),
        Some(FormatSetting::Ctrf) => Some("ctrf"@),
        None => None,
    }
}

/// The value of the `-Z` option.
pub open spec fn unstable_value(flags: Option<UnstableFlags>) -> Option<Seq<char>> {
    match flags {
        Some(UnstableFlags::UnstableOptions) => Some("unstable-options"@),
        None => None,
    }
}

/// `base`, then the options on which tests are run and listed.
pub open spec fn with_selection(base: Seq<Seq<char>>, a: ArgumentsModel) -> Seq<Seq<char>> {
    base + flag_args(a.include_ignored, "--include-ignored"@)
        + flag_args(a.ignored, "--ignored"@)
        + flag_args(a.exclude_should_panic, "--exclude-should-panic"@)
        + flag_args(a.test, "--test"@)
        + flag_args(a.bench, "--bench"@)
        + flag_args(a.list, "--list"@)
}

/// `base`, then the options on where output goes and how filters are read.
pub open spec fn with_capture(base: Seq<Seq<char>>, a: ArgumentsModel) -> Seq<Seq<char>> {
    base + value_args("--logfile"@, a.logfile)
        + flag_args(a.nocapture, "--nocapture"@)
        + value_args("--test-threads"@, opt_decimal(opt_nat(a.test_threads)))
        + repeated_args("--skip"@, a.skip)
        + flag_args(a.quiet, "--quiet"@)
        + flag_args(a.exact, "--exact"@)
}

/// `base`, then the options on how results are shown.
pub open spec fn with_display(base: Seq<Seq<char>>, a: ArgumentsModel) -> Seq<Seq<char>> {
    base + value_args("--color"@, color_value(a.color))
        + value_args("--format"@, format_value(a.format))
        + flag_args(a.show_output, "--show-output"@)
        + value_args("-Z"@, unstable_value(a.unstable_flags))
        + flag_args(a.report_time, "--report-time"@)
        + flag_args(a.ensure_time, "--ensure-time"@)
}

/// `base`, then the options on order, the filters, and what concerns processes and runs.
pub open spec fn with_filters(base: Seq<Seq<char>>, a: ArgumentsModel) -> Seq<Seq<char>> {
    base + flag_args(a.shuffle, "--shuffle"@)
        + value_args("--shuffle-seed"@, opt_decimal(opt_seed(a.shuffle_seed)))
        + a.filter
        + value_args("--ipc"@, a.ipc)
        + flag_args(a.spawn_workers, "--spawn-workers"@)
        + value_args("--worker-index"@, opt_decimal(opt_nat(a.worker_index)))
        + value_args("--flaky-run"@, opt_decimal(opt_nat(a.flaky_run)))
}

/// The command line that stands for `a`.
pub open spec fn command_line(a: ArgumentsModel) -> Seq<Seq<char>> {
    with_filters(with_display(with_capture(with_selection(Seq::empty(), a), a), a), a)
}

fn push_flag(out: &mut Vec<String>, on: bool, flag: &str)
    ensures
        text::views(final(out)@) == text::views(old(out)@) + flag_args(on, flag@),
{
    let ghost before = out@;
    if on {
        out.push(flag.to_owned());
    }
    assert(text::views(out@) =~= text::views(before) + flag_args(on, flag@));
}

fn push_value(out: &mut Vec<String>, flag: &str, value: Option<String>)
    ensures
        text::views(final(out)@) == text::views(old(out)@) + value_args(
            flag@,
            text::opt_view(value),
        ),
{
    let ghost before = out@;
    if let Some(value) = value {
        out.push(flag.to_owned());
        out.push(value);
    }
    assert(text::views(out@) =~= text::views(before) + value_args(
        flag@,
        text::opt_view(value),
    ));
}

fn push_repeated(out: &mut Vec<String>, flag: &str, values: &Vec<String>)
    ensures
        text::views(final(out)@) == text::views(old(out)@) + repeated_args(
            flag@,
            text::views(values@),
        ),
{
    let ghost before = text::views(out@);
    let ghost all = text::views(values@);
    let mut i: usize = 0;
    assert(before + repeated_args(flag@, all.take(0)) =~= before);
    while i < values.len()
        invariant
            i <= values.len(),
            all == text::views(values@),
            text::views(out@) == before + repeated_args(flag@, all.take(i as int)),
        decreases values.len() - i,
    {
        let ghost so_far = text::views(out@);
        out.push(flag.to_owned());
        out.push(values[i].clone());
        assert(all.take(i + 1).drop_last() =~= all.take(i as int));
        assert(text::views(out@) =~= so_far + seq![flag@, all[i as int]]);
        assert(text::views(out@) =~= before + repeated_args(flag@, all.take(i + 1)));
        i = i + 1;
    }
    assert(all.take(i as int) =~= all);
}

fn push_all(out: &mut Vec<String>, values: &Vec<String>)
    ensures
        text::views(final(out)@) == text::views(old(out)@) + text::views(
            values@,
        ),
{
    let ghost before = out@;
    let mut copy = copy_strings(values);
    out.append(&mut copy);
    assert(text::views(out@) =~= text::views(before) + text::views(values@));
}

fn decimal_option(n: Option<usize>) -> (r: Option<String>)
    ensures
        text::opt_view(r) == opt_decimal(opt_nat(n)),
{
    match n {
        Some(n) => Some(decimal_u64(n as u64)),
        None => None,
    }
}

impl Arguments {
    fn push_selection(&self, out: &mut Vec<String>)
        ensures
            text::views(final(out)@) == with_selection(text::views(old(out)@), self@),
    {
        push_flag(out, self.include_ignored, "--include-ignored");
        push_flag(out, self.ignored, "--ignored");
        push_flag(out, self.exclude_should_panic, "--exclude-should-panic");
        push_flag(out, self.test, "--test");
        push_flag(out, self.bench, "--bench");
        push_flag(out, self.list, "--list");
    }

    fn push_capture(&self, out: &mut Vec<String>)
        ensures
            text::views(final(out)@) == with_capture(text::views(old(out)@), self@),
    {
        push_value(out, "--logfile", self.logfile.clone());
        push_flag(out, self.nocapture, "--nocapture");
        push_value(out, "--test-threads", decimal_option(self.test_threads));
        push_repeated(out, "--skip", &self.skip);
        push_flag(out, self.quiet, "--quiet");
        push_flag(out, self.exact, "--exact");
    }

    fn push_display(&self, out: &mut Vec<String>)
        ensures
            text::views(final(out)@) == with_display(text::views(old(out)@), self@),
    {
        let color = match self.color {
            Some(ColorSetting::Auto) => Some("auto".to_owned()),
            Some(ColorSetting::Always) => Some("always".to_owned()),
            Some(ColorSetting::Never) => Some("never".to_owned()),
            None => None,
        };
        push_value(out, "--color", color);
        let format = match self.format {
            Some(FormatSetting::Pretty) => Some("pretty".to_owned()),
            Some(FormatSetting::Terse) => Some("terse".to_owned()),
            Some(FormatSetting::Json) => Some("json".to_owned()),
            Some(FormatSetting::Junit) => Some("junit".to_owned()),
            Some(FormatSetting::Ctrf) => Some("ctrf".to_owned()),
            None => None,
        };
        push_value(out, "--format", format);
        push_flag(out, self.show_output, "--show-output");
        let unstable = match self.unstable_flags {
            Some(UnstableFlags::UnstableOptions) => Some("unstable-options".to_owned()),
            None => None,
        };
        push_value(out, "-Z", unstable);
        push_flag(out, self.report_time, "--report-time");
        push_flag(out, self.ensure_time, "--ensure-time");
    }

    fn push_filters(&self, out: &mut Vec<String>)
        ensures
            text::views(final(out)@) == with_filters(text::views(old(out)@), self@),
    {
        push_flag(out, self.shuffle, "--shuffle");
        let seed = match self.shuffle_seed {
            Some(n) => Some(decimal_u64(n)),
            None => None,
        };
        push_value(out, "--shuffle-seed", seed);
        push_all(out, &self.filter);
        push_value(out, "--ipc", self.ipc.clone());
        push_flag(out, self.spawn_workers, "--spawn-workers");
        push_value(out, "--worker-index", decimal_option(self.worker_index));
        push_value(out, "--flaky-run", decimal_option(self.flaky_run));
    }

    /// Renders the arguments as a list of strings that can be passed to a subprocess
    pub fn to_args(&self) -> (r: Vec<String>)
        ensures
            text::views(r@) == command_line(self@),
    {
        let mut result: Vec<String> = Vec::new();
        assert(text::views(result@) =~= Seq::<Seq<char>>::empty());
        self.push_selection(&mut result);
        self.push_capture(&mut result);
        self.push_display(&mut result);
        self.push_filters(&mut result);
        result
    }
}

/// Time limits of test execution, in nanoseconds.
#[derive(Copy, Clone, Debug, PartialEq, Eq, Structural)]
pub struct TimeThreshold {
    pub warn: u128,
    pub critical: u128,
}

impl Default for TimeThreshold {
    fn default() -> (r: Self)
        ensures
            r == (TimeThreshold { warn: 0, critical: 0 }),
    {
        TimeThreshold { warn: 0, critical: 0 }
    }
}

/// Why a variable with time limits cannot be used.
#[derive(Debug)]
pub enum ThresholdError {
    /// There are no two numbers with a comma between them
    NoComma,
    /// What stands on one side of the comma is not a number
    NotANumber(String),
    /// The warn time is above the critical time
    WarnAboveCritical,
}

/// The nanoseconds of so many milliseconds.
pub open spec fn millis(n: nat) -> nat {
    n * 1_000_000
}

impl TimeThreshold {
    /// The limits that a variable holds: two numbers of milliseconds with a comma between them,
    /// the first not above the second.
    pub open spec fn parsed(value: Seq<char>) -> Option<TimeThreshold> {
        match text::split_at_first(value, ',') {
            Some((warn, critical)) => match (text::parsed_u64(warn), text::parsed_u64(critical)) {
                (Some(warn), Some(critical)) => if warn <= critical {
                    Some(
                        TimeThreshold {
                            warn: millis(warn as nat) as u128,
                            critical: millis(critical as nat) as u128,
                        },
                    )
                } else {
                    None
                },
                _ => None,
            },
            None => None,
        }
    }

    /// Creates a new `TimeThreshold` instance with provided durations.
    pub fn new(warn: u128, critical: u128) -> (r: Self)
        ensures
            r == (TimeThreshold { warn, critical }),
    {
        TimeThreshold { warn, critical }
    }

    /// Reads the limits off the value of an environment variable, `None` where it is not set.
    pub fn from_env_var(value: Option<&str>) -> (r: Result<Option<Self>, ThresholdError>)
        ensures
            value is None ==> r == Ok::<Option<Self>, ThresholdError>(None),
            value matches Some(value) ==> match r {
                Ok(limits) => limits is Some && Self::parsed(value@) == limits,
                Err(ThresholdError::NoComma) => text::split_at_first(value@, ',') is None,
                Err(ThresholdError::NotANumber(part)) => text::split_at_first(value@, ',') matches
                    Some((warn, critical)) && text::parsed_u64(part@) is None && (part@ == warn || (
                part@ == critical && text::parsed_u64(warn) is Some)),
                Err(ThresholdError::WarnAboveCritical) => text::split_at_first(value@, ',') matches
                    Some((warn, critical)) && text::parsed_u64(warn) is Some && text::parsed_u64(
                    critical,
                ) is Some && text::parsed_u64(warn)->0 > text::parsed_u64(critical)->0,
            },
    {
        let durations = match value {
            Some(value) => value,
            None => {
                return Ok(None);
            },
        };
        let (warn_str, critical_str) = match split_once(durations, ',') {
            Some(parts) => parts,
            None => {
                return Err(ThresholdError::NoComma);
            },
        };
        let warn: u64 = match parse_u64(warn_str.as_str()) {
            Some(warn) => warn,
            None => {
                return Err(ThresholdError::NotANumber(warn_str));
            },
        };
        let critical: u64 = match parse_u64(critical_str.as_str()) {
            Some(critical) => critical,
            None => {
                return Err(ThresholdError::NotANumber(critical_str));
            },
        };
        if warn > critical {
            return Err(ThresholdError::WarnAboveCritical);
        }
        Ok(Some(Self::new(warn as u128 * 1_000_000, critical as u128 * 1_000_000)))
    }

    pub fn is_critical(&self, duration: u128) -> (r: bool)
        ensures
            r == (duration >= self.critical),
    {
        duration >= self.critical
    }

    pub fn is_warn(&self, duration: u128) -> (r: bool)
        ensures
            r == (duration >= self.warn),
    {
        duration >= self.warn
    }
}

impl Arguments {
    /// The limits for unit tests: those that were configured, or 50 and 100 milliseconds.
    pub fn unit_test_threshold(&self, configured: Option<TimeThreshold>) -> (r: TimeThreshold)
        ensures
            r == (match configured {
                Some(limits) => limits,
                None => TimeThreshold { warn: 50_000_000, critical: 100_000_000 },
            }),
    {
        match configured {
            Some(limits) => limits,
            None => TimeThreshold::new(50_000_000, 100_000_000),
        }
    }

    /// The limits for integration tests: those that were configured, or 500 and 1000
    /// milliseconds.
    pub fn integration_test_threshold(&self, configured: Option<TimeThreshold>) -> (r:
        TimeThreshold)
        ensures
            r == (match configured {
                Some(limits) => limits,
                None => TimeThreshold { warn: 500_000_000, critical: 1_000_000_000 },
            }),
    {
        match configured {
            Some(limits) => limits,
            None => TimeThreshold::new(500_000_000, 1_000_000_000),
        }
    }

    /// How many threads run tests: one in a worker process, else what was asked for, else what
    /// the machine offers.
    pub open spec fn threads(a: ArgumentsModel, available: Option<usize>) -> usize {
        if a.ipc is Some {
            1
        } else {
            match a.test_threads {
                Some(n) => if n > 0 {
                    n
                } else {
                    Self::offered(available)
                },
                None => Self::offered(available),
            }
        }
    }

    /// The parallelism of the machine, or one if that is not known.
    pub open spec fn offered(available: Option<usize>) -> usize {
        match available {
            Some(n) => if n > 0 {
                n
            } else {
                1
            },
            None => 1,
        }
    }

    /// How many threads run tests; `available` is the parallelism that the machine offers.
    pub fn test_threads(&self, available: Option<usize>) -> (r: usize)
        ensures
            r == Self::threads(self@, available),
            r >= 1,
    {
        let offered: usize = match available {
            Some(n) => if n > 0 {
                n
            } else {
                1
            },
            None => 1,
        };
        if self.ipc.is_some() {
            1
        } else {
            match self.test_threads {
                Some(n) => if n > 0 {
                    n
                } else {
                    offered
                },
                None => offered,
            }
        }
    }

    /// The seed for the order of the tests: the one that was given, else the one that was drawn
    /// where a random order is asked for.
    pub open spec fn spec_order_seed(a: ArgumentsModel, drawn: u64) -> Option<u64> {
        if a.shuffle_seed is Some {
            a.shuffle_seed
        } else if a.shuffle {
            Some(drawn)
        } else {
            None
        }
    }

    /// The arguments with the order of the tests fixed.
    pub open spec fn ordered(a: ArgumentsModel, drawn: u64) -> ArgumentsModel {
        ArgumentsModel { shuffle: false, shuffle_seed: Self::spec_order_seed(a, drawn), ..a }
    }

    /// The seed for the order of the tests, if they are not to run as they were registered.
    pub fn order_seed(&self, drawn: u64) -> (r: Option<u64>)
        ensures
            r == Self::spec_order_seed(self@, drawn),
    {
        match self.shuffle_seed {
            Some(seed) => Some(seed),
            None => if self.shuffle {
                Some(drawn)
            } else {
                None
            },
        }
    }

    /// Fixes the order of the tests, which the worker processes have to know: from here on it is
    /// given by the seed alone.
    pub fn fix_order(&mut self, drawn: u64)
        ensures
            final(self)@ == Self::ordered(old(self)@, drawn),
    {
        self.shuffle_seed = self.order_seed(drawn);
        self.shuffle = false;
    }

    /// Whether this process was started by the user and not by another test runner.
    pub fn is_top_level_parent(&self) -> (r: bool)
        ensures
            r == (self.ipc is None),
    {
        self.ipc.is_none()
    }

    /// The arguments of the worker process that listens on the given socket: it is driven over
    /// the socket, starts no workers of its own, writes no log file, and leaves it to its parent to
    /// repeat a run.
    pub fn worker_arguments(&self, socket: String) -> (r: Self)
        ensures
            r@ == (ArgumentsModel {
                ipc: Some(socket@),
                spawn_workers: false,
                logfile: None,
                flaky_run: None,
                ..self@
            }),
    {
        let mut r = self.clone();
        r.ipc = Some(socket);
        r.spawn_workers = false;
        r.logfile = None;
        r.flaky_run = None;
        r
    }

    /// Whether a run that was to use several threads has to use one.
    pub open spec fn is_restricted(
        a: ArgumentsModel,
        has_shared: bool,
        available: Option<usize>,
    ) -> bool {
        !a.nocapture && a.ipc is None && Self::threads(a, available) > 1 && has_shared
    }

    /// The configuration of a run whose plan has `Shared` dependencies or not.
    pub open spec fn finalized(
        a: ArgumentsModel,
        has_shared: bool,
        available: Option<usize>,
    ) -> ArgumentsModel {
        if a.nocapture || a.ipc is Some {
            a
        } else {
            ArgumentsModel {
                spawn_workers: true,
                test_threads: if Self::is_restricted(a, has_shared, available) {
                    Some(1)
                } else {
                    a.test_threads
                },
                ..a
            }
        }
    }

    /// Makes necessary adjustments to the configuration based on the final execution plan, and
    /// returns a warning for the user where there is one.
    ///
    /// Capturing output takes worker processes. `Shared` dependencies cannot be used from several
    /// of these, so with such a plan a single one is used. A worker keeps what its parent decided.
    #[verifier::rlimit(80)]
    #[verifier::spinoff_prover]
    pub fn finalize_for_execution<V>(
        &mut self,
        execution: &TestSuiteExecution<V>,
        available: Option<usize>,
    ) -> (warning: Option<String>)
        ensures
            final(self)@ == Self::finalized(
                old(self)@,
                execution.root.has_scope(DepScope::Shared),
                available,
            ),
            text::opt_view(warning) == (if Self::is_restricted(
                old(self)@,
                execution.root.has_scope(DepScope::Shared),
                available,
            ) {
                Some(single_thread_warning())
            } else {
                None
            }),
    {
        if self.nocapture || self.ipc.is_some() {
            return None;
        }
        self.spawn_workers = true;
        if self.test_threads(available) > 1 && execution.has_shared_dependencies() {
            self.test_threads = Some(1);
            return Some(
                "Cannot run tests in parallel when test have shared dependencies and output capturing is on. Using a single thread.".to_owned(),
            );
        }
        None
    }
}

/// What the user is told when a run is restricted to a single thread.
pub open spec fn single_thread_warning() -> Seq<char> {
    "Cannot run tests in parallel when test have shared dependencies and output capturing is on. Using a single thread."@
}

/// A worker process runs its tests on one thread.
pub proof fn worker_runs_one_thread(a: ArgumentsModel, socket: Seq<char>, available: Option<usize>)
    ensures
        Arguments::threads(ArgumentsModel { ipc: Some(socket), ..a }, available) == 1,
{
}

} // verus!
