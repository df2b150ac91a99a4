//! Which report is written, and where to.
use crate::args::{Arguments, ColorSetting, FormatSetting, TimeThreshold};
use vstd::prelude::*;

verus! {

/// A report writer with its settings.
#[derive(Debug, Clone, Copy, PartialEq, Eq, Structural)]
pub enum OutputKind {
    /// Writes nothing: the parent writes the report
    IpcWorker,
    Terse,
    Pretty {
        color: ColorSetting,
        show_output: bool,
        report_time: bool,
        unit_test_threshold: TimeThreshold,
        integ_test_threshold: TimeThreshold,
    },
    Json { show_output: bool },
    JUnit { show_output: bool },
    Ctrf { show_output: bool },
}

/// The report that the arguments ask for. `unit_limits` and `integration_limits` are the limits
/// that are configured in the environment.
pub open spec fn kind_of(
    a: Arguments,
    unit_limits: Option<TimeThreshold>,
    integration_limits: Option<TimeThreshold>,
) -> OutputKind {
    if a.ipc is Some {
        OutputKind::IpcWorker
    } else if a.quiet {
        OutputKind::Terse
    } else {
        match a.format {
            Some(FormatSetting::Terse) => OutputKind::Terse,
            Some(FormatSetting::Json) => OutputKind::Json { show_output: a.show_output },
            Some(FormatSetting::Junit) => OutputKind::JUnit { show_output: a.show_output },
            Some(FormatSetting::Ctrf) => OutputKind::Ctrf { show_output: a.show_output },
            _ => OutputKind::Pretty {
                color: match a.color {
                    Some(color) => color,
                    None => ColorSetting::Auto,
                },
                show_output: a.show_output,
                report_time: a.report_time,
                unit_test_threshold: match unit_limits {
                    Some(limits) => limits,
                    None => TimeThreshold { warn: 50_000_000, critical: 100_000_000 },
                },
                integ_test_threshold: match integration_limits {
                    Some(limits) => limits,
                    None => TimeThreshold { warn: 500_000_000, critical: 1_000_000_000 },
                },
            },
        }
    }
}

/// Chooses the report that the arguments ask for.
pub fn test_runner_output(
    args: &Arguments,
    unit_limits: Option<TimeThreshold>,
    integration_limits: Option<TimeThreshold>,
) -> (r: OutputKind)
    ensures
        r == kind_of(*args, unit_limits, integration_limits),
{
    if args.ipc.is_some() {
        return OutputKind::IpcWorker;
    }
    if args.quiet {
        return OutputKind::Terse;
    }
    let format = match args.format {
        Some(format) => format,
        None => FormatSetting::Pretty,
    };
    match format {
        FormatSetting::Pretty => OutputKind::Pretty {
            color: match args.color {
                Some(color) => color,
                None => ColorSetting::Auto,
            },
            show_output: args.show_output,
            report_time: args.report_time,
            unit_test_threshold: args.unit_test_threshold(unit_limits),
            integ_test_threshold: args.integration_test_threshold(integration_limits),
        },
        FormatSetting::Terse => OutputKind::Terse,
        FormatSetting::Json => OutputKind::Json { show_output: args.show_output },
        FormatSetting::Junit => OutputKind::JUnit { show_output: args.show_output },
        FormatSetting::Ctrf => OutputKind::Ctrf { show_output: args.show_output },
    }
}

/// Whether a report of this kind goes to the log file, where one is given.
pub fn uses_log_file(kind: &OutputKind) -> (r: bool)
    ensures
        r == !(kind is IpcWorker || kind is Terse),
{
    match kind {
        OutputKind::IpcWorker => false,
        OutputKind::Terse => false,
        _ => true,
    }
}

/// The name of a log file that no other process writes to: the given name with a unique part.
pub fn unique_log_file_name(stem: &str, id: &str, extension: &str) -> (r: String)
    ensures
        r@ == stem@ + "-"@ + id@ + "."@ + extension@,
{
    let mut out = stem.to_owned();
    out.append("-");
    out.append(id);
    out.append(".");
    out.append(extension);
    out
}

} // verus!
