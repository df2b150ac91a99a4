use std::sync::Arc;
use test_r_core::args::{
    Arguments, ColorSetting, FormatSetting, ThresholdError, TimeThreshold, UnstableFlags,
};
use test_r_core::execution::suite::TestSuiteExecution;
use test_r_core::internal::{
    DepScope, DependencyConstructor, RegisteredDependency, RegisteredTest, TestFunction,
    TestProperties,
};
use test_r_core::sync::runner::thread_arguments;

fn strings(v: &[&str]) -> Vec<String> {
    v.iter().map(|s| s.to_string()).collect()
}

#[test]
fn default_arguments_render_as_nothing() {
    assert_eq!(Arguments::default().to_args(), Vec::<String>::new());
}

#[test]
fn every_argument_is_rendered() {
    let args = Arguments {
        include_ignored: true,
        ignored: true,
        exclude_should_panic: true,
        test: true,
        bench: true,
        list: true,
        logfile: Some("log".to_string()),
        nocapture: true,
        test_threads: Some(3),
        skip: strings(&["a", "b"]),
        quiet: true,
        exact: true,
        color: Some(ColorSetting::Always),
        format: Some(FormatSetting::Junit),
        show_output: true,
        unstable_flags: Some(UnstableFlags::UnstableOptions),
        report_time: true,
        ensure_time: true,
        shuffle: true,
        shuffle_seed: Some(17),
        flaky_run: Some(4),
        filter: strings(&["f", "g"]),
        ipc: Some("socket".to_string()),
        spawn_workers: true,
        worker_index: Some(2),
    };
    let rendered = args.to_args();
    for flag in [
        "--include-ignored",
        "--ignored",
        "--exclude-should-panic",
        "--test",
        "--bench",
        "--list",
        "--nocapture",
        "--quiet",
        "--exact",
        "--show-output",
        "--report-time",
        "--ensure-time",
        "--shuffle",
        "--spawn-workers",
    ] {
        assert!(rendered.contains(&flag.to_string()), "{flag} in {rendered:?}");
    }
    let follows = |flag: &str, value: &str| {
        rendered
            .windows(2)
            .any(|pair| pair[0] == flag && pair[1] == value)
    };
    assert!(follows("--logfile", "log"));
    assert!(follows("--test-threads", "3"));
    assert!(follows("--skip", "a"));
    assert!(follows("--skip", "b"));
    assert!(follows("--color", "always"));
    assert!(follows("--format", "junit"));
    assert!(follows("-Z", "unstable-options"));
    assert!(follows("--shuffle-seed", "17"));
    assert!(follows("--ipc", "socket"));
    assert!(follows("--worker-index", "2"));
    assert!(follows("--flaky-run", "4"));
    assert!(rendered.contains(&"f".to_string()));
    assert!(rendered.contains(&"g".to_string()));
}

#[test]
fn formats_and_colors_render_as_their_names() {
    for (format, name) in [
        (FormatSetting::Pretty, "pretty"),
        (FormatSetting::Terse, "terse"),
        (FormatSetting::Json, "json"),
        (FormatSetting::Junit, "junit"),
        (FormatSetting::Ctrf, "ctrf"),
    ] {
        let args = Arguments {
            format: Some(format),
            ..Default::default()
        };
        assert_eq!(args.to_args(), strings(&["--format", name]));
    }
    for (color, name) in [
        (ColorSetting::Auto, "auto"),
        (ColorSetting::Always, "always"),
        (ColorSetting::Never, "never"),
    ] {
        let args = Arguments {
            color: Some(color),
            ..Default::default()
        };
        assert_eq!(args.to_args(), strings(&["--color", name]));
    }
}

#[test]
fn limits_are_two_numbers_of_milliseconds() {
    let read = |value: &str| TimeThreshold::from_env_var(Some(value));
    assert!(matches!(TimeThreshold::from_env_var(None), Ok(None)));
    assert_eq!(
        read("500,2000").unwrap(),
        Some(TimeThreshold {
            warn: 500_000_000,
            critical: 2_000_000_000
        })
    );
    assert_eq!(
        read("007,7").unwrap(),
        Some(TimeThreshold::new(7_000_000, 7_000_000))
    );
    assert!(matches!(read("+5,+10"), Err(ThresholdError::NotANumber(part)) if part == "+5"));
    assert!(matches!(read("5,+10"), Err(ThresholdError::NotANumber(part)) if part == "+10"));
    assert!(matches!(read(",1"), Err(ThresholdError::NotANumber(part)) if part.is_empty()));
    assert!(matches!(read("500"), Err(ThresholdError::NoComma)));
    assert!(matches!(read("x,1"), Err(ThresholdError::NotANumber(part)) if part == "x"));
    assert!(matches!(read("1, 2"), Err(ThresholdError::NotANumber(part)) if part == " 2"));
    assert!(matches!(read("1,2,3"), Err(ThresholdError::NotANumber(part)) if part == "2,3"));
    assert!(
        matches!(read("1,18446744073709551616"), Err(ThresholdError::NotANumber(part)) if part == "18446744073709551616")
    );
    assert!(matches!(read("3,2"), Err(ThresholdError::WarnAboveCritical)));
}

#[test]
fn limits_are_reached_from_below() {
    let limits = TimeThreshold::new(5, 8);
    assert!(!limits.is_warn(4));
    assert!(limits.is_warn(5));
    assert!(!limits.is_critical(7));
    assert!(limits.is_critical(8));
}

#[test]
fn configured_limits_replace_the_usual_ones() {
    let args = Arguments::default();
    let configured = Some(TimeThreshold::new(1, 2));
    assert_eq!(
        args.unit_test_threshold(None),
        TimeThreshold::new(50_000_000, 100_000_000)
    );
    assert_eq!(
        args.integration_test_threshold(None),
        TimeThreshold::new(500_000_000, 1_000_000_000)
    );
    assert_eq!(args.unit_test_threshold(configured), TimeThreshold::new(1, 2));
    assert_eq!(
        args.integration_test_threshold(configured),
        TimeThreshold::new(1, 2)
    );
}

#[test]
fn threads_are_what_was_asked_for_or_what_is_offered() {
    let with = |test_threads: Option<usize>| Arguments {
        test_threads,
        ..Default::default()
    };
    assert_eq!(with(Some(3)).test_threads(Some(8)), 3);
    assert_eq!(with(Some(0)).test_threads(Some(8)), 8);
    assert_eq!(with(None).test_threads(Some(8)), 8);
    assert_eq!(with(None).test_threads(None), 1);
    let worker = with(Some(3)).worker_arguments("s".to_string());
    assert_eq!(worker.test_threads(Some(8)), 1);
}

#[test]
fn worker_is_driven_over_the_socket_and_starts_no_workers() {
    let parent = Arguments {
        spawn_workers: true,
        logfile: Some("log".to_string()),
        exact: true,
        flaky_run: Some(2),
        ..Default::default()
    };
    let worker = parent.worker_arguments("x.sock".to_string());
    assert_eq!(worker.ipc.as_deref(), Some("x.sock"));
    assert!(!worker.spawn_workers);
    assert_eq!(worker.logfile, None);
    assert_eq!(worker.flaky_run, None);
    assert!(worker.exact);
    assert!(parent.is_top_level_parent());
    assert!(!worker.is_top_level_parent());
}

#[test]
fn worker_learns_the_index_of_its_thread() {
    let mut args = Arguments::default();
    assert_eq!(thread_arguments(&args, 3).worker_index, None);
    args.spawn_workers = true;
    assert_eq!(thread_arguments(&args, 3).worker_index, Some(3));
}

fn plan_with(scope: DepScope) -> TestSuiteExecution<u64> {
    let dep = RegisteredDependency {
        name: "d".to_string(),
        crate_name: "c".to_string(),
        module: String::new(),
        constructor: DependencyConstructor::Sync(0),
        dependencies: vec![],
        scope,
        worker_fn: None,
        cloneable_codec: None,
        hosted_codec: None,
        rpc_factory: None,
        companions: vec![],
    };
    let test = RegisteredTest {
        name: "t".to_string(),
        crate_name: "c".to_string(),
        module: String::new(),
        run: TestFunction::Sync(0),
        props: TestProperties::default(),
        dependencies: Some(vec!["d".to_string()]),
    };
    let mut plan =
        TestSuiteExecution::construct(&Arguments::default(), &vec![dep], &vec![test], &vec![]).0;
    plan.provide_cloneable_value("none", Arc::new(0));
    plan
}

#[test]
fn shared_dependencies_restrict_a_capturing_run_to_one_thread() {
    let mut args = Arguments {
        test_threads: Some(4),
        ..Default::default()
    };
    let warning = args.finalize_for_execution(&plan_with(DepScope::Shared), None);
    assert_eq!(
        warning.as_deref(),
        Some("Cannot run tests in parallel when test have shared dependencies and output capturing is on. Using a single thread.")
    );
    assert!(args.spawn_workers);
    assert_eq!(args.test_threads, Some(1));
}

#[test]
fn other_scopes_and_runs_without_capture_keep_their_threads() {
    for scope in [
        DepScope::PerWorker,
        DepScope::Cloneable,
        DepScope::Hosted,
        DepScope::HostedRpc,
    ] {
        let mut args = Arguments {
            test_threads: Some(4),
            ..Default::default()
        };
        assert_eq!(args.finalize_for_execution(&plan_with(scope), None), None);
        assert!(args.spawn_workers);
        assert_eq!(args.test_threads, Some(4));
    }
    let mut args = Arguments {
        test_threads: Some(4),
        nocapture: true,
        ..Default::default()
    };
    assert_eq!(
        args.finalize_for_execution(&plan_with(DepScope::Shared), None),
        None
    );
    assert!(!args.spawn_workers);
    assert_eq!(args.test_threads, Some(4));
}

#[test]
fn command_line_tells_arguments_apart() {
    let with = |change: fn(&mut Arguments)| {
        let mut args = Arguments::default();
        change(&mut args);
        args.to_args()
    };
    let lines = [
        with(|_| {}),
        with(|a| a.test = true),
        with(|a| a.test_threads = Some(1)),
        with(|a| a.skip = strings(&["1"])),
        with(|a| a.skip = strings(&["1", "1"])),
        with(|a| a.filter = strings(&["1"])),
        with(|a| a.filter = strings(&["1", "1"])),
        with(|a| a.shuffle = true),
        with(|a| a.shuffle_seed = Some(1)),
        with(|a| a.worker_index = Some(1)),
        with(|a| a.flaky_run = Some(1)),
        with(|a| a.flaky_run = Some(11)),
        with(|a| a.ipc = Some("1".to_string())),
        with(|a| a.logfile = Some("1".to_string())),
    ];
    for (i, line) in lines.iter().enumerate() {
        assert!(lines.iter().skip(i + 1).all(|other| other != line), "{line:?}");
    }
}

#[test]
fn seed_for_the_order_is_given_or_drawn() {
    let seed = |shuffle: bool, shuffle_seed: Option<u64>| {
        Arguments {
            shuffle,
            shuffle_seed,
            ..Default::default()
        }
        .order_seed(9)
    };
    assert_eq!(seed(false, None), None);
    assert_eq!(seed(true, None), Some(9));
    assert_eq!(seed(false, Some(3)), Some(3));
    assert_eq!(seed(true, Some(3)), Some(3));
}
