use std::time::{Duration, SystemTime, UNIX_EPOCH};
use test_r_core::args::Arguments;
use test_r_core::host_capture::{
    attribute_records_to_tests, encode_record, read_spill_file, record_to_capture, should_install,
    strip_line_break, HostLogRecord, HostWindow,
};
use test_r_core::internal::{RegisteredTest, TestFunction, TestProperties};
use test_r_core::results::{CapturedOutput, TestResult};

/// The attribution never runs the test.
fn dummy_test(name: &str) -> RegisteredTest {
    RegisteredTest {
        name: name.to_string(),
        crate_name: "test_crate".to_string(),
        module: "test_module".to_string(),
        run: TestFunction::Sync(0),
        props: TestProperties::default(),
        dependencies: None,
    }
}

fn nanos(duration: Duration) -> u64 {
    duration.as_nanos() as u64
}

fn millis(n: u64) -> u64 {
    nanos(Duration::from_millis(n))
}

fn wall(time: SystemTime) -> u64 {
    nanos(time.duration_since(UNIX_EPOCH).unwrap())
}

fn record(elapsed: u64, line: &str) -> HostLogRecord {
    HostLogRecord {
        elapsed,
        stream_tag: 0,
        line: line.to_string(),
    }
}

fn host_lines(result: &TestResult) -> Vec<&str> {
    result
        .captured_output()
        .iter()
        .filter_map(|c| match c {
            CapturedOutput::Host { line, .. } => Some(line.as_str()),
            _ => None,
        })
        .collect()
}

/// The bytes that the thread which reads the pipe writes for these lines.
fn encode_records(items: &[(u64, &str)]) -> Vec<u8> {
    let mut out = Vec::new();
    for (ts_ns, line) in items {
        let len = u32::try_from(line.len()).unwrap();
        out.extend_from_slice(&ts_ns.to_le_bytes());
        out.push(0u8); // stream_tag = 0 ("mixed")
        out.extend_from_slice(&len.to_le_bytes());
        out.extend_from_slice(line.as_bytes());
    }
    out
}

#[test]
fn read_spill_file_round_trips_records_in_order() {
    let bytes = encode_records(&[
        (1_000_000, "first line"),
        (5_000_000, "second line"),
        (9_999_999_999, "third line, large ts"),
    ]);
    let records = read_spill_file(Some(bytes));
    assert_eq!(records.len(), 3, "all three records must parse");
    assert_eq!(records[0].elapsed, 1_000_000);
    assert_eq!(records[0].line, "first line");
    assert_eq!(records[1].line, "second line");
    assert_eq!(records[2].elapsed, 9_999_999_999);
    assert_eq!(records[2].line, "third line, large ts");
}

#[test]
fn read_spill_file_drops_truncated_tail() {
    let mut bytes = encode_records(&[(1_000, "complete")]);
    // A header that promises 64 bytes of payload, of which only 3 follow:
    // a write that was under way when the process exited.
    bytes.extend_from_slice(&2_000u64.to_le_bytes());
    bytes.push(0u8);
    bytes.extend_from_slice(&64u32.to_le_bytes());
    bytes.extend_from_slice(b"abc");

    let records = read_spill_file(Some(bytes));
    assert_eq!(
        records.len(),
        1,
        "the truncated trailing record must be dropped, not panic"
    );
    assert_eq!(records[0].line, "complete");
}

#[test]
fn read_spill_file_missing_returns_empty_vec() {
    let records = read_spill_file(None);
    assert!(records.is_empty());
}

#[test]
fn attribute_records_to_tests_inserts_host_lines_for_matching_window() {
    // The suite started 1s ago; the tests ran between t=200ms and t=400ms,
    // and between t=500ms and t=700ms.
    let epoch_wall = wall(SystemTime::now() - Duration::from_secs(1));
    let win_a = HostWindow {
        start: millis(200),
        end: millis(400),
    };
    let win_b = HostWindow {
        start: millis(500),
        end: millis(700),
    };

    let records = vec![
        record(millis(100), "before any test"),
        record(millis(250), "during a"),
        record(millis(600), "during b"),
        record(millis(900), "after both tests"),
    ];

    let mut results: Vec<(RegisteredTest, TestResult)> = vec![
        (dummy_test("a"), TestResult::passed(millis(200))),
        (dummy_test("b"), TestResult::passed(millis(200))),
    ];
    results[0]
        .1
        .set_captured_output(vec![CapturedOutput::Stdout {
            timestamp: wall(UNIX_EPOCH),
            line: "from test a".to_string(),
        }]);
    results[1]
        .1
        .set_captured_output(vec![CapturedOutput::Stdout {
            timestamp: wall(UNIX_EPOCH),
            line: "from test b".to_string(),
        }]);

    let windows_indexed = vec![(0usize, win_a), (1usize, win_b)];
    attribute_records_to_tests(epoch_wall, &records, &windows_indexed, &mut results);

    assert_eq!(
        host_lines(&results[0].1),
        vec!["during a"],
        "test A must receive only the host record inside its window"
    );
    assert_eq!(
        host_lines(&results[1].1),
        vec!["during b"],
        "test B must receive only the host record inside its window"
    );

    // The lines that were there still are, before the later host lines.
    let a_caps = results[0].1.captured_output();
    let b_caps = results[1].1.captured_output();
    assert!(a_caps
        .iter()
        .any(|c| matches!(c, CapturedOutput::Stdout { line, .. } if line == "from test a")));
    assert!(b_caps
        .iter()
        .any(|c| matches!(c, CapturedOutput::Stdout { line, .. } if line == "from test b")));
    assert_eq!(a_caps[0].line(), "from test a");
    assert_eq!(a_caps[1].line(), "during a");
}

#[test]
fn attribute_records_to_tests_handles_overlapping_windows() {
    let epoch_wall = wall(SystemTime::now() - Duration::from_secs(1));
    let overlap = HostWindow {
        start: millis(100),
        end: millis(800),
    };

    let records = vec![record(millis(500), "shared host line")];

    let mut results: Vec<(RegisteredTest, TestResult)> = vec![
        (dummy_test("a"), TestResult::passed(millis(700))),
        (dummy_test("b"), TestResult::passed(millis(700))),
    ];

    let windows_indexed = vec![(0usize, overlap), (1usize, overlap)];
    attribute_records_to_tests(epoch_wall, &records, &windows_indexed, &mut results);

    for (_, r) in &results {
        assert_eq!(
            host_lines(r),
            vec!["shared host line"],
            "overlapping windows must each receive the same host record"
        );
    }
}

#[test]
fn encoded_records_are_read_back() {
    let mut bytes = encode_record(7, &b"one".to_vec());
    bytes.extend(encode_record(u64::MAX, &"zw\u{f6}lf".as_bytes().to_vec()));
    bytes.extend(encode_record(9, &vec![]));
    assert_eq!(
        bytes,
        encode_records(&[(7, "one"), (u64::MAX, "zw\u{f6}lf"), (9, "")])
    );
    assert_eq!(
        read_spill_file(Some(bytes)),
        vec![record(7, "one"), record(u64::MAX, "zw\u{f6}lf"), record(9, "")]
    );
}

#[test]
fn bytes_that_are_no_text_are_replaced() {
    let bytes = encode_record(1, &vec![b'a', 0xff, b'b']);
    assert_eq!(read_spill_file(Some(bytes))[0].line, "a\u{fffd}b");
}

#[test]
fn line_breaks_are_stripped() {
    let stripped = |line: &str| {
        let mut bytes = line.as_bytes().to_vec();
        strip_line_break(&mut bytes);
        String::from_utf8(bytes).unwrap()
    };
    assert_eq!(stripped("a\n"), "a");
    assert_eq!(stripped("a\r\n"), "a");
    assert_eq!(stripped("a\r"), "a");
    assert_eq!(stripped("a\n\n"), "a\n");
    assert_eq!(stripped(""), "");
}

#[test]
fn window_starts_with_the_capture_and_ends_before_its_end() {
    assert_eq!(HostWindow::from_instants(None, 1, 2), None);
    let window = HostWindow::from_instants(Some(10), 5, 30).unwrap();
    assert_eq!((window.start, window.end), (0, 20));
    assert!(window.contains(0));
    assert!(window.contains(19));
    assert!(!window.contains(20));
}

#[test]
fn capture_of_a_record_is_timed_by_the_wall_clock() {
    let capture = record_to_capture(100, &record(23, "x"));
    assert_eq!(capture.timestamp(), 123);
    assert_eq!(capture.line(), "x");
    assert_eq!(record_to_capture(u64::MAX, &record(1, "x")).timestamp(), u64::MAX);
}

#[test]
fn capture_is_installed_in_a_parent_of_capturing_workers() {
    let parent = Arguments {
        spawn_workers: true,
        ..Default::default()
    };
    assert!(should_install(&parent));
    assert!(!should_install(&Arguments::default()));
    assert!(!should_install(&Arguments {
        spawn_workers: true,
        nocapture: true,
        ..Default::default()
    }));
    assert!(!should_install(&Arguments {
        spawn_workers: true,
        ipc: Some("socket".to_string()),
        ..Default::default()
    }));
}
