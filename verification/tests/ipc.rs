use test_r_core::ipc::{
    payload_len, read_frame, write_frame, FrameError, FrameReader, SerializableTestResult,
    FRAME_LEN_BYTES,
};
use test_r_core::results::{CapturedOutput, FailureCause, PanicCause, Summary, TestResult};

#[test]
fn write_then_read_round_trip_empty() {
    let mut buf: Vec<u8> = Vec::new();
    write_frame(&mut buf, &[]).expect("write");
    let mut reader = FrameReader::new(buf);
    let payload = read_frame(&mut reader).expect("read");
    assert!(payload.is_empty());
}

#[test]
fn write_then_read_round_trip_small() {
    let mut buf: Vec<u8> = Vec::new();
    let data = b"hello, world";
    write_frame(&mut buf, data).expect("write");
    let mut reader = FrameReader::new(buf);
    let payload = read_frame(&mut reader).expect("read");
    assert_eq!(payload, data);
}

#[test]
fn write_then_read_round_trip_large_payload_exceeds_u16() {
    // 200 KiB: more than a length prefix of two bytes could express.
    let mut data = vec![0u8; 200 * 1024];
    for (i, b) in data.iter_mut().enumerate() {
        *b = (i % 251) as u8;
    }
    let mut buf: Vec<u8> = Vec::new();
    write_frame(&mut buf, &data).expect("write");
    assert_eq!(buf.len(), FRAME_LEN_BYTES + data.len());
    let mut reader = FrameReader::new(buf);
    let payload = read_frame(&mut reader).expect("read");
    assert_eq!(payload.len(), data.len());
    assert_eq!(payload, data);
}

#[test]
fn read_frame_propagates_eof() {
    let mut reader = FrameReader::new(Vec::new());
    let err = read_frame(&mut reader).expect_err("must fail on empty");
    assert_eq!(err, FrameError::UnexpectedEof);
}

#[test]
fn frames_are_read_back_one_after_the_other() {
    let mut buf: Vec<u8> = Vec::new();
    write_frame(&mut buf, b"first").expect("write");
    write_frame(&mut buf, b"").expect("write");
    write_frame(&mut buf, b"third").expect("write");
    let mut reader = FrameReader::new(buf);
    assert_eq!(read_frame(&mut reader), Ok(b"first".to_vec()));
    assert_eq!(read_frame(&mut reader), Ok(vec![]));
    assert_eq!(read_frame(&mut reader), Ok(b"third".to_vec()));
    assert_eq!(read_frame(&mut reader), Err(FrameError::UnexpectedEof));
}

#[test]
fn frame_starts_with_its_length_in_little_endian() {
    let mut buf: Vec<u8> = Vec::new();
    write_frame(&mut buf, &vec![7u8; 0x0102]).expect("write");
    assert_eq!(buf[..5], [0x02, 0x01, 0, 0, 7]);
    assert_eq!(payload_len(&[0x78, 0x56, 0x34, 0x12]), 0x12345678);
}

#[test]
fn cut_off_frame_is_an_unexpected_end() {
    assert_eq!(
        read_frame(&mut FrameReader::new(vec![3, 0, 0])),
        Err(FrameError::UnexpectedEof)
    );
    assert_eq!(
        read_frame(&mut FrameReader::new(vec![3, 0, 0, 0, 1, 2])),
        Err(FrameError::UnexpectedEof)
    );
    assert_eq!(FrameError::UnexpectedEof.message(), "failed to fill whole buffer");
    assert_eq!(
        FrameError::PayloadTooLarge.message(),
        "IPC payload size exceeds u32::MAX"
    );
}

fn summary() -> Summary {
    Summary {
        median: 12,
        median_text: "12".to_string(),
        deviation_text: "3".to_string(),
        median_grouped: "12".to_string(),
        deviation_grouped: "3".to_string(),
    }
}

#[test]
fn sent_results_keep_their_kind_and_time() {
    let passed = SerializableTestResult::from_result(&TestResult::passed(5)).into_result();
    assert!(matches!(passed, TestResult::Passed { exec_time: 5, .. }));

    let measured =
        SerializableTestResult::from_result(&TestResult::benchmarked(6, summary(), 7)).into_result();
    assert!(matches!(
        measured,
        TestResult::Benchmarked { exec_time: 6, mb_s: 7, .. }
    ));
    assert_eq!(measured.stats().map(|s| s.median), Some(12));

    let ignored = SerializableTestResult::from_result(&TestResult::ignored()).into_result();
    assert!(ignored.is_ignored());

    let cause = FailureCause::Panic(PanicCause {
        message: Some("boom".to_string()),
        location: None,
        backtrace: None,
    });
    let failed = TestResult::failed(8, cause);
    let received = SerializableTestResult::from_result(&failed).into_result();
    assert!(matches!(
        received,
        TestResult::Failed { exec_time: 8, cause: FailureCause::HarnessError(_), .. }
    ));
    assert_eq!(received.failure_message(), failed.failure_message());
}

#[test]
fn received_result_holds_the_lines_of_both_streams_in_order_of_time() {
    let out = vec![
        CapturedOutput::stdout(1, "a".to_string()),
        CapturedOutput::stdout(4, "d".to_string()),
    ];
    let err = vec![
        CapturedOutput::stderr(1, "b".to_string()),
        CapturedOutput::stderr(3, "c".to_string()),
    ];
    let result = SerializableTestResult::from_result(&TestResult::passed(1)).into_test_result(out, err);
    let lines: Vec<&str> = result.captured_output().iter().map(|c| c.line()).collect();
    assert_eq!(lines, vec!["a", "b", "c", "d"]);
}
