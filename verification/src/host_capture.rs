//! Output that the parent process writes while tests run: the format in which it is spilled to a
//! file, and its attribution to the tests that were running.
use crate::args::Arguments;
use crate::internal::RegisteredTest;
use crate::ipc;
use crate::results;
use crate::results::{copy_captured, sort_by_time, CapturedOutput, TestResult};
use vstd::prelude::*;
use vstd::utf8;

verus! {

/// One line of host output.
#[derive(Debug, PartialEq, Eq)]
pub struct HostLogRecord {
    /// Nanoseconds since the capture was installed
    pub elapsed: u64,
    /// Always 0: both streams go through the same pipe
    pub stream_tag: u8,
    pub line: String,
}

/// The length of the header of a record: timestamp, stream tag and length of the line.
pub const HEADER_LEN: usize = 13;

/// What is kept of a line as it was read: the line without its line break.
pub open spec fn line_content(raw: Seq<u8>) -> Seq<u8> {
    let without_lf = if raw.len() > 0 && raw.last() == 10 {
        raw.drop_last()
    } else {
        raw
    };
    if without_lf.len() > 0 && without_lf.last() == 13 {
        without_lf.drop_last()
    } else {
        without_lf
    }
}

/// Removes the line break at the end of a line.
pub fn strip_line_break(line: &mut Vec<u8>)
    ensures
        final(line)@ == line_content(old(line)@),
{
    if line.len() > 0 && line[line.len() - 1] == 10 {
        line.pop();
    }
    if line.len() > 0 && line[line.len() - 1] == 13 {
        line.pop();
    }
}

/// The eight bytes of `n`, least significant first.
pub open spec fn little_endian_8(n: nat) -> Seq<u8> {
    ipc::little_endian(n % 0x1_0000_0000) + ipc::little_endian(n / 0x1_0000_0000)
}

/// The number that eight bytes stand for, least significant first.
pub open spec fn from_little_endian_8(b: Seq<u8>) -> nat {
    ipc::from_little_endian(b) + 0x1_0000_0000 * ipc::from_little_endian(b.skip(4))
}

/// A record as it stands in the spill file.
#[verifier::ext_equal]
pub struct RecordModel {
    pub elapsed: nat,
    pub stream_tag: u8,
    pub line: Seq<u8>,
}

/// The bytes of a record.
pub open spec fn record_bytes(r: RecordModel) -> Seq<u8> {
    little_endian_8(r.elapsed) + seq![r.stream_tag] + ipc::little_endian(r.line.len()) + r.line
}

/// The bytes of several records behind one another.
pub open spec fn spilled(records: Seq<RecordModel>) -> Seq<u8>
    decreases records.len(),
{
    if records.len() == 0 {
        Seq::empty()
    } else {
        record_bytes(records[0]) + spilled(records.skip(1))
    }
}

/// The records at the front of `bytes`, up to the first one that is cut off.
pub open spec fn parsed(bytes: Seq<u8>) -> Seq<RecordModel>
    decreases bytes.len(),
{
    if bytes.len() < HEADER_LEN {
        Seq::empty()
    } else {
        let n = ipc::from_little_endian(bytes.skip(9));
        if bytes.len() - HEADER_LEN < n {
            Seq::empty()
        } else {
            seq![
                RecordModel {
                    elapsed: from_little_endian_8(bytes),
                    stream_tag: bytes[8],
                    line: bytes.subrange(HEADER_LEN as int, HEADER_LEN + n),
                },
            ] + parsed(bytes.skip(HEADER_LEN + n))
        }
    }
}

fn push_u32(out: &mut Vec<u8>, n: u32)
    ensures
        final(out)@ == old(out)@ + ipc::little_endian(n as nat),
{
    let ghost before = out@;
    out.push((n % 256) as u8);
    out.push((n / 256 % 256) as u8);
    out.push((n / 65536 % 256) as u8);
    out.push((n / 16777216 % 256) as u8);
    assert(out@ =~= before + ipc::little_endian(n as nat));
}

/// The record of a line that arrived after so many nanoseconds. Of a line that is longer than the
/// format can say, the end is dropped.
pub fn encode_record(elapsed: u64, line: &Vec<u8>) -> (r: Vec<u8>)
    ensures
        r@ == record_bytes(
            RecordModel {
                elapsed: elapsed as nat,
                stream_tag: 0,
                line: if line@.len() <= u32::MAX {
                    line@
                } else {
                    line@.take(u32::MAX as int)
                },
            },
        ),
{
    let mut r: Vec<u8> = Vec::new();
    push_u32(&mut r, (elapsed % 0x1_0000_0000) as u32);
    push_u32(&mut r, (elapsed / 0x1_0000_0000) as u32);
    assert(r@ =~= little_endian_8(elapsed as nat));
    r.push(0);
    let len: u32 = if line.len() <= 0xffff_ffff {
        line.len() as u32
    } else {
        0xffff_ffff
    };
    push_u32(&mut r, len);
    let ghost header = r@;
    assert(header =~= little_endian_8(elapsed as nat) + seq![0u8] + ipc::little_endian(
        len as nat,
    ));
    let mut i: usize = 0;
    while i < len as usize
        invariant
            i <= len <= line@.len(),
            r@ == header + line@.take(i as int),
        decreases len - i,
    {
        r.push(line[i]);
        assert(r@ =~= header + line@.take(i + 1));
        i = i + 1;
    }
    assert(line@.take(len as int) =~= (if line@.len() <= u32::MAX {
        line@
    } else {
        line@.take(u32::MAX as int)
    }));
    r
}

/// What `String::from_utf8_lossy` makes of the bytes.
pub uninterp spec fn lossy_text(bytes: Seq<u8>) -> Seq<char>;

/// `String::from_utf8_lossy`: bytes that are UTF-8 become the text that they encode; in any others
/// what is not UTF-8 is replaced.
#[verifier::external_body]
fn from_utf8_lossy(bytes: &Vec<u8>) -> (r: String)
    ensures
        r@ == lossy_text(bytes@),
        utf8::valid_utf8(bytes@) ==> utf8::encode_utf8(r@) == bytes@,
{
    String::from_utf8_lossy(bytes).into_owned()
}

/// `record` is what is made of a record in the spill file.
pub open spec fn reads_as(raw: RecordModel, record: HostLogRecord) -> bool {
    &&& record.elapsed == raw.elapsed
    &&& record.stream_tag == raw.stream_tag
    &&& record.line@ == lossy_text(raw.line)
    &&& utf8::valid_utf8(raw.line) ==> utf8::encode_utf8(record.line@) == raw.line
}

/// The records of a spill file, or none if there is no file. A record at the end that is cut off
/// is dropped.
pub fn read_spill_file(contents: Option<Vec<u8>>) -> (r: Vec<HostLogRecord>)
    ensures
        contents is None ==> r@.len() == 0,
        contents matches Some(bytes) ==> r@.len() == parsed(bytes@).len() && forall|i: int|
            0 <= i < r@.len() ==> reads_as(parsed(bytes@)[i], #[trigger] r@[i]),
{
    let mut out: Vec<HostLogRecord> = Vec::new();
    let bytes = match contents {
        Some(bytes) => bytes,
        None => {
            return out;
        },
    };
    let ghost all = parsed(bytes@);
    let mut pos: usize = 0;
    assert(bytes@.skip(0) =~= bytes@);
    while bytes.len() - pos >= HEADER_LEN
        invariant_except_break
            pos <= bytes.len(),
            all == parsed(bytes@),
            out@.len() <= all.len(),
            all.skip(out@.len() as int) == parsed(bytes@.skip(pos as int)),
            forall|i: int| 0 <= i < out@.len() ==> reads_as(all[i], #[trigger] out@[i]),
        ensures
            out@.len() == all.len(),
            forall|i: int| 0 <= i < out@.len() ==> reads_as(all[i], #[trigger] out@[i]),
        decreases bytes.len() - pos,
    {
        let ghost rest = bytes@.skip(pos as int);
        let low = read_u32(&bytes, pos);
        let high = read_u32(&bytes, pos + 4);
        let elapsed: u64 = low as u64 + 0x1_0000_0000 * high as u64;
        let stream_tag: u8 = bytes[pos + 8];
        let n = read_u32(&bytes, pos + 9);
        proof {
            assert(rest.skip(4) =~= bytes@.skip(pos + 4));
            assert(rest.skip(9) =~= bytes@.skip(pos + 9));
            assert(elapsed == from_little_endian_8(rest));
            assert(stream_tag == rest[8]);
            assert(n == ipc::from_little_endian(rest.skip(9)));
        }
        if bytes.len() - pos - HEADER_LEN < n as usize {
            assert(parsed(rest) =~= Seq::empty());
            break;
        }
        let start: usize = pos + HEADER_LEN;
        let mut line: Vec<u8> = Vec::new();
        let mut i: usize = 0;
        while i < n as usize
            invariant
                i <= n,
                start + n <= bytes.len(),
                line@ == bytes@.subrange(start as int, start + i),
            decreases n - i,
        {
            line.push(bytes[start + i]);
            assert(line@ =~= bytes@.subrange(start as int, start + i + 1));
            i = i + 1;
        }
        let ghost k = out@.len() as int;
        out.push(HostLogRecord { elapsed, stream_tag, line: from_utf8_lossy(&line) });
        proof {
            assert(line@ =~= rest.subrange(HEADER_LEN as int, HEADER_LEN + n as int));
            assert(rest.skip(HEADER_LEN + n as int) =~= bytes@.skip(start + n as int));
            let here = parsed(rest);
            let behind = parsed(rest.skip(HEADER_LEN + n as int));
            assert(here.len() == behind.len() + 1);
            assert(here[0] == all[k]);
            assert(all.skip(k + 1) =~= here.skip(1));
            assert(here.skip(1) =~= behind);
        }
        pos = start + n as usize;
    }
    out
}

fn read_u32(bytes: &Vec<u8>, at: usize) -> (r: u32)
    requires
        at + 4 <= bytes.len(),
    ensures
        r == ipc::from_little_endian(bytes@.skip(at as int)),
{
    bytes[at] as u32 + bytes[at + 1] as u32 * 256 + bytes[at + 2] as u32 * 65536 + bytes[at
        + 3] as u32 * 16777216
}

/// The record can be written: its timestamp and the length of its line fit the format.
pub open spec fn is_writable(r: RecordModel) -> bool {
    r.elapsed <= u64::MAX && r.line.len() <= u32::MAX
}

#[verifier::rlimit(80)]
#[verifier::spinoff_prover]
proof fn lemma_record_header(r: RecordModel, rest: Seq<u8>)
    requires
        is_writable(r),
    ensures
        record_bytes(r).len() == HEADER_LEN + r.line.len(),
        ({
            let all = record_bytes(r) + rest;
            &&& from_little_endian_8(all) == r.elapsed
            &&& all[8] == r.stream_tag
            &&& ipc::from_little_endian(all.skip(9)) == r.line.len()
            &&& all.subrange(HEADER_LEN as int, HEADER_LEN + r.line.len()) == r.line
            &&& all.skip(HEADER_LEN + r.line.len()) == rest
        }),
{
    let all = record_bytes(r) + rest;
    let low = r.elapsed % 0x1_0000_0000;
    let high = r.elapsed / 0x1_0000_0000;
    ipc::little_endian_reads_back(low);
    ipc::little_endian_reads_back(high);
    ipc::little_endian_reads_back(r.line.len());
    let (a, b, c) = (
        ipc::little_endian(low),
        ipc::little_endian(high),
        ipc::little_endian(r.line.len()),
    );
    assert(forall|i: int| 0 <= i < 4 ==> all[i] == a[i]);
    assert(forall|i: int| 0 <= i < 4 ==> all.skip(4)[i] == b[i]);
    assert(forall|i: int| 0 <= i < 4 ==> all.skip(9)[i] == c[i]);
    assert(all.subrange(HEADER_LEN as int, HEADER_LEN + r.line.len()) =~= r.line);
    assert(all.skip(HEADER_LEN + r.line.len()) =~= rest);
}

proof fn lemma_parse_one(r: RecordModel, rest: Seq<u8>)
    requires
        is_writable(r),
    ensures
        parsed(record_bytes(r) + rest) == seq![r] + parsed(rest),
{
    lemma_record_header(r, rest);
    let all = record_bytes(r) + rest;
    assert(all.len() - HEADER_LEN >= r.line.len());
}

proof fn lemma_regroup<A>(a: Seq<A>, b: Seq<A>, c: Seq<A>)
    ensures
        (a + b) + c == a + (b + c),
{
    assert((a + b) + c =~= a + (b + c));
}

/// What was spilled reads back in order, and what is behind it is read as if it stood alone.
pub proof fn spilled_records_read_back(records: Seq<RecordModel>, tail: Seq<u8>)
    requires
        forall|i: int| 0 <= i < records.len() ==> is_writable(#[trigger] records[i]),
    ensures
        parsed(spilled(records) + tail) == records + parsed(tail),
    decreases records.len(),
{
    if records.len() == 0 {
        assert(spilled(records) + tail =~= tail);
        assert(records + parsed(tail) =~= parsed(tail));
    } else {
        let r = records[0];
        let others = records.skip(1);
        assert forall|i: int| 0 <= i < others.len() implies is_writable(#[trigger] others[i]) by {
            assert(others[i] == records[i + 1]);
        }
        spilled_records_read_back(others, tail);
        let rest = spilled(others) + tail;
        lemma_regroup(record_bytes(r), spilled(others), tail);
        lemma_parse_one(r, rest);
        lemma_regroup(seq![r], others, parsed(tail));
        assert(seq![r] + others =~= records);
    }
}

/// A record that is cut off anywhere is dropped, and nothing else is made of it.
pub proof fn cut_off_record_is_dropped(r: RecordModel, n: int)
    requires
        is_writable(r),
        0 <= n < record_bytes(r).len(),
    ensures
        parsed(record_bytes(r).take(n)) == Seq::<RecordModel>::empty(),
{
    let cut = record_bytes(r).take(n);
    lemma_record_header(r, Seq::empty());
    let whole = record_bytes(r) + Seq::<u8>::empty();
    assert(whole =~= record_bytes(r));
    if n >= HEADER_LEN {
        assert(forall|i: int| 0 <= i < 4 ==> cut.skip(9)[i] == whole.skip(9)[i]);
        assert(ipc::from_little_endian(cut.skip(9)) == r.line.len());
    }
    assert(parsed(cut) =~= Seq::empty());
}

/// The time during which a test ran, in nanoseconds since the capture was installed: from `start`
/// up to, but not at, `end`.
#[derive(Debug, Clone, Copy, PartialEq, Eq, Structural)]
pub struct HostWindow {
    pub start: u64,
    pub end: u64,
}

impl HostWindow {
    pub open spec fn spec_contains(self, t: u64) -> bool {
        self.start <= t < self.end
    }

    /// The window between two readings of the clock, or none if no capture is installed. A
    /// reading from before the capture was installed counts as its start.
    pub fn from_instants(epoch: Option<u64>, start: u64, end: u64) -> (r: Option<Self>)
        ensures
            match epoch {
                Some(epoch) => r == Some(
                    HostWindow {
                        start: if start >= epoch {
                            (start - epoch) as u64
                        } else {
                            0
                        },
                        end: if end >= epoch {
                            (end - epoch) as u64
                        } else {
                            0
                        },
                    },
                ),
                None => r is None,
            },
    {
        match epoch {
            Some(epoch) => Some(
                HostWindow {
                    start: if start >= epoch {
                        start - epoch
                    } else {
                        0
                    },
                    end: if end >= epoch {
                        end - epoch
                    } else {
                        0
                    },
                },
            ),
            None => None,
        }
    }

    pub fn contains(&self, t: u64) -> (r: bool)
        ensures
            r == self.spec_contains(t),
    {
        t >= self.start && t < self.end
    }
}

/// The captured line of a record, timestamped relative to when the capture was installed.
pub open spec fn capture_of(epoch_wall: u64, record: HostLogRecord) -> CapturedOutput {
    CapturedOutput::Host {
        timestamp: if epoch_wall + record.elapsed <= u64::MAX {
            (epoch_wall + record.elapsed) as u64
        } else {
            epoch_wall
        },
        line: record.line,
    }
}

/// The captured line of a record. `epoch_wall` is the wall clock time at which the capture was
/// installed.
pub fn record_to_capture(epoch_wall: u64, record: &HostLogRecord) -> (r: CapturedOutput)
    ensures
        r == capture_of(epoch_wall, *record),
{
    let timestamp: u64 = match epoch_wall.checked_add(record.elapsed) {
        Some(t) => t,
        None => epoch_wall,
    };
    CapturedOutput::host(timestamp, record.line.clone())
}

/// The captured lines of the records in a window.
pub open spec fn captures_in(
    epoch_wall: u64,
    records: Seq<HostLogRecord>,
    window: HostWindow,
) -> Seq<CapturedOutput> {
    records.filter(|r: HostLogRecord| window.spec_contains(r.elapsed)).map_values(
        |r: HostLogRecord| capture_of(epoch_wall, r),
    )
}

/// What was captured of each test, with the records of one more window added to its test. The
/// lines of a test to which some are added are sorted by their timestamps.
pub open spec fn with_window(
    epoch_wall: u64,
    records: Seq<HostLogRecord>,
    window: (usize, HostWindow),
    captured: Seq<Seq<CapturedOutput>>,
) -> Seq<Seq<CapturedOutput>> {
    let added = captures_in(epoch_wall, records, window.1);
    let i = window.0 as int;
    if added.len() > 0 && i < captured.len() {
        captured.update(i, results::time_sorted(captured[i] + added))
    } else {
        captured
    }
}

/// What was captured of each test, with the records of all windows added to their tests.
pub open spec fn with_windows(
    epoch_wall: u64,
    records: Seq<HostLogRecord>,
    windows: Seq<(usize, HostWindow)>,
    captured: Seq<Seq<CapturedOutput>>,
) -> Seq<Seq<CapturedOutput>>
    decreases windows.len(),
{
    if windows.len() == 0 {
        captured
    } else {
        with_window(
            epoch_wall,
            records,
            windows.last(),
            with_windows(epoch_wall, records, windows.drop_last(), captured),
        )
    }
}

/// What was captured of each of the tests.
pub open spec fn captured_of(results: Seq<(RegisteredTest, TestResult)>) -> Seq<
    Seq<CapturedOutput>,
> {
    Seq::new(results.len(), |i: int| results[i].1@.captured)
}

/// The captured lines of the records in a window.
fn collect_captures(epoch_wall: u64, records: &Vec<HostLogRecord>, window: HostWindow) -> (r: Vec<
    CapturedOutput,
>)
    ensures
        r@ == captures_in(epoch_wall, records@, window),
{
    let mut r: Vec<CapturedOutput> = Vec::new();
    let mut i: usize = 0;
    proof {
        reveal(Seq::filter);
        assert(r@ =~= captures_in(epoch_wall, records@.take(0), window));
    }
    while i < records.len()
        invariant
            i <= records.len(),
            r@ == captures_in(epoch_wall, records@.take(i as int), window),
        decreases records.len() - i,
    {
        proof {
            reveal(Seq::filter);
            assert(records@.take(i + 1).drop_last() =~= records@.take(i as int));
        }
        if window.contains(records[i].elapsed) {
            r.push(record_to_capture(epoch_wall, &records[i]));
        }
        assert(r@ =~= captures_in(epoch_wall, records@.take(i + 1), window));
        i = i + 1;
    }
    assert(records@.take(i as int) =~= records@);
    r
}

/// Adds host output to what was captured of the tests: each record goes to every test in whose
/// window it falls, and a record that falls in none is dropped. Each window comes with the
/// position of its test in `results`.
pub fn attribute_records_to_tests(
    epoch_wall: u64,
    records: &Vec<HostLogRecord>,
    windows: &Vec<(usize, HostWindow)>,
    results: &mut Vec<(RegisteredTest, TestResult)>,
)
    ensures
        final(results)@.len() == old(results)@.len(),
        forall|i: int|
            0 <= i < old(results)@.len() ==> (#[trigger] final(results)@[i]).0 == old(
                results,
            )@[i].0 && final(results)@[i].1@.outcome == old(results)@[i].1@.outcome,
        captured_of(final(results)@) == with_windows(
            epoch_wall,
            records@,
            windows@,
            captured_of(old(results)@),
        ),
{
    let ghost before = results@;
    let ghost start = captured_of(results@);
    let mut k: usize = 0;
    while k < windows.len()
        invariant
            k <= windows.len(),
            results@.len() == before.len(),
            forall|i: int|
                0 <= i < before.len() ==> (#[trigger] results@[i]).0 == before[i].0
                    && results@[i].1@.outcome == before[i].1@.outcome,
            captured_of(results@) == with_windows(
                epoch_wall,
                records@,
                windows@.take(k as int),
                start,
            ),
        decreases windows.len() - k,
    {
        assert(windows@.take(k + 1).drop_last() =~= windows@.take(k as int));
        let (test_idx, window) = windows[k];
        let mut additions = collect_captures(epoch_wall, records, window);
        let ghost added = additions@;
        if !additions.is_empty() && test_idx < results.len() {
            let ghost at_start = results@;
            let mut merged = copy_captured(results[test_idx].1.captured_output());
            merged.append(&mut additions);
            let sorted = sort_by_time(&merged);
            let ghost shown = sorted@;
            results[test_idx].1.set_captured_output(sorted);
            proof {
                assert(results@ =~= at_start.update(test_idx as int, results@[test_idx as int]));
                assert(captured_of(results@) =~= captured_of(at_start).update(
                    test_idx as int,
                    shown,
                ));
            }
        }
        k = k + 1;
    }
    assert(windows@.take(k as int) =~= windows@);
}

/// A record reaches every test in whose window it falls, also where windows overlap.
pub proof fn record_reaches_every_window(
    epoch_wall: u64,
    records: Seq<HostLogRecord>,
    windows: Seq<(usize, HostWindow)>,
    captured: Seq<Seq<CapturedOutput>>,
    r: int,
    w: int,
)
    requires
        0 <= r < records.len(),
        0 <= w < windows.len(),
        windows[w].0 < captured.len(),
        windows[w].1.spec_contains(records[r].elapsed),
    ensures
        with_windows(epoch_wall, records, windows, captured)[windows[w].0 as int].contains(
            capture_of(epoch_wall, records[r]),
        ),
    decreases windows.len(),
{
    let c = capture_of(epoch_wall, records[r]);
    let i = windows[w].0 as int;
    let init = windows.drop_last();
    let mid = with_windows(epoch_wall, records, init, captured);
    lemma_windows_keep_tests(epoch_wall, records, init, captured);
    let last = windows.last();
    let added = captures_in(epoch_wall, records, last.1);
    if w == windows.len() - 1 {
        let p = |x: HostLogRecord| last.1.spec_contains(x.elapsed);
        records.lemma_filter_contains(p, r);
        let kept = records.filter(p);
        let k = kept.index_of(records[r]);
        assert(added[k] == c);
        assert((mid[i] + added)[mid[i].len() + k] == c);
        assert((mid[i] + added).contains(c));
        results::sorting_keeps_lines(mid[i] + added, c);
    } else {
        assert(init[w] == windows[w]);
        record_reaches_every_window(epoch_wall, records, init, captured, r, w);
        if last.0 == i && added.len() > 0 {
            let k = mid[i].index_of(c);
            assert((mid[i] + added)[k] == c);
            assert((mid[i] + added).contains(c));
            results::sorting_keeps_lines(mid[i] + added, c);
        }
    }
}

proof fn lemma_windows_keep_tests(
    epoch_wall: u64,
    records: Seq<HostLogRecord>,
    windows: Seq<(usize, HostWindow)>,
    captured: Seq<Seq<CapturedOutput>>,
)
    ensures
        with_windows(epoch_wall, records, windows, captured).len() == captured.len(),
    decreases windows.len(),
{
    if windows.len() > 0 {
        lemma_windows_keep_tests(epoch_wall, records, windows.drop_last(), captured);
    }
}

/// Whether the parent's own output is to be captured: it is where worker processes run the tests
/// and their output is captured, and never in a worker.
pub fn should_install(args: &Arguments) -> (r: bool)
    ensures
        r == (args.ipc is None && !args.nocapture && args.spawn_workers),
{
    args.ipc.is_none() && !args.nocapture && args.spawn_workers
}

} // verus!
