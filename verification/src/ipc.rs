//! The protocol between the primary test runner and its worker processes: framing, messages, and
//! the form in which results travel.
use crate::results;
use crate::results::{
    sort_by_time, CapturedOutput, FailureCause, Outcome, Summary, TestResult,
};
use vstd::prelude::*;

verus! {

/// Length-prefix width used to frame all messages.
pub const FRAME_LEN_BYTES: usize = 4;

/// Why a frame cannot be written or read.
#[derive(Debug, Clone, Copy, PartialEq, Eq, Structural)]
pub enum FrameError {
    /// The payload is longer than the length prefix can say
    PayloadTooLarge,
    /// The input ends before the frame does
    UnexpectedEof,
}

impl FrameError {
    pub open spec fn spec_message(self) -> Seq<char> {
        match self {
            FrameError::PayloadTooLarge => "IPC payload size exceeds u32::MAX"@,
            FrameError::UnexpectedEof => "failed to fill whole buffer"@,
        }
    }

    pub fn message(&self) -> (r: String)
        ensures
            r@ == self.spec_message(),
    {
        match self {
            FrameError::PayloadTooLarge => "IPC payload size exceeds u32::MAX".to_owned(),
            FrameError::UnexpectedEof => "failed to fill whole buffer".to_owned(),
        }
    }
}

/// The four bytes of `n`, least significant first.
pub open spec fn little_endian(n: nat) -> Seq<u8> {
    seq![
        (n % 256) as u8,
        (n / 256 % 256) as u8,
        (n / 65536 % 256) as u8,
        (n / 16777216 % 256) as u8,
    ]
}

/// The number that four bytes stand for, least significant first.
pub open spec fn from_little_endian(b: Seq<u8>) -> nat {
    (b[0] + b[1] * 256 + b[2] * 65536 + b[3] * 16777216) as nat
}

/// The four bytes of a number stand for the number.
pub proof fn little_endian_reads_back(n: nat)
    requires
        n <= u32::MAX,
    ensures
        from_little_endian(little_endian(n)) == n,
{
    let b = little_endian(n);
    assert(b[0] as nat == n % 256);
    assert(b[1] as nat == n / 256 % 256);
    assert(b[2] as nat == n / 65536 % 256);
    assert(b[3] as nat == n / 16777216 % 256);
    assert(n / 65536 == n / 256 / 256) by (nonlinear_arith);
    assert(n / 16777216 == n / 65536 / 256) by (nonlinear_arith);
    assert(n / 16777216 < 256);
}

/// The frame of a payload: its length, then the payload.
pub open spec fn frame(payload: Seq<u8>) -> Seq<u8> {
    little_endian(payload.len()) + payload
}

/// Appends the length-prefixed frame of the payload.
pub fn write_frame(writer: &mut Vec<u8>, payload: &[u8]) -> (r: Result<(), FrameError>)
    ensures
        match r {
            Ok(_) => payload@.len() <= u32::MAX && final(writer)@ == old(writer)@ + frame(
                payload@,
            ),
            Err(e) => payload@.len() > u32::MAX && e == FrameError::PayloadTooLarge
                && final(writer)@ == old(writer)@,
        },
{
    let ghost before = writer@;
    let len: usize = payload.len();
    if len > 0xffff_ffff {
        return Err(FrameError::PayloadTooLarge);
    }
    let n: u64 = len as u64;
    writer.push((n % 256) as u8);
    writer.push((n / 256 % 256) as u8);
    writer.push((n / 65536 % 256) as u8);
    writer.push((n / 16777216 % 256) as u8);
    assert(writer@ =~= before + little_endian(payload@.len()));
    let ghost prefixed = writer@;
    let mut i: usize = 0;
    while i < payload.len()
        invariant
            i <= payload@.len(),
            writer@ == prefixed + payload@.take(i as int),
        decreases payload@.len() - i,
    {
        writer.push(payload[i]);
        assert(writer@ =~= prefixed + payload@.take(i + 1));
        i = i + 1;
    }
    assert(payload@.take(i as int) =~= payload@);
    assert(writer@ =~= before + frame(payload@));
    Ok(())
}

/// The length of the payload that a frame with this prefix announces.
pub fn payload_len(prefix: &[u8]) -> (r: u32)
    requires
        prefix@.len() == FRAME_LEN_BYTES,
    ensures
        r == from_little_endian(prefix@),
{
    prefix[0] as u32 + prefix[1] as u32 * 256 + prefix[2] as u32 * 65536 + prefix[3] as u32
        * 16777216
}

/// Bytes that are read from front to back.
#[derive(Debug)]
pub struct FrameReader {
    pub bytes: Vec<u8>,
    pub position: usize,
}

impl FrameReader {
    /// What has not been read yet.
    pub open spec fn rest(self) -> Seq<u8> {
        self.bytes@.skip(self.position as int)
    }

    pub open spec fn wf(self) -> bool {
        self.position <= self.bytes@.len()
    }

    pub fn new(bytes: Vec<u8>) -> (r: Self)
        ensures
            r.wf(),
            r.rest() == bytes@,
    {
        let r = FrameReader { bytes, position: 0 };
        assert(r.rest() =~= bytes@);
        r
    }

    /// Reads exactly `n` bytes, or nothing if there are fewer.
    fn read_exact(&mut self, n: usize) -> (r: Result<Vec<u8>, FrameError>)
        requires
            old(self).wf(),
        ensures
            final(self).wf(),
            match r {
                Ok(read) => read@.len() == n && old(self).rest() == read@ + final(self).rest(),
                Err(e) => e == FrameError::UnexpectedEof && old(self).rest().len() < n
                    && *final(self) == *old(self),
            },
    {
        let ghost before = *self;
        if self.bytes.len() - self.position < n {
            return Err(FrameError::UnexpectedEof);
        }
        let start = self.position;
        let mut read: Vec<u8> = Vec::new();
        let mut i: usize = 0;
        while i < n
            invariant
                *self == before,
                start == self.position,
                start + n <= self.bytes.len(),
                i <= n,
                read@ == self.bytes@.subrange(start as int, start + i),
            decreases n - i,
        {
            read.push(self.bytes[start + i]);
            assert(read@ =~= self.bytes@.subrange(start as int, start + i + 1));
            i = i + 1;
        }
        self.position = start + n;
        assert(before.rest() =~= read@ + self.rest());
        Ok(read)
    }
}

/// Reads a length-prefixed frame produced by [`write_frame`]. Fails if the input ends before the
/// frame does, in which case at most the prefix has been read.
pub fn read_frame(reader: &mut FrameReader) -> (r: Result<Vec<u8>, FrameError>)
    requires
        old(reader).wf(),
    ensures
        final(reader).wf(),
        match r {
            Ok(payload) => {
                &&& old(reader).rest().len() >= FRAME_LEN_BYTES
                &&& payload@.len() == from_little_endian(old(reader).rest())
                &&& old(reader).rest() == old(reader).rest().take(FRAME_LEN_BYTES as int)
                    + payload@ + final(reader).rest()
            },
            Err(e) => {
                &&& e == FrameError::UnexpectedEof
                &&& old(reader).rest().len() < FRAME_LEN_BYTES || old(reader).rest().len()
                    - FRAME_LEN_BYTES < from_little_endian(old(reader).rest())
            },
        },
{
    let ghost all = reader.rest();
    let prefix = match reader.read_exact(FRAME_LEN_BYTES) {
        Ok(prefix) => prefix,
        Err(e) => {
            return Err(e);
        },
    };
    let ghost behind = reader.rest();
    assert(all == prefix@ + behind);
    assert(all.take(FRAME_LEN_BYTES as int) =~= prefix@);
    assert(from_little_endian(all) == from_little_endian(prefix@));
    let len = payload_len(prefix.as_slice());
    let payload = match reader.read_exact(len as usize) {
        Ok(payload) => payload,
        Err(e) => {
            return Err(e);
        },
    };
    assert(all =~= prefix@ + payload@ + reader.rest());
    Ok(payload)
}

/// A frame that was written reads back as its payload, and what follows it is left to be read.
pub proof fn written_frame_reads_back(payload: Seq<u8>, rest: Seq<u8>)
    requires
        payload.len() <= u32::MAX,
    ensures
        (frame(payload) + rest).len() >= FRAME_LEN_BYTES,
        from_little_endian(frame(payload) + rest) == payload.len(),
        (frame(payload) + rest).len() - FRAME_LEN_BYTES >= payload.len(),
        forall|read: Seq<u8>, left: Seq<u8>|
            read.len() == payload.len() && frame(payload) + rest == (frame(payload) + rest).take(
                FRAME_LEN_BYTES as int,
            ) + read + left ==> #[trigger] (read + left) == payload + rest && read == payload
                && left == rest,
{
    let all = frame(payload) + rest;
    let prefix = little_endian(payload.len());
    little_endian_reads_back(payload.len());
    assert(all.take(FRAME_LEN_BYTES as int) =~= prefix);
    assert(all[0] == prefix[0] && all[1] == prefix[1] && all[2] == prefix[2] && all[3]
        == prefix[3]);
    assert forall|read: Seq<u8>, left: Seq<u8>| read.len() == payload.len() && all == all.take(
        FRAME_LEN_BYTES as int,
    ) + read + left implies #[trigger] (read + left) == payload + rest && read == payload && left
        == rest by {
        assert(all.skip(4) =~= read + left);
        assert(all.skip(4) =~= payload + rest);
        assert(read =~= all.skip(4).take(payload.len() as int));
        assert(payload =~= all.skip(4).take(payload.len() as int));
        assert(left =~= all.skip(4).skip(payload.len() as int));
        assert(rest =~= all.skip(4).skip(payload.len() as int));
    }
}

/// Commands sent from the primary test runner to a worker process.
#[derive(Debug)]
pub enum IpcCommand {
    RunTest { name: String, crate_name: String, module: String },
    /// The wire bytes of a `Cloneable` dependency, under its fully qualified identifier
    ProvideCloneable { dep_id: String, wire_bytes: Vec<u8> },
    /// The descriptor bytes of a `Hosted` dependency, under its fully qualified identifier
    ProvideHostedDescriptor { dep_id: String, wire_bytes: Vec<u8> },
    /// The answer to [`IpcResponse::HostedRpcCall`] with the same request id
    HostedRpcReply { request_id: u64, body: HostedRpcReplyBody },
}

/// The value that the owner's method returned, or why the call failed.
#[derive(Debug)]
pub enum HostedRpcReplyBody {
    Returned { result_bytes: Vec<u8> },
    Failed { message: String },
}

/// The form in which a result travels: what was captured stays behind, and a failure is reduced to
/// its rendering.
#[derive(Debug)]
pub enum SerializableTestResult {
    Passed { exec_time: u64 },
    Benchmarked { exec_time: u64, ns_iter_summ: Summary, mb_s: usize },
    Failed { exec_time: u64, rendered_failure_cause: String },
    Ignored,
}

/// Responses sent from a worker process to the primary test runner.
#[derive(Debug)]
pub enum IpcResponse {
    TestFinished { result: SerializableTestResult, finish_marker: String },
    /// Acknowledges [`IpcCommand::ProvideCloneable`]
    CloneableAccepted { dep_id: String },
    /// Acknowledges [`IpcCommand::ProvideHostedDescriptor`]
    HostedDescriptorAccepted { dep_id: String },
    /// Calls a method of the owner of a `HostedRpc` dependency, which the parent holds
    HostedRpcCall { request_id: u64, dep_id: String, method_idx: u32, args_bytes: Vec<u8> },
}

/// `sent` is the form in which the outcome travels.
pub open spec fn is_sent_form(outcome: Outcome, sent: SerializableTestResult) -> bool {
    match outcome {
        Outcome::Passed { exec_time } => sent == (SerializableTestResult::Passed { exec_time }),
        Outcome::Benchmarked { exec_time, ns_iter_summ, mb_s } => sent == (
        SerializableTestResult::Benchmarked { exec_time, ns_iter_summ, mb_s }),
        Outcome::Failed { cause, exec_time } => {
            &&& sent matches SerializableTestResult::Failed {
                exec_time: sent_time,
                rendered_failure_cause,
            }
            &&& sent_time == exec_time
            &&& rendered_failure_cause@ == cause.rendered()
        },
        Outcome::Ignored => sent is Ignored,
    }
}

impl SerializableTestResult {
    /// The outcome that this stands for on the receiving side.
    pub open spec fn received(self) -> Outcome {
        match self {
            SerializableTestResult::Passed { exec_time } => Outcome::Passed { exec_time },
            SerializableTestResult::Benchmarked { exec_time, ns_iter_summ, mb_s } => {
                Outcome::Benchmarked { exec_time, ns_iter_summ, mb_s }
            },
            SerializableTestResult::Failed { exec_time, rendered_failure_cause } => {
                Outcome::Failed {
                    cause: FailureCause::HarnessError(rendered_failure_cause),
                    exec_time,
                }
            },
            SerializableTestResult::Ignored => Outcome::Ignored,
        }
    }

    /// The form in which the result travels.
    pub fn from_result(result: &TestResult) -> (r: Self)
        ensures
            is_sent_form(result@.outcome, r),
    {
        match result {
            TestResult::Passed { exec_time, .. } => SerializableTestResult::Passed {
                exec_time: *exec_time,
            },
            TestResult::Benchmarked { exec_time, ns_iter_summ, mb_s, .. } => {
                SerializableTestResult::Benchmarked {
                    exec_time: *exec_time,
                    ns_iter_summ: ns_iter_summ.clone(),
                    mb_s: *mb_s,
                }
            },
            TestResult::Failed { exec_time, cause, .. } => SerializableTestResult::Failed {
                exec_time: *exec_time,
                rendered_failure_cause: cause.render(),
            },
            TestResult::Ignored { .. } => SerializableTestResult::Ignored,
        }
    }

    /// The result on the receiving side, with nothing captured.
    pub fn into_result(self) -> (r: TestResult)
        ensures
            r@ == self.received().silent(),
    {
        match self {
            SerializableTestResult::Passed { exec_time } => TestResult::passed(exec_time),
            SerializableTestResult::Failed { exec_time, rendered_failure_cause } => {
                TestResult::failed(exec_time, FailureCause::HarnessError(rendered_failure_cause))
            },
            SerializableTestResult::Ignored => TestResult::ignored(),
            SerializableTestResult::Benchmarked { exec_time, ns_iter_summ, mb_s } => {
                TestResult::benchmarked(exec_time, ns_iter_summ, mb_s)
            },
        }
    }

    /// The result on the receiving side, with the lines that were captured there in the order of
    /// their timestamps.
    pub fn into_test_result(self, stdout: Vec<CapturedOutput>, stderr: Vec<CapturedOutput>) -> (r:
        TestResult)
        ensures
            r@.outcome == self.received(),
            r@.captured == results::time_sorted(stdout@ + stderr@),
    {
        let mut captured = stdout;
        let mut stderr = stderr;
        captured.append(&mut stderr);
        let sorted = sort_by_time(&captured);
        let mut result = self.into_result();
        result.set_captured_output(sorted);
        result
    }
}

/// A result that traveled is of the same kind, took the same time, and shows the same failure.
pub proof fn sent_result_shows_the_same(outcome: Outcome, sent: SerializableTestResult)
    requires
        is_sent_form(outcome, sent),
    ensures
        match (outcome, sent.received()) {
            (Outcome::Passed { exec_time: a }, Outcome::Passed { exec_time: b }) => a == b,
            (
                Outcome::Benchmarked { exec_time: a, ns_iter_summ: x, mb_s: m },
                Outcome::Benchmarked { exec_time: b, ns_iter_summ: y, mb_s: n },
            ) => a == b && x == y && m == n,
            (
                Outcome::Failed { cause: x, exec_time: a },
                Outcome::Failed { cause: y, exec_time: b },
            ) => a == b && x.rendered() == y.rendered(),
            (Outcome::Ignored, Outcome::Ignored) => true,
            _ => false,
        },
{
}

} // verus!
