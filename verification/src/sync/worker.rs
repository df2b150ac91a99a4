//! The two ends of the connection between the parent process and a worker.
use crate::hosted;
use crate::hosted::{
    find_cell, DispatchRoute, HostedRpcDispatcher, HostedRpcError, HostedRpcOwnerCell,
};
use crate::internal::RegisteredTest;
use crate::ipc::{HostedRpcReplyBody, IpcCommand, IpcResponse, SerializableTestResult};
use crate::results;
use crate::results::{sort_by_time, CapturedOutput, TestResult};
use crate::text;
use crate::text::{concat, decimal_u64, str_eq};
use std::collections::VecDeque;
use vstd::prelude::*;

verus! {

/// A remote call that a worker makes.
#[derive(Debug)]
pub struct RpcCall {
    pub request_id: u64,
    pub dep_id: String,
    pub method_idx: u32,
    pub args_bytes: Vec<u8>,
}

/// What the parent does about a response that it receives while it waits for a test to finish.
#[derive(Debug)]
pub enum RunStep {
    /// The test has finished
    Finished { result: SerializableTestResult, finish_marker: String },
    /// Answer the call and go on waiting
    Answer(RpcCall),
    /// Go on waiting
    Wait,
}

/// What the parent does about a response that it receives while it waits for a value to be
/// accepted.
#[derive(Debug)]
pub enum ProvideStep {
    Accepted,
    /// Answer the call and go on waiting
    Answer(RpcCall),
    /// Go on waiting
    Wait,
}

/// What the parent does about this response while a test runs in the worker.
pub open spec fn run_step(response: IpcResponse) -> RunStep {
    match response {
        IpcResponse::TestFinished { result, finish_marker } => RunStep::Finished {
            result,
            finish_marker,
        },
        IpcResponse::CloneableAccepted { .. } => RunStep::Wait,
        IpcResponse::HostedDescriptorAccepted { .. } => RunStep::Wait,
        IpcResponse::HostedRpcCall { request_id, dep_id, method_idx, args_bytes } => {
            RunStep::Answer(RpcCall { request_id, dep_id, method_idx, args_bytes })
        },
    }
}

/// What the parent does about this response while the worker takes a `Cloneable` value.
pub open spec fn cloneable_step(dep_id: Seq<char>, response: IpcResponse) -> ProvideStep {
    match response {
        IpcResponse::CloneableAccepted { dep_id: accepted } => if accepted@ == dep_id {
            ProvideStep::Accepted
        } else {
            ProvideStep::Wait
        },
        IpcResponse::HostedDescriptorAccepted { .. } => ProvideStep::Wait,
        IpcResponse::TestFinished { .. } => ProvideStep::Wait,
        IpcResponse::HostedRpcCall { request_id, dep_id: called, method_idx, args_bytes } => {
            ProvideStep::Answer(RpcCall { request_id, dep_id: called, method_idx, args_bytes })
        },
    }
}

/// What the parent does about this response while the worker takes a descriptor.
pub open spec fn descriptor_step(dep_id: Seq<char>, response: IpcResponse) -> ProvideStep {
    match response {
        IpcResponse::HostedDescriptorAccepted { dep_id: accepted } => if accepted@ == dep_id {
            ProvideStep::Accepted
        } else {
            ProvideStep::Wait
        },
        IpcResponse::CloneableAccepted { .. } => ProvideStep::Wait,
        IpcResponse::TestFinished { .. } => ProvideStep::Wait,
        IpcResponse::HostedRpcCall { request_id, dep_id: called, method_idx, args_bytes } => {
            ProvideStep::Answer(RpcCall { request_id, dep_id: called, method_idx, args_bytes })
        },
    }
}

/// The command that makes a worker run this test.
pub fn run_test_command(test: &RegisteredTest) -> (r: IpcCommand)
    ensures
        r matches IpcCommand::RunTest { name, crate_name, module } && name == test.name
            && crate_name == test.crate_name && module == test.module,
{
    IpcCommand::RunTest {
        name: test.name.clone(),
        crate_name: test.crate_name.clone(),
        module: test.module.clone(),
    }
}

/// Decides what to do about a response while a test runs in the worker. Acknowledgements of
/// earlier commands are passed over.
pub fn on_response_while_running(response: IpcResponse) -> (r: RunStep)
    ensures
        r == run_step(response),
{
    match response {
        IpcResponse::TestFinished { result, finish_marker } => RunStep::Finished {
            result,
            finish_marker,
        },
        IpcResponse::CloneableAccepted { .. } => RunStep::Wait,
        IpcResponse::HostedDescriptorAccepted { .. } => RunStep::Wait,
        IpcResponse::HostedRpcCall { request_id, dep_id, method_idx, args_bytes } => {
            RunStep::Answer(RpcCall { request_id, dep_id, method_idx, args_bytes })
        },
    }
}

/// Decides what to do about a response while the worker takes the `Cloneable` value with this
/// identifier.
pub fn on_response_while_providing_cloneable(dep_id: &str, response: IpcResponse) -> (r:
    ProvideStep)
    ensures
        r == cloneable_step(dep_id@, response),
{
    match response {
        IpcResponse::CloneableAccepted { dep_id: accepted } => {
            if str_eq(accepted.as_str(), dep_id) {
                ProvideStep::Accepted
            } else {
                ProvideStep::Wait
            }
        },
        IpcResponse::HostedDescriptorAccepted { .. } => ProvideStep::Wait,
        IpcResponse::TestFinished { .. } => ProvideStep::Wait,
        IpcResponse::HostedRpcCall { request_id, dep_id: called, method_idx, args_bytes } => {
            ProvideStep::Answer(RpcCall { request_id, dep_id: called, method_idx, args_bytes })
        },
    }
}

/// Decides what to do about a response while the worker takes the descriptor with this identifier.
pub fn on_response_while_providing_hosted_descriptor(dep_id: &str, response: IpcResponse) -> (r:
    ProvideStep)
    ensures
        r == descriptor_step(dep_id@, response),
{
    match response {
        IpcResponse::HostedDescriptorAccepted { dep_id: accepted } => {
            if str_eq(accepted.as_str(), dep_id) {
                ProvideStep::Accepted
            } else {
                ProvideStep::Wait
            }
        },
        IpcResponse::CloneableAccepted { .. } => ProvideStep::Wait,
        IpcResponse::TestFinished { .. } => ProvideStep::Wait,
        IpcResponse::HostedRpcCall { request_id, dep_id: called, method_idx, args_bytes } => {
            ProvideStep::Answer(RpcCall { request_id, dep_id: called, method_idx, args_bytes })
        },
    }
}

/// Whether the output of this test is captured.
pub fn captures_output(nocapture: bool, test: &RegisteredTest) -> (r: bool)
    ensures
        r == test.props.capture_control.spec_requires_capturing(!nocapture),
{
    test.props.capture_control.requires_capturing(!nocapture)
}

/// The result of a test that ran in a worker: with the lines that were captured of it in the order
/// of their timestamps if its output is captured, else with none.
pub fn worker_test_result(
    nocapture: bool,
    test: &RegisteredTest,
    result: SerializableTestResult,
    out_lines: Vec<CapturedOutput>,
    err_lines: Vec<CapturedOutput>,
) -> (r: TestResult)
    ensures
        r@.outcome == result.received(),
        r@.captured == (if test.props.capture_control.spec_requires_capturing(!nocapture) {
            results::time_sorted(out_lines@ + err_lines@)
        } else {
            Seq::empty()
        }),
{
    if captures_output(nocapture, test) {
        result.into_test_result(out_lines, err_lines)
    } else {
        let r = result.into_test_result(Vec::new(), Vec::new());
        assert(Seq::<CapturedOutput>::empty() + Seq::<CapturedOutput>::empty()
            =~= Seq::<CapturedOutput>::empty());
        r
    }
}

/// The index of the first line that is the marker, or the number of lines.
pub open spec fn marker_index(lines: Seq<CapturedOutput>, marker: Seq<char>) -> int
    decreases lines.len(),
{
    if lines.len() == 0 || lines[0].spec_line() == marker {
        0
    } else {
        1 + marker_index(lines.skip(1), marker)
    }
}

proof fn lemma_marker_index(lines: Seq<CapturedOutput>, marker: Seq<char>, i: int)
    requires
        0 <= i <= lines.len(),
        forall|k: int| 0 <= k < i ==> (#[trigger] lines[k]).spec_line() != marker,
        i == lines.len() || lines[i].spec_line() == marker,
    ensures
        marker_index(lines, marker) == i,
    decreases i,
{
    if i > 0 {
        assert(lines[0].spec_line() != marker);
        let rest = lines.skip(1);
        assert forall|k: int| 0 <= k < i - 1 implies (#[trigger] rest[k]).spec_line() != marker by {
            assert(rest[k] == lines[k + 1]);
        }
        if i < lines.len() {
            assert(rest[i - 1] == lines[i]);
        }
        lemma_marker_index(rest, marker, i - 1);
    }
}

/// Moves the lines before the marker from the front of `source` to the end of `drained`, and the
/// marker away. Says whether the marker was there; where it was not, all lines are moved, and more
/// have to come.
pub fn drain_until(
    source: &mut VecDeque<CapturedOutput>,
    finish_marker: &str,
    drained: &mut Vec<CapturedOutput>,
) -> (found: bool)
    ensures
        ({
            let n = marker_index(old(source)@, finish_marker@);
            &&& 0 <= n <= old(source)@.len()
            &&& found == (n < old(source)@.len())
            &&& final(drained)@ == old(drained)@ + old(source)@.take(n)
            &&& final(source)@ == (if found {
                old(source)@.skip(n + 1)
            } else {
                Seq::empty()
            })
        }),
{
    let ghost all = source@;
    let ghost start = drained@;
    let ghost mut n: int = 0;
    assert(all.skip(0) =~= all);
    assert(start + all.take(0) =~= start);
    loop
        invariant
            0 <= n <= all.len(),
            source@ == all.skip(n),
            drained@ == start + all.take(n),
            forall|k: int| 0 <= k < n ==> (#[trigger] all[k]).spec_line() != finish_marker@,
            all == old(source)@,
            start == old(drained)@,
        decreases source@.len(),
    {
        match source.pop_front() {
            Some(line) => {
                proof {
                    assert(line == all[n]);
                    assert(source@ =~= all.skip(n + 1));
                }
                if str_eq(line.line(), finish_marker) {
                    proof {
                        lemma_marker_index(all, finish_marker@, n);
                    }
                    return true;
                } else {
                    drained.push(line);
                    proof {
                        n = n + 1;
                        assert(drained@ =~= start + all.take(n));
                    }
                }
            },
            None => {
                proof {
                    lemma_marker_index(all, finish_marker@, n);
                    assert(source@ =~= Seq::empty());
                }
                return false;
            },
        }
    }
}

/// Lines that arrive while the parent waits for the marker are drained as if they had been there
/// from the start.
pub proof fn draining_twice_drains_all(
    first: Seq<CapturedOutput>,
    second: Seq<CapturedOutput>,
    marker: Seq<char>,
)
    requires
        marker_index(first, marker) == first.len(),
    ensures
        marker_index(first + second, marker) == first.len() + marker_index(second, marker),
        (first + second).take(marker_index(first + second, marker)) == first + second.take(
            marker_index(second, marker),
        ),
    decreases first.len(),
{
    lemma_marker_bound(second, marker);
    if first.len() == 0 {
        assert(first + second =~= second);
    } else {
        assert(first[0].spec_line() != marker);
        lemma_marker_bound(first.skip(1), marker);
        draining_twice_drains_all(first.skip(1), second, marker);
        assert((first + second).skip(1) =~= first.skip(1) + second);
        assert((first + second)[0] == first[0]);
    }
    let n = marker_index(second, marker);
    assert((first + second).take(first.len() + n) =~= first + second.take(n));
}

proof fn lemma_marker_bound(lines: Seq<CapturedOutput>, marker: Seq<char>)
    ensures
        0 <= marker_index(lines, marker) <= lines.len(),
    decreases lines.len(),
{
    if lines.len() > 0 && lines[0].spec_line() != marker {
        lemma_marker_bound(lines.skip(1), marker);
    }
}

/// What is shown of the output of a worker when the connection to it breaks: its lines in the
/// order of their timestamps.
pub fn lines_to_dump(out_lines: Vec<CapturedOutput>, err_lines: Vec<CapturedOutput>) -> (r: Vec<
    String,
>)
    ensures
        r@.len() == out_lines@.len() + err_lines@.len(),
        forall|i: int|
            0 <= i < r@.len() ==> (#[trigger] r@[i])@ == results::time_sorted(
                out_lines@ + err_lines@,
            )[i].spec_line(),
{
    let ghost all = out_lines@ + err_lines@;
    let mut out_lines = out_lines;
    let mut err_lines = err_lines;
    out_lines.append(&mut err_lines);
    let sorted = sort_by_time(&out_lines);
    proof {
        results::sorting_is_stable(all);
    }
    let mut r: Vec<String> = Vec::new();
    let mut i: usize = 0;
    while i < sorted.len()
        invariant
            i <= sorted.len(),
            r.len() == i,
            forall|k: int| 0 <= k < i ==> (#[trigger] r@[k])@ == sorted@[k].spec_line(),
        decreases sorted.len() - i,
    {
        r.push(sorted[i].line().to_owned());
        i = i + 1;
    }
    r
}

/// The name of the socket on which the parent waits for a worker.
pub fn socket_name(id: &str) -> (r: String)
    ensures
        r@ == id@ + ".sock"@,
{
    concat(id, ".sock")
}

/// `body` tells the caller what a cell answered.
pub open spec fn is_reply_body(answer: Result<Vec<u8>, String>, body: HostedRpcReplyBody) -> bool {
    match answer {
        Ok(result_bytes) => body == (HostedRpcReplyBody::Returned { result_bytes }),
        Err(message) => body == (HostedRpcReplyBody::Failed { message }),
    }
}

/// Answers a remote call of a worker: calls the owner that the parent holds.
pub fn handle_hosted_rpc_call<O: HostedRpcDispatcher>(
    cells: &mut Vec<(String, HostedRpcOwnerCell<O>)>,
    call: &RpcCall,
) -> (r: IpcCommand)
    ensures
        r matches IpcCommand::HostedRpcReply { request_id, body } && {
            &&& request_id == call.request_id
            &&& hosted::is_unknown(old(cells)@, call.dep_id@) ==> {
                &&& final(cells)@ == old(cells)@
                &&& body matches HostedRpcReplyBody::Failed { message } && message@
                    == "HostedRpc dispatch: unknown dep id '"@ + call.dep_id@
                    + "' in parent owner-cell map"@
            }
            &&& forall|i: int| #[trigger]
                hosted::is_cell_of(old(cells)@, call.dep_id@, i) ==> {
                    &&& final(cells)@ == old(cells)@.update(i, final(cells)@[i])
                    &&& final(cells)@[i].0 == old(cells)@[i].0
                    &&& exists|answer: Result<Vec<u8>, String>|
                        is_reply_body(answer, body) && #[trigger] hosted::cell_step(
                            old(cells)@[i].1,
                            DispatchRoute::Plain,
                            call.method_idx,
                            call.args_bytes@,
                            answer,
                            final(cells)@[i].1,
                        )
                }
        },
{
    let body = match find_cell(cells, call.dep_id.as_str()) {
        Some(i) => {
            let answer = cells[i].1.dispatch(call.method_idx, call.args_bytes.as_slice());
            assert(hosted::cell_step(
                old(cells)@[i as int].1,
                DispatchRoute::Plain,
                call.method_idx,
                call.args_bytes@,
                answer,
                cells@[i as int].1,
            ));
            match answer {
                Ok(result_bytes) => HostedRpcReplyBody::Returned { result_bytes },
                Err(message) => HostedRpcReplyBody::Failed { message },
            }
        },
        None => HostedRpcReplyBody::Failed {
            message: concat(
                concat("HostedRpc dispatch: unknown dep id '", call.dep_id.as_str()).as_str(),
                "' in parent owner-cell map",
            ),
        },
    };
    IpcCommand::HostedRpcReply { request_id: call.request_id, body }
}

/// The worker's end of remote calls: numbers them and reads the replies.
pub struct IpcHostedRpcTransport {
    pub next_request_id: u64,
}

/// What the caller is told of the command that followed a call with this id. `shown` is the
/// command as it is shown for debugging.
pub open spec fn is_call_result(
    request_id: u64,
    command: IpcCommand,
    shown: Seq<char>,
    r: Result<Vec<u8>, HostedRpcError>,
) -> bool {
    match command {
        IpcCommand::HostedRpcReply { request_id: reply_id, body } => if reply_id == request_id {
            match body {
                HostedRpcReplyBody::Returned { result_bytes } => r == Ok::<
                    Vec<u8>,
                    HostedRpcError,
                >(result_bytes),
                HostedRpcReplyBody::Failed { message } => r == Err::<Vec<u8>, HostedRpcError>(
                    HostedRpcError::Dispatch(message),
                ),
            }
        } else {
            r matches Err(HostedRpcError::Transport(message)) && message@
                == "HostedRpcReply request_id mismatch: expected "@ + text::decimal(
                request_id as nat,
            ) + ", got "@ + text::decimal(reply_id as nat)
        },
        _ => r matches Err(HostedRpcError::Transport(message)) && message@
            == "unexpected IpcCommand while waiting for HostedRpcReply: "@ + shown,
    }
}

impl IpcHostedRpcTransport {
    pub fn new() -> (r: Self)
        ensures
            r.next_request_id == 1,
    {
        IpcHostedRpcTransport { next_request_id: 1 }
    }

    /// The message that makes this call, under the next number.
    pub fn begin_call(&mut self, dep_id: &str, method_idx: u32, args: Vec<u8>) -> (r: IpcResponse)
        ensures
            final(self).next_request_id == (if old(self).next_request_id == u64::MAX {
                0
            } else {
                old(self).next_request_id + 1
            }),
            r matches IpcResponse::HostedRpcCall {
                request_id,
                dep_id: called,
                method_idx: method,
                args_bytes,
            } && request_id == old(self).next_request_id && called@ == dep_id@ && method
                == method_idx && args_bytes == args,
    {
        let request_id: u64 = self.next_request_id;
        self.next_request_id = request_id.wrapping_add(1);
        IpcResponse::HostedRpcCall {
            request_id,
            dep_id: dep_id.to_owned(),
            method_idx,
            args_bytes: args,
        }
    }

    /// What the caller is told of the command that followed the call with this number.
    pub fn end_call(request_id: u64, command: IpcCommand, shown: &str) -> (r: Result<
        Vec<u8>,
        HostedRpcError,
    >)
        ensures
            is_call_result(request_id, command, shown@, r),
    {
        match command {
            IpcCommand::HostedRpcReply { request_id: reply_id, body } => {
                if reply_id != request_id {
                    let expected = concat(
                        "HostedRpcReply request_id mismatch: expected ",
                        decimal_u64(request_id).as_str(),
                    );
                    return Err(
                        HostedRpcError::Transport(
                            concat(
                                concat(expected.as_str(), ", got ").as_str(),
                                decimal_u64(reply_id).as_str(),
                            ),
                        ),
                    );
                }
                match body {
                    HostedRpcReplyBody::Returned { result_bytes } => Ok(result_bytes),
                    HostedRpcReplyBody::Failed { message } => Err(
                        HostedRpcError::Dispatch(message),
                    ),
                }
            },
            _ => Err(
                HostedRpcError::Transport(
                    concat("unexpected IpcCommand while waiting for HostedRpcReply: ", shown),
                ),
            ),
        }
    }
}

/// What a remote call returns is what the cell of the owner answered.
pub proof fn answer_reaches_the_caller(
    request_id: u64,
    answer: Result<Vec<u8>, String>,
    body: HostedRpcReplyBody,
    shown: Seq<char>,
    r: Result<Vec<u8>, HostedRpcError>,
)
    requires
        is_reply_body(answer, body),
        is_call_result(request_id, IpcCommand::HostedRpcReply { request_id, body }, shown, r),
    ensures
        r == hosted::carried(answer),
{
}

} // verus!
