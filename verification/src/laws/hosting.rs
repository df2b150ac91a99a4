//! Owners that are called from elsewhere, what travels between processes, and what a parent collects.
use super::words::{holds, lemma_holds};
use crate::hosted;
use crate::hosted::{
    DispatchOutcome, HostedRpcDispatcher, HostedRpcError, HostedRpcOwnerCell,
    InProcessHostedRpcTransport, RuntimeFlavor,
};
use crate::ipc;
use crate::ipc::{FrameError, FrameReader};
use crate::panic_hook;
use crate::panic_hook::PanicHook;
use crate::results::PanicCause;
use vstd::prelude::*;

verus! {

/// The owner was called once, with these arguments: its answer is handed on, and after a panic it is not
/// to be called any more.
pub open spec fn was_called<O: HostedRpcDispatcher>(
    before: O,
    method_idx: u32,
    args: Seq<u8>,
    r: Result<Vec<u8>, String>,
    after: HostedRpcOwnerCell<O>,
) -> bool {
    exists|outcome: DispatchOutcome| #[trigger]
        O::dispatches(before, method_idx, args, outcome, after.owner) && match outcome {
            DispatchOutcome::Returned(answer) => r == answer && !after.poisoned,
            DispatchOutcome::Panicked(message) => {
                &&& after.poisoned
                &&& r matches Err(text) && (message matches Some(m) ==> holds(text@, m@))
            },
        }
}

proof fn lemma_was_called<O: HostedRpcDispatcher>(
    before: HostedRpcOwnerCell<O>,
    route: hosted::DispatchRoute,
    method_idx: u32,
    args: Seq<u8>,
    r: Result<Vec<u8>, String>,
    after: HostedRpcOwnerCell<O>,
)
    requires
        hosted::cell_step(before, route, method_idx, args, r, after),
        hosted::refusal(before.mode, before.poisoned, route) is None,
    ensures
        was_called(before.owner, method_idx, args, r, after),
        after.mode == before.mode,
{
    let outcome = choose|outcome: DispatchOutcome| #[trigger]
        O::dispatches(before.owner, method_idx, args, outcome, after.owner) && hosted::tells(
            outcome,
            r,
        ) && after.mode == before.mode && after.poisoned == outcome is Panicked;
    if let DispatchOutcome::Panicked(Some(m)) = outcome {
        let text = r->Err_0@;
        let start = "hosted rpc owner panicked: "@;
        assert(text =~= start + m@ + Seq::<char>::empty());
        lemma_holds(text, start, m@, Seq::empty());
    }
    assert(O::dispatches(before.owner, method_idx, args, outcome, after.owner));
}

/// A synchronous owner is called over every route.
pub proof fn synchronous_owner_is_called<O: HostedRpcDispatcher>(
    owner: O,
    cell: HostedRpcOwnerCell<O>,
    runtime: RuntimeFlavor,
    method_idx: u32,
    args: &[u8],
    r: Result<Vec<u8>, String>,
    after: HostedRpcOwnerCell<O>,
)
    requires
        call_ensures(HostedRpcOwnerCell::<O>::from_owner, (owner,), cell),
        exists|c: &mut HostedRpcOwnerCell<O>|
            *c == cell && *final(c) == after && (#[trigger] call_ensures(
                HostedRpcOwnerCell::<O>::dispatch,
                (c, method_idx, args),
                r,
            ) || #[trigger] call_ensures(
                HostedRpcOwnerCell::<O>::dispatch_async,
                (c, method_idx, args),
                r,
            ) || #[trigger] call_ensures(
                HostedRpcOwnerCell::<O>::dispatch_blocking,
                (c, runtime, method_idx, args),
                r,
            )),
    ensures
        was_called(owner, method_idx, args@, r, after),
{
    if hosted::cell_step(cell, hosted::DispatchRoute::Plain, method_idx, args@, r, after) {
        lemma_was_called(cell, hosted::DispatchRoute::Plain, method_idx, args@, r, after);
    } else if hosted::cell_step(
        cell,
        hosted::DispatchRoute::Awaited,
        method_idx,
        args@,
        r,
        after,
    ) {
        lemma_was_called(cell, hosted::DispatchRoute::Awaited, method_idx, args@, r, after);
    } else {
        lemma_was_called(
            cell,
            hosted::DispatchRoute::Blocking(runtime),
            method_idx,
            args@,
            r,
            after,
        );
    }
}

/// An asynchronous owner is not called from synchronous code that cannot block on a runtime with
/// several threads.
pub proof fn asynchronous_owner_needs_a_runtime<O: HostedRpcDispatcher>(
    owner: O,
    cell: HostedRpcOwnerCell<O>,
    runtime: RuntimeFlavor,
    method_idx: u32,
    args: &[u8],
    r: Result<Vec<u8>, String>,
    after: HostedRpcOwnerCell<O>,
)
    requires
        call_ensures(HostedRpcOwnerCell::<O>::from_async_owner, (owner,), cell),
        runtime != RuntimeFlavor::MultiThread,
        exists|c: &mut HostedRpcOwnerCell<O>|
            *c == cell && *final(c) == after && (#[trigger] call_ensures(
                HostedRpcOwnerCell::<O>::dispatch,
                (c, method_idx, args),
                r,
            ) || #[trigger] call_ensures(
                HostedRpcOwnerCell::<O>::dispatch_blocking,
                (c, runtime, method_idx, args),
                r,
            )),
    ensures
        r is Err,
        after == cell,
{
}

/// An asynchronous owner is called from asynchronous code, and from code that can block on a runtime
/// with several threads.
pub proof fn asynchronous_owner_is_called<O: HostedRpcDispatcher>(
    owner: O,
    cell: HostedRpcOwnerCell<O>,
    method_idx: u32,
    args: &[u8],
    r: Result<Vec<u8>, String>,
    after: HostedRpcOwnerCell<O>,
)
    requires
        call_ensures(HostedRpcOwnerCell::<O>::from_async_owner, (owner,), cell),
        exists|c: &mut HostedRpcOwnerCell<O>|
            *c == cell && *final(c) == after && (#[trigger] call_ensures(
                HostedRpcOwnerCell::<O>::dispatch_async,
                (c, method_idx, args),
                r,
            ) || #[trigger] call_ensures(
                HostedRpcOwnerCell::<O>::dispatch_blocking,
                (c, RuntimeFlavor::MultiThread, method_idx, args),
                r,
            )),
    ensures
        was_called(owner, method_idx, args@, r, after),
{
    let blocking = hosted::DispatchRoute::Blocking(RuntimeFlavor::MultiThread);
    if hosted::cell_step(cell, blocking, method_idx, args@, r, after) {
        lemma_was_called(cell, blocking, method_idx, args@, r, after);
    } else {
        lemma_was_called(cell, hosted::DispatchRoute::Awaited, method_idx, args@, r, after);
    }
}

/// An owner that has panicked is not called again, over no route.
pub proof fn panicked_owner_is_left_alone<O: HostedRpcDispatcher>(
    before: HostedRpcOwnerCell<O>,
    message: Option<String>,
    told: Result<Vec<u8>, String>,
    cell: HostedRpcOwnerCell<O>,
    runtime: RuntimeFlavor,
    method_idx: u32,
    args: &[u8],
    r: Result<Vec<u8>, String>,
    after: HostedRpcOwnerCell<O>,
)
    requires
        exists|c: &mut HostedRpcOwnerCell<O>|
            *c == before && *final(c) == cell && #[trigger] call_ensures(
                HostedRpcOwnerCell::<O>::settle,
                (c, DispatchOutcome::Panicked(message)),
                told,
            ),
        exists|c: &mut HostedRpcOwnerCell<O>|
            *c == cell && *final(c) == after && (#[trigger] call_ensures(
                HostedRpcOwnerCell::<O>::dispatch,
                (c, method_idx, args),
                r,
            ) || #[trigger] call_ensures(
                HostedRpcOwnerCell::<O>::dispatch_async,
                (c, method_idx, args),
                r,
            ) || #[trigger] call_ensures(
                HostedRpcOwnerCell::<O>::dispatch_blocking,
                (c, runtime, method_idx, args),
                r,
            )),
    ensures
        told is Err,
        cell.owner == before.owner,
        r is Err,
        after == cell,
{
}

/// A call within one process reaches the owner with the id that it names, which is left as it is where
/// there is none. The other owners are not called.
pub proof fn call_reaches_its_owner<O: HostedRpcDispatcher>(
    before: InProcessHostedRpcTransport<O>,
    after: InProcessHostedRpcTransport<O>,
    dep_id: &str,
    method_idx: u32,
    args: &[u8],
    r: Result<Vec<u8>, HostedRpcError>,
    i: int,
)
    requires
        exists|t: &mut InProcessHostedRpcTransport<O>|
            *t == before && *final(t) == after && #[trigger] call_ensures(
                InProcessHostedRpcTransport::<O>::call,
                (t, hosted::DispatchRoute::Awaited, dep_id, method_idx, args),
                r,
            ),
        0 <= i < before.cells@.len(),
        forall|j: int|
            0 <= j < before.cells@.len() && j != i ==> (#[trigger] before.cells@[j]).0@ != dep_id@,
    ensures
        after.cells@.len() == before.cells@.len(),
        forall|j: int|
            0 <= j < before.cells@.len() && j != i ==> #[trigger] after.cells@[j]
                == before.cells@[j],
        before.cells@[i].0@ != dep_id@ ==> after.cells@[i] == before.cells@[i] && (
        r matches Err(HostedRpcError::Transport(text)) && holds(text@, dep_id@)),
        before.cells@[i].0@ == dep_id@ && before.cells@[i].1.poisoned ==> after.cells@[i]
            == before.cells@[i] && r matches Err(HostedRpcError::Dispatch(_)),
        before.cells@[i].0@ == dep_id@ && !before.cells@[i].1.poisoned ==> exists|
            answer: Result<Vec<u8>, String>,
        |
            #[trigger] was_called(
                before.cells@[i].1.owner,
                method_idx,
                args@,
                answer,
                after.cells@[i].1,
            ) && match answer {
                Ok(bytes) => r == Ok::<Vec<u8>, HostedRpcError>(bytes),
                Err(text) => r == Err::<Vec<u8>, HostedRpcError>(HostedRpcError::Dispatch(text)),
            },
{
    if before.cells@[i].0@ == dep_id@ {
        assert(hosted::is_cell_of(before.cells@, dep_id@, i));
        let answer = choose|answer: Result<Vec<u8>, String>|
            r == hosted::carried(answer) && #[trigger] hosted::cell_step(
                before.cells@[i].1,
                hosted::DispatchRoute::Awaited,
                method_idx,
                args@,
                answer,
                after.cells@[i].1,
            );
        if !before.cells@[i].1.poisoned {
            lemma_was_called(
                before.cells@[i].1,
                hosted::DispatchRoute::Awaited,
                method_idx,
                args@,
                answer,
                after.cells@[i].1,
            );
        } else {
            assert(after.cells@[i].0 == before.cells@[i].0);
            assert(after.cells@[i] == before.cells@[i]);
        }
    } else {
        assert(hosted::is_unknown(before.cells@, dep_id@));
        let text = r->Err_0->Transport_0@;
        let start = "in-process HostedRpc: unknown dep id '"@;
        assert(text =~= start + dep_id@ + "'"@);
        lemma_holds(text, start, dep_id@, "'"@);
    }
}

/// A payload that is written as a frame is what is read from it, and the reader then stands behind it.
pub proof fn frame_is_read_as_written(
    start: Vec<u8>,
    payload: &[u8],
    bytes: Vec<u8>,
    rest: Seq<u8>,
    input: Vec<u8>,
    reader: FrameReader,
    after: FrameReader,
    w: Result<(), FrameError>,
    r: Result<Vec<u8>, FrameError>,
)
    requires
        payload@.len() <= u32::MAX,
        start@.len() == 0,
        exists|out: &mut Vec<u8>|
            *out == start && *final(out) == bytes && #[trigger] call_ensures(
                ipc::write_frame,
                (out, payload),
                w,
            ),
        input@ == bytes@ + rest,
        call_ensures(FrameReader::new, (input,), reader),
        exists|f: &mut FrameReader|
            *f == reader && *final(f) == after && #[trigger] call_ensures(
                ipc::read_frame,
                (f,),
                r,
            ),
    ensures
        w is Ok,
        r matches Ok(read) && read@ == payload@,
        after.bytes@.skip(after.position as int) == rest,
{
    assert(bytes@ =~= ipc::frame(payload@));
    ipc::written_frame_reads_back(payload@, rest);
    if let Ok(read) = r {
        assert(read@ + after.rest() == payload@ + rest);
    }
}

proof fn lemma_taken(before: Seq<PanicCause>, left: Seq<PanicCause>, r: Option<PanicCause>)
    requires
        match r {
            Some(cause) => before == left.push(cause),
            None => before.len() == 0,
        },
    ensures
        r == (if before.len() > 0 {
            Some(before.last())
        } else {
            None
        }),
{
    if let Some(cause) = r {
        assert(left.push(cause).last() == cause);
    }
}

/// What is taken of a test is the last of its panics.
proof fn lemma_taken_of(hook: PanicHook, id: u64, r: Option<PanicCause>)
    requires
        exists|h: &mut PanicHook|
            *h == hook && #[trigger] call_ensures(PanicHook::take_panic_capture, (h, id), r),
    ensures
        r == (if panic_hook::panics_of(hook.captures@, id).len() > 0 {
            Some(panic_hook::panics_of(hook.captures@, id).last())
        } else {
            None
        }),
{
    let h = choose|h: &mut PanicHook|
        *h == hook && #[trigger] call_ensures(PanicHook::take_panic_capture, (h, id), r);
    lemma_taken(
        panic_hook::panics_of(hook.captures@, id),
        panic_hook::panics_of(final(h).captures@, id),
        r,
    );
}

/// The same of the test that runs on the thread.
proof fn lemma_taken_of_current(hook: PanicHook, id: u64, r: Option<PanicCause>)
    requires
        exists|h: &mut PanicHook|
            *h == hook && #[trigger] call_ensures(PanicHook::take_current_panic_capture, (h, Some(id)), r),
    ensures
        r == (if panic_hook::panics_of(hook.captures@, id).len() > 0 {
            Some(panic_hook::panics_of(hook.captures@, id).last())
        } else {
            None
        }),
{
    let h = choose|h: &mut PanicHook|
        *h == hook && #[trigger] call_ensures(PanicHook::take_current_panic_capture, (h, Some(id)), r);
    lemma_taken(
        panic_hook::panics_of(hook.captures@, id),
        panic_hook::panics_of(final(h).captures@, id),
        r,
    );
}

/// A test's last panic is the one that is taken, and the panics of other tests stay where they are.
pub proof fn panic_goes_to_its_test(
    before: PanicHook,
    between: PanicHook,
    after: PanicHook,
    id: u64,
    other: u64,
    cause: PanicCause,
    captured: bool,
    taken: Option<PanicCause>,
    of_other_before: Option<PanicCause>,
    of_other: Option<PanicCause>,
)
    requires
        id != other,
        exists|h: &mut PanicHook|
            *h == before && *final(h) == between && #[trigger] call_ensures(
                PanicHook::capture,
                (h, Some(id), cause),
                captured,
            ),
        exists|h: &mut PanicHook|
            *h == between && *final(h) == after && #[trigger] call_ensures(
                PanicHook::take_panic_capture,
                (h, id),
                taken,
            ),
        exists|h: &mut PanicHook|
            *h == before && #[trigger] call_ensures(
                PanicHook::take_current_panic_capture,
                (h, Some(other)),
                of_other_before,
            ),
        exists|h: &mut PanicHook|
            *h == after && #[trigger] call_ensures(
                PanicHook::take_current_panic_capture,
                (h, Some(other)),
                of_other,
            ),
    ensures
        captured,
        taken == Some(cause),
        of_other == of_other_before,
{
    let (start, mid, end) = (before.captures@, between.captures@, after.captures@);
    assert(panic_hook::panics_of(mid, id).last() == cause);
    lemma_taken_of(between, id, taken);
    lemma_taken_of_current(before, other, of_other_before);
    lemma_taken_of_current(after, other, of_other);
    assert(mid.contains_key(other) == start.contains_key(other));
    assert(end.contains_key(other) == mid.contains_key(other));
}

/// A panic on a thread that runs no test is left to others, and nothing is taken there.
pub proof fn other_panics_are_left(
    before: PanicHook,
    after: PanicHook,
    cause: PanicCause,
    captured: bool,
    taken: Option<PanicCause>,
    id: u64,
    of_test_before: Option<PanicCause>,
    of_test: Option<PanicCause>,
)
    requires
        exists|h: &mut PanicHook|
            *h == before && *final(h) == after && #[trigger] call_ensures(
                PanicHook::capture,
                (h, None::<u64>, cause),
                captured,
            ),
        exists|h: &mut PanicHook|
            *h == after && #[trigger] call_ensures(
                PanicHook::take_current_panic_capture,
                (h, None::<u64>),
                taken,
            ),
        exists|h: &mut PanicHook|
            *h == before && #[trigger] call_ensures(
                PanicHook::take_panic_capture,
                (h, id),
                of_test_before,
            ),
        exists|h: &mut PanicHook|
            *h == after && #[trigger] call_ensures(
                PanicHook::take_panic_capture,
                (h, id),
                of_test,
            ),
    ensures
        !captured,
        taken is None,
        of_test == of_test_before,
{
    lemma_taken_of(before, id, of_test_before);
    lemma_taken_of(after, id, of_test);
}

/// The panics of the tasks that a test spawned are collected while it runs, and only then.
pub proof fn detached_panics_are_collected(
    before: PanicHook,
    running: PanicHook,
    between: PanicHook,
    id: u64,
    cause: PanicCause,
    taken: Option<Vec<PanicCause>>,
    after: PanicHook,
    too_late: PanicHook,
    again: Option<Vec<PanicCause>>,
)
    requires
        exists|h: &mut PanicHook|
            *h == before && *final(h) == running && #[trigger] call_ensures(
                PanicHook::create_detached_collector,
                (h, id),
                (),
            ),
        exists|h: &mut PanicHook|
            *h == running && *final(h) == between && #[trigger] call_ensures(
                PanicHook::collect_detached,
                (h, id, cause),
                (),
            ),
        exists|h: &mut PanicHook|
            *h == between && *final(h) == after && #[trigger] call_ensures(
                PanicHook::take_detached_collector,
                (h, id),
                taken,
            ),
        exists|h: &mut PanicHook|
            *h == after && *final(h) == too_late && #[trigger] call_ensures(
                PanicHook::collect_detached,
                (h, id, cause),
                (),
            ),
        exists|h: &mut PanicHook|
            *h == too_late && #[trigger] call_ensures(
                PanicHook::take_detached_collector,
                (h, id),
                again,
            ),
    ensures
        taken matches Some(panics) && panics@ == seq![cause],
        again is None,
{
    assert(taken is Some);
    assert(taken->0@ =~= seq![cause]);
}

/// Two tests in a row have different numbers, and a new hook starts with the number one.
pub proof fn tests_are_numbered(
    new: PanicHook,
    one: u64,
    before: PanicHook,
    between: PanicHook,
    first: u64,
    second: u64,
)
    requires
        call_ensures(PanicHook::new, (), new),
        exists|h: &mut PanicHook|
            *h == new && #[trigger] call_ensures(PanicHook::next_test_id, (h,), one),
        exists|h: &mut PanicHook|
            *h == before && *final(h) == between && #[trigger] call_ensures(
                PanicHook::next_test_id,
                (h,),
                first,
            ),
        exists|h: &mut PanicHook|
            *h == between && #[trigger] call_ensures(PanicHook::next_test_id, (h,), second),
    ensures
        one == 1,
        first != second,
        first < u64::MAX ==> second == first + 1,
{
}

} // verus!
