//! Dependencies whose owner stays in the parent process: descriptors, remote calls, and the cells
//! that hold the owners.
//!
//! The spec functions of the traits here say what an implementation promises of its methods; one
//! that does not define them promises nothing.
use crate::internal::{HostId, WorkerReconstructor};
use crate::text;
use crate::text::{concat, str_eq};
use std::sync::Arc;
use vstd::prelude::*;

verus! {

/// A dependency that can be sent to the workers as bytes.
pub trait CloneableDep: Sized {
    /// The value may be sent as these bytes.
    open spec fn wires_to(&self, bytes: Seq<u8>) -> bool {
        true
    }

    /// `value` may be made of these bytes.
    open spec fn unwires_to(bytes: Seq<u8>, value: Self) -> bool {
        true
    }

    fn to_wire(&self) -> (r: Vec<u8>)
        ensures
            self.wires_to(r@),
    ;

    fn from_wire(bytes: &[u8]) -> (r: Self)
        ensures
            Self::unwires_to(bytes@, r),
    ;
}

/// A dependency whose owner lives in the parent, and of which workers rebuild a handle from a
/// descriptor.
pub trait HostedDep: Sized {
    /// The owner may be described by these bytes.
    open spec fn described_by(&self, bytes: Seq<u8>) -> bool {
        true
    }

    /// `value` may be rebuilt from this descriptor.
    open spec fn rebuilds_to(bytes: Seq<u8>, value: Self) -> bool {
        true
    }

    fn descriptor(&self) -> (r: Vec<u8>)
        ensures
            self.described_by(r@),
    ;

    fn from_descriptor(bytes: &[u8]) -> (r: Self)
        ensures
            Self::rebuilds_to(bytes@, r),
    ;
}

/// The same for dependencies whose handle is rebuilt asynchronously: `from_descriptor` gives what
/// the rebuilding resolves to.
pub trait AsyncHostedDep: Sized {
    /// The owner may be described by these bytes.
    open spec fn async_described_by(&self, bytes: Seq<u8>) -> bool {
        true
    }

    /// `value` may be rebuilt from this descriptor.
    open spec fn async_rebuilds_to(bytes: Seq<u8>, value: Self) -> bool {
        true
    }

    fn descriptor(&self) -> (r: Vec<u8>)
        ensures
            self.async_described_by(r@),
    ;

    fn from_descriptor(bytes: &[u8]) -> (r: Self)
        ensures
            Self::async_rebuilds_to(bytes@, r),
    ;
}

/// Every synchronous dependency serves as an asynchronous one that is ready at once.
impl<T: HostedDep> AsyncHostedDep for T {
    open spec fn async_described_by(&self, bytes: Seq<u8>) -> bool {
        self.described_by(bytes)
    }

    open spec fn async_rebuilds_to(bytes: Seq<u8>, value: Self) -> bool {
        T::rebuilds_to(bytes, value)
    }

    fn descriptor(&self) -> (r: Vec<u8>) {
        <T as HostedDep>::descriptor(self)
    }

    fn from_descriptor(bytes: &[u8]) -> (r: Self) {
        <T as HostedDep>::from_descriptor(bytes)
    }
}

/// Why a remote call failed.
#[derive(Debug)]
pub enum HostedRpcError {
    /// The owner was reached and reported an error
    Dispatch(String),
    /// The owner was not reached
    Transport(String),
}

impl HostedRpcError {
    pub open spec fn rendered(self) -> Seq<char> {
        match self {
            HostedRpcError::Dispatch(s) => "hosted rpc dispatch error: "@ + s@,
            HostedRpcError::Transport(s) => "hosted rpc transport error: "@ + s@,
        }
    }

    pub fn message(&self) -> (r: String)
        ensures
            r@ == self.rendered(),
    {
        match self {
            HostedRpcError::Dispatch(s) => concat("hosted rpc dispatch error: ", s.as_str()),
            HostedRpcError::Transport(s) => concat("hosted rpc transport error: ", s.as_str()),
        }
    }
}

/// What carries a remote call to the owner of a dependency.
pub trait HostedRpcTransport: Sized {
    /// A call with these arguments may be answered with `r`.
    open spec fn carries(
        &self,
        dep_id: Seq<char>,
        method_idx: u32,
        args: Seq<u8>,
        r: Result<Vec<u8>, HostedRpcError>,
    ) -> bool {
        true
    }

    fn call(&self, dep_id: &str, method_idx: u32, args: Vec<u8>) -> (r: Result<
        Vec<u8>,
        HostedRpcError,
    >)
        ensures
            self.carries(dep_id@, method_idx, args@, r),
    ;
}

/// The way from a stub to the owner of its dependency.
pub struct HostedRpcChannel<T: HostedRpcTransport> {
    pub dep_id: String,
    pub transport: Arc<T>,
}

impl<T: HostedRpcTransport> HostedRpcChannel<T> {
    pub fn new(dep_id: String, transport: Arc<T>) -> (r: Self)
        ensures
            r.dep_id == dep_id,
            r.transport == transport,
    {
        HostedRpcChannel { dep_id, transport }
    }

    pub fn dep_id(&self) -> (r: &str)
        ensures
            r@ == self.dep_id@,
    {
        self.dep_id.as_str()
    }

    /// Calls the method of the owner that this channel leads to.
    pub fn call(&self, method_idx: u32, args: Vec<u8>) -> (r: Result<Vec<u8>, HostedRpcError>)
        ensures
            self.transport.carries(self.dep_id@, method_idx, args@, r),
    {
        self.transport.call(self.dep_id.as_str(), method_idx, args)
    }
}

impl<T: HostedRpcTransport> Clone for HostedRpcChannel<T> {
    fn clone(&self) -> (r: Self)
        ensures
            r == *self,
    {
        HostedRpcChannel { dep_id: self.dep_id.clone(), transport: self.transport.clone() }
    }
}

/// An owner that can be called remotely.
pub trait HostedRpcDep: Sized {
    type Transport: HostedRpcTransport;

    type Stub;

    /// A call may be answered with `r` and turn the owner from `before` into `after`.
    open spec fn answers(
        before: Self,
        method_idx: u32,
        args: Seq<u8>,
        r: Result<Vec<u8>, String>,
        after: Self,
    ) -> bool {
        true
    }

    /// `stub` may be built over this channel.
    open spec fn stubs(channel: HostedRpcChannel<Self::Transport>, stub: Self::Stub) -> bool {
        true
    }

    fn dispatch(&mut self, method_idx: u32, args: &[u8]) -> (r: Result<Vec<u8>, String>)
        ensures
            Self::answers(*old(self), method_idx, args@, r, *final(self)),
    ;

    fn build_stub(channel: HostedRpcChannel<Self::Transport>) -> (r: Self::Stub)
        ensures
            Self::stubs(channel, r),
    ;
}

/// The same for owners whose methods are asynchronous: `dispatch` gives what the call resolves to.
pub trait AsyncHostedRpcDep: Sized {
    type Transport: HostedRpcTransport;

    type Stub;

    /// A call may resolve to `r` and turn the owner from `before` into `after`.
    open spec fn async_answers(
        before: Self,
        method_idx: u32,
        args: Seq<u8>,
        r: Result<Vec<u8>, String>,
        after: Self,
    ) -> bool {
        true
    }

    /// `stub` may be built over this channel.
    open spec fn async_stubs(channel: HostedRpcChannel<Self::Transport>, stub: Self::Stub) -> bool {
        true
    }

    fn dispatch(&mut self, method_idx: u32, args: &[u8]) -> (r: Result<Vec<u8>, String>)
        ensures
            Self::async_answers(*old(self), method_idx, args@, r, *final(self)),
    ;

    fn build_stub(channel: HostedRpcChannel<Self::Transport>) -> (r: Self::Stub)
        ensures
            Self::async_stubs(channel, r),
    ;
}

/// Every synchronous owner serves as an asynchronous one whose calls are answered at once.
impl<T: HostedRpcDep> AsyncHostedRpcDep for T {
    type Transport = <T as HostedRpcDep>::Transport;

    type Stub = <T as HostedRpcDep>::Stub;

    open spec fn async_answers(
        before: Self,
        method_idx: u32,
        args: Seq<u8>,
        r: Result<Vec<u8>, String>,
        after: Self,
    ) -> bool {
        T::answers(before, method_idx, args, r, after)
    }

    open spec fn async_stubs(
        channel: HostedRpcChannel<<T as HostedRpcDep>::Transport>,
        stub: <T as HostedRpcDep>::Stub,
    ) -> bool {
        T::stubs(channel, stub)
    }

    fn dispatch(&mut self, method_idx: u32, args: &[u8]) -> (r: Result<Vec<u8>, String>) {
        <T as HostedRpcDep>::dispatch(self, method_idx, args)
    }

    fn build_stub(channel: HostedRpcChannel<<T as HostedRpcDep>::Transport>) -> (r: <T as HostedRpcDep>::Stub) {
        <T as HostedRpcDep>::build_stub(channel)
    }
}

/// How a call into an owner ended: it returned, or it panicked with this message.
#[derive(Debug)]
pub enum DispatchOutcome {
    Returned(Result<Vec<u8>, String>),
    Panicked(Option<String>),
}

/// An owner as a cell calls it: the call ends with an outcome, also where the method panics.
pub trait HostedRpcDispatcher: Sized {
    /// A call may end with this outcome and turn the owner from `before` into `after`.
    open spec fn dispatches(
        before: Self,
        method_idx: u32,
        args: Seq<u8>,
        outcome: DispatchOutcome,
        after: Self,
    ) -> bool {
        true
    }

    fn dispatch_outcome(&mut self, method_idx: u32, args: &[u8]) -> (r: DispatchOutcome)
        ensures
            Self::dispatches(*old(self), method_idx, args@, r, *final(self)),
    ;
}

impl<T: AsyncHostedRpcDep> HostedRpcDispatcher for T {
    open spec fn dispatches(
        before: Self,
        method_idx: u32,
        args: Seq<u8>,
        outcome: DispatchOutcome,
        after: Self,
    ) -> bool {
        outcome matches DispatchOutcome::Returned(r) && T::async_answers(
            before,
            method_idx,
            args,
            r,
            after,
        )
    }

    fn dispatch_outcome(&mut self, method_idx: u32, args: &[u8]) -> (r: DispatchOutcome) {
        DispatchOutcome::Returned(<T as AsyncHostedRpcDep>::dispatch(self, method_idx, args))
    }
}

/// Whether the owner of a cell is called synchronously or asynchronously.
#[derive(Debug, Clone, Copy, PartialEq, Eq, Structural)]
pub enum CellMode {
    Sync,
    Async,
}

/// The async runtime that is active where a call is dispatched.
#[derive(Debug, Clone, Copy, PartialEq, Eq, Structural)]
pub enum RuntimeFlavor {
    /// There is none
    Absent,
    CurrentThread,
    MultiThread,
}

/// Where a call comes from: a synchronous caller, an asynchronous one, or a synchronous one that
/// may block on the runtime that is active there.
#[derive(Debug, Clone, Copy, PartialEq, Eq, Structural)]
pub enum DispatchRoute {
    Plain,
    Awaited,
    Blocking(RuntimeFlavor),
}

/// Holds the owner of a remotely called dependency.
pub struct HostedRpcOwnerCell<O: HostedRpcDispatcher> {
    pub mode: CellMode,
    /// A call has panicked, and the owner is not called any more
    pub poisoned: bool,
    pub owner: O,
}

/// What the caller of a panicked call is told.
pub open spec fn panic_text(message: Option<String>) -> Seq<char> {
    "hosted rpc owner panicked: "@ + (match message {
        Some(message) => message@,
        None => "<non-string panic payload>"@,
    })
}

/// `r` is what the caller is told of a call that ended with this outcome.
pub open spec fn tells(outcome: DispatchOutcome, r: Result<Vec<u8>, String>) -> bool {
    match outcome {
        DispatchOutcome::Returned(returned) => r == returned,
        DispatchOutcome::Panicked(message) => r matches Err(text) && text@ == panic_text(message),
    }
}

/// Why a call over this route is refused without calling the owner.
pub open spec fn refusal(mode: CellMode, poisoned: bool, route: DispatchRoute) -> Option<
    Seq<char>,
> {
    if mode is Async && route is Plain {
        Some("hosted rpc owner cell uses the async dispatch path; use dispatch_async or dispatch_blocking"@)
    } else if mode is Async && route == DispatchRoute::Blocking(RuntimeFlavor::Absent) {
        Some("hosted rpc owner is async-only and no Tokio runtime is active at the dispatch site"@)
    } else if mode is Async && route == DispatchRoute::Blocking(RuntimeFlavor::CurrentThread) {
        Some("hosted rpc owner is async-only and the current Tokio runtime is not multi-threaded"@)
    } else if poisoned {
        Some("hosted rpc owner poisoned"@)
    } else {
        None
    }
}

/// A call over this route turns the cell from `before` into `after` and gives `r`: the owner is
/// called once unless the call is refused, and the cell is poisoned if that call panics.
pub open spec fn cell_step<O: HostedRpcDispatcher>(
    before: HostedRpcOwnerCell<O>,
    route: DispatchRoute,
    method_idx: u32,
    args: Seq<u8>,
    r: Result<Vec<u8>, String>,
    after: HostedRpcOwnerCell<O>,
) -> bool {
    match refusal(before.mode, before.poisoned, route) {
        Some(reason) => after == before && r is Err && (r->Err_0)@ == reason,
        None => exists|outcome: DispatchOutcome| #[trigger]
            O::dispatches(before.owner, method_idx, args, outcome, after.owner) && tells(outcome, r)
                && after.mode == before.mode && after.poisoned == outcome is Panicked,
    }
}

impl<O: HostedRpcDispatcher> HostedRpcOwnerCell<O> {
    /// Wraps an owner that is called synchronously.
    pub fn from_owner(owner: O) -> (r: Self)
        ensures
            r == (HostedRpcOwnerCell { mode: CellMode::Sync, poisoned: false, owner }),
    {
        HostedRpcOwnerCell { mode: CellMode::Sync, poisoned: false, owner }
    }

    /// Wraps an owner that is called asynchronously.
    pub fn from_async_owner(owner: O) -> (r: Self)
        ensures
            r == (HostedRpcOwnerCell { mode: CellMode::Async, poisoned: false, owner }),
    {
        HostedRpcOwnerCell { mode: CellMode::Async, poisoned: false, owner }
    }

    /// Tells why a call over this route is refused, if it is.
    pub fn refused(&self, route: DispatchRoute) -> (r: Option<String>)
        ensures
            text::opt_view(r) == refusal(self.mode, self.poisoned, route),
    {
        match self.mode {
            CellMode::Async => match route {
                DispatchRoute::Plain => {
                    return Some(
                        "hosted rpc owner cell uses the async dispatch path; use dispatch_async or dispatch_blocking".to_owned(),
                    );
                },
                DispatchRoute::Blocking(RuntimeFlavor::Absent) => {
                    return Some(
                        "hosted rpc owner is async-only and no Tokio runtime is active at the dispatch site".to_owned(),
                    );
                },
                DispatchRoute::Blocking(RuntimeFlavor::CurrentThread) => {
                    return Some(
                        "hosted rpc owner is async-only and the current Tokio runtime is not multi-threaded".to_owned(),
                    );
                },
                _ => {},
            },
            CellMode::Sync => {},
        }
        if self.poisoned {
            Some("hosted rpc owner poisoned".to_owned())
        } else {
            None
        }
    }

    /// Takes note of how a call into the owner ended and gives what its caller is told.
    pub fn settle(&mut self, outcome: DispatchOutcome) -> (r: Result<Vec<u8>, String>)
        ensures
            tells(outcome, r),
            final(self).mode == old(self).mode,
            final(self).owner == old(self).owner,
            final(self).poisoned == (old(self).poisoned || outcome is Panicked),
    {
        match outcome {
            DispatchOutcome::Returned(r) => r,
            DispatchOutcome::Panicked(message) => {
                self.poisoned = true;
                match message {
                    Some(message) => Err(concat("hosted rpc owner panicked: ", message.as_str())),
                    None => Err(
                        concat("hosted rpc owner panicked: ", "<non-string panic payload>"),
                    ),
                }
            },
        }
    }

    fn dispatch_over(&mut self, route: DispatchRoute, method_idx: u32, args: &[u8]) -> (r: Result<
        Vec<u8>,
        String,
    >)
        ensures
            cell_step(*old(self), route, method_idx, args@, r, *final(self)),
    {
        match self.refused(route) {
            Some(reason) => Err(reason),
            None => {
                let outcome = self.owner.dispatch_outcome(method_idx, args);
                let ghost before = old(self).owner;
                assert(O::dispatches(before, method_idx, args@, outcome, self.owner));
                self.settle(outcome)
            },
        }
    }

    /// Calls the owner from synchronous code.
    pub fn dispatch(&mut self, method_idx: u32, args: &[u8]) -> (r: Result<Vec<u8>, String>)
        ensures
            cell_step(*old(self), DispatchRoute::Plain, method_idx, args@, r, *final(self)),
    {
        self.dispatch_over(DispatchRoute::Plain, method_idx, args)
    }

    /// Calls the owner from asynchronous code.
    pub fn dispatch_async(&mut self, method_idx: u32, args: &[u8]) -> (r: Result<Vec<u8>, String>)
        ensures
            cell_step(*old(self), DispatchRoute::Awaited, method_idx, args@, r, *final(self)),
    {
        self.dispatch_over(DispatchRoute::Awaited, method_idx, args)
    }

    /// Calls the owner from synchronous code that may block on the active runtime.
    pub fn dispatch_blocking(
        &mut self,
        runtime: RuntimeFlavor,
        method_idx: u32,
        args: &[u8],
    ) -> (r: Result<Vec<u8>, String>)
        ensures
            cell_step(
                *old(self),
                DispatchRoute::Blocking(runtime),
                method_idx,
                args@,
                r,
                *final(self),
            ),
    {
        self.dispatch_over(DispatchRoute::Blocking(runtime), method_idx, args)
    }
}

/// A call on a cell: how it comes in, and what its caller is told.
pub struct CellCall {
    pub route: DispatchRoute,
    pub method_idx: u32,
    pub args: Seq<u8>,
    pub r: Result<Vec<u8>, String>,
}

/// These calls, one after the other, lead from each of the cells to the next.
pub open spec fn is_call_history<O: HostedRpcDispatcher>(
    cells: Seq<HostedRpcOwnerCell<O>>,
    calls: Seq<CellCall>,
) -> bool {
    &&& cells.len() == calls.len() + 1
    &&& forall|i: int|
        0 <= i < calls.len() ==> #[trigger] cell_step(
            cells[i],
            calls[i].route,
            calls[i].method_idx,
            calls[i].args,
            calls[i].r,
            cells[i + 1],
        )
}

/// Once a call has panicked the owner is never called again: every later call is refused and
/// leaves the cell as it is.
pub proof fn panicked_owner_is_not_called_again<O: HostedRpcDispatcher>(
    cells: Seq<HostedRpcOwnerCell<O>>,
    calls: Seq<CellCall>,
    from: int,
    later: int,
)
    requires
        is_call_history(cells, calls),
        0 <= from <= later < calls.len(),
        cells[from].poisoned,
    ensures
        cells[later + 1] == cells[from],
        calls[later].r is Err,
        refusal(cells[from].mode, true, calls[later].route) == Some((calls[later].r->Err_0)@),
    decreases later,
{
    if from < later {
        panicked_owner_is_not_called_again(cells, calls, from, later - 1);
    }
    assert(cell_step(
        cells[later],
        calls[later].route,
        calls[later].method_idx,
        calls[later].args,
        calls[later].r,
        cells[later + 1],
    ));
}

/// The caller of a panicked call is told so, and the cell is poisoned from then on.
pub proof fn panic_is_told_and_poisons<O: HostedRpcDispatcher>(
    before: HostedRpcOwnerCell<O>,
    route: DispatchRoute,
    method_idx: u32,
    args: Seq<u8>,
    r: Result<Vec<u8>, String>,
    after: HostedRpcOwnerCell<O>,
)
    requires
        cell_step(before, route, method_idx, args, r, after),
        !before.poisoned,
        after.poisoned,
    ensures
        r is Err,
        exists|message: Option<String>| (r->Err_0)@ == #[trigger] panic_text(message),
{
    let outcome = choose|outcome: DispatchOutcome| #[trigger]
        O::dispatches(before.owner, method_idx, args, outcome, after.owner) && tells(outcome, r)
            && after.mode == before.mode && after.poisoned == outcome is Panicked;
    assert((r->Err_0)@ == panic_text(outcome->Panicked_0));
}

/// `i` is the index of the first cell with this id.
pub open spec fn is_cell_of<O: HostedRpcDispatcher>(
    cells: Seq<(String, HostedRpcOwnerCell<O>)>,
    dep_id: Seq<char>,
    i: int,
) -> bool {
    &&& 0 <= i < cells.len()
    &&& cells[i].0@ == dep_id
    &&& forall|j: int| 0 <= j < i ==> (#[trigger] cells[j]).0@ != dep_id
}

/// No cell has this id.
pub open spec fn is_unknown<O: HostedRpcDispatcher>(
    cells: Seq<(String, HostedRpcOwnerCell<O>)>,
    dep_id: Seq<char>,
) -> bool {
    forall|j: int| 0 <= j < cells.len() ==> (#[trigger] cells[j]).0@ != dep_id
}

/// The answer of a cell as the caller of a transport sees it.
pub open spec fn carried(answer: Result<Vec<u8>, String>) -> Result<Vec<u8>, HostedRpcError> {
    match answer {
        Ok(bytes) => Ok(bytes),
        Err(message) => Err(HostedRpcError::Dispatch(message)),
    }
}

/// Finds the first cell with this id.
pub fn find_cell<O: HostedRpcDispatcher>(
    cells: &Vec<(String, HostedRpcOwnerCell<O>)>,
    dep_id: &str,
) -> (r: Option<usize>)
    ensures
        match r {
            Some(i) => is_cell_of(cells@, dep_id@, i as int),
            None => is_unknown(cells@, dep_id@),
        },
{
    let mut i: usize = 0;
    while i < cells.len()
        invariant
            i <= cells.len(),
            forall|j: int| 0 <= j < i ==> (#[trigger] cells@[j]).0@ != dep_id@,
        decreases cells.len() - i,
    {
        if str_eq(cells[i].0.as_str(), dep_id) {
            return Some(i);
        }
        i += 1;
    }
    None
}

/// Reaches the owners directly, where tests and owners share one process.
pub struct InProcessHostedRpcTransport<O: HostedRpcDispatcher> {
    pub cells: Vec<(String, HostedRpcOwnerCell<O>)>,
}

impl<O: HostedRpcDispatcher> InProcessHostedRpcTransport<O> {
    pub fn new(cells: Vec<(String, HostedRpcOwnerCell<O>)>) -> (r: Self)
        ensures
            r.cells == cells,
    {
        InProcessHostedRpcTransport { cells }
    }

    /// Calls the owner with this id.
    pub fn call(&mut self, route: DispatchRoute, dep_id: &str, method_idx: u32, args: &[u8]) -> (r:
        Result<Vec<u8>, HostedRpcError>)
        ensures
            is_unknown(old(self).cells@, dep_id@) ==> {
                &&& final(self).cells@ == old(self).cells@
                &&& r matches Err(HostedRpcError::Transport(message)) && message@
                    == "in-process HostedRpc: unknown dep id '"@ + dep_id@ + "'"@
            },
            forall|i: int| #[trigger]
                is_cell_of(old(self).cells@, dep_id@, i) ==> {
                    &&& final(self).cells@ == old(self).cells@.update(i, final(self).cells@[i])
                    &&& final(self).cells@[i].0 == old(self).cells@[i].0
                    &&& exists|answer: Result<Vec<u8>, String>|
                        r == carried(answer) && #[trigger] cell_step(
                            old(self).cells@[i].1,
                            route,
                            method_idx,
                            args@,
                            answer,
                            final(self).cells@[i].1,
                        )
                },
    {
        match find_cell(&self.cells, dep_id) {
            Some(i) => {
                let answer = self.cells[i].1.dispatch_over(route, method_idx, args);
                assert(cell_step(
                    old(self).cells@[i as int].1,
                    route,
                    method_idx,
                    args@,
                    answer,
                    self.cells@[i as int].1,
                ));
                match answer {
                    Ok(bytes) => Ok(bytes),
                    Err(message) => Err(HostedRpcError::Dispatch(message)),
                }
            },
            None => Err(
                HostedRpcError::Transport(
                    concat(
                        concat("in-process HostedRpc: unknown dep id '", dep_id).as_str(),
                        "'",
                    ),
                ),
            ),
        }
    }
}

/// An owner whose methods can be called through a shared reference.
pub trait HostedRpcShared: Sized {
    /// A call may be answered with `r`.
    open spec fn shared_answers(
        &self,
        method_idx: u32,
        args: Seq<u8>,
        r: Result<Vec<u8>, String>,
    ) -> bool {
        true
    }

    fn dispatch_shared(&self, method_idx: u32, args: &[u8]) -> (r: Result<Vec<u8>, String>)
        ensures
            self.shared_answers(method_idx, args@, r),
    ;
}

/// Calls an owner that the parent process shares with others.
pub struct SharedDispatcher<T: HostedRpcShared> {
    pub owner: Arc<T>,
}

impl<T: HostedRpcShared> HostedRpcDispatcher for SharedDispatcher<T> {
    open spec fn dispatches(
        before: Self,
        method_idx: u32,
        args: Seq<u8>,
        outcome: DispatchOutcome,
        after: Self,
    ) -> bool {
        &&& after == before
        &&& outcome matches DispatchOutcome::Returned(r) && before.owner.shared_answers(
            method_idx,
            args,
            r,
        )
    }

    fn dispatch_outcome(&mut self, method_idx: u32, args: &[u8]) -> (r: DispatchOutcome) {
        DispatchOutcome::Returned(self.owner.dispatch_shared(method_idx, args))
    }
}

impl<T: HostedRpcShared> HostedRpcOwnerCell<SharedDispatcher<T>> {
    /// Wraps a shared owner that is called synchronously.
    pub fn from_shared_owner_sync(owner: Arc<T>) -> (r: Self)
        ensures
            r.mode is Sync,
            !r.poisoned,
            r.owner.owner == owner,
    {
        Self::from_owner(SharedDispatcher { owner })
    }

    /// Wraps a shared owner that is called asynchronously.
    pub fn from_shared_owner_async(owner: Arc<T>) -> (r: Self)
        ensures
            r.mode is Async,
            !r.poisoned,
            r.owner.owner == owner,
    {
        Self::from_async_owner(SharedDispatcher { owner })
    }
}

/// One owner behind two views: its descriptor, and the cell through which it is called.
pub struct HostedBothShared<T: HostedRpcShared> {
    pub descriptor_bytes: Vec<u8>,
    pub owner: Arc<T>,
    pub rpc_cell: Arc<HostedRpcOwnerCell<SharedDispatcher<T>>>,
}

impl<T: HostedRpcShared> HostedBothShared<T> {
    /// The cell calls the owner that is handed out.
    pub open spec fn wf(self) -> bool {
        self.rpc_cell.owner.owner == self.owner
    }

    pub fn new(
        descriptor_bytes: Vec<u8>,
        owner: Arc<T>,
        rpc_cell: Arc<HostedRpcOwnerCell<SharedDispatcher<T>>>,
    ) -> (r: Self)
        ensures
            r == (HostedBothShared { descriptor_bytes, owner, rpc_cell }),
    {
        HostedBothShared { descriptor_bytes, owner, rpc_cell }
    }

    pub fn descriptor_bytes(&self) -> (r: &[u8])
        ensures
            r@ == self.descriptor_bytes@,
    {
        self.descriptor_bytes.as_slice()
    }

    pub fn rpc_cell(&self) -> (r: Arc<HostedRpcOwnerCell<SharedDispatcher<T>>>)
        ensures
            r == self.rpc_cell,
    {
        self.rpc_cell.clone()
    }

    pub fn owner_arc(&self) -> (r: Arc<T>)
        ensures
            r == self.owner,
    {
        self.owner.clone()
    }
}

/// Copies the bytes of a slice.
fn copy_bytes(bytes: &[u8]) -> (r: Vec<u8>)
    ensures
        r@ == bytes@,
{
    let mut r: Vec<u8> = Vec::new();
    let mut i: usize = 0;
    while i < bytes.len()
        invariant
            i <= bytes.len(),
            r@ == bytes@.take(i as int),
        decreases bytes.len() - i,
    {
        r.push(bytes[i]);
        i += 1;
        assert(bytes@.take(i as int).drop_last() == bytes@.take(i - 1));
    }
    assert(bytes@.take(i as int) == bytes@);
    r
}

/// Turns the owner of a hosted dependency into the bytes that workers receive, and those bytes
/// into the payload from which a worker rebuilds its handle.
pub struct HostedCodec<W, R> {
    pub to_wire: W,
    pub from_wire_bytes: R,
}

/// The codec of a hosted dependency: the bytes are a descriptor of the owner, and the payload is
/// these bytes.
pub fn __test_r_make_hosted_codec<T: AsyncHostedDep>() -> (r: HostedCodec<
    impl Fn(&T) -> Vec<u8>,
    impl Fn(&[u8]) -> Vec<u8>,
>)
    ensures
        forall|owner: &T| #[trigger] r.to_wire.requires((owner,)),
        forall|owner: &T, bytes: Vec<u8>| #[trigger]
            r.to_wire.ensures((owner,), bytes) ==> owner.async_described_by(bytes@),
        forall|bytes: &[u8]| #[trigger] r.from_wire_bytes.requires((bytes,)),
        forall|bytes: &[u8], payload: Vec<u8>| #[trigger]
            r.from_wire_bytes.ensures((bytes,), payload) ==> payload@ == bytes@,
{
    let to_wire = |owner: &T| -> (r: Vec<u8>)
        ensures
            owner.async_described_by(r@),
        { owner.descriptor() };
    let from_wire_bytes = |bytes: &[u8]| -> (r: Vec<u8>)
        ensures
            r@ == bytes@,
        { copy_bytes(bytes) };
    HostedCodec { to_wire, from_wire_bytes }
}

/// How workers rebuild a hosted dependency: asynchronously where an async runtime drives the
/// tests, synchronously elsewhere.
pub fn __test_r_make_hosted_worker_reconstructor(async_runtime: bool, rebuild: HostId) -> (r:
    WorkerReconstructor)
    ensures
        r == (if async_runtime {
            WorkerReconstructor::Async(rebuild)
        } else {
            WorkerReconstructor::Sync(rebuild)
        }),
{
    if async_runtime {
        WorkerReconstructor::Async(rebuild)
    } else {
        WorkerReconstructor::Sync(rebuild)
    }
}

/// Rebuilds a hosted dependency from the payload that its codec made.
pub fn rebuild_hosted<T: AsyncHostedDep>(payload: &Vec<u8>) -> (r: T)
    ensures
        T::async_rebuilds_to(payload@, r),
{
    T::from_descriptor(payload.as_slice())
}

/// Describes an owner once and wraps it into a cell.
pub fn __test_r_make_hosted_both_shared<T: AsyncHostedDep + HostedRpcShared>(
    async_runtime: bool,
    owner: T,
) -> (r: HostedBothShared<T>)
    ensures
        r.wf(),
        *r.owner == owner,
        owner.async_described_by(r.descriptor_bytes@),
        r.rpc_cell.mode == (if async_runtime {
            CellMode::Async
        } else {
            CellMode::Sync
        }),
        !r.rpc_cell.poisoned,
{
    let descriptor_bytes = owner.descriptor();
    let owner = Arc::new(owner);
    let cell = if async_runtime {
        HostedRpcOwnerCell::from_shared_owner_async(owner.clone())
    } else {
        HostedRpcOwnerCell::from_shared_owner_sync(owner.clone())
    };
    HostedBothShared::new(descriptor_bytes, owner, Arc::new(cell))
}

/// Wraps an owner into a cell of the kind that the runtime drives.
pub fn __test_r_make_hosted_rpc_cell<O: HostedRpcDispatcher>(async_runtime: bool, owner: O) -> (r:
    HostedRpcOwnerCell<O>)
    ensures
        r.owner == owner,
        !r.poisoned,
        r.mode == (if async_runtime {
            CellMode::Async
        } else {
            CellMode::Sync
        }),
{
    if async_runtime {
        HostedRpcOwnerCell::from_async_owner(owner)
    } else {
        HostedRpcOwnerCell::from_owner(owner)
    }
}

/// The codec of a dependency with both views: the bytes are the descriptor that was made of the
/// owner, and the payload is these bytes.
pub fn __test_r_make_hosted_both_codec<T: HostedRpcShared>() -> (r: HostedCodec<
    impl Fn(&HostedBothShared<T>) -> Vec<u8>,
    impl Fn(&[u8]) -> Vec<u8>,
>)
    ensures
        forall|shared: &HostedBothShared<T>| #[trigger] r.to_wire.requires((shared,)),
        forall|shared: &HostedBothShared<T>, bytes: Vec<u8>| #[trigger]
            r.to_wire.ensures((shared,), bytes) ==> bytes@ == shared.descriptor_bytes@,
        forall|bytes: &[u8]| #[trigger] r.from_wire_bytes.requires((bytes,)),
        forall|bytes: &[u8], payload: Vec<u8>| #[trigger]
            r.from_wire_bytes.ensures((bytes,), payload) ==> payload@ == bytes@,
{
    let to_wire = |shared: &HostedBothShared<T>| -> (r: Vec<u8>)
        ensures
            r@ == shared.descriptor_bytes@,
        { copy_bytes(shared.descriptor_bytes()) };
    let from_wire_bytes = |bytes: &[u8]| -> (r: Vec<u8>)
        ensures
            r@ == bytes@,
        { copy_bytes(bytes) };
    HostedCodec { to_wire, from_wire_bytes }
}

/// Finds the cell of a remotely called dependency, and builds the stubs that call it.
pub struct HostedRpcStubs<C, B> {
    pub owner_into_cell: C,
    pub build_stub: B,
}

/// The factory of a dependency that is only called remotely: its value is the cell itself.
pub fn __test_r_make_hosted_rpc_factory<T: AsyncHostedRpcDep>() -> (r: HostedRpcStubs<
    impl Fn(Arc<HostedRpcOwnerCell<T>>) -> Arc<HostedRpcOwnerCell<T>>,
    impl Fn(HostedRpcChannel<T::Transport>) -> T::Stub,
>)
    ensures
        forall|value: Arc<HostedRpcOwnerCell<T>>| #[trigger] r.owner_into_cell.requires((value,)),
        forall|value: Arc<HostedRpcOwnerCell<T>>, cell: Arc<HostedRpcOwnerCell<T>>| #[trigger]
            r.owner_into_cell.ensures((value,), cell) ==> cell == value,
        forall|channel: HostedRpcChannel<T::Transport>| #[trigger]
            r.build_stub.requires((channel,)),
        forall|channel: HostedRpcChannel<T::Transport>, stub: T::Stub| #[trigger]
            r.build_stub.ensures((channel,), stub) ==> T::async_stubs(channel, stub),
{
    let owner_into_cell = |value: Arc<HostedRpcOwnerCell<T>>| -> (r: Arc<HostedRpcOwnerCell<T>>)
        ensures
            r == value,
        { value };
    let build_stub = |channel: HostedRpcChannel<T::Transport>| -> (r: T::Stub)
        ensures
            T::async_stubs(channel, r),
        { T::build_stub(channel) };
    HostedRpcStubs { owner_into_cell, build_stub }
}

/// The factory of a dependency with both views: the cell is the one that calls the owner which the
/// descriptor was made of.
pub fn __test_r_make_hosted_both_rpc_factory<T: AsyncHostedRpcDep + HostedRpcShared>() -> (r:
    HostedRpcStubs<
    impl Fn(&HostedBothShared<T>) -> Arc<HostedRpcOwnerCell<SharedDispatcher<T>>>,
    impl Fn(HostedRpcChannel<T::Transport>) -> T::Stub,
>)
    ensures
        forall|shared: &HostedBothShared<T>| #[trigger] r.owner_into_cell.requires((shared,)),
        forall|
            shared: &HostedBothShared<T>,
            cell: Arc<HostedRpcOwnerCell<SharedDispatcher<T>>>,
        | #[trigger]
            r.owner_into_cell.ensures((shared,), cell) ==> cell == shared.rpc_cell,
        forall|channel: HostedRpcChannel<T::Transport>| #[trigger]
            r.build_stub.requires((channel,)),
        forall|channel: HostedRpcChannel<T::Transport>, stub: T::Stub| #[trigger]
            r.build_stub.ensures((channel,), stub) ==> T::async_stubs(channel, stub),
{
    let owner_into_cell = |shared: &HostedBothShared<T>| -> (r: Arc<
        HostedRpcOwnerCell<SharedDispatcher<T>>,
    >)
        ensures
            r == shared.rpc_cell,
        { shared.rpc_cell() };
    let build_stub = |channel: HostedRpcChannel<T::Transport>| -> (r: T::Stub)
        ensures
            T::async_stubs(channel, r),
        { T::build_stub(channel) };
    HostedRpcStubs { owner_into_cell, build_stub }
}

} // verus!
