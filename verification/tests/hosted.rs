use std::sync::{Arc, Mutex};
use test_r_core::hosted::{
    __test_r_make_hosted_both_codec, __test_r_make_hosted_both_rpc_factory,
    __test_r_make_hosted_both_shared, __test_r_make_hosted_codec, __test_r_make_hosted_rpc_cell,
    __test_r_make_hosted_rpc_factory, __test_r_make_hosted_worker_reconstructor, rebuild_hosted,
    AsyncHostedDep, AsyncHostedRpcDep, CellMode, DispatchOutcome, DispatchRoute, HostedBothShared,
    HostedDep, HostedRpcChannel, HostedRpcDep, HostedRpcDispatcher, HostedRpcError,
    HostedRpcOwnerCell, HostedRpcShared, HostedRpcTransport, RuntimeFlavor, SharedDispatcher,
};
use test_r_core::internal::WorkerReconstructor;

/// Implements only the synchronous trait.
#[derive(Debug, PartialEq, Eq)]
struct SyncOnlyDep {
    bytes: Vec<u8>,
}

impl HostedDep for SyncOnlyDep {
    fn descriptor(&self) -> Vec<u8> {
        self.bytes.clone()
    }

    fn from_descriptor(bytes: &[u8]) -> Self {
        Self {
            bytes: bytes.to_vec(),
        }
    }
}

fn requires_async_hosted_dep<T: AsyncHostedDep>(_t: &T) {}

#[test]
fn blanket_impl_exposes_sync_hosted_dep_via_async_api() {
    let dep = SyncOnlyDep {
        bytes: vec![1, 2, 3, 4],
    };

    requires_async_hosted_dep(&dep);

    assert_eq!(
        <SyncOnlyDep as HostedDep>::descriptor(&dep),
        vec![1, 2, 3, 4]
    );
    assert_eq!(
        <SyncOnlyDep as AsyncHostedDep>::descriptor(&dep),
        vec![1, 2, 3, 4]
    );

    let value = <SyncOnlyDep as AsyncHostedDep>::from_descriptor(&[7, 8, 9]);
    assert_eq!(
        value,
        SyncOnlyDep {
            bytes: vec![7, 8, 9]
        },
        "blanket-bridged from_descriptor must yield the same value the sync impl produces"
    );
}

/// Answers every call with nothing.
struct DummyTransport;

impl HostedRpcTransport for DummyTransport {
    fn call(
        &self,
        _dep_id: &str,
        _method_idx: u32,
        _args: Vec<u8>,
    ) -> Result<Vec<u8>, HostedRpcError> {
        Ok(Vec::new())
    }
}

/// Implements only the synchronous trait.
struct SyncOnlyOwner {
    next: u64,
}

struct SyncOnlyStub {
    channel: HostedRpcChannel<DummyTransport>,
}

impl HostedRpcDep for SyncOnlyOwner {
    type Transport = DummyTransport;
    type Stub = SyncOnlyStub;

    fn dispatch(&mut self, method_idx: u32, _args: &[u8]) -> Result<Vec<u8>, String> {
        if method_idx == 0 {
            self.next += 1;
            Ok(self.next.to_be_bytes().to_vec())
        } else {
            Err(format!("SyncOnlyOwner: unknown method_idx {method_idx}"))
        }
    }

    fn build_stub(channel: HostedRpcChannel<DummyTransport>) -> Self::Stub {
        SyncOnlyStub { channel }
    }
}

fn requires_async_hosted_rpc_dep<T: AsyncHostedRpcDep>(_t: &T) {}

#[test]
fn blanket_impl_exposes_sync_hosted_rpc_dep_via_async_api() {
    let owner = SyncOnlyOwner { next: 0 };
    requires_async_hosted_rpc_dep(&owner);
}

#[test]
fn bridged_async_dispatch_round_trips_sync_owner_bytes() {
    let mut owner = SyncOnlyOwner { next: 0 };
    let rt = tokio::runtime::Builder::new_multi_thread()
        .enable_all()
        .build()
        .expect("build tokio runtime");
    let bytes = rt
        .block_on(async { <SyncOnlyOwner as AsyncHostedRpcDep>::dispatch(&mut owner, 0, &[]) })
        .expect("bridged dispatch must succeed");
    assert_eq!(
        bytes,
        1u64.to_be_bytes().to_vec(),
        "bridged async dispatch must yield the same bytes the sync impl produces"
    );
}

#[derive(Debug, PartialEq, Eq)]
struct Fixture {
    bytes: Vec<u8>,
}

impl HostedDep for Fixture {
    fn descriptor(&self) -> Vec<u8> {
        self.bytes.clone()
    }

    fn from_descriptor(bytes: &[u8]) -> Self {
        Self {
            bytes: bytes.to_vec(),
        }
    }
}

#[test]
fn make_hosted_codec_round_trips_descriptor_bytes() {
    let codec = __test_r_make_hosted_codec::<Fixture>();
    let owner = Fixture {
        bytes: vec![1, 2, 3, 4],
    };

    let wire_bytes = (codec.to_wire)(&owner);
    assert_eq!(wire_bytes, vec![1, 2, 3, 4]);

    let recovered_bytes = (codec.from_wire_bytes)(&wire_bytes);
    assert_eq!(recovered_bytes, vec![1, 2, 3, 4]);
}

#[test]
fn make_hosted_worker_reconstructor_is_async_under_tokio() {
    let recon = __test_r_make_hosted_worker_reconstructor(true, 3);
    match recon {
        WorkerReconstructor::Async(3) => {}
        _ => panic!(
            "tokio build must produce a WorkerReconstructor::Async for Hosted deps; got Sync"
        ),
    }
}

#[test]
fn make_hosted_worker_reconstructor_is_sync_under_sync_runtime() {
    let recon = __test_r_make_hosted_worker_reconstructor(false, 3);
    match recon {
        WorkerReconstructor::Sync(3) => {}
        _ => panic!(
            "sync build must produce a WorkerReconstructor::Sync for Hosted deps; got Async"
        ),
    }
}

#[test]
fn sync_worker_reconstructor_rebuilds_fixture_from_descriptor() {
    let codec = __test_r_make_hosted_codec::<Fixture>();
    let owner = Fixture {
        bytes: vec![5, 6, 7],
    };
    let wire_bytes = (codec.to_wire)(&owner);
    let payload = (codec.from_wire_bytes)(&wire_bytes);
    let rebuilt: Fixture = rebuild_hosted(&payload);
    assert_eq!(
        rebuilt,
        Fixture {
            bytes: vec![5, 6, 7]
        },
        "worker reconstructor must produce the original Hosted dep type"
    );
}

/// A hosted dependency that is also called remotely. The bytes are its descriptor.
#[derive(Debug)]
struct BothFixture {
    bytes: Vec<u8>,
    counter: Mutex<u64>,
}

impl BothFixture {
    fn new(bytes: Vec<u8>) -> Self {
        Self {
            bytes,
            counter: Mutex::new(0),
        }
    }

    fn answer(&self, method_idx: u32) -> Result<Vec<u8>, String> {
        if method_idx == 1 {
            let mut g = self.counter.lock().map_err(|e| e.to_string())?;
            *g += 1;
            Ok(g.to_be_bytes().to_vec())
        } else {
            Err(format!("BothFixture: unknown method_idx {method_idx}"))
        }
    }
}

impl HostedDep for BothFixture {
    fn descriptor(&self) -> Vec<u8> {
        self.bytes.clone()
    }

    fn from_descriptor(bytes: &[u8]) -> Self {
        Self::new(bytes.to_vec())
    }
}

struct BothStub {
    channel: HostedRpcChannel<DummyTransport>,
}

impl HostedRpcDep for BothFixture {
    type Transport = DummyTransport;
    type Stub = BothStub;

    fn dispatch(&mut self, method_idx: u32, _args: &[u8]) -> Result<Vec<u8>, String> {
        self.answer(method_idx)
    }

    fn build_stub(channel: HostedRpcChannel<DummyTransport>) -> Self::Stub {
        BothStub { channel }
    }
}

impl HostedRpcShared for BothFixture {
    fn dispatch_shared(&self, method_idx: u32, _args: &[u8]) -> Result<Vec<u8>, String> {
        self.answer(method_idx)
    }
}

/// Calls the last holder of a cell over the route that its mode asks for.
fn dispatch_cell_for_test(
    cell: Arc<HostedRpcOwnerCell<SharedDispatcher<BothFixture>>>,
    method_idx: u32,
    args: &[u8],
) -> Result<Vec<u8>, String> {
    let mut cell = Arc::try_unwrap(cell).ok().expect("the only holder");
    match cell.mode {
        CellMode::Sync => cell.dispatch(method_idx, args),
        CellMode::Async => cell.dispatch_async(method_idx, args),
    }
}

#[test]
fn make_hosted_both_shared_captures_descriptor_bytes() {
    for async_runtime in [true, false] {
        let owner = BothFixture::new(vec![10, 20, 30]);
        let shared = __test_r_make_hosted_both_shared(async_runtime, owner);
        assert_eq!(shared.descriptor_bytes(), &[10, 20, 30]);
        let HostedBothShared { rpc_cell, .. } = shared;
        let reply = dispatch_cell_for_test(rpc_cell, 1, &[]).expect("dispatch must succeed");
        assert_eq!(reply, 1u64.to_be_bytes().to_vec());
    }
}

#[test]
fn make_hosted_both_codec_serializes_descriptor_bytes() {
    let codec = __test_r_make_hosted_both_codec::<BothFixture>();
    let shared =
        __test_r_make_hosted_both_shared(false, BothFixture::new(vec![1, 2, 3, 4]));

    let wire_bytes = (codec.to_wire)(&shared);
    assert_eq!(wire_bytes, vec![1, 2, 3, 4]);

    let recovered_bytes = (codec.from_wire_bytes)(&wire_bytes);
    assert_eq!(recovered_bytes, vec![1, 2, 3, 4]);
}

#[test]
fn make_hosted_both_rpc_factory_extracts_owner_cell() {
    for async_runtime in [true, false] {
        let factory = __test_r_make_hosted_both_rpc_factory::<BothFixture>();
        let shared = __test_r_make_hosted_both_shared(async_runtime, BothFixture::new(vec![]));

        let cell = (factory.owner_into_cell)(&shared);
        assert!(
            Arc::ptr_eq(&cell, &shared.rpc_cell()),
            "factory must return the exact same inner HostedRpcOwnerCell Arc the \
             shared cell holds; otherwise the RPC view would dispatch against a \
             different owner than the descriptor view captured"
        );

        let owner = shared.owner_arc();
        drop(shared);
        let reply = dispatch_cell_for_test(cell, 1, &[]).expect("dispatch must succeed");
        assert_eq!(reply, 1u64.to_be_bytes().to_vec());
        assert_eq!(*owner.counter.lock().unwrap(), 1);
    }
}

#[test]
fn make_hosted_both_rpc_factory_builds_stub() {
    let factory = __test_r_make_hosted_both_rpc_factory::<BothFixture>();
    let transport = Arc::new(DummyTransport);
    let channel = HostedRpcChannel::new("test::both_fixture".to_string(), transport);

    let stub: BothStub = (factory.build_stub)(channel);
    assert_eq!(stub.channel.dep_id(), "test::both_fixture");
    assert_eq!(stub.channel.call(1, vec![]).ok(), Some(vec![]));
}

#[test]
fn stub_of_a_remote_only_dependency_keeps_its_channel() {
    let factory = __test_r_make_hosted_rpc_factory::<SyncOnlyOwner>();
    let channel = HostedRpcChannel::new("c::owner".to_string(), Arc::new(DummyTransport));
    let stub = (factory.build_stub)(channel.clone());
    assert_eq!(stub.channel.dep_id(), channel.dep_id());
}

#[test]
fn cell_of_a_remote_only_dependency_is_its_value() {
    let factory = __test_r_make_hosted_rpc_factory::<SyncOnlyOwner>();
    let value = Arc::new(__test_r_make_hosted_rpc_cell(false, SyncOnlyOwner { next: 0 }));
    let cell = (factory.owner_into_cell)(value.clone());
    assert!(Arc::ptr_eq(&cell, &value));
}

#[test]
fn cell_of_an_async_owner_refuses_routes_that_cannot_await() {
    let mut cell = __test_r_make_hosted_rpc_cell(true, SyncOnlyOwner { next: 0 });
    assert_eq!(
        cell.dispatch(0, &[]),
        Err("hosted rpc owner cell uses the async dispatch path; use dispatch_async or dispatch_blocking".to_string())
    );
    assert_eq!(
        cell.dispatch_blocking(RuntimeFlavor::Absent, 0, &[]),
        Err("hosted rpc owner is async-only and no Tokio runtime is active at the dispatch site".to_string())
    );
    assert_eq!(
        cell.dispatch_blocking(RuntimeFlavor::CurrentThread, 0, &[]),
        Err("hosted rpc owner is async-only and the current Tokio runtime is not multi-threaded".to_string())
    );
    assert_eq!(
        cell.dispatch_blocking(RuntimeFlavor::MultiThread, 0, &[]),
        Ok(1u64.to_be_bytes().to_vec())
    );
    assert_eq!(cell.refused(DispatchRoute::Awaited), None);
}

#[test]
fn cell_of_a_sync_owner_serves_every_route() {
    let mut cell = __test_r_make_hosted_rpc_cell(false, SyncOnlyOwner { next: 0 });
    assert_eq!(cell.dispatch(0, &[]), Ok(1u64.to_be_bytes().to_vec()));
    assert_eq!(cell.dispatch_async(0, &[]), Ok(2u64.to_be_bytes().to_vec()));
    assert_eq!(
        cell.dispatch_blocking(RuntimeFlavor::Absent, 0, &[]),
        Ok(3u64.to_be_bytes().to_vec())
    );
    assert_eq!(
        cell.dispatch(5, &[]),
        Err("SyncOnlyOwner: unknown method_idx 5".to_string())
    );
    assert!(!cell.poisoned);
}

/// Counts how often it is called, and panics without a message.
struct Panicking {
    calls: usize,
}

impl HostedRpcDispatcher for Panicking {
    fn dispatch_outcome(&mut self, _method_idx: u32, _args: &[u8]) -> DispatchOutcome {
        self.calls += 1;
        DispatchOutcome::Panicked(None)
    }
}

#[test]
fn panicked_owner_is_called_once_whatever_the_route() {
    let mut cell = HostedRpcOwnerCell::from_owner(Panicking { calls: 0 });
    assert_eq!(
        cell.dispatch_async(1, &[]),
        Err("hosted rpc owner panicked: <non-string panic payload>".to_string())
    );
    for _ in 0..3 {
        assert_eq!(
            cell.dispatch(1, &[]),
            Err("hosted rpc owner poisoned".to_string())
        );
        assert_eq!(
            cell.dispatch_blocking(RuntimeFlavor::MultiThread, 1, &[]),
            Err("hosted rpc owner poisoned".to_string())
        );
    }
    assert_eq!(cell.owner.calls, 1);
}

#[test]
fn errors_say_where_the_call_failed() {
    assert_eq!(
        HostedRpcError::Dispatch("a".to_string()).message(),
        "hosted rpc dispatch error: a"
    );
    assert_eq!(
        HostedRpcError::Transport("b".to_string()).message(),
        "hosted rpc transport error: b"
    );
}
