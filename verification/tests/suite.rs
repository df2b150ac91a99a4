use std::cell::Cell;
use std::rc::Rc;
use std::sync::{Arc, Mutex};
use std::time::Duration;
use test_r_core::args::Arguments;
use test_r_core::execution::collect::{
    DepWireBytes, HostedDescriptorCollection, ParentSharedDependencies,
};
use test_r_core::execution::suite::{TestExecution, TestSuiteExecution};
use test_r_core::execution::values::{DependencyMap, DependencyView};
use test_r_core::hosted::{
    AsyncHostedRpcDep, DispatchOutcome, DispatchRoute, HostedRpcChannel, HostedRpcDep, HostedRpcDispatcher,
    HostedRpcError, HostedRpcOwnerCell, HostedRpcTransport, InProcessHostedRpcTransport,
    RuntimeFlavor,
};
use test_r_core::internal::{
    CloneableCodec, DepScope, DependencyConstructor, HostId, RegisteredDependency, RegisteredTest,
    RegisteredTestSuiteProperty, RpcFactory, TestFunction, TestProperties, WorkerReconstructor,
};
use test_r_core::sync::wire::{apply_hosted_descriptors_locally, build_worker_wire_codecs};

/// What runs behind the handles: each constructor yields a value and counts its runs.
struct Host {
    constructors: Vec<(u64, Rc<Cell<usize>>)>,
}

type Collected = ParentSharedDependencies<u64, HostedRpcOwnerCell<RpcCounter>>;

impl Host {
    fn new() -> Self {
        Host {
            constructors: Vec::new(),
        }
    }

    fn constructor(&mut self, value: u64, counter: &Rc<Cell<usize>>) -> DependencyConstructor {
        self.constructors.push((value, counter.clone()));
        DependencyConstructor::Sync(self.constructors.len() - 1)
    }

    fn construct(&self, dep: &RegisteredDependency) -> Arc<u64> {
        let id = match dep.constructor {
            DependencyConstructor::Sync(id) => id,
            DependencyConstructor::Async(id) => id,
        };
        let (value, counter) = &self.constructors[id];
        counter.set(counter.get() + 1);
        Arc::new(*value)
    }

    fn pick(&self, execution: &mut TestSuiteExecution<u64>) -> Option<TestExecution<u64>> {
        execution.pick_next_sync(&|dep: &RegisteredDependency, _: &DependencyMap<u64>| {
            self.construct(dep)
        })
    }

    /// Values travel as their bytes, and owners of remotely called dependencies are counters.
    fn collect(&self, execution: &TestSuiteExecution<u64>) -> Collected {
        execution.collect_parent_shared_dependencies_sync(
            &|dep: &RegisteredDependency, _: &DependencyMap<u64>| self.construct(dep),
            &|_: HostId, value: &Arc<u64>| value.to_le_bytes().to_vec(),
            &|_: HostId, _: &Arc<u64>| {
                HostedRpcOwnerCell::from_owner(RpcCounter { n: 0 })
            },
        )
    }

    fn collect_wire_bytes(&self, execution: &TestSuiteExecution<u64>) -> Vec<DepWireBytes> {
        execution.collect_cloneable_wire_bytes_sync(
            &|dep: &RegisteredDependency, _: &DependencyMap<u64>| self.construct(dep),
            &|_: HostId, value: &Arc<u64>| value.to_le_bytes().to_vec(),
            &|_: HostId, _: &Arc<u64>| {
                HostedRpcOwnerCell::from_owner(RpcCounter { n: 0 })
            },
        )
    }

    fn collect_descriptors(
        &self,
        execution: &TestSuiteExecution<u64>,
    ) -> HostedDescriptorCollection<u64> {
        execution.collect_hosted_descriptor_bytes_sync(
            &|dep: &RegisteredDependency, _: &DependencyMap<u64>| self.construct(dep),
            &|_: HostId, value: &Arc<u64>| value.to_le_bytes().to_vec(),
            &|_: HostId, _: &Arc<u64>| {
                HostedRpcOwnerCell::from_owner(RpcCounter { n: 0 })
            },
        )
    }

    fn collect_cells(
        &self,
        execution: &TestSuiteExecution<u64>,
    ) -> Vec<(String, HostedRpcOwnerCell<RpcCounter>)> {
        execution.collect_hosted_rpc_owner_cells_sync(
            &|dep: &RegisteredDependency, _: &DependencyMap<u64>| self.construct(dep),
            &|_: HostId, value: &Arc<u64>| value.to_le_bytes().to_vec(),
            &|_: HostId, _: &Arc<u64>| {
                HostedRpcOwnerCell::from_owner(RpcCounter { n: 0 })
            },
        )
    }
}

fn counter() -> Rc<Cell<usize>> {
    Rc::new(Cell::new(0))
}

fn plan(
    deps: Vec<RegisteredDependency>,
    tests: Vec<RegisteredTest>,
) -> TestSuiteExecution<u64> {
    TestSuiteExecution::construct(&Arguments::default(), &deps, &tests, &vec![]).0
}

fn registered_test(name: &str, deps: Vec<String>) -> RegisteredTest {
    registered_test_in_module(name, "", deps)
}

fn registered_test_in_module(name: &str, module: &str, deps: Vec<String>) -> RegisteredTest {
    RegisteredTest {
        name: name.to_string(),
        crate_name: "tcrate".to_string(),
        module: module.to_string(),
        run: TestFunction::Sync(0),
        props: TestProperties::default(),
        dependencies: Some(deps),
    }
}

fn registered_dep(
    name: &str,
    module: &str,
    scope: DepScope,
    constructor: DependencyConstructor,
) -> RegisteredDependency {
    RegisteredDependency {
        name: name.to_string(),
        crate_name: "tcrate".to_string(),
        module: module.to_string(),
        constructor,
        dependencies: Vec::new(),
        scope,
        worker_fn: None,
        cloneable_codec: None,
        hosted_codec: None,
        rpc_factory: None,
        companions: Vec::new(),
    }
}

fn registered_cloneable_dep(
    host: &mut Host,
    name: &str,
    counter: &Rc<Cell<usize>>,
) -> RegisteredDependency {
    registered_cloneable_dep_in(host, name, "", 0xdead_beef, counter)
}

fn registered_cloneable_dep_in(
    host: &mut Host,
    name: &str,
    module: &str,
    constructor_value: u64,
    counter: &Rc<Cell<usize>>,
) -> RegisteredDependency {
    let constructor = host.constructor(constructor_value, counter);
    let mut dep = registered_dep(name, module, DepScope::Cloneable, constructor);
    dep.worker_fn = Some(WorkerReconstructor::Sync(0));
    dep.cloneable_codec = Some(CloneableCodec {
        to_wire: 0,
        from_wire_bytes: 0,
    });
    dep
}

fn registered_hosted_dep(
    host: &mut Host,
    name: &str,
    payload: u64,
    owner_counter: &Rc<Cell<usize>>,
) -> RegisteredDependency {
    registered_hosted_dep_in(host, name, "", payload, owner_counter)
}

fn registered_hosted_dep_in(
    host: &mut Host,
    name: &str,
    module: &str,
    payload: u64,
    owner_counter: &Rc<Cell<usize>>,
) -> RegisteredDependency {
    let constructor = host.constructor(payload, owner_counter);
    let mut dep = registered_dep(name, module, DepScope::Hosted, constructor);
    dep.worker_fn = Some(WorkerReconstructor::Sync(0));
    dep.hosted_codec = Some(CloneableCodec {
        to_wire: 0,
        from_wire_bytes: 0,
    });
    dep
}

fn registered_hosted_rpc_dep(
    host: &mut Host,
    name: &str,
    module: &str,
    owner_counter: &Rc<Cell<usize>>,
) -> RegisteredDependency {
    let constructor = host.constructor(0, owner_counter);
    let mut dep = registered_dep(name, module, DepScope::HostedRpc, constructor);
    dep.rpc_factory = Some(RpcFactory {
        owner_into_cell: 0,
        build_stub: 0,
    });
    dep
}

/// A counter that goes up with every call of method 1.
struct RpcCounter {
    n: u64,
}

impl HostedRpcDep for RpcCounter {
    type Transport = Local<RpcCounter>;
    type Stub = RpcCounterStub;

    fn dispatch(&mut self, method_idx: u32, args: &[u8]) -> Result<Vec<u8>, String> {
        match method_idx {
            1 => {
                self.n += 1;
                Ok(self.n.to_be_bytes().to_vec())
            }
            // The arguments are a size; the answer is that many bytes of a
            // known pattern, so that lost and moved bytes show.
            2 => {
                let arr: [u8; 4] = args
                    .try_into()
                    .map_err(|_| "method_idx=2 requires exactly 4 bytes (size)".to_string())?;
                let size = u32::from_be_bytes(arr) as usize;
                let mut out = vec![0u8; size];
                for (i, b) in out.iter_mut().enumerate() {
                    *b = (i % 251) as u8;
                }
                Ok(out)
            }
            other => Err(format!("RpcCounter: unknown method_idx {other}")),
        }
    }

    fn build_stub(channel: HostedRpcChannel<Local<RpcCounter>>) -> Self::Stub {
        RpcCounterStub { channel }
    }
}

struct RpcCounterStub {
    channel: HostedRpcChannel<Local<RpcCounter>>,
}

impl RpcCounterStub {
    fn next(&self) -> u64 {
        let bytes = self.channel.call(1, Vec::new()).expect("rpc call");
        let arr: [u8; 8] = bytes.as_slice().try_into().unwrap();
        u64::from_be_bytes(arr)
    }

    fn echo(&self, size: u32) -> Vec<u8> {
        self.channel
            .call(2, size.to_be_bytes().to_vec())
            .expect("echo rpc call")
    }
}

fn active_runtime() -> RuntimeFlavor {
    match tokio::runtime::Handle::try_current() {
        Err(_) => RuntimeFlavor::Absent,
        Ok(handle) => match handle.runtime_flavor() {
            tokio::runtime::RuntimeFlavor::CurrentThread => RuntimeFlavor::CurrentThread,
            _ => RuntimeFlavor::MultiThread,
        },
    }
}

/// The in-process transport, shared between stubs.
struct Local<O: HostedRpcDispatcher> {
    inner: Mutex<InProcessHostedRpcTransport<O>>,
}

impl<O: HostedRpcDispatcher> Local<O> {
    fn new(cells: Vec<(String, HostedRpcOwnerCell<O>)>) -> Arc<Self> {
        Arc::new(Local {
            inner: Mutex::new(InProcessHostedRpcTransport::new(cells)),
        })
    }
}

impl<O: HostedRpcDispatcher> HostedRpcTransport for Local<O> {
    fn call(
        &self,
        dep_id: &str,
        method_idx: u32,
        args: Vec<u8>,
    ) -> Result<Vec<u8>, HostedRpcError> {
        self.inner.lock().unwrap().call(
            DispatchRoute::Blocking(active_runtime()),
            dep_id,
            method_idx,
            &args,
        )
    }
}

/// An owner whose every call panics.
struct PanickingRpcOwner;

impl HostedRpcDispatcher for PanickingRpcOwner {
    fn dispatch_outcome(&mut self, _method_idx: u32, _args: &[u8]) -> DispatchOutcome {
        DispatchOutcome::Panicked(Some("owner_panic_for_test".to_string()))
    }
}

#[test]
fn tests_cloneable_wire_collection_runs_constructor_once_and_encodes_value() {
    let mut host = Host::new();
    let counter = counter();
    let dep = registered_cloneable_dep(&mut host, "clone_dep", &counter);
    let test = registered_test("t1", vec!["clone_dep".to_string()]);

    let execution = plan(vec![dep], vec![test]);

    let collected = host.collect_wire_bytes(&execution);
    assert_eq!(collected.len(), 1, "exactly one cloneable dep expected");
    let (dep_id, wire_bytes) = &collected[0];
    assert_eq!(
        dep_id, "tcrate::clone_dep",
        "wire bytes must be keyed by the fully-qualified id, not the local name"
    );
    assert_eq!(
        wire_bytes.as_slice(),
        &0xdead_beef_u64.to_le_bytes(),
        "expected the codec-encoded value to round-trip via to_wire"
    );
    assert_eq!(
        counter.get(),
        1,
        "constructor must have run exactly once when collecting"
    );
}

#[test]
fn tests_prune_unused_deps_retains_companion_when_only_one_half_is_referenced() {
    // Only `clone_a` is referenced; its companion stays too.
    let mut host = Host::new();
    let mut dep_a = registered_cloneable_dep(&mut host, "clone_a", &counter());
    let mut dep_b = registered_cloneable_dep(&mut host, "clone_b", &counter());
    dep_a.companions = vec!["clone_b".to_string()];
    dep_b.companions = vec!["clone_a".to_string()];
    let test_a = registered_test("t_uses_a", vec!["clone_a".to_string()]);

    let execution = plan(vec![dep_a, dep_b], vec![test_a]);

    let kept: Vec<String> = execution
        .collect_cloneable_dependencies()
        .into_iter()
        .map(|d| d.name)
        .collect();
    assert!(
        kept.contains(&"clone_a".to_string()),
        "directly referenced dep must be retained, kept = {kept:?}"
    );
    assert!(
        kept.contains(&"clone_b".to_string()),
        "companion of a retained dep must also be retained, kept = {kept:?}"
    );

    // The other way round.
    let mut dep_a = registered_cloneable_dep(&mut host, "clone_a", &counter());
    let mut dep_b = registered_cloneable_dep(&mut host, "clone_b", &counter());
    dep_a.companions = vec!["clone_b".to_string()];
    dep_b.companions = vec!["clone_a".to_string()];
    let test_b = registered_test("t_uses_b", vec!["clone_b".to_string()]);

    let execution = plan(vec![dep_a, dep_b], vec![test_b]);

    let kept: Vec<String> = execution
        .collect_cloneable_dependencies()
        .into_iter()
        .map(|d| d.name)
        .collect();
    assert!(
        kept.contains(&"clone_a".to_string()),
        "companion of a stub-referenced dep must be retained, kept = {kept:?}"
    );
    assert!(
        kept.contains(&"clone_b".to_string()),
        "directly referenced dep must be retained, kept = {kept:?}"
    );

    // Without the link what is not referenced goes.
    let dep_a = registered_cloneable_dep(&mut host, "clone_a", &counter());
    let dep_b = registered_cloneable_dep(&mut host, "clone_b", &counter());
    let test_a = registered_test("t_uses_a", vec!["clone_a".to_string()]);

    let execution = plan(vec![dep_a, dep_b], vec![test_a]);

    let kept: Vec<String> = execution
        .collect_cloneable_dependencies()
        .into_iter()
        .map(|d| d.name)
        .collect();
    assert!(
        kept.contains(&"clone_a".to_string()),
        "directly referenced dep must be retained, kept = {kept:?}"
    );
    assert!(
        !kept.contains(&"clone_b".to_string()),
        "without a companion link, an unreferenced dep must be pruned; \
         kept = {kept:?}"
    );
}

#[test]
fn tests_provide_cloneable_value_short_circuits_constructor() {
    let mut host = Host::new();
    let counter = counter();
    let dep = registered_cloneable_dep(&mut host, "clone_dep", &counter);
    let test = registered_test("t1", vec!["clone_dep".to_string()]);

    let mut execution = plan(vec![dep], vec![test]);

    let applied = execution.provide_cloneable_value("tcrate::clone_dep", Arc::new(99_u64));
    assert!(
        applied,
        "pre-populated value should match the dep's qualified id"
    );

    let next = host.pick(&mut execution).expect("test should be picked");
    assert_eq!(next.test.name, "t1");

    let value = next.deps.get("clone_dep").expect("dep available");
    assert_eq!(*value, 99);

    assert_eq!(
        counter.get(),
        0,
        "constructor must not run when a pre-populated value is supplied"
    );
}

#[test]
fn tests_provided_shared_value_is_a_worker_side_leaf() {
    let mut host = Host::new();
    let provided_counter = counter();
    let parent_only_counter = counter();
    let mut provided_dep = registered_cloneable_dep(&mut host, "clone_dep", &provided_counter);
    provided_dep.dependencies = vec!["parent_only_dep".to_string()];
    let parent_only_dep =
        registered_cloneable_dep(&mut host, "parent_only_dep", &parent_only_counter);
    let test = registered_test("t1", vec!["clone_dep".to_string()]);

    let mut execution = plan(vec![provided_dep, parent_only_dep], vec![test]);

    let applied = execution.provide_cloneable_value("tcrate::clone_dep", Arc::new(99_u64));
    assert!(applied);

    let next = host.pick(&mut execution).expect("test should be picked");
    let value = next.deps.get("clone_dep").expect("dep available");
    assert_eq!(*value, 99);
    assert_eq!(
        provided_counter.get(),
        0,
        "worker-side provided values must not run their original constructor"
    );
    assert_eq!(
        parent_only_counter.get(),
        0,
        "constructor dependencies are parent-only once a value arrives from wire bytes or an RPC stub"
    );
}

#[test]
fn tests_async_cloneable_wire_collection_awaits_async_constructor() {
    let counter = counter();
    let mut dep = registered_dep(
        "clone_dep",
        "",
        DepScope::Cloneable,
        DependencyConstructor::Async(0),
    );
    assert_eq!(dep.crate_name, "tcrate");
    dep.worker_fn = Some(WorkerReconstructor::Sync(0));
    dep.cloneable_codec = Some(CloneableCodec {
        to_wire: 0,
        from_wire_bytes: 0,
    });
    let test = registered_test("t1", vec!["clone_dep".to_string()]);

    let execution = plan(vec![dep], vec![test]);

    let runtime = tokio::runtime::Builder::new_current_thread()
        .enable_all()
        .build()
        .unwrap();
    let collected: Collected = execution.collect_parent_shared_dependencies_sync(
        &|_: &RegisteredDependency, _: &DependencyMap<u64>| {
            runtime.block_on(async {
                tokio::task::yield_now().await;
                counter.set(counter.get() + 1);
                Arc::new(0xdead_beef_u64)
            })
        },
        &|_: HostId, value: &Arc<u64>| value.to_le_bytes().to_vec(),
        &|_: HostId, _: &Arc<u64>| {
            HostedRpcOwnerCell::from_owner(RpcCounter { n: 0 })
        },
    );
    let collected = collected.cloneable_wire_bytes;

    assert_eq!(collected.len(), 1);
    assert_eq!(collected[0].0, "tcrate::clone_dep");
    assert_eq!(collected[0].1.as_slice(), &0xdead_beef_u64.to_le_bytes());
    assert_eq!(
        counter.get(),
        1,
        "async constructor must have run exactly once"
    );
}

#[test]
fn tests_cloneable_value_routing_uses_qualified_id_across_modules() {
    let mut host = Host::new();
    let counter_a = counter();
    let counter_b = counter();

    // Same local name `clone_dep`, different modules.
    let dep_a = registered_cloneable_dep_in(&mut host, "clone_dep", "mod_a", 11, &counter_a);
    let dep_b = registered_cloneable_dep_in(&mut host, "clone_dep", "mod_b", 22, &counter_b);

    // One test per module, each takes "clone_dep" from its own module.
    let test_a = registered_test_in_module("t_a", "mod_a", vec!["clone_dep".to_string()]);
    let test_b = registered_test_in_module("t_b", "mod_b", vec!["clone_dep".to_string()]);

    let mut execution = plan(vec![dep_a, dep_b], vec![test_a, test_b]);

    let mut collected = host.collect_wire_bytes(&execution);
    collected.sort();
    assert_eq!(collected.len(), 2);
    assert_eq!(collected[0].0, "tcrate::mod_a::clone_dep");
    assert_eq!(collected[1].0, "tcrate::mod_b::clone_dep");
    assert_eq!(collected[0].1.as_slice(), &11_u64.to_le_bytes());
    assert_eq!(collected[1].1.as_slice(), &22_u64.to_le_bytes());

    let applied_a =
        execution.provide_cloneable_value("tcrate::mod_a::clone_dep", Arc::new(111_u64));
    assert!(applied_a, "mod_a dep must be reachable by qualified id");
    let applied_b =
        execution.provide_cloneable_value("tcrate::mod_b::clone_dep", Arc::new(222_u64));
    assert!(applied_b, "mod_b dep must be reachable by qualified id");

    let applied_unknown =
        execution.provide_cloneable_value("tcrate::mod_c::clone_dep", Arc::new(333_u64));
    assert!(
        !applied_unknown,
        "unknown qualified id must not be applied anywhere"
    );

    let first = host.pick(&mut execution).expect("first test");
    let second = host.pick(&mut execution).expect("second test");

    let pairs: Vec<(String, u64)> = [first, second]
        .into_iter()
        .map(|n| {
            let v = n.deps.get("clone_dep").expect("dep available");
            (n.test.name, *v)
        })
        .collect();

    let val_a = pairs
        .iter()
        .find(|(n, _)| n == "t_a")
        .expect("t_a picked")
        .1;
    let val_b = pairs
        .iter()
        .find(|(n, _)| n == "t_b")
        .expect("t_b picked")
        .1;
    assert_eq!(
        val_a, 111,
        "mod_a test must see mod_a's pre-populated value"
    );
    assert_eq!(
        val_b, 222,
        "mod_b test must see mod_b's pre-populated value"
    );

    assert_eq!(
        counter_a.get(),
        1,
        "mod_a constructor must have run exactly once (during wire collection)"
    );
    assert_eq!(
        counter_b.get(),
        1,
        "mod_b constructor must have run exactly once (during wire collection)"
    );
}

#[test]
fn tests_hosted_descriptor_collection_runs_owner_once_and_keeps_it_alive() {
    let mut host = Host::new();
    let owner_counter = counter();
    let dep = registered_hosted_dep(
        &mut host,
        "hosted_dep",
        0xcafe_babe_dead_beef,
        &owner_counter,
    );
    let test = registered_test("t1", vec!["hosted_dep".to_string()]);

    let execution = plan(vec![dep], vec![test]);

    let (descriptors, owners) = host.collect_descriptors(&execution);
    assert_eq!(descriptors.len(), 1, "exactly one hosted dep expected");
    assert_eq!(owners.len(), 1, "exactly one hosted owner kept alive");

    let (dep_id, descriptor_bytes) = &descriptors[0];
    assert_eq!(
        dep_id, "tcrate::hosted_dep",
        "descriptor must be keyed by the fully-qualified id"
    );
    assert_eq!(
        descriptor_bytes.as_slice(),
        &0xcafe_babe_dead_beef_u64.to_le_bytes(),
        "expected descriptor bytes to match codec.to_wire of payload"
    );
    assert_eq!(
        owner_counter.get(),
        1,
        "owner constructor must have run exactly once"
    );

    assert_eq!(*owners[0], 0xcafe_babe_dead_beef);
}

#[test]
fn tests_hosted_descriptor_roundtrips_to_worker_value_via_provide_cloneable_value() {
    let mut host = Host::new();
    let owner_counter = counter();
    let dep = registered_hosted_dep(&mut host, "hosted_dep", 0x1234_5678_u64, &owner_counter);
    let test = registered_test("t1", vec!["hosted_dep".to_string()]);

    let mut execution = plan(vec![dep], vec![test]);

    let applied =
        execution.provide_cloneable_value("tcrate::hosted_dep", Arc::new(0x1234_5678_u64));
    assert!(
        applied,
        "Hosted dep must accept pre-populated values via the same path as Cloneable"
    );

    let next = host.pick(&mut execution).expect("test should be picked");
    let value = next.deps.get("hosted_dep").expect("dep available");
    assert_eq!(*value, 0x1234_5678);
    assert_eq!(
        owner_counter.get(),
        0,
        "Hosted owner constructor must not run on the worker side"
    );
}

#[test]
fn tests_has_hosted_dependencies_reports_correctly() {
    let mut host = Host::new();
    let dep = registered_hosted_dep(&mut host, "h", 0, &counter());
    let test = registered_test("t1", vec!["h".to_string()]);
    let execution = plan(vec![dep], vec![test]);
    assert!(execution.has_hosted_dependencies());
    assert!(!execution.has_shared_dependencies());
    assert!(!execution.has_cloneable_dependencies());
}

#[test]
fn tests_hosted_owner_runs_exactly_once_even_when_collecting_multiple_times() {
    let mut host = Host::new();
    let counter_a = counter();
    let counter_b = counter();

    // Two distinct Hosted deps in the same module/crate.
    let dep_a = registered_hosted_dep(&mut host, "hosted_a", 1, &counter_a);
    let dep_b = registered_hosted_dep(&mut host, "hosted_b", 2, &counter_b);
    let test = registered_test("t1", vec!["hosted_a".to_string(), "hosted_b".to_string()]);
    let execution = plan(vec![dep_a, dep_b], vec![test]);

    let (descriptors, owners) = host.collect_descriptors(&execution);
    assert_eq!(descriptors.len(), 2);
    assert_eq!(owners.len(), 2);
    assert_eq!(counter_a.get(), 1);
    assert_eq!(counter_b.get(), 1);
}

#[test]
fn tests_hosted_descriptor_routing_uses_qualified_id_across_modules() {
    let mut host = Host::new();
    let counter_a = counter();
    let counter_b = counter();

    // Same local name `hosted_dep`, different modules.
    let dep_a = registered_hosted_dep_in(&mut host, "hosted_dep", "mod_a", 11, &counter_a);
    let dep_b = registered_hosted_dep_in(&mut host, "hosted_dep", "mod_b", 22, &counter_b);

    let test_a = registered_test_in_module("t_a", "mod_a", vec!["hosted_dep".to_string()]);
    let test_b = registered_test_in_module("t_b", "mod_b", vec!["hosted_dep".to_string()]);

    let mut execution = plan(vec![dep_a, dep_b], vec![test_a, test_b]);

    let mut descriptors = host.collect_descriptors(&execution).0;
    descriptors.sort();
    assert_eq!(descriptors.len(), 2);
    assert_eq!(descriptors[0].0, "tcrate::mod_a::hosted_dep");
    assert_eq!(descriptors[1].0, "tcrate::mod_b::hosted_dep");
    assert_eq!(descriptors[0].1.as_slice(), &11_u64.to_le_bytes());
    assert_eq!(descriptors[1].1.as_slice(), &22_u64.to_le_bytes());

    let applied_a =
        execution.provide_cloneable_value("tcrate::mod_a::hosted_dep", Arc::new(111_u64));
    assert!(
        applied_a,
        "mod_a hosted dep must be reachable by qualified id"
    );
    let applied_b =
        execution.provide_cloneable_value("tcrate::mod_b::hosted_dep", Arc::new(222_u64));
    assert!(
        applied_b,
        "mod_b hosted dep must be reachable by qualified id"
    );

    let applied_unknown =
        execution.provide_cloneable_value("tcrate::mod_c::hosted_dep", Arc::new(333_u64));
    assert!(
        !applied_unknown,
        "unknown qualified id must not be applied to any dep"
    );

    let first = host.pick(&mut execution).expect("first test");
    let second = host.pick(&mut execution).expect("second test");
    let pairs: Vec<(String, u64)> = [first, second]
        .into_iter()
        .map(|n| {
            let v = n.deps.get("hosted_dep").expect("dep available");
            (n.test.name, *v)
        })
        .collect();

    let val_a = pairs
        .iter()
        .find(|(n, _)| n == "t_a")
        .expect("t_a picked")
        .1;
    let val_b = pairs
        .iter()
        .find(|(n, _)| n == "t_b")
        .expect("t_b picked")
        .1;
    assert_eq!(val_a, 111);
    assert_eq!(val_b, 222);

    assert_eq!(counter_a.get(), 1);
    assert_eq!(counter_b.get(), 1);
}

#[test]
fn tests_hosted_no_spawn_workers_uses_worker_side_handle() {
    // The handle that a worker rebuilds differs from the owner in every bit.
    let mut host = Host::new();
    let owner_counter = counter();
    let owner_value: u64 = 0xAAAA_AAAA_AAAA_AAAA_u64;
    let dep = registered_hosted_dep(&mut host, "hosted_dep", owner_value, &owner_counter);
    assert_eq!(dep.crate_name, "tcrate");
    let deps = vec![dep];
    let codecs = build_worker_wire_codecs(&deps);
    let test = registered_test("t1", vec!["hosted_dep".to_string()]);

    let mut execution = plan(deps, vec![test]);

    let (descriptors, owners) = host.collect_descriptors(&execution);
    assert_eq!(descriptors.len(), 1);
    assert_eq!(owners.len(), 1);

    let applied = apply_hosted_descriptors_locally(
        &mut execution,
        &codecs,
        &descriptors,
        &|_: HostId, _: HostId, bytes: &Vec<u8>| {
            let arr: [u8; 8] = bytes.as_slice().try_into().unwrap();
            Arc::new(!u64::from_le_bytes(arr))
        },
    );
    assert!(applied.is_ok());

    let next = host.pick(&mut execution).expect("test picked");
    let value = next.deps.get("hosted_dep").expect("dep available");
    assert_eq!(
        *value,
        !owner_value,
        "Hosted dep must expose the worker-side handle (from_descriptor) even in the no-spawn-workers path"
    );
    assert_eq!(
        owner_counter.get(),
        1,
        "owner constructor must have run exactly once during descriptor collection"
    );
}

#[test]
fn tests_hosted_dep_with_owner_dependencies_constructs_in_parent_context() {
    let mut host = Host::new();
    let dep_counter = counter();
    let owner_counter = counter();
    let dep = registered_cloneable_dep(&mut host, "some_other_dep", &dep_counter);
    let mut hosted = registered_hosted_dep(&mut host, "h_with_deps", 0, &owner_counter);
    hosted.dependencies = vec!["some_other_dep".to_string()];
    let test = registered_test("t1", vec!["h_with_deps".to_string()]);
    let execution = plan(vec![dep, hosted], vec![test]);
    let collected = host.collect(&execution);

    assert_eq!(collected.hosted_descriptor_bytes.len(), 1);
    assert_eq!(dep_counter.get(), 1);
    assert_eq!(owner_counter.get(), 1);
}

#[test]
fn tests_async_hosted_descriptor_collection_awaits_async_constructor() {
    let counter = counter();
    let mut dep = registered_dep(
        "hosted_async",
        "",
        DepScope::Hosted,
        DependencyConstructor::Async(0),
    );
    assert_eq!(dep.crate_name, "tcrate");
    dep.worker_fn = Some(WorkerReconstructor::Sync(0));
    dep.hosted_codec = Some(CloneableCodec {
        to_wire: 0,
        from_wire_bytes: 0,
    });
    let test = registered_test("t1", vec!["hosted_async".to_string()]);

    let execution = plan(vec![dep], vec![test]);

    let runtime = tokio::runtime::Builder::new_current_thread()
        .enable_all()
        .build()
        .unwrap();
    let collected: Collected = execution.collect_parent_shared_dependencies_sync(
        &|_: &RegisteredDependency, _: &DependencyMap<u64>| {
            runtime.block_on(async {
                tokio::task::yield_now().await;
                counter.set(counter.get() + 1);
                Arc::new(42_u64)
            })
        },
        &|_: HostId, value: &Arc<u64>| value.to_le_bytes().to_vec(),
        &|_: HostId, _: &Arc<u64>| {
            HostedRpcOwnerCell::from_owner(RpcCounter { n: 0 })
        },
    );
    let descriptors = collected.hosted_descriptor_bytes;
    let owners = collected.hosted_owners;

    assert_eq!(descriptors.len(), 1);
    assert_eq!(owners.len(), 1);
    assert_eq!(descriptors[0].0, "tcrate::hosted_async");
    assert_eq!(descriptors[0].1.as_slice(), &42_u64.to_le_bytes());
    assert_eq!(counter.get(), 1);

    assert_eq!(*owners[0], 42);
}

#[test]
fn tests_hosted_rpc_owner_cells_collected_once_and_keyed_by_qualified_id() {
    let mut host = Host::new();
    let counter = counter();
    let dep = registered_hosted_rpc_dep(&mut host, "rpc_dep", "", &counter);
    let test = registered_test("t1", vec!["rpc_dep".to_string()]);

    let execution = plan(vec![dep], vec![test]);

    assert!(execution.has_hosted_rpc_dependencies());

    let cells = host.collect_cells(&execution);
    assert_eq!(cells.len(), 1, "exactly one hosted rpc dep expected");
    let (dep_id, _cell) = &cells[0];
    assert_eq!(dep_id, "tcrate::rpc_dep");
    assert_eq!(
        counter.get(),
        1,
        "owner constructor must run exactly once on the parent"
    );

    let cells_b = host.collect_cells(&execution);
    assert_eq!(cells_b.len(), 1);
    assert_eq!(
        counter.get(),
        2,
        "collecting runs the constructor on every call; \
         callers (the runner) are responsible for only calling it once per suite"
    );
}

#[test]
fn tests_hosted_rpc_owner_dependencies_construct_in_parent_context() {
    let mut host = Host::new();
    let parent_only_counter = counter();
    let owner_counter = counter();
    let parent_only_dep =
        registered_cloneable_dep(&mut host, "parent_only_dep", &parent_only_counter);
    let mut rpc_dep = registered_hosted_rpc_dep(&mut host, "rpc_dep", "", &owner_counter);
    rpc_dep.dependencies = vec!["parent_only_dep".to_string()];
    let test = registered_test("t1", vec!["rpc_dep".to_string()]);

    let execution = plan(vec![parent_only_dep, rpc_dep], vec![test]);

    let cells = host.collect_cells(&execution);
    assert_eq!(cells.len(), 1);
    assert_eq!(parent_only_counter.get(), 1);
    assert_eq!(owner_counter.get(), 1);
}

#[test]
fn tests_hosted_rpc_in_process_transport_routes_to_owner_cell() {
    let mut host = Host::new();
    let dep = registered_hosted_rpc_dep(&mut host, "rpc_dep", "", &counter());
    let test = registered_test("t1", vec!["rpc_dep".to_string()]);

    let execution = plan(vec![dep], vec![test]);

    let transport = Local::new(host.collect_cells(&execution));
    let channel = HostedRpcChannel::new("tcrate::rpc_dep".to_string(), transport.clone());
    let stub = <RpcCounter as HostedRpcDep>::build_stub(channel);

    assert_eq!(stub.next(), 1);
    assert_eq!(stub.next(), 2);
    assert_eq!(stub.next(), 3);
}

#[test]
fn tests_hosted_rpc_in_process_transport_returns_dispatch_error_on_unknown_method() {
    let mut host = Host::new();
    let dep = registered_hosted_rpc_dep(&mut host, "rpc_dep", "", &counter());
    let test = registered_test("t1", vec!["rpc_dep".to_string()]);

    let execution = plan(vec![dep], vec![test]);

    let transport = Local::new(host.collect_cells(&execution));
    let channel = HostedRpcChannel::new("tcrate::rpc_dep".to_string(), transport.clone());

    let err = channel.call(999, Vec::new()).unwrap_err();
    match err {
        HostedRpcError::Dispatch(msg) => {
            assert!(
                msg.contains("unknown method_idx 999"),
                "expected dispatch error to mention method_idx, got '{msg}'"
            );
        }
        HostedRpcError::Transport(msg) => {
            panic!("expected Dispatch error, got Transport({msg})");
        }
    }
}

#[test]
fn tests_hosted_rpc_in_process_transport_returns_transport_error_on_unknown_dep_id() {
    let cells: Vec<(String, HostedRpcOwnerCell<RpcCounter>)> = Vec::new();
    let transport = Local::new(cells);
    let channel = HostedRpcChannel::new("tcrate::missing_dep".to_string(), transport.clone());
    let err = channel.call(1, Vec::new()).unwrap_err();
    match err {
        HostedRpcError::Transport(msg) => {
            assert!(
                msg.contains("unknown dep id 'tcrate::missing_dep'"),
                "expected transport error to mention dep id, got '{msg}'"
            );
        }
        HostedRpcError::Dispatch(msg) => {
            panic!("expected Transport error, got Dispatch({msg})");
        }
    }
}

#[test]
fn tests_hosted_rpc_owner_panic_surfaces_then_poisons() {
    let mut cell = HostedRpcOwnerCell::from_owner(PanickingRpcOwner);

    let err1 = cell
        .dispatch(1, &[])
        .expect_err("first call must surface the panic as Err");
    assert!(
        err1.contains("hosted rpc owner panicked: owner_panic_for_test"),
        "expected first-call error to wrap the panic payload, got '{err1}'"
    );

    let err2 = cell
        .dispatch(1, &[])
        .expect_err("second call must short-circuit on the poisoned cell");
    assert_eq!(
        err2, "hosted rpc owner poisoned",
        "expected poisoned-cell error on the second call, got '{err2}'"
    );
}

#[test]
fn tests_hosted_rpc_in_process_transport_round_trips_large_payload_exceeding_64_kib() {
    let mut host = Host::new();
    let dep = registered_hosted_rpc_dep(&mut host, "rpc_dep", "", &counter());
    let test = registered_test("t1", vec!["rpc_dep".to_string()]);

    let execution = plan(vec![dep], vec![test]);
    let transport = Local::new(host.collect_cells(&execution));
    let channel = HostedRpcChannel::new("tcrate::rpc_dep".to_string(), transport);
    let stub = <RpcCounter as HostedRpcDep>::build_stub(channel);

    let size: u32 = 256 * 1024; // 256 KiB
    let bytes = stub.echo(size);
    assert_eq!(
        bytes.len(),
        size as usize,
        "framing dropped/truncated bytes"
    );
    for (i, b) in bytes.iter().enumerate() {
        assert_eq!(
            *b,
            (i % 251) as u8,
            "framing corrupted byte at index {i}: expected {}, got {b}",
            (i % 251) as u8
        );
    }
}

#[test]
fn tests_hosted_rpc_in_process_transport_multiplexes_concurrent_calls_from_threads() {
    let mut host = Host::new();
    let dep = registered_hosted_rpc_dep(&mut host, "rpc_dep", "", &counter());
    let test = registered_test("t1", vec!["rpc_dep".to_string()]);

    let execution = plan(vec![dep], vec![test]);
    let transport = Local::new(host.collect_cells(&execution));

    let n: usize = 4;
    let m: usize = 32;
    let runtime = tokio::runtime::Builder::new_multi_thread()
        .enable_all()
        .build()
        .expect("build tokio runtime");
    let mut handles = Vec::new();
    for _ in 0..n {
        let dep_id = "tcrate::rpc_dep".to_string();
        let transport = transport.clone();
        handles.push(runtime.spawn_blocking(move || {
            let channel = HostedRpcChannel::new(dep_id, transport);
            let stub = <RpcCounter as HostedRpcDep>::build_stub(channel);
            let mut ids = Vec::with_capacity(m);
            for _ in 0..m {
                ids.push(stub.next());
            }
            ids
        }));
    }
    let mut all = Vec::with_capacity(n * m);
    for h in handles {
        all.extend(runtime.block_on(h).expect("thread panicked"));
    }
    all.sort();
    let mut prev: u64 = 0;
    for id in &all {
        assert!(
            *id > prev,
            "duplicate or non-monotonic id {id} after {prev}"
        );
        prev = *id;
    }
    assert_eq!(
        all.len(),
        n * m,
        "expected exactly {} ids in total, got {}",
        n * m,
        all.len()
    );
}

fn registered_perworker_counting_dep(
    host: &mut Host,
    name: &str,
    module: &str,
    counter: &Rc<Cell<usize>>,
) -> RegisteredDependency {
    let constructor = host.constructor(0, counter);
    registered_dep(name, module, DepScope::PerWorker, constructor)
}

/// Two tests of a sequential suite that use a dependency of the suite above it.
fn sequential_plan(host: &mut Host, counter: &Rc<Cell<usize>>) -> TestSuiteExecution<u64> {
    let dep = registered_perworker_counting_dep(host, "perworker_dep", "parent", counter);
    let test_a =
        registered_test_in_module("t_a", "parent::child", vec!["perworker_dep".to_string()]);
    let test_b =
        registered_test_in_module("t_b", "parent::child", vec!["perworker_dep".to_string()]);
    let sequential_prop = RegisteredTestSuiteProperty::Sequential {
        name: "child".to_string(),
        crate_name: "tcrate".to_string(),
        module: "parent".to_string(),
    };
    TestSuiteExecution::construct(
        &Arguments::default(),
        &vec![dep],
        &vec![test_a, test_b],
        &vec![sequential_prop],
    )
    .0
}

#[test]
fn perworker_dep_not_rematerialised_when_descendant_subtree_is_locked() {
    let mut host = Host::new();
    let counter = counter();
    let mut execution = sequential_plan(&mut host, &counter);

    // The first test holds the lock of `parent::child` until it is finished.
    let first = host
        .pick(&mut execution)
        .expect("first test should be picked");
    assert_eq!(
        counter.get(),
        1,
        "PerWorker constructor must run once when the parent subtree first materialises"
    );

    let none = host.pick(&mut execution);
    assert!(
        none.is_none(),
        "no test should be picked while the sequential lock is held"
    );

    execution.finish(first);
    let second = host
        .pick(&mut execution)
        .expect("second test should be picked");
    execution.finish(second);

    assert_eq!(
        counter.get(),
        1,
        "PerWorker constructor must remain one per process — a temporarily-locked \
         descendant subtree must not cause the parent's materialised deps to be \
         released and rematerialised"
    );
}

#[test]
fn perworker_dep_not_rematerialised_when_descendant_subtree_is_locked_async() {
    let runtime = tokio::runtime::Builder::new_current_thread()
        .enable_all()
        .build()
        .unwrap();

    runtime.block_on(async {
        let mut host = Host::new();
        let counter = counter();
        let mut execution = sequential_plan(&mut host, &counter);

        let first = host
            .pick(&mut execution)
            .expect("first test should be picked");
        assert_eq!(
            counter.get(),
            1,
            "PerWorker constructor must run once when the parent subtree first materialises"
        );
        tokio::task::yield_now().await;

        let none = host.pick(&mut execution);
        assert!(
            none.is_none(),
            "no test should be picked while the sequential lock is held"
        );
        tokio::task::yield_now().await;

        execution.finish(first);
        let second = host
            .pick(&mut execution)
            .expect("second test should be picked");
        execution.finish(second);

        assert_eq!(
            counter.get(),
            1,
            "PerWorker constructor must remain one per process on the async path"
        );
    });
}

/// An owner whose methods are asynchronous: a call gives what they resolve to.
struct AsyncRpcCounter {
    n: u64,
}

impl AsyncHostedRpcDep for AsyncRpcCounter {
    type Transport = Local<RpcCounter>;
    type Stub = RpcCounterStub;

    fn dispatch(&mut self, method_idx: u32, _args: &[u8]) -> Result<Vec<u8>, String> {
        futures::executor::block_on(async {
            tokio::task::yield_now().await;
            if method_idx == 1 {
                self.n += 1;
                Ok(self.n.to_be_bytes().to_vec())
            } else {
                Err(format!("AsyncRpcCounter: unknown method_idx {method_idx}"))
            }
        })
    }

    fn build_stub(channel: HostedRpcChannel<Local<RpcCounter>>) -> Self::Stub {
        RpcCounterStub { channel }
    }
}

/// An asynchronous owner whose every call panics.
struct PanickingAsyncRpcOwner;

impl HostedRpcDispatcher for PanickingAsyncRpcOwner {
    fn dispatch_outcome(&mut self, _method_idx: u32, _args: &[u8]) -> DispatchOutcome {
        DispatchOutcome::Panicked(Some("async_owner_panic_for_test".to_string()))
    }
}

#[test]
fn async_hosted_rpc_owner_dispatches_through_async_cell() {
    let mut cell = HostedRpcOwnerCell::from_async_owner(AsyncRpcCounter { n: 0 });
    let rt = tokio::runtime::Builder::new_multi_thread()
        .enable_all()
        .build()
        .expect("build tokio runtime");

    let bytes_a = rt
        .block_on(async { cell.dispatch_async(1, &[]) })
        .expect("first async dispatch must succeed");
    assert_eq!(bytes_a, 1u64.to_be_bytes().to_vec());

    let bytes_b = rt
        .block_on(async { cell.dispatch_async(1, &[]) })
        .expect("second async dispatch must succeed");
    assert_eq!(bytes_b, 2u64.to_be_bytes().to_vec());
}

#[test]
fn async_hosted_rpc_owner_panic_surfaces_then_poisons() {
    let mut cell = HostedRpcOwnerCell::from_async_owner(PanickingAsyncRpcOwner);
    let rt = tokio::runtime::Builder::new_multi_thread()
        .enable_all()
        .build()
        .expect("build tokio runtime");

    let err1 = rt
        .block_on(async { cell.dispatch_async(1, &[]) })
        .expect_err("first async dispatch must surface the panic as Err");
    assert!(
        err1.contains("hosted rpc owner panicked: async_owner_panic_for_test"),
        "expected first-call error to wrap the async panic payload, got '{err1}'"
    );

    let err2 = rt
        .block_on(async { cell.dispatch_async(1, &[]) })
        .expect_err("second async dispatch must short-circuit on the poisoned cell");
    assert_eq!(
        err2, "hosted rpc owner poisoned",
        "expected poisoned-cell error on the second async call, got '{err2}'"
    );
}

/// Panics when it is called first, and must not be called again.
struct OnePanicThenForbidden {
    entries: Arc<Mutex<usize>>,
}

impl HostedRpcDispatcher for OnePanicThenForbidden {
    fn dispatch_outcome(&mut self, _method_idx: u32, _args: &[u8]) -> DispatchOutcome {
        let mut entries = self.entries.lock().unwrap();
        *entries += 1;
        if *entries == 1 {
            // Long enough for the second call to wait for the owner.
            tokio::task::block_in_place(|| {
                tokio::runtime::Handle::current()
                    .block_on(tokio::time::sleep(Duration::from_millis(50)))
            });
            DispatchOutcome::Panicked(Some("first_dispatch_panic_poison_race".to_string()))
        } else {
            DispatchOutcome::Panicked(Some(
                "second_dispatch_unexpectedly_re_entered_after_poison".to_string(),
            ))
        }
    }
}

#[test]
fn async_hosted_rpc_owner_poison_blocks_concurrent_waiter() {
    let entries = Arc::new(Mutex::new(0));
    let cell = Arc::new(tokio::sync::Mutex::new(
        HostedRpcOwnerCell::from_async_owner(OnePanicThenForbidden {
            entries: entries.clone(),
        }),
    ));

    let rt = tokio::runtime::Builder::new_multi_thread()
        .worker_threads(2)
        .enable_all()
        .build()
        .expect("build tokio runtime");

    rt.block_on(async {
        let cell_a = cell.clone();
        let cell_b = cell.clone();

        let first = tokio::spawn(async move { cell_a.lock().await.dispatch_async(1, &[]) });

        // The first call has a head start, so that the second one waits.
        tokio::time::sleep(Duration::from_millis(5)).await;

        let second = tokio::spawn(async move { cell_b.lock().await.dispatch_async(1, &[]) });

        let first_res = first.await.expect("first task must not be cancelled");
        let second_res = second.await.expect("second task must not be cancelled");

        let first_err =
            first_res.expect_err("first dispatch must surface the panic as Err, not Ok");
        assert!(
            first_err.contains("hosted rpc owner panicked: first_dispatch_panic_poison_race"),
            "expected the first call to surface the panic; got '{first_err}'"
        );

        let second_err = second_res
            .expect_err("second dispatch must short-circuit on the poisoned cell, not Ok");
        assert_eq!(
            second_err, "hosted rpc owner poisoned",
            "expected the second waiter to see the poison flag; got '{second_err}'"
        );
    });

    assert_eq!(
        *entries.lock().unwrap(),
        1,
        "owner dispatcher must run at most once across the poisoned pair"
    );
}

#[test]
fn async_hosted_rpc_dispatch_blocking_drives_async_cell() {
    let mut cell = HostedRpcOwnerCell::from_async_owner(AsyncRpcCounter { n: 0 });
    let rt = tokio::runtime::Builder::new_multi_thread()
        .enable_all()
        .build()
        .expect("build tokio runtime");
    let bytes = rt
        .block_on(async {
            tokio::task::spawn_blocking(move || cell.dispatch_blocking(active_runtime(), 1, &[]))
                .await
        })
        .expect("spawn_blocking joined")
        .expect("dispatch_blocking must succeed against an async cell on multi-thread rt");
    assert_eq!(bytes, 1u64.to_be_bytes().to_vec());
}

#[test]
fn async_hosted_rpc_dispatch_blocking_rejects_current_thread_runtime() {
    let mut cell = HostedRpcOwnerCell::from_async_owner(AsyncRpcCounter { n: 0 });
    let rt = tokio::runtime::Builder::new_current_thread()
        .enable_all()
        .build()
        .expect("build current-thread tokio runtime");
    let err = rt
        .block_on(async { cell.dispatch_blocking(active_runtime(), 1, &[]) })
        .expect_err("dispatch_blocking must reject current-thread runtimes cleanly");
    assert!(
        err.contains("multi-threaded"),
        "expected the rejection error to mention multi-threaded requirement, got '{err}'"
    );
}

#[test]
fn async_hosted_rpc_in_process_transport_routes_to_async_cell() {
    let dep_id = "in_process_async_owner".to_string();
    let cell = HostedRpcOwnerCell::from_async_owner(AsyncRpcCounter { n: 0 });
    let transport = Local::new(vec![(dep_id.clone(), cell)]);

    let rt = tokio::runtime::Builder::new_multi_thread()
        .enable_all()
        .build()
        .expect("build tokio runtime");

    let transport_clone = transport.clone();
    let dep_id_clone = dep_id.clone();
    let bytes = rt
        .block_on(async move {
            tokio::task::spawn_blocking(move || transport_clone.call(&dep_id_clone, 1, vec![]))
                .await
                .expect("spawn_blocking joined")
        })
        .expect("first in-process dispatch must succeed");
    assert_eq!(bytes, 1u64.to_be_bytes().to_vec());

    let transport_clone = transport.clone();
    let dep_id_clone = dep_id.clone();
    let bytes2 = rt
        .block_on(async move {
            tokio::task::spawn_blocking(move || transport_clone.call(&dep_id_clone, 1, vec![]))
                .await
                .expect("spawn_blocking joined")
        })
        .expect("second in-process dispatch must succeed");
    assert_eq!(bytes2, 2u64.to_be_bytes().to_vec());
}
