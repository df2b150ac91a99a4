//! Values that reach a plan from outside: as bytes, as parent-side values, or as stubs.
use crate::execution::collect::DepWireBytes;
use crate::execution::suite::TestSuiteExecution;
use crate::internal;
use crate::internal::{
    CloneableCodec, DepScope, DependencyModel, HostId, RegisteredDependency, RpcFactory,
    WorkerReconstructor,
};
use crate::table;
use crate::table::{find, put};
use crate::text::concat;
use std::sync::Arc;
use vstd::prelude::*;

verus! {

/// How a worker turns received bytes into the value of a dependency.
#[derive(Debug, Clone, Copy, PartialEq, Eq, Structural)]
pub struct WireCodec {
    pub codec: CloneableCodec,
    pub worker_fn: WorkerReconstructor,
}

/// How a worker rebuilds this dependency, if it reaches workers as bytes.
pub open spec fn wire_codec_of(dep: DependencyModel) -> Option<WireCodec> {
    let codec = match dep.scope {
        DepScope::Cloneable => dep.cloneable_codec,
        DepScope::Hosted => dep.hosted_codec,
        _ => None,
    };
    match (codec, dep.worker_fn) {
        (Some(codec), Some(worker_fn)) => Some(WireCodec { codec, worker_fn }),
        _ => None,
    }
}

/// How a worker rebuilds each of these dependencies, by identifier; of two dependencies with one
/// identifier the later one counts.
pub open spec fn wire_codecs(deps: Seq<DependencyModel>) -> Map<Seq<char>, WireCodec>
    decreases deps.len(),
{
    if deps.len() == 0 {
        Map::empty()
    } else {
        let before = wire_codecs(deps.drop_last());
        match wire_codec_of(deps.last()) {
            Some(codec) => before.insert(deps.last().qualified_id(), codec),
            None => before,
        }
    }
}

/// The table of how workers rebuild the dependencies that reach them as bytes.
pub fn build_worker_wire_codecs(registered: &Vec<RegisteredDependency>) -> (r: Vec<
    (String, WireCodec),
>)
    ensures
        table::distinct_names(r@),
        table::entries_map(r@) == wire_codecs(internal::dependency_views(registered@)),
{
    let mut r: Vec<(String, WireCodec)> = Vec::new();
    let ghost deps = internal::dependency_views(registered@);
    let mut i: usize = 0;
    assert(deps.take(0) =~= Seq::empty());
    while i < registered.len()
        invariant
            i <= registered.len(),
            deps == internal::dependency_views(registered@),
            table::distinct_names(r@),
            table::entries_map(r@) == wire_codecs(deps.take(i as int)),
        decreases registered.len() - i,
    {
        assert(deps.take(i + 1).drop_last() =~= deps.take(i as int));
        assert(deps.take(i + 1).last() == registered@[i as int]@);
        let d = &registered[i];
        let codec = match d.scope {
            DepScope::Cloneable => d.cloneable_codec,
            DepScope::Hosted => d.hosted_codec,
            _ => None,
        };
        if let (Some(codec), Some(worker_fn)) = (codec, d.worker_fn) {
            put(&mut r, d.qualified_id(), WireCodec { codec, worker_fn });
        }
        i = i + 1;
    }
    assert(deps.take(i as int) =~= deps);
    r
}

/// The factory of a remotely called dependency.
pub open spec fn rpc_factory_of(dep: DependencyModel) -> Option<RpcFactory> {
    if dep.scope == DepScope::HostedRpc {
        dep.rpc_factory
    } else {
        None
    }
}

/// The factories of the remotely called dependencies among these, by identifier; of two
/// dependencies with one identifier the later one counts.
pub open spec fn rpc_factories(deps: Seq<DependencyModel>) -> Map<Seq<char>, RpcFactory>
    decreases deps.len(),
{
    if deps.len() == 0 {
        Map::empty()
    } else {
        let before = rpc_factories(deps.drop_last());
        match rpc_factory_of(deps.last()) {
            Some(factory) => before.insert(deps.last().qualified_id(), factory),
            None => before,
        }
    }
}

/// The table of the factories of remotely called dependencies.
pub fn build_rpc_factories(registered: &Vec<RegisteredDependency>) -> (r: Vec<(String, RpcFactory)>)
    ensures
        table::distinct_names(r@),
        table::entries_map(r@) == rpc_factories(internal::dependency_views(registered@)),
{
    let mut r: Vec<(String, RpcFactory)> = Vec::new();
    let ghost deps = internal::dependency_views(registered@);
    let mut i: usize = 0;
    assert(deps.take(0) =~= Seq::empty());
    while i < registered.len()
        invariant
            i <= registered.len(),
            deps == internal::dependency_views(registered@),
            table::distinct_names(r@),
            table::entries_map(r@) == rpc_factories(deps.take(i as int)),
        decreases registered.len() - i,
    {
        assert(deps.take(i + 1).drop_last() =~= deps.take(i as int));
        assert(deps.take(i + 1).last() == registered@[i as int]@);
        let d = &registered[i];
        if d.scope == DepScope::HostedRpc {
            if let Some(factory) = d.rpc_factory {
                put(&mut r, d.qualified_id(), factory);
            }
        }
        i = i + 1;
    }
    assert(deps.take(i as int) =~= deps);
    r
}

/// `rebuild` accepts every codec and payload.
pub open spec fn rebuilds_any<V, F: Fn(HostId, HostId, &Vec<u8>) -> Arc<V>>(rebuild: F) -> bool {
    forall|from_wire_bytes: HostId, worker_fn: HostId, bytes: &Vec<u8>| #[trigger]
        rebuild.requires((from_wire_bytes, worker_fn, bytes))
}

/// Why the bytes that a command brought cannot be turned into a value.
pub open spec fn unusable_bytes(
    codecs: Map<Seq<char>, WireCodec>,
    dep_id: Seq<char>,
    command_name: Seq<char>,
) -> Option<Seq<char>> {
    if !codecs.contains_key(dep_id) {
        Some(command_name + " referenced unknown wire-shared dep '"@ + dep_id + "'"@)
    } else if codecs[dep_id].worker_fn is Async {
        Some(
            "Async WorkerReconstructor for dep '"@ + dep_id
                + "' is not supported by the sync runner"@,
        )
    } else {
        None
    }
}

/// The handle of the function by which a worker rebuilds the value synchronously.
pub open spec fn sync_fn(worker_fn: WorkerReconstructor) -> HostId {
    match worker_fn {
        WorkerReconstructor::Sync(f) => f,
        WorkerReconstructor::Async(f) => f,
    }
}

fn quoted(before: &str, dep_id: &str, after: &str) -> (r: String)
    ensures
        r@ == before@ + dep_id@ + after@,
{
    concat(concat(before, dep_id).as_str(), after)
}

/// Why something failed, if it did.
pub open spec fn reason<T>(r: Result<T, String>) -> Option<Seq<char>> {
    match r {
        Ok(_) => None,
        Err(message) => Some(message@),
    }
}

/// `after` is the plan when the bytes that a command brought have been taken in, or `failure` says
/// why they were not.
pub open spec fn is_applied<V, F: Fn(HostId, HostId, &Vec<u8>) -> Arc<V>>(
    before: TestSuiteExecution<V>,
    codecs: Map<Seq<char>, WireCodec>,
    dep_id: Seq<char>,
    wire_bytes: &Vec<u8>,
    command_name: Seq<char>,
    rebuild: F,
    failure: Option<Seq<char>>,
    after: TestSuiteExecution<V>,
) -> bool {
    match unusable_bytes(codecs, dep_id, command_name) {
        Some(reason) => after == before && failure == Some(reason),
        None => {
            let codec = codecs[dep_id];
            &&& exists|value: Arc<V>| #[trigger]
                rebuild.ensures(
                    (codec.codec.from_wire_bytes, sync_fn(codec.worker_fn), wire_bytes),
                    value,
                ) && before.provides(dep_id, value, after)
            &&& failure == (if before.root.identifies(dep_id) {
                None
            } else {
                Some(
                    command_name + " for dep '"@ + dep_id
                        + "' did not match any registered dep in this worker"@,
                )
            })
        },
    }
}

/// Takes the bytes that a command brought into the plan of a worker: rebuilds the value of the
/// dependency and provides it. `rebuild` runs the functions behind the given handles on the bytes.
pub fn apply_provided_wire_bytes<V, F: Fn(HostId, HostId, &Vec<u8>) -> Arc<V>>(
    execution: &mut TestSuiteExecution<V>,
    codecs: &Vec<(String, WireCodec)>,
    dep_id: &str,
    wire_bytes: &Vec<u8>,
    command_name: &str,
    rebuild: &F,
) -> (r: Result<(), String>)
    requires
        old(execution).wf(),
        table::distinct_names(codecs@),
        rebuilds_any(*rebuild),
    ensures
        is_applied(
            *old(execution),
            table::entries_map(codecs@),
            dep_id@,
            wire_bytes,
            command_name@,
            *rebuild,
            reason(r),
            *final(execution),
        ),
{
    let i = match find(codecs, dep_id) {
        Some(i) => i,
        None => {
            return Err(
                quoted(
                    concat(command_name, " referenced unknown wire-shared dep '").as_str(),
                    dep_id,
                    "'",
                ),
            );
        },
    };
    let codec = codecs[i].1;
    let worker_fn: HostId = match codec.worker_fn {
        WorkerReconstructor::Sync(f) => f,
        WorkerReconstructor::Async(_) => {
            return Err(
                quoted(
                    "Async WorkerReconstructor for dep '",
                    dep_id,
                    "' is not supported by the sync runner",
                ),
            );
        },
    };
    let value = rebuild(codec.codec.from_wire_bytes, worker_fn, wire_bytes);
    let applied = execution.provide_cloneable_value(dep_id, value);
    if applied {
        Ok(())
    } else {
        Err(
            quoted(
                concat(command_name, " for dep '").as_str(),
                dep_id,
                "' did not match any registered dep in this worker",
            ),
        )
    }
}

/// The value that is offered to the dependency with this identifier.
pub type Offer<V> = (Seq<char>, Arc<V>);

/// The offer with this index leads from one plan to the next.
pub open spec fn is_turn<V>(
    states: Seq<TestSuiteExecution<V>>,
    offers: Seq<Offer<V>>,
    i: int,
) -> bool {
    states[i].provides(offers[i].0, offers[i].1, states[i + 1])
}

/// Whether the plan knows the dependency of the offer with this index when it is made.
pub open spec fn is_accepted<V>(
    states: Seq<TestSuiteExecution<V>>,
    offers: Seq<Offer<V>>,
    i: int,
) -> bool {
    states[i].root.identifies(offers[i].0)
}

/// The offers lead from the first of the plans to the last, one after the other.
pub open spec fn is_provision<V>(
    states: Seq<TestSuiteExecution<V>>,
    offers: Seq<Offer<V>>,
) -> bool {
    &&& states.len() == offers.len() + 1
    &&& forall|i: int| 0 <= i < offers.len() ==> #[trigger] is_turn(states, offers, i)
}

/// All of the first `n` offers are accepted.
pub open spec fn are_accepted<V>(
    states: Seq<TestSuiteExecution<V>>,
    offers: Seq<Offer<V>>,
    n: int,
) -> bool {
    forall|i: int| 0 <= i < n ==> #[trigger] is_accepted(states, offers, i)
}

/// Offers are made one after the other up to the first that is not accepted; that one is the
/// failure that is reported, between these two texts.
pub open spec fn stops_at_refusal<V>(
    states: Seq<TestSuiteExecution<V>>,
    offers: Seq<Offer<V>>,
    all: nat,
    failure: Option<Seq<char>>,
    before: Seq<char>,
    after: Seq<char>,
) -> bool {
    match failure {
        None => offers.len() == all && are_accepted(states, offers, offers.len() as int),
        Some(message) => {
            &&& 0 < offers.len() <= all
            &&& are_accepted(states, offers, offers.len() - 1)
            &&& !is_accepted(states, offers, offers.len() - 1)
            &&& message == before + offers.last().0 + after
        },
    }
}

/// The first `n` of these values as offers.
pub open spec fn value_offers<V>(values: Seq<(String, Arc<V>)>, n: nat) -> Seq<Offer<V>> {
    Seq::new(n, |i: int| (values[i].0@, values[i].1))
}

proof fn lemma_one_more_turn<V>(
    states: Seq<TestSuiteExecution<V>>,
    offers: Seq<Offer<V>>,
    offer: Offer<V>,
    after: TestSuiteExecution<V>,
)
    requires
        is_provision(states, offers),
        are_accepted(states, offers, offers.len() as int),
        states.last().provides(offer.0, offer.1, after),
    ensures
        is_provision(states.push(after), offers.push(offer)),
        are_accepted(states.push(after), offers.push(offer), offers.len() as int),
        is_accepted(states.push(after), offers.push(offer), offers.len() as int)
            == states.last().root.identifies(offer.0),
{
    let more_states = states.push(after);
    let more_offers = offers.push(offer);
    assert forall|i: int| 0 <= i < more_offers.len() implies #[trigger] is_turn(
        more_states,
        more_offers,
        i,
    ) by {
        if i < offers.len() {
            assert(is_turn(states, offers, i));
        }
    }
    assert forall|i: int| 0 <= i < offers.len() implies #[trigger] is_accepted(
        more_states,
        more_offers,
        i,
    ) by {
        assert(is_accepted(states, offers, i));
    }
}

/// `after` is the plan with these values, up to the first that is not accepted.
pub open spec fn cloneables_applied<V>(
    before: TestSuiteExecution<V>,
    values: Seq<(String, Arc<V>)>,
    failure: Option<Seq<char>>,
    after: TestSuiteExecution<V>,
) -> bool {
    exists|states: Seq<TestSuiteExecution<V>>, n: nat|
        {
            &&& #[trigger] is_provision(states, value_offers(values, n))
            &&& states[0] == before
            &&& states.last() == after
            &&& stops_at_refusal(
                states,
                value_offers(values, n),
                values.len(),
                failure,
                "Cloneable dep '"@,
                "' could not be pre-populated locally"@,
            )
        }
}

/// Provides the values that the parent has constructed to its own plan, for a run without worker
/// processes: their constructors do not run a second time.
pub fn apply_cloneable_values_locally<V>(
    execution: &mut TestSuiteExecution<V>,
    values: &Vec<(String, Arc<V>)>,
) -> (r: Result<(), String>)
    requires
        old(execution).wf(),
    ensures
        final(execution).wf(),
        cloneables_applied(*old(execution), values@, reason(r), *final(execution)),
{
    let ghost mut states: Seq<TestSuiteExecution<V>> = seq![*execution];
    let ghost mut offers: Seq<Offer<V>> = Seq::empty();
    let mut i: usize = 0;
    while i < values.len()
        invariant
            i <= values.len(),
            execution.wf(),
            offers == value_offers(values@, i as nat),
            is_provision(states, offers),
            are_accepted(states, offers, offers.len() as int),
            states[0] == *old(execution),
            states.last() == *execution,
        decreases values.len() - i,
    {
        let applied = execution.provide_cloneable_value(
            values[i].0.as_str(),
            values[i].1.clone(),
        );
        proof {
            let offer = (values@[i as int].0@, values@[i as int].1);
            lemma_one_more_turn(states, offers, offer, *execution);
            states = states.push(*execution);
            offers = offers.push(offer);
            assert(offers =~= value_offers(values@, (i + 1) as nat));
        }
        if !applied {
            return Err(
                quoted(
                    "Cloneable dep '",
                    values[i].0.as_str(),
                    "' could not be pre-populated locally",
                ),
            );
        }
        i = i + 1;
    }
    Ok(())
}

/// Why a descriptor cannot be turned into the handle of a hosted dependency.
pub open spec fn unusable_descriptor(
    codecs: Map<Seq<char>, WireCodec>,
    dep_id: Seq<char>,
) -> Option<Seq<char>> {
    if !codecs.contains_key(dep_id) {
        Some(
            "Hosted dep '"@ + dep_id
                + "' missing codec/worker_fn for local handle reconstruction"@,
        )
    } else if codecs[dep_id].worker_fn is Async {
        Some(
            "Async WorkerReconstructor for Hosted dep '"@ + dep_id
                + "' is not supported by the sync runner"@,
        )
    } else {
        None
    }
}

/// The offer is the handle that `rebuild` may make of this descriptor.
pub open spec fn is_handle<V, F: Fn(HostId, HostId, &Vec<u8>) -> Arc<V>>(
    codecs: Map<Seq<char>, WireCodec>,
    rebuild: F,
    descriptor: DepWireBytes,
    offer: Offer<V>,
) -> bool {
    let codec = codecs[descriptor.0@];
    &&& unusable_descriptor(codecs, descriptor.0@) is None
    &&& offer.0 == descriptor.0@
    &&& rebuild.ensures(
        (codec.codec.from_wire_bytes, sync_fn(codec.worker_fn), &descriptor.1),
        offer.1,
    )
}

/// Each offer is the handle that `rebuild` may make of the descriptor at its place.
pub open spec fn are_handles<V, F: Fn(HostId, HostId, &Vec<u8>) -> Arc<V>>(
    codecs: Map<Seq<char>, WireCodec>,
    rebuild: F,
    descriptors: Seq<DepWireBytes>,
    offers: Seq<Offer<V>>,
) -> bool {
    &&& offers.len() <= descriptors.len()
    &&& forall|i: int|
        0 <= i < offers.len() ==> is_handle(codecs, rebuild, descriptors[i], #[trigger] offers[i])
}

/// `after` is the plan with the handles that are rebuilt from these descriptors, up to the first
/// that cannot be rebuilt or is not accepted.
pub open spec fn descriptors_applied<V, F: Fn(HostId, HostId, &Vec<u8>) -> Arc<V>>(
    before: TestSuiteExecution<V>,
    codecs: Map<Seq<char>, WireCodec>,
    descriptors: Seq<DepWireBytes>,
    rebuild: F,
    failure: Option<Seq<char>>,
    after: TestSuiteExecution<V>,
) -> bool {
    exists|states: Seq<TestSuiteExecution<V>>, offers: Seq<Offer<V>>|
        {
            &&& #[trigger] is_provision(states, offers)
            &&& are_handles(codecs, rebuild, descriptors, offers)
            &&& states[0] == before
            &&& states.last() == after
            &&& stops_at_refusal(
                states,
                offers,
                descriptors.len(),
                failure,
                "Hosted dep '"@,
                "' could not be pre-populated locally"@,
            ) || {
                &&& offers.len() < descriptors.len()
                &&& are_accepted(states, offers, offers.len() as int)
                &&& failure is Some
                &&& unusable_descriptor(codecs, descriptors[offers.len() as int].0@) == failure
            }
        }
}

/// Provides the handles of hosted dependencies to the plan of the parent, for a run without worker
/// processes: tests see what a worker would rebuild from the descriptor.
pub fn apply_hosted_descriptors_locally<V, F: Fn(HostId, HostId, &Vec<u8>) -> Arc<V>>(
    execution: &mut TestSuiteExecution<V>,
    codecs: &Vec<(String, WireCodec)>,
    descriptors: &Vec<DepWireBytes>,
    rebuild: &F,
) -> (r: Result<(), String>)
    requires
        old(execution).wf(),
        table::distinct_names(codecs@),
        rebuilds_any(*rebuild),
    ensures
        final(execution).wf(),
        descriptors_applied(
            *old(execution),
            table::entries_map(codecs@),
            descriptors@,
            *rebuild,
            reason(r),
            *final(execution),
        ),
{
    let ghost mut states: Seq<TestSuiteExecution<V>> = seq![*execution];
    let ghost mut offers: Seq<Offer<V>> = Seq::empty();
    let mut i: usize = 0;
    while i < descriptors.len()
        invariant
            i <= descriptors.len(),
            execution.wf(),
            table::distinct_names(codecs@),
            rebuilds_any(*rebuild),
            offers.len() == i,
            are_handles(table::entries_map(codecs@), *rebuild, descriptors@, offers),
            is_provision(states, offers),
            are_accepted(states, offers, offers.len() as int),
            states[0] == *old(execution),
            states.last() == *execution,
        decreases descriptors.len() - i,
    {
        let dep_id = descriptors[i].0.as_str();
        let k = match find(codecs, dep_id) {
            Some(k) => k,
            None => {
                return Err(
                    quoted(
                        "Hosted dep '",
                        dep_id,
                        "' missing codec/worker_fn for local handle reconstruction",
                    ),
                );
            },
        };
        let codec = codecs[k].1;
        let worker_fn: HostId = match codec.worker_fn {
            WorkerReconstructor::Sync(f) => f,
            WorkerReconstructor::Async(_) => {
                return Err(
                    quoted(
                        "Async WorkerReconstructor for Hosted dep '",
                        dep_id,
                        "' is not supported by the sync runner",
                    ),
                );
            },
        };
        let value = rebuild(codec.codec.from_wire_bytes, worker_fn, &descriptors[i].1);
        let ghost offer = (dep_id@, value);
        let applied = execution.provide_cloneable_value(dep_id, value);
        proof {
            lemma_one_more_turn(states, offers, offer, *execution);
            states = states.push(*execution);
            offers = offers.push(offer);
        }
        if !applied {
            return Err(quoted("Hosted dep '", dep_id, "' could not be pre-populated locally"));
        }
        i = i + 1;
    }
    Ok(())
}

/// `build_stub` accepts every factory and identifier.
pub open spec fn stubs_any<V, B: Fn(HostId, &String) -> Arc<V>>(build_stub: B) -> bool {
    forall|factory: HostId, dep_id: &String| #[trigger] build_stub.requires((factory, dep_id))
}

/// Each offer is the stub that `build_stub` may build for the entry at its place.
pub open spec fn are_stubs<V, B: Fn(HostId, &String) -> Arc<V>>(
    factories: Seq<(String, RpcFactory)>,
    build_stub: B,
    offers: Seq<Offer<V>>,
) -> bool {
    &&& offers.len() <= factories.len()
    &&& forall|i: int|
        0 <= i < offers.len() ==> (#[trigger] offers[i]).0 == factories[i].0@
            && build_stub.ensures((factories[i].1.build_stub, &factories[i].0), offers[i].1)
}

/// The factories of the dependencies whose owner is held under their identifier.
pub open spec fn routed<K>(
    factories: Seq<(String, RpcFactory)>,
    cells: Map<Seq<char>, K>,
) -> Seq<(String, RpcFactory)> {
    factories.filter(|e: (String, RpcFactory)| cells.contains_key(e.0@))
}

/// `after` is the plan with a stub for each of these dependencies, up to the first that is not
/// accepted.
pub open spec fn stubs_installed<V, B: Fn(HostId, &String) -> Arc<V>>(
    before: TestSuiteExecution<V>,
    factories: Seq<(String, RpcFactory)>,
    build_stub: B,
    failure: Option<Seq<char>>,
    after: TestSuiteExecution<V>,
) -> bool {
    exists|states: Seq<TestSuiteExecution<V>>, offers: Seq<Offer<V>>|
        {
            &&& #[trigger] is_provision(states, offers)
            &&& are_stubs(factories, build_stub, offers)
            &&& states[0] == before
            &&& states.last() == after
            &&& stops_at_refusal(
                states,
                offers,
                factories.len(),
                failure,
                "Local HostedRpc stub for '"@,
                "' did not match any registered dep"@,
            )
        }
}

/// Provides stubs to the plan of the parent, for a run without worker processes: tests see stubs
/// that lead to the owners which the parent holds. Dependencies without an owner are passed over.
/// `build_stub` builds the stub of the factory behind the handle for this identifier.
pub fn install_local_hosted_rpc_stubs<V, K, B: Fn(HostId, &String) -> Arc<V>>(
    execution: &mut TestSuiteExecution<V>,
    factories: &Vec<(String, RpcFactory)>,
    cells: &Vec<(String, K)>,
    build_stub: &B,
) -> (r: Result<(), String>)
    requires
        old(execution).wf(),
        table::distinct_names(cells@),
        stubs_any(*build_stub),
    ensures
        final(execution).wf(),
        stubs_installed(
            *old(execution),
            routed(factories@, table::entries_map(cells@)),
            *build_stub,
            reason(r),
            *final(execution),
        ),
{
    let ghost held = table::entries_map(cells@);
    let ghost all = routed(factories@, held);
    let ghost mut states: Seq<TestSuiteExecution<V>> = seq![*execution];
    let ghost mut offers: Seq<Offer<V>> = Seq::empty();
    let mut i: usize = 0;
    proof {
        reveal(Seq::filter);
        assert(factories@.take(0) =~= Seq::empty());
    }
    while i < factories.len()
        invariant
            i <= factories.len(),
            execution.wf(),
            table::distinct_names(cells@),
            held == table::entries_map(cells@),
            all == routed(factories@, held),
            stubs_any(*build_stub),
            offers.len() == routed(factories@.take(i as int), held).len(),
            are_stubs(routed(factories@.take(i as int), held), *build_stub, offers),
            is_provision(states, offers),
            are_accepted(states, offers, offers.len() as int),
            states[0] == *old(execution),
            states.last() == *execution,
        decreases factories.len() - i,
    {
        let dep_id = &factories[i].0;
        let ghost done = routed(factories@.take(i as int), held);
        let ghost next = routed(factories@.take(i + 1), held);
        proof {
            reveal(Seq::filter);
            assert(factories@.take(i + 1).drop_last() =~= factories@.take(i as int));
        }
        if find(cells, dep_id.as_str()).is_some() {
            assert(next == done.push(factories@[i as int]));
            let stub = build_stub(factories[i].1.build_stub, dep_id);
            let ghost offer = (dep_id@, stub);
            let applied = execution.provide_cloneable_value(dep_id.as_str(), stub);
            proof {
                lemma_one_more_turn(states, offers, offer, *execution);
                states = states.push(*execution);
                offers = offers.push(offer);
                assert(are_stubs(next, *build_stub, offers));
            }
            if !applied {
                proof {
                    let rest = factories@.skip(i + 1);
                    assert(factories@ =~= factories@.take(i + 1) + rest);
                    Seq::filter_distributes_over_add(
                        factories@.take(i + 1),
                        rest,
                        |e: (String, RpcFactory)| held.contains_key(e.0@),
                    );
                    assert(all =~= next + routed(rest, held));
                    assert forall|k: int| 0 <= k < offers.len() implies (#[trigger] offers[k]).0
                        == all[k].0@ && build_stub.ensures(
                        (all[k].1.build_stub, &all[k].0),
                        offers[k].1,
                    ) by {
                        assert(all[k] == next[k]);
                    }
                }
                return Err(
                    quoted(
                        "Local HostedRpc stub for '",
                        dep_id.as_str(),
                        "' did not match any registered dep",
                    ),
                );
            }
        }
        i = i + 1;
    }
    assert(factories@.take(i as int) =~= factories@);
    Ok(())
}

/// Provides a stub for every remotely called dependency to the plan of a worker process. A plan
/// that does not use one of them goes without it.
pub fn install_worker_subprocess_hosted_rpc_stubs<V, B: Fn(HostId, &String) -> Arc<V>>(
    execution: &mut TestSuiteExecution<V>,
    factories: &Vec<(String, RpcFactory)>,
    build_stub: &B,
)
    requires
        old(execution).wf(),
        stubs_any(*build_stub),
    ensures
        exists|states: Seq<TestSuiteExecution<V>>, offers: Seq<Offer<V>>|
            {
                &&& #[trigger] is_provision(states, offers)
                &&& are_stubs(factories@, *build_stub, offers)
                &&& offers.len() == factories@.len()
                &&& states[0] == *old(execution)
                &&& states.last() == *final(execution)
            },
{
    let ghost mut states: Seq<TestSuiteExecution<V>> = seq![*execution];
    let ghost mut offers: Seq<Offer<V>> = Seq::empty();
    let mut i: usize = 0;
    while i < factories.len()
        invariant
            i <= factories.len(),
            execution.wf(),
            stubs_any(*build_stub),
            offers.len() == i,
            are_stubs(factories@, *build_stub, offers),
            is_provision(states, offers),
            states[0] == *old(execution),
            states.last() == *execution,
        decreases factories.len() - i,
    {
        let stub = build_stub(factories[i].1.build_stub, &factories[i].0);
        let ghost offer = (factories@[i as int].0@, stub);
        let ghost earlier_states = states;
        let ghost earlier_offers = offers;
        let applied = execution.provide_cloneable_value(factories[i].0.as_str(), stub);
        proof {
            states = states.push(*execution);
            offers = offers.push(offer);
            assert forall|k: int| 0 <= k < offers.len() implies #[trigger] is_turn(
                states,
                offers,
                k,
            ) by {
                if k < earlier_offers.len() {
                    assert(is_turn(earlier_states, earlier_offers, k));
                }
            }
        }
        i = i + 1;
    }
}

/// Providing values leaves the tests of a plan as they are, and the locks that are held.
pub proof fn providing_keeps_the_tests<V>(
    states: Seq<TestSuiteExecution<V>>,
    offers: Seq<Offer<V>>,
)
    requires
        is_provision(states, offers),
    ensures
        states.last().root.tests_below() == states[0].root.tests_below(),
        states.last().held == states[0].held,
        states.last().idx == states[0].idx,
    decreases offers.len(),
{
    if offers.len() > 0 {
        let fewer = offers.drop_last();
        assert forall|i: int| 0 <= i < fewer.len() implies #[trigger] is_turn(
            states.drop_last(),
            fewer,
            i,
        ) by {
            assert(is_turn(states, offers, i));
        }
        providing_keeps_the_tests(states.drop_last(), fewer);
        assert(is_turn(states, offers, offers.len() - 1));
    }
}

pub proof fn lemma_applied_keeps_tests<V>(
    before: TestSuiteExecution<V>,
    values: Seq<(String, Arc<V>)>,
    failure: Option<Seq<char>>,
    after: TestSuiteExecution<V>,
)
    requires
        cloneables_applied(before, values, failure, after),
    ensures
        after.root.tests_below() == before.root.tests_below(),
{
    let (states, n) = choose|states: Seq<TestSuiteExecution<V>>, n: nat|
        #[trigger] is_provision(states, value_offers(values, n)) && states[0] == before
            && states.last() == after;
    providing_keeps_the_tests(states, value_offers(values, n));
}

pub proof fn lemma_handles_keep_tests<V, F: Fn(HostId, HostId, &Vec<u8>) -> Arc<V>>(
    before: TestSuiteExecution<V>,
    codecs: Map<Seq<char>, WireCodec>,
    descriptors: Seq<DepWireBytes>,
    rebuild: F,
    failure: Option<Seq<char>>,
    after: TestSuiteExecution<V>,
)
    requires
        descriptors_applied(before, codecs, descriptors, rebuild, failure, after),
    ensures
        after.root.tests_below() == before.root.tests_below(),
{
    let (states, offers) = choose|states: Seq<TestSuiteExecution<V>>, offers: Seq<Offer<V>>|
        #[trigger] is_provision(states, offers) && states[0] == before && states.last() == after;
    providing_keeps_the_tests(states, offers);
}

pub proof fn lemma_stubs_keep_tests<V, B: Fn(HostId, &String) -> Arc<V>>(
    before: TestSuiteExecution<V>,
    factories: Seq<(String, RpcFactory)>,
    build_stub: B,
    failure: Option<Seq<char>>,
    after: TestSuiteExecution<V>,
)
    requires
        stubs_installed(before, factories, build_stub, failure, after),
    ensures
        after.root.tests_below() == before.root.tests_below(),
{
    let (states, offers) = choose|states: Seq<TestSuiteExecution<V>>, offers: Seq<Offer<V>>|
        #[trigger] is_provision(states, offers) && states[0] == before && states.last() == after;
    providing_keeps_the_tests(states, offers);
}

} // verus!
