//! Where values and texts come from: what a plan holds, in which order values are made, and how they
//! reach a plan from elsewhere.
use super::words::{holds, lemma_substring};
use crate::args::Arguments;
use crate::execution::collect::DepWireBytes;
use crate::execution::node::SuiteNode;
use crate::execution::order;
use crate::execution::suite::TestSuiteExecution;
use crate::execution::values::{DependencyMap, DependencyView};
use crate::hosted;
use crate::hosted::{HostedRpcDispatcher, HostedRpcOwnerCell};
use crate::internal;
use crate::internal::{
    DepScope, HostId, RegisteredDependency, RpcFactory, WorkerReconstructor,
};
use crate::output::ctrf::Ctrf;
use crate::sync::runner;
use crate::sync::wire;
use crate::sync::wire::WireCodec;
use crate::table;
use crate::text;
use std::sync::Arc;
use vstd::prelude::*;

verus! {

impl<V> SuiteNode<V> {
    /// A dependency of this scope is registered here or below.
    pub open spec fn registers_scope(self, scope: DepScope) -> bool
        decreases self,
    {
        ||| exists|i: int|
            0 <= i < self.dependencies@.len() && (#[trigger] self.dependencies@[i]).scope == scope
        ||| exists|j: int|
            0 <= j < self.inner@.len() && (#[trigger] self.inner@[j]).registers_scope(scope)
    }

    proof fn lemma_scope(self, scope: DepScope)
        ensures
            self.has_scope(scope) <==> self.registers_scope(scope),
        decreases self,
    {
        let own = internal::dependency_views(self.dependencies@);
        let among = Self::dependencies_among(self.inner@);
        let all = self.dependencies_below();
        Self::lemma_scope_among(self.inner@, scope);
        if self.has_scope(scope) {
            let i = choose|i: int| 0 <= i < all.len() && (#[trigger] all[i]).scope == scope;
            if i < own.len() {
                assert(own[i] == self.dependencies@[i]@);
            } else {
                assert(among[i - own.len()].scope == scope);
            }
        }
        if exists|i: int|
            0 <= i < self.dependencies@.len() && (#[trigger] self.dependencies@[i]).scope == scope {
            let i = choose|i: int|
                0 <= i < self.dependencies@.len() && (#[trigger] self.dependencies@[i]).scope
                    == scope;
            assert(all[i] == self.dependencies@[i]@);
        } else if self.registers_scope(scope) {
            let i = choose|i: int| 0 <= i < among.len() && (#[trigger] among[i]).scope == scope;
            assert(all[own.len() + i] == among[i]);
        }
    }

    proof fn lemma_scope_among(nodes: Seq<SuiteNode<V>>, scope: DepScope)
        ensures
            (exists|i: int|
                0 <= i < Self::dependencies_among(nodes).len() && (
                #[trigger] Self::dependencies_among(nodes)[i]).scope == scope) <==> exists|j: int|
                0 <= j < nodes.len() && (#[trigger] nodes[j]).registers_scope(scope),
        decreases nodes,
    {
        if nodes.len() > 0 {
            let init = nodes.drop_last();
            let head = Self::dependencies_among(init);
            let tail = nodes.last().dependencies_below();
            let all = Self::dependencies_among(nodes);
            Self::lemma_scope_among(init, scope);
            nodes.last().lemma_scope(scope);
            if exists|i: int| 0 <= i < all.len() && (#[trigger] all[i]).scope == scope {
                let i = choose|i: int| 0 <= i < all.len() && (#[trigger] all[i]).scope == scope;
                if i < head.len() {
                    assert(head[i].scope == scope);
                    let j = choose|j: int|
                        0 <= j < init.len() && (#[trigger] init[j]).registers_scope(scope);
                    assert(nodes[j].registers_scope(scope));
                } else {
                    assert(tail[i - head.len()].scope == scope);
                    assert(nodes[nodes.len() - 1].registers_scope(scope));
                }
            }
            if exists|j: int| 0 <= j < nodes.len() && (#[trigger] nodes[j]).registers_scope(scope) {
                let j = choose|j: int|
                    0 <= j < nodes.len() && (#[trigger] nodes[j]).registers_scope(scope);
                if j < init.len() {
                    assert(init[j].registers_scope(scope));
                    let i = choose|i: int| 0 <= i < head.len() && (#[trigger] head[i]).scope == scope;
                    assert(all[i] == head[i]);
                } else {
                    let i = choose|i: int| 0 <= i < tail.len() && (#[trigger] tail[i]).scope == scope;
                    assert(all[head.len() + i] == tail[i]);
                }
            }
        }
    }
}

/// A plan has dependencies of a kind if one of its suites registers one.
pub proof fn kinds_are_found_anywhere<V>(
    plan: TestSuiteExecution<V>,
    shared: bool,
    cloneable: bool,
    hosted: bool,
    remote: bool,
)
    requires
        call_ensures(TestSuiteExecution::<V>::has_shared_dependencies, (&plan,), shared),
        call_ensures(TestSuiteExecution::<V>::has_cloneable_dependencies, (&plan,), cloneable),
        call_ensures(TestSuiteExecution::<V>::has_hosted_dependencies, (&plan,), hosted),
        call_ensures(TestSuiteExecution::<V>::has_hosted_rpc_dependencies, (&plan,), remote),
    ensures
        shared <==> plan.root.registers_scope(DepScope::Shared),
        cloneable <==> plan.root.registers_scope(DepScope::Cloneable),
        hosted <==> plan.root.registers_scope(DepScope::Hosted),
        remote <==> plan.root.registers_scope(DepScope::HostedRpc),
{
    plan.root.lemma_scope(DepScope::Shared);
    plan.root.lemma_scope(DepScope::Cloneable);
    plan.root.lemma_scope(DepScope::Hosted);
    plan.root.lemma_scope(DepScope::HostedRpc);
}

/// The value of a dependency is made after those that it uses: where both are made, the one that is used
/// comes first. No dependency is made twice.
pub proof fn used_values_are_made_first(
    deps: Vec<RegisteredDependency>,
    r: Vec<usize>,
    k: int,
    d: int,
    a: int,
)
    requires
        call_ensures(order::sorted_dependencies, (&deps,), r),
        0 <= k < r@.len(),
        r@[k] < deps@.len() ==> 0 <= d < deps@[r@[k] as int].dependencies@.len(),
        0 <= a < deps@.len(),
        r@[k] < deps@.len() ==> deps@[a].name@ == deps@[r@[k] as int].dependencies@[d]@,
        forall|b: int| 0 <= b < a ==> (#[trigger] deps@[b]).name@ != deps@[a].name@,
    ensures
        r@[k] < deps@.len(),
        exists|j: int| 0 <= j < k && #[trigger] r@[j] == a,
        forall|j: int| 0 <= j < r@.len() && j != k ==> #[trigger] r@[j] != r@[k],
{
    let views = internal::dependency_views(deps@);
    let at = r@[k] as int;
    assert(order::is_first(views, r@[k] as int));
    assert(views[at] == deps@[at]@);
    assert(views[a] == deps@[a]@);
    order::lemma_first_named(views, deps@[a].name@);
    let c = order::first_named(views, deps@[a].name@);
    assert(c == a) by {
        if c < a {
            assert(views[c] == deps@[c]@);
        }
    }
    assert(order::uses_at(views, at, d, at, a));
    assert(order::uses(views, r@[k] as int, a));
    assert(a < deps.len());
    let before = r@.take(k);
    let j = before.index_of(a as usize);
    assert(r@[j] == a);
}

/// Bytes that a command brought become a value only where the worker knows how to rebuild it without
/// waiting; the value is rebuilt from these bytes by the functions of the dependency. Otherwise the plan
/// stays as it is, and the command fails.
pub proof fn provided_bytes_are_rebuilt<V, F: Fn(HostId, HostId, &Vec<u8>) -> Arc<V>>(
    before: TestSuiteExecution<V>,
    after: TestSuiteExecution<V>,
    codecs: Vec<(String, WireCodec)>,
    dep_id: &str,
    bytes: Vec<u8>,
    command: &str,
    rebuild: F,
    r: Result<(), String>,
    k: int,
)
    requires
        exists|execution: &mut TestSuiteExecution<V>|
            *execution == before && *final(execution) == after && #[trigger] call_ensures(
                wire::apply_provided_wire_bytes::<V, F>,
                (execution, &codecs, dep_id, &bytes, command, &rebuild),
                r,
            ),
        table::distinct_names(codecs@),
    ensures
        (forall|j: int| 0 <= j < codecs@.len() ==> (#[trigger] codecs@[j]).0@ != dep_id@) ==> r
            is Err && after == before,
        0 <= k < codecs@.len() && codecs@[k].0@ == dep_id@ ==> match codecs@[k].1.worker_fn {
            WorkerReconstructor::Async(_) => r is Err && after == before,
            WorkerReconstructor::Sync(f) => {
                &&& r is Ok <==> before.root.identifies(dep_id@)
                &&& exists|value: Arc<V>| #[trigger]
                    rebuild.ensures((codecs@[k].1.codec.from_wire_bytes, f, &bytes), value)
                        && before.provides(dep_id@, value, after)
            },
        },
{
    table::lemma_entries_map(codecs@);
    let known = table::entries_map(codecs@);
    if forall|j: int| 0 <= j < codecs@.len() ==> (#[trigger] codecs@[j]).0@ != dep_id@ {
        assert(!known.contains_key(dep_id@));
    }
    if 0 <= k < codecs@.len() && codecs@[k].0@ == dep_id@ {
        assert(known.contains_key(codecs@[k].0@));
        assert(known[dep_id@] == codecs@[k].1);
        if let WorkerReconstructor::Sync(f) = codecs@[k].1.worker_fn {
            let value = choose|value: Arc<V>| #[trigger]
                rebuild.ensures(
                    (
                        codecs@[k].1.codec.from_wire_bytes,
                        wire::sync_fn(codecs@[k].1.worker_fn),
                        &bytes,
                    ),
                    value,
                ) && before.provides(dep_id@, value, after);
            assert(rebuild.ensures((codecs@[k].1.codec.from_wire_bytes, f, &bytes), value));
        }
    }
}

/// Whether an owner is called synchronously or asynchronously follows from what drives the tests, and so
/// does how workers rebuild a handle.
pub proof fn runtime_decides_how_owners_are_called<O: HostedRpcDispatcher>(
    asynchronous: bool,
    owner: O,
    cell: HostedRpcOwnerCell<O>,
    method_idx: u32,
    args: &[u8],
    r: Result<Vec<u8>, String>,
    after: HostedRpcOwnerCell<O>,
    rebuild: HostId,
    by: WorkerReconstructor,
)
    requires
        call_ensures(
            hosted::__test_r_make_hosted_rpc_cell::<O>,
            (asynchronous, owner),
            cell,
        ),
        call_ensures(
            hosted::__test_r_make_hosted_worker_reconstructor,
            (asynchronous, rebuild),
            by,
        ),
        exists|c: &mut HostedRpcOwnerCell<O>|
            *c == cell && *final(c) == after && #[trigger] call_ensures(
                HostedRpcOwnerCell::<O>::dispatch,
                (c, method_idx, args),
                r,
            ),
    ensures
        asynchronous ==> r is Err && after == cell && by == WorkerReconstructor::Async(rebuild),
        !asynchronous ==> by == WorkerReconstructor::Sync(rebuild) && exists|
            outcome: hosted::DispatchOutcome,
        | #[trigger]
            O::dispatches(owner, method_idx, args@, outcome, after.owner),
{
}

/// A value is found under the name under which it was put last, and other names keep theirs.
pub proof fn value_is_found_again<V>(
    before: DependencyMap<V>,
    after: DependencyMap<V>,
    name: String,
    value: Arc<V>,
    asked: &str,
    had: Option<Arc<V>>,
    has: Option<Arc<V>>,
)
    requires
        exists|map: &mut DependencyMap<V>|
            *map == before && *final(map) == after && #[trigger] call_ensures(
                DependencyMap::<V>::insert,
                (map, name, value),
                (),
            ),
        call_ensures(DependencyMap::<V>::get, (&before, asked), had),
        call_ensures(DependencyMap::<V>::get, (&after, asked), has),
    ensures
        asked@ == name@ ==> has == Some(value),
        asked@ != name@ ==> has == had,
{
}

/// Of two maps that are put together, the second one decides where both have a value.
pub proof fn added_values_win<V>(
    before: DependencyMap<V>,
    after: DependencyMap<V>,
    other: DependencyMap<V>,
    asked: &str,
    had: Option<Arc<V>>,
    added: Option<Arc<V>>,
    has: Option<Arc<V>>,
)
    requires
        exists|map: &mut DependencyMap<V>|
            *map == before && *final(map) == after && #[trigger] call_ensures(
                DependencyMap::<V>::extend,
                (map, &other),
                (),
            ),
        call_ensures(DependencyMap::<V>::get, (&before, asked), had),
        call_ensures(DependencyMap::<V>::get, (&other, asked), added),
        call_ensures(DependencyMap::<V>::get, (&after, asked), has),
    ensures
        added is Some ==> has == added,
        added is None ==> has == had,
{
}

/// A report that goes to a log file is written at any time while a run goes on, any other one only at the
/// end.
pub proof fn report_waits_for_the_end(
    report: Ctrf,
    to_log_file: bool,
    is_final: bool,
    now: u64,
    timestamp: &str,
    r: Option<String>,
)
    requires
        call_ensures(Ctrf::snapshot, (&report, to_log_file, is_final, now, timestamp), r),
    ensures
        report.start is None ==> r is None,
        report.start is Some && is_final ==> r is Some,
        report.start is Some && to_log_file ==> r is Some,
        !is_final && !to_log_file ==> r is None,
{
    assert(r is Some <==> text::opt_view(r) is Some);
}

/// A text begins with another one if something follows that one in it, and holds it if it stands anywhere.
pub proof fn parts_of_texts_are_found(
    s: &str,
    part: &str,
    begins: bool,
    inside: bool,
    rest: Option<String>,
)
    requires
        call_ensures(text::starts_with, (s, part), begins),
        call_ensures(text::contains_str, (s, part), inside),
        call_ensures(text::strip_prefix, (s, part), rest),
    ensures
        begins <==> exists|after: Seq<char>| s@ == #[trigger] (part@ + after),
        inside <==> holds(s@, part@),
        rest is Some <==> begins,
        rest matches Some(after) ==> s@ == part@ + after@,
{
    lemma_substring(s@, part@);
    let n = part@.len() as int;
    if begins {
        assert(s@.subrange(0, 0 + n) == part@);
        assert(s@ =~= part@ + s@.skip(n)) by {
            assert forall|i: int| 0 <= i < n implies s@[i] == part@[i] by {
                assert(s@.subrange(0, n)[i] == part@[i]);
            }
        }
    }
    if exists|after: Seq<char>| s@ == #[trigger] (part@ + after) {
        let after = choose|after: Seq<char>| s@ == #[trigger] (part@ + after);
        assert(s@.subrange(0, 0 + n) =~= part@);
    }
}

/// A number is read from its decimal notation.
pub proof fn number_is_read_back(n: u64, s: String, written: &str, r: Option<u64>)
    requires
        call_ensures(text::decimal_u64, (n,), s),
        written@ == s@,
        call_ensures(text::parse_u64, (written,), r),
    ensures
        r == Some(n),
{
    text::decimal_reads_back(n as nat);
}

/// The plan of a worker process, and of a process whose workers run the tests, gets no values from its own
/// process.
pub proof fn workers_get_values_from_elsewhere<
    V,
    K,
    R: Fn(HostId, HostId, &Vec<u8>) -> Arc<V>,
    B: Fn(HostId, &String) -> Arc<V>,
>(
    args: Arguments,
    before: TestSuiteExecution<V>,
    after: TestSuiteExecution<V>,
    values: Vec<(String, Arc<V>)>,
    descriptors: Vec<DepWireBytes>,
    cells: Vec<(String, K)>,
    codecs: Vec<(String, WireCodec)>,
    factories: Vec<(String, RpcFactory)>,
    rebuild: R,
    build_stub: B,
    r: Result<(), String>,
)
    requires
        exists|execution: &mut TestSuiteExecution<V>|
            *execution == before && *final(execution) == after && #[trigger] call_ensures(
                runner::localize::<V, K, R, B>,
                (
                    &args,
                    execution,
                    &values,
                    &descriptors,
                    &cells,
                    &codecs,
                    &factories,
                    &rebuild,
                    &build_stub,
                ),
                r,
            ),
        args.ipc is Some || args.spawn_workers,
    ensures
        r is Ok,
        after == before,
{
    assert(args@.ipc is Some <==> args.ipc is Some);
}

/// In a process that runs its tests itself, a value that was made for workers is what the plan is given
/// first, under the identifier of its dependency.
pub proof fn own_values_are_used<
    V,
    K,
    R: Fn(HostId, HostId, &Vec<u8>) -> Arc<V>,
    B: Fn(HostId, &String) -> Arc<V>,
>(
    args: Arguments,
    before: TestSuiteExecution<V>,
    after: TestSuiteExecution<V>,
    values: Vec<(String, Arc<V>)>,
    descriptors: Vec<DepWireBytes>,
    cells: Vec<(String, K)>,
    codecs: Vec<(String, WireCodec)>,
    factories: Vec<(String, RpcFactory)>,
    rebuild: R,
    build_stub: B,
    r: Result<(), String>,
)
    requires
        exists|execution: &mut TestSuiteExecution<V>|
            *execution == before && *final(execution) == after && #[trigger] call_ensures(
                runner::localize::<V, K, R, B>,
                (
                    &args,
                    execution,
                    &values,
                    &descriptors,
                    &cells,
                    &codecs,
                    &factories,
                    &rebuild,
                    &build_stub,
                ),
                r,
            ),
        args.ipc is None,
        !args.spawn_workers,
        values@.len() > 0,
    ensures
        !before.root.identifies(values@[0].0@) ==> r is Err,
        exists|next: TestSuiteExecution<V>| #[trigger]
            before.provides(values@[0].0@, values@[0].1, next),
{
    assert(args@.ipc is Some <==> args.ipc is Some);
    let known = table::entries_map(codecs@);
    let routed = wire::routed(factories@, table::entries_map(cells@));
    let stages = choose|stages: runner::LocalStages<V>| #[trigger]
        runner::is_staged(
            before,
            values@,
            descriptors@,
            known,
            routed,
            rebuild,
            build_stub,
            stages,
            wire::reason(r),
            after,
        );
    let (states, n) = choose|states: Seq<TestSuiteExecution<V>>, n: nat|
        {
            &&& #[trigger] wire::is_provision(states, wire::value_offers(values@, n))
            &&& states[0] == before
            &&& states.last() == stages.with_values
            &&& wire::stops_at_refusal(
                states,
                wire::value_offers(values@, n),
                values@.len(),
                stages.value_failure,
                "Cloneable dep '"@,
                "' could not be pre-populated locally"@,
            )
        };
    let offers = wire::value_offers(values@, n);
    assert(n > 0);
    assert(wire::is_turn(states, offers, 0));
    assert(offers[0] == (values@[0].0@, values@[0].1));
    if !before.root.identifies(values@[0].0@) {
        assert(!wire::is_accepted(states, offers, 0));
    }
}

} // verus!
