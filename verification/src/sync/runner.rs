//! A run as a whole: putting the plan together, and repeating the run.
use super::wire;
use super::wire::{
    apply_cloneable_values_locally, apply_hosted_descriptors_locally, build_rpc_factories,
    build_worker_wire_codecs, install_local_hosted_rpc_stubs, WireCodec,
};
use crate::args::{Arguments, ArgumentsModel};
use crate::execution::collect;
use crate::execution::collect::{DepWireBytes, ParentSharedDependencies};
use crate::execution::materialize;
use crate::execution::plan;
use crate::execution::suite::TestSuiteExecution;
use crate::execution::values::DependencyMap;
use crate::internal;
use crate::internal::{
    DepScope, DependencyModel, HostId, RegisteredDependency, RegisteredTest,
    RegisteredTestSuiteProperty, RpcFactory,
};
use crate::table;
use crate::table::tabulate;
use crate::text;
use std::sync::Arc;
use vstd::prelude::*;

verus! {

/// Whether there is another run after this many runs have ended, the last of them with this exit
/// code.
pub open spec fn is_run_again(retries: usize, runs: int, exit_code: u8) -> bool {
    exit_code != 0 && runs < retries
}

/// These are the exit codes of the runs, first to last: a run is repeated while it fails and
/// retries are left.
pub open spec fn is_run_history(retries: usize, codes: Seq<u8>) -> bool {
    &&& codes.len() > 0 <==> retries > 0
    &&& forall|i: int|
        0 <= i < codes.len() ==> (#[trigger] is_run_again(retries, i + 1, codes[i]) <==> i
            < codes.len() - 1)
}

/// The exit code of a process with these runs.
pub open spec fn final_exit_code(codes: Seq<u8>) -> u8 {
    if codes.len() == 0 {
        101
    } else {
        codes.last()
    }
}

/// How many runs are made at most.
pub open spec fn most_runs(flaky_run: Option<usize>) -> usize {
    match flaky_run {
        Some(n) => n,
        None => 1,
    }
}

/// The runs were made, and these are their exit codes: each is one that `run` may return when it is
/// told how many runs there were before.
pub open spec fn may_run<F: Fn(usize) -> u8>(run: F, codes: Seq<u8>) -> bool {
    forall|i: int| 0 <= i < codes.len() ==> run.ensures((i as usize,), #[trigger] codes[i])
}

/// Every run that may have to be made can be made.
pub open spec fn can_run<F: Fn(usize) -> u8>(run: F, flaky_run: Option<usize>) -> bool {
    forall|i: usize| i < most_runs(flaky_run) ==> #[trigger] run.requires((i,))
}

/// Runs the tests until a run succeeds, as often as the retries allow. `run` makes one run and
/// returns its exit code; it is told how many runs there were before.
pub fn run_with_retries<F: Fn(usize) -> u8>(flaky_run: Option<usize>, run: &F) -> (r: u8)
    requires
        can_run(*run, flaky_run),
    ensures
        exists|codes: Seq<u8>| #[trigger]
            may_run(*run, codes) && is_run_history(most_runs(flaky_run), codes) && r
                == final_exit_code(codes),
{
    let retries: usize = match flaky_run {
        Some(n) => n,
        None => 1,
    };
    let mut remaining: usize = retries;
    let mut exit_code: u8 = 101;
    let ghost mut codes: Seq<u8> = Seq::empty();
    while remaining > 0
        invariant
            remaining <= retries,
            codes.len() == retries - remaining,
            may_run(*run, codes),
            exit_code == final_exit_code(codes),
            forall|i: int| 0 <= i < codes.len() ==> #[trigger] codes[i] != 0,
            can_run(*run, flaky_run),
            retries == most_runs(flaky_run),
        decreases remaining,
    {
        exit_code = run(retries - remaining);
        proof {
            codes = codes.push(exit_code);
            assert(may_run(*run, codes));
        }
        if exit_code == 0 {
            assert(is_run_history(retries, codes));
            return exit_code;
        }
        remaining = remaining - 1;
    }
    assert(is_run_history(retries, codes));
    exit_code
}

/// Lists the tests where the user asks for that, else runs them. `list` shows the list and `run`
/// makes one run; it is told how many runs there were before.
pub fn test_runner<L: Fn(), F: Fn(usize) -> u8>(args: &Arguments, list: &L, run: &F) -> (r: u8)
    requires
        list.requires(()),
        can_run(*run, args.flaky_run),
    ensures
        if args.list {
            r == 0 && list.ensures((), ())
        } else {
            exists|codes: Seq<u8>| #[trigger]
                may_run(*run, codes) && is_run_history(most_runs(args.flaky_run), codes) && r
                    == final_exit_code(codes)
        },
{
    if args.list {
        let shown = list();
        assert(shown == ());
        0
    } else {
        run_with_retries(args.flaky_run, run)
    }
}

/// A process succeeds if and only if one of its runs does, and that is then the last one.
pub proof fn process_succeeds_with_a_run(retries: usize, codes: Seq<u8>)
    requires
        is_run_history(retries, codes),
    ensures
        codes.len() <= retries,
        final_exit_code(codes) == 0 <==> codes.contains(0),
        forall|i: int| 0 <= i < codes.len() - 1 ==> #[trigger] codes[i] != 0,
        codes.len() < retries ==> final_exit_code(codes) == 0,
{
    assert forall|i: int| 0 <= i < codes.len() - 1 implies #[trigger] codes[i] != 0 by {
        assert(is_run_again(retries, i + 1, codes[i]));
    }
    if codes.len() > 0 {
        let last = codes.len() - 1;
        assert(!is_run_again(retries, last + 1, codes[last]));
        if last > 0 {
            assert(is_run_again(retries, last - 1 + 1, codes[last - 1]));
        }
        if codes.contains(0) {
            let i = codes.index_of(0);
            assert(codes[i] == 0);
        }
    }
}

/// The registered tests, followed by the generated ones.
pub fn all_tests(registered: &Vec<RegisteredTest>, generated: Vec<RegisteredTest>) -> (r: Vec<
    RegisteredTest,
>)
    ensures
        internal::test_views(r@) == internal::test_views(registered@) + internal::test_views(
            generated@,
        ),
{
    let ghost made = internal::test_views(generated@);
    let mut r: Vec<RegisteredTest> = Vec::new();
    let mut i: usize = 0;
    while i < registered.len()
        invariant
            i <= registered.len(),
            internal::test_views(r@) == internal::test_views(registered@).take(i as int),
        decreases registered.len() - i,
    {
        let ghost before = r@;
        r.push(registered[i].clone());
        assert(internal::test_views(r@) =~= internal::test_views(before).push(
            registered@[i as int]@,
        ));
        assert(internal::test_views(registered@).take(i + 1) =~= internal::test_views(
            registered@,
        ).take(i as int).push(registered@[i as int]@));
        i = i + 1;
    }
    let mut generated = generated;
    let ghost before = r@;
    assert(internal::test_views(registered@).take(i as int) =~= internal::test_views(registered@));
    assert(internal::test_views(before) == internal::test_views(registered@));
    r.append(&mut generated);
    assert forall|k: int| 0 <= k < before.len() implies (#[trigger] r@[k])@ == internal::test_views(
        registered@,
    )[k] by {
        assert(internal::test_views(before)[k] == before[k]@);
    }
    assert(internal::test_views(r@) =~= internal::test_views(registered@) + made);
    r
}

/// The arguments of the thread with this index: where it drives a worker process, that process
/// learns the index.
pub fn thread_arguments(args: &Arguments, worker_idx: usize) -> (r: Arguments)
    ensures
        r@ == (ArgumentsModel {
            worker_index: if args.spawn_workers {
                Some(worker_idx)
            } else {
                args.worker_index
            },
            ..args@
        }),
{
    let mut r = args.clone();
    if r.spawn_workers {
        r.worker_index = Some(worker_idx);
    }
    r
}

/// Whether the parent constructs dependencies for its workers: only the process that the user
/// started does, and only if there are tests to run and dependencies of such a scope.
pub open spec fn needs_shared<V>(a: ArgumentsModel, planned: TestSuiteExecution<V>) -> bool {
    &&& a.ipc is None
    &&& planned.root.total() > 0
    &&& planned.root.has_scope(DepScope::Cloneable) || planned.root.has_scope(DepScope::Hosted)
        || planned.root.has_scope(DepScope::HostedRpc)
}

/// `shared` is what the parent keeps for its workers, and nothing that was built for that lacks what
/// its scope takes.
pub open spec fn is_shared_by<
    V,
    K,
    F: Fn(&RegisteredDependency, &DependencyMap<V>) -> Arc<V>,
    W: Fn(HostId, &Arc<V>) -> Vec<u8>,
    C: Fn(HostId, &Arc<V>) -> K,
>(
    a: ArgumentsModel,
    planned: TestSuiteExecution<V>,
    construct: F,
    to_wire: W,
    owner_into_cell: C,
    shared: ParentSharedDependencies<V, K>,
) -> bool {
    if needs_shared(a, planned) {
        planned.root.all_shippable(Set::empty()) && planned.gathers(
            construct,
            to_wire,
            owner_into_cell,
            shared,
        )
    } else {
        shared.is_blank()
    }
}

/// Constructs what the parent keeps for its workers. Fails at the first dependency that was built
/// without what its scope takes.
pub fn share_dependencies<
    V,
    K,
    F: Fn(&RegisteredDependency, &DependencyMap<V>) -> Arc<V>,
    W: Fn(HostId, &Arc<V>) -> Vec<u8>,
    C: Fn(HostId, &Arc<V>) -> K,
>(
    args: &Arguments,
    planned: &TestSuiteExecution<V>,
    construct: &F,
    to_wire: &W,
    owner_into_cell: &C,
) -> (r: Result<ParentSharedDependencies<V, K>, String>)
    requires
        planned.wf(),
        materialize::constructs_any(*construct),
        collect::ships_any(*to_wire, *owner_into_cell),
    ensures
        match r {
            Ok(shared) => is_shared_by(
                args@,
                *planned,
                *construct,
                *to_wire,
                *owner_into_cell,
                shared,
            ),
            Err(message) => {
                &&& needs_shared(args@, *planned)
                &&& planned.root.is_lack(Set::empty(), message@)
            },
        },
{
    let needs = args.is_top_level_parent() && planned.remaining() > 0 && (
    planned.has_cloneable_dependencies() || planned.has_hosted_dependencies()
        || planned.has_hosted_rpc_dependencies());
    if !needs {
        return Ok(ParentSharedDependencies::new());
    }
    planned.gather_parent_shared_dependencies(construct, to_wire, owner_into_cell)
}

/// What the three kinds of values came to that a run without worker processes provides itself: the
/// plans in between, and the failures of the first two.
#[verifier::reject_recursive_types(V)]
pub struct LocalStages<V> {
    pub with_values: TestSuiteExecution<V>,
    pub value_failure: Option<Seq<char>>,
    pub with_handles: TestSuiteExecution<V>,
    pub handle_failure: Option<Seq<char>>,
}

/// `after` is the plan with the values, the handles and the stubs, in this order, up to the first
/// failure.
pub open spec fn is_staged<
    V,
    R: Fn(HostId, HostId, &Vec<u8>) -> Arc<V>,
    B: Fn(HostId, &String) -> Arc<V>,
>(
    planned: TestSuiteExecution<V>,
    values: Seq<(String, Arc<V>)>,
    descriptors: Seq<DepWireBytes>,
    codecs: Map<Seq<char>, WireCodec>,
    factories: Seq<(String, RpcFactory)>,
    rebuild: R,
    build_stub: B,
    stages: LocalStages<V>,
    failure: Option<Seq<char>>,
    after: TestSuiteExecution<V>,
) -> bool {
    &&& wire::cloneables_applied(planned, values, stages.value_failure, stages.with_values)
    &&& if stages.value_failure is Some {
        failure == stages.value_failure && after == stages.with_values
    } else {
        &&& wire::descriptors_applied(
            stages.with_values,
            codecs,
            descriptors,
            rebuild,
            stages.handle_failure,
            stages.with_handles,
        )
        &&& if stages.handle_failure is Some {
            failure == stages.handle_failure && after == stages.with_handles
        } else {
            wire::stubs_installed(stages.with_handles, factories, build_stub, failure, after)
        }
    }
}

/// `after` is the plan in which the tests of this process find the values of dependencies that
/// workers would be sent; where worker processes run the tests, the plan stays as it is.
pub open spec fn is_localized<
    V,
    R: Fn(HostId, HostId, &Vec<u8>) -> Arc<V>,
    B: Fn(HostId, &String) -> Arc<V>,
>(
    a: ArgumentsModel,
    planned: TestSuiteExecution<V>,
    values: Seq<(String, Arc<V>)>,
    descriptors: Seq<DepWireBytes>,
    codecs: Map<Seq<char>, WireCodec>,
    factories: Seq<(String, RpcFactory)>,
    rebuild: R,
    build_stub: B,
    failure: Option<Seq<char>>,
    after: TestSuiteExecution<V>,
) -> bool {
    if a.ipc is None && !a.spawn_workers {
        exists|stages: LocalStages<V>| #[trigger]
            is_staged(
                planned,
                values,
                descriptors,
                codecs,
                factories,
                rebuild,
                build_stub,
                stages,
                failure,
                after,
            )
    } else {
        failure is None && after == planned
    }
}

/// Provides the values of dependencies that workers would be sent to the plan of this process,
/// where its tests run in this process.
pub fn localize<
    V,
    K,
    R: Fn(HostId, HostId, &Vec<u8>) -> Arc<V>,
    B: Fn(HostId, &String) -> Arc<V>,
>(
    args: &Arguments,
    execution: &mut TestSuiteExecution<V>,
    values: &Vec<(String, Arc<V>)>,
    descriptors: &Vec<DepWireBytes>,
    cells: &Vec<(String, K)>,
    codecs: &Vec<(String, WireCodec)>,
    factories: &Vec<(String, RpcFactory)>,
    rebuild: &R,
    build_stub: &B,
) -> (r: Result<(), String>)
    requires
        old(execution).wf(),
        table::distinct_names(codecs@),
        table::distinct_names(cells@),
        wire::rebuilds_any(*rebuild),
        wire::stubs_any(*build_stub),
    ensures
        final(execution).wf(),
        is_localized(
            args@,
            *old(execution),
            values@,
            descriptors@,
            table::entries_map(codecs@),
            wire::routed(factories@, table::entries_map(cells@)),
            *rebuild,
            *build_stub,
            wire::reason(r),
            *final(execution),
        ),
{
    if !args.is_top_level_parent() || args.spawn_workers {
        return Ok(());
    }
    let ghost routed = wire::routed(factories@, table::entries_map(cells@));
    let ghost known = table::entries_map(codecs@);
    let first = apply_cloneable_values_locally(execution, values);
    let ghost with_values = *execution;
    let ghost value_failure = wire::reason(first);
    if let Err(message) = first {
        proof {
            let stages = LocalStages {
                with_values,
                value_failure,
                with_handles: with_values,
                handle_failure: None,
            };
            assert(is_staged(
                *old(execution),
                values@,
                descriptors@,
                known,
                routed,
                *rebuild,
                *build_stub,
                stages,
                value_failure,
                with_values,
            ));
        }
        return Err(message);
    }
    let second = apply_hosted_descriptors_locally(execution, codecs, descriptors, rebuild);
    let ghost with_handles = *execution;
    let ghost handle_failure = wire::reason(second);
    let ghost stages = LocalStages { with_values, value_failure, with_handles, handle_failure };
    if let Err(message) = second {
        assert(is_staged(
            *old(execution),
            values@,
            descriptors@,
            known,
            routed,
            *rebuild,
            *build_stub,
            stages,
            handle_failure,
            with_handles,
        ));
        return Err(message);
    }
    let third = install_local_hosted_rpc_stubs(execution, factories, cells, build_stub);
    assert(is_staged(
        *old(execution),
        values@,
        descriptors@,
        known,
        routed,
        *rebuild,
        *build_stub,
        stages,
        wire::reason(third),
        *execution,
    ));
    third
}

/// Everything that a run starts from.
#[verifier::reject_recursive_types(V)]
#[verifier::reject_recursive_types(K)]
pub struct Prepared<V, K> {
    pub execution: TestSuiteExecution<V>,
    /// The selected tests, in the order in which they were put into the plan
    pub filtered_tests: Vec<RegisteredTest>,
    /// What the user is told before the run
    pub warning: Option<String>,
    /// What is sent to each worker
    pub cloneable_wire_bytes: Vec<DepWireBytes>,
    pub hosted_descriptor_bytes: Vec<DepWireBytes>,
    /// The owners that stay alive for the run
    pub hosted_owners: Vec<Arc<V>>,
    /// The owners that workers call
    pub owner_cells: Vec<(String, K)>,
    pub codecs: Vec<(String, WireCodec)>,
    pub factories: Vec<(String, RpcFactory)>,
}

/// `execution` is the plan with which the run starts: without values of its own where worker
/// processes run the tests.
pub open spec fn is_started<V>(
    a: ArgumentsModel,
    local: TestSuiteExecution<V>,
    execution: TestSuiteExecution<V>,
) -> bool {
    if a.spawn_workers {
        &&& local.root.skipping_to(execution.root)
        &&& execution.held == local.held
        &&& execution.idx == local.idx
    } else {
        execution == local
    }
}

/// `prepared` is what a run starts from that has this plan and keeps this for its workers.
pub open spec fn is_prepared<
    V,
    K,
    R: Fn(HostId, HostId, &Vec<u8>) -> Arc<V>,
    B: Fn(HostId, &String) -> Arc<V>,
>(
    a: ArgumentsModel,
    dependencies: Seq<DependencyModel>,
    planned: TestSuiteExecution<V>,
    shared: ParentSharedDependencies<V, K>,
    rebuild: R,
    build_stub: B,
    prepared: Prepared<V, K>,
) -> bool {
    &&& prepared.execution.wf()
    &&& prepared.execution.root.tests_below() == planned.root.tests_below()
    &&& prepared.cloneable_wire_bytes == shared.cloneable_wire_bytes
    &&& prepared.hosted_descriptor_bytes == shared.hosted_descriptor_bytes
    &&& prepared.hosted_owners == shared.hosted_owners
    &&& table::distinct_names(prepared.owner_cells@)
    &&& table::entries_map(prepared.owner_cells@) == table::entries_map(
        shared.hosted_rpc_owner_cells@,
    )
    &&& table::distinct_names(prepared.codecs@)
    &&& table::entries_map(prepared.codecs@) == wire::wire_codecs(dependencies)
    &&& table::distinct_names(prepared.factories@)
    &&& table::entries_map(prepared.factories@) == wire::rpc_factories(dependencies)
    &&& exists|local: TestSuiteExecution<V>| #[trigger]
        is_localized(
            a,
            planned,
            shared.cloneable_local_values@,
            shared.hosted_descriptor_bytes@,
            wire::wire_codecs(dependencies),
            wire::routed(
                prepared.factories@,
                table::entries_map(shared.hosted_rpc_owner_cells@),
            ),
            rebuild,
            build_stub,
            None,
            local,
        ) && is_started(a, local, prepared.execution)
}

/// Why a run with this plan cannot start: a dependency lacks what its scope takes, or a value finds
/// no place in the plan.
pub open spec fn is_preparation_failure<
    V,
    K,
    F: Fn(&RegisteredDependency, &DependencyMap<V>) -> Arc<V>,
    W: Fn(HostId, &Arc<V>) -> Vec<u8>,
    C: Fn(HostId, &Arc<V>) -> K,
    R: Fn(HostId, HostId, &Vec<u8>) -> Arc<V>,
    B: Fn(HostId, &String) -> Arc<V>,
>(
    a: ArgumentsModel,
    dependencies: Seq<DependencyModel>,
    planned: TestSuiteExecution<V>,
    construct: F,
    to_wire: W,
    owner_into_cell: C,
    rebuild: R,
    build_stub: B,
    message: Seq<char>,
) -> bool {
    ||| {
        &&& needs_shared(a, planned)
        &&& planned.root.is_lack(Set::empty(), message)
    }
    ||| exists|
        shared: ParentSharedDependencies<V, K>,
        factories: Seq<(String, RpcFactory)>,
        local: TestSuiteExecution<V>,
    |
        {
            &&& #[trigger] is_shared_by(a, planned, construct, to_wire, owner_into_cell, shared)
            &&& table::distinct_names(factories)
            &&& table::entries_map(factories) == wire::rpc_factories(dependencies)
            &&& #[trigger] is_localized(
                a,
                planned,
                shared.cloneable_local_values@,
                shared.hosted_descriptor_bytes@,
                wire::wire_codecs(dependencies),
                wire::routed(factories, table::entries_map(shared.hosted_rpc_owner_cells@)),
                rebuild,
                build_stub,
                Some(message),
                local,
            )
        }
}

/// Prepares a run: fixes the order of the tests, with the seed that was drawn where a random order
/// is asked for, builds the plan, adjusts the arguments to it, constructs what the parent keeps
/// for its workers, and provides the plan with the values that its tests find.
pub fn prepare_run<
    V,
    K,
    F: Fn(&RegisteredDependency, &DependencyMap<V>) -> Arc<V>,
    W: Fn(HostId, &Arc<V>) -> Vec<u8>,
    C: Fn(HostId, &Arc<V>) -> K,
    R: Fn(HostId, HostId, &Vec<u8>) -> Arc<V>,
    B: Fn(HostId, &String) -> Arc<V>,
>(
    args: &mut Arguments,
    dependencies: &Vec<RegisteredDependency>,
    tests: &Vec<RegisteredTest>,
    props: &Vec<RegisteredTestSuiteProperty>,
    available: Option<usize>,
    drawn_seed: u64,
    construct: &F,
    to_wire: &W,
    owner_into_cell: &C,
    rebuild: &R,
    build_stub: &B,
) -> (r: Result<Prepared<V, K>, String>)
    requires
        plan::all_rooted(dependencies@, tests@, props@),
        materialize::constructs_any(*construct),
        collect::ships_any(*to_wire, *owner_into_cell),
        wire::rebuilds_any(*rebuild),
        wire::stubs_any(*build_stub),
    ensures
        exists|planned: TestSuiteExecution<V>, filtered: Seq<RegisteredTest>|
            {
                let deps = internal::dependency_views(dependencies@);
                let asked = Arguments::ordered(old(args)@, drawn_seed);
                &&& #[trigger] TestSuiteExecution::constructs(
                    Arguments::ordered(old(args)@, drawn_seed),
                    dependencies@,
                    tests@,
                    props@,
                    planned,
                    filtered,
                )
                &&& final(args)@ == Arguments::finalized(
                    asked,
                    planned.root.has_scope(DepScope::Shared),
                    available,
                )
                &&& match r {
                    Ok(prepared) => {
                        &&& prepared.filtered_tests@ == filtered
                        &&& text::opt_view(prepared.warning) == (if Arguments::is_restricted(
                            asked,
                            planned.root.has_scope(DepScope::Shared),
                            available,
                        ) {
                            Some(crate::args::single_thread_warning())
                        } else {
                            None
                        })
                        &&& exists|shared: ParentSharedDependencies<V, K>| #[trigger]
                            is_shared_by(
                                final(args)@,
                                planned,
                                *construct,
                                *to_wire,
                                *owner_into_cell,
                                shared,
                            ) && is_prepared(
                                final(args)@,
                                deps,
                                planned,
                                shared,
                                *rebuild,
                                *build_stub,
                                prepared,
                            )
                    },
                    Err(message) => is_preparation_failure::<V, K, F, W, C, R, B>(
                        final(args)@,
                        deps,
                        planned,
                        *construct,
                        *to_wire,
                        *owner_into_cell,
                        *rebuild,
                        *build_stub,
                        message@,
                    ),
                }
            },
{
    args.fix_order(drawn_seed);
    let (mut execution, filtered_tests) = TestSuiteExecution::construct(
        args,
        dependencies,
        tests,
        props,
    );
    let ghost planned = execution;
    let ghost deps = internal::dependency_views(dependencies@);
    let warning = args.finalize_for_execution(&execution, available);
    let shared = match share_dependencies(args, &execution, construct, to_wire, owner_into_cell) {
        Ok(shared) => shared,
        Err(message) => {
            return Err(message);
        },
    };
    let ghost kept = shared;
    assert(is_shared_by(args@, planned, *construct, *to_wire, *owner_into_cell, kept));
    let codecs = build_worker_wire_codecs(dependencies);
    let factories = build_rpc_factories(dependencies);
    let owner_cells = tabulate(shared.hosted_rpc_owner_cells);
    let localized = localize(
        args,
        &mut execution,
        &shared.cloneable_local_values,
        &shared.hosted_descriptor_bytes,
        &owner_cells,
        &codecs,
        &factories,
        rebuild,
        build_stub,
    );
    let ghost local = execution;
    if let Err(message) = localized {
        return Err(message);
    }
    proof {
        lemma_localized_keeps_tests(
            args@,
            planned,
            kept.cloneable_local_values@,
            kept.hosted_descriptor_bytes@,
            wire::wire_codecs(deps),
            wire::routed(factories@, table::entries_map(kept.hosted_rpc_owner_cells@)),
            *rebuild,
            *build_stub,
            None,
            local,
        );
    }
    if args.spawn_workers {
        execution.skip_creating_dependencies();
    }
    assert(is_started(args@, local, execution));
    let prepared = Prepared {
        execution,
        filtered_tests,
        warning,
        cloneable_wire_bytes: shared.cloneable_wire_bytes,
        hosted_descriptor_bytes: shared.hosted_descriptor_bytes,
        hosted_owners: shared.hosted_owners,
        owner_cells,
        codecs,
        factories,
    };
    assert(is_localized(
        args@,
        planned,
        kept.cloneable_local_values@,
        kept.hosted_descriptor_bytes@,
        wire::wire_codecs(deps),
        wire::routed(prepared.factories@, table::entries_map(kept.hosted_rpc_owner_cells@)),
        *rebuild,
        *build_stub,
        None,
        local,
    ));
    assert(is_prepared(args@, deps, planned, kept, *rebuild, *build_stub, prepared));
    Ok(prepared)
}

proof fn lemma_localized_keeps_tests<
    V,
    R: Fn(HostId, HostId, &Vec<u8>) -> Arc<V>,
    B: Fn(HostId, &String) -> Arc<V>,
>(
    a: ArgumentsModel,
    planned: TestSuiteExecution<V>,
    values: Seq<(String, Arc<V>)>,
    descriptors: Seq<DepWireBytes>,
    codecs: Map<Seq<char>, WireCodec>,
    factories: Seq<(String, RpcFactory)>,
    rebuild: R,
    build_stub: B,
    failure: Option<Seq<char>>,
    after: TestSuiteExecution<V>,
)
    requires
        is_localized(
            a,
            planned,
            values,
            descriptors,
            codecs,
            factories,
            rebuild,
            build_stub,
            failure,
            after,
        ),
        failure is None,
    ensures
        after.root.tests_below() == planned.root.tests_below(),
{
    if a.ipc is None && !a.spawn_workers {
        let stages = choose|stages: LocalStages<V>| #[trigger]
            is_staged(
                planned,
                values,
                descriptors,
                codecs,
                factories,
                rebuild,
                build_stub,
                stages,
                failure,
                after,
            );
        wire::lemma_applied_keeps_tests(
            planned,
            values,
            stages.value_failure,
            stages.with_values,
        );
        wire::lemma_handles_keep_tests(
            stages.with_values,
            codecs,
            descriptors,
            rebuild,
            stages.handle_failure,
            stages.with_handles,
        );
        wire::lemma_stubs_keep_tests(
            stages.with_handles,
            factories,
            build_stub,
            failure,
            after,
        );
    }
}

} // verus!
