//! What a thread that runs tests does next.
use super::wire;
use super::wire::{apply_provided_wire_bytes, WireCodec};
use crate::args::ArgumentsModel;
use crate::execution::materialize;
use crate::execution::suite::{TestExecution, TestSuiteExecution};
use crate::execution::values::DependencyMap;
use crate::internal;
use crate::internal::{HostId, RegisteredDependency, RegisteredTest, TestModel};
use crate::ipc;
use crate::ipc::{IpcCommand, IpcResponse, SerializableTestResult};
use crate::results::TestResult;
use crate::table;
use crate::text::str_eq;
use std::sync::Arc;
use vstd::multiset::Multiset;
use vstd::prelude::*;

verus! {

/// The test that a worker was told to run.
#[derive(Debug)]
pub struct ExpectedTest {
    pub name: String,
    pub crate_name: String,
    pub module: String,
}

impl ExpectedTest {
    /// This is the test.
    pub open spec fn is_met_by(self, test: TestModel) -> bool {
        test.name == self.name@ && test.crate_name == self.crate_name@ && test.module
            == self.module@
    }
}

/// How a test is run.
#[derive(Debug, Clone, Copy, PartialEq, Eq, Structural)]
pub enum RunMode {
    /// Not at all
    Ignored,
    /// By the worker process of this thread
    InWorker,
    /// In this process
    Here,
}

/// What a thread does next.
#[verifier::reject_recursive_types(V)]
pub enum ThreadStep<V> {
    /// All tests have been handed out
    Done,
    /// Read the next command from the parent
    ReadCommand,
    /// Run this test
    Run { next: TestExecution<V>, mode: RunMode },
    /// No test was there to run; look again
    Retry,
}

/// A thread that runs tests.
pub struct TestThread {
    /// The process of this thread is a worker, driven by the commands of its parent
    pub connected: bool,
    /// This thread has a worker process in which its tests run
    pub has_worker: bool,
    /// Tests that are marked as ignored run too
    pub include_ignored: bool,
    /// Only tests that are marked as ignored run
    pub ignored: bool,
    /// The test that the last command named, until it runs
    pub expected: Option<ExpectedTest>,
    pub results: Vec<(RegisteredTest, TestResult)>,
}

/// Whether this test is to be run at all.
pub open spec fn is_to_run(thread: TestThread, test: TestModel) -> bool {
    if thread.ignored {
        test.props.is_ignored
    } else {
        thread.include_ignored || !test.props.is_ignored
    }
}

/// How this test is run.
pub open spec fn run_mode(thread: TestThread, test: TestModel) -> RunMode {
    if !is_to_run(thread, test) {
        RunMode::Ignored
    } else if thread.has_worker {
        RunMode::InWorker
    } else {
        RunMode::Here
    }
}

/// Whether this test is passed over because the parent named another one.
pub open spec fn is_skipped(expected: Option<ExpectedTest>, test: TestModel) -> bool {
    match expected {
        Some(expected) => !expected.is_met_by(test),
        None => false,
    }
}

/// `step` is what the thread does after it was given this test: one that the parent did not name
/// goes back at once, any other is run, and nothing is expected any more.
pub open spec fn is_step_with<V>(
    before: TestThread,
    picked: Option<TestExecution<V>>,
    mid: TestSuiteExecution<V>,
    step: ThreadStep<V>,
    after: TestThread,
    execution: TestSuiteExecution<V>,
) -> bool {
    match picked {
        Some(next) => if is_skipped(before.expected, next.test@) {
            step is Retry && after == before && mid.takes_back(next, execution)
        } else {
            &&& step == (ThreadStep::Run { next, mode: run_mode(before, next.test@) })
            &&& after == (TestThread { expected: None, ..before })
            &&& execution == mid
        },
        None => step is Retry && after == before && execution == mid,
    }
}

impl TestThread {
    pub fn new(connected: bool, has_worker: bool, include_ignored: bool, ignored: bool) -> (r: Self)
        ensures
            r.connected == connected,
            r.has_worker == has_worker,
            r.include_ignored == include_ignored,
            r.ignored == ignored,
            r.expected is None,
            r.results@.len() == 0,
    {
        TestThread {
            connected,
            has_worker,
            include_ignored,
            ignored,
            expected: None,
            results: Vec::new(),
        }
    }

    /// Carries out a command of the parent and returns the response to it, if there is one. Fails
    /// where the value that the command brought is of no use, and where the command is an answer
    /// to a call that nobody waits for.
    pub fn on_command<V, F: Fn(HostId, HostId, &Vec<u8>) -> Arc<V>>(
        &mut self,
        execution: &mut TestSuiteExecution<V>,
        codecs: &Vec<(String, WireCodec)>,
        command: IpcCommand,
        rebuild: &F,
    ) -> (r: Result<Option<IpcResponse>, String>)
        requires
            old(execution).wf(),
            table::distinct_names(codecs@),
            wire::rebuilds_any(*rebuild),
        ensures
            match command {
                IpcCommand::RunTest { name, crate_name, module } => {
                    &&& r == Ok::<Option<IpcResponse>, String>(None)
                    &&& *final(self) == (TestThread {
                        expected: Some(ExpectedTest { name, crate_name, module }),
                        ..*old(self)
                    })
                    &&& *final(execution) == *old(execution)
                },
                IpcCommand::ProvideCloneable { dep_id, wire_bytes } => {
                    &&& *final(self) == *old(self)
                    &&& r is Ok ==> r->Ok_0 == Some(IpcResponse::CloneableAccepted { dep_id })
                    &&& wire::is_applied(
                        *old(execution),
                        table::entries_map(codecs@),
                        dep_id@,
                        &wire_bytes,
                        "ProvideCloneable"@,
                        *rebuild,
                        wire::reason(r),
                        *final(execution),
                    )
                },
                IpcCommand::ProvideHostedDescriptor { dep_id, wire_bytes } => {
                    &&& *final(self) == *old(self)
                    &&& r is Ok ==> r->Ok_0 == Some(
                        IpcResponse::HostedDescriptorAccepted { dep_id },
                    )
                    &&& wire::is_applied(
                        *old(execution),
                        table::entries_map(codecs@),
                        dep_id@,
                        &wire_bytes,
                        "ProvideHostedDescriptor"@,
                        *rebuild,
                        wire::reason(r),
                        *final(execution),
                    )
                },
                IpcCommand::HostedRpcReply { .. } => {
                    &&& *final(self) == *old(self)
                    &&& *final(execution) == *old(execution)
                    &&& r is Err
                    &&& (r->Err_0)@
                        == "unexpected `HostedRpcReply` while waiting for the next `RunTest`/`Provide*` command — IPC protocol out of sync"@
                },
            },
    {
        match command {
            IpcCommand::RunTest { name, crate_name, module } => {
                self.expected = Some(ExpectedTest { name, crate_name, module });
                Ok(None)
            },
            IpcCommand::ProvideCloneable { dep_id, wire_bytes } => {
                match apply_provided_wire_bytes(
                    execution,
                    codecs,
                    dep_id.as_str(),
                    &wire_bytes,
                    "ProvideCloneable",
                    rebuild,
                ) {
                    Ok(_) => Ok(Some(IpcResponse::CloneableAccepted { dep_id })),
                    Err(message) => Err(message),
                }
            },
            IpcCommand::ProvideHostedDescriptor { dep_id, wire_bytes } => {
                match apply_provided_wire_bytes(
                    execution,
                    codecs,
                    dep_id.as_str(),
                    &wire_bytes,
                    "ProvideHostedDescriptor",
                    rebuild,
                ) {
                    Ok(_) => Ok(Some(IpcResponse::HostedDescriptorAccepted { dep_id })),
                    Err(message) => Err(message),
                }
            },
            IpcCommand::HostedRpcReply { .. } => Err(
                "unexpected `HostedRpcReply` while waiting for the next `RunTest`/`Provide*` command — IPC protocol out of sync".to_owned(),
            ),
        }
    }

    fn is_expected(&self, test: &RegisteredTest) -> (r: bool)
        ensures
            r == !is_skipped(self.expected, test@),
    {
        match &self.expected {
            Some(expected) => str_eq(test.name.as_str(), expected.name.as_str()) && str_eq(
                test.crate_name.as_str(),
                expected.crate_name.as_str(),
            ) && str_eq(test.module.as_str(), expected.module.as_str()),
            None => true,
        }
    }

    /// Decides what to do next: nothing where all tests have been handed out, read a command where
    /// the parent has to name a test, else take the next test of the plan and run it, unless the
    /// parent named another one.
    pub fn next_step<V, F: Fn(&RegisteredDependency, &DependencyMap<V>) -> Arc<V>>(
        &mut self,
        execution: &mut TestSuiteExecution<V>,
        construct: &F,
    ) -> (r: ThreadStep<V>)
        requires
            old(execution).wf(),
            materialize::constructs_any(*construct),
        ensures
            final(execution).wf(),
            if old(execution).root.total() == 0 {
                r is Done && *final(self) == *old(self) && *final(execution) == *old(execution)
            } else if old(self).connected && old(self).expected is None {
                r is ReadCommand && *final(self) == *old(self) && *final(execution) == *old(
                    execution,
                )
            } else {
                exists|picked: Option<TestExecution<V>>, mid: TestSuiteExecution<V>| #[trigger]
                    old(execution).picks(*construct, picked, mid) && is_step_with(
                        *old(self),
                        picked,
                        mid,
                        r,
                        *final(self),
                        *final(execution),
                    )
            },
    {
        if execution.is_done() {
            return ThreadStep::Done;
        }
        if self.connected && self.expected.is_none() {
            return ThreadStep::ReadCommand;
        }
        let picked = execution.pick_next_sync(construct);
        let ghost mid = *execution;
        let ghost given = picked;
        assert(old(execution).picks(*construct, given, mid));
        match picked {
            Some(next) => {
                if !self.is_expected(&next.test) {
                    execution.finish(next);
                    return ThreadStep::Retry;
                }
                let is_to_run = if self.ignored {
                    next.test.props.is_ignored
                } else {
                    self.include_ignored || !next.test.props.is_ignored
                };
                let mode = if !is_to_run {
                    RunMode::Ignored
                } else if self.has_worker {
                    RunMode::InWorker
                } else {
                    RunMode::Here
                };
                self.expected = None;
                ThreadStep::Run { next, mode }
            },
            None => ThreadStep::Retry,
        }
    }

    /// Takes note of the result of a test that was run, gives the test back, and returns the
    /// message to the parent, if there is one. `finish_marker` is the line that ends the output of
    /// the test.
    pub fn finished<V>(
        &mut self,
        execution: &mut TestSuiteExecution<V>,
        next: TestExecution<V>,
        result: TestResult,
        finish_marker: &str,
    ) -> (r: Option<IpcResponse>)
        requires
            old(execution).wf(),
        ensures
            old(execution).takes_back(next, *final(execution)),
            final(self).connected == old(self).connected,
            final(self).has_worker == old(self).has_worker,
            final(self).include_ignored == old(self).include_ignored,
            final(self).ignored == old(self).ignored,
            final(self).expected == old(self).expected,
            final(self).results@.len() == old(self).results@.len() + 1,
            final(self).results@.drop_last() == old(self).results@,
            final(self).results@.last().0@ == next.test@,
            final(self).results@.last().1 == result,
            match r {
                Some(response) => {
                    &&& old(self).connected
                    &&& response matches IpcResponse::TestFinished { result: sent, finish_marker: m }
                    &&& ipc::is_sent_form(result@.outcome, sent)
                    &&& m@ == finish_marker@
                },
                None => !old(self).connected,
            },
    {
        let response = if self.connected {
            Some(
                IpcResponse::TestFinished {
                    result: SerializableTestResult::from_result(&result),
                    finish_marker: finish_marker.to_owned(),
                },
            )
        } else {
            None
        };
        self.results.push((next.test.clone(), result));
        assert(self.results@.drop_last() =~= old(self).results@);
        execution.finish(next);
        response
    }
}

/// A run of the ignored tests only selects none but these, and does not pass over any of them.
pub proof fn only_ignored_tests_run(args: ArgumentsModel, thread: TestThread, test: TestModel)
    requires
        args.ignored,
        thread.ignored == args.ignored,
        internal::selected(args, test),
    ensures
        test.props.is_ignored,
        !(run_mode(thread, test) is Ignored),
{
}

/// A worker runs exactly the tests that its parent names: each test that it runs is the one that
/// the last command named, and it then waits for the next command.
pub proof fn worker_runs_the_named_test<V>(
    before: TestThread,
    picked: Option<TestExecution<V>>,
    mid: TestSuiteExecution<V>,
    next: TestExecution<V>,
    mode: RunMode,
    after: TestThread,
    execution: TestSuiteExecution<V>,
)
    requires
        before.expected is Some,
        is_step_with(before, picked, mid, ThreadStep::Run { next, mode }, after, execution),
    ensures
        before.expected->0.is_met_by(next.test@),
        after.expected is None,
{
}

/// The tests of these results.
pub open spec fn tested(results: Seq<(RegisteredTest, TestResult)>) -> Seq<TestModel> {
    Seq::new(results.len(), |i: int| results[i].0@)
}

/// The tests that have a result, together with those that are still in the plan.
pub open spec fn accounted<V>(
    results: Seq<(RegisteredTest, TestResult)>,
    execution: TestSuiteExecution<V>,
) -> Multiset<TestModel> {
    tested(results).to_multiset().add(execution.root.tests_below())
}

/// No test is lost and none gets a second result: a test that a thread takes out of the plan, runs
/// and gives back moves from the plan to the results.
pub proof fn run_test_moves_to_the_results<
    V,
    F: Fn(&RegisteredDependency, &DependencyMap<V>) -> Arc<V>,
>(
    before: TestSuiteExecution<V>,
    construct: F,
    next: TestExecution<V>,
    mid: TestSuiteExecution<V>,
    after: TestSuiteExecution<V>,
    results: Seq<(RegisteredTest, TestResult)>,
    more_results: Seq<(RegisteredTest, TestResult)>,
)
    requires
        before.picks(construct, Some(next), mid),
        mid.takes_back(next, after),
        more_results.len() == results.len() + 1,
        more_results.drop_last() == results,
        more_results.last().0@ == next.test@,
    ensures
        accounted(more_results, after) == accounted(results, before),
{
    broadcast use vstd::seq_lib::group_to_multiset_ensures;

    let t = next.test@;
    assert(tested(more_results) =~= tested(results).push(t));
    assert(tested(more_results).to_multiset() =~= tested(results).to_multiset().insert(t));
    let below = before.root.tests_below();
    assert(after.root.tests_below() == below.remove(t));
    assert(accounted(more_results, after) =~= accounted(results, before));
}

} // verus!
