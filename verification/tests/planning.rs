use std::cell::RefCell;
use std::sync::Arc;
use test_r_core::args::Arguments;
use test_r_core::execution::collect::ParentSharedDependencies;
use test_r_core::execution::order::sorted_dependencies;
use test_r_core::execution::shuffle::shuffle;
use test_r_core::execution::suite::{TestExecution, TestSuiteExecution};
use test_r_core::execution::values::{DependencyMap, DependencyView};
use test_r_core::internal::{
    CaptureControl, CloneableCodec, DepScope, DependencyConstructor, HostId,
    RegisteredDependency, RegisteredTest, RegisteredTestSuiteProperty, RpcFactory, TestFunction,
    TestProperties, WorkerReconstructor,
};

fn make_test(name: &str, module: &str, deps: &[&str]) -> RegisteredTest {
    RegisteredTest {
        name: name.to_string(),
        crate_name: "c".to_string(),
        module: module.to_string(),
        run: TestFunction::Sync(0),
        props: TestProperties::default(),
        dependencies: Some(deps.iter().map(|d| d.to_string()).collect()),
    }
}

fn make_dep(name: &str, module: &str, deps: &[&str]) -> RegisteredDependency {
    RegisteredDependency::new_shared(
        name.to_string(),
        "c".to_string(),
        module.to_string(),
        DependencyConstructor::Sync(0),
        deps.iter().map(|d| d.to_string()).collect(),
    )
}

fn sequential(name: &str, module: &str) -> RegisteredTestSuiteProperty {
    RegisteredTestSuiteProperty::Sequential {
        name: name.to_string(),
        crate_name: "c".to_string(),
        module: module.to_string(),
    }
}

type Plan = TestSuiteExecution<String>;

fn plan(deps: Vec<RegisteredDependency>, tests: Vec<RegisteredTest>) -> Plan {
    TestSuiteExecution::construct(&Arguments::default(), &deps, &tests, &vec![]).0
}

/// Constructs every dependency as its name, and takes note of that.
fn pick(plan: &mut Plan, log: &RefCell<Vec<String>>) -> Option<TestExecution<String>> {
    plan.pick_next_sync(&|dep: &RegisteredDependency, _: &DependencyMap<String>| {
        log.borrow_mut().push(dep.name.clone());
        Arc::new(dep.name.clone())
    })
}

fn run_all(plan: &mut Plan, log: &RefCell<Vec<String>>) -> Vec<String> {
    let mut names = Vec::new();
    while let Some(next) = pick(plan, log) {
        names.push(next.test.filterable_name());
        plan.finish(next);
    }
    names
}

fn names(tests: &[RegisteredTest]) -> Vec<String> {
    tests.iter().map(|t| t.name.clone()).collect()
}

#[test]
fn every_test_is_handed_out_once() {
    let tests = vec![
        make_test("a", "", &[]),
        make_test("b", "m", &[]),
        make_test("c", "m::n", &[]),
        make_test("d", "m", &[]),
        make_test("e", "x::y::z", &[]),
    ];
    let mut plan = plan(vec![], tests);
    assert_eq!(plan.remaining(), 5);
    let log = RefCell::new(vec![]);
    let mut seen = run_all(&mut plan, &log);
    seen.sort();
    assert_eq!(seen, vec!["a", "m::b", "m::d", "m::n::c", "x::y::z::e"]);
    assert!(plan.is_done());
    assert!(plan.is_empty());
    assert!(pick(&mut plan, &log).is_none());
}

#[test]
fn tests_of_one_module_run_in_their_order() {
    let tests = vec![
        make_test("a", "m", &[]),
        make_test("b", "m", &[]),
        make_test("c", "m", &[]),
    ];
    let mut plan = plan(vec![], tests);
    let seen = run_all(&mut plan, &RefCell::new(vec![]));
    assert_eq!(seen, vec!["m::a", "m::b", "m::c"]);
}

#[test]
fn indexes_count_the_tests_that_were_handed_out() {
    let tests = vec![make_test("a", "m", &[]), make_test("b", "m", &[])];
    let mut plan = plan(vec![], tests);
    let log = RefCell::new(vec![]);
    let first = pick(&mut plan, &log).unwrap();
    let second = pick(&mut plan, &log).unwrap();
    assert_eq!((first.index, second.index), (0, 1));
}

#[test]
fn dependencies_are_constructed_after_those_that_they_use() {
    let deps = vec![
        make_dep("top", "", &["mid", "base"]),
        make_dep("mid", "", &["base"]),
        make_dep("base", "", &[]),
    ];
    let order = sorted_dependencies(&deps);
    let position = |i: usize| order.iter().position(|k| *k == i).unwrap();
    assert_eq!(order.len(), 3);
    assert!(position(2) < position(1));
    assert!(position(1) < position(0));

    let mut plan = plan(deps, vec![make_test("t", "", &["top"])]);
    let log = RefCell::new(vec![]);
    let next = pick(&mut plan, &log).unwrap();
    assert_eq!(*log.borrow(), vec!["base", "mid", "top"]);
    assert_eq!(next.deps.get("top").as_deref(), Some(&"top".to_string()));
}

#[test]
fn dependencies_in_a_circle_are_not_constructed() {
    let deps = vec![
        make_dep("a", "", &["b"]),
        make_dep("b", "", &["a"]),
        make_dep("c", "", &[]),
    ];
    assert_eq!(sorted_dependencies(&deps), vec![2]);
}

#[test]
fn tests_see_the_values_of_enclosing_suites() {
    let deps = vec![make_dep("outer", "m", &[]), make_dep("inner", "m::n", &["outer"])];
    let tests = vec![make_test("t", "m::n", &["inner", "outer"])];
    let mut plan = plan(deps, tests);
    let next = pick(&mut plan, &RefCell::new(vec![])).unwrap();
    assert!(next.deps.get("outer").is_some());
    assert!(next.deps.get("inner").is_some());
    assert!(next.deps.get("other").is_none());
}

#[test]
fn unused_dependencies_are_pruned() {
    let deps = vec![
        make_dep("used", "m", &["needed"]),
        make_dep("needed", "", &[]),
        make_dep("unused", "m", &[]),
        make_dep("elsewhere", "x", &[]),
    ];
    let mut plan = plan(deps, vec![make_test("t", "m", &["used"])]);
    assert!(plan.has_dependencies());
    let log = RefCell::new(vec![]);
    run_all(&mut plan, &log);
    assert_eq!(*log.borrow(), vec!["needed", "used"]);
}

#[test]
fn test_without_a_list_keeps_every_dependency_around_it() {
    let deps = vec![make_dep("a", "m", &[]), make_dep("b", "", &[])];
    let mut test = make_test("t", "m", &[]);
    test.dependencies = None;
    let mut plan = plan(deps, vec![test]);
    let log = RefCell::new(vec![]);
    run_all(&mut plan, &log);
    assert_eq!(*log.borrow(), vec!["b", "a"]);
}

#[test]
fn sequential_suite_runs_one_test_at_a_time_with_all_below() {
    let tests = vec![
        make_test("a", "m::s", &[]),
        make_test("b", "m::s::inner", &[]),
        make_test("free", "m", &[]),
    ];
    let mut plan: Plan = TestSuiteExecution::construct(
        &Arguments::default(),
        &vec![],
        &tests,
        &vec![sequential("s", "m")],
    )
    .0;
    let log = RefCell::new(vec![]);
    let mut running = Vec::new();
    while let Some(next) = pick(&mut plan, &log) {
        running.push(next);
    }
    assert_eq!(running.len(), 2);
    assert!(running.iter().any(|t| t.test.name == "free"));
    assert!(!plan.is_done());
    for next in running {
        plan.finish(next);
    }
    assert!(pick(&mut plan, &log).is_some());
}

#[test]
fn values_are_dropped_when_a_suite_is_done_and_kept_until_then() {
    let deps = vec![make_dep("d", "m", &[])];
    let tests = vec![make_test("a", "m", &["d"]), make_test("b", "m", &["d"])];
    let mut plan = plan(deps, tests);
    let log = RefCell::new(vec![]);
    assert_eq!(run_all(&mut plan, &log).len(), 2);
    assert_eq!(*log.borrow(), vec!["d"]);
}

#[test]
fn nothing_is_constructed_where_workers_do_it() {
    let deps = vec![make_dep("d", "m", &[])];
    let mut plan = plan(deps, vec![make_test("a", "m", &["d"])]);
    plan.skip_creating_dependencies();
    let log = RefCell::new(vec![]);
    assert_eq!(run_all(&mut plan, &log), vec!["m::a"]);
    assert!(log.borrow().is_empty());
}

#[test]
fn capturing_is_required_by_default_or_by_a_test() {
    let mut always = make_test("a", "m::n", &[]);
    always.props.capture_control = CaptureControl::AlwaysCapture;
    let plan_of = |tests: Vec<RegisteredTest>| plan(vec![], tests);
    assert!(!plan_of(vec![make_test("b", "", &[])]).requires_capturing(false));
    assert!(plan_of(vec![make_test("b", "", &[])]).requires_capturing(true));
    assert!(plan_of(vec![make_test("b", "", &[]), always]).requires_capturing(false));
}

#[test]
fn shuffling_is_repeatable_and_loses_no_test() {
    let tests: Vec<RegisteredTest> = (0..20)
        .map(|i| make_test(&format!("t{i:02}"), "m", &[]))
        .collect();
    assert_eq!(names(&shuffle(&tests, None)), names(&tests));
    let once = names(&shuffle(&tests, Some(42)));
    let again = names(&shuffle(&tests, Some(42)));
    assert_eq!(once, again);
    assert_ne!(once, names(&tests));
    assert_ne!(once, names(&shuffle(&tests, Some(43))));
    let mut sorted = once;
    sorted.sort();
    assert_eq!(sorted, names(&tests));
}

#[test]
fn shuffled_plan_runs_in_the_shuffled_order() {
    let tests: Vec<RegisteredTest> = (0..20)
        .map(|i| make_test(&format!("t{i:02}"), "m", &[]))
        .collect();
    let args = Arguments {
        shuffle_seed: Some(42),
        ..Default::default()
    };
    let mut plan: Plan = TestSuiteExecution::construct(&args, &vec![], &tests, &vec![]).0;
    let seen = run_all(&mut plan, &RefCell::new(vec![]));
    let expected: Vec<String> = shuffle(&tests, Some(42))
        .iter()
        .map(|t| t.filterable_name())
        .collect();
    assert_eq!(seen, expected);
}

#[test]
fn plan_holds_the_selected_tests_with_the_properties_of_their_suites() {
    let tests = vec![make_test("a", "m", &[]), make_test("b", "x", &[])];
    let args = Arguments {
        filter: vec![":tag:quick".to_string()],
        ..Default::default()
    };
    let props = vec![RegisteredTestSuiteProperty::Tag {
        name: "m".to_string(),
        crate_name: "c".to_string(),
        module: String::new(),
        tag: "quick".to_string(),
    }];
    let (plan, filtered): (Plan, _) =
        TestSuiteExecution::construct(&args, &vec![], &tests, &props);
    assert_eq!(plan.remaining(), 1);
    assert_eq!(names(&filtered), vec!["a"]);
    assert_eq!(filtered[0].props.tags, vec!["quick"]);
}

fn codec(to_wire: HostId) -> Option<CloneableCodec> {
    Some(CloneableCodec {
        to_wire,
        from_wire_bytes: 0,
    })
}

#[test]
fn collection_gathers_each_scope_apart() {
    let mut cloneable = make_dep("cl", "m", &[]);
    cloneable.scope = DepScope::Cloneable;
    cloneable.cloneable_codec = codec(1);
    cloneable.hosted_codec = codec(2);
    cloneable.worker_fn = Some(WorkerReconstructor::Sync(0));
    let mut hosted = make_dep("ho", "", &[]);
    hosted.scope = DepScope::Hosted;
    hosted.cloneable_codec = codec(3);
    hosted.hosted_codec = codec(4);
    let mut rpc = make_dep("rpc", "m", &[]);
    rpc.scope = DepScope::HostedRpc;
    rpc.rpc_factory = Some(RpcFactory {
        owner_into_cell: 5,
        build_stub: 6,
    });
    let shared = make_dep("sh", "m", &["cl"]);
    let plan = plan(
        vec![cloneable, hosted, rpc, shared],
        vec![make_test("t", "m", &["cl", "ho", "rpc", "sh"])],
    );
    let collected: ParentSharedDependencies<String, String> = plan
        .collect_parent_shared_dependencies_sync(
            &|dep: &RegisteredDependency, _: &DependencyMap<String>| Arc::new(dep.name.clone()),
            &|id: HostId, value: &Arc<String>| format!("{id}={value}").into_bytes(),
            &|id: HostId, value: &Arc<String>| format!("{id}={value}"),
        );
    assert_eq!(
        collected.cloneable_wire_bytes,
        vec![("c::m::cl".to_string(), b"1=cl".to_vec())]
    );
    assert_eq!(collected.cloneable_local_values.len(), 1);
    assert_eq!(collected.cloneable_local_values[0].0, "c::m::cl");
    assert_eq!(
        collected.hosted_descriptor_bytes,
        vec![("c::ho".to_string(), b"4=ho".to_vec())]
    );
    assert_eq!(collected.hosted_owners.len(), 1);
    assert_eq!(
        collected.hosted_rpc_owner_cells,
        vec![("c::m::rpc".to_string(), "5=rpc".to_string())]
    );
}

#[test]
fn companions_are_built_whichever_of_them_names_the_other() {
    let built = |wanted: &str| {
        let mut naming = make_dep("naming", "m", &[]);
        naming.companions = vec!["named".to_string()];
        let deps = vec![naming, make_dep("named", "m", &[]), make_dep("alone", "m", &[])];
        let mut plan = plan(deps, vec![make_test("t", "m", &[wanted])]);
        let log = RefCell::new(vec![]);
        run_all(&mut plan, &log);
        let mut built = log.into_inner();
        built.sort();
        built
    };
    assert_eq!(built("naming"), vec!["named", "naming"]);
    assert_eq!(built("named"), vec!["named", "naming"]);
    assert_eq!(built("alone"), vec!["alone"]);
}

#[test]
fn run_counts_down_and_numbers_the_tests() {
    let tests = vec![
        make_test("a", "m::s", &[]),
        make_test("b", "m::s", &[]),
        make_test("c", "x", &["d"]),
    ];
    let (mut plan, filtered): (Plan, _) = TestSuiteExecution::construct(
        &Arguments::default(),
        &vec![make_dep("d", "x", &[])],
        &tests,
        &vec![sequential("s", "m")],
    );
    assert_eq!(filtered.len(), 3);
    let log = RefCell::new(vec![]);
    let mut given: Vec<TestExecution<String>> = Vec::new();
    while let Some(next) = pick(&mut plan, &log) {
        assert_eq!(next.index, given.len());
        given.push(next);
        assert_eq!(given.len() + plan.remaining(), filtered.len());
        plan.provide_cloneable_value("c::x::d", Arc::new("given".to_string()));
    }
    assert_eq!((given.len(), plan.remaining()), (2, 1));
    let mut seen: Vec<String> = given.iter().map(|g| g.test.name.clone()).collect();
    for done in given {
        plan.finish(done);
    }
    let last = pick(&mut plan, &log).unwrap();
    assert_eq!(last.index, 2);
    seen.push(last.test.name.clone());
    seen.sort();
    assert_eq!(seen, vec!["a", "b", "c"]);
    assert!(plan.is_done());
}

#[test]
fn provided_value_is_seen_unless_a_suite_further_in_has_the_name() {
    let mut plan = plan(
        vec![make_dep("d", "m", &["e"]), make_dep("e", "m", &[]), make_dep("d", "m::n", &[])],
        vec![
            make_test("own", "m", &["d"]),
            make_test("below", "m::x", &["d"]),
            make_test("shadowed", "m::n", &["d"]),
        ],
    );
    assert!(plan.provide_cloneable_value("c::m::d", Arc::new("given".to_string())));
    assert!(!plan.provide_cloneable_value("c::m::f", Arc::new("given".to_string())));
    let log = RefCell::new(vec![]);
    let mut seen = Vec::new();
    while let Some(next) = pick(&mut plan, &log) {
        let value = next.deps.get("d").unwrap();
        seen.push((next.test.name.clone(), value.to_string()));
        plan.finish(next);
    }
    seen.sort();
    let pair = |a: &str, b: &str| (a.to_string(), b.to_string());
    assert_eq!(
        seen,
        vec![pair("below", "given"), pair("own", "given"), pair("shadowed", "d")]
    );
    assert_eq!(*log.borrow(), vec!["d"]);
}

#[test]
fn provided_value_is_seen_by_every_later_test() {
    let mut plan = plan(
        vec![make_dep("d", "m", &[]), make_dep("d", "o", &[]), make_dep("e", "m", &[])],
        vec![
            make_test("a", "m", &["d", "e"]),
            make_test("b", "m", &["d", "e"]),
            make_test("c", "m::x", &["d"]),
            make_test("t", "o", &["d"]),
        ],
    );
    let log = RefCell::new(vec![]);
    let given = |s: &str| Arc::new(s.to_string());
    assert!(plan.provide_cloneable_value("c::m::d", given("given")));
    let mut seen = Vec::new();
    while let Some(next) = pick(&mut plan, &log) {
        seen.push((next.test.name.clone(), next.deps.get("d").unwrap().to_string()));
        plan.finish(next);
        plan.provide_cloneable_value("c::m::e", given("other"));
        assert!(!plan.provide_cloneable_value("c::d", given("nowhere")));
    }
    seen.sort();
    let pair = |a: &str, b: &str| (a.to_string(), b.to_string());
    assert_eq!(
        seen,
        vec![pair("a", "given"), pair("b", "given"), pair("c", "given"), pair("t", "d")]
    );
    assert_eq!(log.borrow().iter().filter(|name| *name == "d").count(), 1);
}
