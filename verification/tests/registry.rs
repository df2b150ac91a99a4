use test_r_core::args::{Arguments, TimeThreshold};
use test_r_core::internal::{
    apply_suite_props_to_tests, filter_test, generate_tests, generate_tests_sync, get_ensure_time,
    CaptureControl, DepScope, DependencyConstructor, DynamicTestRegistration, FlakinessControl,
    RegisteredDependency, RegisteredTest, RegisteredTestGenerator, RegisteredTestSuiteProperty,
    ReportTimeControl, ShouldPanic, TestFunction, TestGeneratorFunction, TestProperties, TestType,
};
use test_r_core::sync::runner::all_tests;

fn make_test(name: &str, module: &str) -> RegisteredTest {
    RegisteredTest {
        name: name.to_string(),
        crate_name: "c".to_string(),
        module: module.to_string(),
        run: TestFunction::Sync(0),
        props: TestProperties::default(),
        dependencies: None,
    }
}

#[test]
fn names_are_joined_without_empty_parts() {
    let test = make_test("t", "a::b");
    assert_eq!(test.filterable_name(), "a::b::t");
    assert_eq!(test.fully_qualified_name(), "c::a::b::t");
    assert_eq!(test.crate_and_module(), "c::a::b");
    let test = make_test("t", "");
    assert_eq!(test.filterable_name(), "t");
    assert_eq!(test.fully_qualified_name(), "c::t");
    assert_eq!(test.crate_and_module(), "c");
}

#[test]
fn dependencies_are_identified_by_their_path() {
    let dep = RegisteredDependency::new_shared(
        "d".to_string(),
        "c".to_string(),
        "m".to_string(),
        DependencyConstructor::Sync(1),
        vec!["e".to_string()],
    );
    assert_eq!(dep.qualified_id(), "c::m::d");
    assert_eq!(dep.scope, DepScope::Shared);
    assert_eq!(dep.dependencies, vec!["e"]);
    assert!(dep.companions.is_empty());
}

#[test]
fn scopes_say_where_the_value_lives() {
    assert!(DepScope::Shared.requires_single_thread_when_capturing());
    assert!(!DepScope::PerWorker.requires_single_thread_when_capturing());
    assert!(!DepScope::PerWorker.parent_must_materialize_under_spawn_workers());
    for scope in [DepScope::Cloneable, DepScope::Hosted, DepScope::HostedRpc] {
        assert!(!scope.requires_single_thread_when_capturing());
        assert!(scope.parent_must_materialize_under_spawn_workers());
    }
    assert_eq!(DepScope::default(), DepScope::Shared);
}

#[test]
fn defaults_of_test_properties() {
    let props = TestProperties::default();
    assert_eq!(props.should_panic, ShouldPanic::No);
    assert_eq!(props.timeout, None);
    assert_eq!(props.flakiness_control, FlakinessControl::NoControl);
    assert!(props.tags.is_empty());
    assert!(!props.is_ignored);
    assert_eq!(TestProperties::unit_test().test_type, TestType::UnitTest);
    assert_eq!(
        TestProperties::integration_test().test_type,
        TestType::IntegrationTest
    );
}

#[test]
fn tests_below_src_are_unit_tests() {
    assert_eq!(TestType::from_path("/x/src/lib.rs"), TestType::UnitTest);
    assert_eq!(TestType::from_path("/x/tests/a.rs"), TestType::IntegrationTest);
}

#[test]
fn capture_control_overrides_the_default() {
    for default in [true, false] {
        assert_eq!(CaptureControl::Default.requires_capturing(default), default);
        assert!(CaptureControl::AlwaysCapture.requires_capturing(default));
        assert!(!CaptureControl::NeverCapture.requires_capturing(default));
    }
}

fn tag(name: &str, tag: &str) -> RegisteredTestSuiteProperty {
    RegisteredTestSuiteProperty::Tag {
        name: name.to_string(),
        crate_name: "c".to_string(),
        module: "a".to_string(),
        tag: tag.to_string(),
    }
}

fn timeout(name: &str, timeout: u128) -> RegisteredTestSuiteProperty {
    RegisteredTestSuiteProperty::Timeout {
        name: name.to_string(),
        crate_name: "c".to_string(),
        module: "a".to_string(),
        timeout,
    }
}

#[test]
fn properties_of_a_suite_reach_its_tests() {
    let mut own = make_test("t", "a::b");
    own.props.tags = vec!["own".to_string()];
    own.props.timeout = Some(1);
    let tests = vec![own, make_test("u", "a::b::c"), make_test("v", "a::x")];
    let applied = apply_suite_props_to_tests(
        &tests,
        &vec![tag("b", "one"), tag("b", "two"), timeout("b", 9), timeout("b", 10)],
    );
    assert_eq!(applied[0].props.tags, vec!["own", "one", "two"]);
    assert_eq!(applied[0].props.timeout, Some(1));
    assert_eq!(applied[1].props.tags, vec!["one", "two"]);
    assert_eq!(applied[1].props.timeout, Some(9));
    assert!(applied[2].props.tags.is_empty());
    assert_eq!(applied[2].props.timeout, None);
    assert!(filter_test(&applied[1], ":tag:one&two", false));
}

fn generator(name: &str, run: usize, is_ignored: bool) -> RegisteredTestGenerator {
    RegisteredTestGenerator {
        name: name.to_string(),
        crate_name: "c".to_string(),
        module: "m".to_string(),
        run: TestGeneratorFunction::Sync(run),
        is_ignored,
    }
}

#[test]
fn generated_tests_stand_under_their_generator() {
    let make = |generator: &RegisteredTestGenerator| {
        let mut registration = DynamicTestRegistration::new();
        registration.add_sync_test("one", TestProperties::unit_test(), None, 5);
        if generator.name == "g" {
            registration.add_async_test(
                "two",
                TestProperties::integration_test(),
                Some(vec!["d".to_string()]),
                6,
            );
        }
        registration.to_vec()
    };
    let generators = vec![generator("g", 0, false), generator("h", 1, true)];
    let tests = generate_tests(&generators, &make);
    let names: Vec<String> = tests.iter().map(|t| t.fully_qualified_name()).collect();
    assert_eq!(names, vec!["c::m::g::one", "c::m::g::two", "c::m::h::one"]);
    assert_eq!(tests[0].run, TestFunction::Sync(5));
    assert_eq!(tests[1].run, TestFunction::Async(6));
    assert_eq!(tests[1].dependencies, Some(vec!["d".to_string()]));
    assert!(!tests[0].props.is_ignored);
    assert!(tests[2].props.is_ignored);
    assert_eq!(generate_tests_sync(&generators, &make).len(), 3);

    let all = all_tests(&vec![make_test("first", "")], tests);
    assert_eq!(all.len(), 4);
    assert_eq!(all[0].name, "first");
    assert_eq!(all[3].name, "h::one");
}

#[test]
fn limits_are_ensured_where_asked_for() {
    let mut test = make_test("t", "m");
    test.props.test_type = TestType::UnitTest;
    let quiet = Arguments::default();
    let strict = Arguments {
        ensure_time: true,
        ..Default::default()
    };
    assert_eq!(get_ensure_time(&quiet, &test, None, None), None);
    assert_eq!(
        get_ensure_time(&strict, &test, None, None),
        Some(TimeThreshold::new(50_000_000, 100_000_000))
    );
    test.props.ensure_time_control = ReportTimeControl::Disabled;
    assert_eq!(get_ensure_time(&strict, &test, None, None), None);
    test.props.ensure_time_control = ReportTimeControl::Enabled;
    test.props.test_type = TestType::IntegrationTest;
    assert_eq!(
        get_ensure_time(&quiet, &test, None, Some(TimeThreshold::new(1, 2))),
        Some(TimeThreshold::new(1, 2))
    );
}
