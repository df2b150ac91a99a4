//! What is registered before a run: tests, dependencies, suite properties and generators, and the
//! rules that select the tests of a run.
//!
//! Test bodies, constructors and codecs are closures of the program under test. Here each stands
//! as the number under which the host keeps it.
use crate::args::{Arguments, ArgumentsModel, TimeThreshold};
use crate::text;
use crate::text::{
    concat, contains_str, contains_string, copy_strings, split_char, starts_with, str_eq,
    strip_prefix,
};
use vstd::prelude::*;

verus! {

/// The number under which the host keeps a closure.
pub type HostId = usize;

/// The body of a test or a benchmark.
#[derive(Debug, Clone, Copy, PartialEq, Eq, Structural)]
pub enum TestFunction {
    Sync(HostId),
    SyncBench(HostId),
    Async(HostId),
    AsyncBench(HostId),
}

impl TestFunction {
    pub open spec fn spec_is_bench(self) -> bool {
        self is SyncBench || self is AsyncBench
    }

    pub fn is_bench(&self) -> (r: bool)
        ensures
            r == self.spec_is_bench(),
    {
        matches!(self, TestFunction::SyncBench(_) | TestFunction::AsyncBench(_))
    }
}

#[derive(Debug, PartialEq, Eq)]
pub enum ShouldPanic {
    No,
    Yes,
    WithMessage(String),
}

impl Clone for ShouldPanic {
    fn clone(&self) -> (r: Self)
        ensures
            r == *self,
    {
        match self {
            ShouldPanic::No => ShouldPanic::No,
            ShouldPanic::Yes => ShouldPanic::Yes,
            ShouldPanic::WithMessage(message) => ShouldPanic::WithMessage(message.clone()),
        }
    }
}

#[derive(Debug, Clone, Copy, PartialEq, Eq, Structural)]
pub enum TestType {
    UnitTest,
    IntegrationTest,
}

impl TestType {
    pub open spec fn spec_from_path(path: Seq<char>) -> TestType {
        if text::has_substring(path, "/src/"@) {
            TestType::UnitTest
        } else {
            TestType::IntegrationTest
        }
    }

    /// A test in a file below a `src` directory is a unit test.
    pub fn from_path(path: &str) -> (r: Self)
        ensures
            r == Self::spec_from_path(path@),
    {
        if contains_str(path, "/src/") {
            TestType::UnitTest
        } else {
            TestType::IntegrationTest
        }
    }
}

#[derive(Debug, Clone, Copy, PartialEq, Eq, Structural)]
pub enum FlakinessControl {
    /// The test runs once and its outcome counts
    NoControl,
    ProveNonFlaky(usize),
    RetryKnownFlaky(usize),
}

/// Controls what happens when a task that a test has spawned panics.
#[derive(Debug, Clone, Copy, PartialEq, Eq, Structural)]
pub enum DetachedPanicPolicy {
    /// The test fails
    FailTest,
    /// The panic is ignored
    Ignore,
}

#[derive(Debug, Clone, Copy, PartialEq, Eq, Structural)]
pub enum CaptureControl {
    Default,
    AlwaysCapture,
    NeverCapture,
}

impl CaptureControl {
    pub open spec fn spec_requires_capturing(self, default: bool) -> bool {
        match self {
            CaptureControl::Default => default,
            CaptureControl::AlwaysCapture => true,
            CaptureControl::NeverCapture => false,
        }
    }

    pub fn requires_capturing(&self, default: bool) -> (r: bool)
        ensures
            r == self.spec_requires_capturing(default),
    {
        match self {
            CaptureControl::Default => default,
            CaptureControl::AlwaysCapture => true,
            CaptureControl::NeverCapture => false,
        }
    }
}

#[derive(Debug, Clone, Copy, PartialEq, Eq, Structural)]
pub enum ReportTimeControl {
    Default,
    Enabled,
    Disabled,
}

/// The properties of one test. Durations are in nanoseconds.
#[derive(Debug)]
pub struct TestProperties {
    pub should_panic: ShouldPanic,
    pub test_type: TestType,
    pub timeout: Option<u128>,
    pub flakiness_control: FlakinessControl,
    pub capture_control: CaptureControl,
    pub report_time_control: ReportTimeControl,
    pub ensure_time_control: ReportTimeControl,
    pub tags: Vec<String>,
    pub is_ignored: bool,
    pub detached_panic_policy: DetachedPanicPolicy,
}

/// What a [`TestProperties`] stands for.
#[verifier::ext_equal]
pub struct PropertiesModel {
    pub should_panic: ShouldPanic,
    pub test_type: TestType,
    pub timeout: Option<u128>,
    pub flakiness_control: FlakinessControl,
    pub capture_control: CaptureControl,
    pub report_time_control: ReportTimeControl,
    pub ensure_time_control: ReportTimeControl,
    pub tags: Seq<Seq<char>>,
    pub is_ignored: bool,
    pub detached_panic_policy: DetachedPanicPolicy,
}

impl View for TestProperties {
    type V = PropertiesModel;

    open spec fn view(&self) -> PropertiesModel {
        PropertiesModel {
            should_panic: self.should_panic,
            test_type: self.test_type,
            timeout: self.timeout,
            flakiness_control: self.flakiness_control,
            capture_control: self.capture_control,
            report_time_control: self.report_time_control,
            ensure_time_control: self.ensure_time_control,
            tags: text::views(self.tags@),
            is_ignored: self.is_ignored,
            detached_panic_policy: self.detached_panic_policy,
        }
    }
}

impl TestProperties {
    /// What holds of a test of the given type for which nothing was set.
    pub open spec fn spec_default(test_type: TestType) -> PropertiesModel {
        PropertiesModel {
            should_panic: ShouldPanic::No,
            test_type,
            timeout: None,
            flakiness_control: FlakinessControl::NoControl,
            capture_control: CaptureControl::Default,
            report_time_control: ReportTimeControl::Default,
            ensure_time_control: ReportTimeControl::Default,
            tags: Seq::empty(),
            is_ignored: false,
            detached_panic_policy: DetachedPanicPolicy::FailTest,
        }
    }

    pub fn unit_test() -> (r: Self)
        ensures
            r@ == Self::spec_default(TestType::UnitTest),
    {
        Self::default()
    }

    pub fn integration_test() -> (r: Self)
        ensures
            r@ == Self::spec_default(TestType::IntegrationTest),
    {
        let mut r = Self::default();
        r.test_type = TestType::IntegrationTest;
        r
    }
}

impl Default for TestProperties {
    fn default() -> (r: Self)
        ensures
            r@ == TestProperties::spec_default(TestType::UnitTest),
    {
        let r = TestProperties {
            should_panic: ShouldPanic::No,
            test_type: TestType::UnitTest,
            timeout: None,
            flakiness_control: FlakinessControl::NoControl,
            capture_control: CaptureControl::Default,
            report_time_control: ReportTimeControl::Default,
            ensure_time_control: ReportTimeControl::Default,
            tags: Vec::new(),
            is_ignored: false,
            detached_panic_policy: DetachedPanicPolicy::FailTest,
        };
        assert(r@ =~= TestProperties::spec_default(TestType::UnitTest));
        r
    }
}

impl Clone for TestProperties {
    fn clone(&self) -> (r: Self)
        ensures
            r@ == self@,
    {
        TestProperties {
            should_panic: self.should_panic.clone(),
            test_type: self.test_type,
            timeout: self.timeout,
            flakiness_control: self.flakiness_control,
            capture_control: self.capture_control,
            report_time_control: self.report_time_control,
            ensure_time_control: self.ensure_time_control,
            tags: copy_strings(&self.tags),
            is_ignored: self.is_ignored,
            detached_panic_policy: self.detached_panic_policy,
        }
    }
}

/// The separator between the segments of a path.
pub open spec fn colons() -> Seq<char> {
    seq![':', ':']
}

/// `a` and `b` as one path; an empty side drops out together with the separator.
pub open spec fn path_join(a: Seq<char>, b: Seq<char>) -> Seq<char> {
    if a.len() == 0 {
        b
    } else if b.len() == 0 {
        a
    } else {
        a + colons() + b
    }
}

pub proof fn lemma_colons()
    ensures
        "::"@ == colons(),
{
    reveal_strlit("::");
    assert("::"@ =~= colons());
}

/// The two parts as one path.
pub fn join_path(a: &str, b: &str) -> (r: String)
    ensures
        r@ == path_join(a@, b@),
{
    proof {
        lemma_colons();
    }
    if a.is_empty() {
        b.to_owned()
    } else if b.is_empty() {
        a.to_owned()
    } else {
        let mut r = a.to_owned();
        r.append("::");
        r.append(b);
        r
    }
}

/// A test as it was registered.
#[derive(Debug)]
pub struct RegisteredTest {
    pub name: String,
    pub crate_name: String,
    pub module: String,
    pub run: TestFunction,
    pub props: TestProperties,
    /// The names of the dependencies that the test uses, or `None` if they are not known
    pub dependencies: Option<Vec<String>>,
}

/// What a [`RegisteredTest`] stands for.
#[verifier::ext_equal]
pub struct TestModel {
    pub name: Seq<char>,
    pub crate_name: Seq<char>,
    pub module: Seq<char>,
    pub run: TestFunction,
    pub props: PropertiesModel,
    pub dependencies: Option<Seq<Seq<char>>>,
}

/// The views of an optional list of names.
pub open spec fn opt_views(names: Option<Vec<String>>) -> Option<Seq<Seq<char>>> {
    match names {
        Some(names) => Some(text::views(names@)),
        None => None,
    }
}

impl View for RegisteredTest {
    type V = TestModel;

    open spec fn view(&self) -> TestModel {
        TestModel {
            name: self.name@,
            crate_name: self.crate_name@,
            module: self.module@,
            run: self.run,
            props: self.props@,
            dependencies: opt_views(self.dependencies),
        }
    }
}

/// The views of a sequence of tests.
pub open spec fn test_views(tests: Seq<RegisteredTest>) -> Seq<TestModel> {
    Seq::new(tests.len(), |i: int| tests[i]@)
}

impl TestModel {
    /// The name that filters are matched against: the module path and the name.
    pub open spec fn filterable_name(self) -> Seq<char> {
        if self.module.len() > 0 {
            self.module + colons() + self.name
        } else {
            self.name
        }
    }

    /// Crate, module path and name as one path.
    pub open spec fn fully_qualified_name(self) -> Seq<char> {
        path_join(path_join(self.crate_name, self.module), self.name)
    }

    /// Crate and module path as one path.
    pub open spec fn crate_and_module(self) -> Seq<char> {
        path_join(self.crate_name, self.module)
    }
}

impl Clone for RegisteredTest {
    fn clone(&self) -> (r: Self)
        ensures
            r@ == self@,
    {
        RegisteredTest {
            name: self.name.clone(),
            crate_name: self.crate_name.clone(),
            module: self.module.clone(),
            run: self.run,
            props: self.props.clone(),
            dependencies: match &self.dependencies {
                Some(names) => Some(copy_strings(names)),
                None => None,
            },
        }
    }
}

impl RegisteredTest {
    pub fn filterable_name(&self) -> (r: String)
        ensures
            r@ == self@.filterable_name(),
    {
        proof {
            lemma_colons();
        }
        if !self.module.as_str().is_empty() {
            let mut r = concat(self.module.as_str(), "::");
            r.append(self.name.as_str());
            r
        } else {
            self.name.clone()
        }
    }

    pub fn fully_qualified_name(&self) -> (r: String)
        ensures
            r@ == self@.fully_qualified_name(),
    {
        join_path(self.crate_and_module().as_str(), self.name.as_str())
    }

    pub fn crate_and_module(&self) -> (r: String)
        ensures
            r@ == self@.crate_and_module(),
    {
        join_path(self.crate_name.as_str(), self.module.as_str())
    }
}

/// One alternative of a tag expression: all of its `&`-separated tags are among `tags`.
pub open spec fn has_all_tags(tags: Seq<Seq<char>>, alternative: Seq<char>) -> bool {
    let wanted = text::pieces(alternative, '&');
    forall|j: int| 0 <= j < wanted.len() ==> tags.contains(#[trigger] wanted[j])
}

/// A tag expression: one of its `|`-separated alternatives holds. The empty expression asks for
/// a test without tags.
pub open spec fn tags_match(tags: Seq<Seq<char>>, expression: Seq<char>) -> bool {
    let alternatives = text::pieces(expression, '|');
    if expression.len() == 0 {
        tags.len() == 0
    } else {
        exists|i: int|
            0 <= i < alternatives.len() && has_all_tags(tags, #[trigger] alternatives[i])
    }
}

/// The prefix of a filter that selects by tags.
pub open spec fn tag_prefix() -> Seq<char> {
    ":tag:"@
}

/// `filter` selects the test.
pub open spec fn filter_matches(test: TestModel, filter: Seq<char>, exact: bool) -> bool {
    if text::has_prefix(filter, tag_prefix()) {
        tags_match(test.props.tags, filter.skip(tag_prefix().len() as int))
    } else if exact {
        test.filterable_name() == filter
    } else {
        text::has_substring(test.filterable_name(), filter)
    }
}

fn all_tags_present(tags: &Vec<String>, alternative: &str) -> (r: bool)
    ensures
        r == has_all_tags(text::views(tags@), alternative@),
{
    let wanted = split_char(alternative, '&');
    let ghost pieces = text::pieces(alternative@, '&');
    let mut j: usize = 0;
    while j < wanted.len()
        invariant
            j <= wanted.len(),
            pieces == text::views(wanted@),
            pieces == text::pieces(alternative@, '&'),
            forall|k: int| 0 <= k < j ==> text::views(tags@).contains(#[trigger] pieces[k]),
        decreases wanted.len() - j,
    {
        assert(pieces[j as int] == wanted@[j as int]@);
        if !contains_string(tags, wanted[j].as_str()) {
            return false;
        }
        j = j + 1;
    }
    true
}

fn tag_expression_holds(tags: &Vec<String>, expression: &str) -> (r: bool)
    ensures
        r == tags_match(text::views(tags@), expression@),
{
    if expression.is_empty() {
        return tags.is_empty();
    }
    let alternatives = split_char(expression, '|');
    let ghost pieces = text::pieces(expression@, '|');
    let mut i: usize = 0;
    while i < alternatives.len()
        invariant
            i <= alternatives.len(),
            expression@.len() > 0,
            pieces == text::views(alternatives@),
            pieces == text::pieces(expression@, '|'),
            forall|k: int|
                0 <= k < i ==> !has_all_tags(text::views(tags@), #[trigger] pieces[k]),
        decreases alternatives.len() - i,
    {
        assert(pieces[i as int] == alternatives@[i as int]@);
        if all_tags_present(tags, alternatives[i].as_str()) {
            return true;
        }
        i = i + 1;
    }
    false
}

/// Whether `filter` selects `test`. A filter that begins with `:tag:` is a tag expression, in
/// which `&` binds stronger than `|`; any other filter is compared with the name of the test.
pub fn filter_test(test: &RegisteredTest, filter: &str, exact: bool) -> (r: bool)
    ensures
        r == filter_matches(test@, filter@, exact),
{
    match strip_prefix(filter, ":tag:") {
        Some(tag_list) => tag_expression_holds(&test.props.tags, tag_list.as_str()),
        None => {
            let name = test.filterable_name();
            if exact {
                str_eq(name.as_str(), filter)
            } else {
                contains_str(name.as_str(), filter)
            }
        },
    }
}

/// One of the filters selects the test.
pub open spec fn any_filter_matches(
    test: TestModel,
    filters: Seq<Seq<char>>,
    exact: bool,
) -> bool {
    exists|i: int| 0 <= i < filters.len() && filter_matches(test, #[trigger] filters[i], exact)
}

fn any_filter_selects(test: &RegisteredTest, filters: &Vec<String>, exact: bool) -> (r: bool)
    ensures
        r == any_filter_matches(test@, text::views(filters@), exact),
{
    let ghost views = text::views(filters@);
    let mut i: usize = 0;
    while i < filters.len()
        invariant
            i <= filters.len(),
            views == text::views(filters@),
            forall|k: int| 0 <= k < i ==> !filter_matches(test@, #[trigger] views[k], exact),
        decreases filters.len() - i,
    {
        assert(views[i as int] == filters@[i as int]@);
        if filter_test(test, filters[i].as_str(), exact) {
            return true;
        }
        i = i + 1;
    }
    false
}

/// The arguments select the test: no skip filter matches it, one of the filters does if there
/// are any, it is of the kind that is to be run, it is not one that is excluded for panicking, and
/// it is marked as ignored where only such tests are to be run.
pub open spec fn selected(args: ArgumentsModel, test: TestModel) -> bool {
    &&& !any_filter_matches(test, args.skip, args.exact)
    &&& args.filter.len() == 0 || any_filter_matches(test, args.filter, args.exact)
    &&& (args.bench && test.run.spec_is_bench()) || (args.test && !test.run.spec_is_bench()) || (
    !args.bench && !args.test)
    &&& !args.exclude_should_panic || test.props.should_panic is No
    &&& !args.ignored || test.props.is_ignored
}

fn is_selected(args: &Arguments, test: &RegisteredTest) -> (r: bool)
    ensures
        r == selected(args@, test@),
{
    let bench = test.run.is_bench();
    !any_filter_selects(test, &args.skip, args.exact) && (args.filter.is_empty()
        || any_filter_selects(test, &args.filter, args.exact)) && ((args.bench && bench) || (
    args.test && !bench) || (!args.bench && !args.test)) && (!args.exclude_should_panic
        || matches!(test.props.should_panic, ShouldPanic::No)) && (!args.ignored
        || test.props.is_ignored)
}

/// The tests that the arguments select, in the order in which they were registered.
pub fn filter_registered_tests(args: &Arguments, registered_tests: &Vec<RegisteredTest>) -> (r: Vec<
    RegisteredTest,
>)
    ensures
        test_views(r@) == test_views(registered_tests@).filter(|t: TestModel| selected(args@, t)),
{
    let ghost all = test_views(registered_tests@);
    let ghost keep = |t: TestModel| selected(args@, t);
    let mut r: Vec<RegisteredTest> = Vec::new();
    let mut i: usize = 0;
    proof {
        reveal(Seq::filter);
        assert(all.take(0).filter(keep) =~= Seq::empty());
        assert(test_views(r@) =~= Seq::empty());
    }
    while i < registered_tests.len()
        invariant
            i <= registered_tests.len(),
            all == test_views(registered_tests@),
            keep == (|t: TestModel| selected(args@, t)),
            test_views(r@) == all.take(i as int).filter(keep),
        decreases registered_tests.len() - i,
    {
        let ghost before = r@;
        assert(all[i as int] == registered_tests@[i as int]@);
        assert(all.take(i + 1).drop_last() =~= all.take(i as int));
        proof {
            reveal(Seq::filter);
        }
        if is_selected(args, &registered_tests[i]) {
            r.push(registered_tests[i].clone());
            assert(test_views(r@) =~= test_views(before).push(all[i as int]));
        }
        i = i + 1;
    }
    assert(all.take(i as int) =~= all);
    r
}

/// A property of a test suite. The name is that of the suite's module.
#[derive(Debug)]
pub enum RegisteredTestSuiteProperty {
    Sequential { name: String, crate_name: String, module: String },
    Tag { name: String, crate_name: String, module: String, tag: String },
    Timeout { name: String, crate_name: String, module: String, timeout: u128 },
}

impl Clone for RegisteredTestSuiteProperty {
    fn clone(&self) -> (r: Self)
        ensures
            r == *self,
    {
        match self {
            RegisteredTestSuiteProperty::Sequential { name, crate_name, module } => {
                RegisteredTestSuiteProperty::Sequential {
                    name: name.clone(),
                    crate_name: crate_name.clone(),
                    module: module.clone(),
                }
            },
            RegisteredTestSuiteProperty::Tag { name, crate_name, module, tag } => {
                RegisteredTestSuiteProperty::Tag {
                    name: name.clone(),
                    crate_name: crate_name.clone(),
                    module: module.clone(),
                    tag: tag.clone(),
                }
            },
            RegisteredTestSuiteProperty::Timeout { name, crate_name, module, timeout } => {
                RegisteredTestSuiteProperty::Timeout {
                    name: name.clone(),
                    crate_name: crate_name.clone(),
                    module: module.clone(),
                    timeout: *timeout,
                }
            },
        }
    }
}

impl RegisteredTestSuiteProperty {
    pub open spec fn spec_crate_name(self) -> Seq<char> {
        match self {
            RegisteredTestSuiteProperty::Sequential { crate_name, .. } => crate_name@,
            RegisteredTestSuiteProperty::Tag { crate_name, .. } => crate_name@,
            RegisteredTestSuiteProperty::Timeout { crate_name, .. } => crate_name@,
        }
    }

    pub open spec fn spec_module(self) -> Seq<char> {
        match self {
            RegisteredTestSuiteProperty::Sequential { module, .. } => module@,
            RegisteredTestSuiteProperty::Tag { module, .. } => module@,
            RegisteredTestSuiteProperty::Timeout { module, .. } => module@,
        }
    }

    pub open spec fn spec_name(self) -> Seq<char> {
        match self {
            RegisteredTestSuiteProperty::Sequential { name, .. } => name@,
            RegisteredTestSuiteProperty::Tag { name, .. } => name@,
            RegisteredTestSuiteProperty::Timeout { name, .. } => name@,
        }
    }

    /// The path of the suite that the property belongs to.
    pub open spec fn spec_crate_and_module(self) -> Seq<char> {
        path_join(path_join(self.spec_crate_name(), self.spec_module()), self.spec_name())
    }

    pub fn crate_name(&self) -> (r: &String)
        ensures
            r@ == self.spec_crate_name(),
    {
        match self {
            RegisteredTestSuiteProperty::Sequential { crate_name, .. } => crate_name,
            RegisteredTestSuiteProperty::Tag { crate_name, .. } => crate_name,
            RegisteredTestSuiteProperty::Timeout { crate_name, .. } => crate_name,
        }
    }

    pub fn module(&self) -> (r: &String)
        ensures
            r@ == self.spec_module(),
    {
        match self {
            RegisteredTestSuiteProperty::Sequential { module, .. } => module,
            RegisteredTestSuiteProperty::Tag { module, .. } => module,
            RegisteredTestSuiteProperty::Timeout { module, .. } => module,
        }
    }

    pub fn name(&self) -> (r: &String)
        ensures
            r@ == self.spec_name(),
    {
        match self {
            RegisteredTestSuiteProperty::Sequential { name, .. } => name,
            RegisteredTestSuiteProperty::Tag { name, .. } => name,
            RegisteredTestSuiteProperty::Timeout { name, .. } => name,
        }
    }

    pub fn crate_and_module(&self) -> (r: String)
        ensures
            r@ == self.spec_crate_and_module(),
    {
        let outer = join_path(self.crate_name().as_str(), self.module().as_str());
        join_path(outer.as_str(), self.name().as_str())
    }
}

/// The test with one suite property applied to it: a tag is added, and a timeout is set where
/// there is none yet. A property reaches every test whose path begins with the suite's path.
pub open spec fn with_property(test: TestModel, prop: RegisteredTestSuiteProperty) -> TestModel {
    if text::has_prefix(test.crate_and_module(), prop.spec_crate_and_module()) {
        match prop {
            RegisteredTestSuiteProperty::Tag { tag, .. } => TestModel {
                props: PropertiesModel { tags: test.props.tags.push(tag@), ..test.props },
                ..test
            },
            RegisteredTestSuiteProperty::Timeout { timeout, .. } => TestModel {
                props: PropertiesModel {
                    timeout: if test.props.timeout is None {
                        Some(timeout)
                    } else {
                        test.props.timeout
                    },
                    ..test.props
                },
                ..test
            },
            RegisteredTestSuiteProperty::Sequential { .. } => test,
        }
    } else {
        test
    }
}

/// The test with the suite properties applied to it, one after another.
pub open spec fn with_properties(
    test: TestModel,
    props: Seq<RegisteredTestSuiteProperty>,
) -> TestModel
    decreases props.len(),
{
    if props.len() == 0 {
        test
    } else {
        with_property(with_properties(test, props.drop_last()), props.last())
    }
}

fn apply_property(test: &mut RegisteredTest, prop: &RegisteredTestSuiteProperty)
    ensures
        final(test)@ == with_property(old(test)@, *prop),
{
    let prefix = prop.crate_and_module();
    let path = test.crate_and_module();
    if starts_with(path.as_str(), prefix.as_str()) {
        match prop {
            RegisteredTestSuiteProperty::Tag { tag, .. } => {
                let ghost before = test.props.tags@;
                test.props.tags.push(tag.clone());
                assert(text::views(test.props.tags@) =~= text::views(before).push(tag@));
            },
            RegisteredTestSuiteProperty::Timeout { timeout, .. } => {
                if test.props.timeout.is_none() {
                    test.props.timeout = Some(*timeout);
                }
            },
            RegisteredTestSuiteProperty::Sequential { .. } => {},
        }
    }
}

/// The tests with the properties of their suites.
pub fn apply_suite_props_to_tests(
    tests: &Vec<RegisteredTest>,
    props: &Vec<RegisteredTestSuiteProperty>,
) -> (r: Vec<RegisteredTest>)
    ensures
        r.len() == tests.len(),
        forall|i: int|
            0 <= i < tests.len() ==> (#[trigger] r@[i])@ == with_properties(tests@[i]@, props@),
{
    let mut r: Vec<RegisteredTest> = Vec::new();
    let mut i: usize = 0;
    while i < tests.len()
        invariant
            i <= tests.len(),
            r.len() == i,
            forall|k: int|
                0 <= k < i ==> (#[trigger] r@[k])@ == with_properties(tests@[k]@, props@),
        decreases tests.len() - i,
    {
        let mut test = tests[i].clone();
        let mut j: usize = 0;
        while j < props.len()
            invariant
                i < tests.len(),
                j <= props.len(),
                test@ == with_properties(tests@[i as int]@, props@.take(j as int)),
            decreases props.len() - j,
        {
            apply_property(&mut test, &props[j]);
            assert(props@.take(j + 1).drop_last() =~= props@.take(j as int));
            j = j + 1;
        }
        assert(props@.take(j as int) =~= props@);
        r.push(test);
        i = i + 1;
    }
    r
}

/// How the value of a dependency is constructed.
#[derive(Debug, Clone, Copy, PartialEq, Eq, Structural)]
pub enum DependencyConstructor {
    Sync(HostId),
    Async(HostId),
}

/// Where the value of a dependency lives, and how it reaches worker processes.
#[derive(Debug, Clone, Copy, PartialEq, Eq, Hash, Structural)]
pub enum DepScope {
    /// One value per process, which cannot cross the boundary between parent and worker
    Shared,
    /// Every worker constructs its own value
    PerWorker,
    /// The parent's value is sent to the workers as bytes
    Cloneable,
    /// The parent holds the owner, workers rebuild a handle from its descriptor
    Hosted,
    /// The parent holds the owner, workers call it through a stub
    HostedRpc,
}

impl Default for DepScope {
    fn default() -> (r: Self)
        ensures
            r == DepScope::Shared,
    {
        DepScope::Shared
    }
}

impl DepScope {
    /// Whether capturing output forces a run with such a dependency onto a single thread.
    pub fn requires_single_thread_when_capturing(&self) -> (r: bool)
        ensures
            r == (*self is Shared),
    {
        matches!(self, DepScope::Shared)
    }

    /// Whether the parent constructs the value when the tests run in worker processes.
    pub fn parent_must_materialize_under_spawn_workers(&self) -> (r: bool)
        ensures
            r == (*self is Cloneable || *self is Hosted || *self is HostedRpc),
    {
        matches!(self, DepScope::Cloneable | DepScope::Hosted | DepScope::HostedRpc)
    }
}

/// How a worker turns the received payload into the value of the dependency.
#[derive(Debug, Clone, Copy, PartialEq, Eq, Structural)]
pub enum WorkerReconstructor {
    Sync(HostId),
    Async(HostId),
}

/// The two directions between a value and its wire bytes.
#[derive(Debug, Clone, Copy, PartialEq, Eq, Structural)]
pub struct CloneableCodec {
    pub to_wire: HostId,
    pub from_wire_bytes: HostId,
}

/// How the owner of a remotely called dependency becomes a cell, and how its stub is built.
#[derive(Debug, Clone, Copy, PartialEq, Eq, Structural)]
pub struct RpcFactory {
    pub owner_into_cell: HostId,
    pub build_stub: HostId,
}

/// A dependency as it was registered.
#[derive(Debug)]
pub struct RegisteredDependency {
    pub name: String,
    pub crate_name: String,
    pub module: String,
    pub constructor: DependencyConstructor,
    /// The names of the dependencies that the constructor uses
    pub dependencies: Vec<String>,
    pub scope: DepScope,
    pub worker_fn: Option<WorkerReconstructor>,
    /// Wire codec of a `Cloneable` dependency
    pub cloneable_codec: Option<CloneableCodec>,
    /// Descriptor codec of a `Hosted` dependency
    pub hosted_codec: Option<CloneableCodec>,
    /// Factories of a `HostedRpc` dependency
    pub rpc_factory: Option<RpcFactory>,
    /// Names of dependencies that are kept whenever this one is, and that keep this one whenever
    /// they are. No constructor argument comes from a companion, and no order is implied.
    pub companions: Vec<String>,
}

/// What a [`RegisteredDependency`] stands for.
#[verifier::ext_equal]
pub struct DependencyModel {
    pub name: Seq<char>,
    pub crate_name: Seq<char>,
    pub module: Seq<char>,
    pub constructor: DependencyConstructor,
    pub dependencies: Seq<Seq<char>>,
    pub scope: DepScope,
    pub worker_fn: Option<WorkerReconstructor>,
    pub cloneable_codec: Option<CloneableCodec>,
    pub hosted_codec: Option<CloneableCodec>,
    pub rpc_factory: Option<RpcFactory>,
    pub companions: Seq<Seq<char>>,
}

impl View for RegisteredDependency {
    type V = DependencyModel;

    open spec fn view(&self) -> DependencyModel {
        DependencyModel {
            name: self.name@,
            crate_name: self.crate_name@,
            module: self.module@,
            constructor: self.constructor,
            dependencies: text::views(self.dependencies@),
            scope: self.scope,
            worker_fn: self.worker_fn,
            cloneable_codec: self.cloneable_codec,
            hosted_codec: self.hosted_codec,
            rpc_factory: self.rpc_factory,
            companions: text::views(self.companions@),
        }
    }
}

impl DependencyModel {
    /// Crate and module path as one path.
    pub open spec fn crate_and_module(self) -> Seq<char> {
        path_join(self.crate_name, self.module)
    }

    /// Crate, module path and name as one path.
    pub open spec fn qualified_id(self) -> Seq<char> {
        path_join(path_join(self.crate_name, self.module), self.name)
    }
}

/// The views of a sequence of dependencies.
pub open spec fn dependency_views(deps: Seq<RegisteredDependency>) -> Seq<DependencyModel> {
    Seq::new(deps.len(), |i: int| deps[i]@)
}

impl Clone for RegisteredDependency {
    fn clone(&self) -> (r: Self)
        ensures
            r@ == self@,
    {
        RegisteredDependency {
            name: self.name.clone(),
            crate_name: self.crate_name.clone(),
            module: self.module.clone(),
            constructor: self.constructor,
            dependencies: copy_strings(&self.dependencies),
            scope: self.scope,
            worker_fn: self.worker_fn,
            cloneable_codec: self.cloneable_codec,
            hosted_codec: self.hosted_codec,
            rpc_factory: self.rpc_factory,
            companions: copy_strings(&self.companions),
        }
    }
}

/// Two dependencies of one name are the same dependency.
impl PartialEq for RegisteredDependency {
    fn eq(&self, other: &Self) -> (r: bool) {
        self.name == other.name
    }
}

impl vstd::std_specs::cmp::PartialEqSpecImpl for RegisteredDependency {
    open spec fn obeys_eq_spec() -> bool {
        true
    }

    open spec fn eq_spec(&self, other: &Self) -> bool {
        self.name@ == other.name@
    }
}

impl RegisteredDependency {
    /// A dependency of the default scope.
    pub fn new_shared(
        name: String,
        crate_name: String,
        module: String,
        constructor: DependencyConstructor,
        dependencies: Vec<String>,
    ) -> (r: Self)
        ensures
            r@ == (DependencyModel {
                name: name@,
                crate_name: crate_name@,
                module: module@,
                constructor,
                dependencies: text::views(dependencies@),
                scope: DepScope::Shared,
                worker_fn: None,
                cloneable_codec: None,
                hosted_codec: None,
                rpc_factory: None,
                companions: Seq::empty(),
            }),
    {
        let r = RegisteredDependency {
            name,
            crate_name,
            module,
            constructor,
            dependencies,
            scope: DepScope::Shared,
            worker_fn: None,
            cloneable_codec: None,
            hosted_codec: None,
            rpc_factory: None,
            companions: Vec::new(),
        };
        assert(text::views(r.companions@) =~= Seq::empty());
        r
    }

    pub fn crate_and_module(&self) -> (r: String)
        ensures
            r@ == self@.crate_and_module(),
    {
        join_path(self.crate_name.as_str(), self.module.as_str())
    }

    /// The identifier under which parent and workers speak of the dependency: two dependencies
    /// of one name in different modules have different ones.
    pub fn qualified_id(&self) -> (r: String)
        ensures
            r@ == self@.qualified_id(),
    {
        join_path(self.crate_and_module().as_str(), self.name.as_str())
    }
}

/// The function of a test generator.
#[derive(Debug, Clone, Copy, PartialEq, Eq, Structural)]
pub enum TestGeneratorFunction {
    Sync(HostId),
    Async(HostId),
}

/// A test that a generator made.
#[derive(Debug)]
pub struct GeneratedTest {
    pub name: String,
    pub run: TestFunction,
    pub props: TestProperties,
    pub dependencies: Option<Vec<String>>,
}

/// What a [`GeneratedTest`] stands for.
#[verifier::ext_equal]
pub struct GeneratedModel {
    pub name: Seq<char>,
    pub run: TestFunction,
    pub props: PropertiesModel,
    pub dependencies: Option<Seq<Seq<char>>>,
}

impl View for GeneratedTest {
    type V = GeneratedModel;

    open spec fn view(&self) -> GeneratedModel {
        GeneratedModel {
            name: self.name@,
            run: self.run,
            props: self.props@,
            dependencies: opt_views(self.dependencies),
        }
    }
}

/// Collects the tests that a generator makes.
pub struct DynamicTestRegistration {
    tests: Vec<GeneratedTest>,
}

impl View for DynamicTestRegistration {
    type V = Seq<GeneratedModel>;

    closed spec fn view(&self) -> Seq<GeneratedModel> {
        Seq::new(self.tests@.len(), |i: int| self.tests@[i]@)
    }
}

impl Default for DynamicTestRegistration {
    fn default() -> (r: Self)
        ensures
            r@ == Seq::<GeneratedModel>::empty(),
    {
        Self::new()
    }
}

impl DynamicTestRegistration {
    pub fn new() -> (r: Self)
        ensures
            r@ == Seq::<GeneratedModel>::empty(),
    {
        let r = DynamicTestRegistration { tests: Vec::new() };
        assert(r@ =~= Seq::empty());
        r
    }

    pub fn to_vec(self) -> (r: Vec<GeneratedTest>)
        ensures
            r.len() == self@.len(),
            forall|i: int| 0 <= i < r.len() ==> (#[trigger] r@[i])@ == self@[i],
    {
        self.tests
    }

    /// Registers a test whose body is a synchronous function.
    pub fn add_sync_test(
        &mut self,
        name: &str,
        props: TestProperties,
        dependencies: Option<Vec<String>>,
        run: HostId,
    )
        ensures
            final(self)@ == old(self)@.push(
                GeneratedModel {
                    name: name@,
                    run: TestFunction::Sync(run),
                    props: props@,
                    dependencies: opt_views(dependencies),
                },
            ),
    {
        let ghost before = self@;
        self.tests.push(
            GeneratedTest {
                name: name.to_owned(),
                run: TestFunction::Sync(run),
                props,
                dependencies,
            },
        );
        assert(self@ =~= before.push(self.tests@.last()@));
    }

    /// Registers a test whose body is an asynchronous function.
    pub fn add_async_test(
        &mut self,
        name: &str,
        props: TestProperties,
        dependencies: Option<Vec<String>>,
        run: HostId,
    )
        ensures
            final(self)@ == old(self)@.push(
                GeneratedModel {
                    name: name@,
                    run: TestFunction::Async(run),
                    props: props@,
                    dependencies: opt_views(dependencies),
                },
            ),
    {
        let ghost before = self@;
        self.tests.push(
            GeneratedTest {
                name: name.to_owned(),
                run: TestFunction::Async(run),
                props,
                dependencies,
            },
        );
        assert(self@ =~= before.push(self.tests@.last()@));
    }
}

/// A function that makes tests when the run starts.
#[derive(Debug)]
pub struct RegisteredTestGenerator {
    pub name: String,
    pub crate_name: String,
    pub module: String,
    pub run: TestGeneratorFunction,
    pub is_ignored: bool,
}

impl RegisteredTestGenerator {
    pub fn crate_and_module(&self) -> (r: String)
        ensures
            r@ == path_join(self.crate_name@, self.module@),
    {
        join_path(self.crate_name.as_str(), self.module.as_str())
    }

    /// The test that a generated one is registered as: it stands in the module of the generator,
    /// under the generator's name, and is ignored where the generator is.
    pub open spec fn registered(self, test: GeneratedModel) -> TestModel {
        TestModel {
            name: self.name@ + colons() + test.name,
            crate_name: self.crate_name@,
            module: self.module@,
            run: test.run,
            props: PropertiesModel {
                is_ignored: test.props.is_ignored || self.is_ignored,
                ..test.props
            },
            dependencies: test.dependencies,
        }
    }

    /// The tests that the generated ones are registered as.
    pub open spec fn registered_all(self, tests: Seq<GeneratedTest>) -> Seq<TestModel> {
        Seq::new(tests.len(), |i: int| self.registered(tests[i]@))
    }
}

/// Registers the tests that a generator made.
pub fn add_generated_tests(
    target: &mut Vec<RegisteredTest>,
    generator: &RegisteredTestGenerator,
    generated: Vec<GeneratedTest>,
)
    ensures
        test_views(final(target)@) == test_views(old(target)@) + generator.registered_all(
            generated@,
        ),
{
    let ghost before = test_views(target@);
    let ghost all = generated@;
    let mut generated = generated;
    let mut reversed: Vec<GeneratedTest> = Vec::new();
    while generated.len() > 0
        invariant
            generated@.len() <= all.len(),
            generated@ == all.take(generated@.len() as int),
            reversed@ == all.reverse().take(all.len() - generated@.len()),
        decreases generated.len(),
    {
        let ghost m = generated@.len() as int;
        match generated.pop() {
            Some(test) => {
                reversed.push(test);
                assert(all.reverse()[all.len() - m] == test);
                assert(reversed@ =~= all.reverse().take(all.len() - m + 1));
            },
            None => {},
        }
    }
    assert(reversed@ =~= all.reverse());
    let ghost mapped = generator.registered_all(all);
    assert(before + mapped.take(0) =~= before);
    while reversed.len() > 0
        invariant
            reversed@.len() <= all.len(),
            reversed@ == all.reverse().take(reversed@.len() as int),
            mapped == generator.registered_all(all),
            test_views(target@) == before + mapped.take(all.len() - reversed@.len()),
        decreases reversed.len(),
    {
        let ghost m = reversed@.len() as int;
        let ghost so_far = target@;
        proof {
            lemma_colons();
        }
        match reversed.pop() {
            Some(test) => {
                assert(test == all[all.len() - m]);
                let mut props = test.props;
                props.is_ignored = props.is_ignored || generator.is_ignored;
                let mut name = concat(generator.name.as_str(), "::");
                name.append(test.name.as_str());
                target.push(
                    RegisteredTest {
                        name,
                        crate_name: generator.crate_name.clone(),
                        module: generator.module.clone(),
                        run: test.run,
                        props,
                        dependencies: test.dependencies,
                    },
                );
                assert(target@.last()@ =~= mapped[all.len() - m]);
                assert(test_views(target@) =~= test_views(so_far).push(mapped[all.len() - m]));
                assert(mapped.take(all.len() - m + 1) =~= mapped.take(all.len() - m).push(
                    mapped[all.len() - m],
                ));
            },
            None => {},
        }
    }
    assert(mapped.take(all.len() as int) =~= mapped);
}

/// The tests of the batches, registered in the name of their generators, one batch after another.
pub open spec fn generated_tests(
    generators: Seq<RegisteredTestGenerator>,
    batches: Seq<Seq<GeneratedTest>>,
) -> Seq<TestModel>
    decreases generators.len(),
{
    if generators.len() == 0 {
        Seq::empty()
    } else {
        generated_tests(generators.drop_last(), batches.drop_last())
            + generators.last().registered_all(batches.last())
    }
}

/// `batch` is what the generator may return.
pub open spec fn is_batch<F: Fn(&RegisteredTestGenerator) -> Vec<GeneratedTest>>(
    run: F,
    generator: &RegisteredTestGenerator,
    batch: Seq<GeneratedTest>,
) -> bool {
    exists|tests: Vec<GeneratedTest>| #[trigger]
        run.ensures((generator,), tests) && tests@ == batch
}

/// `batches` holds what each of the generators may return.
pub open spec fn are_batches<F: Fn(&RegisteredTestGenerator) -> Vec<GeneratedTest>>(
    run: F,
    generators: Seq<RegisteredTestGenerator>,
    batches: Seq<Seq<GeneratedTest>>,
) -> bool {
    &&& batches.len() == generators.len()
    &&& forall|i: int|
        0 <= i < generators.len() ==> is_batch(run, &generators[i], #[trigger] batches[i])
}

/// The tests that the generators make; `run` runs the function of one of them.
pub fn generate_tests<F: Fn(&RegisteredTestGenerator) -> Vec<GeneratedTest>>(
    generators: &Vec<RegisteredTestGenerator>,
    run: &F,
) -> (r: Vec<RegisteredTest>)
    requires
        forall|i: int|
            0 <= i < generators.len() ==> run.requires((&#[trigger] generators@[i],)),
    ensures
        exists|batches: Seq<Seq<GeneratedTest>>| #[trigger]
            are_batches(*run, generators@, batches) && test_views(r@) == generated_tests(
                generators@,
                batches,
            ),
{
    let mut result: Vec<RegisteredTest> = Vec::new();
    let ghost mut batches: Seq<Seq<GeneratedTest>> = Seq::empty();
    let mut i: usize = 0;
    assert(test_views(result@) =~= generated_tests(generators@.take(0), batches));
    while i < generators.len()
        invariant
            i <= generators.len(),
            forall|k: int|
                0 <= k < generators.len() ==> run.requires((&#[trigger] generators@[k],)),
            are_batches(*run, generators@.take(i as int), batches),
            test_views(result@) == generated_tests(generators@.take(i as int), batches),
        decreases generators.len() - i,
    {
        let generator = &generators[i];
        let tests = run(generator);
        let ghost batch = tests@;
        let ghost made = tests;
        add_generated_tests(&mut result, generator, tests);
        proof {
            let more = batches.push(batch);
            let head = generators@.take(i + 1);
            assert(head.drop_last() =~= generators@.take(i as int));
            assert(more.drop_last() =~= batches);
            assert forall|k: int| 0 <= k < head.len() implies is_batch(
                *run,
                &head[k],
                #[trigger] more[k],
            ) by {
                if k < i {
                    assert(head[k] == generators@.take(i as int)[k]);
                    assert(more[k] == batches[k]);
                } else {
                    assert(run.ensures((generator,), made));
                }
            }
            batches = more;
        }
        i = i + 1;
    }
    assert(generators@.take(i as int) =~= generators@);
    result
}

/// The tests that the generators make where asynchronous generators cannot run.
pub fn generate_tests_sync<F: Fn(&RegisteredTestGenerator) -> Vec<GeneratedTest>>(
    generators: &Vec<RegisteredTestGenerator>,
    run: &F,
) -> (r: Vec<RegisteredTest>)
    requires
        forall|i: int|
            0 <= i < generators.len() ==> (#[trigger] generators@[i]).run is Sync && run.requires(
                (&generators@[i],),
            ),
    ensures
        exists|batches: Seq<Seq<GeneratedTest>>| #[trigger]
            are_batches(*run, generators@, batches) && test_views(r@) == generated_tests(
                generators@,
                batches,
            ),
{
    generate_tests(generators, run)
}

/// The time limits that the test has to keep, if it has to keep any. The two limits are those
/// that the environment configures for unit tests and for integration tests.
pub fn get_ensure_time(
    args: &Arguments,
    test: &RegisteredTest,
    unit_limits: Option<TimeThreshold>,
    integration_limits: Option<TimeThreshold>,
) -> (r: Option<TimeThreshold>)
    ensures
        r == (if match test.props.ensure_time_control {
            ReportTimeControl::Default => args.ensure_time,
            ReportTimeControl::Enabled => true,
            ReportTimeControl::Disabled => false,
        } {
            Some(
                match test.props.test_type {
                    TestType::UnitTest => match unit_limits {
                        Some(limits) => limits,
                        None => TimeThreshold { warn: 50_000_000, critical: 100_000_000 },
                    },
                    TestType::IntegrationTest => match integration_limits {
                        Some(limits) => limits,
                        None => TimeThreshold { warn: 500_000_000, critical: 1_000_000_000 },
                    },
                },
            )
        } else {
            None
        }),
{
    let should_ensure_time = match test.props.ensure_time_control {
        ReportTimeControl::Default => args.ensure_time,
        ReportTimeControl::Enabled => true,
        ReportTimeControl::Disabled => false,
    };
    if should_ensure_time {
        match test.props.test_type {
            TestType::UnitTest => Some(args.unit_test_threshold(unit_limits)),
            TestType::IntegrationTest => Some(args.integration_test_threshold(integration_limits)),
        }
    } else {
        None
    }
}

} // verus!
