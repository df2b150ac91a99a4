//! Which tests are run.
use super::words::{at_or_in, colons, holds, lemma_substring};
use crate::args::{Arguments, ArgumentsModel, TimeThreshold};
use crate::internal;
use crate::internal::{
    GeneratedTest, RegisteredTest, RegisteredTestGenerator, RegisteredTestSuiteProperty,
    ReportTimeControl, ShouldPanic, TestFunction, TestModel, TestType,
};
use crate::selection;
use crate::text;
use vstd::prelude::*;

verus! {

/// The test is a benchmark.
pub open spec fn is_benchmark(test: RegisteredTest) -> bool {
    match test.run {
        TestFunction::SyncBench(_) => true,
        TestFunction::AsyncBench(_) => true,
        TestFunction::Sync(_) => false,
        TestFunction::Async(_) => false,
    }
}

/// The name that a user sees of a test, and that filters are compared with.
pub open spec fn shown_name(test: RegisteredTest) -> Seq<char> {
    if test.module@.len() == 0 {
        test.name@
    } else {
        test.module@ + colons() + test.name@
    }
}

/// One of the tests is this one.
pub open spec fn among(tests: Vec<RegisteredTest>, test: RegisteredTest) -> bool {
    exists|i: int| 0 <= i < tests@.len() && (#[trigger] tests@[i])@ == test@
}

proof fn lemma_selected(
    args: Arguments,
    tests: Vec<RegisteredTest>,
    r: Vec<RegisteredTest>,
    test: RegisteredTest,
)
    requires
        call_ensures(internal::filter_registered_tests, (&args, &tests), r),
    ensures
        among(r, test) <==> among(tests, test) && internal::selected(args@, test@),
{
    let all = internal::test_views(tests@);
    let keep = |t: TestModel| internal::selected(args@, t);
    let kept = all.filter(keep);
    assert(kept == internal::test_views(r@));
    if among(r, test) {
        let i = choose|i: int| 0 <= i < r@.len() && (#[trigger] r@[i])@ == test@;
        assert(kept[i] == test@);
        assert(kept.contains(test@));
        all.lemma_filter_contains_rev(keep, test@);
        let k = all.index_of(test@);
        assert(tests@[k]@ == test@);
        all.lemma_filter_pred(keep, i);
    }
    if among(tests, test) && internal::selected(args@, test@) {
        let k = choose|k: int| 0 <= k < tests@.len() && (#[trigger] tests@[k])@ == test@;
        assert(all[k] == test@);
        all.lemma_filter_contains(keep, k);
        let i = kept.index_of(test@);
        assert(r@[i]@ == test@);
    }
}

/// With `--bench` and without `--test` only benchmarks are selected, and with `--test` and without
/// `--bench` none is.
pub proof fn only_the_wanted_kind_runs(
    args: Arguments,
    tests: Vec<RegisteredTest>,
    r: Vec<RegisteredTest>,
    i: int,
)
    requires
        call_ensures(internal::filter_registered_tests, (&args, &tests), r),
        0 <= i < r@.len(),
    ensures
        args.bench && !args.test ==> is_benchmark(r@[i]),
        args.test && !args.bench ==> !is_benchmark(r@[i]),
{
    assert(r@[i]@ == r@[i]@);
    lemma_selected(args, tests, r, r@[i]);
}

/// No test of the wanted kind is dropped for its kind: it is selected if it would be without the two
/// options.
pub proof fn the_wanted_kind_is_kept(
    args: Arguments,
    plain: Arguments,
    tests: Vec<RegisteredTest>,
    r: Vec<RegisteredTest>,
    all: Vec<RegisteredTest>,
    test: RegisteredTest,
)
    requires
        plain@ == (ArgumentsModel { bench: false, test: false, ..args@ }),
        call_ensures(internal::filter_registered_tests, (&args, &tests), r),
        call_ensures(internal::filter_registered_tests, (&plain, &tests), all),
        among(all, test),
        args.bench && is_benchmark(test) || args.test && !is_benchmark(test) || !args.bench
            && !args.test,
    ensures
        among(r, test),
{
    lemma_selected(args, tests, r, test);
    lemma_selected(plain, tests, all, test);
}

/// Selecting adds no test, and keeps the tests in their order.
pub proof fn selection_keeps_the_order(
    args: Arguments,
    tests: Vec<RegisteredTest>,
    r: Vec<RegisteredTest>,
) -> (place: Seq<int>)
    requires
        call_ensures(internal::filter_registered_tests, (&args, &tests), r),
    ensures
        place.len() == r@.len(),
        forall|i: int|
            0 <= i < r@.len() ==> 0 <= #[trigger] place[i] < tests@.len() && r@[i]@
                == tests@[place[i]]@,
        forall|i: int, j: int| 0 <= i < j < place.len() ==> place[i] < place[j],
{
    let all = internal::test_views(tests@);
    let keep = |t: TestModel| internal::selected(args@, t);
    let place = lemma_filter_places(all, keep);
    assert forall|i: int| 0 <= i < r@.len() implies 0 <= #[trigger] place[i] < tests@.len()
        && r@[i]@ == tests@[place[i]]@ by {
        assert(internal::test_views(r@)[i] == all[place[i]]);
    }
    place
}

proof fn lemma_filter_places<A>(s: Seq<A>, keep: spec_fn(A) -> bool) -> (place: Seq<int>)
    ensures
        place.len() == s.filter(keep).len(),
        forall|i: int|
            0 <= i < place.len() ==> 0 <= #[trigger] place[i] < s.len() && s.filter(keep)[i]
                == s[place[i]],
        forall|i: int, j: int| 0 <= i < j < place.len() ==> place[i] < place[j],
    decreases s.len(),
{
    reveal(Seq::filter);
    if s.len() == 0 {
        Seq::empty()
    } else {
        let before = lemma_filter_places(s.drop_last(), keep);
        if keep(s.last()) {
            before.push(s.len() - 1)
        } else {
            before
        }
    }
}

/// Without any option that selects, every test is selected.
pub proof fn everything_runs_by_default(
    args: Arguments,
    tests: Vec<RegisteredTest>,
    r: Vec<RegisteredTest>,
    test: RegisteredTest,
)
    requires
        args.filter@.len() == 0,
        args.skip@.len() == 0,
        !args.bench,
        !args.test,
        !args.ignored,
        !args.exclude_should_panic,
        call_ensures(internal::filter_registered_tests, (&args, &tests), r),
        among(tests, test),
    ensures
        among(r, test),
{
    lemma_selected(args, tests, r, test);
}

/// With `--ignored` only tests that are marked as ignored are selected, and with
/// `--exclude-should-panic` only such as are not expected to panic. Neither drops any other test.
pub proof fn marked_tests_are_sorted_out(
    args: Arguments,
    plain: Arguments,
    tests: Vec<RegisteredTest>,
    r: Vec<RegisteredTest>,
    all: Vec<RegisteredTest>,
    test: RegisteredTest,
)
    requires
        plain@ == (ArgumentsModel { ignored: false, exclude_should_panic: false, ..args@ }),
        call_ensures(internal::filter_registered_tests, (&args, &tests), r),
        call_ensures(internal::filter_registered_tests, (&plain, &tests), all),
    ensures
        among(r, test) <==> among(all, test) && (args.ignored ==> test.props.is_ignored) && (
        args.exclude_should_panic ==> test.props.should_panic == ShouldPanic::No),
{
    lemma_selected(args, tests, r, test);
    lemma_selected(plain, tests, all, test);
}

/// The filter is one by names: it does not begin as filters by tags do.
pub open spec fn is_plain(filter: Seq<char>) -> bool {
    forall|rest: Seq<char>| filter != #[trigger] (":tag:"@ + rest)
}

/// A filter by names fits the test: it is its name, or a part of it where the comparison is not exact.
pub open spec fn fits(test: RegisteredTest, filter: Seq<char>, exact: bool) -> bool {
    if exact {
        shown_name(test) == filter
    } else {
        holds(shown_name(test), filter)
    }
}

proof fn lemma_plain(filter: Seq<char>)
    ensures
        is_plain(filter) <==> !text::has_prefix(filter, internal::tag_prefix()),
{
    let n = ":tag:"@.len() as int;
    if text::has_prefix(filter, internal::tag_prefix()) {
        assert(filter =~= ":tag:"@ + filter.skip(n));
    }
    if !is_plain(filter) {
        let rest = choose|rest: Seq<char>| filter == #[trigger] (":tag:"@ + rest);
        assert(filter.subrange(0, 0 + n) =~= ":tag:"@);
    }
}

proof fn lemma_fits(test: RegisteredTest, filter: Seq<char>, exact: bool)
    requires
        is_plain(filter),
    ensures
        internal::filter_matches(test@, filter, exact) == fits(test, filter, exact),
{
    lemma_plain(filter);
    lemma_substring(shown_name(test), filter);
}

/// A filter by names is compared with the name that the user sees.
pub proof fn name_is_compared(test: RegisteredTest, filter: &str, exact: bool, r: bool)
    requires
        is_plain(filter@),
        call_ensures(internal::filter_test, (&test, filter, exact), r),
    ensures
        r == fits(test, filter@, exact),
{
    lemma_fits(test, filter@, exact);
}

/// A test is skipped exactly if one of the filters to skip fits it, and where there are filters one of
/// them has to fit.
pub proof fn filters_decide(
    args: Arguments,
    plain: Arguments,
    tests: Vec<RegisteredTest>,
    r: Vec<RegisteredTest>,
    all: Vec<RegisteredTest>,
    test: RegisteredTest,
)
    requires
        plain@ == (ArgumentsModel { filter: Seq::empty(), skip: Seq::empty(), ..args@ }),
        forall|i: int| 0 <= i < args.filter@.len() ==> is_plain((#[trigger] args.filter@[i])@),
        forall|i: int| 0 <= i < args.skip@.len() ==> is_plain((#[trigger] args.skip@[i])@),
        call_ensures(internal::filter_registered_tests, (&args, &tests), r),
        call_ensures(internal::filter_registered_tests, (&plain, &tests), all),
    ensures
        among(r, test) <==> among(all, test) && (args.filter@.len() == 0 || exists|i: int|
            0 <= i < args.filter@.len() && fits(test, (#[trigger] args.filter@[i])@, args.exact))
            && !(exists|i: int|
            0 <= i < args.skip@.len() && fits(test, (#[trigger] args.skip@[i])@, args.exact)),
{
    lemma_selected(args, tests, r, test);
    lemma_selected(plain, tests, all, test);
    lemma_any(args.filter@, test, args.exact);
    lemma_any(args.skip@, test, args.exact);
    assert forall|i: int| 0 <= i < args.filter@.len() implies internal::filter_matches(
        test@,
        (#[trigger] args.filter@[i])@,
        args.exact,
    ) == fits(test, args.filter@[i]@, args.exact) by {
        lemma_fits(test, args.filter@[i]@, args.exact);
    }
    assert forall|i: int| 0 <= i < args.skip@.len() implies internal::filter_matches(
        test@,
        (#[trigger] args.skip@[i])@,
        args.exact,
    ) == fits(test, args.skip@[i]@, args.exact) by {
        lemma_fits(test, args.skip@[i]@, args.exact);
    }
}

/// A test is selected by a filter of any kind exactly if the filter matches it, and skipped by one that
/// matches it.
pub proof fn one_filter_decides(
    args: Arguments,
    plain: Arguments,
    tests: Vec<RegisteredTest>,
    r: Vec<RegisteredTest>,
    all: Vec<RegisteredTest>,
    test: RegisteredTest,
    filter: &str,
    matched: bool,
)
    requires
        plain@ == (ArgumentsModel { filter: Seq::empty(), skip: Seq::empty(), ..args@ }),
        call_ensures(internal::filter_test, (&test, filter, args.exact), matched),
        call_ensures(internal::filter_registered_tests, (&args, &tests), r),
        call_ensures(internal::filter_registered_tests, (&plain, &tests), all),
    ensures
        args.filter@.len() == 1 && args.filter@[0]@ == filter@ && args.skip@.len() == 0 ==> (among(
            r,
            test,
        ) <==> among(all, test) && matched),
        args.skip@.len() == 1 && args.skip@[0]@ == filter@ && args.filter@.len() == 0 ==> (among(
            r,
            test,
        ) <==> among(all, test) && !matched),
{
    lemma_selected(args, tests, r, test);
    lemma_selected(plain, tests, all, test);
    lemma_any(args.filter@, test, args.exact);
    lemma_any(args.skip@, test, args.exact);
}

/// A filter by tags with one tag matches the tests that have the tag, and one without any matches the
/// tests that have none.
pub proof fn tag_is_looked_up(
    test: RegisteredTest,
    filter: &str,
    tag: Seq<char>,
    exact: bool,
    r: bool,
)
    requires
        filter@ == ":tag:"@ + tag,
        !tag.contains('|'),
        !tag.contains('&'),
        call_ensures(internal::filter_test, (&test, filter, exact), r),
    ensures
        tag.len() > 0 ==> (r <==> exists|i: int|
            0 <= i < test.props.tags@.len() && (#[trigger] test.props.tags@[i])@ == tag),
        tag.len() == 0 ==> (r <==> test.props.tags@.len() == 0),
{
    lemma_tag_filter(filter@, tag);
    let tags = test@.props.tags;
    if tag.len() > 0 {
        selection::one_piece(tag, '|');
        selection::one_piece(tag, '&');
        let one = seq![tag];
        assert(one[0] == tag);
        if r {
            assert(tags.contains(tag));
            let i = tags.index_of(tag);
            assert(test.props.tags@[i]@ == tag);
        }
        if exists|i: int|
            0 <= i < test.props.tags@.len() && (#[trigger] test.props.tags@[i])@ == tag {
            let i = choose|i: int|
                0 <= i < test.props.tags@.len() && (#[trigger] test.props.tags@[i])@ == tag;
            assert(tags[i] == tag);
            assert(internal::has_all_tags(tags, one[0]));
        }
    }
}

proof fn lemma_tag_filter(filter: Seq<char>, rest: Seq<char>)
    requires
        filter == ":tag:"@ + rest,
    ensures
        text::has_prefix(filter, internal::tag_prefix()),
        filter.skip(internal::tag_prefix().len() as int) == rest,
{
    let n = ":tag:"@.len() as int;
    assert(filter.subrange(0, 0 + n) =~= ":tag:"@);
    assert(filter.skip(n) =~= rest);
}

/// `|` is between alternatives, and `&` between what has to hold at once.
pub proof fn tags_are_combined(
    test: RegisteredTest,
    first: &str,
    second: &str,
    both: &str,
    a: Seq<char>,
    b: Seq<char>,
    exact: bool,
    x: bool,
    y: bool,
    r: bool,
)
    requires
        a.len() > 0,
        b.len() > 0,
        first@ == ":tag:"@ + a,
        second@ == ":tag:"@ + b,
        call_ensures(internal::filter_test, (&test, first, exact), x),
        call_ensures(internal::filter_test, (&test, second, exact), y),
        call_ensures(internal::filter_test, (&test, both, exact), r),
    ensures
        both@ == ":tag:"@ + (a + seq!['|'] + b) ==> r == (x || y),
        both@ == ":tag:"@ + (a + seq!['&'] + b) && !a.contains('|') && !b.contains('|') ==> r == (x
            && y),
{
    lemma_tag_filter(first@, a);
    lemma_tag_filter(second@, b);
    let tags = test@.props.tags;
    if both@ == ":tag:"@ + (a + seq!['|'] + b) {
        lemma_tag_filter(both@, a + seq!['|'] + b);
        selection::tag_alternatives(tags, a, b);
    }
    if both@ == ":tag:"@ + (a + seq!['&'] + b) && !a.contains('|') && !b.contains('|') {
        lemma_tag_filter(both@, a + seq!['&'] + b);
        selection::tag_conjunction(tags, a, b);
    }
}

/// Several filters select what one of them selects, and skip what one of them skips.
pub proof fn filters_add_up(
    args: Arguments,
    first: Arguments,
    second: Arguments,
    tests: Vec<RegisteredTest>,
    r: Vec<RegisteredTest>,
    x: Vec<RegisteredTest>,
    y: Vec<RegisteredTest>,
    test: RegisteredTest,
)
    requires
        call_ensures(internal::filter_registered_tests, (&args, &tests), r),
        call_ensures(internal::filter_registered_tests, (&first, &tests), x),
        call_ensures(internal::filter_registered_tests, (&second, &tests), y),
    ensures
        ({
            &&& first@.filter.len() > 0
            &&& second@.filter.len() > 0
            &&& args@ == (ArgumentsModel { filter: first@.filter + second@.filter, ..first@ })
            &&& args@ == (ArgumentsModel { filter: first@.filter + second@.filter, ..second@ })
        }) ==> (among(r, test) <==> among(x, test) || among(y, test)),
        ({
            &&& args@ == (ArgumentsModel { skip: first@.skip + second@.skip, ..first@ })
            &&& args@ == (ArgumentsModel { skip: first@.skip + second@.skip, ..second@ })
        }) ==> (among(r, test) <==> among(x, test) && among(y, test)),
{
    lemma_selected(args, tests, r, test);
    lemma_selected(first, tests, x, test);
    lemma_selected(second, tests, y, test);
    selection::filters_are_alternatives(test@, first@.filter, second@.filter, args.exact);
    selection::filters_are_alternatives(test@, first@.skip, second@.skip, args.exact);
}

proof fn lemma_any(filters: Seq<String>, test: RegisteredTest, exact: bool)
    ensures
        internal::any_filter_matches(test@, text::views(filters), exact) <==> exists|i: int|
            0 <= i < filters.len() && internal::filter_matches(
                test@,
                (#[trigger] filters[i])@,
                exact,
            ),
{
    let views = text::views(filters);
    if internal::any_filter_matches(test@, views, exact) {
        let i = choose|i: int|
            0 <= i < views.len() && internal::filter_matches(test@, #[trigger] views[i], exact);
        assert(filters[i]@ == views[i]);
    }
    if exists|i: int|
        0 <= i < filters.len() && internal::filter_matches(test@, (#[trigger] filters[i])@, exact) {
        let i = choose|i: int|
            0 <= i < filters.len() && internal::filter_matches(
                test@,
                (#[trigger] filters[i])@,
                exact,
            );
        assert(views[i] == filters[i]@);
    }
}

/// The name of a test as the user sees it, and as it is known among all crates.
pub proof fn names_of_a_test(test: RegisteredTest, shown: String, full: String, path: String)
    requires
        call_ensures(RegisteredTest::filterable_name, (&test,), shown),
        call_ensures(RegisteredTest::fully_qualified_name, (&test,), full),
        call_ensures(RegisteredTest::crate_and_module, (&test,), path),
    ensures
        shown@ == shown_name(test),
        test.crate_name@.len() > 0 && test.module@.len() > 0 && test.name@.len() > 0 ==> full@
            == test.crate_name@ + colons() + test.module@ + colons() + test.name@ && path@
            == test.crate_name@ + colons() + test.module@,
        test.crate_name@.len() > 0 && test.module@.len() == 0 ==> path@ == test.crate_name@,
{
}

proof fn lemma_property_keeps(test: TestModel, props: Seq<RegisteredTestSuiteProperty>)
    ensures
        ({
            let r = internal::with_properties(test, props);
            &&& r.name == test.name
            &&& r.crate_name == test.crate_name
            &&& r.module == test.module
            &&& r.run == test.run
            &&& r.dependencies == test.dependencies
            &&& r.props.is_ignored == test.props.is_ignored
            &&& r.props.should_panic == test.props.should_panic
            &&& r.props.flakiness_control == test.props.flakiness_control
            &&& r.props.capture_control == test.props.capture_control
            &&& r.props.detached_panic_policy == test.props.detached_panic_policy
        }),
    decreases props.len(),
{
    if props.len() > 0 {
        lemma_property_keeps(test, props.drop_last());
    }
}

/// A tag of a suite is a tag of every test of the suite and of the suites in it.
pub proof fn tag_of_a_suite_reaches_its_tests(
    tests: Vec<RegisteredTest>,
    props: Vec<RegisteredTestSuiteProperty>,
    r: Vec<RegisteredTest>,
    i: int,
    k: int,
    c: Seq<char>,
    m: Seq<char>,
    tag: Seq<char>,
)
    requires
        call_ensures(internal::apply_suite_props_to_tests, (&tests, &props), r),
        0 <= i < tests@.len(),
        0 <= k < props@.len(),
        c.len() > 0,
        m.len() > 0,
        props@[k] matches RegisteredTestSuiteProperty::Tag { name, crate_name, module, tag: t }
            && crate_name@ == c && module@.len() == 0 && name@ == m && t@ == tag,
        tests@[i].crate_name@ == c,
        at_or_in(tests@[i].module@, m),
    ensures
        i < r@.len(),
        exists|j: int| 0 <= j < r@[i].props.tags@.len() && (#[trigger] r@[i].props.tags@[j])@ == tag,
{
    let test = tests@[i]@;
    lemma_reached(test, props@[k], c, m);
    lemma_tag_applied(test, props@, k, tag);
    let tags = r@[i]@.props.tags;
    let j = tags.index_of(tag);
    assert(r@[i].props.tags@[j]@ == tag);
}

proof fn lemma_reached(
    test: TestModel,
    prop: RegisteredTestSuiteProperty,
    c: Seq<char>,
    m: Seq<char>,
)
    requires
        c.len() > 0,
        m.len() > 0,
        prop.spec_crate_name() == c,
        prop.spec_module().len() == 0,
        prop.spec_name() == m,
        test.crate_name == c,
        at_or_in(test.module, m),
    ensures
        text::has_prefix(test.crate_and_module(), prop.spec_crate_and_module()),
{
    let path = test.crate_and_module();
    let suite = prop.spec_crate_and_module();
    assert(suite == c + colons() + m);
    if test.module != m {
        let rest = choose|rest: Seq<char>| test.module == #[trigger] (m + colons() + rest);
        assert(path =~= suite + (colons() + rest));
    }
    assert(path.subrange(0, 0 + suite.len() as int) =~= suite);
}

proof fn lemma_tag_applied(
    test: TestModel,
    props: Seq<RegisteredTestSuiteProperty>,
    k: int,
    tag: Seq<char>,
)
    requires
        0 <= k < props.len(),
        text::has_prefix(test.crate_and_module(), props[k].spec_crate_and_module()),
        props[k] matches RegisteredTestSuiteProperty::Tag { tag: t, .. } && t@ == tag,
    ensures
        internal::with_properties(test, props).props.tags.contains(tag),
    decreases props.len(),
{
    let init = props.drop_last();
    lemma_property_keeps(test, init);
    let before = internal::with_properties(test, init);
    let after = internal::with_properties(test, props);
    if k == props.len() - 1 {
        assert(after.props.tags == before.props.tags.push(tag));
        assert(after.props.tags[before.props.tags.len() as int] == tag);
    } else {
        lemma_tag_applied(test, init, k, tag);
        let j = before.props.tags.index_of(tag);
        assert(after.props.tags[j] == tag);
    }
}

/// The properties of suites change nothing of a test but its tags and its timeout: tags are added, and
/// a timeout that it has stays. Without properties the tests stay as they are.
pub proof fn properties_change_tags_and_timeouts(
    tests: Vec<RegisteredTest>,
    props: Vec<RegisteredTestSuiteProperty>,
    r: Vec<RegisteredTest>,
    i: int,
)
    requires
        call_ensures(internal::apply_suite_props_to_tests, (&tests, &props), r),
        0 <= i < tests@.len(),
    ensures
        r@.len() == tests@.len(),
        r@[i].name@ == tests@[i].name@,
        r@[i].crate_name@ == tests@[i].crate_name@,
        r@[i].module@ == tests@[i].module@,
        r@[i].run == tests@[i].run,
        r@[i].props.is_ignored == tests@[i].props.is_ignored,
        r@[i].props.should_panic == tests@[i].props.should_panic,
        r@[i].props.flakiness_control == tests@[i].props.flakiness_control,
        tests@[i].props.timeout is Some ==> r@[i].props.timeout == tests@[i].props.timeout,
        props@.len() == 0 ==> r@[i]@ == tests@[i]@,
{
    lemma_property_keeps(tests@[i]@, props@);
    assert(r@[i]@ == internal::with_properties(tests@[i]@, props@));
    if tests@[i].props.timeout is Some {
        selection::own_timeout_is_kept(tests@[i]@, props@);
    }
}

/// A test without a timeout of its own gets the first one that a suite around it has.
pub proof fn timeout_of_a_suite_reaches_its_tests(
    tests: Vec<RegisteredTest>,
    props: Vec<RegisteredTestSuiteProperty>,
    r: Vec<RegisteredTest>,
    i: int,
    k: int,
    c: Seq<char>,
    m: Seq<char>,
    limit: u128,
)
    requires
        call_ensures(internal::apply_suite_props_to_tests, (&tests, &props), r),
        0 <= i < tests@.len(),
        0 <= k < props@.len(),
        c.len() > 0,
        m.len() > 0,
        props@[k] matches RegisteredTestSuiteProperty::Timeout {
            name,
            crate_name,
            module,
            timeout,
        } && crate_name@ == c && module@.len() == 0 && name@ == m && timeout == limit,
        forall|j: int| 0 <= j < k ==> !((#[trigger] props@[j]) is Timeout),
        tests@[i].props.timeout is None,
        tests@[i].crate_name@ == c,
        at_or_in(tests@[i].module@, m),
    ensures
        i < r@.len(),
        r@[i].props.timeout == Some(limit),
{
    let test = tests@[i]@;
    lemma_reached(test, props@[k], c, m);
    lemma_timeout_applied(test, props@, k, limit);
    assert(r@[i]@ == internal::with_properties(test, props@));
}

proof fn lemma_timeout_applied(
    test: TestModel,
    props: Seq<RegisteredTestSuiteProperty>,
    k: int,
    limit: u128,
)
    requires
        0 <= k < props.len(),
        test.props.timeout is None,
        text::has_prefix(test.crate_and_module(), props[k].spec_crate_and_module()),
        props[k] matches RegisteredTestSuiteProperty::Timeout { timeout, .. } && timeout == limit,
        forall|j: int| 0 <= j < k ==> !((#[trigger] props[j]) is Timeout),
    ensures
        internal::with_properties(test, props).props.timeout == Some(limit),
    decreases props.len(),
{
    let init = props.drop_last();
    lemma_property_keeps(test, init);
    if k == props.len() - 1 {
        lemma_no_timeout(test, init);
    } else {
        lemma_timeout_applied(test, init, k, limit);
    }
}

proof fn lemma_no_timeout(test: TestModel, props: Seq<RegisteredTestSuiteProperty>)
    requires
        forall|j: int| 0 <= j < props.len() ==> !((#[trigger] props[j]) is Timeout),
    ensures
        internal::with_properties(test, props).props.timeout == test.props.timeout,
    decreases props.len(),
{
    if props.len() > 0 {
        lemma_no_timeout(test, props.drop_last());
    }
}

/// A test stays as it is where its path begins with the path of no suite that has a property.
pub proof fn properties_stay_in_their_suites(
    tests: Vec<RegisteredTest>,
    props: Vec<RegisteredTestSuiteProperty>,
    r: Vec<RegisteredTest>,
    i: int,
)
    requires
        call_ensures(internal::apply_suite_props_to_tests, (&tests, &props), r),
        0 <= i < tests@.len(),
        forall|k: int, rest: Seq<char>|
            0 <= k < props@.len() ==> tests@[i]@.crate_and_module() != #[trigger] (
            props@[k].spec_crate_and_module() + rest),
    ensures
        r@[i]@ == tests@[i]@,
{
    let path = tests@[i]@.crate_and_module();
    assert forall|k: int| 0 <= k < props@.len() implies !text::has_prefix(
        path,
        (#[trigger] props@[k]).spec_crate_and_module(),
    ) by {
        let suite = props@[k].spec_crate_and_module();
        if text::has_prefix(path, suite) {
            assert(path =~= suite + path.skip(suite.len() as int));
        }
    }
    lemma_untouched(tests@[i]@, props@);
    assert(r@[i]@ == internal::with_properties(tests@[i]@, props@));
}

proof fn lemma_untouched(test: TestModel, props: Seq<RegisteredTestSuiteProperty>)
    requires
        forall|k: int|
            0 <= k < props.len() ==> !text::has_prefix(
                test.crate_and_module(),
                (#[trigger] props[k]).spec_crate_and_module(),
            ),
    ensures
        internal::with_properties(test, props) == test,
    decreases props.len(),
{
    if props.len() > 0 {
        assert forall|k: int| 0 <= k < props.drop_last().len() implies !text::has_prefix(
            test.crate_and_module(),
            (#[trigger] props.drop_last()[k]).spec_crate_and_module(),
        ) by {
            assert(props[k] == props.drop_last()[k]);
        }
        lemma_untouched(test, props.drop_last());
        assert(!text::has_prefix(
            test.crate_and_module(),
            props[props.len() - 1].spec_crate_and_module(),
        ));
    }
}

/// A generated test is run in the module of its generator and under its name, as it was generated, and
/// is ignored if it or the generator is.
pub proof fn generated_test_is_registered(
    before: Vec<RegisteredTest>,
    after: Vec<RegisteredTest>,
    generator: RegisteredTestGenerator,
    generated: Vec<GeneratedTest>,
    i: int,
)
    requires
        exists|target: &mut Vec<RegisteredTest>|
            *target == before && *final(target) == after && #[trigger] call_ensures(
                internal::add_generated_tests,
                (target, &generator, generated),
                (),
            ),
        0 <= i < generated@.len(),
    ensures
        after@.len() == before@.len() + generated@.len(),
        forall|k: int| 0 <= k < before@.len() ==> (#[trigger] after@[k])@ == before@[k]@,
        ({
            let test = after@[before@.len() + i];
            &&& test.name@ == generator.name@ + colons() + generated@[i].name@
            &&& test.crate_name@ == generator.crate_name@
            &&& test.module@ == generator.module@
            &&& test.run == generated@[i].run
            &&& test.props.is_ignored == (generated@[i].props.is_ignored || generator.is_ignored)
            &&& test.props.should_panic == generated@[i].props.should_panic
            &&& test.props.timeout == generated@[i].props.timeout
            &&& test@.props.tags == generated@[i]@.props.tags
            &&& test@.dependencies == generated@[i]@.dependencies
        }),
{
    let (x, y) = (internal::test_views(before@), internal::test_views(after@));
    assert(y == x + generator.registered_all(generated@));
    assert forall|k: int| 0 <= k < before@.len() implies (#[trigger] after@[k])@ == before@[k]@ by {
        assert(y[k] == x[k]);
    }
    assert(y[before@.len() + i] == generator.registered_all(generated@)[i]);
}

/// Limits on the time hold for a test that asks for them, and for the others where the user does; a
/// test that refuses them has none. Which limits depends on the type of the test.
pub proof fn limits_of_a_test(
    args: Arguments,
    test: RegisteredTest,
    unit: TimeThreshold,
    integration: TimeThreshold,
    r: Option<TimeThreshold>,
    of_unit: TimeThreshold,
    of_integration: TimeThreshold,
)
    requires
        call_ensures(
            internal::get_ensure_time,
            (&args, &test, Some(unit), Some(integration)),
            r,
        ),
        call_ensures(Arguments::unit_test_threshold, (&args, Some(unit)), of_unit),
        call_ensures(
            Arguments::integration_test_threshold,
            (&args, Some(integration)),
            of_integration,
        ),
    ensures
        test.props.ensure_time_control == ReportTimeControl::Disabled ==> r is None,
        test.props.ensure_time_control == ReportTimeControl::Enabled ==> r is Some,
        test.props.ensure_time_control == ReportTimeControl::Default ==> (r is Some
            <==> args.ensure_time),
        r matches Some(limits) ==> limits == (if test.props.test_type == TestType::UnitTest {
            unit
        } else {
            integration
        }),
        of_unit == unit,
        of_integration == integration,
{
}

/// A test is a unit test exactly if its file stands below a source directory.
pub proof fn type_follows_the_path(path: &str, r: TestType)
    requires
        call_ensures(TestType::from_path, (path,), r),
    ensures
        r == TestType::UnitTest <==> holds(path@, "/src/"@),
{
    lemma_substring(path@, "/src/"@);
}

} // verus!
