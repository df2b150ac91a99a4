//! What the command line says of the arguments that it stands for.
use crate::args::{
    color_value, command_line, flag_args, format_value, opt_decimal, opt_nat, opt_seed,
    repeated_args, unstable_value, value_args, with_capture, with_display, with_filters,
    with_selection, ArgumentsModel, ColorSetting, FormatSetting,
};
use crate::text;
use vstd::prelude::*;

verus! {

/// The command line has this many parts, one for each field of the arguments.
pub open spec fn part_count() -> int {
    25
}

/// The place of the filters among the parts.
pub open spec fn filter_place() -> int {
    20
}

/// The option that begins the part at place `k`. The filters stand without one.
pub open spec fn option_name(k: int) -> Seq<char> {
    if k == 0 {
        "--include-ignored"@
    } else if k == 1 {
        "--ignored"@
    } else if k == 2 {
        "--exclude-should-panic"@
    } else if k == 3 {
        "--test"@
    } else if k == 4 {
        "--bench"@
    } else if k == 5 {
        "--list"@
    } else if k == 6 {
        "--logfile"@
    } else if k == 7 {
        "--nocapture"@
    } else if k == 8 {
        "--test-threads"@
    } else if k == 9 {
        "--skip"@
    } else if k == 10 {
        "--quiet"@
    } else if k == 11 {
        "--exact"@
    } else if k == 12 {
        "--color"@
    } else if k == 13 {
        "--format"@
    } else if k == 14 {
        "--show-output"@
    } else if k == 15 {
        "-Z"@
    } else if k == 16 {
        "--report-time"@
    } else if k == 17 {
        "--ensure-time"@
    } else if k == 18 {
        "--shuffle"@
    } else if k == 19 {
        "--shuffle-seed"@
    } else if k == 21 {
        "--ipc"@
    } else if k == 22 {
        "--spawn-workers"@
    } else if k == 23 {
        "--worker-index"@
    } else if k == 24 {
        "--flaky-run"@
    } else {
        Seq::empty()
    }
}

/// The flag at place `k`.
pub open spec fn flag_at(a: ArgumentsModel, k: int) -> bool {
    if k == 0 {
        a.include_ignored
    } else if k == 1 {
        a.ignored
    } else if k == 2 {
        a.exclude_should_panic
    } else if k == 3 {
        a.test
    } else if k == 4 {
        a.bench
    } else if k == 5 {
        a.list
    } else if k == 7 {
        a.nocapture
    } else if k == 10 {
        a.quiet
    } else if k == 11 {
        a.exact
    } else if k == 14 {
        a.show_output
    } else if k == 16 {
        a.report_time
    } else if k == 17 {
        a.ensure_time
    } else if k == 18 {
        a.shuffle
    } else if k == 22 {
        a.spawn_workers
    } else {
        false
    }
}

/// The place belongs to an option with a value.
pub open spec fn has_value(k: int) -> bool {
    k == 6 || k == 8 || k == 12 || k == 13 || k == 15 || k == 19 || k == 21 || k == 23 || k == 24
}

/// The value at place `k`.
pub open spec fn value_at(a: ArgumentsModel, k: int) -> Option<Seq<char>> {
    if k == 6 {
        a.logfile
    } else if k == 8 {
        opt_decimal(opt_nat(a.test_threads))
    } else if k == 12 {
        color_value(a.color)
    } else if k == 13 {
        format_value(a.format)
    } else if k == 15 {
        unstable_value(a.unstable_flags)
    } else if k == 19 {
        opt_decimal(opt_seed(a.shuffle_seed))
    } else if k == 21 {
        a.ipc
    } else if k == 23 {
        opt_decimal(opt_nat(a.worker_index))
    } else if k == 24 {
        opt_decimal(opt_nat(a.flaky_run))
    } else {
        None
    }
}

/// The part at place `k`.
pub open spec fn part(a: ArgumentsModel, k: int) -> Seq<Seq<char>> {
    if has_value(k) {
        value_args(option_name(k), value_at(a, k))
    } else if k == 9 {
        repeated_args(option_name(k), a.skip)
    } else if k == filter_place() {
        a.filter
    } else {
        flag_args(flag_at(a, k), option_name(k))
    }
}

/// The parts before place `k`.
pub open spec fn start(a: ArgumentsModel, k: int) -> Seq<Seq<char>>
    decreases k,
{
    if k <= 0 {
        Seq::empty()
    } else {
        start(a, k - 1) + part(a, k - 1)
    }
}

/// The parts from place `k` on.
pub open spec fn rest(a: ArgumentsModel, k: int) -> Seq<Seq<char>>
    decreases part_count() - k,
{
    if k >= part_count() {
        Seq::empty()
    } else {
        part(a, k) + rest(a, k + 1)
    }
}

pub proof fn lemma_start_and_rest(a: ArgumentsModel, k: int)
    requires
        0 <= k <= part_count(),
    ensures
        start(a, k) + rest(a, k) == rest(a, 0),
    decreases k,
{
    if k == 0 {
        assert(start(a, 0) + rest(a, 0) =~= rest(a, 0));
    } else {
        lemma_start_and_rest(a, k - 1);
        assert(start(a, k) + rest(a, k) =~= start(a, k - 1) + (part(a, k - 1) + rest(a, k)));
    }
}

pub proof fn lemma_command_line(a: ArgumentsModel)
    ensures
        command_line(a) == rest(a, 0),
{
    let selection = with_selection(Seq::empty(), a);
    assert(selection == start(a, 6)) by {
        reveal_with_fuel(start, 7);
    }
    let capture = with_capture(selection, a);
    assert(capture == start(a, 12)) by {
        reveal_with_fuel(start, 7);
    }
    let display = with_display(capture, a);
    assert(display == start(a, 18)) by {
        reveal_with_fuel(start, 7);
    }
    assert(with_filters(display, a) == start(a, 25)) by {
        reveal_with_fuel(start, 8);
    }
    lemma_start_and_rest(a, 25);
    assert(start(a, 25) + rest(a, 25) =~= start(a, 25));
}

/// An argument that is no option.
pub open spec fn is_plain(s: Seq<char>) -> bool {
    s.len() == 0 || s[0] != '-'
}

/// All filters can be told from options.
pub open spec fn has_plain_filters(a: ArgumentsModel) -> bool {
    forall|i: int| 0 <= i < a.filter.len() ==> is_plain(#[trigger] a.filter[i])
}

/// The names of options differ in their length or in their third character.
proof fn lemma_option_names(i: int, j: int)
    requires
        0 <= i < part_count(),
        0 <= j < part_count(),
        i != filter_place(),
        j != filter_place(),
    ensures
        !is_plain(option_name(i)),
        option_name(i) == option_name(j) ==> i == j,
{
    reveal_strlit("--include-ignored");
    reveal_strlit("--ignored");
    reveal_strlit("--exclude-should-panic");
    reveal_strlit("--test");
    reveal_strlit("--bench");
    reveal_strlit("--list");
    reveal_strlit("--logfile");
    reveal_strlit("--nocapture");
    reveal_strlit("--test-threads");
    reveal_strlit("--skip");
    reveal_strlit("--quiet");
    reveal_strlit("--exact");
    reveal_strlit("--color");
    reveal_strlit("--format");
    reveal_strlit("--show-output");
    reveal_strlit("-Z");
    reveal_strlit("--report-time");
    reveal_strlit("--ensure-time");
    reveal_strlit("--shuffle");
    reveal_strlit("--shuffle-seed");
    reveal_strlit("--ipc");
    reveal_strlit("--spawn-workers");
    reveal_strlit("--worker-index");
    reveal_strlit("--flaky-run");
    let (x, y) = (option_name(i), option_name(j));
    if x == y && i != j {
        assert(x.len() == y.len());
        assert(x[2] == y[2]);
    }
}

/// `s` can begin the parts from place `k` on.
pub open spec fn may_begin(s: Seq<char>, k: int) -> bool {
    ||| k <= filter_place() && is_plain(s)
    ||| exists|j: int|
        k <= j < part_count() && j != filter_place() && s == #[trigger] option_name(j)
}

proof fn lemma_repeated_first(flag: Seq<char>, values: Seq<Seq<char>>)
    requires
        values.len() > 0,
    ensures
        repeated_args(flag, values) == seq![flag, values[0]] + repeated_args(flag, values.skip(1)),
    decreases values.len(),
{
    if values.len() == 1 {
        assert(values.drop_last() =~= Seq::empty());
        assert(values.skip(1) =~= Seq::empty());
        assert(repeated_args(flag, values) =~= seq![flag, values[0]] + repeated_args(
            flag,
            values.skip(1),
        ));
    } else {
        lemma_repeated_first(flag, values.drop_last());
        assert(values.drop_last().skip(1) =~= values.skip(1).drop_last());
        assert(repeated_args(flag, values) =~= seq![flag, values[0]] + repeated_args(
            flag,
            values.skip(1),
        ));
    }
}

proof fn lemma_rest_begins(a: ArgumentsModel, k: int)
    requires
        0 <= k <= part_count(),
        has_plain_filters(a),
    ensures
        rest(a, k).len() > 0 ==> may_begin(rest(a, k)[0], k),
    decreases part_count() - k,
{
    if k < part_count() {
        lemma_rest_begins(a, k + 1);
        if part(a, k).len() == 0 {
            assert(rest(a, k) =~= rest(a, k + 1));
            if rest(a, k).len() > 0 {
                let s = rest(a, k)[0];
                if !(k + 1 <= filter_place() && is_plain(s)) {
                    let j = choose|j: int|
                        k + 1 <= j < part_count() && j != filter_place() && s
                            == #[trigger] option_name(j);
                    assert(s == option_name(j));
                }
            }
        } else {
            assert(rest(a, k)[0] == part(a, k)[0]);
            if k == filter_place() {
                assert(is_plain(a.filter[0]));
            } else {
                if k == 9 {
                    lemma_repeated_first(option_name(k), a.skip);
                }
                assert(part(a, k)[0] == option_name(k));
            }
        }
    }
}

/// The option at place `k` does not begin what may begin the parts after it.
proof fn lemma_not_later(s: Seq<char>, k: int)
    requires
        0 <= k < part_count(),
        k != filter_place(),
        may_begin(s, k + 1),
    ensures
        s != option_name(k),
{
    lemma_option_names(k, k);
    if !(k + 1 <= filter_place() && is_plain(s)) {
        let j = choose|j: int|
            k + 1 <= j < part_count() && j != filter_place() && s == #[trigger] option_name(j);
        lemma_option_names(k, j);
    }
}

proof fn lemma_same_repeated(
    flag: Seq<char>,
    x: Seq<Seq<char>>,
    y: Seq<Seq<char>>,
    after_x: Seq<Seq<char>>,
    after_y: Seq<Seq<char>>,
)
    requires
        repeated_args(flag, x) + after_x == repeated_args(flag, y) + after_y,
        after_x.len() > 0 ==> after_x[0] != flag,
        after_y.len() > 0 ==> after_y[0] != flag,
    ensures
        x == y,
        after_x == after_y,
    decreases x.len(),
{
    let whole = repeated_args(flag, x) + after_x;
    if x.len() > 0 {
        lemma_repeated_first(flag, x);
        assert(whole[0] == flag);
    }
    if y.len() > 0 {
        lemma_repeated_first(flag, y);
        assert(whole[0] == flag);
    }
    if x.len() == 0 {
        assert(whole =~= after_x);
        assert(y.len() == 0);
        assert(repeated_args(flag, y) + after_y =~= after_y);
        assert(x =~= y);
    } else if y.len() == 0 {
        assert(repeated_args(flag, y) + after_y =~= after_y);
    } else {
        let (mx, my) = (x.skip(1), y.skip(1));
        assert(whole[1] == x[0]);
        assert(whole[1] == y[0]);
        assert(whole.skip(2) =~= repeated_args(flag, mx) + after_x);
        assert(whole.skip(2) =~= repeated_args(flag, my) + after_y);
        lemma_same_repeated(flag, mx, my, after_x, after_y);
        assert(x =~= seq![x[0]] + mx);
        assert(y =~= seq![y[0]] + my);
    }
}

proof fn lemma_same_filters(
    x: Seq<Seq<char>>,
    y: Seq<Seq<char>>,
    after_x: Seq<Seq<char>>,
    after_y: Seq<Seq<char>>,
)
    requires
        x + after_x == y + after_y,
        forall|i: int| 0 <= i < x.len() ==> is_plain(#[trigger] x[i]),
        forall|i: int| 0 <= i < y.len() ==> is_plain(#[trigger] y[i]),
        after_x.len() > 0 ==> !is_plain(after_x[0]),
        after_y.len() > 0 ==> !is_plain(after_y[0]),
    ensures
        x == y,
        after_x == after_y,
{
    let whole = x + after_x;
    assert(whole.len() == y.len() + after_y.len());
    if x.len() < y.len() {
        let n = x.len() as int;
        assert(whole[n] == after_x[0]);
        assert((y + after_y)[n] == y[n]);
    } else if y.len() < x.len() {
        let n = y.len() as int;
        assert((y + after_y)[n] == after_y[0]);
        assert(whole[n] == x[n]);
    }
    assert(whole.take(x.len() as int) =~= x);
    assert((y + after_y).take(y.len() as int) =~= y);
    assert(whole.skip(x.len() as int) =~= after_x);
    assert((y + after_y).skip(y.len() as int) =~= after_y);
}

/// Two command lines that agree from place `k` on agree in the part there and in what follows.
proof fn lemma_same_part(a: ArgumentsModel, b: ArgumentsModel, k: int)
    requires
        0 <= k < part_count(),
        has_plain_filters(a),
        has_plain_filters(b),
        rest(a, k) == rest(b, k),
    ensures
        part(a, k) == part(b, k),
        rest(a, k + 1) == rest(b, k + 1),
        k == 9 ==> a.skip == b.skip,
{
    let (x, y) = (part(a, k), part(b, k));
    let (after_x, after_y) = (rest(a, k + 1), rest(b, k + 1));
    let whole = rest(a, k);
    lemma_rest_begins(a, k + 1);
    lemma_rest_begins(b, k + 1);
    if k == filter_place() {
        if after_x.len() > 0 {
            let j = choose|j: int|
                k + 1 <= j < part_count() && j != filter_place() && after_x[0]
                    == #[trigger] option_name(j);
            lemma_option_names(j, j);
        }
        if after_y.len() > 0 {
            let j = choose|j: int|
                k + 1 <= j < part_count() && j != filter_place() && after_y[0]
                    == #[trigger] option_name(j);
            lemma_option_names(j, j);
        }
        lemma_same_filters(x, y, after_x, after_y);
    } else {
        if after_x.len() > 0 {
            lemma_not_later(after_x[0], k);
        }
        if after_y.len() > 0 {
            lemma_not_later(after_y[0], k);
        }
        if k == 9 {
            lemma_same_repeated(option_name(k), a.skip, b.skip, after_x, after_y);
        } else {
            if x.len() > 0 {
                assert(whole[0] == x[0]);
            } else {
                assert(whole =~= after_x);
            }
            if y.len() > 0 {
                assert(whole[0] == y[0]);
            } else {
                assert(whole =~= after_y);
            }
            assert(x.len() == y.len());
            if x.len() == 2 {
                assert(whole[1] == x[1]);
                assert(whole[1] == y[1]);
            }
            assert(x =~= y);
            assert(whole.skip(x.len() as int) =~= after_x);
            assert(whole.skip(y.len() as int) =~= after_y);
        }
    }
}

proof fn lemma_same_parts(a: ArgumentsModel, b: ArgumentsModel, k: int, n: int)
    requires
        0 <= k <= n <= part_count(),
        has_plain_filters(a),
        has_plain_filters(b),
        rest(a, k) == rest(b, k),
    ensures
        rest(a, n) == rest(b, n),
    decreases n - k,
{
    if k < n {
        lemma_same_part(a, b, k);
        lemma_same_parts(a, b, k + 1, n);
    }
}

proof fn lemma_same_flag(a: ArgumentsModel, b: ArgumentsModel, k: int)
    requires
        0 <= k < part_count(),
        !has_value(k),
        k != 9,
        k != filter_place(),
        has_plain_filters(a),
        has_plain_filters(b),
        rest(a, 0) == rest(b, 0),
    ensures
        flag_at(a, k) == flag_at(b, k),
{
    lemma_same_parts(a, b, 0, k);
    lemma_same_part(a, b, k);
    assert(part(a, k).len() == part(b, k).len());
}

proof fn lemma_same_value(a: ArgumentsModel, b: ArgumentsModel, k: int)
    requires
        0 <= k < part_count(),
        has_value(k),
        has_plain_filters(a),
        has_plain_filters(b),
        rest(a, 0) == rest(b, 0),
    ensures
        value_at(a, k) == value_at(b, k),
{
    lemma_same_parts(a, b, 0, k);
    lemma_same_part(a, b, k);
    let (x, y) = (part(a, k), part(b, k));
    assert(x.len() == y.len());
    if x.len() == 2 {
        assert(x[1] == y[1]);
    }
}

proof fn lemma_same_number(x: Option<nat>, y: Option<nat>)
    requires
        opt_decimal(x) == opt_decimal(y),
    ensures
        x == y,
{
    if let Some(n) = x {
        text::decimal_reads_back(n);
    }
    if let Some(n) = y {
        text::decimal_reads_back(n);
    }
}

proof fn lemma_same_color(x: Option<ColorSetting>, y: Option<ColorSetting>)
    requires
        color_value(x) == color_value(y),
    ensures
        x == y,
{
    reveal_strlit("auto");
    reveal_strlit("always");
    reveal_strlit("never");
    assert("auto"@.len() == 4 && "always"@.len() == 6 && "never"@.len() == 5);
}

proof fn lemma_same_format(x: Option<FormatSetting>, y: Option<FormatSetting>)
    requires
        format_value(x) == format_value(y),
    ensures
        x == y,
{
    reveal_strlit("pretty");
    reveal_strlit("terse");
    reveal_strlit("json");
    reveal_strlit("junit");
    reveal_strlit("ctrf");
    assert("pretty"@.len() == 6);
    assert("terse"@.len() == 5 && "junit"@.len() == 5 && "terse"@[0] != "junit"@[0]);
    assert("json"@.len() == 4 && "ctrf"@.len() == 4 && "json"@[0] != "ctrf"@[0]);
}

proof fn lemma_same_flags(a: ArgumentsModel, b: ArgumentsModel)
    requires
        has_plain_filters(a),
        has_plain_filters(b),
        rest(a, 0) == rest(b, 0),
    ensures
        a.include_ignored == b.include_ignored,
        a.ignored == b.ignored,
        a.exclude_should_panic == b.exclude_should_panic,
        a.test == b.test,
        a.bench == b.bench,
        a.list == b.list,
        a.nocapture == b.nocapture,
        a.quiet == b.quiet,
        a.exact == b.exact,
        a.show_output == b.show_output,
        a.report_time == b.report_time,
        a.ensure_time == b.ensure_time,
        a.shuffle == b.shuffle,
        a.spawn_workers == b.spawn_workers,
{
    lemma_same_flag(a, b, 0);
    lemma_same_flag(a, b, 1);
    lemma_same_flag(a, b, 2);
    lemma_same_flag(a, b, 3);
    lemma_same_flag(a, b, 4);
    lemma_same_flag(a, b, 5);
    lemma_same_flag(a, b, 7);
    lemma_same_flag(a, b, 10);
    lemma_same_flag(a, b, 11);
    lemma_same_flag(a, b, 14);
    lemma_same_flag(a, b, 16);
    lemma_same_flag(a, b, 17);
    lemma_same_flag(a, b, 18);
    lemma_same_flag(a, b, 22);
}

proof fn lemma_same_texts(a: ArgumentsModel, b: ArgumentsModel)
    requires
        has_plain_filters(a),
        has_plain_filters(b),
        rest(a, 0) == rest(b, 0),
    ensures
        a.logfile == b.logfile,
        a.ipc == b.ipc,
        a.unstable_flags == b.unstable_flags,
        a.color == b.color,
        a.format == b.format,
{
    lemma_same_value(a, b, 6);
    lemma_same_value(a, b, 21);
    lemma_same_value(a, b, 15);
    lemma_same_value(a, b, 12);
    lemma_same_color(a.color, b.color);
    lemma_same_value(a, b, 13);
    lemma_same_format(a.format, b.format);
}

proof fn lemma_same_numbers(a: ArgumentsModel, b: ArgumentsModel)
    requires
        has_plain_filters(a),
        has_plain_filters(b),
        rest(a, 0) == rest(b, 0),
    ensures
        a.test_threads == b.test_threads,
        a.shuffle_seed == b.shuffle_seed,
        a.worker_index == b.worker_index,
        a.flaky_run == b.flaky_run,
{
    lemma_same_value(a, b, 8);
    lemma_same_number(opt_nat(a.test_threads), opt_nat(b.test_threads));
    lemma_same_value(a, b, 19);
    lemma_same_number(opt_seed(a.shuffle_seed), opt_seed(b.shuffle_seed));
    lemma_same_value(a, b, 23);
    lemma_same_number(opt_nat(a.worker_index), opt_nat(b.worker_index));
    lemma_same_value(a, b, 24);
    lemma_same_number(opt_nat(a.flaky_run), opt_nat(b.flaky_run));
}

proof fn lemma_same_lists(a: ArgumentsModel, b: ArgumentsModel)
    requires
        has_plain_filters(a),
        has_plain_filters(b),
        rest(a, 0) == rest(b, 0),
    ensures
        a.skip == b.skip,
        a.filter == b.filter,
{
    lemma_same_parts(a, b, 0, 9);
    lemma_same_part(a, b, 9);
    lemma_same_parts(a, b, 0, filter_place());
    lemma_same_part(a, b, filter_place());
}

/// The command line tells all arguments: two that have the same one agree in every field, if their
/// filters can be told from options.
pub proof fn command_line_tells_the_arguments(a: ArgumentsModel, b: ArgumentsModel)
    requires
        has_plain_filters(a),
        has_plain_filters(b),
        command_line(a) == command_line(b),
    ensures
        a == b,
{
    lemma_command_line(a);
    lemma_command_line(b);
    lemma_same_flags(a, b);
    lemma_same_texts(a, b);
    lemma_same_numbers(a, b);
    lemma_same_lists(a, b);
    assert(a =~= b);
}

} // verus!
