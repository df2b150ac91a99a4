//! Output of the parent process, benchmarks, and the tables of what reaches workers.
use crate::args::Arguments;
use crate::bench;
use crate::bench::{Progress, Round};
use crate::host_capture;
use crate::host_capture::{HostLogRecord, HostWindow, RecordModel};
use crate::internal;
use crate::internal::{DepScope, RegisteredDependency, RegisteredTest, RpcFactory};
use crate::results;
use crate::results::{CapturedOutput, Summary, TestResult};
use crate::sync::wire;
use crate::sync::wire::WireCodec;
use crate::table;
use vstd::prelude::*;
use vstd::utf8;

verus! {

/// A line loses its line break, whichever of the two it ends with, and nothing else.
pub proof fn line_break_is_removed(content: Seq<u8>, before: Vec<u8>, after: Vec<u8>)
    requires
        content.len() > 0 ==> content.last() != 10 && content.last() != 13,
        before@ == content || before@ == content + seq![10u8] || before@ == content + seq![
            13u8,
            10u8,
        ],
        exists|line: &mut Vec<u8>|
            *line == before && *final(line) == after && #[trigger] call_ensures(
                host_capture::strip_line_break,
                (line,),
                (),
            ),
    ensures
        after@ == content,
{
    if before@ == content + seq![10u8] {
        assert(before@.drop_last() =~= content);
    } else if before@ == content + seq![13u8, 10u8] {
        assert(before@.drop_last() =~= content + seq![13u8]);
        assert(before@.drop_last().drop_last() =~= content);
    }
}

/// Lines that were spilled are read in the order in which they were written, each with its time. A
/// record at the end that is cut off is not read.
pub proof fn spilled_lines_are_read(
    t1: u64,
    line1: Vec<u8>,
    b1: Vec<u8>,
    t2: u64,
    line2: Vec<u8>,
    b2: Vec<u8>,
    b3: Vec<u8>,
    n: int,
    contents: Vec<u8>,
    r: Vec<HostLogRecord>,
)
    requires
        line1@.len() <= u32::MAX,
        line2@.len() <= u32::MAX,
        call_ensures(host_capture::encode_record, (t1, &line1), b1),
        call_ensures(host_capture::encode_record, (t2, &line2), b2),
        call_ensures(host_capture::encode_record, (t2, &line2), b3),
        0 <= n < b3@.len(),
        contents@ == b1@ + b2@ + b3@.take(n),
        call_ensures(host_capture::read_spill_file, (Some(contents),), r),
    ensures
        r@.len() == 2,
        r@[0].elapsed == t1,
        r@[1].elapsed == t2,
        utf8::valid_utf8(line1@) ==> utf8::encode_utf8(r@[0].line@) == line1@,
        utf8::valid_utf8(line2@) ==> utf8::encode_utf8(r@[1].line@) == line2@,
{
    let m1 = RecordModel { elapsed: t1 as nat, stream_tag: 0, line: line1@ };
    let m2 = RecordModel { elapsed: t2 as nat, stream_tag: 0, line: line2@ };
    let (s1, s2) = (host_capture::record_bytes(m1), host_capture::record_bytes(m2));
    assert(b1@ == s1 && b2@ == s2 && b3@ == s2);
    lemma_two_spilled(m1, m2, n, s1, s2, contents@);
    assert(host_capture::reads_as(host_capture::parsed(contents@)[0], r@[0]));
    assert(host_capture::reads_as(host_capture::parsed(contents@)[1], r@[1]));
}

proof fn lemma_two_spilled(
    m1: RecordModel,
    m2: RecordModel,
    n: int,
    s1: Seq<u8>,
    s2: Seq<u8>,
    contents: Seq<u8>,
)
    requires
        host_capture::is_writable(m1),
        host_capture::is_writable(m2),
        s1 == host_capture::record_bytes(m1),
        s2 == host_capture::record_bytes(m2),
        0 <= n < s2.len(),
        contents == s1 + s2 + s2.take(n),
    ensures
        host_capture::parsed(contents) == seq![m1, m2],
{
    let records = seq![m1, m2];
    let tail = s2.take(n);
    host_capture::cut_off_record_is_dropped(m2, n);
    assert(host_capture::spilled(records) == s1 + s2) by {
        lemma_spilled_two(m1, m2);
    }
    host_capture::spilled_records_read_back(records, tail);
    assert(records + Seq::<RecordModel>::empty() =~= records);
}

proof fn lemma_spilled_two(m1: RecordModel, m2: RecordModel)
    ensures
        host_capture::spilled(seq![m1, m2]) == host_capture::record_bytes(m1)
            + host_capture::record_bytes(m2),
{
    reveal_with_fuel(host_capture::spilled, 3);
    let s2 = host_capture::record_bytes(m2);
    assert(seq![m1, m2].skip(1) =~= seq![m2]);
    assert(seq![m2].skip(1) =~= Seq::empty());
    assert(s2 + Seq::<u8>::empty() =~= s2);
}

/// Where there is no spill file nothing is read.
pub proof fn no_spill_file_gives_nothing(r: Vec<HostLogRecord>)
    requires
        call_ensures(host_capture::read_spill_file, (None::<Vec<u8>>,), r),
    ensures
        r@.len() == 0,
{
}

/// A moment falls into a window if it lies between the two readings of the clock, the second of which
/// does not belong to it.
pub proof fn window_holds_what_is_between(
    epoch: u64,
    start: u64,
    end: u64,
    t: u64,
    window: Option<HostWindow>,
    inside: bool,
)
    requires
        epoch <= start,
        epoch <= end,
        call_ensures(HostWindow::from_instants, (Some(epoch), start, end), window),
        window matches Some(w) ==> call_ensures(HostWindow::contains, (&w, t), inside),
    ensures
        window is Some,
        inside <==> start <= epoch + t < end,
{
}

/// The line of a record, at the time at which it was written.
pub open spec fn is_line_of(epoch_wall: u64, record: HostLogRecord, c: CapturedOutput) -> bool {
    c matches CapturedOutput::Host { timestamp, line } && line == record.line && (epoch_wall
        + record.elapsed <= u64::MAX ==> timestamp == epoch_wall + record.elapsed)
}

/// The record was written while the test in this place ran.
pub open spec fn was_written_during(
    windows: Seq<(usize, HostWindow)>,
    w: int,
    place: int,
    record: HostLogRecord,
) -> bool {
    &&& 0 <= w < windows.len()
    &&& windows[w].0 == place
    &&& windows[w].1.start <= record.elapsed < windows[w].1.end
}

/// What the parent writes while a test runs is shown with the test, and nothing else is added to it.
/// How the tests ended does not change.
pub proof fn host_output_goes_to_running_tests(
    epoch_wall: u64,
    records: Vec<HostLogRecord>,
    windows: Vec<(usize, HostWindow)>,
    before: Vec<(RegisteredTest, TestResult)>,
    after: Vec<(RegisteredTest, TestResult)>,
    i: int,
    shown_before: Vec<CapturedOutput>,
    shown: Vec<CapturedOutput>,
)
    requires
        exists|results: &mut Vec<(RegisteredTest, TestResult)>|
            *results == before && *final(results) == after && #[trigger] call_ensures(
                host_capture::attribute_records_to_tests,
                (epoch_wall, &records, &windows, results),
                (),
            ),
        0 <= i < before@.len(),
        call_ensures(TestResult::captured_output, (&before@[i].1,), &shown_before),
        call_ensures(TestResult::captured_output, (&after@[i].1,), &shown),
    ensures
        after@.len() == before@.len(),
        after@[i].0 == before@[i].0,
        after@[i].1 is Passed <==> before@[i].1 is Passed,
        after@[i].1 is Failed <==> before@[i].1 is Failed,
        after@[i].1 is Ignored <==> before@[i].1 is Ignored,
        after@[i].1 is Benchmarked <==> before@[i].1 is Benchmarked,
        forall|r: int, w: int|
            0 <= r < records@.len() && #[trigger] was_written_during(
                windows@,
                w,
                i,
                records@[r],
            ) ==> exists|k: int|
                0 <= k < shown@.len() && is_line_of(epoch_wall, records@[r], #[trigger] shown@[k]),
        forall|k: int| 0 <= k < shown_before@.len() ==> shown@.contains(
            #[trigger] shown_before@[k],
        ),
        forall|k: int|
            0 <= k < shown@.len() ==> shown_before@.contains(#[trigger] shown@[k]) || exists|
                r: int,
                w: int,
            |
                0 <= r < records@.len() && #[trigger] was_written_during(
                    windows@,
                    w,
                    i,
                    records@[r],
                ) && is_line_of(epoch_wall, records@[r], shown@[k]),
{
    let start = host_capture::captured_of(before@);
    let all = host_capture::with_windows(epoch_wall, records@, windows@, start);
    assert(host_capture::captured_of(after@)[i] == shown@);
    assert(start[i] == shown_before@);
    assert forall|r: int, w: int|
        0 <= r < records@.len() && #[trigger] was_written_during(
            windows@,
            w,
            i,
            records@[r],
        ) implies exists|k: int|
        0 <= k < shown@.len() && is_line_of(epoch_wall, records@[r], #[trigger] shown@[k]) by {
        host_capture::record_reaches_every_window(epoch_wall, records@, windows@, start, r, w);
        let k = shown@.index_of(host_capture::capture_of(epoch_wall, records@[r]));
        assert(is_line_of(epoch_wall, records@[r], shown@[k]));
    }
    lemma_shown(epoch_wall, records@, windows@, start, i);
    assert forall|k: int| 0 <= k < shown_before@.len() implies shown@.contains(
        #[trigger] shown_before@[k],
    ) by {
        assert(start[i].contains(shown_before@[k]));
    }
    assert forall|k: int| 0 <= k < shown@.len() implies shown_before@.contains(
        #[trigger] shown@[k],
    ) || exists|r: int, w: int|
        0 <= r < records@.len() && #[trigger] was_written_during(windows@, w, i, records@[r])
            && is_line_of(epoch_wall, records@[r], shown@[k]) by {
        assert(all[i].contains(shown@[k]));
    }
}

proof fn lemma_shown(
    epoch_wall: u64,
    records: Seq<HostLogRecord>,
    windows: Seq<(usize, HostWindow)>,
    captured: Seq<Seq<CapturedOutput>>,
    i: int,
)
    requires
        0 <= i < captured.len(),
    ensures
        ({
            let all = host_capture::with_windows(epoch_wall, records, windows, captured);
            &&& all.len() == captured.len()
            &&& forall|c: CapturedOutput|
                captured[i].contains(c) ==> #[trigger] all[i].contains(c)
            &&& forall|c: CapturedOutput| #[trigger]
                all[i].contains(c) ==> captured[i].contains(c) || exists|r: int, w: int|
                    0 <= r < records.len() && #[trigger] was_written_during(
                        windows,
                        w,
                        i,
                        records[r],
                    ) && is_line_of(epoch_wall, records[r], c)
        }),
    decreases windows.len(),
{
    if windows.len() > 0 {
        let (init, last) = (windows.drop_last(), windows.last());
        lemma_shown(epoch_wall, records, init, captured, i);
        let mid = host_capture::with_windows(epoch_wall, records, init, captured);
        let all = host_capture::with_windows(epoch_wall, records, windows, captured);
        let added = host_capture::captures_in(epoch_wall, records, last.1);
        assert forall|c: CapturedOutput| #[trigger] all[i].contains(c) implies captured[i].contains(
            c,
        ) || exists|r: int, w: int|
            0 <= r < records.len() && #[trigger] was_written_during(windows, w, i, records[r])
                && is_line_of(epoch_wall, records[r], c) by {
            if mid[i].contains(c) {
                if !captured[i].contains(c) {
                    let (r, w) = choose|r: int, w: int|
                        0 <= r < records.len() && #[trigger] was_written_during(
                            init,
                            w,
                            i,
                            records[r],
                        ) && is_line_of(epoch_wall, records[r], c);
                    assert(was_written_during(windows, w, i, records[r]));
                }
            } else {
                let joined = mid[i] + added;
                lemma_sorted_from(joined, c);
                let k = joined.index_of(c);
                assert(joined[k] == c);
                if k < mid[i].len() {
                    assert(mid[i][k] == c);
                } else {
                    let p = |x: HostLogRecord| last.1.spec_contains(x.elapsed);
                    let kept = records.filter(p);
                    let x = kept[k - mid[i].len()];
                    assert(added[k - mid[i].len()] == c);
                    records.lemma_filter_contains_rev(p, x);
                    let r = records.index_of(x);
                    records.lemma_filter_pred(p, k - mid[i].len());
                    assert(records[r] == x);
                    assert(was_written_during(windows, windows.len() - 1, i, records[r]));
                }
            }
        }
        assert forall|c: CapturedOutput| captured[i].contains(c) implies #[trigger] all[i].contains(
            c,
        ) by {
            assert(mid[i].contains(c));
            let joined = mid[i] + added;
            let k = mid[i].index_of(c);
            assert(joined[k] == c);
            assert(joined.contains(c));
            results::sorting_keeps_lines(joined, c);
        }
    } else {
        assert(host_capture::with_windows(epoch_wall, records, windows, captured) == captured);
    }
}

proof fn lemma_sorted_from(lines: Seq<CapturedOutput>, c: CapturedOutput)
    requires
        results::time_sorted(lines).contains(c),
    ensures
        lines.contains(c),
{
    results::sorting_is_stable(lines);
    let sorted = results::time_sorted(lines);
    let t = c.spec_timestamp();
    let p = |x: CapturedOutput| x.spec_timestamp() == t;
    sorted.lemma_filter_contains(p, sorted.index_of(c));
    assert(results::at_time(sorted, t).contains(c));
    assert(results::at_time(sorted, t) == results::at_time(lines, t));
    lines.lemma_filter_contains_rev(p, c);
}

/// The parent's output is captured where worker processes run the tests and their output is captured,
/// and never in a worker process.
pub proof fn host_output_is_captured_beside_workers(args: Arguments, r: bool)
    requires
        call_ensures(host_capture::should_install, (&args,), r),
    ensures
        args.ipc is Some ==> !r,
        args.nocapture ==> !r,
        !args.spawn_workers ==> !r,
        args.ipc is None && !args.nocapture && args.spawn_workers ==> r,
{
}

/// The first round of a benchmark takes a millisecond, as far as that is a matter of how often the
/// benchmark is run.
pub proof fn first_round_is_a_millisecond(ns_single: u64, r: Progress)
    requires
        call_ensures(Progress::start, (ns_single,), r),
    ensures
        r.n >= 1,
        r.n > 1 ==> r.n * ns_single <= 1_000_000,
        ns_single > 0 ==> (r.n + 1) * ns_single > 1_000_000,
        r.total_run == 0,
{
    if 0 < ns_single <= 1_000_000 {
        bench::first_round_takes_a_millisecond(ns_single);
        assert(bench::first_iterations(ns_single) == r.n);
    } else if ns_single > 1_000_000 {
        assert(1_000_000int / ns_single as int == 0) by (nonlinear_arith)
            requires
                ns_single > 1_000_000,
        ;
        assert(r.n == 1);
        assert((r.n + 1) * ns_single == 2 * ns_single) by (nonlinear_arith)
            requires
                r.n == 1,
        ;
    } else {
        assert(r.n * ns_single == 0) by (nonlinear_arith)
            requires
                ns_single == 0,
        ;
    }
}

/// A benchmark goes on, with twice the iterations, until its numbers agree after a tenth of a second or
/// three seconds have passed, as long as the iterations can be counted.
pub proof fn benchmark_goes_on_until_numbers_agree(
    before: Progress,
    after: Progress,
    round: Round,
    r: bool,
)
    requires
        exists|p: &mut Progress|
            *p == before && *final(p) == after && #[trigger] call_ensures(
                Progress::advance,
                (p, &round),
                r,
            ),
    ensures
        round.converged && round.loop_run > 100_000_000 ==> !r,
        before.total_run + round.loop_run > 3_000_000_000 ==> !r,
        !round.converged && before.total_run + round.loop_run <= 3_000_000_000 && before.n * 10
            <= u64::MAX ==> r,
        round.loop_run <= 100_000_000 && before.total_run + round.loop_run <= 3_000_000_000
            && before.n * 10 <= u64::MAX ==> r,
        r ==> after.n == before.n + before.n && after.total_run == before.total_run
            + round.loop_run,
{
}

/// A benchmark is measured in rounds of which each has twice as many iterations as the one before it, and
/// its result is what the last of them came to. No round but the last came to numbers that agree after a
/// tenth of a second.
pub proof fn last_round_is_the_result<F: Fn(u64) -> Round>(
    ns_single: u64,
    measure: F,
    r: Summary,
    start: Progress,
)
    requires
        call_ensures(bench::iter::<F>, (ns_single, &measure), r),
        call_ensures(Progress::start, (ns_single,), start),
    ensures
        exists|rounds: Seq<Round>, counts: Seq<u64>|
            #![trigger rounds.last(), counts.last()]
            {
                &&& rounds.len() == counts.len()
                &&& rounds.len() > 0
                &&& r == rounds.last().summary
                &&& counts[0] == start.n
                &&& forall|i: int|
                    0 < i < counts.len() ==> #[trigger] counts[i] == counts[i - 1] + counts[i - 1]
                &&& forall|i: int|
                    0 <= i < counts.len() ==> measure.ensures((counts[i],), #[trigger] rounds[i])
                &&& forall|i: int|
                    0 <= i < rounds.len() - 1 ==> !((#[trigger] rounds[i]).converged
                        && rounds[i].loop_run > 100_000_000)
            },
{
    let rounds = choose|rounds: Seq<Round>| #[trigger]
        bench::is_bench_history(ns_single, measure, rounds) && r == rounds.last().summary;
    let counts = Seq::new(rounds.len(), |i: int| bench::iterations(ns_single, i as nat) as u64);
    assert forall|i: int| 0 <= i < counts.len() implies measure.ensures(
        (counts[i],),
        #[trigger] rounds[i],
    ) by {
        assert(bench::is_measured(ns_single, measure, rounds[i], i as nat));
    }
    assert forall|i: int| 0 < i < counts.len() implies #[trigger] counts[i] == counts[i - 1]
        + counts[i - 1] by {
        assert(bench::is_measured(ns_single, measure, rounds[i], i as nat));
        assert(bench::is_measured(ns_single, measure, rounds[i - 1], (i - 1) as nat));
        lemma_positive(ns_single, i as nat);
        lemma_positive(ns_single, (i - 1) as nat);
    }
    assert forall|i: int| 0 <= i < rounds.len() - 1 implies !((#[trigger] rounds[i]).converged
        && rounds[i].loop_run > 100_000_000) by {
        assert(bench::is_last(rounds.take(i + 1), bench::iterations(ns_single, i as nat)) <==> i
            == rounds.len() - 1);
        assert(rounds.take(i + 1).last() == rounds[i]);
    }
    assert(bench::is_measured(ns_single, measure, rounds[0], 0));
    assert(counts.last() == counts[counts.len() - 1]);
}

proof fn lemma_positive(ns_single: u64, round: nat)
    ensures
        bench::iterations(ns_single, round) >= 1,
    decreases round,
{
    if round > 0 {
        lemma_positive(ns_single, (round - 1) as nat);
    }
}

/// A dependency is known by its crate, its module and its name; parts that are empty drop out.
pub proof fn identifier_names_the_dependency(dep: RegisteredDependency, id: String)
    requires
        call_ensures(RegisteredDependency::qualified_id, (&dep,), id),
    ensures
        dep.crate_name@.len() > 0 && dep.module@.len() > 0 && dep.name@.len() > 0 ==> id@
            == dep.crate_name@ + "::"@ + dep.module@ + "::"@ + dep.name@,
        dep.crate_name@.len() > 0 && dep.module@.len() == 0 && dep.name@.len() > 0 ==> id@
            == dep.crate_name@ + "::"@ + dep.name@,
{
    internal::lemma_colons();
}

/// A dependency that travels as bytes is rebuilt with its own codec and its own function, and one that
/// does not travel so is not in the table.
pub proof fn worker_rebuilds_with_the_right_codec(
    registered: Vec<RegisteredDependency>,
    r: Vec<(String, WireCodec)>,
    x: int,
)
    requires
        call_ensures(wire::build_worker_wire_codecs, (&registered,), r),
        0 <= x < registered@.len(),
        forall|y: int|
            0 <= y < registered@.len() && y != x ==> (#[trigger] registered@[y])@.qualified_id()
                != registered@[x]@.qualified_id(),
    ensures
        ({
            let dep = registered@[x];
            let id = dep@.qualified_id();
            &&& dep.scope == DepScope::Cloneable && dep.cloneable_codec is Some && dep.worker_fn
                is Some ==> exists|j: int|
                0 <= j < r@.len() && (#[trigger] r@[j]).0@ == id && r@[j].1.codec
                    == dep.cloneable_codec->0 && r@[j].1.worker_fn == dep.worker_fn->0
            &&& dep.scope == DepScope::Hosted && dep.hosted_codec is Some && dep.worker_fn
                is Some ==> exists|j: int|
                0 <= j < r@.len() && (#[trigger] r@[j]).0@ == id && r@[j].1.codec
                    == dep.hosted_codec->0 && r@[j].1.worker_fn == dep.worker_fn->0
            &&& dep.scope != DepScope::Cloneable && dep.scope != DepScope::Hosted ==> forall|
                j: int,
            |
                0 <= j < r@.len() ==> (#[trigger] r@[j]).0@ != id
        }),
{
    let deps = internal::dependency_views(registered@);
    assert(deps[x] == registered@[x]@);
    assert forall|y: int| 0 <= y < deps.len() && y != x implies (#[trigger] deps[y]).qualified_id()
        != deps[x].qualified_id() by {
        assert(deps[y] == registered@[y]@);
    }
    lemma_codec_of(deps, x, deps.len() as int);
    assert(deps.take(deps.len() as int) =~= deps);
    table::lemma_entries_map(r@);
}

proof fn lemma_codec_of(deps: Seq<internal::DependencyModel>, x: int, n: int)
    requires
        0 <= x < deps.len(),
        0 <= n <= deps.len(),
        forall|y: int|
            0 <= y < deps.len() && y != x ==> (#[trigger] deps[y]).qualified_id()
                != deps[x].qualified_id(),
    ensures
        ({
            let table = wire::wire_codecs(deps.take(n));
            let codec = wire::wire_codec_of(deps[x]);
            let id = deps[x].qualified_id();
            &&& table.contains_key(id) <==> x < n && codec is Some
            &&& table.contains_key(id) ==> table[id] == codec->0
        }),
        ({
            let table = wire::rpc_factories(deps.take(n));
            let factory = wire::rpc_factory_of(deps[x]);
            let id = deps[x].qualified_id();
            &&& table.contains_key(id) <==> x < n && factory is Some
            &&& table.contains_key(id) ==> table[id] == factory->0
        }),
    decreases n,
{
    if n > 0 {
        assert(deps.take(n).drop_last() =~= deps.take(n - 1));
        assert(deps.take(n).last() == deps[n - 1]);
        lemma_codec_of(deps, x, n - 1);
    }
}

/// A dependency that is called remotely is called through its own factory, and any other has none.
pub proof fn calls_go_through_the_right_factory(
    registered: Vec<RegisteredDependency>,
    r: Vec<(String, RpcFactory)>,
    x: int,
)
    requires
        call_ensures(wire::build_rpc_factories, (&registered,), r),
        0 <= x < registered@.len(),
        forall|y: int|
            0 <= y < registered@.len() && y != x ==> (#[trigger] registered@[y])@.qualified_id()
                != registered@[x]@.qualified_id(),
    ensures
        ({
            let dep = registered@[x];
            let id = dep@.qualified_id();
            &&& dep.scope == DepScope::HostedRpc && dep.rpc_factory is Some ==> exists|j: int|
                0 <= j < r@.len() && (#[trigger] r@[j]).0@ == id && r@[j].1 == dep.rpc_factory->0
            &&& dep.scope != DepScope::HostedRpc ==> forall|j: int|
                0 <= j < r@.len() ==> (#[trigger] r@[j]).0@ != id
        }),
{
    let deps = internal::dependency_views(registered@);
    assert(deps[x] == registered@[x]@);
    assert forall|y: int| 0 <= y < deps.len() && y != x implies (#[trigger] deps[y]).qualified_id()
        != deps[x].qualified_id() by {
        assert(deps[y] == registered@[y]@);
    }
    lemma_codec_of(deps, x, deps.len() as int);
    assert(deps.take(deps.len() as int) =~= deps);
    table::lemma_entries_map(r@);
}

} // verus!
