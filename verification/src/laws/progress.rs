//! What is told while a run goes on, and what its document counts.
use super::reporting::word_for;
use super::words::{holds, lemma_holds, lemma_holds_inside};
use crate::args::{Arguments, ColorSetting, FormatSetting, TimeThreshold};
use crate::internal::RegisteredTest;
use crate::output::ctrf;
use crate::output::ctrf::{CtrfModel, CtrfStatus, CtrfTest};
use crate::output::progress;
use crate::output::progress::StderrProgress;
use crate::output::select;
use crate::output::select::OutputKind;
use crate::output::style;
use crate::output::term_progress;
use crate::output::term_progress::{TermProgress, Terminal};
use crate::results::TestResult;
use crate::text;
use vstd::prelude::*;

verus! {

/// How many of the entries have this status.
pub open spec fn number_of(tests: Seq<CtrfTest>, status: CtrfStatus) -> nat
    decreases tests.len(),
{
    if tests.len() == 0 {
        0
    } else {
        number_of(tests.drop_last(), status) + (if tests.last().status == status {
            1nat
        } else {
            0
        })
    }
}

proof fn lemma_number_of(tests: Seq<CtrfTest>, status: CtrfStatus)
    ensures
        number_of(tests, status) == ctrf::count(ctrf::entry_views(tests), status),
        number_of(tests, status) <= tests.len(),
    decreases tests.len(),
{
    reveal(Seq::filter);
    let all = ctrf::entry_views(tests);
    if tests.len() > 0 {
        lemma_number_of(tests.drop_last(), status);
        assert(all.drop_last() =~= ctrf::entry_views(tests.drop_last()));
    }
}

/// The document counts the tests that failed, passed and were skipped, and all of them.
#[verifier::rlimit(40)]
pub proof fn document_counts_the_tests(
    tests: Vec<CtrfTest>,
    start: u64,
    stop: u64,
    timestamp: &str,
    r: String,
    failed: String,
    passed: String,
    skipped: String,
    count: String,
)
    requires
        call_ensures(ctrf::show_report, (&tests, start, stop, timestamp), r),
        call_ensures(
            text::decimal_u64,
            (number_of(tests@, CtrfStatus::Failed) as u64,),
            failed,
        ),
        call_ensures(
            text::decimal_u64,
            (number_of(tests@, CtrfStatus::Passed) as u64,),
            passed,
        ),
        call_ensures(
            text::decimal_u64,
            (number_of(tests@, CtrfStatus::Skipped) as u64,),
            skipped,
        ),
        call_ensures(text::decimal_u64, (tests@.len() as u64,), count),
    ensures
        holds(
            r@,
            "{\"failed\":"@ + failed@ + ",\"other\":0,\"passed\":"@ + passed@
                + ",\"pending\":0,\"skipped\":"@ + skipped@ + ",\"start\":"@,
        ),
        holds(r@, ",\"tests\":"@ + count@ + "}"@),
{
    let all = ctrf::entry_views(tests@);
    assert(tests.len() <= usize::MAX);
    lemma_number_of(tests@, CtrfStatus::Failed);
    lemma_number_of(tests@, CtrfStatus::Passed);
    lemma_number_of(tests@, CtrfStatus::Skipped);
    let summary = ctrf::summary_json(all, start, stop);
    let key = ",\"start\":"@;
    let told = ctrf::summary_head(all) + key;
    let middle = text::decimal(start as nat) + ",\"stop\":"@ + text::decimal(stop as nat)
        + ctrf::suites_part(all);
    let end = ",\"tests\":"@ + text::decimal(tests@.len()) + "}"@;
    assert(summary =~= Seq::<char>::empty() + told + (middle + end));
    lemma_holds(summary, Seq::empty(), told, middle + end);
    assert(summary =~= (told + middle) + end + Seq::empty());
    lemma_holds(summary, told + middle, end, Seq::empty());
    let before = "{\"generatedBy\":"@ + crate::output::json::string("test-r"@)
        + ",\"reportFormat\":"@ + crate::output::json::string("CTRF"@)
        + ",\"results\":{\"summary\":"@;
    let head = ctrf::report_head(all, start, stop);
    let behind = ",\"tests\":["@ + ctrf::entries_json(all);
    assert(head =~= before + summary + behind);
    lemma_holds_inside(head, before, summary, behind, told);
    lemma_holds_inside(head, before, summary, behind, end);
    let tail = "],\"tool\":{\"name\":"@ + crate::output::json::string("ctrf-rs"@)
        + "}},\"specVersion\":"@ + crate::output::json::string("0.0.0"@) + ",\"timestamp\":"@
        + crate::output::json::string(timestamp@) + "}\n"@;
    lemma_tail(head, timestamp@, r@, tail);
    lemma_holds_inside(r@, Seq::empty(), head, tail, told);
    lemma_holds_inside(r@, Seq::empty(), head, tail, end);
}

proof fn lemma_tail(head: Seq<char>, timestamp: Seq<char>, whole: Seq<char>, tail: Seq<char>)
    requires
        whole == head + "],\"tool\":{\"name\":"@ + crate::output::json::string("ctrf-rs"@)
            + "}},\"specVersion\":"@ + crate::output::json::string("0.0.0"@) + ",\"timestamp\":"@
            + crate::output::json::string(timestamp) + "}\n"@,
        tail == "],\"tool\":{\"name\":"@ + crate::output::json::string("ctrf-rs"@)
            + "}},\"specVersion\":"@ + crate::output::json::string("0.0.0"@) + ",\"timestamp\":"@
            + crate::output::json::string(timestamp) + "}\n"@,
    ensures
        whole == Seq::<char>::empty() + head + tail,
{
    assert(whole =~= Seq::<char>::empty() + head + tail);
}

/// The document has an entry for every test, which tells its name and how it ended.
pub proof fn document_tells_the_outcome(
    tests: Vec<CtrfTest>,
    start: u64,
    stop: u64,
    timestamp: &str,
    r: String,
    i: int,
)
    requires
        call_ensures(ctrf::show_report, (&tests, start, stop, timestamp), r),
        0 <= i < tests@.len(),
    ensures
        holds(r@, ctrf::entry_json(tests@[i]@)),
        holds(
            ctrf::entry_json(tests@[i]@),
            ",\"name\":\""@ + crate::output::json::escaped(tests@[i].name@) + "\""@,
        ),
        tests@[i].status == CtrfStatus::Failed ==> holds(
            ctrf::entry_json(tests@[i]@),
            ",\"status\":\"failed\""@,
        ),
        tests@[i].status == CtrfStatus::Passed ==> holds(
            ctrf::entry_json(tests@[i]@),
            ",\"status\":\"passed\""@,
        ),
        tests@[i].status == CtrfStatus::Skipped ==> holds(
            ctrf::entry_json(tests@[i]@),
            ",\"status\":\"skipped\""@,
        ),
{
    let all = ctrf::entry_views(tests@);
    let entry = ctrf::entry_json(tests@[i]@);
    let texts = Seq::new(all.len(), |i: int| ctrf::entry_json(all[i]));
    assert(texts[i] == entry);
    lemma_joined_has(texts, ","@, i);
    let before = "{\"generatedBy\":"@ + crate::output::json::string("test-r"@)
        + ",\"reportFormat\":"@ + crate::output::json::string("CTRF"@)
        + ",\"results\":{\"summary\":"@ + ctrf::summary_json(all, start, stop) + ",\"tests\":["@;
    let head = ctrf::report_head(all, start, stop);
    assert(head =~= before + ctrf::entries_json(all) + Seq::empty());
    lemma_holds_inside(head, before, ctrf::entries_json(all), Seq::empty(), entry);
    let tail = "],\"tool\":{\"name\":"@ + crate::output::json::string("ctrf-rs"@)
        + "}},\"specVersion\":"@ + crate::output::json::string("0.0.0"@) + ",\"timestamp\":"@
        + crate::output::json::string(timestamp@) + "}\n"@;
    lemma_tail(head, timestamp@, r@, tail);
    lemma_holds_inside(r@, Seq::empty(), head, tail, entry);
    lemma_entry_names(tests@[i]@);
    lemma_entry_status(tests@[i]@);
}

proof fn lemma_joined_has(parts: Seq<Seq<char>>, sep: Seq<char>, i: int)
    requires
        0 <= i < parts.len(),
    ensures
        holds(text::joined(parts, sep), parts[i]),
    decreases parts.len(),
{
    let whole = text::joined(parts, sep);
    if parts.len() == 1 {
        assert(whole =~= Seq::<char>::empty() + parts[i] + Seq::empty());
        lemma_holds(whole, Seq::empty(), parts[i], Seq::empty());
    } else {
        let init = parts.drop_last();
        let before = text::joined(init, sep);
        if i == parts.len() - 1 {
            assert(whole =~= (before + sep) + parts[i] + Seq::empty());
            lemma_holds(whole, before + sep, parts[i], Seq::empty());
        } else {
            assert(init[i] == parts[i]);
            lemma_joined_has(init, sep, i);
            let rest = sep + parts.last();
            assert(whole =~= Seq::<char>::empty() + before + rest);
            lemma_holds_inside(whole, Seq::empty(), before, rest, parts[i]);
        }
    }
}

proof fn lemma_field(key: &str, value: Seq<char>, shown: Seq<char>)
    requires
        forall|i: int|
            0 <= i < key@.len() ==> (#[trigger] key@[i]) != '"' && key@[i] != '\\' && key@[i] as u32
                >= 32,
        shown == ","@ + ("\""@ + key@ + "\""@) + ":"@ + value,
    ensures
        ctrf::field(key@, Some(value)) == shown,
{
    super::reporting::plain_text_is_not_escaped(key@);
}

proof fn lemma_entry_names(test: CtrfModel)
    ensures
        holds(
            ctrf::entry_json(test),
            ",\"name\":\""@ + crate::output::json::escaped(test.name) + "\""@,
        ),
{
    reveal_strlit("name");
    reveal_strlit(",");
    reveal_strlit("\"");
    reveal_strlit(":");
    reveal_strlit(",\"name\":\"");
    let value = crate::output::json::string(test.name);
    let shown = ","@ + ("\""@ + "name"@ + "\""@) + ":"@ + value;
    lemma_field("name", value, shown);
    let told = ",\"name\":\""@ + crate::output::json::escaped(test.name) + "\""@;
    assert(shown =~= told);
    let head = ctrf::entry_head(test);
    let before = "{\"duration\":"@ + text::decimal((test.duration / 1_000_000) as nat)
        + ctrf::field(
        "flaky"@,
        match test.flaky {
            Some(true) => Some("true"@),
            Some(false) => Some("false"@),
            None => None,
        },
    ) + ctrf::field(
        "message"@,
        match test.message {
            Some(message) => Some(crate::output::json::string(message)),
            None => None,
        },
    );
    let retries = ctrf::field(
        "retries"@,
        match test.retries {
            Some(n) => Some(text::decimal(n as nat)),
            None => None,
        },
    );
    assert(head == before + told + retries);
    lemma_holds(head, before, told, retries);
    lemma_head_stands_in_entry(test, told);
}

proof fn lemma_head_stands_in_entry(test: CtrfModel, told: Seq<char>)
    requires
        holds(ctrf::entry_head(test), told),
    ensures
        holds(ctrf::entry_json(test), told),
{
    let head = ctrf::entry_head(test);
    let all = ctrf::entry_json(test);
    let n = head.len() as int;
    assert(all.len() >= n);
    assert(all.take(n) =~= head);
    assert(all =~= Seq::<char>::empty() + head + all.skip(n));
    lemma_holds_inside(all, Seq::empty(), head, all.skip(n), told);
}

proof fn lemma_entry_status(test: CtrfModel)
    ensures
        test.status == CtrfStatus::Failed ==> holds(
            ctrf::entry_json(test),
            ",\"status\":\"failed\""@,
        ),
        test.status == CtrfStatus::Passed ==> holds(
            ctrf::entry_json(test),
            ",\"status\":\"passed\""@,
        ),
        test.status == CtrfStatus::Skipped ==> holds(
            ctrf::entry_json(test),
            ",\"status\":\"skipped\""@,
        ),
{
    reveal_strlit("status");
    reveal_strlit("failed");
    reveal_strlit("passed");
    reveal_strlit("skipped");
    reveal_strlit(",");
    reveal_strlit("\"");
    reveal_strlit(":");
    reveal_strlit(",\"status\":\"failed\"");
    reveal_strlit(",\"status\":\"passed\"");
    reveal_strlit(",\"status\":\"skipped\"");
    super::reporting::plain_text_is_not_escaped("failed"@);
    super::reporting::plain_text_is_not_escaped("passed"@);
    super::reporting::plain_text_is_not_escaped("skipped"@);
    let value = crate::output::json::string(ctrf::status_word(test.status));
    let shown = ","@ + ("\""@ + "status"@ + "\""@) + ":"@ + value;
    lemma_field("status", value, shown);
    let told = match test.status {
        CtrfStatus::Failed => ",\"status\":\"failed\""@,
        CtrfStatus::Passed => ",\"status\":\"passed\""@,
        CtrfStatus::Skipped => ",\"status\":\"skipped\""@,
    };
    assert(shown =~= told);
    let head = ctrf::entry_head(test);
    let a = ctrf::field("start"@, ctrf::number_json(test.start));
    let c = ctrf::field("stderr"@, ctrf::lines_json(test.stderr));
    let d = ctrf::field("stdout"@, ctrf::lines_json(test.stdout));
    let e = ctrf::field("stop"@, ctrf::number_json(test.stop));
    let f = ctrf::field("suite"@, Some(crate::output::json::string(test.suite)));
    let rest = c + d + e + f + "}"@;
    let all = ctrf::entry_json(test);
    assert(all == head + a + told + c + d + e + f + "}"@);
    assert(all =~= (head + a) + told + rest);
    lemma_holds(all, head + a, told, rest);
}

/// Progress lines tell which test it is and how it ended: results of different kinds are told by
/// different lines.
pub proof fn progress_tells_the_outcome(
    report: StderrProgress,
    test: RegisteredTest,
    idx: usize,
    count: usize,
    result: TestResult,
    name: String,
    started: String,
    r: String,
)
    requires
        call_ensures(RegisteredTest::fully_qualified_name, (&test,), name),
        call_ensures(StderrProgress::start_running_test, (&report, &test, idx, count), started),
        call_ensures(
            StderrProgress::finished_running_test,
            (&report, &test, idx, count, &result),
            r,
        ),
    ensures
        exists|index: Seq<char>, told: Seq<char>|
            #![auto]
            {
                &&& started@ == index + " Running test: "@ + name@
                &&& r@ == index + " Finished test: "@ + name@ + " "@ + told
                &&& holds(told, word_for(result))
                &&& told.len() <= 2 + word_for(result).len() + 14
            },
{
    let index = progress::index_part(report.index_field_length as nat, idx as nat, count as nat);
    let told = progress::status(result@.outcome);
    let paint = match result {
        TestResult::Passed { .. } => style::spec_style_ok(),
        TestResult::Benchmarked { .. } => style::spec_style_bench(),
        TestResult::Failed { .. } => style::spec_style_failed(),
        TestResult::Ignored { .. } => style::spec_style_ignored(),
    };
    reveal_strlit("[");
    reveal_strlit("]");
    reveal_strlit("\u{1b}[0m");
    reveal_strlit("\u{1b}[1m");
    reveal_strlit("\u{1b}[2m");
    reveal_strlit("\u{1b}[3");
    reveal_strlit("\u{1b}[9");
    reveal_strlit("m");
    let a = "["@ + paint.on();
    let b = style::off() + "]"@;
    assert(told =~= a + word_for(result) + b);
    lemma_holds(told, a, word_for(result), b);
    assert(started@ == index + " Running test: "@ + name@);
    assert(r@ == index + " Finished test: "@ + name@ + " "@ + told);
}

/// The title bar tells that a run has failures from the first one on, and nothing where the terminal
/// cannot show it.
pub proof fn title_bar_tells_failures(
    before: TermProgress,
    after: TermProgress,
    percent: &str,
    x: Option<String>,
    y: Option<String>,
    z: Option<String>,
)
    requires
        exists|bar: &mut TermProgress|
            *bar == before && *final(bar) == after && #[trigger] call_ensures(
                TermProgress::mark_failure,
                (bar,),
                (),
            ),
        !before.has_failure,
        call_ensures(TermProgress::update, (&before, percent), x),
        call_ensures(TermProgress::update, (&after, percent), y),
        call_ensures(TermProgress::clear, (&after,), z),
    ensures
        x is Some <==> before.enabled,
        y is Some <==> before.enabled,
        z is Some <==> before.enabled,
        before.enabled ==> x->0@ != y->0@ && holds(x->0@, ";"@ + percent@) && holds(
            y->0@,
            ";"@ + percent@,
        ),
{
    reveal_strlit("\u{1b}]9;4;");
    reveal_strlit("1");
    reveal_strlit("2");
    if before.enabled {
        let start = "\u{1b}]9;4;"@;
        assert(x->0@[6] == "1"@[0]);
        assert(y->0@[6] == "2"@[0]);
        let told = ";"@ + percent@;
        assert(x->0@ =~= (start + "1"@) + told + "\u{1b}\\"@);
        lemma_holds(x->0@, start + "1"@, told, "\u{1b}\\"@);
        assert(y->0@ =~= (start + "2"@) + told + "\u{1b}\\"@);
        lemma_holds(y->0@, start + "2"@, told, "\u{1b}\\"@);
    }
}

/// Without a terminal no progress is shown in its title bar, and a terminal of which nothing is known
/// shows none.
pub proof fn unknown_terminal_shows_no_progress(terminal: Terminal, r: bool)
    requires
        call_ensures(term_progress::supports_osc_9_4, (&terminal,), r),
    ensures
        !terminal.is_terminal ==> !r,
        !terminal.windows_terminal && terminal.conemu_ansi is None && terminal.term_program is None
            ==> !r,
        terminal.is_terminal && terminal.windows_terminal ==> r,
        terminal.is_terminal && terminal.term_program is Some && terminal.term_program->0@
            == "ghostty"@ ==> r,
        terminal.is_terminal && terminal.term_program is Some && terminal.term_program->0@
            == "WezTerm"@ ==> r,
{
}

/// A worker process writes no report; the others write the one that is asked for, and the one for people
/// where none is.
pub proof fn asked_report_is_written(
    args: Arguments,
    unit: Option<TimeThreshold>,
    integration: Option<TimeThreshold>,
    r: OutputKind,
    to_file: bool,
)
    requires
        call_ensures(select::test_runner_output, (&args, unit, integration), r),
        call_ensures(select::uses_log_file, (&r,), to_file),
    ensures
        args.ipc is Some <==> r is IpcWorker,
        args.ipc is None && args.quiet ==> r is Terse,
        args.ipc is None && !args.quiet ==> {
            &&& args.format == Some(FormatSetting::Json) <==> r is Json
            &&& args.format == Some(FormatSetting::Junit) <==> r is JUnit
            &&& args.format == Some(FormatSetting::Ctrf) <==> r is Ctrf
            &&& args.format == Some(FormatSetting::Terse) <==> r is Terse
            &&& args.format is None || args.format == Some(FormatSetting::Pretty) <==> r is Pretty
        },
        r matches OutputKind::Pretty { show_output, report_time, color, .. } ==> show_output
            == args.show_output && report_time == args.report_time && (args.color matches Some(c)
            ==> color == c) && (args.color is None ==> color == ColorSetting::Auto),
        r matches OutputKind::Json { show_output } ==> show_output == args.show_output,
        r matches OutputKind::JUnit { show_output } ==> show_output == args.show_output,
        r matches OutputKind::Ctrf { show_output } ==> show_output == args.show_output,
        to_file <==> !(r is IpcWorker) && !(r is Terse),
{
}

} // verus!
