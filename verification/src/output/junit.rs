//! The JUnit report.
use super::lines;
use super::lines::{collect_stderr, collect_stdout, show_seconds};
use super::pretty;
use crate::internal;
use crate::internal::{RegisteredTest, TestModel};
use crate::results;
use crate::results::{CapturedOutput, Outcome, ResultModel, SuiteResult, TestResult};
use crate::text;
use crate::text::{concat, decimal_u64, join};
use quick_xml::events::{BytesCData, BytesDecl, BytesEnd, BytesStart, Event};
use quick_xml::Writer;
use vstd::prelude::*;

verus! {

/// An attribute of an element: its name and its value.
pub type Attr = (Seq<char>, Seq<char>);

/// A part of an XML document.
pub enum XmlEvent {
    /// The declaration, with version and encoding
    Decl(Seq<char>, Seq<char>),
    /// The start of an element with content
    Start(Seq<char>, Seq<Attr>),
    /// An element without content
    Empty(Seq<char>, Seq<Attr>),
    /// The end of an element with content
    End(Seq<char>),
    /// Text that stands as it is
    CData(Seq<char>),
}

/// A writer of XML documents.
#[verifier::external_type_specification]
#[verifier::external_body]
#[verifier::reject_recursive_types(W)]
pub struct ExXmlWriter<W>(quick_xml::Writer<W>);

/// The parts that were given to a writer, in order.
pub uninterp spec fn written(writer: quick_xml::Writer<Vec<u8>>) -> Seq<XmlEvent>;

/// The character and the number of characters by which a writer indents each level.
pub uninterp spec fn layout(writer: quick_xml::Writer<Vec<u8>>) -> (u8, nat);

/// The text that a writer with this layout makes of the parts.
pub uninterp spec fn xml_text(layout: (u8, nat), events: Seq<XmlEvent>) -> Seq<char>;

/// The attributes.
pub open spec fn attrs(attributes: Seq<(String, String)>) -> Seq<Attr> {
    Seq::new(attributes.len(), |i: int| (attributes[i].0@, attributes[i].1@))
}

/// The writer indents by single bytes. It cuts its indentation out of a string by bytes, which
/// fails inside a longer character.
pub open spec fn indents_bytes(writer: quick_xml::Writer<Vec<u8>>) -> bool {
    layout(writer).0 < 128
}

/// `quick_xml::Writer::new_with_indent`: a writer with this layout to which nothing was given.
#[verifier::external_body]
fn new_writer(indent_char: u8, indent_size: usize) -> (r: Writer<Vec<u8>>)
    ensures
        written(r) == Seq::<XmlEvent>::empty(),
        layout(r) == (indent_char, indent_size as nat),
{
    Writer::new_with_indent(Vec::new(), indent_char, indent_size)
}

/// `quick_xml::Writer::write_event` with a declaration. Writing to memory does not fail.
#[verifier::external_body]
fn write_decl(writer: &mut Writer<Vec<u8>>, version: &str, encoding: &str)
    requires
        indents_bytes(*old(writer)),
    ensures
        written(*final(writer)) == written(*old(writer)).push(
            XmlEvent::Decl(version@, encoding@),
        ),
        layout(*final(writer)) == layout(*old(writer)),
{
    let event = Event::Decl(BytesDecl::new(version, Some(encoding), None));
    writer.write_event(event).expect("writing to memory failed");
}

/// `quick_xml::Writer::write_event` with the start of an element. Writing to memory does not fail.
#[verifier::external_body]
fn write_start(writer: &mut Writer<Vec<u8>>, name: &str, attributes: &Vec<(String, String)>)
    requires
        indents_bytes(*old(writer)),
    ensures
        written(*final(writer)) == written(*old(writer)).push(
            XmlEvent::Start(name@, attrs(attributes@)),
        ),
        layout(*final(writer)) == layout(*old(writer)),
{
    let pairs = attributes.iter().map(|a| (a.0.as_str(), a.1.as_str()));
    let event = Event::Start(BytesStart::new(name).with_attributes(pairs));
    writer.write_event(event).expect("writing to memory failed");
}

/// `quick_xml::Writer::write_event` with an element without content. Writing to memory does not
/// fail.
#[verifier::external_body]
fn write_empty(writer: &mut Writer<Vec<u8>>, name: &str, attributes: &Vec<(String, String)>)
    requires
        indents_bytes(*old(writer)),
    ensures
        written(*final(writer)) == written(*old(writer)).push(
            XmlEvent::Empty(name@, attrs(attributes@)),
        ),
        layout(*final(writer)) == layout(*old(writer)),
{
    let pairs = attributes.iter().map(|a| (a.0.as_str(), a.1.as_str()));
    let event = Event::Empty(BytesStart::new(name).with_attributes(pairs));
    writer.write_event(event).expect("writing to memory failed");
}

/// `quick_xml::Writer::write_event` with the end of an element. Writing to memory does not fail.
#[verifier::external_body]
fn write_end(writer: &mut Writer<Vec<u8>>, name: &str)
    requires
        indents_bytes(*old(writer)),
    ensures
        written(*final(writer)) == written(*old(writer)).push(XmlEvent::End(name@)),
        layout(*final(writer)) == layout(*old(writer)),
{
    let event = Event::End(BytesEnd::new(name));
    writer.write_event(event).expect("writing to memory failed");
}

/// The text ends with the two brackets that begin the end of a section.
pub open spec fn ends_in_brackets(s: Seq<char>) -> bool {
    s.len() >= 2 && s[s.len() - 1] == ']' && s[s.len() - 2] == ']'
}

/// The sections into which a text is divided that is to stand as it is. A section begins at each
/// `>` that would end the section before it.
pub open spec fn sections(s: Seq<char>) -> Seq<Seq<char>>
    decreases s.len(),
{
    if s.len() == 0 {
        seq![Seq::empty()]
    } else {
        let before = sections(s.drop_last());
        if s.last() == '>' && ends_in_brackets(before.last()) {
            before.push(seq!['>'])
        } else {
            before.drop_last().push(before.last().push(s.last()))
        }
    }
}

/// `quick_xml::events::BytesCData::escaped`: the text, divided before each `>` that follows two
/// closing brackets.
#[verifier::external_body]
fn cdata_sections(content: &str) -> (r: Vec<String>)
    ensures
        text::views(r@) == sections(content@),
{
    BytesCData::escaped(content).map(|section| section.into_inner().into_owned()).collect()
}

/// `quick_xml::Writer::write_event` with text that stands as it is. The text must not hold what
/// ends it. Writing to memory does not fail.
#[verifier::external_body]
fn write_cdata(writer: &mut Writer<Vec<u8>>, content: &str)
    requires
        !text::has_substring(content@, "]]>"@),
    ensures
        written(*final(writer)) == written(*old(writer)).push(XmlEvent::CData(content@)),
        layout(*final(writer)) == layout(*old(writer)),
{
    let event = Event::CData(BytesCData::new(content));
    writer.write_event(event).expect("writing to memory failed");
}

/// `quick_xml::Writer::get_ref`: what was written so far. It depends on the layout and on the parts
/// that were given to the writer alone.
#[verifier::external_body]
fn written_text(writer: &Writer<Vec<u8>>) -> (r: String)
    ensures
        r@ == xml_text(layout(*writer), written(*writer)),
{
    String::from_utf8_lossy(writer.get_ref()).into_owned()
}

/// An element with nothing but text that stands as it is.
pub open spec fn text_element(name: Seq<char>, content: Seq<char>) -> Seq<XmlEvent> {
    seq![XmlEvent::Start(name, Seq::empty())] + cdata_events(sections(content)) + seq![
        XmlEvent::End(name),
    ]
}

/// An event for each section.
pub open spec fn cdata_events(sections: Seq<Seq<char>>) -> Seq<XmlEvent> {
    Seq::new(sections.len(), |i: int| XmlEvent::CData(sections[i]))
}

/// Text that stands as it is never ends its own section, and its sections are the whole text.
pub proof fn sections_keep_the_text(s: Seq<char>)
    ensures
        sections(s).len() > 0,
        forall|i: int|
            0 <= i < sections(s).len() ==> !text::has_substring(
                #[trigger] sections(s)[i],
                "]]>"@,
            ),
        text::joined(sections(s), Seq::empty()) == s,
    decreases s.len(),
{
    reveal_strlit("]]>");
    let parts = sections(s);
    if s.len() == 0 {
        assert forall|i: int| !text::occurs_at(Seq::empty(), "]]>"@, i) by {}
    } else {
        let init = s.drop_last();
        let before = sections(init);
        let c = s.last();
        sections_keep_the_text(init);
        let last = before.last();
        assert(before[before.len() - 1] == last);
        assert(init.push(c) =~= s);
        if c == '>' && ends_in_brackets(last) {
            assert forall|i: int| 0 <= i < parts.len() implies !text::has_substring(
                #[trigger] parts[i],
                "]]>"@,
            ) by {
                if i < before.len() {
                    assert(parts[i] == before[i]);
                }
            }
            assert(parts.drop_last() =~= before);
            assert(text::joined(parts, Seq::empty()) =~= text::joined(before, Seq::empty()).push(
                '>',
            ));
        } else {
            let longer = last.push(c);
            assert forall|i: int| !text::occurs_at(longer, "]]>"@, i) by {
                if text::occurs_at(longer, "]]>"@, i) {
                    let found = longer.subrange(i, i + 3);
                    assert(found[0] == longer[i] && found[1] == longer[i + 1] && found[2]
                        == longer[i + 2]);
                    if i + 3 <= last.len() {
                        assert(last.subrange(i, i + 3) =~= found);
                        assert(text::occurs_at(last, "]]>"@, i));
                    }
                }
            }
            assert forall|i: int| 0 <= i < parts.len() implies !text::has_substring(
                #[trigger] parts[i],
                "]]>"@,
            ) by {
                if i < parts.len() - 1 {
                    assert(parts[i] == before[i]);
                }
            }
            assert(parts.drop_last() =~= before.drop_last());
            reveal_with_fuel(text::joined, 2);
            assert(text::joined(parts, Seq::empty()) =~= text::joined(before, Seq::empty()).push(
                c,
            ));
        }
    }
}

/// What was captured of a test.
pub open spec fn captured_events(captured: Seq<CapturedOutput>) -> Seq<XmlEvent> {
    text_element("system-out"@, text::joined(lines::stdout_lines(captured), "\n"@))
        + text_element("system-err"@, text::joined(lines::stderr_lines(captured), "\n"@))
}

/// The class of a test: its crate and module.
pub open spec fn class_name(test: TestModel, outcome: Outcome) -> Seq<char> {
    if outcome is Benchmarked {
        "benchmark::"@ + test.crate_and_module()
    } else {
        test.crate_and_module()
    }
}

/// The attributes of a test case.
pub open spec fn case_attrs(test: TestModel, outcome: Outcome, exec_time: u64) -> Seq<Attr> {
    seq![
        ("name"@, test.name),
        ("classname"@, class_name(test, outcome)),
        ("time"@, lines::seconds_shown(exec_time)),
    ]
}

/// A test that did not fail: with what was captured of it, if that is to be shown.
pub open spec fn passed_case(
    show_output: bool,
    test: TestModel,
    result: ResultModel,
    exec_time: u64,
) -> Seq<XmlEvent> {
    let attributes = case_attrs(test, result.outcome, exec_time);
    if result.captured.len() == 0 || !show_output {
        seq![XmlEvent::Empty("testcase"@, attributes)]
    } else {
        seq![XmlEvent::Start("testcase"@, attributes)] + captured_events(result.captured)
            + seq![XmlEvent::End("testcase"@)]
    }
}

/// A test that failed: with its failure and what was captured of it.
pub open spec fn failed_case(
    test: TestModel,
    result: ResultModel,
    message: Seq<char>,
    exec_time: u64,
) -> Seq<XmlEvent> {
    seq![
        XmlEvent::Start("testcase"@, case_attrs(test, result.outcome, exec_time)),
        XmlEvent::Empty("failure"@, seq![("type"@, "assert"@), ("message"@, message)]),
    ] + (if result.captured.len() == 0 {
        Seq::empty()
    } else {
        captured_events(result.captured)
    }) + seq![XmlEvent::End("testcase"@)]
}

/// The test case for a result. Ignored tests have none.
pub open spec fn case_events(show_output: bool, test: TestModel, result: ResultModel) -> Seq<
    XmlEvent,
> {
    match result.outcome {
        Outcome::Passed { exec_time } => passed_case(show_output, test, result, exec_time),
        Outcome::Benchmarked { exec_time, .. } => passed_case(
            show_output,
            test,
            result,
            exec_time,
        ),
        Outcome::Failed { cause, exec_time } => failed_case(
            test,
            result,
            cause.rendered(),
            exec_time,
        ),
        Outcome::Ignored => Seq::empty(),
    }
}

/// The test cases for the results.
pub open spec fn cases(show_output: bool, results: Seq<(TestModel, ResultModel)>) -> Seq<XmlEvent>
    decreases results.len(),
{
    if results.len() == 0 {
        Seq::empty()
    } else {
        cases(show_output, results.drop_last()) + case_events(
            show_output,
            results.last().0,
            results.last().1,
        )
    }
}

/// The attributes of the test suite.
pub open spec fn suite_attrs(failed: nat, tests: nat, ignored: nat, exec_time: u64) -> Seq<Attr> {
    seq![
        ("name"@, "test"@),
        ("package"@, "test1"@),
        ("id"@, "0"@),
        ("errors"@, "0"@),
        ("failures"@, text::decimal(failed)),
        ("tests"@, text::decimal(tests)),
        ("skipped"@, text::decimal(ignored)),
        ("time"@, lines::seconds_shown(exec_time)),
    ]
}

/// What is written at the end of a run.
pub open spec fn report_events(
    show_output: bool,
    results: Seq<(TestModel, ResultModel)>,
    totals: results::Totals,
    tests: nat,
    exec_time: u64,
) -> Seq<XmlEvent> {
    seq![
        XmlEvent::Start("testsuites"@, seq![("time"@, lines::seconds_shown(exec_time))]),
        XmlEvent::Start(
            "testsuite"@,
            suite_attrs(totals.failed, tests, totals.ignored, exec_time),
        ),
    ] + cases(show_output, results) + seq![XmlEvent::End("testsuite"@), XmlEvent::End("testsuites"@)]
}

/// The declaration of the document.
pub open spec fn declaration() -> XmlEvent {
    XmlEvent::Decl("1.0"@, "UTF-8"@)
}

/// A test in a list of tests.
pub open spec fn listed_case(test: TestModel) -> XmlEvent {
    XmlEvent::Empty(
        "testcase"@,
        seq![("name"@, test.name), ("classname"@, test.crate_and_module())],
    )
}

/// What is written for a list of tests.
pub open spec fn list_events(tests: Seq<TestModel>) -> Seq<XmlEvent> {
    seq![
        declaration(),
        XmlEvent::Start("testsuites"@, Seq::empty()),
        XmlEvent::Start(
            "testsuite"@,
            seq![("name"@, "test"@), ("package"@, "test1"@), ("id"@, "0"@)],
        ),
    ] + Seq::new(tests.len(), |i: int| listed_case(tests[i])) + seq![
        XmlEvent::End("testsuite"@),
        XmlEvent::End("testsuites"@),
    ]
}

fn attribute(name: &str, value: &str) -> (r: (String, String))
    ensures
        r.0@ == name@,
        r.1@ == value@,
{
    (name.to_owned(), value.to_owned())
}

/// Writes the JUnit report.
pub struct JUnit {
    pub writer: Writer<Vec<u8>>,
    /// What passing tests wrote is shown
    pub show_output: bool,
}

impl JUnit {
    pub open spec fn wf(self) -> bool {
        indents_bytes(self.writer)
    }

    pub fn new(show_output: bool) -> (r: Self)
        ensures
            r.wf(),
            written(r.writer) == Seq::<XmlEvent>::empty(),
            layout(r.writer) == (32u8, 4nat),
            r.show_output == show_output,
    {
        JUnit { writer: new_writer(32, 4), show_output }
    }

    /// The text of everything that was written.
    pub fn text(&self) -> (r: String)
        ensures
            r@ == xml_text(layout(self.writer), written(self.writer)),
    {
        written_text(&self.writer)
    }

    pub fn start_suite(&mut self)
        requires
            old(self).wf(),
        ensures
            final(self).wf(),
            written(final(self).writer) == written(old(self).writer).push(declaration()),
            layout(final(self).writer) == layout(old(self).writer),
            final(self).show_output == old(self).show_output,
    {
        write_decl(&mut self.writer, "1.0", "UTF-8");
    }

    fn write_text_element(&mut self, name: &str, content: &str)
        requires
            old(self).wf(),
        ensures
            final(self).wf(),
            written(final(self).writer) == written(old(self).writer) + text_element(
                name@,
                content@,
            ),
            layout(final(self).writer) == layout(old(self).writer),
            final(self).show_output == old(self).show_output,
    {
        let none: Vec<(String, String)> = Vec::new();
        assert(attrs(none@) =~= Seq::empty());
        let ghost before = written(self.writer);
        write_start(&mut self.writer, name, &none);
        let parts = cdata_sections(content);
        let ghost begun = written(self.writer);
        let ghost all = sections(content@);
        proof {
            sections_keep_the_text(content@);
            assert(cdata_events(all.take(0)) =~= Seq::empty());
        }
        let mut i: usize = 0;
        while i < parts.len()
            invariant
                i <= parts.len(),
                text::views(parts@) == all,
                forall|k: int|
                    0 <= k < all.len() ==> !text::has_substring(#[trigger] all[k], "]]>"@),
                self.wf(),
                written(self.writer) == begun + cdata_events(all.take(i as int)),
                layout(self.writer) == layout(old(self).writer),
                self.show_output == old(self).show_output,
            decreases parts.len() - i,
        {
            assert(all[i as int] == parts@[i as int]@);
            write_cdata(&mut self.writer, parts[i].as_str());
            i = i + 1;
            assert(written(self.writer) =~= begun + cdata_events(all.take(i as int)));
        }
        assert(all.take(i as int) =~= all);
        write_end(&mut self.writer, name);
        assert(written(self.writer) =~= before + text_element(name@, content@));
    }

    fn write_captured(&mut self, captured: &Vec<CapturedOutput>)
        requires
            old(self).wf(),
        ensures
            final(self).wf(),
            written(final(self).writer) == written(old(self).writer) + captured_events(captured@),
            layout(final(self).writer) == layout(old(self).writer),
            final(self).show_output == old(self).show_output,
    {
        let ghost before = written(self.writer);
        let out = join(&collect_stdout(captured), "\n");
        let err = join(&collect_stderr(captured), "\n");
        self.write_text_element("system-out", out.as_str());
        self.write_text_element("system-err", err.as_str());
        assert(written(self.writer) =~= before + captured_events(captured@));
    }

    fn case_attributes(test: &RegisteredTest, result: &TestResult, exec_time: u64) -> (r: Vec<
        (String, String),
    >)
        ensures
            attrs(r@) == case_attrs(test@, result@.outcome, exec_time),
    {
        let class = if result.is_benchmarked() {
            concat("benchmark::", test.crate_and_module().as_str())
        } else {
            test.crate_and_module()
        };
        let r = vec![
            attribute("name", test.name.as_str()),
            attribute("classname", class.as_str()),
            attribute("time", show_seconds(exec_time).as_str()),
        ];
        assert(attrs(r@) =~= case_attrs(test@, result@.outcome, exec_time));
        r
    }

    fn write_passed(&mut self, test: &RegisteredTest, result: &TestResult, exec_time: u64)
        requires
            old(self).wf(),
        ensures
            final(self).wf(),
            written(final(self).writer) == written(old(self).writer) + passed_case(
                old(self).show_output,
                test@,
                result@,
                exec_time,
            ),
            layout(final(self).writer) == layout(old(self).writer),
            final(self).show_output == old(self).show_output,
    {
        let ghost before = written(self.writer);
        let attributes = Self::case_attributes(test, result, exec_time);
        let captured = result.captured_output();
        if captured.len() == 0 || !self.show_output {
            write_empty(&mut self.writer, "testcase", &attributes);
        } else {
            write_start(&mut self.writer, "testcase", &attributes);
            self.write_captured(captured);
            write_end(&mut self.writer, "testcase");
        }
        assert(written(self.writer) =~= before + passed_case(
            self.show_output,
            test@,
            result@,
            exec_time,
        ));
    }

    fn write_failed(
        &mut self,
        test: &RegisteredTest,
        result: &TestResult,
        message: &str,
        exec_time: u64,
    )
        requires
            old(self).wf(),
        ensures
            final(self).wf(),
            written(final(self).writer) == written(old(self).writer) + failed_case(
                test@,
                result@,
                message@,
                exec_time,
            ),
            layout(final(self).writer) == layout(old(self).writer),
            final(self).show_output == old(self).show_output,
    {
        let ghost before = written(self.writer);
        let attributes = Self::case_attributes(test, result, exec_time);
        let failure = vec![attribute("type", "assert"), attribute("message", message)];
        assert(attrs(failure@) =~= seq![("type"@, "assert"@), ("message"@, message@)]);
        let captured = result.captured_output();
        write_start(&mut self.writer, "testcase", &attributes);
        write_empty(&mut self.writer, "failure", &failure);
        if captured.len() > 0 {
            self.write_captured(captured);
        }
        write_end(&mut self.writer, "testcase");
        assert(written(self.writer) =~= before + failed_case(test@, result@, message@, exec_time));
    }

    fn write_case(&mut self, test: &RegisteredTest, result: &TestResult)
        requires
            old(self).wf(),
        ensures
            final(self).wf(),
            written(final(self).writer) == written(old(self).writer) + case_events(
                old(self).show_output,
                test@,
                result@,
            ),
            layout(final(self).writer) == layout(old(self).writer),
            final(self).show_output == old(self).show_output,
    {
        match result {
            TestResult::Passed { exec_time, .. } => self.write_passed(test, result, *exec_time),
            TestResult::Benchmarked { exec_time, .. } => {
                self.write_passed(test, result, *exec_time)
            },
            TestResult::Failed { exec_time, cause, .. } => {
                let message = cause.render();
                self.write_failed(test, result, message.as_str(), *exec_time)
            },
            TestResult::Ignored { .. } => {
                assert(written(self.writer) + Seq::<XmlEvent>::empty() =~= written(self.writer));
            },
        }
    }

    pub fn finished_suite(
        &mut self,
        registered_tests: &Vec<RegisteredTest>,
        results: &Vec<(RegisteredTest, TestResult)>,
        exec_time: u64,
    )
        requires
            old(self).wf(),
            results.len() <= registered_tests.len(),
        ensures
            final(self).wf(),
            written(final(self).writer) == written(old(self).writer) + report_events(
                old(self).show_output,
                pretty::entries(results@),
                results::totals(results::outcomes(results@)),
                registered_tests@.len(),
                exec_time,
            ),
            layout(final(self).writer) == layout(old(self).writer),
            final(self).show_output == old(self).show_output,
    {
        let ghost before = written(self.writer);
        let ghost all = pretty::entries(results@);
        let ghost totals = results::totals(results::outcomes(results@));
        let result = SuiteResult::from_test_results(registered_tests, results, exec_time);
        let time = show_seconds(exec_time);
        let outer = vec![attribute("time", time.as_str())];
        assert(attrs(outer@) =~= seq![("time"@, lines::seconds_shown(exec_time))]);
        let inner = vec![
            attribute("name", "test"),
            attribute("package", "test1"),
            attribute("id", "0"),
            attribute("errors", "0"),
            attribute("failures", decimal_u64(result.failed as u64).as_str()),
            attribute("tests", decimal_u64(registered_tests.len() as u64).as_str()),
            attribute("skipped", decimal_u64(result.ignored as u64).as_str()),
            attribute("time", time.as_str()),
        ];
        assert(attrs(inner@) =~= suite_attrs(
            totals.failed,
            registered_tests@.len(),
            totals.ignored,
            exec_time,
        ));
        write_start(&mut self.writer, "testsuites", &outer);
        write_start(&mut self.writer, "testsuite", &inner);
        let ghost head = written(self.writer);
        assert(head + cases(self.show_output, all.take(0)) =~= head);
        let mut i: usize = 0;
        while i < results.len()
            invariant
                i <= results.len(),
                all == pretty::entries(results@),
                written(self.writer) == head + cases(self.show_output, all.take(i as int)),
                self.wf(),
                layout(self.writer) == layout(old(self).writer),
                self.show_output == old(self).show_output,
            decreases results.len() - i,
        {
            let ghost here = written(self.writer);
            assert(all.take(i + 1).drop_last() =~= all.take(i as int));
            self.write_case(&results[i].0, &results[i].1);
            assert(written(self.writer) =~= head + cases(self.show_output, all.take(i + 1)));
            i = i + 1;
        }
        assert(all.take(i as int) =~= all);
        write_end(&mut self.writer, "testsuite");
        write_end(&mut self.writer, "testsuites");
        assert(written(self.writer) =~= before + report_events(
            self.show_output,
            all,
            totals,
            registered_tests@.len(),
            exec_time,
        ));
    }

    pub fn test_list(&mut self, tests: &Vec<RegisteredTest>)
        requires
            old(self).wf(),
        ensures
            final(self).wf(),
            written(final(self).writer) == written(old(self).writer) + list_events(
                internal::test_views(tests@),
            ),
            layout(final(self).writer) == layout(old(self).writer),
            final(self).show_output == old(self).show_output,
    {
        let ghost before = written(self.writer);
        let ghost all = internal::test_views(tests@);
        let none: Vec<(String, String)> = Vec::new();
        assert(attrs(none@) =~= Seq::empty());
        let inner = vec![
            attribute("name", "test"),
            attribute("package", "test1"),
            attribute("id", "0"),
        ];
        assert(attrs(inner@) =~= seq![("name"@, "test"@), ("package"@, "test1"@), ("id"@, "0"@)]);
        write_decl(&mut self.writer, "1.0", "UTF-8");
        write_start(&mut self.writer, "testsuites", &none);
        write_start(&mut self.writer, "testsuite", &inner);
        let ghost head = written(self.writer);
        let mut i: usize = 0;
        assert(head + Seq::new(0, |k: int| listed_case(all[k])) =~= head);
        while i < tests.len()
            invariant
                i <= tests.len(),
                all == internal::test_views(tests@),
                written(self.writer) == head + Seq::new(i as nat, |k: int| listed_case(all[k])),
                self.wf(),
                layout(self.writer) == layout(old(self).writer),
                self.show_output == old(self).show_output,
            decreases tests.len() - i,
        {
            let attributes = vec![
                attribute("name", tests[i].name.as_str()),
                attribute("classname", tests[i].crate_and_module().as_str()),
            ];
            assert(attrs(attributes@) =~= seq![
                ("name"@, all[i as int].name),
                ("classname"@, all[i as int].crate_and_module()),
            ]);
            write_empty(&mut self.writer, "testcase", &attributes);
            i = i + 1;
            assert(written(self.writer) =~= head + Seq::new(
                i as nat,
                |k: int| listed_case(all[k]),
            ));
        }
        write_end(&mut self.writer, "testsuite");
        write_end(&mut self.writer, "testsuites");
        assert(written(self.writer) =~= before + list_events(all));
    }
}

/// The elements that are open after these parts, if every element that ends is the one that was
/// opened last.
pub open spec fn open_after(events: Seq<XmlEvent>, stack: Seq<Seq<char>>) -> Option<Seq<Seq<char>>>
    decreases events.len(),
{
    if events.len() == 0 {
        Some(stack)
    } else {
        let rest = events.skip(1);
        match events[0] {
            XmlEvent::Start(name, _) => open_after(rest, stack.push(name)),
            XmlEvent::End(name) => if stack.len() > 0 && stack.last() == name {
                open_after(rest, stack.drop_last())
            } else {
                None
            },
            _ => open_after(rest, stack),
        }
    }
}

proof fn lemma_open_after_both(a: Seq<XmlEvent>, b: Seq<XmlEvent>, stack: Seq<Seq<char>>)
    ensures
        open_after(a + b, stack) == (match open_after(a, stack) {
            Some(between) => open_after(b, between),
            None => None,
        }),
    decreases a.len(),
{
    if a.len() == 0 {
        assert(a + b =~= b);
    } else {
        assert((a + b).skip(1) =~= a.skip(1) + b);
        assert((a + b)[0] == a[0]);
        match a[0] {
            XmlEvent::Start(name, _) => lemma_open_after_both(a.skip(1), b, stack.push(name)),
            XmlEvent::End(name) => lemma_open_after_both(a.skip(1), b, stack.drop_last()),
            _ => lemma_open_after_both(a.skip(1), b, stack),
        }
    }
}

proof fn lemma_single(event: XmlEvent, stack: Seq<Seq<char>>)
    ensures
        open_after(seq![event], stack) == (match event {
            XmlEvent::Start(name, _) => Some(stack.push(name)),
            XmlEvent::End(name) => if stack.len() > 0 && stack.last() == name {
                Some(stack.drop_last())
            } else {
                None
            },
            _ => Some(stack),
        }),
{
    assert(seq![event].skip(1) =~= Seq::empty());
    reveal_with_fuel(open_after, 2);
}

/// `body` inside of an element opens and closes what the body does.
proof fn lemma_wrapped(
    name: Seq<char>,
    attributes: Seq<Attr>,
    body: Seq<XmlEvent>,
    stack: Seq<Seq<char>>,
)
    requires
        open_after(body, stack.push(name)) == Some(stack.push(name)),
    ensures
        open_after(
            seq![XmlEvent::Start(name, attributes)] + body + seq![XmlEvent::End(name)],
            stack,
        ) == Some(stack),
{
    let start = seq![XmlEvent::Start(name, attributes)];
    let end = seq![XmlEvent::End(name)];
    lemma_single(XmlEvent::Start(name, attributes), stack);
    lemma_single(XmlEvent::End(name), stack.push(name));
    lemma_open_after_both(start, body, stack);
    lemma_open_after_both(start + body, end, stack);
    assert(stack.push(name).drop_last() =~= stack);
}

proof fn lemma_cdata_events(sections: Seq<Seq<char>>, stack: Seq<Seq<char>>)
    ensures
        open_after(cdata_events(sections), stack) == Some(stack),
    decreases sections.len(),
{
    if sections.len() > 0 {
        lemma_cdata_events(sections.drop_last(), stack);
        let last = XmlEvent::CData(sections.last());
        lemma_single(last, stack);
        lemma_open_after_both(cdata_events(sections.drop_last()), seq![last], stack);
        assert(cdata_events(sections) =~= cdata_events(sections.drop_last()) + seq![last]);
    }
}

proof fn lemma_text_element(name: Seq<char>, content: Seq<char>, stack: Seq<Seq<char>>)
    ensures
        open_after(text_element(name, content), stack) == Some(stack),
{
    lemma_cdata_events(sections(content), stack.push(name));
    lemma_wrapped(name, Seq::empty(), cdata_events(sections(content)), stack);
}

proof fn lemma_captured_events(captured: Seq<CapturedOutput>, stack: Seq<Seq<char>>)
    ensures
        open_after(captured_events(captured), stack) == Some(stack),
{
    let out = text_element(
        "system-out"@,
        text::joined(lines::stdout_lines(captured), "\n"@),
    );
    let err = text_element(
        "system-err"@,
        text::joined(lines::stderr_lines(captured), "\n"@),
    );
    lemma_text_element("system-out"@, text::joined(lines::stdout_lines(captured), "\n"@), stack);
    lemma_text_element("system-err"@, text::joined(lines::stderr_lines(captured), "\n"@), stack);
    lemma_open_after_both(out, err, stack);
}

proof fn lemma_case_events(
    show_output: bool,
    test: TestModel,
    result: ResultModel,
    stack: Seq<Seq<char>>,
)
    ensures
        open_after(case_events(show_output, test, result), stack) == Some(stack),
{
    let inside = stack.push("testcase"@);
    lemma_captured_events(result.captured, inside);
    match result.outcome {
        Outcome::Passed { exec_time } => {
            let attributes = case_attrs(test, result.outcome, exec_time);
            lemma_single(XmlEvent::Empty("testcase"@, attributes), stack);
            lemma_wrapped("testcase"@, attributes, captured_events(result.captured), stack);
        },
        Outcome::Benchmarked { exec_time, .. } => {
            let attributes = case_attrs(test, result.outcome, exec_time);
            lemma_single(XmlEvent::Empty("testcase"@, attributes), stack);
            lemma_wrapped("testcase"@, attributes, captured_events(result.captured), stack);
        },
        Outcome::Failed { cause, exec_time } => {
            let attributes = case_attrs(test, result.outcome, exec_time);
            let failure = XmlEvent::Empty(
                "failure"@,
                seq![("type"@, "assert"@), ("message"@, cause.rendered())],
            );
            let shown = if result.captured.len() == 0 {
                Seq::empty()
            } else {
                captured_events(result.captured)
            };
            lemma_single(failure, inside);
            lemma_open_after_both(seq![failure], shown, inside);
            lemma_wrapped("testcase"@, attributes, seq![failure] + shown, stack);
            assert(case_events(show_output, test, result) =~= seq![
                XmlEvent::Start("testcase"@, attributes),
            ] + (seq![failure] + shown) + seq![XmlEvent::End("testcase"@)]);
        },
        Outcome::Ignored => {},
    }
}

proof fn lemma_cases(
    show_output: bool,
    results: Seq<(TestModel, ResultModel)>,
    stack: Seq<Seq<char>>,
)
    ensures
        open_after(cases(show_output, results), stack) == Some(stack),
    decreases results.len(),
{
    if results.len() > 0 {
        let last = results.last();
        lemma_cases(show_output, results.drop_last(), stack);
        lemma_case_events(show_output, last.0, last.1, stack);
        lemma_open_after_both(
            cases(show_output, results.drop_last()),
            case_events(show_output, last.0, last.1),
            stack,
        );
    }
}

/// The report is well nested: every element that it opens is closed again, in the opposite order.
pub proof fn report_is_well_nested(
    show_output: bool,
    results: Seq<(TestModel, ResultModel)>,
    totals: results::Totals,
    tests: nat,
    exec_time: u64,
)
    ensures
        open_after(
            report_events(show_output, results, totals, tests, exec_time),
            Seq::empty(),
        ) == Some(Seq::<Seq<char>>::empty()),
{
    let none = Seq::<Seq<char>>::empty();
    let body = cases(show_output, results);
    let outer = seq![("time"@, lines::seconds_shown(exec_time))];
    let inner = suite_attrs(totals.failed, tests, totals.ignored, exec_time);
    let suite = seq![XmlEvent::Start("testsuite"@, inner)] + body + seq![
        XmlEvent::End("testsuite"@),
    ];
    lemma_cases(show_output, results, none.push("testsuites"@).push("testsuite"@));
    lemma_wrapped("testsuite"@, inner, body, none.push("testsuites"@));
    lemma_wrapped("testsuites"@, outer, suite, none);
    assert(report_events(show_output, results, totals, tests, exec_time) =~= seq![
        XmlEvent::Start("testsuites"@, outer),
    ] + suite + seq![XmlEvent::End("testsuites"@)]);
}

} // verus!
