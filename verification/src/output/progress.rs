//! Progress lines for reports that are not meant for people.
use super::pretty;
use super::style;
use super::style::{style_bench, style_failed, style_ignored, style_ok, style_progress};
use crate::internal::RegisteredTest;
use crate::results::{Outcome, TestResult};
use crate::text;
use crate::text::{byte_len, decimal_u64, spaces};
use vstd::prelude::*;

verus! {

/// Writes a line when a test starts and when it has finished.
pub struct StderrProgress {
    /// The width of the widest index field of the run
    pub index_field_length: usize,
}

/// The space in front of the index field, none where the field is too wide.
pub open spec fn padding(field_length: nat, idx: nat, count: nat) -> Seq<char> {
    let width = text::width(pretty::index_field(idx, count));
    text::blanks(
        (if width < field_length {
            field_length - width
        } else {
            0
        }) as nat,
    )
}

/// Which test of how many, in the look of progress reports.
pub open spec fn index_part(field_length: nat, idx: nat, count: nat) -> Seq<char> {
    style::spec_style_progress().on() + "["@ + padding(field_length, idx, count)
        + pretty::index_field(idx, count) + "]"@ + style::off()
}

/// The word for a result.
pub open spec fn status(outcome: Outcome) -> Seq<char> {
    match outcome {
        Outcome::Passed { .. } => "["@ + style::painted(style::spec_style_ok(), "PASSED"@) + "]"@,
        Outcome::Benchmarked { .. } => "["@ + style::painted(
            style::spec_style_bench(),
            "BENCH"@,
        ) + "]"@,
        Outcome::Failed { .. } => "["@ + style::painted(
            style::spec_style_failed(),
            "FAILED"@,
        ) + "]"@,
        Outcome::Ignored => "["@ + style::painted(style::spec_style_ignored(), "IGNORED"@) + "]"@,
    }
}

impl StderrProgress {
    pub fn new() -> (r: Self)
        ensures
            r.index_field_length == 0,
    {
        StderrProgress { index_field_length: 0 }
    }

    pub fn start_suite(&mut self, count: usize) -> (r: String)
        ensures
            final(self).index_field_length == text::width(
                text::decimal(count as nat) + "/"@ + text::decimal(count as nat),
            ),
            r@ == style::spec_style_progress().on() + "Running "@ + text::decimal(count as nat)
                + " tests"@ + style::off(),
    {
        let shown = decimal_u64(count as u64);
        let mut field = shown.clone();
        field.append("/");
        field.append(shown.as_str());
        self.index_field_length = byte_len(field.as_str());
        let mut out = style_progress().render();
        out.append("Running ");
        out.append(shown.as_str());
        out.append(" tests");
        out.append(style_progress().render_reset().as_str());
        out
    }

    fn show_index(&self, idx: usize, count: usize) -> (r: String)
        requires
            idx < usize::MAX,
        ensures
            r@ == index_part(self.index_field_length as nat, idx as nat, count as nat),
    {
        let mut field = decimal_u64(idx as u64 + 1);
        field.append("/");
        field.append(decimal_u64(count as u64).as_str());
        let width = byte_len(field.as_str());
        let fill: usize = if width < self.index_field_length {
            self.index_field_length - width
        } else {
            0
        };
        let mut out = style_progress().render();
        out.append("[");
        out.append(spaces(fill).as_str());
        out.append(field.as_str());
        out.append("]");
        out.append(style_progress().render_reset().as_str());
        out
    }

    pub fn start_running_test(&self, test: &RegisteredTest, idx: usize, count: usize) -> (r: String)
        requires
            idx < usize::MAX,
        ensures
            r@ == index_part(self.index_field_length as nat, idx as nat, count as nat)
                + " Running test: "@ + test@.fully_qualified_name(),
    {
        let mut out = self.show_index(idx, count);
        out.append(" Running test: ");
        out.append(test.fully_qualified_name().as_str());
        out
    }

    pub fn finished_running_test(
        &self,
        test: &RegisteredTest,
        idx: usize,
        count: usize,
        result: &TestResult,
    ) -> (r: String)
        requires
            idx < usize::MAX,
        ensures
            r@ == index_part(self.index_field_length as nat, idx as nat, count as nat)
                + " Finished test: "@ + test@.fully_qualified_name() + " "@ + status(
                result@.outcome,
            ),
    {
        let mut out = self.show_index(idx, count);
        out.append(" Finished test: ");
        out.append(test.fully_qualified_name().as_str());
        out.append(" ");
        out.append(show_status(result).as_str());
        out
    }
}

fn show_status(result: &TestResult) -> (r: String)
    ensures
        r@ == status(result@.outcome),
{
    let word = match result {
        TestResult::Passed { .. } => style_ok().paint("PASSED"),
        TestResult::Benchmarked { .. } => style_bench().paint("BENCH"),
        TestResult::Failed { .. } => style_failed().paint("FAILED"),
        TestResult::Ignored { .. } => style_ignored().paint("IGNORED"),
    };
    let mut out = "[".to_owned();
    out.append(word.as_str());
    out.append("]");
    out
}

/// Whether the character ends an escape sequence.
pub open spec fn is_final(c: char) -> bool {
    '@' <= c <= '~'
}

/// What is left of a text when its escape sequences are taken out: the escape character is dropped
/// with the character that follows it, and if that is an opening bracket, also everything up to
/// the character that ends the sequence.
pub open spec fn stripped(s: Seq<char>) -> Seq<char>
    decreases s.len(),
{
    if s.len() == 0 {
        Seq::empty()
    } else if s[0] != '\u{1b}' {
        seq![s[0]] + stripped(s.skip(1))
    } else if s.len() > 1 && s[1] == '[' {
        proof {
            lemma_sequence_len(s.skip(2));
        }
        stripped(s.skip(2 + sequence_len(s.skip(2))))
    } else if s.len() > 1 {
        stripped(s.skip(2))
    } else {
        Seq::empty()
    }
}

/// How many characters an escape sequence takes after the opening bracket.
pub open spec fn sequence_len(s: Seq<char>) -> int
    decreases s.len(),
{
    if s.len() == 0 {
        0
    } else if is_final(s[0]) {
        1
    } else {
        1 + sequence_len(s.skip(1))
    }
}

pub proof fn lemma_sequence_len(s: Seq<char>)
    ensures
        0 <= sequence_len(s) <= s.len(),
    decreases s.len(),
{
    if s.len() > 0 && !is_final(s[0]) {
        lemma_sequence_len(s.skip(1));
    }
}

proof fn lemma_sequence_end(s: Seq<char>, n: int)
    requires
        0 <= n <= s.len(),
        forall|k: int| 0 <= k < n - 1 ==> !is_final(#[trigger] s[k]),
        n == s.len() && (n > 0 ==> !is_final(s[n - 1])) || n > 0 && is_final(s[n - 1]),
    ensures
        sequence_len(s) == n,
    decreases n,
{
    if n > 1 || (n == 1 && !is_final(s[0])) {
        assert(!is_final(s[0]));
        let rest = s.skip(1);
        assert forall|k: int| 0 <= k < n - 2 implies !is_final(#[trigger] rest[k]) by {
            assert(rest[k] == s[k + 1]);
        }
        if n > 1 {
            assert(rest[n - 2] == s[n - 1]);
        }
        lemma_sequence_end(rest, n - 1);
    }
}

/// Takes the escape sequences out of a text.
pub fn strip_ansi(input: &str) -> (r: String)
    ensures
        r@ == stripped(input@),
{
    let chars = text::to_chars(input);
    let ghost s = input@;
    let mut out = String::new();
    let mut i: usize = 0;
    assert(s.skip(0) =~= s);
    assert(out@ + stripped(s) =~= stripped(s));
    while i < chars.len()
        invariant
            i <= chars.len(),
            chars@ == s,
            out@ + stripped(s.skip(i as int)) == stripped(s),
        decreases chars.len() - i,
    {
        let ghost rest = s.skip(i as int);
        let ghost before = out@;
        assert(rest[0] == s[i as int]);
        if chars[i] != '\u{1b}' {
            out.push(chars[i]);
            assert(rest.skip(1) =~= s.skip(i + 1));
            assert(before + (seq![rest[0]] + stripped(rest.skip(1))) =~= out@ + stripped(
                s.skip(i + 1),
            ));
            i = i + 1;
        } else if i + 1 < chars.len() && chars[i + 1] == '[' {
            let start: usize = i + 2;
            let mut k: usize = start;
            let ghost inner = s.skip(start as int);
            assert(rest[1] == s[i + 1]);
            assert(rest.skip(2) =~= inner);
            let mut ended = false;
            while k < chars.len() && !ended
                invariant
                    start <= k <= chars.len(),
                    start >= 2,
                    chars@ == s,
                    inner == s.skip(start as int),
                    forall|j: int| 0 <= j < k - start - 1 ==> !is_final(#[trigger] inner[j]),
                    k > start ==> ended == is_final(inner[k - start - 1]),
                    k == start ==> !ended,
                decreases chars.len() - k,
            {
                assert(inner[k - start] == s[k as int]);
                ended = '@' <= chars[k] && chars[k] <= '~';
                k = k + 1;
            }
            proof {
                lemma_sequence_end(inner, k - start);
                assert(rest.skip(2 + sequence_len(inner)) =~= s.skip(k as int));
            }
            i = k;
        } else if i + 1 < chars.len() {
            assert(rest[1] == s[i + 1]);
            assert(rest.skip(2) =~= s.skip(i + 2));
            i = i + 2;
        } else {
            assert(rest.len() == 1);
            assert(s.skip(i + 1) =~= Seq::empty());
            i = i + 1;
        }
    }
    assert(s.skip(i as int) =~= Seq::empty());
    assert(out@ + Seq::<char>::empty() =~= out@);
    out
}

/// A text without escape characters stays as it is, and what comes before it is stripped alone.
proof fn lemma_plain_text(s: Seq<char>, rest: Seq<char>)
    requires
        forall|i: int| 0 <= i < s.len() ==> #[trigger] s[i] != '\u{1b}',
    ensures
        stripped(s + rest) == s + stripped(rest),
    decreases s.len(),
{
    if s.len() == 0 {
        assert(s + rest =~= rest);
        assert(s + stripped(rest) =~= stripped(rest));
    } else {
        let tail = s.skip(1);
        assert forall|i: int| 0 <= i < tail.len() implies #[trigger] tail[i] != '\u{1b}' by {
            assert(tail[i] == s[i + 1]);
        }
        lemma_plain_text(tail, rest);
        assert((s + rest).skip(1) =~= tail + rest);
        assert((s + rest)[0] == s[0]);
        assert(seq![s[0]] + (tail + stripped(rest)) =~= s + stripped(rest));
    }
}

/// A code of one or two digits is taken out.
proof fn lemma_code(code: Seq<char>, rest: Seq<char>)
    requires
        3 <= code.len(),
        code[0] == '\u{1b}',
        code[1] == '[',
        forall|i: int| 2 <= i < code.len() - 1 ==> !is_final(#[trigger] code[i]),
        is_final(code[code.len() - 1]),
    ensures
        stripped(code + rest) == stripped(rest),
{
    let all = code + rest;
    let inner = all.skip(2);
    let n = code.len() - 2;
    assert forall|k: int| 0 <= k < n - 1 implies !is_final(#[trigger] inner[k]) by {
        assert(inner[k] == code[k + 2]);
    }
    assert(inner[n - 1] == code[code.len() - 1]);
    lemma_sequence_end(inner, n);
    assert(all.skip(2 + n) =~= rest);
}

proof fn lemma_paint_is_stripped(paint: style::Paint, rest: Seq<char>)
    requires
        paint.wf(),
    ensures
        stripped(paint.on() + rest) == stripped(rest),
{
    reveal_strlit("\u{1b}[1m");
    reveal_strlit("\u{1b}[2m");
    reveal_strlit("\u{1b}[3");
    reveal_strlit("\u{1b}[9");
    reveal_strlit("m");
    let bold = if paint.bold {
        "\u{1b}[1m"@
    } else {
        Seq::empty()
    };
    let dimmed = if paint.dimmed {
        "\u{1b}[2m"@
    } else {
        Seq::empty()
    };
    let color = style::color_code(paint.color);
    assert(paint.on() + rest =~= bold + (dimmed + (color + rest)));
    lemma_code(color, rest);
    if paint.dimmed {
        lemma_code(dimmed, color + rest);
    } else {
        assert(dimmed + (color + rest) =~= color + rest);
    }
    if paint.bold {
        lemma_code(bold, dimmed + (color + rest));
    } else {
        assert(bold + (dimmed + (color + rest)) =~= dimmed + (color + rest));
    }
}

/// Where the terminal cannot show looks, a text in a look reads like the text alone.
pub proof fn stripping_undoes_painting(paint: style::Paint, s: Seq<char>, rest: Seq<char>)
    requires
        paint.wf(),
        forall|i: int| 0 <= i < s.len() ==> #[trigger] s[i] != '\u{1b}',
    ensures
        stripped(style::painted(paint, s) + rest) == s + stripped(rest),
{
    reveal_strlit("\u{1b}[0m");
    let off = style::off();
    assert(style::painted(paint, s) + rest =~= paint.on() + (s + (off + rest)));
    lemma_paint_is_stripped(paint, s + (off + rest));
    lemma_plain_text(s, off + rest);
    lemma_code(off, rest);
}

} // verus!
