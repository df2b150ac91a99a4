//! Progress in the title bar of terminals that can show it.
use crate::text;
use crate::text::str_eq;
use vstd::prelude::*;

verus! {

/// Shows the progress of a run in the title bar of the terminal.
pub struct TermProgress {
    /// The terminal can show it
    pub enabled: bool,
    pub has_failure: bool,
}

/// The sequence that shows a state with a percentage.
pub open spec fn sequence(state: Seq<char>, percent: Seq<char>) -> Seq<char> {
    "\u{1b}]9;4;"@ + state + ";"@ + percent + "\u{1b}\\"@
}

fn show_sequence(state: &str, percent: &str) -> (r: String)
    ensures
        r@ == sequence(state@, percent@),
{
    let mut out = "\u{1b}]9;4;".to_owned();
    out.append(state);
    out.append(";");
    out.append(percent);
    out.append("\u{1b}\\");
    out
}

impl TermProgress {
    pub fn new(enabled: bool) -> (r: Self)
        ensures
            r.enabled == enabled,
            !r.has_failure,
    {
        TermProgress { enabled, has_failure: false }
    }

    /// What is written when this percentage of the run is done.
    pub fn update(&self, percent: &str) -> (r: Option<String>)
        ensures
            text::opt_view(r) == (if !self.enabled {
                None
            } else if self.has_failure {
                Some(sequence("2"@, percent@))
            } else {
                Some(sequence("1"@, percent@))
            }),
    {
        if !self.enabled {
            return None;
        }
        if self.has_failure {
            Some(show_sequence("2", percent))
        } else {
            Some(show_sequence("1", percent))
        }
    }

    pub fn mark_failure(&mut self)
        ensures
            *final(self) == (TermProgress { has_failure: true, ..*old(self) }),
    {
        self.has_failure = true;
    }

    /// What is written to take the progress away.
    pub fn clear(&self) -> (r: Option<String>)
        ensures
            text::opt_view(r) == (if self.enabled {
                Some(sequence("0"@, "0"@))
            } else {
                None
            }),
    {
        if self.enabled {
            Some(show_sequence("0", "0"))
        } else {
            None
        }
    }
}

/// A letter or digit of ASCII.
pub open spec fn is_alphanumeric(c: char) -> bool {
    '0' <= c <= '9' || 'a' <= c <= 'z' || 'A' <= c <= 'Z'
}

/// A capital letter of ASCII.
pub open spec fn is_uppercase(c: char) -> bool {
    'A' <= c <= 'Z'
}

/// The leading part of the text that consists of letters and digits.
pub open spec fn leading_words(s: Seq<char>) -> Seq<char>
    decreases s.len(),
{
    if s.len() == 0 || !is_alphanumeric(s[0]) {
        Seq::empty()
    } else {
        seq![s[0]] + leading_words(s.skip(1))
    }
}

/// A capability `P` with nothing behind it stands at this place: each capability begins with a
/// capital letter.
pub open spec fn is_progress_at(words: Seq<char>, i: int) -> bool {
    &&& 0 <= i < words.len()
    &&& words[i] == 'P'
    &&& i + 1 == words.len() || is_uppercase(words[i + 1])
}

/// Whether the capabilities hold the one for progress.
pub open spec fn has_progress(s: Seq<char>) -> bool {
    exists|i: int| is_progress_at(leading_words(s), i)
}

proof fn lemma_leading_words(s: Seq<char>, n: int)
    requires
        0 <= n <= s.len(),
        forall|k: int| 0 <= k < n ==> is_alphanumeric(#[trigger] s[k]),
    ensures
        leading_words(s).len() >= n,
        forall|k: int| 0 <= k < n ==> #[trigger] leading_words(s)[k] == s[k],
        n == s.len() || !is_alphanumeric(s[n]) ==> leading_words(s).len() == n,
        n < s.len() && is_alphanumeric(s[n]) ==> leading_words(s).len() > n && leading_words(s)[n]
            == s[n],
    decreases n,
{
    if n > 0 {
        let rest = s.skip(1);
        assert(is_alphanumeric(s[0]));
        assert forall|k: int| 0 <= k < n - 1 implies is_alphanumeric(#[trigger] rest[k]) by {
            assert(rest[k] == s[k + 1]);
        }
        lemma_leading_words(rest, n - 1);
        assert forall|k: int| 0 <= k < n implies #[trigger] leading_words(s)[k] == s[k] by {
            if k > 0 {
                assert(leading_words(s)[k] == leading_words(rest)[k - 1]);
                assert(rest[k - 1] == s[k]);
            }
        }
        if n < s.len() {
            assert(rest[n - 1] == s[n]);
        }
    }
}

/// Whether the capabilities that iTerm2 lists hold the one for progress.
pub fn term_features_has_progress(value: &str) -> (r: bool)
    ensures
        r == has_progress(value@),
{
    let chars = text::to_chars(value);
    let ghost s = value@;
    let mut only_p = false;
    let mut i: usize = 0;
    let mut ended = false;
    while i < chars.len() && !ended
        invariant
            i <= chars.len(),
            chars@ == s,
            s == value@,
            forall|k: int| 0 <= k < i ==> is_alphanumeric(#[trigger] s[k]),
            only_p == (i > 0 && s[i - 1] == 'P'),
            forall|k: int| 0 <= k < i - 1 ==> !(#[trigger] s[k] == 'P' && is_uppercase(s[k + 1])),
            ended ==> i < chars.len() && !is_alphanumeric(s[i as int]),
        decreases chars.len() - i + (if ended {
            0int
        } else {
            1
        }),
    {
        let c = chars[i];
        let upper = 'A' <= c && c <= 'Z';
        let alphanumeric = upper || ('0' <= c && c <= '9') || ('a' <= c && c <= 'z');
        if !alphanumeric {
            ended = true;
        } else {
            if upper && only_p {
                proof {
                    lemma_leading_words(s, i as int);
                    assert(is_progress_at(leading_words(s), i - 1));
                }
                return true;
            }
            only_p = c == 'P';
            i = i + 1;
        }
    }
    proof {
        lemma_leading_words(s, i as int);
        let words = leading_words(s);
        if only_p {
            assert(is_progress_at(words, i - 1));
        } else {
            assert forall|k: int| !is_progress_at(words, k) by {
                if 0 <= k < words.len() {
                    assert(words[k] == s[k]);
                    if k + 1 < words.len() {
                        assert(words[k + 1] == s[k + 1]);
                    }
                }
            }
        }
    }
    only_p
}

/// What is known of the terminal.
#[derive(Debug)]
pub struct Terminal {
    /// The standard error stream goes to a terminal
    pub is_terminal: bool,
    /// `WT_SESSION` is set
    pub windows_terminal: bool,
    /// The value of `ConEmuANSI`
    pub conemu_ansi: Option<String>,
    /// The value of `TERM_PROGRAM`
    pub term_program: Option<String>,
    /// The value of `TERM_FEATURES`
    pub term_features: Option<String>,
}

/// Whether a terminal of which this is known shows progress.
pub open spec fn shows_progress(terminal: Terminal) -> bool {
    let program = text::opt_view(terminal.term_program);
    &&& terminal.is_terminal
    &&& {
        ||| terminal.windows_terminal
        ||| text::opt_view(terminal.conemu_ansi) == Some("ON"@)
        ||| program == Some("WezTerm"@)
        ||| program == Some("ghostty"@)
        ||| program == Some("iTerm.app"@) && terminal.term_features is Some && has_progress(
            terminal.term_features->0@,
        )
    }
}

/// Whether the terminal is one that is known to show progress.
pub fn supports_osc_9_4(terminal: &Terminal) -> (r: bool)
    ensures
        r == shows_progress(*terminal),
{
    if !terminal.is_terminal {
        return false;
    }
    if terminal.windows_terminal {
        return true;
    }
    if let Some(ansi) = &terminal.conemu_ansi {
        if str_eq(ansi.as_str(), "ON") {
            return true;
        }
    }
    if let Some(program) = &terminal.term_program {
        if str_eq(program.as_str(), "WezTerm") || str_eq(program.as_str(), "ghostty") {
            return true;
        }
        if str_eq(program.as_str(), "iTerm.app") {
            if let Some(features) = &terminal.term_features {
                return term_features_has_progress(features.as_str());
            }
        }
    }
    false
}

} // verus!
