//! Words in which the promises are made.
use crate::execution::path;
use crate::text;
use vstd::prelude::*;

verus! {

/// The text has the part somewhere in it.
pub open spec fn holds(text: Seq<char>, part: Seq<char>) -> bool {
    exists|before: Seq<char>, after: Seq<char>| #![auto] text == before + part + after
}

pub proof fn lemma_holds(text: Seq<char>, before: Seq<char>, part: Seq<char>, after: Seq<char>)
    requires
        text == before + part + after,
    ensures
        holds(text, part),
{
    assert(text == (before + part) + after);
}

/// What a part of the text has in it, the text has in it.
pub proof fn lemma_holds_inside(
    text: Seq<char>,
    before: Seq<char>,
    inner: Seq<char>,
    after: Seq<char>,
    part: Seq<char>,
)
    requires
        text == before + inner + after,
        holds(inner, part),
    ensures
        holds(text, part),
{
    let (a, b) = choose|a: Seq<char>, b: Seq<char>| #![auto] inner == a + part + b;
    assert(text =~= (before + a) + part + (b + after));
    lemma_holds(text, before + a, part, b + after);
}

/// A text has a part in it exactly if the part occurs at some place.
pub proof fn lemma_substring(s: Seq<char>, part: Seq<char>)
    ensures
        text::has_substring(s, part) <==> holds(s, part),
{
    if text::has_substring(s, part) {
        let i = choose|i: int| text::occurs_at(s, part, i);
        let n = (i + part.len()) as int;
        assert(s =~= s.take(i) + part + s.skip(n));
        lemma_holds(s, s.take(i), part, s.skip(n));
    }
    if holds(s, part) {
        let (before, after) = choose|before: Seq<char>, after: Seq<char>|
            #![auto]
            s == before + part + after;
        let i = before.len() as int;
        assert(s.subrange(i, i + part.len() as int) =~= part);
        assert(text::occurs_at(s, part, i));
    }
}

/// Two colons.
pub open spec fn colons() -> Seq<char> {
    seq![':', ':']
}

/// The path is the one of the module, or the path of a module in it.
pub open spec fn at_or_in(path: Seq<char>, module: Seq<char>) -> bool {
    path == module || exists|rest: Seq<char>| path == #[trigger] (module + colons() + rest)
}

/// No three colons stand in a row, so that it is clear where one module of a path ends.
pub open spec fn is_clear(path: Seq<char>) -> bool {
    !holds(path, seq![':', ':', ':'])
}

pub proof fn lemma_clear(s: Seq<char>)
    requires
        is_clear(s),
    ensures
        path::is_unambiguous(s),
{
    assert forall|i: int| 0 <= i && i + 2 < s.len() implies !(#[trigger] s[i] == ':' && s[i + 1]
        == ':' && s[i + 2] == ':') by {
        if s[i] == ':' && s[i + 1] == ':' && s[i + 2] == ':' {
            let three = seq![':', ':', ':'];
            assert(s =~= s.take(i) + three + s.skip(i + 3));
            lemma_holds(s, s.take(i), three, s.skip(i + 3));
        }
    }
}

} // verus!
