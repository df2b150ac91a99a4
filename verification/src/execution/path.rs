//! Module paths: segments with `::` between them.
use crate::internal;
use crate::text;
use crate::text::{from_chars, starts_with, str_eq, to_chars};
use vstd::prelude::*;

verus! {

/// The suite at `this` is the one at `that` or encloses it. The empty path encloses every path.
pub open spec fn encloses(this: Seq<char>, that: Seq<char>) -> bool {
    this.len() == 0 || this == that || text::has_prefix(that, this + internal::colons())
}

/// A path that names a suite below the root: it does not begin with the separator.
pub open spec fn is_rooted(path: Seq<char>) -> bool {
    !text::has_prefix(path, internal::colons())
}

/// The length of the first segment of `s`.
pub open spec fn segment_len(s: Seq<char>) -> int
    decreases s.len(),
{
    if s.len() < 2 {
        s.len() as int
    } else if s[0] == ':' && s[1] == ':' {
        0
    } else {
        1 + segment_len(s.skip(1))
    }
}

/// What of `to` comes behind the enclosing path `from`.
pub open spec fn behind(from: Seq<char>, to: Seq<char>) -> Seq<char> {
    if from.len() == 0 {
        to
    } else {
        to.skip(from.len() as int + 2)
    }
}

/// The path one segment below `from` on the way to `to`.
pub open spec fn one_below(from: Seq<char>, to: Seq<char>) -> Seq<char> {
    to.take(to.len() - behind(from, to).len() + segment_len(behind(from, to)))
}

proof fn lemma_segment_len(s: Seq<char>)
    ensures
        0 <= segment_len(s) <= s.len(),
        segment_len(s) < s.len() ==> segment_len(s) + 2 <= s.len() && s[segment_len(s)] == ':'
            && s[segment_len(s) + 1] == ':',
        forall|j: int|
            0 <= j && j + 1 < s.len() && j < segment_len(s) ==> !(#[trigger] s[j] == ':' && s[j + 1]
                == ':'),
    decreases s.len(),
{
    if s.len() >= 2 && !(s[0] == ':' && s[1] == ':') {
        let t = s.skip(1);
        lemma_segment_len(t);
        assert(forall|j: int| 0 <= j < t.len() ==> t[j] == s[j + 1]);
        assert forall|j: int| 0 <= j && j + 1 < s.len() && j < segment_len(s) implies !(
        #[trigger] s[j] == ':' && s[j + 1] == ':') by {
            if j > 0 {
                assert(t[j - 1] == s[j]);
                assert(t[j] == s[j + 1]);
            }
        }
    }
}

proof fn lemma_segment_len_is(s: Seq<char>, n: int)
    requires
        0 <= n <= s.len(),
        n < s.len() ==> n + 2 <= s.len() && s[n] == ':' && s[n + 1] == ':',
        forall|j: int| 0 <= j < n && j + 1 < s.len() ==> !(#[trigger] s[j] == ':' && s[j + 1] == ':'),
    ensures
        segment_len(s) == n,
{
    lemma_segment_len(s);
    if segment_len(s) < n {
        assert(s[segment_len(s)] == ':');
    }
    if n < segment_len(s) {
        assert(s[n] == ':');
    }
}

/// The path one segment below lies strictly below `from`, and encloses `to`.
pub proof fn lemma_one_below(from: Seq<char>, to: Seq<char>)
    requires
        encloses(from, to),
        from != to,
        is_rooted(to),
    ensures
        from.len() < one_below(from, to).len() <= to.len(),
        encloses(one_below(from, to), to),
        is_rooted(one_below(from, to)),
        from.len() > 0 ==> from.len() + 2 <= to.len(),
{
    let rest = behind(from, to);
    lemma_segment_len(rest);
    let below = one_below(from, to);
    let n = to.len() - rest.len() + segment_len(rest);
    if from.len() == 0 {
        assert(to.len() > 0) by {
            if to.len() == 0 {
                assert(from =~= to);
            }
        }
        if segment_len(rest) == 0 {
            assert(to.subrange(0, 2) =~= internal::colons());
        }
    }
    if n < to.len() {
        assert(rest[segment_len(rest)] == to[n]);
        assert(rest[segment_len(rest) + 1] == to[n + 1]);
        assert(to.subrange(0, n + 2) =~= below + internal::colons());
    } else {
        assert(below =~= to);
    }
    if !is_rooted(below) {
        assert(to.subrange(0, 2) =~= below.subrange(0, 2));
    }
}

/// `path` is one segment longer than `from`.
pub open spec fn directly_below(from: Seq<char>, path: Seq<char>) -> bool {
    &&& encloses(from, path)
    &&& from.len() < path.len()
    &&& one_below(from, path) == path
}

/// The path one segment below is directly below.
pub proof fn lemma_one_below_direct(from: Seq<char>, to: Seq<char>)
    requires
        encloses(from, to),
        from != to,
        is_rooted(to),
    ensures
        directly_below(from, one_below(from, to)),
{
    lemma_one_below(from, to);
    let below = one_below(from, to);
    let rest = behind(from, to);
    let n = segment_len(rest);
    lemma_segment_len(rest);
    if from.len() > 0 {
        let m = from.len() as int + 2;
        assert(below.subrange(0, m) =~= to.subrange(0, m));
    }
    assert(behind(from, below) =~= rest.take(n));
    assert forall|j: int| 0 <= j < n && j + 1 < rest.take(n).len() implies !(
    #[trigger] rest.take(n)[j] == ':' && rest.take(n)[j + 1] == ':') by {
        assert(rest.take(n)[j] == rest[j]);
        assert(rest.take(n)[j + 1] == rest[j + 1]);
    }
    lemma_segment_len_is(rest.take(n), n);
    assert(one_below(from, below) =~= below);
}

/// Of two different paths directly below the same one, neither encloses the other.
pub proof fn lemma_siblings(from: Seq<char>, a: Seq<char>, b: Seq<char>)
    requires
        directly_below(from, a),
        directly_below(from, b),
        encloses(a, b),
    ensures
        a == b,
{
    if a != b {
        let rest = behind(from, b);
        let n = a.len() as int;
        let at = n - (b.len() - rest.len());
        assert(b.subrange(0, n + 2) == a + internal::colons());
        assert(b.subrange(0, n + 2)[n] == ':');
        assert(b.subrange(0, n + 2)[n + 1] == ':');
        lemma_segment_len(rest);
        assert(rest[at] == b[n]);
        assert(rest[at + 1] == b[n + 1]);
        assert(segment_len(rest) == rest.len());
    }
}

/// No three colons stand in a row.
pub open spec fn is_unambiguous(path: Seq<char>) -> bool {
    forall|i: int|
        0 <= i && i + 2 < path.len() ==> !(#[trigger] path[i] == ':' && path[i + 1] == ':'
            && path[i + 2] == ':')
}

/// Of the paths directly below one path, at most one encloses an unambiguous path.
pub proof fn lemma_one_way(from: Seq<char>, a: Seq<char>, b: Seq<char>, path: Seq<char>)
    requires
        directly_below(from, a),
        directly_below(from, b),
        encloses(a, path),
        encloses(b, path),
        is_unambiguous(path),
    ensures
        a == b,
    decreases (if a.len() > b.len() { 1int } else { 0 }),
{
    if a.len() > b.len() {
        lemma_one_way(from, b, a, path);
    } else {
        let (m, n) = (a.len() as int, b.len() as int);
        assert(a =~= path.take(m)) by {
            if a != path {
                assert(path.subrange(0, m + 2) == a + internal::colons());
                assert forall|i: int| 0 <= i < m implies a[i] == path[i] by {
                    assert(path.subrange(0, m + 2)[i] == (a + internal::colons())[i]);
                }
            }
        }
        assert(b =~= path.take(n)) by {
            if b != path {
                assert(path.subrange(0, n + 2) == b + internal::colons());
                assert forall|i: int| 0 <= i < n implies b[i] == path[i] by {
                    assert(path.subrange(0, n + 2)[i] == (b + internal::colons())[i]);
                }
            }
        }
        if m < n {
            assert(path.subrange(0, m + 2) == a + internal::colons());
            assert(path.subrange(0, m + 2)[m] == ':');
            assert(path.subrange(0, m + 2)[m + 1] == ':');
            assert(path[m] == ':' && path[m + 1] == ':');
            if n == m + 1 {
                assert(b != path);
                assert(path.subrange(0, n + 2) == b + internal::colons());
                assert(path.subrange(0, n + 2)[n + 1] == ':');
                assert(path[m + 2] == ':');
                assert(false);
            } else {
                assert(b.subrange(0, m + 2) =~= a + internal::colons());
                lemma_siblings(from, a, b);
            }
        }
    }
}

/// A path that encloses another one and is not it is at least a separator shorter.
pub proof fn lemma_encloses_shorter(this: Seq<char>, that: Seq<char>)
    requires
        encloses(this, that),
        this != that,
    ensures
        this.len() < that.len(),
{
    if this.len() == 0 && that.len() == 0 {
        assert(this =~= that);
    }
}

/// Whether the suite at `this` is the one at `that` or encloses it.
pub fn is_prefix_of(this: &str, that: &str) -> (r: bool)
    ensures
        r == encloses(this@, that@),
{
    proof {
        internal::lemma_colons();
    }
    if this.is_empty() || str_eq(this, that) {
        return true;
    }
    let mut prefix = this.to_owned();
    prefix.append("::");
    starts_with(that, prefix.as_str())
}

/// The path one segment below `from` on the way to `to`.
pub fn next_level(from: &str, to: &str) -> (r: String)
    requires
        encloses(from@, to@),
        from@ != to@,
        is_rooted(to@),
    ensures
        r@ == one_below(from@, to@),
{
    proof {
        lemma_one_below(from@, to@);
    }
    let chars = to_chars(to);
    let above: usize = to_chars(from).len();
    assert(chars.len() == to@.len());
    assert(above > 0 ==> above + 2 <= chars.len());
    let start: usize = if above == 0 {
        0
    } else {
        above + 2
    };
    let ghost rest = behind(from@, to@);
    assert(rest == to@.skip(start as int));
    let mut i: usize = start;
    while i < chars.len() && !(chars[i] == ':' && i + 1 < chars.len() && chars[i + 1] == ':')
        invariant
            chars@ == to@,
            start <= i <= chars.len(),
            rest == to@.skip(start as int),
            forall|j: int|
                start <= j < i && j + 1 < chars.len() ==> !(#[trigger] to@[j] == ':' && to@[j + 1]
                    == ':'),
        decreases chars.len() - i,
    {
        i = i + 1;
    }
    proof {
        assert forall|j: int| 0 <= j < i - start && j + 1 < rest.len() implies !(
        #[trigger] rest[j] == ':' && rest[j + 1] == ':') by {
            assert(rest[j] == to@[start + j]);
            assert(rest[j + 1] == to@[start + j + 1]);
        }
        lemma_segment_len_is(rest, i - start);
    }
    let r = from_chars(&chars, 0, i);
    assert(r@ =~= one_below(from@, to@));
    r
}

} // verus!
