//! What filters, tags and suite properties promise together.
use crate::args::ArgumentsModel;
use crate::internal;
use crate::internal::{RegisteredTestSuiteProperty, TestModel};
use crate::text;
use vstd::prelude::*;

verus! {

proof fn lemma_pieces_not_empty(s: Seq<char>, sep: char)
    ensures
        text::pieces(s, sep).len() >= 1,
    decreases s.len(),
{
    if s.len() > 0 {
        lemma_pieces_not_empty(s.drop_last(), sep);
    }
}

/// What is split at a separator between two texts are the pieces of both.
pub proof fn pieces_of_both(a: Seq<char>, sep: char, b: Seq<char>)
    ensures
        text::pieces(a + seq![sep] + b, sep) == text::pieces(a, sep) + text::pieces(b, sep),
    decreases b.len(),
{
    let all = a + seq![sep] + b;
    lemma_pieces_not_empty(b, sep);
    if b.len() == 0 {
        assert(all.drop_last() =~= a);
        assert(text::pieces(all, sep) =~= text::pieces(a, sep) + text::pieces(b, sep));
    } else {
        let fewer = b.drop_last();
        lemma_pieces_not_empty(fewer, sep);
        pieces_of_both(a, sep, fewer);
        assert(all.drop_last() =~= a + seq![sep] + fewer);
        assert(text::pieces(all, sep) =~= text::pieces(a, sep) + text::pieces(b, sep));
    }
}

/// A text without the separator is one piece.
pub proof fn one_piece(s: Seq<char>, sep: char)
    requires
        !s.contains(sep),
    ensures
        text::pieces(s, sep) == seq![s],
    decreases s.len(),
{
    if s.len() == 0 {
        assert(s =~= Seq::<char>::empty());
    } else {
        let fewer = s.drop_last();
        assert(s[s.len() - 1] != sep);
        assert forall|i: int| 0 <= i < fewer.len() implies fewer[i] != sep by {
            assert(s[i] == fewer[i]);
        }
        one_piece(fewer, sep);
        assert(text::pieces(s, sep) =~= seq![fewer.push(s.last())]);
        assert(fewer.push(s.last()) =~= s);
    }
}

/// A test that is skipped does not run, whatever else selects it.
pub proof fn skip_wins_over_filter(a: ArgumentsModel, test: TestModel)
    requires
        internal::any_filter_matches(test, a.skip, a.exact),
    ensures
        !internal::selected(a, test),
{
}

/// Filters are alternatives: a test is selected if one of them selects it.
pub proof fn filters_are_alternatives(
    test: TestModel,
    first: Seq<Seq<char>>,
    second: Seq<Seq<char>>,
    exact: bool,
)
    ensures
        internal::any_filter_matches(test, first + second, exact) == (internal::any_filter_matches(
            test,
            first,
            exact,
        ) || internal::any_filter_matches(test, second, exact)),
{
    let both = first + second;
    if internal::any_filter_matches(test, first, exact) {
        let i = choose|i: int|
            0 <= i < first.len() && internal::filter_matches(test, #[trigger] first[i], exact);
        assert(both[i] == first[i]);
    }
    if internal::any_filter_matches(test, second, exact) {
        let i = choose|i: int|
            0 <= i < second.len() && internal::filter_matches(test, #[trigger] second[i], exact);
        assert(both[first.len() + i] == second[i]);
    }
    if internal::any_filter_matches(test, both, exact) {
        let i = choose|i: int|
            0 <= i < both.len() && internal::filter_matches(test, #[trigger] both[i], exact);
        if i < first.len() {
            assert(first[i] == both[i]);
        } else {
            assert(second[i - first.len()] == both[i]);
        }
    }
}

/// Whether names are compared exactly makes no difference to filters by tags.
pub proof fn tag_filters_ignore_exactness(test: TestModel, filter: Seq<char>)
    requires
        text::has_prefix(filter, internal::tag_prefix()),
    ensures
        internal::filter_matches(test, filter, true) == internal::filter_matches(
            test,
            filter,
            false,
        ),
{
}

/// An expression of two alternatives holds if one of them does.
pub proof fn tag_alternatives(tags: Seq<Seq<char>>, a: Seq<char>, b: Seq<char>)
    requires
        a.len() > 0,
        b.len() > 0,
    ensures
        internal::tags_match(tags, a + seq!['|'] + b) == (internal::tags_match(tags, a)
            || internal::tags_match(tags, b)),
{
    pieces_of_both(a, '|', b);
    let of_a = text::pieces(a, '|');
    let of_b = text::pieces(b, '|');
    let all = of_a + of_b;
    if internal::tags_match(tags, a) {
        let i = choose|i: int|
            0 <= i < of_a.len() && internal::has_all_tags(tags, #[trigger] of_a[i]);
        assert(all[i] == of_a[i]);
    }
    if internal::tags_match(tags, b) {
        let i = choose|i: int|
            0 <= i < of_b.len() && internal::has_all_tags(tags, #[trigger] of_b[i]);
        assert(all[of_a.len() + i] == of_b[i]);
    }
    if internal::tags_match(tags, a + seq!['|'] + b) {
        let i = choose|i: int|
            0 <= i < all.len() && internal::has_all_tags(tags, #[trigger] all[i]);
        if i < of_a.len() {
            assert(of_a[i] == all[i]);
        } else {
            assert(of_b[i - of_a.len()] == all[i]);
        }
    }
}

/// A conjunction holds if both of its parts do.
pub proof fn tag_conjunction(tags: Seq<Seq<char>>, a: Seq<char>, b: Seq<char>)
    requires
        a.len() > 0,
        b.len() > 0,
        !a.contains('|'),
        !b.contains('|'),
    ensures
        internal::tags_match(tags, a + seq!['&'] + b) == (internal::tags_match(tags, a)
            && internal::tags_match(tags, b)),
{
    let both = a + seq!['&'] + b;
    assert forall|i: int| 0 <= i < both.len() implies both[i] != '|' by {
        if i < a.len() {
            assert(a[i] == both[i]);
        } else if i > a.len() {
            assert(b[i - a.len() - 1] == both[i]);
        }
    }
    one_piece(both, '|');
    one_piece(a, '|');
    one_piece(b, '|');
    pieces_of_both(a, '&', b);
    let of_a = text::pieces(a, '&');
    let of_b = text::pieces(b, '&');
    let all = of_a + of_b;
    if internal::has_all_tags(tags, both) {
        assert forall|j: int| 0 <= j < of_a.len() implies tags.contains(#[trigger] of_a[j]) by {
            assert(all[j] == of_a[j]);
        }
        assert forall|j: int| 0 <= j < of_b.len() implies tags.contains(#[trigger] of_b[j]) by {
            assert(all[of_a.len() + j] == of_b[j]);
        }
    }
    assert(seq![both][0] == both && seq![a][0] == a && seq![b][0] == b);
}

/// The properties of suites do not replace a timeout that the test has itself.
pub proof fn own_timeout_is_kept(test: TestModel, props: Seq<RegisteredTestSuiteProperty>)
    requires
        test.props.timeout is Some,
    ensures
        internal::with_properties(test, props).props.timeout == test.props.timeout,
    decreases props.len(),
{
    if props.len() > 0 {
        own_timeout_is_kept(test, props.drop_last());
    }
}

/// The properties of suites take no tag away.
pub proof fn own_tags_are_kept(
    test: TestModel,
    props: Seq<RegisteredTestSuiteProperty>,
    tag: Seq<char>,
)
    requires
        test.props.tags.contains(tag),
    ensures
        internal::with_properties(test, props).props.tags.contains(tag),
    decreases props.len(),
{
    if props.len() > 0 {
        own_tags_are_kept(test, props.drop_last(), tag);
        let before = internal::with_properties(test, props.drop_last()).props.tags;
        let after = internal::with_properties(test, props).props.tags;
        let i = before.index_of(tag);
        assert(after[i] == tag);
    }
}

} // verus!
