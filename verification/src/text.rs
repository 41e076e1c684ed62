//! The mathematical model of text that the contracts of this crate speak of.
//!
//! A text is a `Seq<char>`, the view of a `str` or a `String`. This file says
//! what it is for one text to be a part of another, and what the lines of a
//! text are.

use vstd::prelude::*;

verus! {

/// `needle` stands in `hay` at position `at`: the `needle.len()` characters of
/// `hay` that start at `at` are those of `needle`.
pub open spec fn occurs_at(hay: Seq<char>, needle: Seq<char>, at: int) -> bool {
    &&& 0 <= at
    &&& at + needle.len() <= hay.len()
    &&& hay.subrange(at, at + needle.len()) == needle
}

/// `needle` is a contiguous part of `hay`.
pub open spec fn contains(hay: Seq<char>, needle: Seq<char>) -> bool {
    exists|at: int| occurs_at(hay, needle, at)
}

/// The number of characters of `s` that come before its first line feed; the
/// length of `s` where it holds no line feed.
pub open spec fn line_len(s: Seq<char>) -> nat
    decreases s.len(),
{
    if s.len() == 0 || s[0] == '\n' {
        0
    } else {
        1 + line_len(s.drop_first())
    }
}

/// `s` without the carriage return at its end, if it ends in one.
pub open spec fn without_cr(s: Seq<char>) -> Seq<char> {
    if s.len() > 0 && s.last() == '\r' {
        s.drop_last()
    } else {
        s
    }
}

/// The lines of the text `s`.
///
/// A line ends at a line feed. The line feed is not part of the line, and
/// neither is a carriage return that stands directly before it. What follows
/// the last line feed is a line of its own unless it is empty, and is kept as
/// it is, a carriage return at its end included.
pub open spec fn lines_of(s: Seq<char>) -> Seq<Seq<char>>
    decreases s.len(),
{
    let n = line_len(s) as int;
    if s.len() == 0 {
        Seq::empty()
    } else if n >= s.len() {
        seq![s]
    } else {
        seq![without_cr(s.take(n))] + lines_of(s.skip(n + 1))
    }
}

/// An empty needle is part of every text.
pub proof fn lemma_contains_empty(hay: Seq<char>)
    ensures
        contains(hay, Seq::empty()),
{
    assert(hay.subrange(0, 0) =~= Seq::<char>::empty());
    assert(occurs_at(hay, Seq::empty(), 0));
}

/// A needle that is longer than the text is no part of it.
pub proof fn lemma_longer_is_not_contained(hay: Seq<char>, needle: Seq<char>)
    requires
        needle.len() > hay.len(),
    ensures
        !contains(hay, needle),
{
}

/// A line never reaches past the end of its text, and where it stops short of
/// the end, a line feed stands.
pub proof fn lemma_line_len(s: Seq<char>)
    ensures
        line_len(s) <= s.len(),
        line_len(s) < s.len() ==> s[line_len(s) as int] == '\n',
    decreases s.len(),
{
    if s.len() != 0 && s[0] != '\n' {
        lemma_line_len(s.drop_first());
    }
}

/// What starts a text is a part of it.
pub proof fn lemma_start_is_part(s: Seq<char>, len: int)
    requires
        0 <= len <= s.len(),
    ensures
        contains(s, s.take(len)),
{
    assert(s.subrange(0, len) =~= s.take(len));
    assert(occurs_at(s, s.take(len), 0));
}

/// A part of what is left of a text after its first `skipped` characters is a
/// part of the text.
pub proof fn lemma_part_of_rest_is_part(s: Seq<char>, skipped: int, part: Seq<char>)
    requires
        0 <= skipped <= s.len(),
        contains(s.skip(skipped), part),
    ensures
        contains(s, part),
{
    let rest = s.skip(skipped);
    let at = choose|at: int| occurs_at(rest, part, at);
    assert(s.subrange(skipped + at, skipped + at + part.len()) =~= rest.subrange(
        at,
        at + part.len(),
    ));
    assert(occurs_at(s, part, skipped + at));
}

/// Every line of a text is a contiguous part of that text.
pub proof fn lemma_line_is_part_of_text(s: Seq<char>, j: int)
    requires
        0 <= j < lines_of(s).len(),
    ensures
        contains(s, lines_of(s)[j]),
    decreases s.len(),
{
    let n = line_len(s) as int;
    lemma_line_len(s);
    if n >= s.len() {
        assert(lines_of(s)[j] == s);
        assert(s.take(n) =~= s);
        lemma_start_is_part(s, n);
    } else if j == 0 {
        let first = without_cr(s.take(n));
        assert(lines_of(s)[j] == first);
        assert(first =~= s.take(first.len() as int));
        lemma_start_is_part(s, first.len() as int);
    } else {
        let rest = s.skip(n + 1);
        assert(lines_of(s)[j] == lines_of(rest)[j - 1]);
        lemma_line_is_part_of_text(rest, j - 1);
        lemma_part_of_rest_is_part(s, n + 1, lines_of(rest)[j - 1]);
    }
}

} // verus!
