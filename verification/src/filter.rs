//! The line filter: which lines of a text hold a query, and in what order they
//! are handed back.

use crate::std_str::{holds, lines_left, lowercase};
use crate::text::{
    contains, lemma_contains_empty, lemma_line_is_part_of_text, lemma_longer_is_not_contained,
    lines_of,
};
use vstd::prelude::*;

verus! {

/// The test that a line passes when it holds `query` as it is written.
pub open spec fn holds_query(query: Seq<char>) -> spec_fn(Seq<char>) -> bool {
    |line: Seq<char>| contains(line, query)
}

/// The test that a line passes when its lowercase form holds the lowercase
/// form of `query`.
pub open spec fn holds_query_ignoring_case(query: Seq<char>) -> spec_fn(Seq<char>) -> bool {
    |line: Seq<char>| contains(lowercase(line), lowercase(query))
}

/// The lines among `lines` that hold `query`, each as often and in the place in
/// which `lines` has it.
pub open spec fn matching(query: Seq<char>, lines: Seq<Seq<char>>) -> Seq<Seq<char>> {
    lines.filter(holds_query(query))
}

/// The lines among `lines` that hold `query` once both are put in lowercase.
/// The lines themselves are kept as they were written.
pub open spec fn matching_ignoring_case(query: Seq<char>, lines: Seq<Seq<char>>) -> Seq<
    Seq<char>,
> {
    lines.filter(holds_query_ignoring_case(query))
}

/// `at` names places of `all` in rising order, and `picked` holds, place by
/// place, what `all` has there.
pub open spec fn picked_at(all: Seq<Seq<char>>, at: Seq<int>, picked: Seq<Seq<char>>) -> bool {
    &&& at.len() == picked.len()
    &&& forall|k: int|
        0 <= k < at.len() ==> 0 <= #[trigger] at[k] < all.len() && picked[k] == all[at[k]]
    &&& forall|j: int, k: int| 0 <= j < k < at.len() ==> at[j] < at[k]
}

/// `picked` is made of lines of `all` and has them in the order of `all`:
/// nothing was added, moved or repeated.
pub open spec fn in_order_of(picked: Seq<Seq<char>>, all: Seq<Seq<char>>) -> bool {
    exists|at: Seq<int>| picked_at(all, at, picked)
}

/// A filter keeps exactly the lines that pass its test: every line that it
/// hands back passes, and a line of `lines` that is not handed back fails.
pub proof fn lemma_filter_exact(lines: Seq<Seq<char>>, test: spec_fn(Seq<char>) -> bool)
    ensures
        forall|k: int| 0 <= k < lines.filter(test).len() ==> test(#[trigger] lines.filter(test)[k]),
        forall|j: int|
            0 <= j < lines.len() && !lines.filter(test).contains(#[trigger] lines[j]) ==> !test(
                lines[j],
            ),
{
    assert forall|k: int| 0 <= k < lines.filter(test).len() implies test(
        #[trigger] lines.filter(test)[k],
    ) by {
        lines.lemma_filter_pred(test, k);
    }
    assert forall|j: int|
        0 <= j < lines.len() && !lines.filter(test).contains(#[trigger] lines[j]) implies !test(
        lines[j],
    ) by {
        if test(lines[j]) {
            lines.lemma_filter_contains(test, j);
        }
    }
}

/// A filter hands the lines back in the order in which it was given them.
pub proof fn lemma_filter_in_order(lines: Seq<Seq<char>>, test: spec_fn(Seq<char>) -> bool)
    ensures
        in_order_of(lines.filter(test), lines),
    decreases lines.len(),
{
    if lines.len() == 0 {
        reveal(Seq::filter);
        assert(picked_at(lines, Seq::<int>::empty(), lines.filter(test)));
    } else {
        let front = lines.drop_last();
        let last = lines.last();
        lemma_filter_in_order(front, test);
        let at_front = choose|at: Seq<int>| picked_at(front, at, front.filter(test));
        front.lemma_filter_push(last, test);
        assert(front.push(last) =~= lines);
        let at = if test(last) {
            at_front.push(lines.len() - 1)
        } else {
            at_front
        };
        assert(picked_at(lines, at, lines.filter(test)));
    }
}

/// Where every line passes the test, the filter hands all of them back.
pub proof fn lemma_filter_keeps_all(lines: Seq<Seq<char>>, test: spec_fn(Seq<char>) -> bool)
    requires
        forall|j: int| 0 <= j < lines.len() ==> test(#[trigger] lines[j]),
    ensures
        lines.filter(test) == lines,
    decreases lines.len(),
{
    if lines.len() == 0 {
        reveal(Seq::filter);
    } else {
        let front = lines.drop_last();
        lemma_filter_keeps_all(front, test);
        front.lemma_filter_push(lines.last(), test);
        assert(front.push(lines.last()) =~= lines);
    }
}

/// Where no line passes the test, the filter hands nothing back.
pub proof fn lemma_filter_drops_all(lines: Seq<Seq<char>>, test: spec_fn(Seq<char>) -> bool)
    requires
        forall|j: int| 0 <= j < lines.len() ==> !test(#[trigger] lines[j]),
    ensures
        lines.filter(test).len() == 0,
    decreases lines.len(),
{
    if lines.len() == 0 {
        reveal(Seq::filter);
    } else {
        let front = lines.drop_last();
        lemma_filter_drops_all(front, test);
        front.lemma_filter_push(lines.last(), test);
        assert(front.push(lines.last()) =~= lines);
    }
}

/// The empty query is held by every line, so no line is left out.
pub proof fn lemma_empty_query_keeps_all(lines: Seq<Seq<char>>)
    ensures
        matching(Seq::empty(), lines) == lines,
{
    let test = holds_query(Seq::empty());
    assert forall|j: int| 0 <= j < lines.len() implies test(#[trigger] lines[j]) by {
        lemma_contains_empty(lines[j]);
    }
    lemma_filter_keeps_all(lines, test);
}

/// A query that is longer than every line is held by none of them.
pub proof fn lemma_long_query_matches_nothing(query: Seq<char>, lines: Seq<Seq<char>>)
    requires
        forall|j: int| 0 <= j < lines.len() ==> (#[trigger] lines[j]).len() < query.len(),
    ensures
        matching(query, lines).len() == 0,
{
    let test = holds_query(query);
    assert forall|j: int| 0 <= j < lines.len() implies !test(#[trigger] lines[j]) by {
        lemma_longer_is_not_contained(lines[j], query);
    }
    lemma_filter_drops_all(lines, test);
}

/// The step that a search takes when it goes from the lines `seen` to the
/// next of the lines `left`: the line moves from the one to the other, and the
/// filter of what was seen grows by it where it passes the test.
proof fn lemma_filter_step(
    seen: Seq<Seq<char>>,
    left: Seq<Seq<char>>,
    test: spec_fn(Seq<char>) -> bool,
)
    requires
        left.len() > 0,
    ensures
        seen.push(left.first()) + left.drop_first() == seen + left,
        seen.push(left.first()).filter(test) == if test(left.first()) {
            seen.filter(test).push(left.first())
        } else {
            seen.filter(test)
        },
{
    seen.lemma_filter_push(left.first(), test);
    assert(seen.push(left.first()) + left.drop_first() =~= seen + left);
}

/// What a filter keeps of the lines of a text are contiguous parts of that
/// text.
pub proof fn lemma_filter_keeps_parts(contents: Seq<char>, test: spec_fn(Seq<char>) -> bool)
    ensures
        forall|k: int|
            0 <= k < lines_of(contents).filter(test).len() ==> contains(
                contents,
                #[trigger] lines_of(contents).filter(test)[k],
            ),
{
    let all = lines_of(contents);
    let found = all.filter(test);
    lemma_filter_in_order(all, test);
    let at = choose|at: Seq<int>| picked_at(all, at, found);
    assert forall|k: int| 0 <= k < found.len() implies contains(contents, #[trigger] found[k]) by {
        lemma_line_is_part_of_text(contents, at[k]);
    }
}

/// Adds `line` to `found` when `key` holds `needle`, and leaves `found` as it
/// is when it does not. The key is the text in which the needle is looked for:
/// the line itself, or a form of it that sets aside what the search ignores.
pub fn keep_if_holds<'a>(found: &mut Vec<&'a str>, line: &'a str, key: &str, needle: &str)
    ensures
        final(found)@ == if contains(key@, needle@) {
            old(found)@.push(line)
        } else {
            old(found)@
        },
{
    if holds(key, needle) {
        found.push(line);
    }
}

/// The lines of `contents` that hold `query` exactly as it is written, in the
/// order in which `contents` has them. Each is a slice of `contents`.
///
/// The text is walked once, line by line. The empty query is held by every
/// line; a query that is longer than every line is held by none; the empty
/// text has no lines.
pub fn search<'a>(query: &str, contents: &'a str) -> (found: Vec<&'a str>)
    ensures
        found.deep_view() == matching(query@, lines_of(contents@)),
        // what is handed back holds the query, and what is left out does not
        forall|k: int| 0 <= k < found.len() ==> contains(#[trigger] found[k]@, query@),
        forall|j: int|
            0 <= j < lines_of(contents@).len() && !found.deep_view().contains(
                #[trigger] lines_of(contents@)[j],
            ) ==> !contains(lines_of(contents@)[j], query@),
        // the order is that of the text, and each line is a part of it
        in_order_of(found.deep_view(), lines_of(contents@)),
        forall|k: int| 0 <= k < found.len() ==> contains(contents@, #[trigger] found[k]@),
        // the edges
        query@.len() == 0 ==> found.deep_view() == lines_of(contents@),
        (forall|j: int|
            0 <= j < lines_of(contents@).len() ==> (#[trigger] lines_of(contents@)[j]).len()
                < query@.len()) ==> found.len() == 0,
        contents@.len() == 0 ==> found.len() == 0,
{
    let ghost all = lines_of(contents@);
    let ghost test = holds_query(query@);
    let ghost mut seen: Seq<Seq<char>> = Seq::empty();
    let mut found: Vec<&'a str> = Vec::new();
    let mut rest = contents.lines();
    proof {
        assert(seen + lines_left(rest) =~= all);
        assert(found.deep_view() =~= seen.filter(test)) by {
            reveal(Seq::filter);
        }
    }
    loop
        invariant_except_break
            seen + lines_left(rest) == all,
            found.deep_view() == seen.filter(test),
        invariant
            test == holds_query(query@),
        ensures
            found.deep_view() == all.filter(test),
        decreases lines_left(rest).len(),
    {
        let ghost kept = found.deep_view();
        let ghost left = lines_left(rest);
        match rest.next() {
            Some(line) => {
                keep_if_holds(&mut found, line, line, query);
                proof {
                    lemma_filter_step(seen, left, test);
                    assert(found.deep_view() =~= if test(line@) {
                        kept.push(line@)
                    } else {
                        kept
                    });
                    seen = seen.push(line@);
                }
            },
            None => {
                assert(seen + left =~= seen);
                break ;
            },
        }
    }
    proof {
        lemma_filter_exact(all, test);
        lemma_filter_in_order(all, test);
        lemma_filter_keeps_parts(contents@, test);
        assert forall|k: int| 0 <= k < found.len() implies contains(#[trigger] found[k]@, query@)
            && contains(contents@, found[k]@) by {
            assert(found.deep_view()[k] == found[k]@);
        }
        if query@.len() == 0 {
            assert(query@ =~= Seq::empty());
            lemma_empty_query_keeps_all(all);
        }
        if forall|j: int| 0 <= j < all.len() ==> (#[trigger] all[j]).len() < query@.len() {
            lemma_long_query_matches_nothing(query@, all);
        }
    }
    found
}

/// The lines of `contents` whose lowercase form holds the lowercase form of
/// `query`, in the order in which `contents` has them. Each is a slice of
/// `contents`, written as `contents` has it.
///
/// The text is walked once, line by line. The empty query is held by every
/// line; a query whose lowercase form is longer than that of every line is
/// held by none; the empty text has no lines.
pub fn search_case_insensitive<'a>(query: &str, contents: &'a str) -> (found: Vec<&'a str>)
    ensures
        found.deep_view() == matching_ignoring_case(query@, lines_of(contents@)),
        // what is handed back holds the query, and what is left out does not
        forall|k: int|
            0 <= k < found.len() ==> contains(lowercase(#[trigger] found[k]@), lowercase(query@)),
        forall|j: int|
            0 <= j < lines_of(contents@).len() && !found.deep_view().contains(
                #[trigger] lines_of(contents@)[j],
            ) ==> !contains(lowercase(lines_of(contents@)[j]), lowercase(query@)),
        // the order is that of the text, and each line is a part of it
        in_order_of(found.deep_view(), lines_of(contents@)),
        forall|k: int| 0 <= k < found.len() ==> contains(contents@, #[trigger] found[k]@),
        // the edges
        query@.len() == 0 ==> found.deep_view() == lines_of(contents@),
        (forall|j: int|
            0 <= j < lines_of(contents@).len() ==> lowercase(
                #[trigger] lines_of(contents@)[j],
            ).len() < lowercase(query@).len()) ==> found.len() == 0,
        contents@.len() == 0 ==> found.len() == 0,
{
    let ghost all = lines_of(contents@);
    let ghost test = holds_query_ignoring_case(query@);
    let ghost mut seen: Seq<Seq<char>> = Seq::empty();
    let needle = query.to_lowercase();
    let mut found: Vec<&'a str> = Vec::new();
    let mut rest = contents.lines();
    proof {
        assert(seen + lines_left(rest) =~= all);
        assert(found.deep_view() =~= seen.filter(test)) by {
            reveal(Seq::filter);
        }
    }
    loop
        invariant_except_break
            seen + lines_left(rest) == all,
            found.deep_view() == seen.filter(test),
        invariant
            test == holds_query_ignoring_case(query@),
            needle@ == lowercase(query@),
        ensures
            found.deep_view() == all.filter(test),
        decreases lines_left(rest).len(),
    {
        let ghost kept = found.deep_view();
        let ghost left = lines_left(rest);
        match rest.next() {
            Some(line) => {
                let key = line.to_lowercase();
                keep_if_holds(&mut found, line, key.as_str(), needle.as_str());
                proof {
                    lemma_filter_step(seen, left, test);
                    assert(found.deep_view() =~= if test(line@) {
                        kept.push(line@)
                    } else {
                        kept
                    });
                    seen = seen.push(line@);
                }
            },
            None => {
                assert(seen + left =~= seen);
                break ;
            },
        }
    }
    proof {
        lemma_filter_exact(all, test);
        lemma_filter_in_order(all, test);
        lemma_filter_keeps_parts(contents@, test);
        assert forall|k: int| 0 <= k < found.len() implies contains(
            lowercase(#[trigger] found[k]@),
            lowercase(query@),
        ) && contains(contents@, found[k]@) by {
            assert(found.deep_view()[k] == found[k]@);
        }
        if query@.len() == 0 {
            assert(needle@ =~= Seq::empty());
            assert forall|j: int| 0 <= j < all.len() implies test(#[trigger] all[j]) by {
                lemma_contains_empty(lowercase(all[j]));
            }
            lemma_filter_keeps_all(all, test);
        }
        if forall|j: int|
            0 <= j < all.len() ==> lowercase(#[trigger] all[j]).len() < lowercase(query@).len() {
            assert forall|j: int| 0 <= j < all.len() implies !test(#[trigger] all[j]) by {
                lemma_longer_is_not_contained(lowercase(all[j]), lowercase(query@));
            }
            lemma_filter_drops_all(all, test);
        }
    }
    found
}

} // verus!
