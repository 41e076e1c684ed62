//! The operations of the standard library on `str` that the search relies on.
//!
//! Nothing in this file is proved. Each item says of one function of the
//! standard library what its documentation says, in the terms of the model of
//! text, and the rest of the crate is proved on that footing.

use crate::text::{contains, lines_of};
use std::str::Lines;
use vstd::prelude::*;

verus! {

/// The text that `str::to_lowercase` gives for the text `s`.
pub uninterp spec fn lowercase(s: Seq<char>) -> Seq<char>;

/// `str::to_lowercase` returns the lowercase equivalent of a string slice as a
/// new `String`. Which characters that text holds is decided by the Unicode
/// tables of the standard library and is not stated here; the result is a
/// function of the characters of `s` alone and goes by the name `lowercase`.
/// Beside that only this: the empty text has no character to convert, so what
/// comes back for it is empty.
pub assume_specification[ str::to_lowercase ](s: &str) -> (folded: String)
    ensures
        folded@ == lowercase(s@),
        s@.len() == 0 ==> folded@.len() == 0,
;

/// `str::contains`, called with a string slice as the pattern, tells whether
/// the pattern matches a sub-slice of `hay`, which is to say whether the
/// characters of `needle` stand somewhere in `hay` one after the other.
#[verifier::external_body]
pub(crate) fn holds(hay: &str, needle: &str) -> (found: bool)
    ensures
        found == contains(hay@, needle@),
{
    hay.contains(needle)
}

/// `std::str::Lines`, the iterator over the lines of a string slice. What is
/// inside it is not looked at; what it has left to give goes by the name
/// `lines_left`.
#[verifier::external_type_specification]
#[verifier::external_body]
pub struct ExLines<'a>(std::str::Lines<'a>);

/// The lines that `rest` has not handed out yet, in the order in which it will
/// hand them out.
pub uninterp spec fn lines_left(rest: Lines<'_>) -> Seq<Seq<char>>;

/// `str::lines` returns an iterator over the lines of a string slice, as
/// string slices. Lines are split at line endings that are either a line feed
/// or a carriage return followed by a line feed; a carriage return that no line
/// feed follows splits nothing and stays in its line; the line ending is not
/// part of the line; the last line needs no line ending, so a text that ends in
/// one has the same lines as the text without it. The fresh iterator has all of
/// these lines left.
pub assume_specification<'a>[ str::lines ](s: &'a str) -> (rest: Lines<'a>)
    ensures
        lines_left(rest) == lines_of(s@),
;

/// `Iterator::next` on `Lines` hands out the first line that is left, as a
/// slice of the text that the iterator walks over, and keeps the others; with
/// no line left it returns `None`.
pub assume_specification<'a>[ <Lines<'a> as Iterator>::next ](rest: &mut Lines<'a>) -> (line:
    Option<&'a str>)
    ensures
        lines_left(*old(rest)).len() == 0 ==> line is None,
        lines_left(*old(rest)).len() > 0 ==> line is Some && line->0@ == lines_left(
            *old(rest),
        ).first() && lines_left(*final(rest)) == lines_left(*old(rest)).drop_first(),
;

} // verus!
