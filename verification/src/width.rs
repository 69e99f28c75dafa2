//! Terminal column widths of characters and strings, as computed by the
//! `unicode-width` crate (UAX #11, ambiguous characters one column wide).
use vstd::prelude::*;
use unicode_width::{UnicodeWidthChar, UnicodeWidthStr};

verus! {

/// The width `unicode-width` assigns to one character (`None` for control
/// characters).
pub uninterp spec fn unicode_char_width(c: char) -> Option<usize>;

/// The width `unicode-width` assigns to a whole string; it differs from the
/// sum of the character widths for `"\r\n"` and emoji sequences.
pub uninterp spec fn unicode_str_width(s: Seq<char>) -> usize;

/// `UnicodeWidthChar::width`: the column width of `c`, a function of `c`
/// alone. Of its value only what the crate's ASCII fast path gives is claimed:
/// printable ASCII (`' '` to `'~'`) is one column wide, and the other
/// characters below U+00A0 are control codes, with no width.
#[verifier::external_body]
pub(crate) fn char_width(c: char) -> (r: Option<usize>)
    ensures
        r == unicode_char_width(c),
        ' ' <= c <= '~' ==> r == Some(1usize),
        c < ' ' || ('\u{7f}' <= c < '\u{a0}') ==> r is None,
{
    UnicodeWidthChar::width(c)
}

/// `UnicodeWidthStr::width`: the column width of `s`, a function of the
/// characters of `s` alone. Of its value only this is claimed: a string of
/// printable ASCII (`' '` to `'~'`) is as wide as it is long (each such
/// character counts one column and starts no sequence that is measured
/// otherwise).
#[verifier::external_body]
pub(crate) fn str_width(s: &str) -> (r: usize)
    ensures
        r == unicode_str_width(s@),
        (forall|i: int| 0 <= i < s@.len() ==> ' ' <= #[trigger] s@[i] <= '~') ==> r == s@.len(),
{
    UnicodeWidthStr::width(s)
}

/// The width the wrapping code uses for a character: unknown widths count as 0.
pub open spec fn col_width(c: char) -> nat {
    match unicode_char_width(c) {
        Some(w) => w as nat,
        None => 0,
    }
}

/// Executable `col_width`.
pub fn column_width(c: char) -> (r: usize)
    ensures
        r == col_width(c),
{
    match char_width(c) {
        Some(w) => w,
        None => 0,
    }
}

} // verus!
