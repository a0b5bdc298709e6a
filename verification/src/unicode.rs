//! Unicode properties that only the standard library's tables decide.

use vstd::prelude::*;

use crate::text::ascii_lower;
use vstd::utf8::is_ascii_chars;

verus! {

/// Whether a character beyond ASCII is alphanumeric in the sense of
/// `char::is_alphanumeric` (Unicode `Alphabetic` or `Numeric`); the tables
/// are not restated here.
pub uninterp spec fn unicode_alphanumeric(c: char) -> bool;

/// Whether `c` is alphanumeric as `char::is_alphanumeric` answers: an ASCII
/// character is exactly when it is a letter or a digit (`_` and the other
/// ASCII punctuation are neither `Alphabetic` nor `Numeric`); beyond ASCII
/// the Unicode tables decide.
pub open spec fn alphanumeric(c: char) -> bool {
    if c <= '\u{7f}' {
        ('a' <= c && c <= 'z') || ('A' <= c && c <= 'Z') || ('0' <= c && c <= '9')
    } else {
        unicode_alphanumeric(c)
    }
}

/// The full Unicode lower-casing of a text, as `str::to_lowercase` gives it.
pub uninterp spec fn unicode_lowercase(s: Seq<char>) -> Seq<char>;

/// Calls `char::is_alphanumeric`. The contract states the answer for ASCII
/// characters (letters and digits, as the `Alphabetic` and `Numeric`
/// properties it is documented by give them) and ties the answer for other
/// characters to [`unicode_alphanumeric`]; which of those the Unicode tables
/// count as alphanumeric is left unsaid.
#[verifier::external_body]
pub(crate) fn is_alphanumeric(c: char) -> (r: bool)
    ensures
        c <= '\u{7f}' ==> r == (('a' <= c && c <= 'z') || ('A' <= c && c <= 'Z') || ('0' <= c
            && c <= '9')),
        c > '\u{7f}' ==> r == unicode_alphanumeric(c),
{
    c.is_alphanumeric()
}

/// Calls `str::to_lowercase`. The contract ties the result to the text
/// through [`unicode_lowercase`] and states it for ASCII text, whose
/// lower-case mapping lowers `A` to `Z` and keeps every other character;
/// the Unicode case tables beyond ASCII are left unsaid.
#[verifier::external_body]
pub(crate) fn to_lowercase(s: &str) -> (r: String)
    ensures
        r@ == unicode_lowercase(s@),
        is_ascii_chars(s@) ==> r@ == s@.map_values(|c: char| ascii_lower(c)),
{
    s.to_lowercase()
}

} // verus!
