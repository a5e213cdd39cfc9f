//! Shown width of characters.

use vstd::prelude::*;

verus! {

/// The number of columns that `unicode_width::UnicodeWidthChar::width` gives
/// for a character, or `None` where it gives none.
pub uninterp spec fn unicode_width(c: char) -> Option<usize>;

/// Calls `unicode_width::UnicodeWidthChar::width` on `c`.
///
/// Trusted: the result depends on `c` alone (the crate reads it from constant
/// tables), so it is the value that `unicode_width` names.
#[verifier::external_body]
fn lookup_width(c: char) -> (w: Option<usize>)
    ensures
        w == unicode_width(c),
{
    unicode_width::UnicodeWidthChar::width(c)
}

/// Whether `c` is one of the printable ASCII characters, space to tilde.
pub open spec fn is_printable_ascii(c: char) -> bool {
    0x20 <= c as u32 && (c as u32) < 0x7f
}

/// The number of columns a character takes on the terminal: one for printable
/// ASCII, otherwise what the width tables say, and zero for characters
/// without a width of their own.
pub open spec fn display_width(c: char) -> nat {
    if is_printable_ascii(c) {
        1
    } else {
        match unicode_width(c) {
            Some(w) => w as nat,
            None => 0,
        }
    }
}

/// Returns the number of columns that `c` takes on the terminal.
pub fn char_width(c: char) -> (w: usize)
    ensures
        w == display_width(c),
{
    if c >= ' ' && c <= '~' {
        1
    } else {
        match lookup_width(c) {
            Some(w) => w,
            None => 0,
        }
    }
}

} // verus!
