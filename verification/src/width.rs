//! How many terminal columns a piece of text takes.

use unicode_width::UnicodeWidthStr;
use vstd::prelude::*;

verus! {

/// The number of columns in which a terminal shows `text`: what
/// `unicode_width::UnicodeWidthStr::width` returns for it, by the rules of
/// Unicode's East Asian Width and its amendments for ligatures and emoji.
pub uninterp spec fn display_width(text: Seq<char>) -> usize;

/// The width of `text` as a screen coordinate. Coordinates are 16 bits wide,
/// and a wider text keeps the low bits of its width.
pub open spec fn columns(text: Seq<char>) -> u16 {
    display_width(text) as u16
}

/// Measures `s` with `unicode_width::UnicodeWidthStr::width` and cuts the
/// result to 16 bits. Nothing is proved of the measure itself: the contract
/// only gives it its name, `display_width`.
#[verifier::external_body]
pub fn wcswidth(s: &str) -> (w: u16)
    ensures
        w == display_width(s@) as u16,
{
    UnicodeWidthStr::width(s) as u16
}

} // verus!
