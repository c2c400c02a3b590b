//! Display width of text in terminal columns, from the `unicode-width` crate.

use vstd::prelude::*;

verus! {

/// The width in columns of a string (Unicode Standard Annex #11, with
/// ambiguous characters one column wide), as `UnicodeWidthStr::width`
/// computes it.
pub uninterp spec fn text_width(s: Seq<char>) -> usize;

/// `unicode_width::UnicodeWidthStr::width`: the displayed width of `s` in
/// columns. The result is a function of the text alone; an empty string is
/// zero columns wide (the sum starts at zero).
#[verifier::external_body]
pub(crate) fn display_width(s: &str) -> (w: usize)
    ensures
        w == text_width(s@),
        s@.len() == 0 ==> w == 0,
{
    unicode_width::UnicodeWidthStr::width(s)
}

} // verus!
