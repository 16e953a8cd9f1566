//! Display width of text in terminal columns, as the `unicode-width` crate
//! determines it.

use crate::readline::cluster;
use unicode_width::UnicodeWidthStr;
use vstd::prelude::*;

verus! {

/// How many terminal columns a text takes, as `UnicodeWidthStr::width` counts
/// them.
pub uninterp spec fn column_width(text: Seq<char>) -> nat;

/// Calls `UnicodeWidthStr::width`. Believed of it: the width depends on the
/// text alone, no character adds more than three columns to it, and printable
/// ASCII takes one column for each character.
#[verifier::external_body]
pub(crate) fn width_of(s: &str) -> (r: usize)
    ensures
        r == column_width(s@),
        r <= 3 * s@.len(),
        cluster::plain(s@) ==> r == s@.len(),
{
    UnicodeWidthStr::width(s)
}

} // verus!
