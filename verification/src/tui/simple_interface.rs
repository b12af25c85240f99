//! Helpers of the menu-driven task list.

use vstd::prelude::*;
use crate::text::can_shorten;
use crate::text::shorten;
use crate::text::shortened;

verus! {

/// The bytes kept of a text that is cut to fit `max_len`: three less, for the
/// dots.
pub open spec fn bytes_kept(max_len: int) -> int {
    if max_len >= 3 {
        max_len - 3
    } else {
        0
    }
}

/// Cuts a text of more than `max_len` bytes to three bytes less than `max_len`
/// and puts three dots behind it. It must be possible to cut it there.
pub fn truncate(s: &str, max_len: usize) -> (r: String)
    requires
        can_shorten(s@, max_len as int, bytes_kept(max_len as int)),
    ensures
        r@ == shortened(s@, max_len as int, bytes_kept(max_len as int)),
{
    shorten(s, max_len, max_len.saturating_sub(3))
}

} // verus!
