//! Layout arithmetic for terminal output.

use vstd::prelude::*;

verus! {

/// Width of the box drawn around a section title.
pub const HEADER_WIDTH: usize = 60;

/// Spaces to the left and right of a title of `title_len` bytes so that it
/// sits centred in the header box; none when it does not fit.
pub fn header_padding(title_len: usize) -> (r: (usize, usize))
    ensures
        r.0 + r.1 == (if title_len + 2 >= HEADER_WIDTH {
            0
        } else {
            HEADER_WIDTH - title_len - 2
        }),
        r.0 == (r.0 + r.1) / 2,
{
    let padding: usize = if title_len >= HEADER_WIDTH - 2 {
        0
    } else {
        HEADER_WIDTH - 2 - title_len
    };
    let left = padding / 2;
    (left, padding - left)
}

} // verus!
