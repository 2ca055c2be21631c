//! Window sizes handed to the pseudo-terminal layer.
use vstd::prelude::*;

use portable_pty::PtySize;

verus! {

/// The pseudo-terminal size record of portable-pty: four plain `u16` fields.
#[verifier::external_type_specification]
pub struct ExPtySize(PtySize);

/// The size requested from the OS for a session of `cols` columns and `rows`
/// rows. Pixel dimensions are not tracked and are always zero.
pub fn pty_size(cols: u16, rows: u16) -> (s: PtySize)
    ensures
        s.cols == cols,
        s.rows == rows,
        s.pixel_width == 0,
        s.pixel_height == 0,
{
    PtySize { rows, cols, pixel_width: 0, pixel_height: 0 }
}

} // verus!
