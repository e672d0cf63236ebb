//! Alignment arithmetic of the wire format.
use vstd::prelude::*;

verus! {

/// Every record of the wire format starts on a multiple of this many bytes.
pub const ALIGNTO: usize = 4;

/// `len` rounded up to the next multiple of four.
pub open spec fn align_up(len: int) -> int {
    if len % 4 == 0 {
        len
    } else {
        len + 4 - len % 4
    }
}

/// Number of filler bytes that follow a record of `len` bytes.
pub open spec fn padding(len: int) -> int {
    align_up(len) - len
}

/// Rounds `len` up to the alignment boundary.
pub fn align(len: usize) -> (aligned: usize)
    requires
        align_up(len as int) <= usize::MAX,
    ensures
        aligned == align_up(len as int),
{
    let rem: usize = len % 4;
    if rem == 0 {
        len
    } else {
        len + (4 - rem)
    }
}

} // verus!
