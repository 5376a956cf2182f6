//! Where the first frame of a new task goes.
use vstd::prelude::*;

verus! {

/// Alignment of a frame.
pub const STACK_ALIGN: usize = 16;

/// The lowest address of a frame of `bytes` bytes at the top of the stack
/// `[base, base + len)`: the highest aligned address that leaves room for it.
pub open spec fn frame_start(base: int, len: int, bytes: int) -> int {
    (base + len - bytes) - (base + len - bytes) % (STACK_ALIGN as int)
}

/// See [`frame_start`]. The frame lies within the stack.
pub fn place_frame(base: usize, len: usize, bytes: usize) -> (r: usize)
    requires
        base + len <= usize::MAX,
        len >= bytes + STACK_ALIGN,
    ensures
        r == frame_start(base as int, len as int, bytes as int),
        r % STACK_ALIGN == 0,
        base <= r,
        r + bytes <= base + len,
{
    let top: usize = base + len;
    let raw: usize = top - bytes;
    raw - raw % STACK_ALIGN
}

/// A frame lies at the highest aligned place of its stack that has room for
/// it.
pub proof fn law_frame_is_as_high_as_it_can_be(base: usize, len: usize, bytes: usize, r: usize)
    requires
        base + len <= usize::MAX,
        len >= bytes + 16,
        call_ensures(place_frame, (base, len, bytes), r),
    ensures
        r % 16 == 0,
        base <= r,
        r + bytes <= base + len < r + bytes + 16,
{
}

} // verus!
