//! How the system ends on a board.
use crate::console::{self, Console};
use crate::waker::WakerState;
use vstd::prelude::*;

verus! {

/// What the board does last.
#[derive(Debug, Clone, Copy, PartialEq, Eq, Structural)]
pub enum LastAct {
    /// Reset.
    Reset,
    /// End with a code, zero for success.
    Exit(u32),
}

/// Reset the system. What is still queued for the console is written first: the
/// interrupt that would send it will not come any more.
pub fn reset(c: &mut Console, w: &mut WakerState, out: &mut Vec<u8>) -> (r: LastAct)
    requires
        old(c).wf(),
    ensures
        final(c).wf(),
        final(c).same_mode(old(c)),
        *final(w) == *old(w),
        final(c).incoming() == old(c).incoming(),
        final(c).outgoing() == Seq::<u8>::empty(),
        final(out)@ == old(out)@ + old(c).outgoing(),
        r == LastAct::Reset,
{
    console::flush_sync(c, w, out);
    LastAct::Reset
}

/// End the program with a code, with the console written out first.
pub fn exit(c: &mut Console, w: &mut WakerState, code: u32, out: &mut Vec<u8>) -> (r: LastAct)
    requires
        old(c).wf(),
    ensures
        final(c).wf(),
        final(c).same_mode(old(c)),
        *final(w) == *old(w),
        final(c).incoming() == old(c).incoming(),
        final(c).outgoing() == Seq::<u8>::empty(),
        final(out)@ == old(out)@ + old(c).outgoing(),
        r == LastAct::Exit(code),
{
    console::flush_sync(c, w, out);
    LastAct::Exit(code)
}

/// A board that resets or ends has written everything that was queued, and
/// ends with the code that it was given.
pub proof fn law_board_ends_written_out(
    c0: &mut Console,
    c1: &mut Console,
    w0: &mut WakerState,
    w1: &mut WakerState,
    code: u32,
    out0: &mut Vec<u8>,
    out1: &mut Vec<u8>,
    a: LastAct,
    b: LastAct,
)
    requires
        call_ensures(reset, (c0, w0, out0), a),
        call_ensures(exit, (c1, w1, code, out1), b),
    ensures
        a is Reset,
        b == LastAct::Exit(code),
        final(out0)@ == old(out0)@ + old(c0).outgoing(),
        final(out1)@ == old(out1)@ + old(c1).outgoing(),
        final(c0).outgoing().len() == 0,
        final(c1).outgoing().len() == 0,
{
}

} // verus!
