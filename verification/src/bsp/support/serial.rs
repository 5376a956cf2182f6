//! The console as a serial port.
use crate::console::{self, wrote, Console};
use crate::waker::WakerState;
use vstd::prelude::*;

verus! {

/// A handle of the console's UART.
pub struct Serial;

impl Serial {
    /// The next received byte; nothing means that the caller would block.
    pub fn read(&mut self, c: &mut Console, w: &mut WakerState) -> (r: Option<u8>)
        requires
            old(c).wf(),
        ensures
            final(c).wf(),
            final(c).same_mode(old(c)),
            *final(w) == *old(w),
            final(c).outgoing() == old(c).outgoing(),
            r is None <==> old(c).incoming().len() == 0,
            r is None ==> final(c).incoming() == old(c).incoming(),
            r matches Some(b) ==> b == old(c).incoming()[0] && final(c).incoming() == old(
                c,
            ).incoming().skip(1),
    {
        console::try_read_byte(c, w)
    }

    /// Send a byte. Returns whether the board must enable the transmit
    /// interrupt.
    pub fn write(&mut self, c: &mut Console, w: &mut WakerState, word: u8, out: &mut Vec<u8>) -> (
    kick: bool)
        requires
            old(c).wf(),
        ensures
            final(c).wf(),
            *final(w) == *old(w),
            wrote(old(c), final(c), old(out)@, final(out)@, seq![word], kick),
    {
        let one = [word];
        assert(one@ =~= seq![word]);
        console::write_bytes(c, w, &one, out)
    }
}

/// What the port receives is what the console has received, and a byte that it
/// sends goes where the console's bytes go.
pub proof fn law_port_is_the_console(
    s: &mut Serial,
    u: &mut Serial,
    c0: &mut Console,
    c1: &mut Console,
    w0: &mut WakerState,
    w1: &mut WakerState,
    word: u8,
    out: &mut Vec<u8>,
    r: Option<u8>,
    kick: bool,
)
    requires
        call_ensures(Serial::read, (s, c0, w0), r),
        call_ensures(Serial::write, (u, c1, w1, word, out), kick),
        !old(c1).irq_driven() || old(c1).outgoing().len() <= 254,
    ensures
        old(c0).incoming().len() == 0 ==> r is None,
        old(c0).incoming().len() > 0 ==> r == Some(old(c0).incoming()[0])
            && seq![r->0] + final(c0).incoming() == old(c0).incoming(),
        kick == (old(c1).irq_driven() && old(c1).started()),
        !kick ==> final(out)@ == old(out)@.push(word),
        kick ==> final(out)@ + final(c1).outgoing() == old(out)@ + old(c1).outgoing().push(word)
            && final(out)@.len() == old(out)@.len() + 1,
{
    if old(c0).incoming().len() > 0 {
        assert(seq![r->0] + final(c0).incoming() =~= old(c0).incoming());
    }
    if kick {
        let all = old(c1).outgoing() + seq![word];
        let n = console::spilled(all);
        assert(all =~= old(c1).outgoing().push(word));
        assert(all.take(n) + all.skip(n) =~= all);
        assert(final(out)@ + final(c1).outgoing() =~= old(out)@ + (all.take(n) + all.skip(n)));
    } else {
        assert(final(out)@ =~= old(out)@.push(word));
    }
}

} // verus!
