//! The debug console.
//!
//! By default bytes are written to the board straight away. A board whose
//! transmitter raises an interrupt when it is empty can switch to a ring: a
//! write then queues its bytes and the interrupt handler takes them out. A
//! write that overruns the ring writes the oldest bytes itself, so nothing is
//! lost and the order is kept.
//!
//! What is written to the board appears at the end of `out`.
use crate::sync::channel::{Channel, Receiver, Sender};
use crate::text::{self, lit};
use crate::waker::WakerState;
use vstd::prelude::*;

verus! {

/// Places of the receive ring.
pub const RX_CAPACITY: usize = 64;

/// Places of the transmit ring.
pub const TX_CAPACITY: usize = 256;

/// Attempts to take the write lock before a write goes ahead without it.
pub const LOCK_SPIN_LIMIT: u32 = 100_000;

/// The console's rings and mode.
pub struct Console {
    rx: Channel<u8, RX_CAPACITY>,
    tx: Channel<u8, TX_CAPACITY>,
    rx_ends: Option<(Sender<u8, RX_CAPACITY>, Receiver<u8, RX_CAPACITY>)>,
    tx_ends: Option<(Sender<u8, TX_CAPACITY>, Receiver<u8, TX_CAPACITY>)>,
    irq_tx: bool,
    write_lock: bool,
}

impl Console {
    /// Received bytes that nobody has read.
    pub closed spec fn incoming(&self) -> Seq<u8> {
        self.rx.queue()
    }

    /// Bytes that wait to be transmitted.
    pub closed spec fn outgoing(&self) -> Seq<u8> {
        self.tx.queue()
    }

    /// The rings are in use.
    pub closed spec fn started(&self) -> bool {
        self.rx_ends is Some
    }

    /// Writes go through the ring.
    pub closed spec fn irq_driven(&self) -> bool {
        self.irq_tx
    }

    /// Another hart is in the middle of a direct write.
    pub closed spec fn locked(&self) -> bool {
        self.write_lock
    }

    /// The rings are sound, nobody waits on them, and nothing is queued before
    /// they are in use.
    pub closed spec fn wf(&self) -> bool {
        &&& self.rx.wf()
        &&& self.tx.wf()
        &&& self.rx.receiver_waiting() is None
        &&& self.rx.sender_waiting() is None
        &&& self.tx.receiver_waiting() is None
        &&& self.tx.sender_waiting() is None
        &&& self.rx.is_split() == (self.rx_ends is Some)
        &&& self.tx.is_split() == (self.tx_ends is Some)
        &&& self.rx_ends is Some == self.tx_ends is Some
        &&& self.rx_ends is None ==> self.rx.queue().len() == 0 && self.tx.queue().len() == 0
    }

    /// Everything but the given parts is the same.
    pub open spec fn same_mode(&self, pre: &Console) -> bool {
        &&& self.started() == pre.started()
        &&& self.irq_driven() == pre.irq_driven()
        &&& self.locked() == pre.locked()
    }

    /// A console that writes straight away.
    pub fn new() -> (r: Self)
        ensures
            r.wf(),
            !r.started(),
            !r.irq_driven(),
            !r.locked(),
            r.incoming() == Seq::<u8>::empty(),
            r.outgoing() == Seq::<u8>::empty(),
    {
        Console {
            rx: Channel::new(),
            tx: Channel::new(),
            rx_ends: None,
            tx_ends: None,
            irq_tx: false,
            write_lock: false,
        }
    }
}

/// Take the rings into use. The second time does nothing.
pub fn init(c: &mut Console)
    requires
        old(c).wf(),
    ensures
        final(c).wf(),
        final(c).started(),
        final(c).irq_driven() == old(c).irq_driven(),
        final(c).locked() == old(c).locked(),
        final(c).incoming() == old(c).incoming(),
        final(c).outgoing() == old(c).outgoing(),
{
    if let Some(ends) = c.rx.split() {
        c.rx_ends = Some(ends);
    }
    if let Some(ends) = c.tx.split() {
        c.tx_ends = Some(ends);
    }
}

/// From now on, writes go through the transmit ring.
pub fn enable_irq_tx(c: &mut Console)
    requires
        old(c).wf(),
    ensures
        final(c).wf(),
        final(c).irq_driven(),
        final(c).started() == old(c).started(),
        final(c).locked() == old(c).locked(),
        final(c).incoming() == old(c).incoming(),
        final(c).outgoing() == old(c).outgoing(),
{
    c.irq_tx = true;
}

/// The next queued byte, for the interrupt handler to transmit.
pub fn tx_irq_next_byte(c: &mut Console, w: &mut WakerState) -> (r: Option<u8>)
    requires
        old(c).wf(),
    ensures
        final(c).wf(),
        final(c).same_mode(old(c)),
        *final(w) == *old(w),
        final(c).incoming() == old(c).incoming(),
        r is None <==> old(c).outgoing().len() == 0,
        r is None ==> final(c).outgoing() == old(c).outgoing(),
        r matches Some(b) ==> b == old(c).outgoing()[0] && final(c).outgoing() == old(
            c,
        ).outgoing().skip(1),
{
    match &c.tx_ends {
        Some((_, rx)) => rx.try_recv(&mut c.tx, w),
        None => None,
    }
}

/// A byte was received. It is dropped when the ring is full, or not in use.
pub fn on_rx_byte(c: &mut Console, w: &mut WakerState, b: u8)
    requires
        old(c).wf(),
    ensures
        final(c).wf(),
        final(c).same_mode(old(c)),
        *final(w) == *old(w),
        final(c).outgoing() == old(c).outgoing(),
        final(c).incoming() == (if old(c).started() && old(c).incoming().len() < RX_CAPACITY - 1 {
            old(c).incoming().push(b)
        } else {
            old(c).incoming()
        }),
{
    if let Some((tx, _)) = &c.rx_ends {
        let _sent = tx.try_send(&mut c.rx, w, b);
    }
}

/// The oldest received byte that nobody has read.
pub fn try_read_byte(c: &mut Console, w: &mut WakerState) -> (r: Option<u8>)
    requires
        old(c).wf(),
    ensures
        final(c).wf(),
        final(c).same_mode(old(c)),
        *final(w) == *old(w),
        final(c).outgoing() == old(c).outgoing(),
        r is None <==> old(c).incoming().len() == 0,
        r is None ==> final(c).incoming() == old(c).incoming(),
        r matches Some(b) ==> b == old(c).incoming()[0] && final(c).incoming() == old(
            c,
        ).incoming().skip(1),
{
    match &c.rx_ends {
        Some((_, rx)) => rx.try_recv(&mut c.rx, w),
        None => None,
    }
}

/// How many bytes of `all` a write through the ring writes straight away: what
/// the ring has no room for, and one more to set the transmitter going.
pub open spec fn spilled(all: Seq<u8>) -> int {
    if all.len() == 0 {
        0
    } else if all.len() > TX_CAPACITY - 1 {
        all.len() - (TX_CAPACITY - 1) + 1
    } else {
        1
    }
}

/// What a write does, and whether it asks for the transmit interrupt.
pub open spec fn wrote(
    pre: &Console,
    post: &Console,
    pre_out: Seq<u8>,
    post_out: Seq<u8>,
    bytes: Seq<u8>,
    kick: bool,
) -> bool {
    &&& post.same_mode(pre)
    &&& post.incoming() == pre.incoming()
    &&& kick == (pre.irq_driven() && pre.started())
    &&& if kick {
        let all = pre.outgoing() + bytes;
        &&& post_out == pre_out + all.take(spilled(all))
        &&& post.outgoing() == all.skip(spilled(all))
    } else {
        &&& post_out == pre_out + bytes
        &&& post.outgoing() == pre.outgoing()
    }
}

/// Push one byte into the transmit ring, making room if there is none.
fn push_tx(c: &mut Console, w: &mut WakerState, b: u8, out: &mut Vec<u8>)
    requires
        old(c).wf(),
        old(c).started(),
    ensures
        final(c).wf(),
        final(c).same_mode(old(c)),
        final(c).incoming() == old(c).incoming(),
        *final(w) == *old(w),
        old(c).outgoing().len() <= TX_CAPACITY - 1,
        old(c).outgoing().len() < TX_CAPACITY - 1 ==> final(c).outgoing() == old(
            c,
        ).outgoing().push(b) && final(out)@ == old(out)@,
        old(c).outgoing().len() == TX_CAPACITY - 1 ==> final(c).outgoing() == old(
            c,
        ).outgoing().skip(1).push(b) && final(out)@ == old(out)@.push(old(c).outgoing()[0]),
{
    proof {
        c.tx.law_capacity();
    }
    let mut sent = false;
    if let Some((tx, _)) = &c.tx_ends {
        sent = tx.try_send(&mut c.tx, w, b).is_ok();
    }
    if !sent {
        if let Some(oldest) = tx_irq_next_byte(c, w) {
            out.push(oldest);
        }
        if let Some((tx, _)) = &c.tx_ends {
            let _sent = tx.try_send(&mut c.tx, w, b);
        }
    }
}

fn write_bytes_irq(c: &mut Console, w: &mut WakerState, bytes: &[u8], out: &mut Vec<u8>) -> (r:
    bool)
    requires
        old(c).wf(),
        old(c).irq_driven(),
    ensures
        final(c).wf(),
        *final(w) == *old(w),
        r == old(c).started(),
        r ==> wrote(old(c), final(c), old(out)@, final(out)@, bytes@, true),
        !r ==> *final(c) == *old(c) && final(out)@ == old(out)@,
{
    if c.tx_ends.is_none() {
        return false;
    }
    let ghost queued = c.outgoing();
    let ghost whole = queued + bytes@;
    proof {
        c.tx.law_capacity();
        assert(queued + bytes@.take(0) =~= queued);
        assert(queued.skip(0) =~= queued);
        assert(out@ + queued.take(0) =~= out@);
    }
    let ghost mut over: int = 0;
    let mut i: usize = 0;
    while i < bytes.len()
        invariant
            i <= bytes@.len(),
            c.wf(),
            c.started(),
            c.same_mode(old(c)),
            c.incoming() == old(c).incoming(),
            *w == *old(w),
            queued == old(c).outgoing(),
            queued.len() <= TX_CAPACITY - 1,
            0 <= over <= queued.len() + i,
            over == (if queued.len() + i > TX_CAPACITY - 1 {
                queued.len() + i - (TX_CAPACITY - 1)
            } else {
                0
            }),
            c.outgoing() == (queued + bytes@.take(i as int)).skip(over),
            out@ == old(out)@ + (queued + bytes@.take(i as int)).take(over),
        decreases bytes@.len() - i,
    {
        let ghost sofar = queued + bytes@.take(i as int);
        let ghost next = queued + bytes@.take(i + 1);
        let ghost was = c.outgoing();
        assert(next =~= sofar.push(bytes@[i as int]));
        push_tx(c, w, bytes[i], out);
        proof {
            if was.len() < TX_CAPACITY - 1 {
                assert(next.skip(over) =~= sofar.skip(over).push(bytes@[i as int]));
                assert(next.take(over) =~= sofar.take(over));
            } else {
                assert(next.skip(over + 1) =~= sofar.skip(over).skip(1).push(bytes@[i as int]));
                assert(next.take(over + 1) =~= sofar.take(over).push(was[0]));
                over = over + 1;
            }
        }
        i = i + 1;
    }
    assert(bytes@.take(i as int) =~= bytes@);
    let ghost was = c.outgoing();
    if let Some(b) = tx_irq_next_byte(c, w) {
        out.push(b);
        proof {
            assert(whole.skip(over).skip(1) =~= whole.skip(over + 1));
            assert(whole.take(over + 1) =~= whole.take(over).push(b));
            assert(spilled(whole) == over + 1);
            assert(out@ =~= old(out)@ + whole.take(over + 1));
        }
    } else {
        assert(whole.len() == 0);
        assert(whole.skip(0) =~= whole);
    }
    true
}

/// Write text. Returns whether the board must enable the transmit interrupt.
pub fn write_str(c: &mut Console, w: &mut WakerState, s: &str, out: &mut Vec<u8>) -> (kick: bool)
    requires
        old(c).wf(),
    ensures
        final(c).wf(),
        *final(w) == *old(w),
        wrote(old(c), final(c), old(out)@, final(out)@, lit(s), kick),
{
    write_bytes(c, w, s.as_bytes(), out)
}

/// Write bytes. Returns whether the board must enable the transmit interrupt.
///
/// A direct write takes the write lock if it can, and goes ahead without it
/// after a bounded number of attempts: a hart that is stuck must not keep
/// another from reporting.
pub fn write_bytes(c: &mut Console, w: &mut WakerState, bytes: &[u8], out: &mut Vec<u8>) -> (kick:
    bool)
    requires
        old(c).wf(),
    ensures
        final(c).wf(),
        *final(w) == *old(w),
        wrote(old(c), final(c), old(out)@, final(out)@, bytes@, kick),
{
    if c.irq_tx {
        if write_bytes_irq(c, w, bytes, out) {
            return true;
        }
    }
    let mut spins: u32 = 0;
    while c.write_lock && spins < LOCK_SPIN_LIMIT
        invariant
            spins <= LOCK_SPIN_LIMIT,
        decreases LOCK_SPIN_LIMIT - spins,
    {
        spins = spins + 1;
    }
    if c.write_lock {
        text::put_bytes(out, bytes);
        return false;
    }
    c.write_lock = true;
    text::put_bytes(out, bytes);
    c.write_lock = false;
    false
}

/// Write everything that is still queued straight away. To be called before
/// the machine stops or resets, when no interrupt will come any more.
pub fn flush_sync(c: &mut Console, w: &mut WakerState, out: &mut Vec<u8>)
    requires
        old(c).wf(),
    ensures
        final(c).wf(),
        final(c).same_mode(old(c)),
        *final(w) == *old(w),
        final(c).incoming() == old(c).incoming(),
        final(out)@ == old(out)@ + old(c).outgoing(),
        final(c).outgoing() == Seq::<u8>::empty(),
{
    let ghost all = c.outgoing();
    let ghost mut done: int = 0;
    proof {
        assert(all.skip(0) =~= all);
        assert(out@ + all.take(0) =~= out@);
    }
    loop
        invariant
            c.wf(),
            c.same_mode(old(c)),
            *w == *old(w),
            c.incoming() == old(c).incoming(),
            all == old(c).outgoing(),
            0 <= done <= all.len(),
            c.outgoing() == all.skip(done),
            out@ == old(out)@ + all.take(done),
        decreases all.len() - done,
    {
        match tx_irq_next_byte(c, w) {
            Some(b) => {
                out.push(b);
                proof {
                    assert(all.skip(done).skip(1) =~= all.skip(done + 1));
                    assert(all.take(done + 1) =~= all.take(done).push(b));
                    assert(out@ =~= old(out)@ + all.take(done + 1));
                    done = done + 1;
                }
            },
            None => {
                assert(done == all.len());
                assert(all.take(done) =~= all);
                assert(all.skip(done) =~= Seq::<u8>::empty());
                return ;
            },
        }
    }
}

/// Nothing is lost and nothing overtakes: what has been written, followed by
/// what is queued, grows by exactly the bytes of a write.
pub proof fn law_write_keeps_order(
    pre: Console,
    post: Console,
    pre_out: Seq<u8>,
    post_out: Seq<u8>,
    bytes: Seq<u8>,
    kick: bool,
)
    requires
        wrote(&pre, &post, pre_out, post_out, bytes, kick),
        kick || pre.outgoing().len() == 0,
    ensures
        post_out + post.outgoing() == (pre_out + pre.outgoing()) + bytes,
{
    let all = pre.outgoing() + bytes;
    if kick {
        assert(all.take(spilled(all)) + all.skip(spilled(all)) =~= all);
        assert(post_out + post.outgoing() =~= pre_out + (all.take(spilled(all)) + all.skip(
            spilled(all),
        )));
        assert((pre_out + pre.outgoing()) + bytes =~= pre_out + all);
    } else {
        assert(post_out + post.outgoing() =~= (pre_out + pre.outgoing()) + bytes);
    }
}

/// Without the transmit interrupt every byte goes out at once, whatever the
/// mode was before.
pub proof fn law_direct_write_goes_out(
    c: &mut Console,
    w: &mut WakerState,
    bytes: &[u8],
    out: &mut Vec<u8>,
    kick: bool,
)
    requires
        !old(c).irq_driven() || !old(c).started(),
        call_ensures(write_bytes, (c, w, bytes, out), kick),
    ensures
        !kick,
        final(out)@ == old(out)@ + bytes@,
        final(c).outgoing() == old(c).outgoing(),
        final(c).incoming() == old(c).incoming(),
{
}

/// With the transmit interrupt a write sets the transmitter going with the
/// oldest byte and leaves at most 254 bytes in the ring; what went out and what
/// is in the ring, in that order, are what was there and then the new bytes;
/// and the interrupt handler hands out what is in the ring from its front.
#[verifier::spinoff_prover]
#[verifier::rlimit(60)]
pub proof fn law_queued_write_goes_out_in_order(
    c0: &mut Console,
    c1: &mut Console,
    c2: &mut Console,
    c3: &mut Console,
    c4: &mut Console,
    w2: &mut WakerState,
    w3: &mut WakerState,
    w4: &mut WakerState,
    bytes: &[u8],
    out: &mut Vec<u8>,
    flushed: &mut Vec<u8>,
    kick: bool,
    next: Option<u8>,
)
    requires
        old(c0).wf(),
        call_ensures(init, (c0,), ()),
        *old(c1) == *final(c0),
        call_ensures(enable_irq_tx, (c1,), ()),
        *old(c2) == *final(c1),
        call_ensures(write_bytes, (c2, w2, bytes, out), kick),
        *old(c3) == *final(c2),
        call_ensures(tx_irq_next_byte, (c3, w3), next),
        *old(c4) == *final(c2),
        call_ensures(flush_sync, (c4, w4, flushed), ()),
    ensures
        kick,
        final(out)@ + final(c2).outgoing() == old(out)@ + (old(c0).outgoing() + bytes@),
        bytes@.len() > 0 ==> final(out)@.len() > old(out)@.len(),
        final(c2).outgoing().len() <= 254,
        old(c0).outgoing().len() + bytes@.len() <= 255 && bytes@.len() > 0 ==> final(out)@.len()
            == old(out)@.len() + 1,
        final(c2).outgoing().len() == 0 ==> next is None,
        final(c2).outgoing().len() > 0 ==> next == Some(final(c2).outgoing()[0]) && seq![next->0]
            + final(c3).outgoing() == final(c2).outgoing(),
        final(flushed)@ == old(flushed)@ + final(c2).outgoing(),
        final(c4).outgoing().len() == 0,
{
    let all = old(c0).outgoing() + bytes@;
    assert(final(c2).outgoing() == all.skip(spilled(all)));
    assert(all.take(spilled(all)) + all.skip(spilled(all)) =~= all);
    assert(final(out)@ + final(c2).outgoing() =~= old(out)@ + (all.take(spilled(all)) + all.skip(
        spilled(all),
    )));
    if final(c2).outgoing().len() > 0 {
        assert(seq![next->0] + final(c3).outgoing() =~= final(c2).outgoing());
    }
}

/// Received bytes are read in the order in which they came. The ring holds 63
/// of them; a byte that comes when it is full is dropped, and so is one that
/// comes before the ring is in use.
pub proof fn law_received_bytes_are_read(
    fresh: Console,
    c0: &mut Console,
    c1: &mut Console,
    c2: &mut Console,
    c3: &mut Console,
    c4: &mut Console,
    c5: &mut Console,
    w0: &mut WakerState,
    w1: &mut WakerState,
    w2: &mut WakerState,
    w3: &mut WakerState,
    w4: &mut WakerState,
    a: u8,
    b: u8,
    r0: Option<u8>,
    r1: Option<u8>,
    r2: Option<u8>,
)
    requires
        call_ensures(Console::new, (), fresh),
        *old(c0) == fresh,
        call_ensures(init, (c0,), ()),
        *old(c1) == *final(c0),
        call_ensures(on_rx_byte, (c1, w0, a), ()),
        *old(c2) == *final(c1),
        call_ensures(on_rx_byte, (c2, w1, b), ()),
        *old(c3) == *final(c2),
        call_ensures(try_read_byte, (c3, w2), r0),
        *old(c4) == *final(c3),
        call_ensures(try_read_byte, (c4, w3), r1),
        *old(c5) == *final(c4),
        call_ensures(try_read_byte, (c5, w4), r2),
    ensures
        r0 == Some(a),
        r1 == Some(b),
        r2 is None,
{
}

/// The receive ring takes a byte in behind the others until it holds 63.
pub proof fn law_receive_ring_fills_up(c: &mut Console, w: &mut WakerState, b: u8)
    requires
        old(c).started(),
        call_ensures(on_rx_byte, (c, w, b), ()),
    ensures
        old(c).incoming().len() <= 62 ==> final(c).incoming() == old(c).incoming() + seq![b],
        old(c).incoming().len() >= 63 ==> final(c).incoming() == old(c).incoming(),
        final(c).outgoing() == old(c).outgoing(),
{
    if old(c).incoming().len() <= 62 {
        assert(old(c).incoming().push(b) =~= old(c).incoming() + seq![b]);
    }
}

/// Text is written as its bytes are.
pub proof fn law_text_is_written_as_bytes(
    c0: &mut Console,
    c1: &mut Console,
    w0: &mut WakerState,
    w1: &mut WakerState,
    s: &str,
    bytes: &[u8],
    out0: &mut Vec<u8>,
    out1: &mut Vec<u8>,
    kick0: bool,
    kick1: bool,
)
    requires
        bytes@ == lit(s),
        *old(c0) == *old(c1),
        *old(out0) == *old(out1),
        call_ensures(write_str, (c0, w0, s, out0), kick0),
        call_ensures(write_bytes, (c1, w1, bytes, out1), kick1),
    ensures
        kick0 == kick1,
        final(out0)@ == final(out1)@,
        final(c0).outgoing() == final(c1).outgoing(),
{
}

} // verus!
