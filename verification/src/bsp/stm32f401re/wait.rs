//! Edges of the user button, at line 13 of the external interrupts.
//!
//! To wait for an edge is to arm it and wait for the signal that the interrupt
//! handler fires.
use crate::bits::{self, bit};
use crate::mmio::RegWrite;
use crate::port::arch::Harts;
use crate::sync::signal::{signalled, Signal};
use crate::waker::WakerState;
use vstd::prelude::*;

verus! {

/// Interrupt mask.
pub const EXTI_IMR: usize = 0x4001_3C00;

/// Rising-edge triggers.
pub const EXTI_RTSR: usize = 0x4001_3C08;

/// Falling-edge triggers.
pub const EXTI_FTSR: usize = 0x4001_3C0C;

/// Edges raised by software.
pub const EXTI_SWIER: usize = 0x4001_3C10;

/// Pending edges; writing a one clears it.
pub const EXTI_PR: usize = 0x4001_3C14;

/// The line.
pub const LINE: u32 = 13;

/// Its bit.
pub const LINE13: u32 = 0x2000;

/// The line at the button.
pub struct ExtiPc13;

/// `post` is `pre` with the line's bit as given.
pub open spec fn with_line(pre: u32, post: u32, on: bool) -> bool {
    forall|i: int| 0 <= i < 32 ==> #[trigger] bit(post, i) == (if i == LINE {
        on
    } else {
        bit(pre, i)
    })
}

proof fn lemma_line()
    ensures
        1u32 << LINE == LINE13,
        forall|w: u32| #[trigger] (w & LINE13) != 0 <==> bit(w, LINE as int),
{
    assert(1u32 << 13u32 == 0x2000u32) by (bit_vector);
    assert(forall|w: u32| #[trigger] (w & 0x2000) != 0 <==> (w >> 13u32) & 1 == 1) by (bit_vector);
}

/// A register word with the line's bit as asked for.
fn line_set(word: u32, on: bool) -> (r: u32)
    ensures
        with_line(word, r, on),
{
    proof {
        lemma_line();
        bits::lemma_set(word, LINE);
        bits::lemma_clear(word, LINE);
    }
    if on {
        word | LINE13
    } else {
        word & !LINE13
    }
}

/// What a task waits for.
#[derive(Debug, Clone, Copy, PartialEq, Eq, Structural)]
pub enum WaitFor {
    /// The line is high.
    High,
    /// The line is low.
    Low,
    /// The line goes high.
    RisingEdge,
    /// The line goes low.
    FallingEdge,
    /// The line changes.
    AnyEdge,
}

/// Edges to arm.
#[derive(Debug, Clone, Copy, PartialEq, Eq, Structural)]
pub struct Edges {
    /// Rising edges.
    pub rising: bool,
    /// Falling edges.
    pub falling: bool,
}

/// The edges that a wait arms before it goes on; nothing when it is over. A
/// level is waited for until it is there; an edge is waited for once.
pub open spec fn next_edges(what: WaitFor, is_high: bool, seen: bool) -> Option<Edges> {
    match what {
        WaitFor::High => if is_high {
            None
        } else {
            Some(Edges { rising: true, falling: false })
        },
        WaitFor::Low => if is_high {
            Some(Edges { rising: false, falling: true })
        } else {
            None
        },
        WaitFor::RisingEdge => if seen {
            None
        } else {
            Some(Edges { rising: true, falling: false })
        },
        WaitFor::FallingEdge => if seen {
            None
        } else {
            Some(Edges { rising: false, falling: true })
        },
        WaitFor::AnyEdge => if seen {
            None
        } else {
            Some(Edges { rising: true, falling: true })
        },
    }
}

impl ExtiPc13 {
    /// The line, of which the caller is the only user.
    pub fn new() -> (r: Self) {
        ExtiPc13
    }

    /// The writes that arm the given edges and let the line's interrupt
    /// through, from the words of the three registers.
    fn set_triggers(&self, edges: Edges, rtsr: u32, ftsr: u32, imr: u32) -> (r: [RegWrite; 3])
        ensures
            r[0] == RegWrite::of_word(EXTI_RTSR, r[0].value),
            with_line(rtsr, r[0].value, edges.rising),
            r[1] == RegWrite::of_word(EXTI_FTSR, r[1].value),
            with_line(ftsr, r[1].value, edges.falling),
            r[2] == RegWrite::of_word(EXTI_IMR, r[2].value),
            with_line(imr, r[2].value, true),
    {
        [
            RegWrite::word(EXTI_RTSR, line_set(rtsr, edges.rising)),
            RegWrite::word(EXTI_FTSR, line_set(ftsr, edges.falling)),
            RegWrite::word(EXTI_IMR, line_set(imr, true)),
        ]
    }

    /// Whether the line is high; `idr` is the word of the port's input
    /// register.
    pub fn is_high(&self, idr: u32) -> (r: bool)
        ensures
            r == bit(idr, LINE as int),
    {
        (idr >> LINE) & 1 == 1
    }

    /// Raise the line's interrupt as an edge would.
    pub fn trigger_software_interrupt(&self) -> (r: RegWrite)
        ensures
            r == RegWrite::of_word(EXTI_SWIER, LINE13),
    {
        RegWrite::word(EXTI_SWIER, LINE13)
    }

    /// Forget an old signal and arm the given edges.
    pub fn arm(&self, sig: &mut Signal, edges: Edges, rtsr: u32, ftsr: u32, imr: u32) -> (r:
        [RegWrite; 3])
        ensures
            !final(sig).fired,
            final(sig).waiter == old(sig).waiter,
            r[0] == RegWrite::of_word(EXTI_RTSR, r[0].value),
            with_line(rtsr, r[0].value, edges.rising),
            r[1] == RegWrite::of_word(EXTI_FTSR, r[1].value),
            with_line(ftsr, r[1].value, edges.falling),
            r[2] == RegWrite::of_word(EXTI_IMR, r[2].value),
            with_line(imr, r[2].value, true),
    {
        sig.reset();
        self.set_triggers(edges, rtsr, ftsr, imr)
    }

    /// What a wait does next: the edges to arm and wait for, or nothing when it
    /// is over. `is_high` is the line's level, and `seen` whether an edge has
    /// come since the wait began.
    pub fn wait_next(what: WaitFor, is_high: bool, seen: bool) -> (r: Option<Edges>)
        ensures
            r == next_edges(what, is_high, seen),
    {
        let edges = match what {
            WaitFor::High => Edges { rising: true, falling: false },
            WaitFor::Low => Edges { rising: false, falling: true },
            WaitFor::RisingEdge => Edges { rising: true, falling: false },
            WaitFor::FallingEdge => Edges { rising: false, falling: true },
            WaitFor::AnyEdge => Edges { rising: true, falling: true },
        };
        let over = match what {
            WaitFor::High => is_high,
            WaitFor::Low => !is_high,
            _ => seen,
        };
        if over {
            None
        } else {
            Some(edges)
        }
    }
}

/// The interrupt of lines 10 to 15 came; `pr` is the word of the pending
/// register. The line's edge is cleared and signalled; another line is none of
/// its business.
pub fn isr(sig: &mut Signal, w: &mut WakerState, h: &mut Harts, pr: u32) -> (r: Option<RegWrite>)
    requires
        old(sig).wf(),
    ensures
        final(sig).wf(),
        r is Some == bit(pr, LINE as int),
        r matches Some(write) ==> write == RegWrite::of_word(EXTI_PR, LINE13) && signalled(
            old(sig),
            final(sig),
            old(w),
            final(w),
            old(h),
            final(h),
        ),
        r is None ==> *final(sig) == *old(sig) && *final(w) == *old(w) && *final(h) == *old(h),
{
    proof {
        lemma_line();
    }
    if pr & LINE13 != 0 {
        sig.signal(w, h);
        return Some(RegWrite::word(EXTI_PR, LINE13));
    }
    None
}

/// A wait for a level is over exactly when the line has it, whatever was seen;
/// a wait for an edge is over exactly when one was seen, whatever the level.
/// Until then the edges that can end it are armed, and no others.
pub proof fn law_wait_arms_what_ends_it(
    what: WaitFor,
    is_high: bool,
    seen: bool,
    r: Option<Edges>,
)
    requires
        call_ensures(ExtiPc13::wait_next, (what, is_high, seen), r),
    ensures
        what is High ==> (r is None <==> is_high),
        what is Low ==> (r is None <==> !is_high),
        what is RisingEdge || what is FallingEdge || what is AnyEdge ==> (r is None <==> seen),
        r is Some ==> (r->0.rising <==> what is High || what is RisingEdge || what is AnyEdge),
        r is Some ==> (r->0.falling <==> what is Low || what is FallingEdge || what is AnyEdge),
{
}

/// Arming sets bit 13 of the trigger registers as asked and of the interrupt
/// mask, leaves every other bit alone, and forgets an old signal; the level is
/// read at the same bit.
pub proof fn law_line_is_armed(
    line: &ExtiPc13,
    s0: &mut Signal,
    s1: &mut Signal,
    edges: Edges,
    rtsr: u32,
    ftsr: u32,
    imr: u32,
    r: [RegWrite; 3],
    idr: u32,
    level: bool,
    left: bool,
    i: int,
)
    requires
        0 <= i < 32,
        call_ensures(ExtiPc13::arm, (line, s0, edges, rtsr, ftsr, imr), r),
        *old(s1) == *final(s0),
        call_ensures(Signal::try_take, (s1,), left),
        call_ensures(ExtiPc13::is_high, (line, idr), level),
    ensures
        r[0].address == 0x4001_3C08 && r[1].address == 0x4001_3C0C && r[2].address == 0x4001_3C00,
        i == 13 ==> bit(r[0].value, i) == edges.rising && bit(r[1].value, i) == edges.falling && bit(
            r[2].value,
            i,
        ),
        i != 13 ==> bit(r[0].value, i) == bit(rtsr, i) && bit(r[1].value, i) == bit(ftsr, i) && bit(
            r[2].value,
            i,
        ) == bit(imr, i),
        !left,
        level == bit(idr, 13),
{
}

/// The line's edge is answered by clearing it and firing the signal; another
/// line changes nothing.
pub proof fn law_edge_is_signalled(
    s0: &mut Signal,
    s1: &mut Signal,
    w: &mut WakerState,
    h: &mut Harts,
    pr: u32,
    r: Option<RegWrite>,
    there: bool,
)
    requires
        call_ensures(isr, (s0, w, h, pr), r),
        *old(s1) == *final(s0),
        call_ensures(Signal::try_take, (s1,), there),
    ensures
        r is Some <==> bit(pr, 13),
        r is Some ==> there && r->0.address == 0x4001_3C14 && r->0.value == 0x2000,
        r is None ==> there == old(s0).fired && *final(w) == *old(w) && *final(h) == *old(h),
{
}

/// The line's interrupt is raised at its own bit.
pub proof fn law_edge_can_be_raised(line: &ExtiPc13, r: RegWrite)
    requires
        call_ensures(ExtiPc13::trigger_software_interrupt, (line,), r),
    ensures
        r.address == 0x4001_3C10 && r.value == 0x2000,
{
}

} // verus!
