//! The STM32F401RE board: console, watchdog, tick and interrupt numbers. It
//! runs from its internal oscillator.
pub mod gpio;
pub mod i2c;
pub mod irq;
pub mod wait;

use crate::console::{self, Console};
use crate::text::{self, dec, lit, put_dec, put_str};
use crate::waker::WakerState;
use vstd::prelude::*;

verus! {

/// Processor clock.
pub const SYSCLK_HZ: u32 = 16_000_000;

/// Speed of the console.
pub const BAUD: u32 = 115_200;

/// Opens the watchdog's registers.
pub const IWDG_UNLOCK: u16 = 0x5555;

/// Starts a new watchdog period.
pub const IWDG_RELOAD: u16 = 0xAAAA;

/// Starts the watchdog.
pub const IWDG_START: u16 = 0xCCCC;

/// Longest period of the watchdog, in its counts.
pub const IWDG_MAX: u64 = 0xFFF;

/// The clock divisor of the console, in whole and in sixteenths.
#[derive(Debug, Clone, Copy, PartialEq, Eq, Structural)]
pub struct BaudDivisor {
    /// Whole part.
    pub mantissa: u16,
    /// Sixteenths.
    pub fraction: u8,
}

/// The divisor for the console, in hundredths, which the sixteenths are
/// rounded from.
pub open spec fn divisor_hundredths(sysclk_hz: u32, baud: u32) -> int {
    (sysclk_hz * 100) / (16 * baud)
}

/// The clock divisor for a speed. It must fit the register: the whole part in
/// twelve bits, and the rounded fraction below one.
pub fn baud_divisor(sysclk_hz: u32, baud: u32) -> (r: BaudDivisor)
    requires
        sysclk_hz * 100 <= u32::MAX,
        0 < 16 * baud <= u32::MAX,
        divisor_hundredths(sysclk_hz, baud) < 409_600,
    ensures
        r.mantissa == divisor_hundredths(sysclk_hz, baud) / 100,
        r.fraction == ((divisor_hundredths(sysclk_hz, baud) % 100) * 16 + 50) / 100,
{
    let usartdiv: u32 = (sysclk_hz * 100) / (16 * baud);
    let mantissa: u32 = usartdiv / 100;
    let fraction: u32 = ((usartdiv % 100) * 16 + 50) / 100;
    BaudDivisor { mantissa: mantissa as u16, fraction: fraction as u8 }
}

/// What the console's interrupt handler does next.
#[derive(Debug, Clone, Copy, PartialEq, Eq, Structural)]
pub enum UartStep {
    /// Take the next queued byte and send it, or stop the transmit interrupt
    /// if there is none; then look again.
    Transmit,
    /// Take the received byte; then look again.
    Receive,
    /// Nothing is left to do.
    Done,
}

/// What the console's interrupt handler does next. The flags of the status
/// register count only while their interrupt is enabled: the transmitter stays
/// empty after its interrupt was stopped.
pub fn uart_irq_step(txe: bool, txeie: bool, rxne: bool, rxneie: bool) -> (r: UartStep)
    ensures
        r == (if txe && txeie {
            UartStep::Transmit
        } else if rxne && rxneie {
            UartStep::Receive
        } else {
            UartStep::Done
        }),
{
    if txe && txeie {
        UartStep::Transmit
    } else if rxne && rxneie {
        UartStep::Receive
    } else {
        UartStep::Done
    }
}

/// The tick's period in processor clocks and in microseconds.
pub fn tick_start(hz: u32) -> (r: (u32, u32))
    requires
        hz > 0,
    ensures
        r.0 == SYSCLK_HZ / hz,
        r.1 == 1_000_000u32 / hz,
{
    (SYSCLK_HZ / hz, 1_000_000 / hz)
}

/// What is said when the program ends.
pub open spec fn exit_text(code: u32) -> Seq<u8> {
    if code == 0 {
        lit("\nRIVET_EXIT_OK\n")
    } else {
        lit("\nRIVET_FAILURE code=") + dec(code as nat) + lit("\n")
    }
}

/// End the program: say how, and write everything that is still queued, since
/// no interrupt may come any more.
pub fn exit(c: &mut Console, w: &mut WakerState, code: u32, out: &mut Vec<u8>)
    requires
        old(c).wf(),
    ensures
        final(c).wf(),
        *final(w) == *old(w),
        final(c).outgoing() == Seq::<u8>::empty(),
        old(c).irq_driven() && old(c).started() ==> final(out)@ == old(out)@ + (
        old(c).outgoing() + exit_text(code)),
        !(old(c).irq_driven() && old(c).started()) ==> final(out)@ == (old(out)@ + exit_text(code))
            + old(c).outgoing(),
{
    let mut said: Vec<u8> = Vec::new();
    if code == 0 {
        put_str(&mut said, "\nRIVET_EXIT_OK\n");
        assert(said@ =~= lit("\nRIVET_EXIT_OK\n"));
    } else {
        put_str(&mut said, "\nRIVET_FAILURE code=");
        assert(said@ =~= lit("\nRIVET_FAILURE code="));
        put_dec(&mut said, code as u64);
        put_str(&mut said, "\n");
    }
    let ghost start = out@;
    let ghost queued = c.outgoing();
    let kick = console::write_bytes(c, w, &said, out);
    let ghost wrote = out@;
    let ghost rest = c.outgoing();
    console::flush_sync(c, w, out);
    proof {
        if kick {
            let all = queued + said@;
            let n = console::spilled(all);
            assert(all.take(n) + all.skip(n) =~= all);
            text::lemma_cat(start, all.take(n), all.skip(n));
        }
    }
}

/// The watchdog's reload value for a period: counts of an eighth of a
/// millisecond, within what the counter can hold.
pub open spec fn iwdg_counts(period_us: u32) -> int {
    let counts = period_us * 8_000 / 1_000_000;
    if counts < 1 {
        1
    } else if counts > IWDG_MAX {
        IWDG_MAX as int
    } else {
        counts
    }
}

/// The watchdog's reload value for a period.
pub fn iwdg_reload(period_us: u32) -> (r: u16)
    ensures
        r == iwdg_counts(period_us),
        1 <= r <= IWDG_MAX,
{
    let counts: u64 = period_us as u64 * 8_000 / 1_000_000;
    if counts < 1 {
        1
    } else if counts > IWDG_MAX {
        IWDG_MAX as u16
    } else {
        counts as u16
    }
}

/// A write to the watchdog.
#[derive(Debug, Clone, Copy, PartialEq, Eq, Structural)]
pub enum IwdgWrite {
    /// Key register.
    Key(u16),
    /// Prescaler.
    Prescaler(u8),
    /// Reload register.
    Reload(u16),
}

/// Start the watchdog; a period of zero leaves it off.
pub fn wdt_init(period_us: u32) -> (r: Vec<IwdgWrite>)
    ensures
        period_us == 0 ==> r@ == Seq::<IwdgWrite>::empty(),
        period_us != 0 ==> r@ == seq![
            IwdgWrite::Key(IWDG_UNLOCK),
            IwdgWrite::Prescaler(0),
            IwdgWrite::Reload(iwdg_counts(period_us) as u16),
            IwdgWrite::Key(IWDG_RELOAD),
            IwdgWrite::Key(IWDG_START),
        ],
{
    let mut writes: Vec<IwdgWrite> = Vec::new();
    if period_us == 0 {
        return writes;
    }
    writes.push(IwdgWrite::Key(IWDG_UNLOCK));
    writes.push(IwdgWrite::Prescaler(0));
    writes.push(IwdgWrite::Reload(iwdg_reload(period_us)));
    writes.push(IwdgWrite::Key(IWDG_RELOAD));
    writes.push(IwdgWrite::Key(IWDG_START));
    writes
}

/// Feed the watchdog, if it was started.
pub fn wdt_feed(period_us: u32) -> (r: Option<IwdgWrite>)
    ensures
        r == (if period_us != 0 {
            Some(IwdgWrite::Key(IWDG_RELOAD))
        } else {
            None
        }),
{
    if period_us != 0 {
        Some(IwdgWrite::Key(IWDG_RELOAD))
    } else {
        None
    }
}

/// The divisor is the clock over sixteen times the speed, to the nearest
/// sixteenth of its hundredths.
pub proof fn law_divisor_gives_the_speed(sysclk_hz: u32, baud: u32, r: BaudDivisor, q: int)
    requires
        sysclk_hz * 100 <= u32::MAX,
        0 < 16 * baud <= u32::MAX,
        q * (16 * baud) <= sysclk_hz * 100 < (q + 1) * (16 * baud),
        0 <= q < 409_600,
        call_ensures(baud_divisor, (sysclk_hz, baud), r),
    ensures
        16 * q - 50 < 100 * (16 * r.mantissa + r.fraction) <= 16 * q + 50,
        100 * r.mantissa <= q < 100 * (r.mantissa + 1),
{
    let a = sysclk_hz * 100;
    let b = 16 * baud;
    assert(a / b == q) by (nonlinear_arith)
        requires
            b > 0,
            q * b <= a < (q + 1) * b,
    ;
}

/// The console's interrupt is about what its enabled flags say, and sending
/// comes first.
pub proof fn law_flags_count_while_enabled(
    txe: bool,
    txeie: bool,
    rxne: bool,
    rxneie: bool,
    r: UartStep,
)
    requires
        call_ensures(uart_irq_step, (txe, txeie, rxne, rxneie), r),
    ensures
        r is Transmit <==> txe && txeie,
        r is Receive <==> !(txe && txeie) && rxne && rxneie,
{
}

/// The tick's period is that of its frequency, in clocks of 16 megahertz and in
/// microseconds.
pub proof fn law_tick_has_its_frequency(hz: u32, r: (u32, u32))
    requires
        hz > 0,
        call_ensures(tick_start, (hz,), r),
    ensures
        r.0 * hz <= 16_000_000 < (r.0 + 1) * hz,
        r.1 * hz <= 1_000_000 < (r.1 + 1) * hz,
{
    let (c, u) = r;
    vstd::arithmetic::div_mod::lemma_fundamental_div_mod(16_000_000, hz as int);
    vstd::arithmetic::div_mod::lemma_fundamental_div_mod(1_000_000, hz as int);
    vstd::arithmetic::div_mod::lemma_mod_bound(16_000_000, hz as int);
    vstd::arithmetic::div_mod::lemma_mod_bound(1_000_000, hz as int);
    assert(c * hz == hz * c && (c + 1) * hz == hz * c + hz) by (nonlinear_arith);
    assert(u * hz == hz * u && (u + 1) * hz == hz * u + hz) by (nonlinear_arith);
}

/// A program that ends says how after everything that was queued, and leaves
/// nothing behind.
pub proof fn law_end_is_announced(
    c: &mut Console,
    w: &mut WakerState,
    code: u32,
    out: &mut Vec<u8>,
)
    requires
        old(c).outgoing().len() == 0,
        call_ensures(exit, (c, w, code, out), ()),
    ensures
        code == 0 ==> final(out)@ == old(out)@ + lit("\nRIVET_EXIT_OK\n"),
        code != 0 ==> final(out)@ == old(out)@ + (lit("\nRIVET_FAILURE code=") + dec(code as nat)
            + lit("\n")),
        final(c).outgoing().len() == 0,
{
    assert(old(c).outgoing() =~= Seq::<u8>::empty());
    assert(Seq::<u8>::empty() + exit_text(code) =~= exit_text(code));
    text::lemma_cat_empty(old(out)@ + exit_text(code));
}

/// The watchdog counts eighths of milliseconds: its reload value is the period
/// in those, at least one and at most what twelve bits hold.
pub proof fn law_watchdog_has_its_period(period_us: u32, r: u16)
    requires
        call_ensures(iwdg_reload, (period_us,), r),
    ensures
        1 <= r <= 4095,
        125 <= period_us < 4096 * 125 ==> r * 125 <= period_us < (r + 1) * 125,
        period_us < 125 ==> r == 1,
        period_us >= 4096 * 125 ==> r == 4095,
{
}

/// A period of zero leaves the watchdog alone; any other is loaded between the
/// key that opens the registers and the keys that feed and start it.
pub proof fn law_watchdog_is_started_and_fed(
    period_us: u32,
    r: Vec<IwdgWrite>,
    reload: u16,
    fed: Option<IwdgWrite>,
)
    requires
        call_ensures(wdt_init, (period_us,), r),
        call_ensures(iwdg_reload, (period_us,), reload),
        call_ensures(wdt_feed, (period_us,), fed),
    ensures
        period_us == 0 ==> r@.len() == 0 && fed is None,
        period_us != 0 ==> r@ == seq![
            IwdgWrite::Key(0x5555),
            IwdgWrite::Prescaler(0),
            IwdgWrite::Reload(reload),
            IwdgWrite::Key(0xAAAA),
            IwdgWrite::Key(0xCCCC),
        ] && fed == Some(IwdgWrite::Key(0xAAAA)),
{
}

} // verus!
