//! RISC-V with 32-bit registers.
//!
//! Each stack has a guard band below it that a locked memory-protection entry
//! denies. The tick is re-armed from the time it was due, so that it does not
//! drift.
use crate::arch::frame;
use crate::fault::{self, FaultAction, FaultInfo, FaultKind};
use crate::kernel::Kernel;
use crate::mmio::{low_word, word_of, RegWrite};
use crate::preempt::mutex::inherits;
use crate::preempt::sched;
use crate::preempt::tcb::MAX_PTASKS;
use crate::preempt::{self, Tick, TickAction};
use crate::timer;
use crate::watchdog::{self, Watchdog};
use vstd::prelude::*;

verus! {

/// Smallest stack of a task: a frame, and room for the entry.
pub const MIN_TASK_STACK: usize = 256;

/// Pending bit of the software interrupt.
pub const MSIP: usize = 0x0200_0000;

/// Low word of the compare register.
pub const COMPARE_LO: usize = 0x0200_4000;

/// High word of the compare register.
pub const COMPARE_HI: usize = 0x0200_4004;

/// Counts of the clock per microsecond.
pub const MTIME_PER_MICRO: u64 = 10;

/// Counts of the clock per tick.
pub const TICK_PERIOD: u64 = 10_000;

/// The device that ends the machine.
pub const TEST_DEVICE: usize = 0x0010_0000;

/// Ends it with success.
pub const TEST_PASS: u32 = 0x5555;

/// Ends it with a failure code, in the upper half.
pub const TEST_FAIL: u32 = 0x3333;

/// Resets it.
pub const TEST_RESET: u32 = 0x7777;

/// A locked guard band: nobody may access it.
pub const PMP_NAPOT_GUARD_CFG: u8 = 0x98;

/// A locked entry that allows everything.
pub const PMP_TOR_ALLOW_CFG: u8 = 0x8F;

/// Entries that can guard a stack.
pub const PMP_GUARDS: usize = 15;

/// The entry that allows everything.
pub const PMP_CATCH_ALL: usize = 15;

/// Words of a frame.
pub const FRAME_WORDS: usize = 32;

/// Longest text of one call to the debugger, with its end.
pub const SEMIHOSTING_BUF: usize = 128;

/// Request the software interrupt, which runs the scheduler.
pub fn pend_executor() -> (r: RegWrite)
    ensures
        r == RegWrite::of_word(MSIP, 1),
{
    trigger_software_interrupt()
}

/// Give up the processor.
pub fn yield_now() -> (r: RegWrite)
    ensures
        r == RegWrite::of_word(MSIP, 1),
{
    trigger_software_interrupt()
}

fn trigger_software_interrupt() -> (r: RegWrite)
    ensures
        r == RegWrite::of_word(MSIP, 1),
{
    RegWrite::word(MSIP, 1)
}

/// The clock from its two halves, if the high one did not change while the low
/// one was read; otherwise the caller reads again.
pub fn clint_read_mtime(hi: u32, lo: u32, hi_again: u32) -> (r: Option<u64>)
    ensures
        r == (if hi == hi_again {
            Some((hi * 0x1_0000_0000 + lo) as u64)
        } else {
            None
        }),
{
    if hi == hi_again {
        Some(hi as u64 * 0x1_0000_0000 + lo as u64)
    } else {
        None
    }
}

/// The writes that set the compare register. The low word is all ones in
/// between, so that no half-written value lies before the real one.
pub open spec fn compare_writes(val: u64) -> Seq<RegWrite> {
    seq![
        RegWrite::of_word(COMPARE_LO, 0xFFFF_FFFF),
        RegWrite::of_word(COMPARE_HI, (val / 0x1_0000_0000) as u32),
        RegWrite::of_word(COMPARE_LO, (val % 0x1_0000_0000) as u32),
    ]
}

/// Set the compare register.
pub fn clint_write_compare(val: u64) -> (r: [RegWrite; 3])
    ensures
        r@ == compare_writes(val),
{
    [
        RegWrite::word(COMPARE_LO, 0xFFFF_FFFF),
        RegWrite::word(COMPARE_HI, (val / 0x1_0000_0000) as u32),
        RegWrite::word(COMPARE_LO, (val % 0x1_0000_0000) as u32),
    ]
}

/// What the compare register holds after the given writes.
pub open spec fn compare_after(hi: u32, lo: u32, writes: Seq<RegWrite>) -> int
    decreases writes.len(),
{
    if writes.len() == 0 {
        hi * 0x1_0000_0000 + lo
    } else if writes[0].address == COMPARE_LO {
        compare_after(hi, writes[0].value, writes.skip(1))
    } else {
        compare_after(writes[0].value, lo, writes.skip(1))
    }
}

/// Setting the compare register never passes through a value that lies before
/// both the old and the new one, so no interrupt comes too early; and it ends
/// at the new value.
pub proof fn law_no_early_compare(hi: u32, lo: u32, val: u64, n: int)
    requires
        0 <= n <= 3,
    ensures
        compare_after(hi, lo, compare_writes(val).take(n)) >= val || compare_after(
            hi,
            lo,
            compare_writes(val).take(n),
        ) >= hi * 0x1_0000_0000 + lo,
        n == 3 ==> compare_after(hi, lo, compare_writes(val).take(n)) == val,
{
    let w = compare_writes(val).take(n);
    reveal_with_fuel(compare_after, 4);
    if n >= 1 {
        assert(w.skip(1) =~= compare_writes(val).subrange(1, n));
    }
    if n >= 2 {
        assert(w.skip(1).skip(1) =~= compare_writes(val).subrange(2, n));
    }
    if n >= 3 {
        assert(w.skip(1).skip(1).skip(1) =~= Seq::<RegWrite>::empty());
    }
}

/// Time since the start in microseconds.
pub fn now_micros(mtime: u64) -> (r: u64)
    ensures
        r == mtime / MTIME_PER_MICRO,
{
    mtime / MTIME_PER_MICRO
}

/// When the tick was last due.
pub struct TickTimer {
    /// The compare value that was last set.
    pub prev: u64,
}

/// The next compare value: one period after the last, unless that has already
/// passed; then one period from now.
pub open spec fn next_compare(prev: u64, mtime: u64) -> u64 {
    let due = if prev + TICK_PERIOD > u64::MAX {
        prev + TICK_PERIOD - 0x1_0000_0000_0000_0000
    } else {
        prev + TICK_PERIOD
    };
    if due > mtime {
        due as u64
    } else {
        (mtime + TICK_PERIOD) as u64
    }
}

/// A tick: the watchdogs are looked at, sleeps that are over are ended, and the
/// next tick is armed. `None` asks for a reset. `now` is the clock at the
/// beginning, `later` at the end.
pub fn timer_tick(
    s: &mut TickTimer,
    k: &mut Kernel,
    wd: &Watchdog,
    now: u64,
    later: u64,
    out: &mut Vec<u8>,
) -> (r: Option<[RegWrite; 3]>)
    requires
        old(k).wf(),
        later + TICK_PERIOD <= u64::MAX,
    ensures
        final(k).wf(),
        inherits(&old(k).preempt) ==> inherits(&final(k).preempt),
        tick_done(
            old(s),
            final(s),
            old(k),
            final(k),
            wd,
            now,
            later,
            old(out)@,
            final(out)@,
            r is None,
        ),
        r matches Some(writes) ==> writes@ == compare_writes(final(s).prev),
{
    let us: u64 = now / MTIME_PER_MICRO;
    if watchdog::on_tick(wd, &k.preempt, us, out) {
        return None;
    }
    timer::poll_timers(&mut k.timers, &mut k.waker, &mut k.preempt, us);
    let due: u64 = s.prev.wrapping_add(TICK_PERIOD);
    let next: u64 = if due > later {
        due
    } else {
        later + TICK_PERIOD
    };
    s.prev = next;
    Some(clint_write_compare(next))
}

/// What a tick does; `reset` if a watchdog has run out.
pub open spec fn tick_done(
    pre_s: &TickTimer,
    post_s: &TickTimer,
    pre: &Kernel,
    post: &Kernel,
    wd: &Watchdog,
    now: u64,
    later: u64,
    pre_out: Seq<u8>,
    post_out: Seq<u8>,
    reset: bool,
) -> bool {
    let us = now / MTIME_PER_MICRO;
    &&& watchdog::looked(wd, &pre.preempt, us, pre_out, post_out, reset)
    &&& reset ==> *post_s == *pre_s && *post == *pre
    &&& !reset ==> {
        &&& post_s.prev == next_compare(pre_s.prev, later)
        &&& *post == (Kernel {
            timers: post.timers,
            waker: post.waker,
            preempt: post.preempt,
            ..*pre
        })
        &&& timer::polled(&pre.timers, &post.timers, us)
        &&& timer::sleepers_woken(
            &pre.waker,
            &post.waker,
            &pre.timers,
            us,
            timer::MAX_TIMERS as int,
        )
        &&& timer::blocked_woken(
            &pre.preempt,
            &post.preempt,
            &pre.timers,
            us,
            MAX_PTASKS as int,
        )
    }
}

/// The tick does not drift: however late it is served within its period, the
/// next one is due exactly one period after the last.
pub proof fn law_tick_does_not_drift(prev: u64, mtime: u64)
    requires
        mtime < prev + TICK_PERIOD,
        prev + TICK_PERIOD <= u64::MAX,
    ensures
        next_compare(prev, mtime) == prev + TICK_PERIOD,
{
}

/// The next tick always lies ahead, however long the handler took.
pub proof fn law_tick_lies_ahead(prev: u64, mtime: u64)
    requires
        mtime + TICK_PERIOD <= u64::MAX,
    ensures
        next_compare(prev, mtime) > mtime,
{
}

/// The text for the debugger: cut to what fits, with a zero at the end.
pub fn semihosting_print(s: &str) -> (r: [u8; SEMIHOSTING_BUF])
    ensures
        ({
            let bytes = crate::text::lit(s);
            let len = if bytes.len() < SEMIHOSTING_BUF - 1 {
                bytes.len() as int
            } else {
                SEMIHOSTING_BUF - 1
            };
            &&& forall|i: int| 0 <= i < len ==> #[trigger] r[i] == bytes[i]
            &&& forall|i: int| len <= i < SEMIHOSTING_BUF ==> #[trigger] r[i] == 0
        }),
{
    let bytes = s.as_bytes();
    let len: usize = if bytes.len() < SEMIHOSTING_BUF - 1 {
        bytes.len()
    } else {
        SEMIHOSTING_BUF - 1
    };
    let mut buf: [u8; SEMIHOSTING_BUF] = [0; SEMIHOSTING_BUF];
    let mut i: usize = 0;
    while i < len
        invariant
            i <= len,
            len <= bytes@.len(),
            len <= SEMIHOSTING_BUF - 1,
            forall|j: int| 0 <= j < i ==> #[trigger] buf[j] == bytes@[j],
            forall|j: int| i <= j < SEMIHOSTING_BUF ==> #[trigger] buf[j] == 0,
        decreases len - i,
    {
        buf[i] = bytes[i];
        i = i + 1;
    }
    buf
}

/// End the machine with success.
pub fn exit_success() -> (r: RegWrite)
    ensures
        r == RegWrite::of_word(TEST_DEVICE, TEST_PASS),
{
    RegWrite::word(TEST_DEVICE, TEST_PASS)
}

/// End the machine with a failure code.
pub fn exit_failure(code: u32) -> (r: RegWrite)
    ensures
        r == RegWrite::of_word(TEST_DEVICE, TEST_FAIL | (code << 16u32)),
{
    RegWrite::word(TEST_DEVICE, TEST_FAIL | (code << 16u32))
}

/// Reset the machine.
pub fn system_reset() -> (r: RegWrite)
    ensures
        r == RegWrite::of_word(TEST_DEVICE, TEST_RESET),
{
    RegWrite::word(TEST_DEVICE, TEST_RESET)
}

/// Byte `k` of a word.
pub open spec fn byte_of(w: u32, k: u32) -> u32 {
    (w >> (8 * k) as u32) & 0xFF
}

/// A write to a register of the memory protection unit.
#[derive(Clone, Copy, PartialEq, Eq, Structural, Debug)]
pub enum PmpWrite {
    /// To the address register of an entry.
    Address {
        /// Number of the entry.
        index: usize,
        /// What is written.
        value: u32,
    },
    /// To one of the four configuration registers, each of which holds a byte
    /// for each of four entries.
    Config {
        /// Number of the register.
        index: usize,
        /// What is written.
        value: u32,
    },
}

/// The address register for a naturally aligned band of 64 bytes.
pub open spec fn guard_addr(guard_base: u32) -> u32 {
    (guard_base >> 2u32) | 7
}

proof fn lemma_byte_replaced(word: u32, byte: u8, at: u32, k: u32)
    requires
        at < 4,
        k < 4,
    ensures
        byte_of((word & !(0xFFu32 << ((8 * at) as u32))) | ((byte as u32) << ((8 * at) as u32)), k)
            == (if k == at {
            byte as u32
        } else {
            byte_of(word, k)
        }),
{
    let s = (8 * at) as u32;
    let d = (8 * k) as u32;
    assert(((((word & !(0xFFu32 << s)) | ((byte as u32) << s)) >> d) & 0xFF) == (if d == s {
        byte as u32
    } else {
        (word >> d) & 0xFF
    })) by (bit_vector)
        requires
            s == 0 || s == 8 || s == 16 || s == 24,
            d == 0 || d == 8 || d == 16 || d == 24,
    ;
}

/// Set the configuration byte of entry `i` in `word`, which its configuration
/// register holds.
fn pmpcfg_write_byte(i: usize, byte: u8, word: u32) -> (r: u32)
    ensures
        forall|k: u32|
            k < 4 ==> #[trigger] byte_of(r, k) == (if k == i % 4 {
                byte as u32
            } else {
                byte_of(word, k)
            }),
{
    let at: u32 = (i % 4) as u32;
    let shift: u32 = 8 * at;
    let r: u32 = (word & !(0xFFu32 << shift)) | ((byte as u32) << shift);
    proof {
        assert forall|k: u32| k < 4 implies #[trigger] byte_of(r, k) == (if k == i % 4 {
            byte as u32
        } else {
            byte_of(word, k)
        }) by {
            lemma_byte_replaced(word, byte, at, k);
        }
    }
    r
}

/// The writes set entry `i`. First comes the address, because the
/// configuration locks it; then the configuration byte `cfg`, with the other
/// entries of its register, which held `word`, left alone.
pub open spec fn configures(w: Seq<PmpWrite>, i: usize, addr: u32, cfg: u8, word: u32) -> bool {
    &&& w.len() == 2
    &&& w[0] == (PmpWrite::Address { index: i, value: addr })
    &&& w[1] matches PmpWrite::Config { index, value } && index == i / 4 && forall|k: u32|
        k < 4 ==> #[trigger] byte_of(value, k) == (if k == i % 4 {
            cfg as u32
        } else {
            byte_of(word, k)
        })
}

/// Guard the 64 bytes at `guard_base` with the given entry. `cfg` holds the
/// configuration registers. Beyond the last guard entry nothing is done.
pub fn pmp_register_guard(guard_base: u32, entry: usize, cfg: &[u32; 4]) -> (r: Option<
    [PmpWrite; 2],
>)
    ensures
        r is Some == (entry < PMP_GUARDS),
        r matches Some(w) ==> configures(
            w@,
            entry,
            guard_addr(guard_base),
            PMP_NAPOT_GUARD_CFG,
            cfg[entry as int / 4],
        ),
{
    if entry >= PMP_GUARDS {
        return None;
    }
    let addr: u32 = (guard_base >> 2u32) | 7;
    let word: u32 = pmpcfg_write_byte(entry, PMP_NAPOT_GUARD_CFG, cfg[entry / 4]);
    Some(
        [
            PmpWrite::Address { index: entry, value: addr },
            PmpWrite::Config { index: entry / 4, value: word },
        ],
    )
}

/// Allow everything that no guard denies: the entry of the highest number,
/// which every guard wins over.
pub fn pmp_init_catch_all(cfg: &[u32; 4]) -> (r: [PmpWrite; 2])
    ensures
        configures(r@, PMP_CATCH_ALL, 0xFFFF_FFFF, PMP_TOR_ALLOW_CFG, cfg[3]),
{
    let word: u32 = pmpcfg_write_byte(PMP_CATCH_ALL, PMP_TOR_ALLOW_CFG, cfg[3]);
    [
        PmpWrite::Address { index: PMP_CATCH_ALL, value: 0xFFFF_FFFF },
        PmpWrite::Config { index: 3, value: word },
    ]
}

/// Every guard wins over the entry that allows everything, and no two guards
/// share a configuration byte.
pub proof fn law_guards_win(a: usize, b: usize)
    requires
        a < PMP_GUARDS,
        b < PMP_GUARDS,
    ensures
        a < PMP_CATCH_ALL,
        a != b ==> a / 4 != b / 4 || a % 4 != b % 4,
{
}

/// What is armed when the system starts: the first tick is due one period from
/// now.
pub fn early_init(s: &mut TickTimer, mtime: u64) -> (r: [RegWrite; 3])
    requires
        mtime + TICK_PERIOD <= u64::MAX,
    ensures
        final(s).prev == mtime + TICK_PERIOD,
        r@ == compare_writes(final(s).prev),
{
    let first: u64 = mtime + TICK_PERIOD;
    s.prev = first;
    clint_write_compare(first)
}

/// Why the processor entered the trap handler.
#[derive(Clone, Copy, PartialEq, Eq, Structural, Debug)]
pub enum Cause {
    /// The timer interrupt.
    Timer,
    /// The software interrupt.
    Software,
    /// Another interrupt.
    OtherInterrupt,
    /// An access that was refused.
    Access(FaultKind),
    /// Another exception.
    Unhandled,
}

/// What a cause word means.
pub open spec fn meaning(interrupt: bool, code: usize) -> Cause {
    if interrupt {
        if code == 7 {
            Cause::Timer
        } else if code == 3 {
            Cause::Software
        } else {
            Cause::OtherInterrupt
        }
    } else if code == 1 {
        Cause::Access(FaultKind::InstructionAccess)
    } else if code == 5 {
        Cause::Access(FaultKind::LoadAccess)
    } else if code == 7 {
        Cause::Access(FaultKind::StoreAccess)
    } else {
        Cause::Unhandled
    }
}

/// Tell the causes apart.
pub fn decode(interrupt: bool, code: usize) -> (r: Cause)
    ensures
        r == meaning(interrupt, code),
{
    if interrupt {
        if code == 7 {
            return Cause::Timer;
        }
        if code == 3 {
            return Cause::Software;
        }
        return Cause::OtherInterrupt;
    }
    match code {
        1 => Cause::Access(FaultKind::InstructionAccess),
        5 => Cause::Access(FaultKind::LoadAccess),
        7 => Cause::Access(FaultKind::StoreAccess),
        _ => Cause::Unhandled,
    }
}

/// What the registers say when the trap handler is entered.
pub struct TrapFrame {
    /// The cause is an interrupt.
    pub interrupt: bool,
    /// Its code.
    pub code: usize,
    /// Address of the interrupted instruction.
    pub mepc: usize,
    /// Address of a refused access.
    pub mtval: usize,
    /// The clock when the handler begins.
    pub mtime: u64,
    /// The clock when the next tick is armed.
    pub later: u64,
}

/// What the trap handler asks for.
pub enum TrapAction {
    /// Reset the machine: a watchdog has run out.
    Reset,
    /// The tick: arm the next one, then go on as the scheduler decided.
    Tick {
        /// The writes that arm the next tick.
        writes: [RegWrite; 3],
        /// What runs next.
        action: TickAction,
    },
    /// The software interrupt: end it, then go on as the scheduler decided.
    Schedule {
        /// The write that ends the interrupt.
        write: RegWrite,
        /// What runs next.
        action: TickAction,
    },
    /// Go on where the interrupt came.
    Resume(usize),
    /// A task made a refused access.
    Fault(FaultAction),
    /// An exception that nothing handles: panic.
    Panic,
}

/// Handle a trap. `tick` describes the interrupted task; `used` is how much of
/// its stack each task has used.
pub fn rivet_trap_handler_rust(
    s: &mut TickTimer,
    k: &mut Kernel,
    wd: &Watchdog,
    trap: &TrapFrame,
    tick: &Tick,
    used: &[usize; MAX_PTASKS],
    out: &mut Vec<u8>,
) -> (r: TrapAction)
    requires
        old(k).wf(),
        trap.later + TICK_PERIOD <= u64::MAX,
    ensures
        final(k).wf(),
        inherits(&old(k).preempt) ==> inherits(&final(k).preempt),
        match meaning(trap.interrupt, trap.code) {
            Cause::Timer => match r {
                TrapAction::Reset => tick_done(
                    old(s),
                    final(s),
                    old(k),
                    final(k),
                    wd,
                    trap.mtime,
                    trap.later,
                    old(out)@,
                    final(out)@,
                    true,
                ),
                TrapAction::Tick { writes, action } => {
                    &&& writes@ == compare_writes(final(s).prev)
                    &&& exists|mid: Kernel, said: Seq<u8>|
                        {
                            &&& tick_done(
                                old(s),
                                final(s),
                                old(k),
                                &mid,
                                wd,
                                trap.mtime,
                                trap.later,
                                old(out)@,
                                old(out)@,
                                false,
                            )
                            &&& final(out)@ == old(out)@ + said
                            &&& #[trigger] preempt::ticked(
                                &mid,
                                final(k),
                                *tick,
                                used@,
                                said,
                                action,
                            )
                        }
                },
                _ => false,
            },
            Cause::Software => {
                &&& *final(s) == *old(s)
                &&& r matches TrapAction::Schedule { write, action } && write == RegWrite::of_word(
                    MSIP,
                    0,
                ) && exists|said: Seq<u8>|
                    final(out)@ == old(out)@ + said && #[trigger] preempt::ticked(
                        old(k),
                        final(k),
                        *tick,
                        used@,
                        said,
                        action,
                    )
            },
            Cause::OtherInterrupt => *final(s) == *old(s) && *final(k) == *old(k) && final(out)@
                == old(out)@ && r == TrapAction::Resume(tick.sp),
            Cause::Access(kind) => {
                &&& *final(s) == *old(s)
                &&& *final(k) == (Kernel {
                    preempt: final(k).preempt,
                    timers: final(k).timers,
                    ..*old(k)
                })
                &&& r matches TrapAction::Fault(action) && exists|said: Seq<u8>|
                    final(out)@ == old(out)@ + said && #[trigger] fault::handled(
                        &old(k).fault,
                        &old(k).preempt,
                        &final(k).preempt,
                        &old(k).timers,
                        &final(k).timers,
                        said,
                        used@,
                        (FaultInfo {
                            task_id: old(k).preempt.running(),
                            kind,
                            address: trap.mtval,
                            pc: trap.mepc,
                        }),
                        action,
                    )
            },
            Cause::Unhandled => *final(s) == *old(s) && *final(k) == *old(k) && final(out)@
                == old(out)@ && r is Panic,
        },
{
    match decode(trap.interrupt, trap.code) {
        Cause::Timer => {
            let armed = timer_tick(s, k, wd, trap.mtime, trap.later, out);
            match armed {
                None => TrapAction::Reset,
                Some(writes) => {
                    let ghost mid = *k;
                    let ghost before = out@;
                    let action = preempt::on_tick(k, tick, used, out);
                    proof {
                        let said = choose|said: Seq<u8>|
                            out@ == before + said && #[trigger] preempt::ticked(
                                &mid,
                                k,
                                *tick,
                                used@,
                                said,
                                action,
                            );
                        assert(preempt::ticked(&mid, k, *tick, used@, said, action));
                    }
                    TrapAction::Tick { writes, action }
                },
            }
        },
        Cause::Software => {
            let action = preempt::on_tick(k, tick, used, out);
            TrapAction::Schedule { write: RegWrite::word(MSIP, 0), action }
        },
        Cause::OtherInterrupt => TrapAction::Resume(tick.sp),
        Cause::Access(kind) => {
            let task_id = sched::current(&k.preempt);
            let info = FaultInfo { task_id, kind, address: trap.mtval, pc: trap.mepc };
            let action = fault::on_fault(
                &k.fault,
                &mut k.preempt,
                &mut k.timers,
                out,
                used,
                &info,
            );
            TrapAction::Fault(action)
        },
        Cause::Unhandled => TrapAction::Panic,
    }
}

/// The first frame of a task.
#[derive(Clone, Copy)]
pub struct InitialFrame {
    /// Where the frame goes.
    pub sp: usize,
    /// Its words.
    pub words: [u32; FRAME_WORDS],
}

/// Word `i` of the first frame: the argument and the entry in the two saved
/// registers that the trampoline takes them from, and the trampoline as the
/// interrupted instruction.
pub open spec fn frame_word(i: int, entry_fn: usize, arg: usize, trampoline: usize) -> u32 {
    if i == 4 {
        low_word(arg as int)
    } else if i == 5 {
        low_word(entry_fn as int)
    } else if i == 28 {
        low_word(trampoline as int)
    } else {
        0
    }
}

/// The first frame of a task on the stack `[base, base + len)`, which runs
/// `entry_fn` on `arg` by way of `trampoline`.
pub fn init_task_stack(
    base: usize,
    len: usize,
    entry_fn: usize,
    arg: usize,
    trampoline: usize,
) -> (r: InitialFrame)
    requires
        base + len <= usize::MAX,
        len >= MIN_TASK_STACK,
    ensures
        r.sp == frame::frame_start(base as int, len as int, 4 * FRAME_WORDS),
        r.sp % frame::STACK_ALIGN == 0,
        base <= r.sp,
        r.sp + 4 * FRAME_WORDS <= base + len,
        forall|i: int|
            0 <= i < FRAME_WORDS ==> #[trigger] r.words[i] == frame_word(
                i,
                entry_fn,
                arg,
                trampoline,
            ),
{
    let sp: usize = frame::place_frame(base, len, 4 * FRAME_WORDS);
    let mut words: [u32; FRAME_WORDS] = [0; FRAME_WORDS];
    words[4] = word_of(arg);
    words[5] = word_of(entry_fn);
    words[28] = word_of(trampoline);
    InitialFrame { sp, words }
}

/// The clock counts ten times in a microsecond.
pub proof fn law_clock_counts_tenths(mtime: u64, r: u64)
    requires
        call_ensures(now_micros, (mtime,), r),
    ensures
        r * 10 <= mtime < r * 10 + 10,
{
}

/// The clock is made of the halves that were read, and of nothing if the high
/// half went on meanwhile.
pub proof fn law_clock_is_read_whole(hi: u32, lo: u32, hi_again: u32, r: Option<u64>)
    requires
        call_ensures(clint_read_mtime, (hi, lo, hi_again), r),
    ensures
        r is Some <==> hi == hi_again,
        r is Some ==> r->0 / 0x1_0000_0000 == hi && r->0 % 0x1_0000_0000 == lo,
{
}

/// The words that set the compare register make up its value, the high half
/// before the low one and after the low one was put out of reach.
pub proof fn law_compare_is_written_whole(val: u64, r: [RegWrite; 3])
    requires
        call_ensures(clint_write_compare, (val,), r),
    ensures
        r[0].address == 0x0200_4000 && r[0].value == 0xFFFF_FFFF,
        r[1].address == 0x0200_4004,
        r[2].address == 0x0200_4000,
        r[1].value * 0x1_0000_0000 + r[2].value == val,
{
    assert(r@[0] == r[0] && r@[1] == r[1] && r@[2] == r[2]);
}

/// A tick that nothing resets arms the next one ten thousand counts after the
/// one before, or from now if that has passed; the writes carry that value; and
/// the timers are looked at with the time in microseconds.
#[verifier::spinoff_prover]
#[verifier::rlimit(60)]
pub proof fn law_tick_is_armed_again(
    s: &mut TickTimer,
    k: &mut Kernel,
    wd: &Watchdog,
    now: u64,
    later: u64,
    out: &mut Vec<u8>,
    r: Option<[RegWrite; 3]>,
    us: u64,
)
    requires
        later + 10_000 <= u64::MAX,
        us * 10 <= now < us * 10 + 10,
        call_ensures(timer_tick, (s, k, wd, now, later, out), r),
    ensures
        r is None ==> *final(s) == *old(s) && *final(k) == *old(k),
        r is Some && later < old(s).prev + 10_000 <= u64::MAX ==> final(s).prev == old(s).prev
            + 10_000,
        r is Some && old(s).prev + 10_000 <= later ==> final(s).prev == later + 10_000,
        r is Some ==> final(s).prev > later || old(s).prev + 10_000 > u64::MAX,
        r matches Some(w) ==> w[1].value * 0x1_0000_0000 + w[2].value == final(s).prev,
        r is Some ==> timer::polled(&old(k).timers, &final(k).timers, us),
        watchdog::looked(wd, &old(k).preempt, us, old(out)@, final(out)@, r is None),
{
    if let Some(w) = r {
        assert(w@[1] == w[1] && w@[2] == w[2]);
    }
}

/// The first tick is due ten thousand counts after the start.
pub proof fn law_first_tick_is_armed(s: &mut TickTimer, mtime: u64, r: [RegWrite; 3])
    requires
        call_ensures(early_init, (s, mtime), r),
        mtime + 10_000 <= u64::MAX,
    ensures
        final(s).prev == mtime + 10_000,
        r[1].value * 0x1_0000_0000 + r[2].value == mtime + 10_000,
{
    assert(r@[1] == r[1] && r@[2] == r[2]);
}

/// The machine ends with what was asked for: success, the failure code in the
/// upper half, or a reset.
pub proof fn law_machine_ends_as_asked(code: u32, ok: RegWrite, bad: RegWrite, again: RegWrite)
    requires
        call_ensures(exit_success, (), ok),
        call_ensures(exit_failure, (code,), bad),
        call_ensures(system_reset, (), again),
    ensures
        ok.address == 0x0010_0000 && ok.value == 0x5555,
        bad.address == 0x0010_0000 && bad.value % 0x1_0000 == 0x3333 && bad.value / 0x1_0000 == code
            % 0x1_0000,
        again.address == 0x0010_0000 && again.value == 0x7777,
{
    let v = bad.value;
    assert(v % 0x1_0000 == 0x3333 && v / 0x1_0000 == code % 0x1_0000) by (bit_vector)
        requires
            v == 0x3333u32 | (code << 16u32),
    ;
}

/// A software interrupt is requested with a one.
pub proof fn law_scheduler_is_requested(a: RegWrite, b: RegWrite)
    requires
        call_ensures(pend_executor, (), a),
        call_ensures(yield_now, (), b),
    ensures
        a.address == 0x0200_0000 && a.value == 1,
        b == a,
{
}

/// A cause is what its number says: each is told from every other.
pub proof fn law_causes_are_told_apart(interrupt: bool, code: usize, r: Cause)
    requires
        call_ensures(decode, (interrupt, code), r),
    ensures
        r is Timer <==> interrupt && code == 7,
        r is Software <==> interrupt && code == 3,
        r is OtherInterrupt <==> interrupt && code != 7 && code != 3,
        r == Cause::Access(FaultKind::InstructionAccess) <==> !interrupt && code == 1,
        r == Cause::Access(FaultKind::LoadAccess) <==> !interrupt && code == 5,
        r == Cause::Access(FaultKind::StoreAccess) <==> !interrupt && code == 7,
        r is Unhandled <==> !interrupt && code != 1 && code != 5 && code != 7,
{
}

/// Each trap is answered in its own way: the tick by arming the next one or by
/// a reset, the software interrupt by ending it, another interrupt by going on
/// where it came, a refused access as a fault, and anything else by a panic.
#[verifier::spinoff_prover]
#[verifier::rlimit(60)]
pub proof fn law_trap_is_answered(
    s: &mut TickTimer,
    k: &mut Kernel,
    wd: &Watchdog,
    trap: &TrapFrame,
    tick: &Tick,
    used: &[usize; MAX_PTASKS],
    out: &mut Vec<u8>,
    r: TrapAction,
)
    requires
        call_ensures(rivet_trap_handler_rust, (s, k, wd, trap, tick, used, out), r),
    ensures
        trap.interrupt && trap.code == 7 ==> r is Reset || r is Tick,
        trap.interrupt && trap.code == 7 && r is Reset ==> *final(s) == *old(s) && *final(k) == *old(
            k,
        ),
        trap.interrupt && trap.code == 3 ==> r is Schedule && *final(s) == *old(s)
            && r->Schedule_write.address == 0x0200_0000 && r->Schedule_write.value == 0,
        trap.interrupt && trap.code != 7 && trap.code != 3 ==> r == TrapAction::Resume(tick.sp)
            && *final(k) == *old(k) && *final(s) == *old(s),
        !trap.interrupt && (trap.code == 1 || trap.code == 5 || trap.code == 7) ==> r is Fault
            && *final(s) == *old(s),
        !trap.interrupt && trap.code != 1 && trap.code != 5 && trap.code != 7 ==> r is Panic
            && *final(k) == *old(k) && *final(s) == *old(s),
{
}

/// The first frame lies at the top of the stack, aligned, with nothing but the
/// argument, the entry and the trampoline in it.
pub proof fn law_first_frame_starts_the_task(
    base: usize,
    len: usize,
    entry_fn: usize,
    arg: usize,
    trampoline: usize,
    r: InitialFrame,
)
    requires
        base + len <= usize::MAX,
        len >= 256,
        call_ensures(init_task_stack, (base, len, entry_fn, arg, trampoline), r),
    ensures
        r.sp % 16 == 0,
        r.sp + 128 <= base + len < r.sp + 128 + 16,
        r.words[4] == arg as int % 0x1_0000_0000,
        r.words[5] == entry_fn as int % 0x1_0000_0000,
        r.words[28] == trampoline as int % 0x1_0000_0000,
        forall|i: int|
            0 <= i < 32 && i != 4 && i != 5 && i != 28 ==> #[trigger] r.words[i] == 0,
{
}

/// A guard covers the 64 bytes from its base on: the address register holds a
/// quarter of the base with the three lowest bits set, and the configuration
/// byte denies everything and is locked. There are fifteen guards.
pub proof fn law_guard_covers_its_band(
    guard_base: u32,
    entry: usize,
    cfg: &[u32; 4],
    r: Option<[PmpWrite; 2]>,
)
    requires
        guard_base % 64 == 0,
        call_ensures(pmp_register_guard, (guard_base, entry, cfg), r),
    ensures
        r is Some <==> entry < 15,
        r matches Some(w) ==> {
            &&& w[0] == (PmpWrite::Address { index: entry, value: (guard_base / 4 + 7) as u32 })
            &&& w[1] is Config
            &&& w[1]->Config_index == entry / 4
            &&& byte_of(w[1]->Config_value, (entry % 4) as u32) == 0x98
            &&& forall|k: u32|
                k < 4 && k != entry % 4 ==> #[trigger] byte_of(w[1]->Config_value, k) == byte_of(
                    cfg[entry as int / 4],
                    k,
                )
        },
{
    assert((guard_base >> 2u32) | 7 == guard_base / 4 + 7) by (bit_vector)
        requires
            guard_base % 64 == 0,
    ;
    if let Some(w) = r {
        assert(w@[0] == w[0] && w@[1] == w[1]);
    }
}

/// The entry that allows everything is the last one, reaches to the end of
/// memory, and is locked.
pub proof fn law_rest_is_allowed(cfg: &[u32; 4], r: [PmpWrite; 2])
    requires
        call_ensures(pmp_init_catch_all, (cfg,), r),
    ensures
        r[0] == (PmpWrite::Address { index: 15, value: 0xFFFF_FFFF }),
        r[1] is Config,
        r[1]->Config_index == 3,
        byte_of(r[1]->Config_value, 3) == 0x8F,
        forall|k: u32| k < 3 ==> #[trigger] byte_of(r[1]->Config_value, k) == byte_of(cfg[3], k),
{
    assert(r@[0] == r[0] && r@[1] == r[1]);
}

/// The debugger gets the text up to 127 bytes, and a zero behind it.
pub proof fn law_debug_text_ends(s: &str, r: [u8; SEMIHOSTING_BUF])
    requires
        call_ensures(semihosting_print, (s,), r),
    ensures
        SEMIHOSTING_BUF == 128,
        r[127] == 0,
        forall|i: int|
            0 <= i < 127 && i < crate::text::lit(s).len() ==> #[trigger] r[i] == crate::text::lit(
                s,
            )[i],
        crate::text::lit(s).len() < 127 ==> r[crate::text::lit(s).len() as int] == 0,
{
}

/// A refused access is reported as what it was: an instruction, a load or a
/// store, at the address that was touched and by the instruction that did it,
/// of the task that ran. Here under the policy to reset, which changes nothing.
#[verifier::spinoff_prover]
#[verifier::rlimit(60)]
pub proof fn law_refused_access_is_reported(
    s: &mut TickTimer,
    k: &mut Kernel,
    wd: &Watchdog,
    trap: &TrapFrame,
    tick: &Tick,
    used: &[usize; MAX_PTASKS],
    out: &mut Vec<u8>,
    other: &mut Vec<u8>,
    info: FaultInfo,
    r: TrapAction,
)
    requires
        call_ensures(rivet_trap_handler_rust, (s, k, wd, trap, tick, used, out), r),
        old(k).fault.policy == fault::FaultPolicy::Panic,
        !trap.interrupt,
        trap.code == 1 || trap.code == 5 || trap.code == 7,
        info.kind == (if trap.code == 1 {
            FaultKind::InstructionAccess
        } else if trap.code == 5 {
            FaultKind::LoadAccess
        } else {
            FaultKind::StoreAccess
        }),
        info.address == trap.mtval,
        info.pc == trap.mepc,
        info.task_id == old(k).preempt.running(),
        *old(other) == *old(out),
        call_ensures(fault::dump, (other, &info), ()),
    ensures
        r == TrapAction::Fault(FaultAction::Reset),
        *final(k) == *old(k),
        exists|rest: Seq<u8>| #[trigger] (final(other)@ + rest) == final(out)@,
{
    let action = r->Fault_0;
    let said = choose|said: Seq<u8>|
        final(out)@ == old(out)@ + said && #[trigger] fault::handled(
            &old(k).fault,
            &old(k).preempt,
            &final(k).preempt,
            &old(k).timers,
            &final(k).timers,
            said,
            used@,
            info,
            action,
        );
    let rest = said.skip(fault::dump_text(info).len() as int);
    assert(said =~= fault::dump_text(info) + rest);
    assert(final(other)@ + rest =~= final(out)@);
}

} // verus!
