//! ARM Cortex-M.
//!
//! Tasks run on the process stack, exceptions on the main stack. A tick only
//! requests a context switch; the switch itself happens in the lowest-priority
//! exception. Memory protection denies the whole stack pool but for the stack
//! of the running task.
use crate::arch::frame;
use crate::fault::{self, FaultAction, FaultInfo, FaultKind, FaultState};
use crate::mmio::{low_word, word_of, RegWrite};
use crate::preempt::mutex::{self, inherits};
use crate::preempt::sched::{self, Preempt};
use crate::preempt::sp_saved;
use crate::preempt::stack_pool::{is_pow2, StackPool};
use crate::preempt::tcb::MAX_PTASKS;
use crate::text::{self, dec, hex, lit, put_dec, put_hex, put_str};
use crate::timer::{self, TimerQueue};
use crate::waker::WakerState;
use crate::watchdog::{self, Watchdog};
use vstd::arithmetic::power2::{lemma2_to64, lemma_pow2_pos, lemma_pow2_unfold, pow2};
use vstd::prelude::*;

verus! {

/// Smallest stack of a task: a frame, and room for the entry.
pub const MIN_TASK_STACK: usize = 128;

/// Control register of the memory protection unit.
pub const MPU_CTRL: usize = 0xE000_ED94;

/// Region number register.
pub const MPU_RNR: usize = 0xE000_ED98;

/// Region base address register.
pub const MPU_RBAR: usize = 0xE000_ED9C;

/// Region attribute and size register.
pub const MPU_RASR: usize = 0xE000_EDA0;

/// No code is executed from the region.
pub const RASR_XN: u32 = 0x1000_0000;

/// Nobody may access the region.
pub const RASR_AP_NO_ACCESS: u32 = 0;

/// Everybody may read and write the region.
pub const RASR_AP_RW: u32 = 0x0300_0000;

/// The region is in force.
pub const RASR_ENABLE: u32 = 1;

/// The base address register names the region.
pub const RBAR_VALID: u32 = 0x10;

/// The region that denies the whole pool.
pub const POOL_DENY_REGION: u32 = 6;

/// The region that allows the running task's stack. It has the higher number,
/// so it wins where the two overlap.
pub const CURRENT_STACK_REGION: u32 = 7;

/// Control register of the system timer.
pub const SYST_CSR: usize = 0xE000_E010;

/// Reload register of the system timer.
pub const SYST_RVR: usize = 0xE000_E014;

/// Current value of the system timer.
pub const SYST_CVR: usize = 0xE000_E018;

/// Interrupt control and state.
pub const ICSR: usize = 0xE000_ED04;

/// Requests the context-switch exception.
pub const PENDSVSET: u32 = 0x1000_0000;

/// Application interrupt and reset control.
pub const AIRCR: usize = 0xE000_ED0C;

/// Resets the system, with the key that the register asks for.
pub const SYSRESETREQ: u32 = 0x05FA_0004;

/// Priority of the context-switch exception.
pub const SHPR_PENDSV: usize = 0xE000_ED22;

/// Priority of the system timer's exception.
pub const SHPR_SYSTICK: usize = 0xE000_ED23;

/// System handler control.
pub const SHCSR: usize = 0xE000_ED24;

/// The dedicated fault handlers are in force.
pub const SHCSR_FAULTS: u32 = 0x0007_0000;

/// Processor clock.
pub const SYSCLK_HZ: u32 = 12_000_000;

/// Words of a task's first frame.
pub const FRAME_WORDS: usize = 16;

/// Processor state of a new task.
pub const XPSR_THUMB: u32 = 0x0100_0000;

/// The fault address register is valid.
pub const CFSR_MMARVALID: u32 = 0x80;

/// Attributes of a region of `2^k` bytes.
pub open spec fn rasr(k: nat, ap: u32, xn: bool) -> u32 {
    (if xn {
        RASR_XN
    } else {
        0
    }) | ap | (((k - 1) as u32) << 1u32) | RASR_ENABLE
}

/// The writes that put a region in force: select it, place it, describe it.
pub open spec fn region_writes(region: u32, base: usize, k: nat, ap: u32, xn: bool) -> Seq<
    RegWrite,
> {
    seq![
        RegWrite::of_word(MPU_RNR, region),
        RegWrite::of_word(MPU_RBAR, low_word(base as int) | RBAR_VALID | region),
        RegWrite::of_word(MPU_RASR, rasr(k, ap, xn)),
    ]
}

/// The exponent of a power of two.
fn exponent(n: usize) -> (r: u32)
    requires
        is_pow2(n as int),
    ensures
        pow2(r as nat) == n,
        r < 64,
{
    let ghost e = choose|k: nat| #[trigger] pow2(k) == n as int;
    let mut rest: usize = n;
    let mut k: u32 = 0;
    proof {
        lemma2_to64();
        if e >= 64 {
            if e > 64 {
                vstd::arithmetic::power2::lemma_pow2_strictly_increases(64, e);
            }
        }
    }
    while rest > 1
        invariant
            e < 64,
            k <= e,
            pow2(e) == n,
            rest == pow2((e - k) as nat),
        decreases rest,
    {
        proof {
            if e == k {
                lemma2_to64();
            } else {
                lemma_pow2_unfold((e - k) as nat);
                lemma_pow2_pos((e - k - 1) as nat);
            }
        }
        rest = rest / 2;
        k = k + 1;
    }
    proof {
        if k < e {
            lemma_pow2_unfold((e - k) as nat);
            lemma_pow2_pos((e - k - 1) as nat);
        }
    }
    k
}

/// Put a region of a power of two of bytes in force.
fn mpu_write_region(region: u32, base: usize, size: usize, ap: u32, xn: bool) -> (r: [RegWrite; 3])
    requires
        is_pow2(size as int),
        size >= 2,
    ensures
        exists|k: nat|
            #[trigger] pow2(k) == size && k >= 1 && r@ == region_writes(region, base, k, ap, xn),
{
    let k: u32 = exponent(size);
    proof {
        if k == 0 {
            lemma2_to64();
        }
    }
    let size_field: u32 = k - 1;
    let flags: u32 = if xn {
        RASR_XN
    } else {
        0
    };
    let writes: [RegWrite; 3] = [
        RegWrite::word(MPU_RNR, region),
        RegWrite::word(MPU_RBAR, word_of(base) | RBAR_VALID | region),
        RegWrite::word(MPU_RASR, flags | ap | (size_field << 1u32) | RASR_ENABLE),
    ];
    assert(writes@ =~= region_writes(region, base, k as nat, ap, xn));
    writes
}

/// The writes that deny the pool: `k` is the exponent of its length.
pub open spec fn deny_pool(pool: &StackPool, k: nat) -> Seq<RegWrite> {
    region_writes(POOL_DENY_REGION, pool.base, k, RASR_AP_NO_ACCESS, true)
}

/// Deny the stack pool and turn memory protection on. The pool's length is a
/// power of two.
pub fn mpu_init(pool: &StackPool) -> (r: [RegWrite; 4])
    requires
        is_pow2(pool.len as int),
        pool.len >= 2,
    ensures
        exists|k: nat| #[trigger] pow2(k) == pool.len && k >= 1 && r@ == deny_pool(pool, k).push(
            RegWrite::of_word(MPU_CTRL, 5),
        ),
{
    let d = mpu_write_region(POOL_DENY_REGION, pool.base, pool.len, RASR_AP_NO_ACCESS, true);
    let writes: [RegWrite; 4] = [d[0], d[1], d[2], RegWrite::word(MPU_CTRL, 5)];
    assert(writes@ =~= d@.push(RegWrite::of_word(MPU_CTRL, 5)));
    writes
}

/// Allow the running task's stack. Nothing is written for a stack that is not
/// known; a known one is a power of two of bytes.
pub fn mpu_set_current_stack(base: usize, size: usize) -> (r: Option<[RegWrite; 3]>)
    requires
        base != 0 ==> is_pow2(size as int) && size >= 2,
    ensures
        r is Some == (base != 0),
        r matches Some(writes) ==> exists|k: nat| #[trigger]
            pow2(k) == size && k >= 1 && writes@ == region_writes(
                CURRENT_STACK_REGION,
                base,
                k,
                RASR_AP_RW,
                true,
            ),
{
    if base == 0 {
        return None;
    }
    Some(mpu_write_region(CURRENT_STACK_REGION, base, size, RASR_AP_RW, true))
}

/// The processor goes to a task with this stack.
pub fn on_switch_to(stack_base: usize, stack_size: usize) -> (r: Option<[RegWrite; 3]>)
    requires
        stack_base != 0 ==> is_pow2(stack_size as int) && stack_size >= 2,
    ensures
        r is Some == (stack_base != 0),
        r matches Some(writes) ==> exists|k: nat| #[trigger]
            pow2(k) == stack_size && k >= 1 && writes@ == region_writes(
                CURRENT_STACK_REGION,
                stack_base,
                k,
                RASR_AP_RW,
                true,
            ),
{
    mpu_set_current_stack(stack_base, stack_size)
}

/// Let the kernel into the pool, to prepare a new stack: the denying region is
/// taken out of force.
pub fn mpu_allow_scratch() -> (r: [RegWrite; 2])
    ensures
        r@ == seq![
            RegWrite::of_word(MPU_RNR, POOL_DENY_REGION),
            RegWrite::of_word(MPU_RASR, 0),
        ],
{
    [RegWrite::word(MPU_RNR, POOL_DENY_REGION), RegWrite::word(MPU_RASR, 0)]
}

/// Deny the pool again.
pub fn mpu_clear_scratch(pool: &StackPool) -> (r: [RegWrite; 3])
    requires
        is_pow2(pool.len as int),
        pool.len >= 2,
    ensures
        exists|k: nat| #[trigger] pow2(k) == pool.len && k >= 1 && r@ == deny_pool(pool, k),
{
    mpu_write_region(POOL_DENY_REGION, pool.base, pool.len, RASR_AP_NO_ACCESS, true)
}

/// What is known of a memory fault from the system registers.
pub open spec fn memory_fault(
    task_id: Option<usize>,
    cfsr: u32,
    mmfar: u32,
    fault_pc: usize,
) -> FaultInfo {
    FaultInfo {
        task_id,
        kind: FaultKind::MemManage(cfsr),
        address: if cfsr & CFSR_MMARVALID != 0 {
            mmfar as usize
        } else {
            0
        },
        pc: fault_pc,
    }
}

/// Handle a memory fault of the running task, whose registers were stacked at
/// `faulted_sp`; `fault_pc` is the stacked program counter, or 0.
pub fn rivet_memmanage_rust(
    f: &FaultState,
    p: &mut Preempt,
    t: &mut TimerQueue,
    out: &mut Vec<u8>,
    used: &[usize; MAX_PTASKS],
    faulted_sp: usize,
    cfsr: u32,
    mmfar: u32,
    fault_pc: usize,
) -> (r: FaultAction)
    requires
        old(p).wf(),
        old(t).wf(),
    ensures
        final(p).wf(),
        inherits(old(p)) ==> inherits(final(p)),
        final(t).wf(),
        exists|mid: Preempt, said: Seq<u8>|
            {
                &&& match old(p).running() {
                    Some(x) => sp_saved(old(p), &mid, x as int, faulted_sp),
                    None => mid == *old(p),
                }
                &&& final(out)@ == old(out)@ + said
                &&& #[trigger] fault::handled(
                    f,
                    &mid,
                    final(p),
                    old(t),
                    final(t),
                    said,
                    used@,
                    memory_fault(old(p).running(), cfsr, mmfar, fault_pc),
                    r,
                )
            },
{
    let task_id = sched::current(p);
    let ghost pre = *p;
    if let Some(id) = task_id {
        if id < MAX_PTASKS {
            if p.tasks[id].used {
                let mut slot = p.tasks[id];
                slot.sp = faulted_sp;
                p.tasks[id] = slot;
                proof {
                    sched::lemma_slot_annotated(pre, *p, id as int);
                    if inherits(&pre) {
                        mutex::lemma_inherits_same(pre, *p);
                    }
                }
            }
        }
    }
    let ghost mid = *p;
    let address: usize = if cfsr & CFSR_MMARVALID != 0 {
        mmfar as usize
    } else {
        0
    };
    let info = FaultInfo { task_id, kind: FaultKind::MemManage(cfsr), address, pc: fault_pc };
    let ghost start = out@;
    let r = fault::on_fault(f, p, t, out, used, &info);
    proof {
        let said = choose|said: Seq<u8>|
            out@ == start + said && #[trigger] fault::handled(
                f,
                &mid,
                p,
                old(t),
                t,
                said,
                used@,
                info,
                r,
            );
        assert(fault::handled(
            f,
            &mid,
            p,
            old(t),
            t,
            said,
            used@,
            memory_fault(pre.running(), cfsr, mmfar, fault_pc),
            r,
        ));
        assert(match pre.running() {
            Some(x) => sp_saved(&pre, &mid, x as int, faulted_sp),
            None => mid == pre,
        });
    }
    r
}

/// The tick count. It counts ticks of a millisecond, so that a word lasts for
/// weeks.
pub struct SysTick {
    /// Ticks since the start.
    pub ticks: u32,
}

/// Set the system timer to one tick per millisecond, without starting it. The
/// clock is at least a kilohertz.
pub fn systick_init(sysclk_hz: u32) -> (r: [RegWrite; 3])
    requires
        sysclk_hz >= 1000,
    ensures
        r@ == seq![
            RegWrite::of_word(SYST_CSR, 0),
            RegWrite::of_word(SYST_RVR, (sysclk_hz / 1000 - 1) as u32),
            RegWrite::of_word(SYST_CVR, 0),
        ],
{
    let reload: u32 = sysclk_hz / 1000;
    [
        RegWrite::word(SYST_CSR, 0),
        RegWrite::word(SYST_RVR, reload - 1),
        RegWrite::word(SYST_CVR, 0),
    ]
}

/// Start the system timer, with its interrupt, from the processor clock.
pub fn systick_enable() -> (r: RegWrite)
    ensures
        r == RegWrite::of_word(SYST_CSR, 7),
{
    RegWrite::word(SYST_CSR, 7)
}

/// Set the timer's period, and begin a new one.
pub fn systick_reload(ticks: u32) -> (r: [RegWrite; 2])
    ensures
        r@ == seq![RegWrite::of_word(SYST_RVR, ticks), RegWrite::of_word(SYST_CVR, 0)],
{
    [RegWrite::word(SYST_RVR, ticks), RegWrite::word(SYST_CVR, 0)]
}

/// Set the tick count.
pub fn systick_seed_ticks(s: &mut SysTick, v: u32)
    ensures
        final(s).ticks == v,
{
    s.ticks = v;
}

/// What the tick handler asks for.
#[derive(Clone, Copy, PartialEq, Eq, Structural, Debug)]
pub enum TickRequest {
    /// A watchdog has run out: reset the system.
    Reset,
    /// Request the context-switch exception.
    Switch(RegWrite),
}

/// The tick count after one more tick.
pub open spec fn next_tick(ticks: u32) -> u32 {
    if ticks == u32::MAX {
        0
    } else {
        (ticks + 1) as u32
    }
}

/// A tick: time goes on, the watchdogs are looked at, sleeps that are over are
/// ended, and a context switch is requested.
pub fn systick_handler(
    s: &mut SysTick,
    wd: &Watchdog,
    t: &mut TimerQueue,
    w: &mut WakerState,
    p: &mut Preempt,
    out: &mut Vec<u8>,
) -> (r: TickRequest)
    requires
        old(t).wf(),
        old(w).wf(),
        old(p).wf(),
    ensures
        final(t).wf(),
        final(w).wf(),
        final(p).wf(),
        inherits(old(p)) ==> inherits(final(p)),
        final(s).ticks == next_tick(old(s).ticks),
        ({
            let now = (final(s).ticks * 1000) as u64;
            let late = r is Reset;
            &&& watchdog::looked(wd, old(p), now, old(out)@, final(out)@, late)
            &&& late ==> *final(t) == *old(t) && *final(w) == *old(w) && *final(p) == *old(p)
            &&& !late ==> {
                &&& r == TickRequest::Switch(RegWrite::of_word(ICSR, PENDSVSET))
                &&& timer::polled(old(t), final(t), now)
                &&& timer::sleepers_woken(old(w), final(w), old(t), now, timer::MAX_TIMERS as int)
                &&& timer::blocked_woken(old(p), final(p), old(t), now, MAX_PTASKS as int)
            }
        }),
{
    s.ticks = s.ticks.wrapping_add(1);
    let now: u64 = now_micros(s);
    if watchdog::on_tick(wd, p, now, out) {
        return TickRequest::Reset;
    }
    timer::poll_timers(t, w, p, now);
    TickRequest::Switch(pend_executor())
}

/// Time since the start in microseconds.
pub fn now_micros(s: &SysTick) -> (r: u64)
    ensures
        r == s.ticks * 1000,
{
    s.ticks as u64 * 1000
}

/// Request the context-switch exception.
pub fn pend_executor() -> (r: RegWrite)
    ensures
        r == RegWrite::of_word(ICSR, PENDSVSET),
{
    RegWrite::word(ICSR, PENDSVSET)
}

/// Give up the processor: request the context-switch exception.
pub fn yield_now() -> (r: RegWrite)
    ensures
        r == RegWrite::of_word(ICSR, PENDSVSET),
{
    pend_executor()
}

/// Print a word as eight hexadecimal digits.
pub fn debug_print_hex32(n: u32, out: &mut Vec<u8>)
    ensures
        final(out)@ == old(out)@ + hex(n as nat, 8),
{
    put_hex(out, n as u64);
}

/// What is printed before the system halts with a failure.
pub open spec fn failure_text(code: u32) -> Seq<u8> {
    lit("\nRIVET_FAILURE code=") + dec(code as nat) + lit("\n")
}

/// Say that the system halts with a failure.
pub fn exit_failure(code: u32, out: &mut Vec<u8>)
    ensures
        final(out)@ == old(out)@ + failure_text(code),
{
    let ghost start = out@;
    put_str(out, "\nRIVET_FAILURE code=");
    put_dec(out, code as u64);
    put_str(out, "\n");
    proof {
        text::lemma_cat(start, lit("\nRIVET_FAILURE code="), dec(code as nat));
        text::lemma_cat(start, lit("\nRIVET_FAILURE code=") + dec(code as nat), lit("\n"));
    }
}

/// Reset the system.
pub fn system_reset() -> (r: RegWrite)
    ensures
        r == RegWrite::of_word(AIRCR, SYSRESETREQ),
{
    RegWrite::word(AIRCR, SYSRESETREQ)
}

/// What is written when the system starts: memory protection, the system
/// timer, the lowest priority for the context switch and the tick, and the
/// dedicated fault handlers.
pub fn early_init(pool: &StackPool) -> (r: [RegWrite; 10])
    requires
        is_pow2(pool.len as int),
        pool.len >= 2,
    ensures
        exists|k: nat| #[trigger] pow2(k) == pool.len && k >= 1 && r@ == deny_pool(pool, k) + seq![
            RegWrite::of_word(MPU_CTRL, 5),
            RegWrite::of_word(SYST_CSR, 0),
            RegWrite::of_word(SYST_RVR, 11_999),
            RegWrite::of_word(SYST_CVR, 0),
            RegWrite::of_byte(SHPR_PENDSV, 0xFF),
            RegWrite::of_byte(SHPR_SYSTICK, 0xFF),
            RegWrite::of_word(SHCSR, SHCSR_FAULTS),
        ],
{
    let m = mpu_init(pool);
    let ghost k = choose|k: nat| #[trigger]
        pow2(k) == pool.len && k >= 1 && m@ == deny_pool(pool, k).push(
            RegWrite::of_word(MPU_CTRL, 5),
        );
    let t = systick_init(SYSCLK_HZ);
    let writes: [RegWrite; 10] = [
        m[0],
        m[1],
        m[2],
        m[3],
        t[0],
        t[1],
        t[2],
        RegWrite::byte(SHPR_PENDSV, 0xFF),
        RegWrite::byte(SHPR_SYSTICK, 0xFF),
        RegWrite::word(SHCSR, SHCSR_FAULTS),
    ];
    proof {
        assert(writes@ =~= deny_pool(pool, k) + seq![
            RegWrite::of_word(MPU_CTRL, 5),
            RegWrite::of_word(SYST_CSR, 0),
            RegWrite::of_word(SYST_RVR, 11_999),
            RegWrite::of_word(SYST_CVR, 0),
            RegWrite::of_byte(SHPR_PENDSV, 0xFF),
            RegWrite::of_byte(SHPR_SYSTICK, 0xFF),
            RegWrite::of_word(SHCSR, SHCSR_FAULTS),
        ]);
    }
    writes
}

/// The first frame of a task: as if it had been interrupted before its first
/// instruction, with its argument in the first register and its end in the
/// link register.
#[derive(Clone, Copy)]
pub struct InitialFrame {
    /// Where the frame goes.
    pub sp: usize,
    /// Its words.
    pub words: [u32; FRAME_WORDS],
}

/// Word `i` of the first frame.
pub open spec fn frame_word(i: int, entry_fn: usize, arg: usize, exit: usize) -> u32 {
    if i == 8 {
        low_word(arg as int)
    } else if i == 13 {
        low_word(exit as int)
    } else if i == 14 {
        low_word(entry_fn as int)
    } else if i == 15 {
        XPSR_THUMB
    } else {
        0
    }
}

/// The first frame of a task on the stack `[base, base + len)`, which runs
/// `entry_fn` on `arg` and goes to `exit` when that returns.
pub fn init_task_stack(base: usize, len: usize, entry_fn: usize, arg: usize, exit: usize) -> (r:
    InitialFrame)
    requires
        base + len <= usize::MAX,
        len >= MIN_TASK_STACK,
    ensures
        r.sp == frame::frame_start(base as int, len as int, 4 * FRAME_WORDS),
        r.sp % frame::STACK_ALIGN == 0,
        base <= r.sp,
        r.sp + 4 * FRAME_WORDS <= base + len,
        forall|i: int|
            0 <= i < FRAME_WORDS ==> #[trigger] r.words[i] == frame_word(i, entry_fn, arg, exit),
{
    let sp: usize = frame::place_frame(base, len, 4 * FRAME_WORDS);
    let mut words: [u32; FRAME_WORDS] = [0; FRAME_WORDS];
    words[8] = word_of(arg);
    words[13] = word_of(exit);
    words[14] = word_of(entry_fn);
    words[15] = XPSR_THUMB;
    InitialFrame { sp, words }
}

/// What the supervisor call does: memory protection is off while the frame is
/// written, and the frame's address is the result.
pub struct FrameCall {
    /// Turns memory protection off.
    pub before: RegWrite,
    /// The frame.
    pub frame: InitialFrame,
    /// Puts memory protection back.
    pub after: RegWrite,
    /// The result, for the first register.
    pub result: u32,
}

/// Prepare a new stack on behalf of a task, which is not allowed to: `regs`
/// holds its stack, the stack's length, the entry and the argument; `saved` is
/// the control word of the memory protection unit.
pub fn rivet_svc_core(regs: &[u32; 4], exit: usize, saved: u32) -> (r: FrameCall)
    requires
        regs[0] + regs[1] <= u32::MAX,
        regs[1] >= MIN_TASK_STACK,
    ensures
        r.before == RegWrite::of_word(MPU_CTRL, saved & !1u32),
        r.after == RegWrite::of_word(MPU_CTRL, saved),
        r.frame.sp == frame::frame_start(regs[0] as int, regs[1] as int, 4 * FRAME_WORDS),
        r.result == r.frame.sp,
        forall|i: int|
            0 <= i < FRAME_WORDS ==> #[trigger] r.frame.words[i] == frame_word(
                i,
                regs[2] as usize,
                regs[3] as usize,
                exit,
            ),
{
    let frame = init_task_stack(
        regs[0] as usize,
        regs[1] as usize,
        regs[2] as usize,
        regs[3] as usize,
        exit,
    );
    let result: u32 = frame.sp as u32;
    FrameCall {
        before: RegWrite::word(MPU_CTRL, saved & !1u32),
        frame,
        after: RegWrite::word(MPU_CTRL, saved),
        result,
    }
}

/// The system timer reloads once in a millisecond.
pub proof fn law_timer_reloads_each_millisecond(sysclk_hz: u32, r: [RegWrite; 3])
    requires
        sysclk_hz >= 1000,
        call_ensures(systick_init, (sysclk_hz,), r),
    ensures
        r[0].address == 0xE000_E010 && r[0].value == 0,
        r[1].address == 0xE000_E014,
        (r[1].value + 1) * 1000 <= sysclk_hz < (r[1].value + 2) * 1000,
        r[2].address == 0xE000_E018 && r[2].value == 0,
{
    assert(r@[0] == r[0] && r@[1] == r[1] && r@[2] == r[2]);
}

/// A reload sets the period that was asked for and begins a new one.
pub proof fn law_reload_is_what_was_asked(ticks: u32, r: [RegWrite; 2])
    requires
        call_ensures(systick_reload, (ticks,), r),
    ensures
        r[0].address == 0xE000_E014 && r[0].value == ticks,
        r[1].address == 0xE000_E018 && r[1].value == 0,
{
    assert(r@[0] == r[0] && r@[1] == r[1]);
}

/// One tick takes the clock on by a thousand microseconds; the timers are
/// looked at with the new time, and a context switch is asked for unless a
/// watchdog has run out.
pub proof fn law_tick_is_a_millisecond(
    s: &mut SysTick,
    wd: &Watchdog,
    t: &mut TimerQueue,
    w: &mut WakerState,
    p: &mut Preempt,
    out: &mut Vec<u8>,
    r: TickRequest,
    before: u64,
    after: u64,
)
    requires
        old(s).ticks < u32::MAX,
        call_ensures(now_micros, (&*old(s),), before),
        call_ensures(systick_handler, (s, wd, t, w, p, out), r),
        call_ensures(now_micros, (&*final(s),), after),
    ensures
        after == before + 1000,
        watchdog::looked(wd, old(p), after, old(out)@, final(out)@, r is Reset),
        r is Reset ==> *final(t) == *old(t) && *final(w) == *old(w) && *final(p) == *old(p),
        r matches TickRequest::Switch(write) ==> write.address == 0xE000_ED04 && write.value
            == 0x1000_0000,
        r is Switch ==> timer::polled(old(t), final(t), after),
{
}

/// The tick count is what it was set to, and the clock follows it.
pub proof fn law_tick_count_is_what_was_set(s: &mut SysTick, v: u32, now: u64)
    requires
        call_ensures(systick_seed_ticks, (s, v), ()),
        call_ensures(now_micros, (&*final(s),), now),
    ensures
        now == v * 1000,
{
}

/// The region that allows the running task's stack has the number seven, the
/// stack's address and its size, lets everybody read and write and nobody
/// execute, and is in force.
pub proof fn law_running_stack_is_allowed(base: usize, size: usize, r: Option<[RegWrite; 3]>)
    requires
        is_pow2(size as int),
        32 <= size <= 0x8000_0000,
        base < 0x1_0000_0000,
        base % 32 == 0,
        call_ensures(on_switch_to, (base, size), r),
    ensures
        r is Some <==> base != 0,
        r matches Some(w) ==> {
            &&& w[0].address == 0xE000_ED98 && w[0].value == 7
            &&& w[1].address == 0xE000_ED9C && w[1].value == base + 0x10 + 7
            &&& w[2].address == 0xE000_EDA0
            &&& pow2(((w[2].value / 2) % 32 + 1) as nat) == size
            &&& w[2].value % 2 == 1
            &&& w[2].value / 0x0100_0000 == 0x13
        },
{
    if let Some(w) = r {
        assert(w@[0] == w[0] && w@[1] == w[1] && w@[2] == w[2]);
        let k = choose|k: nat| #[trigger]
            pow2(k) == size && k >= 1 && w@ == region_writes(
                CURRENT_STACK_REGION,
                base,
                k,
                RASR_AP_RW,
                true,
            );
        lemma_exponent_bound(k, size as int);
        let low = low_word(base as int);
        assert(low == base);
        assert(low | 0x10u32 | 7u32 == low + 0x17) by (bit_vector)
            requires
                low % 32 == 0,
        ;
        let f = (k - 1) as u32;
        let v = w[2].value;
        assert((v / 2) % 32 == f && v % 2 == 1 && v / 0x0100_0000 == 0x13) by (bit_vector)
            requires
                f < 31,
                v == 0x1000_0000u32 | 0x0300_0000u32 | (f << 1u32) | 1u32,
        ;
    }
}

proof fn lemma_exponent_bound(k: nat, size: int)
    requires
        pow2(k) == size,
        size <= 0x8000_0000,
    ensures
        k <= 31,
{
    lemma2_to64();
    if k > 31 {
        vstd::arithmetic::power2::lemma_pow2_strictly_increases(31, k);
    }
}

/// The region that denies the stack pool has the number six, the pool's
/// address and its size, lets nobody in, and is in force; letting the kernel in
/// takes the same region out of force.
pub proof fn law_stack_pool_is_denied(pool: &StackPool, open: [RegWrite; 2], shut: [RegWrite; 3])
    requires
        is_pow2(pool.len as int),
        32 <= pool.len <= 0x8000_0000,
        pool.base < 0x1_0000_0000,
        pool.base % 32 == 0,
        call_ensures(mpu_allow_scratch, (), open),
        call_ensures(mpu_clear_scratch, (pool,), shut),
    ensures
        open[0].address == 0xE000_ED98 && open[0].value == 6,
        open[1].address == 0xE000_EDA0 && open[1].value == 0,
        shut[0].address == 0xE000_ED98 && shut[0].value == 6,
        shut[1].address == 0xE000_ED9C && shut[1].value == pool.base + 0x10 + 6,
        shut[2].address == 0xE000_EDA0,
        pow2(((shut[2].value / 2) % 32 + 1) as nat) == pool.len,
        shut[2].value % 2 == 1,
        shut[2].value / 0x0100_0000 == 0x10,
{
    assert(open@[0] == open[0] && open@[1] == open[1]);
    assert(shut@[0] == shut[0] && shut@[1] == shut[1] && shut@[2] == shut[2]);
    let k = choose|k: nat| #[trigger]
        pow2(k) == pool.len && k >= 1 && shut@ == deny_pool(pool, k);
    lemma_exponent_bound(k, pool.len as int);
    let low = low_word(pool.base as int);
    assert(low == pool.base);
    assert(low | 0x10u32 | 6u32 == low + 0x16) by (bit_vector)
        requires
            low % 32 == 0,
    ;
    let f = (k - 1) as u32;
    let v = shut[2].value;
    assert((v / 2) % 32 == f && v % 2 == 1 && v / 0x0100_0000 == 0x10) by (bit_vector)
        requires
            f < 31,
            v == 0x1000_0000u32 | 0u32 | (f << 1u32) | 1u32,
    ;
}

/// Starting the system denies the pool as letting nobody in again does, turns
/// protection on, sets the timer to a millisecond of its clock, and gives the
/// context switch and the tick the lowest priority.
pub proof fn law_start_sets_protection_and_tick(
    pool: &StackPool,
    r: [RegWrite; 10],
    m: [RegWrite; 4],
)
    requires
        is_pow2(pool.len as int),
        pool.len >= 2,
        call_ensures(early_init, (pool,), r),
        call_ensures(mpu_init, (pool,), m),
    ensures
        m[0].address == 0xE000_ED98 && m[0].value == 6,
        m[3].address == 0xE000_ED94 && m[3].value == 5,
        r[3].address == 0xE000_ED94 && r[3].value == 5,
        r[4].address == 0xE000_E010 && r[4].value == 0,
        r[5].address == 0xE000_E014 && (r[5].value + 1) * 1000 == 12_000_000,
        r[6].address == 0xE000_E018 && r[6].value == 0,
        r[7].address == 0xE000_ED22 && r[7].value == 0xFF && r[7].width is Byte,
        r[8].address == 0xE000_ED23 && r[8].value == 0xFF && r[8].width is Byte,
        r[9].address == 0xE000_ED24 && r[9].value == 0x0007_0000,
{
    assert(m@[0] == m[0] && m@[3] == m[3]);
    assert(r@[3] == r[3] && r@[4] == r[4] && r@[5] == r[5] && r@[6] == r[6] && r@[7] == r[7]
        && r@[8] == r[8] && r@[9] == r[9]);
}

/// A context switch and a reset are asked for at their registers, and the timer
/// is started with its interrupt.
pub proof fn law_requests_are_written(
    pend: RegWrite,
    give_up: RegWrite,
    reset: RegWrite,
    on: RegWrite,
)
    requires
        call_ensures(pend_executor, (), pend),
        call_ensures(yield_now, (), give_up),
        call_ensures(system_reset, (), reset),
        call_ensures(systick_enable, (), on),
    ensures
        pend.address == 0xE000_ED04 && pend.value == 0x1000_0000,
        give_up == pend,
        reset.address == 0xE000_ED0C && reset.value == 0x05FA_0004,
        on.address == 0xE000_E010 && on.value == 7,
{
}

/// The first frame lies at the top of the stack, aligned, with the argument in
/// the first register, the end in the link register and the entry as the next
/// instruction.
pub proof fn law_first_frame_starts_the_task(
    base: usize,
    len: usize,
    entry_fn: usize,
    arg: usize,
    exit: usize,
    r: InitialFrame,
)
    requires
        base + len <= usize::MAX,
        len >= 128,
        call_ensures(init_task_stack, (base, len, entry_fn, arg, exit), r),
    ensures
        r.sp % 16 == 0,
        r.sp + 64 <= base + len < r.sp + 64 + 16,
        r.words[8] == arg as int % 0x1_0000_0000,
        r.words[13] == exit as int % 0x1_0000_0000,
        r.words[14] == entry_fn as int % 0x1_0000_0000,
        r.words[15] == 0x0100_0000,
        forall|i: int|
            0 <= i < 16 && i != 8 && i != 13 && i != 14 && i != 15 ==> #[trigger] r.words[i] == 0,
{
}

/// The supervisor call prepares the same frame as the kernel itself would, with
/// memory protection off meanwhile and back as it was afterwards.
pub proof fn law_frame_call_prepares_the_frame(
    regs: &[u32; 4],
    exit: usize,
    saved: u32,
    r: FrameCall,
    f: InitialFrame,
    i: int,
)
    requires
        regs[0] + regs[1] <= u32::MAX,
        regs[1] >= 128,
        call_ensures(rivet_svc_core, (regs, exit, saved), r),
        call_ensures(
            init_task_stack,
            (regs[0] as usize, regs[1] as usize, regs[2] as usize, regs[3] as usize, exit),
            f,
        ),
        0 <= i < 16,
    ensures
        r.frame.sp == f.sp,
        r.result == f.sp,
        r.frame.words[i] == f.words[i],
        r.before.address == 0xE000_ED94 && r.before.value == saved - saved % 2,
        r.after.address == 0xE000_ED94 && r.after.value == saved,
{
    assert(saved & !1u32 == saved - saved % 2) by (bit_vector);
}

/// A halt is announced with its code in decimal, and a word is printed as
/// eight digits.
pub proof fn law_failure_is_announced(
    code: u32,
    n: u32,
    a: &mut Vec<u8>,
    b: &mut Vec<u8>,
    c: &mut Vec<u8>,
)
    requires
        call_ensures(exit_failure, (code, a), ()),
        call_ensures(debug_print_hex32, (n, b), ()),
        *old(c) == *old(b),
        call_ensures(put_hex, (c, n as u64), ()),
    ensures
        final(a)@ == old(a)@ + (lit("\nRIVET_FAILURE code=") + dec(code as nat) + lit("\n")),
        final(b)@ == final(c)@,
{
}

/// A memory fault is reported with the address that was touched, if the status
/// word has bit 7, and with the stacked program counter, of the task that ran.
/// Here under the policy to reset, which keeps where the task stood.
#[verifier::spinoff_prover]
#[verifier::rlimit(60)]
pub proof fn law_memory_fault_is_reported(
    f: &FaultState,
    p: &mut Preempt,
    t: &mut TimerQueue,
    out: &mut Vec<u8>,
    other: &mut Vec<u8>,
    used: &[usize; MAX_PTASKS],
    faulted_sp: usize,
    cfsr: u32,
    mmfar: u32,
    fault_pc: usize,
    info: FaultInfo,
    r: FaultAction,
    x: int,
)
    requires
        call_ensures(
            rivet_memmanage_rust,
            (f, p, t, out, used, faulted_sp, cfsr, mmfar, fault_pc),
            r,
        ),
        f.policy == fault::FaultPolicy::Panic,
        info.kind == FaultKind::MemManage(cfsr),
        info.address == (if (cfsr / 128) % 2 == 1 {
            mmfar as int
        } else {
            0
        }),
        info.pc == fault_pc,
        info.task_id == old(p).running(),
        *old(other) == *old(out),
        call_ensures(fault::dump, (other, &info), ()),
        0 <= x < MAX_PTASKS,
    ensures
        r == FaultAction::Reset,
        *final(t) == *old(t),
        old(p).running() == Some(x as usize) && old(p).live(x) is Some ==> final(p).tasks[x].sp
            == faulted_sp,
        old(p).running() != Some(x as usize) ==> final(p).tasks[x] == old(p).tasks[x],
        exists|rest: Seq<u8>| #[trigger] (final(other)@ + rest) == final(out)@,
{
    assert((cfsr & 0x80 != 0) == ((cfsr / 128) % 2 == 1)) by (bit_vector);
    assert(memory_fault(old(p).running(), cfsr, mmfar, fault_pc) == info);
    let (mid, said) = choose|mid: Preempt, said: Seq<u8>|
        {
            &&& match old(p).running() {
                Some(x) => sp_saved(old(p), &mid, x as int, faulted_sp),
                None => mid == *old(p),
            }
            &&& final(out)@ == old(out)@ + said
            &&& #[trigger] fault::handled(
                f,
                &mid,
                final(p),
                old(t),
                final(t),
                said,
                used@,
                memory_fault(old(p).running(), cfsr, mmfar, fault_pc),
                r,
            )
        };
    let rest = said.skip(fault::dump_text(info).len() as int);
    assert(said =~= fault::dump_text(info) + rest);
    assert(final(other)@ + rest =~= final(out)@);
    assert(final(p).tasks@[x] == final(p).tasks[x]);
    assert(mid.tasks@[x] == mid.tasks[x]);
    assert(old(p).tasks@[x] == old(p).tasks[x]);
}

} // verus!
