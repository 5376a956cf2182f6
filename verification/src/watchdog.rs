//! Watchdogs: one over the system, and one over each task that checks in.
//!
//! A board with a watchdog timer is told what to write to it. Without one the
//! kernel keeps a deadline of its own and looks at it on every tick.
use crate::mmio::{low_word, RegWrite};
use crate::preempt::mutex::{self, inherits};
use crate::preempt::sched::{self, Preempt};
use crate::preempt::tcb::{Tcb, MAX_PTASKS};
use crate::text::{self, dec, lit, put_dec, put_str};
use crate::time::Duration;
use vstd::prelude::*;

verus! {

/// Clock of the watchdog timer, in ticks per microsecond.
pub const TICKS_PER_US: u64 = 12;

/// The clock-gate register, and the value that turns the timer on.
pub const CLOCK_GATE: usize = 0x400F_E060;

/// See [`CLOCK_GATE`].
pub const CLOCK_GATE_ON: u32 = 0x078E_3AC1;

/// Load register of the timer.
pub const WDT_LOAD: usize = 0x4000_0000;

/// Control register of the timer.
pub const WDT_CTL: usize = 0x4000_0008;

/// Interrupt-clear register of the timer; a write feeds the dog.
pub const WDT_ICR: usize = 0x4000_000C;

/// Lock register of the timer.
pub const WDT_LOCK: usize = 0x4000_0C00;

/// Opens the lock.
pub const UNLOCK: u32 = 0x1ACC_E551;

/// The state of the watchdogs.
pub struct Watchdog {
    /// The board has a watchdog timer.
    pub hardware: bool,
    /// The system must be fed within this time; zero while disabled.
    pub period_us: u32,
    /// When the system is overdue, without a watchdog timer.
    pub deadline: u32,
    /// A task must check in within this time; zero while disabled.
    pub checkin_timeout_us: u32,
}

/// The low word of the time `us` after `now`.
pub open spec fn deadline_after(now: u64, us: u32) -> u32 {
    low_word(now + us)
}

/// Ticks of the timer for a period: never none, and the low word of what does
/// not fit.
pub open spec fn timer_ticks(us: u32) -> u32 {
    if us == 0 {
        1
    } else {
        low_word(us * TICKS_PER_US)
    }
}

impl Watchdog {
    /// Disabled.
    pub fn new(hardware: bool) -> (r: Self)
        ensures
            r.hardware == hardware,
            r.period_us == 0,
            r.deadline == 0,
            r.checkin_timeout_us == 0,
    {
        Watchdog { hardware, period_us: 0, deadline: 0, checkin_timeout_us: 0 }
    }
}

/// `now + us`, as a word.
fn after(now: u64, us: u32) -> (r: u32)
    ensures
        r == deadline_after(now, us),
{
    let low: u64 = now % 0x1_0000_0000;
    let sum: u64 = (low + us as u64) % 0x1_0000_0000;
    proof {
        vstd::arithmetic::div_mod::lemma_add_mod_noop(now as int, us as int, 0x1_0000_0000);
        vstd::arithmetic::div_mod::lemma_small_mod(us as nat, 0x1_0000_0000);
    }
    sum as u32
}

/// Start the watchdog over the system. Returns what to write to the watchdog
/// timer; nothing where there is none.
pub fn init(wd: &mut Watchdog, period: Duration, now: u64) -> (r: Option<[RegWrite; 5]>)
    ensures
        final(wd).hardware == old(wd).hardware,
        final(wd).checkin_timeout_us == old(wd).checkin_timeout_us,
        final(wd).period_us == low_word(period.micros() as int),
        final(wd).deadline == (if old(wd).hardware {
            old(wd).deadline
        } else {
            deadline_after(now, final(wd).period_us)
        }),
        r is Some == old(wd).hardware,
        r matches Some(writes) ==> writes@ == seq![
            RegWrite::of_word(CLOCK_GATE, CLOCK_GATE_ON),
            RegWrite::of_word(WDT_LOCK, UNLOCK),
            RegWrite::of_word(WDT_LOAD, timer_ticks(final(wd).period_us)),
            RegWrite::of_word(WDT_CTL, 3),
            RegWrite::of_word(WDT_ICR, 0),
        ],
{
    let us: u32 = (period.as_micros() % 0x1_0000_0000) as u32;
    wd.period_us = us;
    if wd.hardware {
        let scaled: u64 = us as u64 * TICKS_PER_US;
        let ticks: u32 = if scaled == 0 {
            1
        } else {
            (scaled % 0x1_0000_0000) as u32
        };
        Some(
            [
                RegWrite::word(CLOCK_GATE, CLOCK_GATE_ON),
                RegWrite::word(WDT_LOCK, UNLOCK),
                RegWrite::word(WDT_LOAD, ticks),
                RegWrite::word(WDT_CTL, 3),
                RegWrite::word(WDT_ICR, 0),
            ],
        )
    } else {
        wd.deadline = after(now, us);
        None
    }
}

/// Feed the watchdog over the system. Returns what to write to the watchdog
/// timer. A disabled watchdog is left alone.
pub fn feed(wd: &mut Watchdog, now: u64) -> (r: Option<RegWrite>)
    ensures
        *final(wd) == (Watchdog { deadline: final(wd).deadline, ..*old(wd) }),
        final(wd).deadline == (if old(wd).period_us != 0 && !old(wd).hardware {
            deadline_after(now, old(wd).period_us)
        } else {
            old(wd).deadline
        }),
        r == (if old(wd).period_us != 0 && old(wd).hardware {
            Some(RegWrite::of_word(WDT_ICR, 0))
        } else {
            None
        }),
{
    if wd.period_us != 0 {
        if wd.hardware {
            return Some(RegWrite::word(WDT_ICR, 0));
        }
        wd.deadline = after(now, wd.period_us);
    }
    None
}

/// How far the word `a` is ahead of `b` on the wrapping clock.
pub open spec fn ahead(a: u32, b: u32) -> int {
    if a >= b {
        a - b
    } else {
        a - b + 0x1_0000_0000
    }
}

/// The system was not fed in time.
pub open spec fn starved(wd: &Watchdog, now: u64) -> bool {
    &&& !wd.hardware
    &&& wd.period_us != 0
    &&& ahead(low_word(now as int), wd.deadline) < u32::MAX / 2
}

/// A task that has checked in before did not do so again in time.
pub open spec fn overdue(wd: &Watchdog, t: &Tcb, now: u64) -> bool {
    &&& t.used
    &&& t.last_checkin != 0
    &&& ahead(low_word(now as int), t.last_checkin) > wd.checkin_timeout_us
}

/// `x` is the first task that is overdue.
pub open spec fn first_overdue(wd: &Watchdog, p: &Preempt, now: u64, x: int) -> bool {
    &&& wd.checkin_timeout_us != 0
    &&& 0 <= x < MAX_PTASKS
    &&& overdue(wd, &p.tasks[x], now)
    &&& forall|y: int| 0 <= y < x ==> !overdue(wd, #[trigger] &p.tasks[y], now)
}

/// No task is overdue.
pub open spec fn none_overdue(wd: &Watchdog, p: &Preempt, now: u64) -> bool {
    wd.checkin_timeout_us == 0 || forall|y: int|
        0 <= y < MAX_PTASKS ==> !overdue(wd, #[trigger] &p.tasks[y], now)
}

/// What is said of an overdue task.
pub open spec fn checkin_text(x: nat) -> Seq<u8> {
    lit("RIVET TASK CHECKIN TIMEOUT task=") + dec(x) + lit("\n")
}

/// What looking at the watchdogs comes to: whether the system must be reset,
/// and what is said of it. The watchdog over the system goes first.
pub open spec fn looked(
    wd: &Watchdog,
    p: &Preempt,
    now: u64,
    pre_out: Seq<u8>,
    post_out: Seq<u8>,
    reset: bool,
) -> bool {
    &&& reset == (starved(wd, now) || !none_overdue(wd, p, now))
    &&& !reset ==> post_out == pre_out
    &&& starved(wd, now) ==> post_out == pre_out + lit("RIVET WATCHDOG TIMEOUT\n")
    &&& !starved(wd, now) ==> forall|x: int| #[trigger]
        first_overdue(wd, p, now, x) ==> post_out == pre_out + checkin_text(x as nat)
}

/// Look at the watchdogs. Returns whether the system must be reset, after
/// saying why.
pub fn on_tick(wd: &Watchdog, p: &Preempt, now: u64, out: &mut Vec<u8>) -> (reset: bool)
    ensures
        looked(wd, p, now, old(out)@, final(out)@, reset),
{
    if !wd.hardware {
        let low: u32 = (now % 0x1_0000_0000) as u32;
        if wd.period_us != 0 && low.wrapping_sub(wd.deadline) < u32::MAX / 2 {
            put_str(out, "RIVET WATCHDOG TIMEOUT\n");
            return true;
        }
    }
    check_task_checkins(wd, p, now, out)
}

/// The running task is alive.
pub fn checkin(wd: &Watchdog, p: &mut Preempt, now: u64)
    requires
        old(p).wf(),
    ensures
        final(p).wf(),
        inherits(old(p)) ==> inherits(final(p)),
        *final(p) == (Preempt { tasks: final(p).tasks, ..*old(p) }),
        match old(p).running() {
            Some(x) if wd.checkin_timeout_us != 0 && old(p).tasks[x as int].used =>
            final(p).tasks@ == old(p).tasks@.update(
                x as int,
                (Tcb { last_checkin: low_word(now as int), ..old(p).tasks[x as int] }),
            ),
            _ => final(p).tasks@ == old(p).tasks@,
        },
{
    if wd.checkin_timeout_us == 0 {
        return ;
    }
    let ghost pre = *p;
    if let Some(id) = sched::current(p) {
        if p.tasks[id].used {
            let mut slot = p.tasks[id];
            slot.last_checkin = (now % 0x1_0000_0000) as u32;
            p.tasks[id] = slot;
            proof {
                sched::lemma_slot_annotated(pre, *p, id as int);
                if inherits(&pre) {
                    mutex::lemma_inherits_same(pre, *p);
                }
            }
        }
    }
}

/// Start the watchdogs over the tasks.
pub fn enable_checkins(wd: &mut Watchdog, timeout: Duration)
    ensures
        *final(wd) == (Watchdog {
            checkin_timeout_us: low_word(timeout.micros() as int),
            ..*old(wd)
        }),
{
    wd.checkin_timeout_us = (timeout.as_micros() % 0x1_0000_0000) as u32;
}

fn check_task_checkins(wd: &Watchdog, p: &Preempt, now: u64, out: &mut Vec<u8>) -> (reset: bool)
    ensures
        reset == !none_overdue(wd, p, now),
        !reset ==> final(out)@ == old(out)@,
        forall|x: int| #[trigger]
            first_overdue(wd, p, now, x) ==> reset && final(out)@ == old(out)@ + checkin_text(
                x as nat,
            ),
{
    let timeout: u32 = wd.checkin_timeout_us;
    if timeout == 0 {
        return false;
    }
    let low: u32 = (now % 0x1_0000_0000) as u32;
    let mut id: usize = 0;
    while id < MAX_PTASKS
        invariant
            id <= MAX_PTASKS,
            timeout == wd.checkin_timeout_us,
            timeout != 0,
            low == low_word(now as int),
            out@ == old(out)@,
            forall|y: int| 0 <= y < id ==> !overdue(wd, #[trigger] &p.tasks[y], now),
        decreases MAX_PTASKS - id,
    {
        let t = &p.tasks[id];
        if t.used {
            let last: u32 = t.last_checkin;
            if last != 0 && low.wrapping_sub(last) > timeout {
                let ghost start = out@;
                put_str(out, "RIVET TASK CHECKIN TIMEOUT task=");
                put_dec(out, id as u64);
                put_str(out, "\n");
                proof {
                    text::lemma_cat(
                        start,
                        lit("RIVET TASK CHECKIN TIMEOUT task="),
                        dec(id as nat),
                    );
                    text::lemma_cat(
                        start,
                        lit("RIVET TASK CHECKIN TIMEOUT task=") + dec(id as nat),
                        lit("\n"),
                    );
                    assert(overdue(wd, &p.tasks[id as int], now));
                }
                return true;
            }
        }
        id = id + 1;
    }
    false
}

/// A watchdog that is fed is not starved before its period is over, and is
/// starved from then on, for as long as the wrapping clock can tell.
pub proof fn law_starved_after_the_period(wd: &Watchdog, fed: u64, now: u64)
    requires
        !wd.hardware,
        0 < wd.period_us <= 0x8000_0001,
        wd.deadline == deadline_after(fed, wd.period_us),
        fed <= now < fed + wd.period_us + 0x7FFF_FFFF,
    ensures
        starved(wd, now) == (now >= fed + wd.period_us),
{
}

/// A task that has checked in is overdue exactly when it has been silent for
/// longer than the timeout.
pub proof fn law_silent_task_is_overdue(wd: &Watchdog, t: &Tcb, last: u64, now: u64)
    requires
        t.used,
        t.last_checkin == low_word(last as int),
        t.last_checkin != 0,
        last <= now < last + 0x1_0000_0000,
    ensures
        overdue(wd, t, now) == (now - last > wd.checkin_timeout_us),
{
}

/// A system that is fed in time is left alone, and one that is not is reset, as
/// long as the wrapping clock can tell: `feed` is when the watchdog was started
/// or last fed.
pub proof fn law_system_must_be_fed(
    wd: &mut Watchdog,
    fed: &mut Watchdog,
    period: Duration,
    span: u64,
    began: u64,
    at: u64,
    programmed: Option<[RegWrite; 5]>,
    write: Option<RegWrite>,
    p: &Preempt,
    now: u64,
    out: &mut Vec<u8>,
    reset: bool,
    out_unfed: &mut Vec<u8>,
    reset_unfed: bool,
)
    requires
        call_ensures(Duration::as_micros, (&period,), span),
        call_ensures(init, (wd, period, began), programmed),
        !old(wd).hardware,
        old(wd).checkin_timeout_us == 0,
        0 < span <= 0x8000_0000,
        *old(fed) == *final(wd),
        call_ensures(feed, (fed, at), write),
        call_ensures(on_tick, (&*final(wd), p, now, out_unfed), reset_unfed),
        call_ensures(on_tick, (&*final(fed), p, now, out), reset),
    ensures
        began <= now < began + span + 0x7FFF_FFFF ==> (reset_unfed <==> now - began >= span),
        at <= now < at + span + 0x7FFF_FFFF ==> (reset <==> now - at >= span),
        !reset ==> final(out)@ == old(out)@,
        programmed is None,
        write is None,
{
}

/// A watchdog timer is loaded with twelve ticks for each microsecond of the
/// period, and fed by clearing its interrupt.
pub proof fn law_timer_is_loaded_with_the_period(
    wd: &mut Watchdog,
    fed: &mut Watchdog,
    period: Duration,
    span: u64,
    began: u64,
    at: u64,
    programmed: Option<[RegWrite; 5]>,
    write: Option<RegWrite>,
)
    requires
        call_ensures(Duration::as_micros, (&period,), span),
        call_ensures(init, (wd, period, began), programmed),
        old(wd).hardware,
        0 < span,
        span * 12 <= u32::MAX,
        *old(fed) == *final(wd),
        call_ensures(feed, (fed, at), write),
    ensures
        programmed matches Some(w) && (exists|i: int|
            0 <= i < 5 && (#[trigger] w[i]).address == 0x4000_0000 && w[i].value == span * 12)
            && w[1] == RegWrite::of_word(0x4000_0C00, 0x1ACC_E551) && w[3]
            == RegWrite::of_word(0x4000_0008, 3),
        write == Some(RegWrite::of_word(0x4000_000C, 0)),
{
    let w = programmed->0;
    assert(w[2] == w@[2]);
    assert(w[1] == w@[1]);
    assert(w[3] == w@[3]);
}

/// A disabled watchdog is never fed and never bites.
pub proof fn law_disabled_watchdog_sleeps(
    wd: &mut Watchdog,
    at: u64,
    write: Option<RegWrite>,
    p: &Preempt,
    now: u64,
    out: &mut Vec<u8>,
    reset: bool,
)
    requires
        old(wd).period_us == 0,
        old(wd).checkin_timeout_us == 0,
        call_ensures(feed, (wd, at), write),
        call_ensures(on_tick, (&*final(wd), p, now, out), reset),
    ensures
        write is None,
        *final(wd) == *old(wd),
        !reset,
        final(out)@ == old(out)@,
{
}

/// A task that has checked in must do so again within the timeout: the first
/// look after it resets the system, and no look before it does so on its
/// account. (A check-in at a multiple of 2^32 microseconds is not seen.)
pub proof fn law_task_must_check_in(
    wd: &mut Watchdog,
    timeout: Duration,
    span: u64,
    p: &mut Preempt,
    last: u64,
    now: u64,
    out: &mut Vec<u8>,
    reset: bool,
)
    requires
        call_ensures(Duration::as_micros, (&timeout,), span),
        call_ensures(enable_checkins, (wd, timeout), ()),
        0 < span <= u32::MAX,
        old(wd).period_us == 0,
        old(p).wf(),
        call_ensures(checkin, (&*final(wd), p, last), ()),
        old(p).running() is Some,
        old(p).tasks[old(p).running()->0 as int].used,
        last % 0x1_0000_0000 != 0,
        last <= now < last + 0x1_0000_0000,
        call_ensures(on_tick, (&*final(wd), &*final(p), now, out), reset),
    ensures
        now - last > span ==> reset,
        now - last <= span && (forall|x: int|
            0 <= x < MAX_PTASKS && x != old(p).running()->0 && (#[trigger] old(p).tasks[x]).used
                ==> old(p).tasks[x].last_checkin == 0) ==> !reset,
        forall|x: int|
            0 <= x < MAX_PTASKS && x != old(p).running()->0 ==> #[trigger] final(p).tasks[x]
                == old(p).tasks[x],
{
    let me = old(p).running()->0 as int;
    assert(final(p).tasks@[me] == final(p).tasks[me]);
    assert forall|x: int| 0 <= x < MAX_PTASKS && x != me implies #[trigger] final(p).tasks[x]
        == old(p).tasks[x] by {
        assert(final(p).tasks@[x] == old(p).tasks@[x]);
    }
    law_silent_task_is_overdue(final(wd), &final(p).tasks[me], last, now);
    if now - last > span {
        assert(overdue(final(wd), &final(p).tasks[me], now));
    }
}

/// A reset is explained: that the system was not fed, or which task did not
/// check in.
pub proof fn law_reset_is_explained(
    wd: &Watchdog,
    p: &Preempt,
    now: u64,
    out: &mut Vec<u8>,
    reset: bool,
    x: int,
)
    requires
        call_ensures(on_tick, (wd, p, now, out), reset),
        reset,
        0 <= x < MAX_PTASKS,
        forall|y: int|
            0 <= y < MAX_PTASKS && y != x ==> !(#[trigger] p.tasks[y]).used
                || p.tasks[y].last_checkin == 0,
    ensures
        wd.checkin_timeout_us == 0 ==> final(out)@ == old(out)@ + lit("RIVET WATCHDOG TIMEOUT\n"),
        wd.hardware || wd.period_us == 0 ==> final(out)@ == old(out)@ + (lit(
            "RIVET TASK CHECKIN TIMEOUT task=",
        ) + dec(x as nat) + lit("\n")),
{
    if wd.hardware || wd.period_us == 0 {
        let y = choose|y: int|
            0 <= y < MAX_PTASKS && overdue(wd, #[trigger] &p.tasks[y], now);
        assert(y == x);
        assert forall|z: int| 0 <= z < x implies !overdue(wd, #[trigger] &p.tasks[z], now) by {
            assert(!p.tasks[z].used || p.tasks[z].last_checkin == 0);
        }
        assert(first_overdue(wd, p, now, x));
    }
}

} // verus!
