//! Periods and processor budgets of the preemptive tasks.
use crate::exec_time::{self, elapsed, ExecTime};
use crate::preempt::mutex::inherits;
use crate::preempt::sched::{self, Preempt};
use crate::preempt::{self, slept};
use crate::preempt::tcb::MAX_PTASKS;
use crate::timer::TimerQueue;
use vstd::prelude::*;

verus! {

/// Periods, budgets and where each task stands in its period.
pub struct Deadlines {
    /// Period in microseconds, 0 for none.
    pub period: [u32; MAX_PTASKS],
    /// Processor time per period in microseconds, 0 for no limit.
    pub budget: [u32; MAX_PTASKS],
    /// End of the current period in microseconds, 0 before the first.
    pub next_us: [u64; MAX_PTASKS],
    /// The task's account of cycles at the start of the current period.
    pub start_cycles: [u64; MAX_PTASKS],
}

impl Deadlines {
    /// No period, no budget.
    pub fn new() -> (r: Self)
        ensures
            forall|i: int|
                0 <= i < MAX_PTASKS ==> #[trigger] r.period[i] == 0 && r.budget[i] == 0
                    && r.next_us[i] == 0 && r.start_cycles[i] == 0,
    {
        Deadlines {
            period: [0; MAX_PTASKS],
            budget: [0; MAX_PTASKS],
            next_us: [0; MAX_PTASKS],
            start_cycles: [0; MAX_PTASKS],
        }
    }

    /// The period of task `id`; 0 if there is no such slot.
    pub open spec fn period_of(&self, id: int) -> u32 {
        if 0 <= id < MAX_PTASKS {
            self.period[id]
        } else {
            0
        }
    }

    /// The budget of task `id`; 0 if there is no such slot.
    pub open spec fn budget_of(&self, id: int) -> u32 {
        if 0 <= id < MAX_PTASKS {
            self.budget[id]
        } else {
            0
        }
    }
}

/// Set the period of task `id`; 0 means none. An id without a slot is
/// ignored.
pub fn set_period_us(d: &mut Deadlines, id: usize, period_us: u32)
    ensures
        *final(d) == (Deadlines { period: final(d).period, ..*old(d) }),
        final(d).period@ == (if id < MAX_PTASKS {
            old(d).period@.update(id as int, period_us)
        } else {
            old(d).period@
        }),
{
    if id < MAX_PTASKS {
        d.period[id] = period_us;
    }
}

/// Set the budget of task `id`; 0 means no limit. An id without a slot is
/// ignored.
pub fn set_budget_us(d: &mut Deadlines, id: usize, budget_us: u32)
    ensures
        *final(d) == (Deadlines { budget: final(d).budget, ..*old(d) }),
        final(d).budget@ == (if id < MAX_PTASKS {
            old(d).budget@.update(id as int, budget_us)
        } else {
            old(d).budget@
        }),
{
    if id < MAX_PTASKS {
        d.budget[id] = budget_us;
    }
}

/// Task `id` has no period, no budget and no boundary any more.
pub open spec fn forgotten(pre: &Deadlines, post: &Deadlines, id: int) -> bool {
    &&& post.period@ == pre.period@.update(id, 0)
    &&& post.budget@ == pre.budget@.update(id, 0)
    &&& post.next_us@ == pre.next_us@.update(id, 0)
    &&& post.start_cycles@ == pre.start_cycles@.update(id, 0)
}

/// Forget the period and the budget of task `id`, and where it stands in its
/// period.
pub fn forget(d: &mut Deadlines, id: usize)
    requires
        id < MAX_PTASKS,
    ensures
        forgotten(old(d), final(d), id as int),
{
    d.period[id] = 0;
    d.budget[id] = 0;
    d.next_us[id] = 0;
    d.start_cycles[id] = 0;
}

/// The period of task `id`.
pub fn period_us(d: &Deadlines, id: usize) -> (r: u32)
    ensures
        r == d.period_of(id as int),
{
    if id < MAX_PTASKS {
        d.period[id]
    } else {
        0
    }
}

/// The budget of task `id`.
pub fn budget_us(d: &Deadlines, id: usize) -> (r: u32)
    ensures
        r == d.budget_of(id as int),
{
    if id < MAX_PTASKS {
        d.budget[id]
    } else {
        0
    }
}

/// The end of the period after the one that ends at `prev`; without a period
/// before it, the first begins now.
pub open spec fn next_boundary(prev: u64, period: u32, now: u64) -> u64 {
    let from = if prev == 0 {
        now
    } else {
        prev
    };
    if from + period <= u64::MAX {
        (from + period) as u64
    } else {
        (from + period - 0x1_0000_0000_0000_0000) as u64
    }
}

/// Block the running task until the end of its period: the end of the last
/// one plus the period, whatever time it is now. Nothing happens without a
/// running task or without a period.
///
/// Returns the time of the wake-up. When the task runs again its deadline is
/// to be cancelled.
pub fn wait_period(
    d: &mut Deadlines,
    e: &ExecTime,
    p: &mut Preempt,
    t: &mut TimerQueue,
    now: u64,
) -> (r: Option<u64>)
    requires
        old(p).wf(),
        old(t).wf(),
    ensures
        final(p).wf(),
        inherits(old(p)) ==> inherits(final(p)),
        final(t).wf(),
        match old(p).running() {
            Some(me) if old(d).period_of(me as int) != 0 => {
                let next = next_boundary(
                    old(d).next_us[me as int],
                    old(d).period_of(me as int),
                    now,
                );
                &&& r == Some(next)
                &&& final(d).next_us@ == old(d).next_us@.update(me as int, next)
                &&& final(d).start_cycles@ == old(d).start_cycles@.update(
                    me as int,
                    e.busy_of(me as int),
                )
                &&& final(d).period == old(d).period
                &&& final(d).budget == old(d).budget
                &&& slept(old(p), final(p), old(t), final(t), next)
            },
            _ => {
                &&& r is None
                &&& *final(d) == *old(d)
                &&& *final(p) == *old(p)
                &&& *final(t) == *old(t)
            },
        },
{
    let me: usize = match sched::current(p) {
        Some(me) => me,
        None => {
            return None;
        },
    };
    let period: u32 = period_us(d, me);
    if period == 0 {
        return None;
    }
    let prev: u64 = d.next_us[me];
    let next: u64 = if prev == 0 {
        now.wrapping_add(period as u64)
    } else {
        prev.wrapping_add(period as u64)
    };
    d.next_us[me] = next;
    d.start_cycles[me] = exec_time::busy_cycles(e, me);
    preempt::sleep_until(p, t, next);
    Some(next)
}

/// Cycles that task `id`, which is on the processor, has used in its current
/// period up to cycle `now`.
pub open spec fn cycles_used(d: &Deadlines, e: &ExecTime, id: int, now: u64) -> u64 {
    elapsed(
        d.start_cycles[id],
        if e.started {
            exec_time::credit(e.busy[id], elapsed(e.last_dispatch, now))
        } else {
            e.busy[id]
        },
    )
}

/// Microseconds that task `id`, which is on the processor, has used in its
/// current period up to cycle `now`, at `per_us` cycles per microsecond.
pub fn used_us(d: &Deadlines, e: &ExecTime, id: usize, now: u64, per_us: u64) -> (r: u64)
    requires
        id < MAX_PTASKS,
        per_us > 0,
    ensures
        r == cycles_used(d, e, id as int, now) / per_us,
{
    used_cycles(d, e, id, now) / per_us
}

/// Cycles that task `id`, which is on the processor, has used in its current
/// period up to cycle `now`.
pub fn used_cycles(d: &Deadlines, e: &ExecTime, id: usize, now: u64) -> (r: u64)
    requires
        id < MAX_PTASKS,
    ensures
        r == cycles_used(d, e, id as int, now),
{
    exec_time::busy_cycles_live(e, id, now).wrapping_sub(d.start_cycles[id])
}

/// Task `id` has a budget and `used_us` is more than it.
pub open spec fn over_budget(d: &Deadlines, id: int, used_us: u64) -> bool {
    d.budget_of(id) != 0 && used_us > d.budget_of(id)
}

/// Whether task `id`, which has used `used_us` microseconds of processor time
/// in its period, has exceeded its budget. Without a budget it never has.
pub fn check_budget(d: &Deadlines, id: usize, used_us: u64) -> (r: bool)
    ensures
        r == over_budget(d, id as int, used_us),
{
    let budget: u32 = budget_us(d, id);
    if budget == 0 {
        return false;
    }
    used_us > budget as u64
}

/// The end of the `n`-th period from `anchor` on, if the task asks for it at
/// the times `now`.
pub open spec fn boundary(anchor: u64, period: u32, now: spec_fn(nat) -> u64, n: nat) -> u64
    decreases n,
{
    if n == 0 {
        anchor
    } else {
        next_boundary(boundary(anchor, period, now, (n - 1) as nat), period, now(n))
    }
}

/// Periods do not drift: however late the task asks, the `n`-th boundary is
/// `n` periods after the first, as long as the clock does not wrap.
pub proof fn law_no_drift(anchor: u64, period: u32, now: spec_fn(nat) -> u64, n: nat)
    requires
        anchor != 0,
        anchor + n * period <= u64::MAX,
    ensures
        boundary(anchor, period, now, n) == anchor + n * period,
    decreases n,
{
    if n > 0 {
        assert((n - 1) * period + period == n * period) by (nonlinear_arith)
            requires
                n > 0,
        ;
        assert((n - 1) * period >= 0) by (nonlinear_arith)
            requires
                n > 0,
        ;
        law_no_drift(anchor, period, now, (n - 1) as nat);
    } else {
        assert(n * period == 0) by (nonlinear_arith)
            requires
                n == 0,
        ;
    }
}

/// A budget is what it was set to: a task that has used at most that many
/// microseconds has not exceeded it, and one that has used more has. The
/// budgets of the other tasks and all periods stay as they were.
pub proof fn law_budget_is_what_was_set(
    d: &mut Deadlines,
    id: usize,
    budget: u32,
    read: u32,
    used: u64,
    over: bool,
)
    requires
        call_ensures(set_budget_us, (d, id, budget), ()),
        call_ensures(budget_us, (&*final(d), id), read),
        call_ensures(check_budget, (&*final(d), id, used), over),
        id < MAX_PTASKS,
    ensures
        read == budget,
        budget > 0 && used <= budget ==> !over,
        budget > 0 && used > budget ==> over,
        budget == 0 ==> !over,
        forall|x: int| 0 <= x < MAX_PTASKS && x != id ==> #[trigger] final(d).budget[x]
            == old(d).budget[x],
        final(d).period == old(d).period,
        final(d).next_us == old(d).next_us,
        final(d).start_cycles == old(d).start_cycles,
{
    assert(final(d).budget[id as int] == final(d).budget@[id as int]);
    assert forall|x: int| 0 <= x < MAX_PTASKS && x != id implies #[trigger] final(d).budget[x]
        == old(d).budget[x] by {
        assert(final(d).budget@[x] == old(d).budget@[x]);
    }
}

/// A period is what it was set to.
pub proof fn law_period_is_what_was_set(d: &mut Deadlines, id: usize, period: u32, read: u32)
    requires
        call_ensures(set_period_us, (d, id, period), ()),
        call_ensures(period_us, (&*final(d), id), read),
        id < MAX_PTASKS,
    ensures
        read == period,
        final(d).budget == old(d).budget,
        final(d).next_us == old(d).next_us,
        forall|x: int|
            0 <= x < MAX_PTASKS && x != id ==> #[trigger] final(d).period[x] == old(d).period[x],
{
    assert(final(d).period[id as int] == final(d).period@[id as int]);
    assert forall|x: int| 0 <= x < MAX_PTASKS && x != id implies #[trigger] final(d).period[x]
        == old(d).period[x] by {
        assert(final(d).period@[x] == old(d).period@[x]);
    }
}

/// A task that waits for its period sleeps until one period after the end of
/// the last, or one period from now the first time, and its account of the
/// period begins anew. Without a period it does not wait.
pub proof fn law_wait_ends_with_the_period(
    d: &mut Deadlines,
    e: &ExecTime,
    p: &mut Preempt,
    t: &mut TimerQueue,
    now: u64,
    r: Option<u64>,
)
    requires
        call_ensures(wait_period, (d, e, p, t, now), r),
        old(p).wf(),
        old(p).running() is Some,
    ensures
        ({
            let me = old(p).running()->0 as int;
            let period = old(d).period[me];
            let from = if old(d).next_us[me] == 0 {
                now
            } else {
                old(d).next_us[me]
            };
            &&& r is Some <==> period != 0
            &&& period != 0 && from + period <= u64::MAX ==> {
                &&& r->0 == from + period
                &&& final(d).next_us[me] == from + period
                &&& final(t).ptask[me] == from + period
                &&& final(d).start_cycles[me] == e.busy[me]
            }
            &&& period != 0 && old(p).live(me) is Some ==> final(p).tasks[me].state
                == crate::preempt::tcb::SlotState::Blocked
            &&& period == 0 ==> *final(p) == *old(p) && *final(t) == *old(t)
        }),
{
    let me = old(p).running()->0 as int;
    assert(final(d).next_us@[me] == final(d).next_us[me]);
    assert(final(d).start_cycles@[me] == final(d).start_cycles[me]);
    assert(final(t).ptask@[me] == final(t).ptask[me]);
    assert(final(p).tasks@[me] == final(p).tasks[me]);
}

/// What a task has used of its period is what it has run since the period's
/// account began, in whole microseconds.
pub proof fn law_used_since_the_period_began(
    d: Deadlines,
    e: ExecTime,
    id: usize,
    now: u64,
    per_us: u64,
    live: u64,
    cycles: u64,
    us: u64,
)
    requires
        call_ensures(exec_time::busy_cycles_live, (&e, id, now), live),
        call_ensures(used_cycles, (&d, &e, id, now), cycles),
        call_ensures(used_us, (&d, &e, id, now, per_us), us),
        id < MAX_PTASKS,
        per_us > 0,
        d.start_cycles[id as int] <= live,
    ensures
        cycles == live - d.start_cycles[id as int],
        us * per_us <= cycles < (us + 1) * per_us,
{
    vstd::arithmetic::div_mod::lemma_fundamental_div_mod(cycles as int, per_us as int);
    vstd::arithmetic::div_mod::lemma_mod_bound(cycles as int, per_us as int);
    assert(us * per_us <= cycles < (us + 1) * per_us) by (nonlinear_arith)
        requires
            cycles == per_us * us + cycles as int % per_us as int,
            0 <= cycles as int % per_us as int,
            cycles as int % (per_us as int) < per_us,
    ;
}

/// A task whose settings were forgotten has neither a period nor a budget.
pub proof fn law_forgotten_task_has_no_settings(
    d: &mut Deadlines,
    id: usize,
    period: u32,
    budget: u32,
    used: u64,
    over: bool,
)
    requires
        call_ensures(forget, (d, id), ()),
        call_ensures(period_us, (&*final(d), id), period),
        call_ensures(budget_us, (&*final(d), id), budget),
        call_ensures(check_budget, (&*final(d), id, used), over),
        id < MAX_PTASKS,
    ensures
        period == 0,
        budget == 0,
        !over,
        final(d).next_us[id as int] == 0,
        forall|x: int|
            0 <= x < MAX_PTASKS && x != id ==> #[trigger] final(d).period[x] == old(d).period[x]
                && final(d).budget[x] == old(d).budget[x] && final(d).next_us[x]
                == old(d).next_us[x],
{
    assert(final(d).period@[id as int] == final(d).period[id as int]);
    assert(final(d).budget@[id as int] == final(d).budget[id as int]);
    assert(final(d).next_us@[id as int] == final(d).next_us[id as int]);
    assert forall|x: int| 0 <= x < MAX_PTASKS && x != id implies #[trigger] final(d).period[x]
        == old(d).period[x] && final(d).budget[x] == old(d).budget[x] && final(d).next_us[x]
        == old(d).next_us[x] by {
        assert(final(d).period@[x] == old(d).period@[x]);
        assert(final(d).budget@[x] == old(d).budget@[x]);
        assert(final(d).next_us@[x] == old(d).next_us@[x]);
    }
}

/// A period that ends beyond the clock ends where the clock has wrapped to.
pub proof fn law_period_wraps(
    d: &mut Deadlines,
    e: &ExecTime,
    p: &mut Preempt,
    t: &mut TimerQueue,
    now: u64,
    r: Option<u64>,
    me: usize,
)
    requires
        call_ensures(wait_period, (d, e, p, t, now), r),
        old(p).wf(),
        old(p).running() == Some(me),
        old(d).period[me as int] != 0,
        old(d).next_us[me as int] + old(d).period[me as int] > u64::MAX,
    ensures
        r is Some && r->0 == old(d).next_us[me as int] + old(d).period[me as int]
            - 0x1_0000_0000_0000_0000,
{
}

/// What was used of a period wraps with the counter.
pub proof fn law_used_cycles_wrap(
    d: Deadlines,
    e: ExecTime,
    id: usize,
    now: u64,
    live: u64,
    cycles: u64,
)
    requires
        id < MAX_PTASKS,
        call_ensures(exec_time::busy_cycles_live, (&e, id, now), live),
        call_ensures(used_cycles, (&d, &e, id, now), cycles),
    ensures
        (live - d.start_cycles[id as int] - cycles) % 0x1_0000_0000_0000_0000 == 0,
{
}

} // verus!
