//! Processor time of the preemptive tasks, in cycles.
//!
//! At every switch the outgoing task is credited with the cycles since the
//! dispatch before it.
use crate::preempt::tcb::MAX_PTASKS;
use vstd::prelude::*;

verus! {

/// The accounts.
pub struct ExecTime {
    /// Cycles that each task has run.
    pub busy: [u64; MAX_PTASKS],
    /// Cycle of the last dispatch.
    pub last_dispatch: u64,
    /// Cycle of the first dispatch.
    pub boot_cycle: u64,
    /// The first dispatch has happened.
    pub started: bool,
}

/// Cycles from `from` to `to` on a counter that wraps.
pub open spec fn elapsed(from: u64, to: u64) -> u64 {
    if to >= from {
        (to - from) as u64
    } else {
        (to - from + 0x1_0000_0000_0000_0000) as u64
    }
}

/// `a + b` on a counter that wraps.
pub open spec fn credit(a: u64, b: u64) -> u64 {
    if a + b <= u64::MAX {
        (a + b) as u64
    } else {
        (a + b - 0x1_0000_0000_0000_0000) as u64
    }
}

impl ExecTime {
    /// Nothing accounted.
    pub fn new() -> (r: Self)
        ensures
            !r.started,
            forall|i: int| 0 <= i < MAX_PTASKS ==> #[trigger] r.busy[i] == 0,
            r.last_dispatch == 0,
            r.boot_cycle == 0,
    {
        ExecTime { busy: [0; MAX_PTASKS], last_dispatch: 0, boot_cycle: 0, started: false }
    }

    /// Cycles that task `id` has run; 0 if there is no such slot.
    pub open spec fn busy_of(&self, id: int) -> u64 {
        if 0 <= id < MAX_PTASKS {
            self.busy[id]
        } else {
            0
        }
    }

    /// Cycles since the first dispatch, 0 before it.
    pub open spec fn since_boot(&self, now: u64) -> u64 {
        if self.started {
            elapsed(self.boot_cycle, now)
        } else {
            0
        }
    }
}

/// Begin accounting: the first dispatch happens at cycle `now`. Empty accounts
/// are balanced then.
pub fn on_first_dispatch(e: &mut ExecTime, now: u64)
    ensures
        final(e).started,
        final(e).boot_cycle == now,
        final(e).last_dispatch == now,
        final(e).busy == old(e).busy,
        (forall|i: int| 0 <= i < MAX_PTASKS ==> #[trigger] old(e).busy[i] == 0) ==> balanced(
            final(e),
        ),
{
    e.boot_cycle = now;
    e.last_dispatch = now;
    e.started = true;
    proof {
        if forall|i: int| 0 <= i < MAX_PTASKS ==> #[trigger] e.busy[i] == 0 {
            lemma_total_of_zeros(*e, MAX_PTASKS as nat);
        }
    }
}

/// What a switch away from `outgoing` at cycle `now` does to the accounts.
pub open spec fn switched(pre: &ExecTime, post: &ExecTime, outgoing: int, now: u64) -> bool {
    if pre.started {
        &&& post.started
        &&& post.boot_cycle == pre.boot_cycle
        &&& post.last_dispatch == now
        &&& post.busy@ == (if 0 <= outgoing < MAX_PTASKS {
            pre.busy@.update(
                outgoing,
                credit(pre.busy[outgoing], elapsed(pre.last_dispatch, now)),
            )
        } else {
            pre.busy@
        })
    } else {
        *post == *pre
    }
}

/// Account for a switch away from task `outgoing` at cycle `now`. Nothing
/// happens before accounting has begun.
pub fn on_switch(e: &mut ExecTime, outgoing: usize, now: u64)
    ensures
        switched(old(e), final(e), outgoing as int, now),
{
    if !e.started {
        return ;
    }
    let passed: u64 = now.wrapping_sub(e.last_dispatch);
    e.last_dispatch = now;
    if outgoing < MAX_PTASKS {
        e.busy[outgoing] = e.busy[outgoing].wrapping_add(passed);
    }
}

/// Cycles that task `id` has run, up to its last switch.
pub fn busy_cycles(e: &ExecTime, id: usize) -> (r: u64)
    ensures
        r == e.busy_of(id as int),
{
    if id >= MAX_PTASKS {
        return 0;
    }
    e.busy[id]
}

/// Cycles that task `id`, which is on the processor, has run up to cycle
/// `now`: a task that never yields is measured too.
pub fn busy_cycles_live(e: &ExecTime, id: usize, now: u64) -> (r: u64)
    ensures
        r == (if e.started {
            credit(e.busy_of(id as int), elapsed(e.last_dispatch, now))
        } else {
            e.busy_of(id as int)
        }),
{
    let done: u64 = busy_cycles(e, id);
    if !e.started {
        return done;
    }
    done.wrapping_add(now.wrapping_sub(e.last_dispatch))
}

/// Cycles since the first dispatch, 0 before it.
pub fn cycles_since_boot(e: &ExecTime, now: u64) -> (r: u64)
    ensures
        r == e.since_boot(now),
{
    if !e.started {
        return 0;
    }
    now.wrapping_sub(e.boot_cycle)
}

/// The share of the time since the first dispatch that task `id` has run, in
/// per cent, at most 100.
pub open spec fn share(e: &ExecTime, id: int, now: u64) -> int {
    if e.since_boot(now) == 0 {
        0
    } else {
        let hundredfold = if e.busy_of(id) * 100 > u64::MAX {
            u64::MAX as int
        } else {
            e.busy_of(id) * 100
        };
        let percent = hundredfold / e.since_boot(now) as int;
        if percent > 100 {
            100
        } else {
            percent
        }
    }
}

/// The share of the time that task `id` has run, in per cent.
pub fn busy_percent(e: &ExecTime, id: usize, now: u64) -> (r: u8)
    ensures
        r == share(e, id as int, now),
        r <= 100,
{
    let total: u64 = cycles_since_boot(e, now);
    if total == 0 {
        return 0;
    }
    let busy: u64 = busy_cycles(e, id);
    let hundredfold: u64 = match busy.checked_mul(100) {
        Some(v) => v,
        None => u64::MAX,
    };
    let percent: u64 = hundredfold / total;
    proof {
        vstd::arithmetic::div_mod::lemma_div_pos_is_pos(hundredfold as int, total as int);
    }
    if percent > 100 {
        100
    } else {
        percent as u8
    }
}

/// No cycle is lost and none is counted twice: a switch adds to the sum of
/// the outgoing task's account and moves the time of the last dispatch by the
/// same amount, so the account grows by exactly the cycles that passed.
pub proof fn law_switch_credits_elapsed(pre: ExecTime, post: ExecTime, id: int, now: u64)
    requires
        pre.started,
        0 <= id < MAX_PTASKS,
        pre.last_dispatch <= now,
        pre.busy[id] + (now - pre.last_dispatch) <= u64::MAX,
        switched(&pre, &post, id, now),
    ensures
        post.busy[id] - pre.busy[id] == post.last_dispatch - pre.last_dispatch,
        forall|x: int| 0 <= x < MAX_PTASKS && x != id ==> #[trigger] post.busy[x] == pre.busy[x],
{
    assert(post.busy[id] == post.busy@[id]);
    assert forall|x: int| 0 <= x < MAX_PTASKS && x != id implies #[trigger] post.busy[x]
        == pre.busy[x] by {
        assert(post.busy[x] == post.busy@[x]);
    }
}

/// The sum of the first `n` accounts.
pub open spec fn total(busy: Seq<u64>, n: nat) -> int
    decreases n,
{
    if n == 0 {
        0
    } else {
        total(busy, (n - 1) as nat) + busy[n - 1]
    }
}

/// The accounts add up to the time from the first dispatch to the last one.
pub open spec fn balanced(e: &ExecTime) -> bool {
    &&& e.started
    &&& e.boot_cycle <= e.last_dispatch
    &&& total(e.busy@, MAX_PTASKS as nat) == e.last_dispatch - e.boot_cycle
}

proof fn lemma_total_updated(busy: Seq<u64>, id: int, v: u64, n: nat)
    requires
        0 <= id < busy.len(),
        n <= busy.len(),
    ensures
        total(busy.update(id, v), n) == total(busy, n) + (if id < n {
            v - busy[id]
        } else {
            0
        }),
    decreases n,
{
    if n > 0 {
        lemma_total_updated(busy, id, v, (n - 1) as nat);
    }
}

proof fn lemma_part_of_total(busy: Seq<u64>, id: int, n: nat)
    requires
        0 <= id < n <= busy.len(),
    ensures
        busy[id] <= total(busy, n),
    decreases n,
{
    lemma_total_nonnegative(busy, (n - 1) as nat);
    if id < n - 1 {
        lemma_part_of_total(busy, id, (n - 1) as nat);
    }
}

proof fn lemma_total_nonnegative(busy: Seq<u64>, n: nat)
    ensures
        total(busy, n) >= 0,
    decreases n,
{
    if n > 0 {
        lemma_total_nonnegative(busy, (n - 1) as nat);
    }
}

/// The books stay balanced: whatever tasks the processor goes to, the accounts
/// of all of them together hold every cycle since the first dispatch, up to the
/// last one.
pub proof fn law_accounts_add_up(pre: ExecTime, post: ExecTime, id: int, now: u64)
    requires
        balanced(&pre),
        0 <= id < MAX_PTASKS,
        pre.last_dispatch <= now,
        switched(&pre, &post, id, now),
    ensures
        balanced(&post),
{
    lemma_part_of_total(pre.busy@, id, MAX_PTASKS as nat);
    lemma_total_updated(pre.busy@, id, post.busy@[id], MAX_PTASKS as nat);
}

proof fn lemma_total_of_zeros(e: ExecTime, n: nat)
    requires
        n <= MAX_PTASKS,
        forall|i: int| 0 <= i < MAX_PTASKS ==> #[trigger] e.busy[i] == 0,
    ensures
        total(e.busy@, n) == 0,
    decreases n,
{
    if n > 0 {
        lemma_total_of_zeros(e, (n - 1) as nat);
        assert(e.busy[n - 1] == 0);
    }
}

/// A task that is on the processor has run what it had run at the last switch,
/// and every cycle since.
pub proof fn law_running_time_counts(e: ExecTime, id: usize, now: u64, settled: u64, live: u64)
    requires
        call_ensures(busy_cycles, (&e, id), settled),
        call_ensures(busy_cycles_live, (&e, id, now), live),
        id < MAX_PTASKS,
    ensures
        settled == e.busy[id as int],
        !e.started ==> live == settled,
        e.started && e.last_dispatch <= now && settled + (now - e.last_dispatch) <= u64::MAX
            ==> live == settled + (now - e.last_dispatch),
{
}

/// The time since the first dispatch is counted from it, and is zero before.
pub proof fn law_time_since_boot(e: &mut ExecTime, boot: u64, now: u64, before: u64, after: u64)
    requires
        call_ensures(cycles_since_boot, (&*old(e), now), before),
        call_ensures(on_first_dispatch, (e, boot), ()),
        call_ensures(cycles_since_boot, (&*final(e), now), after),
    ensures
        !old(e).started ==> before == 0,
        now >= boot ==> after == now - boot,
        now < boot ==> after == now - boot + 0x1_0000_0000_0000_0000,
{
}

/// The share of a task is its part of the time since the first dispatch, in
/// whole per cent.
pub proof fn law_share_is_a_percentage(e: ExecTime, id: usize, now: u64, r: u8)
    requires
        call_ensures(busy_percent, (&e, id, now), r),
        id < MAX_PTASKS,
        e.started,
        e.boot_cycle < now,
        e.busy[id as int] <= now - e.boot_cycle,
        e.busy[id as int] * 100 <= u64::MAX,
    ensures
        r * (now - e.boot_cycle) <= e.busy[id as int] * 100 < (r + 1) * (now - e.boot_cycle),
        r == 100 <==> e.busy[id as int] == now - e.boot_cycle,
{
    let total = now - e.boot_cycle;
    let work = e.busy[id as int] * 100;
    let q = work / total;
    vstd::arithmetic::div_mod::lemma_fundamental_div_mod(work, total);
    vstd::arithmetic::div_mod::lemma_mod_bound(work, total);
    assert(total * q <= work < total * (q + 1)) by (nonlinear_arith)
        requires
            work == total * q + work % total,
            0 <= work % total < total,
    ;
    assert(q <= 100) by (nonlinear_arith)
        requires
            total * q <= work,
            work <= 100 * total,
            total > 0,
    ;
    assert(r == q);
    assert(q * total == total * q && (q + 1) * total == total * (q + 1)) by (nonlinear_arith);
    assert(q == 100 ==> work >= 100 * total) by (nonlinear_arith)
        requires
            total * q <= work,
    ;
    assert(work == 100 * total ==> q >= 100) by (nonlinear_arith)
        requires
            work < total * (q + 1),
            total > 0,
    ;
}

/// A switch closes the account of the task that leaves the processor at the
/// time of the switch, and opens the next one there.
pub proof fn law_switch_settles(e: &mut ExecTime, id: usize, now: u64, live: u64, settled: u64)
    requires
        call_ensures(busy_cycles_live, (&*old(e), id, now), live),
        call_ensures(on_switch, (e, id, now), ()),
        call_ensures(busy_cycles, (&*final(e), id), settled),
        old(e).started,
        id < MAX_PTASKS,
    ensures
        settled == live,
        final(e).last_dispatch == now,
        final(e).boot_cycle == old(e).boot_cycle,
        final(e).started,
{
    assert(final(e).busy[id as int] == final(e).busy@[id as int]);
}

/// A share never exceeds a hundred per cent, is zero before any time has
/// passed, and stays right for accounts so long that a hundredfold of them
/// cannot be counted.
pub proof fn law_share_is_bounded(e: ExecTime, id: usize, now: u64, total: u64, busy: u64, r: u8)
    requires
        call_ensures(cycles_since_boot, (&e, now), total),
        call_ensures(busy_cycles, (&e, id), busy),
        call_ensures(busy_percent, (&e, id, now), r),
    ensures
        r <= 100,
        total == 0 ==> r == 0,
        total > 0 && busy >= total && busy * 100 <= u64::MAX ==> r == 100,
        total > 0 && busy * 100 > u64::MAX && u64::MAX >= 100 * total ==> r == 100,
        id >= MAX_PTASKS ==> busy == 0 && r == 0,
{
    if total > 0 {
        let t = total as int;
        let work = if busy * 100 > u64::MAX {
            u64::MAX as int
        } else {
            busy * 100
        };
        vstd::arithmetic::div_mod::lemma_fundamental_div_mod(work, t);
        vstd::arithmetic::div_mod::lemma_mod_bound(work, t);
        let q = work / t;
        if work >= 100 * t {
            assert(q >= 100) by (nonlinear_arith)
                requires
                    work == t * q + work % t,
                    work % t < t,
                    work >= 100 * t,
                    t > 0,
            ;
        }
        if work == 0 {
            vstd::arithmetic::div_mod::lemma_div_of0(t);
        }
    }
}

/// The accounts wrap with the counter.
pub proof fn law_accounts_wrap(e: ExecTime, id: usize, now: u64, settled: u64, live: u64)
    requires
        call_ensures(busy_cycles, (&e, id), settled),
        call_ensures(busy_cycles_live, (&e, id, now), live),
        e.started,
    ensures
        (settled + now - e.last_dispatch - live) % 0x1_0000_0000_0000_0000 == 0,
{
}

} // verus!
