//! Deadlines of sleeping tasks, cooperative and preemptive.
//!
//! A cooperative task that sleeps takes a slot; a preemptive task has a
//! deadline of its own. Every tick polls both. One word remembers a bound
//! below which no deadline can lie, so that a tick before it touches nothing.
use crate::config;
use crate::port::arch;
use crate::preempt::mutex::{self, inherits};
use crate::preempt::sched::{self, Preempt};
use crate::preempt::tcb::{SlotState, Tcb, MAX_PTASKS};
use crate::task::TaskId;
use crate::waker::{self, WakerState};
use vstd::prelude::*;

verus! {

/// Sleeps of the cooperative tier that can be outstanding.
pub const MAX_TIMERS: usize = config::MAX_TIMERS;

/// No deadline is armed.
pub const NO_DEADLINE: u64 = u64::MAX;

/// A sleep of a cooperative task.
#[derive(Clone, Copy)]
pub struct TimerSlot {
    /// Time of the wake-up in microseconds, 0 when the slot is free.
    pub deadline: u64,
    /// The task to wake.
    pub task: TaskId,
    /// How often the slot has been taken, modulo 2^64.
    pub generation: u64,
}

/// The armed deadlines.
pub struct TimerQueue {
    /// Sleeps of cooperative tasks.
    pub slots: [TimerSlot; MAX_TIMERS],
    /// Deadline of each preemptive task, 0 for none.
    pub ptask: [u64; MAX_PTASKS],
    /// No armed deadline lies before this time.
    pub next: u64,
}

/// A deadline that is armed and has come.
pub open spec fn expired(deadline: u64, now: u64) -> bool {
    deadline != 0 && deadline <= now
}

impl TimerQueue {
    /// Every armed deadline lies at or after the remembered bound, and every
    /// sleeping task has a priority level.
    pub open spec fn wf(&self) -> bool {
        &&& forall|i: int|
            0 <= i < MAX_TIMERS && (#[trigger] self.slots[i]).deadline != 0 ==> self.next
                <= self.slots[i].deadline && self.slots[i].task.prio() < config::PRIORITY_LEVELS
        &&& forall|i: int|
            0 <= i < MAX_PTASKS && #[trigger] self.ptask[i] != 0 ==> self.next <= self.ptask[i]
    }

    /// `v` is the earliest armed deadline, or [`NO_DEADLINE`] if there is
    /// none.
    pub open spec fn is_earliest(&self, v: u64) -> bool {
        &&& forall|i: int|
            0 <= i < MAX_TIMERS && (#[trigger] self.slots[i]).deadline != 0 ==> v
                <= self.slots[i].deadline
        &&& forall|i: int|
            0 <= i < MAX_PTASKS && #[trigger] self.ptask[i] != 0 ==> v <= self.ptask[i]
        &&& v == NO_DEADLINE || self.armed_at(v)
    }

    /// Some deadline is armed for time `v`.
    pub open spec fn armed_at(&self, v: u64) -> bool {
        ||| exists|i: int| 0 <= i < MAX_TIMERS && v != 0 && (#[trigger] self.slots[i]).deadline == v
        ||| exists|i: int| 0 <= i < MAX_PTASKS && v != 0 && #[trigger] self.ptask[i] == v
    }

    /// A sleep of the cooperative tier has come.
    pub open spec fn any_slot_expired(&self, now: u64) -> bool {
        exists|i: int| 0 <= i < MAX_TIMERS && expired((#[trigger] self.slots[i]).deadline, now)
    }

    /// A deadline of a preemptive task has come.
    pub open spec fn any_ptask_expired(&self, now: u64) -> bool {
        exists|i: int| 0 <= i < MAX_PTASKS && expired(#[trigger] self.ptask[i], now)
    }

    /// Nothing armed.
    pub fn new() -> (r: Self)
        ensures
            r.wf(),
            r.next == NO_DEADLINE,
            forall|i: int|
                0 <= i < MAX_TIMERS ==> (#[trigger] r.slots[i]).deadline == 0
                    && r.slots[i].generation == 0,
            forall|i: int| 0 <= i < MAX_PTASKS ==> #[trigger] r.ptask[i] == 0,
    {
        TimerQueue {
            slots: [TimerSlot { deadline: 0, task: TaskId(0), generation: 0 }; MAX_TIMERS],
            ptask: [0; MAX_PTASKS],
            next: NO_DEADLINE,
        }
    }
}

/// Every slot is taken.
#[derive(Clone, Copy, PartialEq, Eq, Structural, Debug)]
pub struct TimerQueueFull;

/// A registered sleep. The generation tells a slot that was freed and taken
/// again from the one that was registered.
#[derive(Clone, Copy, PartialEq, Eq, Structural, Debug)]
pub struct TimerHandle {
    /// The slot.
    pub slot: u8,
    /// The deadline that it was registered with.
    pub deadline: u64,
    /// The generation of the slot.
    pub generation: u64,
}

/// The generation after `g`.
pub open spec fn next_generation(g: u64) -> u64 {
    if g == u64::MAX {
        0
    } else {
        (g + 1) as u64
    }
}

/// A sleep was registered in a slot that was free, and `handle` stands for it.
pub open spec fn registered(
    pre: &TimerQueue,
    post: &TimerQueue,
    deadline: u64,
    task: TaskId,
    handle: TimerHandle,
) -> bool {
    let i = handle.slot as int;
    &&& handle.slot < MAX_TIMERS
    &&& handle.deadline == deadline
    &&& handle.generation == next_generation(pre.slots[i].generation)
    &&& pre.slots[i].deadline == 0
    &&& post.slots@ == pre.slots@.update(
        i,
        (TimerSlot { deadline, task, generation: handle.generation }),
    )
    &&& post.ptask == pre.ptask
    &&& post.next == (if deadline < pre.next {
        deadline
    } else {
        pre.next
    })
}

/// Lower the bound to `deadline_us`.
fn arm_next_deadline(t: &mut TimerQueue, deadline_us: u64)
    ensures
        final(t).next == (if deadline_us < old(t).next {
            deadline_us
        } else {
            old(t).next
        }),
        *final(t) == (TimerQueue { next: final(t).next, ..*old(t) }),
{
    if deadline_us < t.next {
        t.next = deadline_us;
    }
}

/// Wake `task` at `deadline_us`: the first free slot is taken. Fails, with
/// nothing changed, when none is free. A deadline of 0 arms nothing.
pub fn register_deadline(t: &mut TimerQueue, deadline_us: u64, task: TaskId) -> (r: Result<
    TimerHandle,
    TimerQueueFull,
>)
    requires
        old(t).wf(),
        task.prio() < config::PRIORITY_LEVELS,
    ensures
        final(t).wf(),
        r is Err <==> forall|i: int|
            0 <= i < MAX_TIMERS ==> (#[trigger] old(t).slots[i]).deadline != 0,
        r is Err ==> *final(t) == *old(t),
        r matches Ok(h) ==> {
            &&& registered(old(t), final(t), deadline_us, task, h)
            &&& forall|i: int|
                0 <= i < h.slot ==> (#[trigger] old(t).slots[i]).deadline != 0
        },
{
    let mut i: usize = 0;
    while i < MAX_TIMERS
        invariant
            i <= MAX_TIMERS,
            *t == *old(t),
            t.wf(),
            task.prio() < config::PRIORITY_LEVELS,
            forall|j: int| 0 <= j < i ==> (#[trigger] t.slots[j]).deadline != 0,
        decreases MAX_TIMERS - i,
    {
        if t.slots[i].deadline == 0 {
            let generation: u64 = t.slots[i].generation.wrapping_add(1);
            t.slots[i] = TimerSlot { deadline: deadline_us, task, generation };
            arm_next_deadline(t, deadline_us);
            return Ok(TimerHandle { slot: i as u8, deadline: deadline_us, generation });
        }
        i = i + 1;
    }
    Err(TimerQueueFull)
}

/// The slot still holds the sleep that the handle stands for.
pub open spec fn holds(slot: TimerSlot, handle: TimerHandle) -> bool {
    slot.deadline == handle.deadline && slot.generation == handle.generation
}

/// What cancelling a handle does: the slot is freed if it still holds the
/// handle's sleep.
pub open spec fn cancelled(pre: &TimerQueue, post: &TimerQueue, handle: TimerHandle) -> bool {
    &&& post.ptask == pre.ptask
    &&& post.next == pre.next
    &&& post.slots@ == (if handle.slot < MAX_TIMERS && holds(
        pre.slots[handle.slot as int],
        handle,
    ) {
        pre.slots@.update(
            handle.slot as int,
            (TimerSlot { deadline: 0, ..pre.slots[handle.slot as int] }),
        )
    } else {
        pre.slots@
    })
}

/// Cancel a registered sleep. A handle whose slot was freed, or was freed and
/// taken again, cancels nothing.
pub fn cancel_deadline(t: &mut TimerQueue, handle: TimerHandle)
    requires
        old(t).wf(),
    ensures
        final(t).wf(),
        cancelled(old(t), final(t), handle),
{
    let i: usize = handle.slot as usize;
    if i < MAX_TIMERS {
        if t.slots[i].deadline == handle.deadline && t.slots[i].generation == handle.generation {
            t.slots[i].deadline = 0;
        }
    }
}

/// The block deadline of task `x` became `v`; nothing else changed, and
/// nothing at all if there is no such task.
pub open spec fn ptask_set(pre: &TimerQueue, post: &TimerQueue, x: int, v: u64) -> bool {
    &&& post.slots == pre.slots
    &&& post.next == pre.next
    &&& post.ptask@ == (if 0 <= x < MAX_PTASKS {
        pre.ptask@.update(x, v)
    } else {
        pre.ptask@
    })
}

/// The block deadline of task `x` was armed for time `v`, and the bound
/// lowered to it; nothing changed if there is no such task.
pub open spec fn ptask_armed(pre: &TimerQueue, post: &TimerQueue, x: int, v: u64) -> bool {
    if 0 <= x < MAX_PTASKS {
        &&& post.ptask@ == pre.ptask@.update(x, v)
        &&& post.slots == pre.slots
        &&& post.next == (if v < pre.next {
            v
        } else {
            pre.next
        })
    } else {
        *post == *pre
    }
}

/// Block deadline of preemptive task `task`; an earlier one is replaced.
pub fn register_ptask_deadline(t: &mut TimerQueue, deadline_us: u64, task: usize) -> (r: Result<
    (),
    TimerQueueFull,
>)
    requires
        old(t).wf(),
    ensures
        final(t).wf(),
        r is Err <==> task >= MAX_PTASKS,
        ptask_armed(old(t), final(t), task as int, deadline_us),
{
    if task >= MAX_PTASKS {
        return Err(TimerQueueFull);
    }
    t.ptask[task] = deadline_us;
    arm_next_deadline(t, deadline_us);
    Ok(())
}

/// Forget the block deadline of preemptive task `task`.
pub fn cancel_ptask_deadline(t: &mut TimerQueue, task: usize)
    requires
        old(t).wf(),
    ensures
        final(t).wf(),
        ptask_set(old(t), final(t), task as int, 0),
{
    if task < MAX_PTASKS {
        t.ptask[task] = 0;
    }
}

/// What a poll at time `now` does to the deadlines: those that have come are
/// disarmed, the others stay.
pub open spec fn polled(pre: &TimerQueue, post: &TimerQueue, now: u64) -> bool {
    &&& forall|i: int|
        0 <= i < MAX_TIMERS ==> (#[trigger] post.slots[i]) == (if expired(
            pre.slots[i].deadline,
            now,
        ) {
            TimerSlot { deadline: 0, ..pre.slots[i] }
        } else {
            pre.slots[i]
        })
    &&& forall|i: int|
        0 <= i < MAX_PTASKS ==> #[trigger] post.ptask[i] == (if expired(pre.ptask[i], now) {
            0
        } else {
            pre.ptask[i]
        })
    &&& now < pre.next ==> post.next == pre.next
    &&& now >= pre.next ==> post.is_earliest(post.next)
}

/// The sleeps of the first `n` slots that have come are in the ready set, and
/// nothing else is new there.
pub open spec fn sleepers_woken(
    pre: &WakerState,
    post: &WakerState,
    t: &TimerQueue,
    now: u64,
    n: int,
) -> bool {
    &&& post.pend == (pre.pend || exists|i: int|
        0 <= i < n && expired((#[trigger] t.slots[i]).deadline, now))
    &&& forall|p: int, k: int|
        #[trigger] post.ready(p, k) == (pre.ready(p, k) || exists|i: int|
            {
                &&& 0 <= i < n
                &&& expired((#[trigger] t.slots[i]).deadline, now)
                &&& t.slots[i].task.prio() == p
                &&& t.slots[i].task.idx() % 32 == k
            })
}

/// The live tasks among the first `n` whose deadline has come are ready, and
/// no other slot changed.
pub open spec fn blocked_woken(
    pre: &Preempt,
    post: &Preempt,
    t: &TimerQueue,
    now: u64,
    n: int,
) -> bool {
    &&& post.frame(pre)
    &&& forall|x: int|
        0 <= x < MAX_PTASKS ==> (#[trigger] post.tasks[x]) == (if x < n && expired(
            t.ptask[x],
            now,
        ) && pre.tasks[x].used {
            Tcb { state: SlotState::Ready, ..pre.tasks[x] }
        } else {
            pre.tasks[x]
        })
    &&& forall|x: int|
        0 <= x < MAX_PTASKS ==> #[trigger] post.ready_at[x] == (if x < n && expired(
            t.ptask[x],
            now,
        ) && pre.tasks[x].used {
            pre.cycle
        } else {
            pre.ready_at[x]
        })
}

/// What is armed does not depend on the remembered bound.
proof fn lemma_armed_same(a: TimerQueue, b: TimerQueue, v: u64)
    requires
        a.slots == b.slots,
        a.ptask == b.ptask,
    ensures
        a.armed_at(v) ==> b.armed_at(v),
{
    if a.armed_at(v) {
        if exists|i: int| 0 <= i < MAX_TIMERS && v != 0 && (#[trigger] a.slots[i]).deadline == v {
            let i = choose|i: int|
                0 <= i < MAX_TIMERS && v != 0 && (#[trigger] a.slots[i]).deadline == v;
            assert(b.slots[i].deadline == v);
        } else {
            let i = choose|i: int| 0 <= i < MAX_PTASKS && v != 0 && #[trigger] a.ptask[i] == v;
            assert(b.ptask[i] == v);
        }
    }
}

/// Wake every task whose deadline has come by `now`.
pub fn poll_timers(t: &mut TimerQueue, w: &mut WakerState, p: &mut Preempt, now: u64)
    requires
        old(t).wf(),
        old(w).wf(),
        old(p).wf(),
    ensures
        final(t).wf(),
        final(w).wf(),
        final(p).wf(),
        inherits(old(p)) ==> inherits(final(p)),
        polled(old(t), final(t), now),
        sleepers_woken(old(w), final(w), old(t), now, MAX_TIMERS as int),
        blocked_woken(old(p), final(p), old(t), now, MAX_PTASKS as int),
        forall|h: int|
            0 <= h < config::MAX_HARTS ==> #[trigger] final(p).harts.resched[h] == (
            old(p).harts.resched[h] || (h != old(p).harts.hart && (old(t).any_slot_expired(now)
                || old(t).any_ptask_expired(now)))),
{
    let ghost pre = *t;
    let ghost pre_w = *w;
    let ghost pre_p = *p;
    if now < t.next {
        // Nothing can have come: no deadline lies before the bound.
        return ;
    }
    let mut woke_cooperative = false;
    let mut woke_preemptive = false;
    let mut earliest: u64 = NO_DEADLINE;
    let mut i: usize = 0;
    while i < MAX_TIMERS
        invariant
            i <= MAX_TIMERS,
            pre.wf(),
            w.wf(),
            t.ptask == pre.ptask,
            t.next == pre.next,
            sleepers_woken(&pre_w, w, &pre, now, i as int),
            forall|k: int|
                i <= k < MAX_TIMERS ==> #[trigger] t.slots[k] == pre.slots[k],
            forall|k: int|
                0 <= k < i ==> (#[trigger] t.slots[k]) == (if expired(
                    pre.slots[k].deadline,
                    now,
                ) {
                    TimerSlot { deadline: 0, ..pre.slots[k] }
                } else {
                    pre.slots[k]
                }),
            woke_cooperative == (exists|k: int|
                0 <= k < i && expired((#[trigger] pre.slots[k]).deadline, now)),
            forall|k: int|
                0 <= k < i && (#[trigger] t.slots[k]).deadline != 0 ==> earliest
                    <= t.slots[k].deadline,
            earliest != NO_DEADLINE ==> now < earliest,
            earliest == NO_DEADLINE || exists|k: int|
                0 <= k < i && earliest != 0 && (#[trigger] t.slots[k]).deadline == earliest,
        decreases MAX_TIMERS - i,
    {
        let d: u64 = t.slots[i].deadline;
        let ghost before_w = *w;
        let ghost before_t = *t;
        assert(t.slots[i as int] == pre.slots[i as int]);
        if d != 0 {
            if now >= d {
                t.slots[i].deadline = 0;
                let task = t.slots[i].task;
                waker::mark_ready(w, task);
                woke_cooperative = true;
                assert(expired(pre.slots[i as int].deadline, now));
            } else if d < earliest {
                earliest = d;
            }
        }
        proof {
            let n = i as int;
            if expired(d, now) {
                assert forall|q: int, k: int| #[trigger] w.ready(q, k) == (pre_w.ready(q, k)
                    || exists|j: int|
                    {
                        &&& 0 <= j < n + 1
                        &&& expired((#[trigger] pre.slots[j]).deadline, now)
                        &&& pre.slots[j].task.prio() == q
                        &&& pre.slots[j].task.idx() % 32 == k
                    }) by {
                    assert(w.ready(q, k) == (before_w.ready(q, k) || (q
                        == pre.slots[n].task.prio() && k == pre.slots[n].task.idx() % 32)));
                }
            }
            assert forall|k: int| 0 <= k < n implies #[trigger] t.slots[k] == before_t.slots[k] by {
            }
            if earliest != NO_DEADLINE && !(d != 0 && now < d && earliest == d) {
                let k = choose|k: int|
                    0 <= k < n && earliest != 0 && (#[trigger] before_t.slots[k]).deadline
                        == earliest;
                assert(t.slots[k].deadline == earliest);
            }
        }
        i = i + 1;
    }
    let ghost mid = *t;
    let mut id: usize = 0;
    while id < MAX_PTASKS
        invariant
            id <= MAX_PTASKS,
            p.wf(),
            t.slots == mid.slots,
            mid.ptask == pre.ptask,
            t.next == pre.next,
            blocked_woken(&pre_p, p, &pre, now, id as int),
            woke_preemptive == (exists|k: int|
                0 <= k < id && expired(#[trigger] pre.ptask[k], now)),
            forall|k: int| id <= k < MAX_PTASKS ==> #[trigger] t.ptask[k] == pre.ptask[k],
            forall|k: int|
                0 <= k < id ==> #[trigger] t.ptask[k] == (if expired(pre.ptask[k], now) {
                    0
                } else {
                    pre.ptask[k]
                }),
            forall|k: int|
                0 <= k < MAX_TIMERS && (#[trigger] t.slots[k]).deadline != 0 ==> earliest
                    <= t.slots[k].deadline,
            forall|k: int|
                0 <= k < id && #[trigger] t.ptask[k] != 0 ==> earliest <= t.ptask[k],
            earliest != NO_DEADLINE ==> now < earliest,
            earliest == NO_DEADLINE || t.armed_at(earliest),
            forall|h: int|
                0 <= h < config::MAX_HARTS ==> #[trigger] p.harts.resched[h] == (
                pre_p.harts.resched[h] || (h != pre_p.harts.hart && exists|k: int|
                    0 <= k < id && expired(#[trigger] pre.ptask[k], now)
                        && pre_p.tasks[k].used)),
        decreases MAX_PTASKS - id,
    {
        let d: u64 = t.ptask[id];
        let ghost before_t = *t;
        assert(d == pre.ptask[id as int]);
        assert(p.tasks[id as int] == pre_p.tasks[id as int]);
        if d != 0 {
            if now >= d {
                t.ptask[id] = 0;
                sched::unblock(p, id);
                woke_preemptive = true;
                assert(expired(pre.ptask[id as int], now));
            } else if d < earliest {
                earliest = d;
                assert(t.ptask[id as int] == d);
            }
        }
        proof {
            if earliest != NO_DEADLINE && !(t.ptask[id as int] == earliest) {
                assert(before_t.armed_at(earliest));
                if exists|k: int|
                    0 <= k < MAX_TIMERS && earliest != 0 && (#[trigger] before_t.slots[k]).deadline
                        == earliest {
                    let k = choose|k: int|
                        0 <= k < MAX_TIMERS && earliest != 0 && (
                        #[trigger] before_t.slots[k]).deadline == earliest;
                    assert(t.slots[k].deadline == earliest);
                } else {
                    let k = choose|k: int|
                        0 <= k < MAX_PTASKS && earliest != 0 && #[trigger] before_t.ptask[k]
                            == earliest;
                    assert(t.ptask[k] == earliest);
                }
            }
        }
        id = id + 1;
    }
    let ghost last = *t;
    t.next = earliest;
    let ghost swept = *p;
    // The task that was woken may be the next one of any hart, and the
    // executor may idle on another.
    if woke_cooperative {
        waker::broadcast_reschedule(&mut p.harts);
    }
    if woke_preemptive {
        arch::request_reschedule_others(&mut p.harts);
    }
    proof {
        sched::lemma_same_slots(swept, *p);
        lemma_armed_same(last, *t, earliest);
        if inherits(&pre_p) {
            mutex::lemma_inherits_same(pre_p, *p);
        }
    }
}

/// Slots in use.
pub open spec fn used_slots(slots: Seq<TimerSlot>) -> nat
    decreases slots.len(),
{
    if slots.len() == 0 {
        0
    } else {
        used_slots(slots.drop_last()) + (if slots.last().deadline != 0 {
            1nat
        } else {
            0
        })
    }
}

/// Count the cooperative sleeps that are armed.
pub fn slots_in_use(t: &TimerQueue) -> (r: usize)
    ensures
        r == used_slots(t.slots@),
        r <= MAX_TIMERS,
{
    let mut n: usize = 0;
    let mut i: usize = 0;
    while i < MAX_TIMERS
        invariant
            i <= MAX_TIMERS,
            n <= i,
            n == used_slots(t.slots@.take(i as int)),
        decreases MAX_TIMERS - i,
    {
        assert(t.slots@.take(i + 1).drop_last() =~= t.slots@.take(i as int));
        if t.slots[i].deadline != 0 {
            n = n + 1;
        }
        i = i + 1;
    }
    assert(t.slots@.take(MAX_TIMERS as int) =~= t.slots@);
    n
}

/// Slot `i` fires in the `k`-th of a run of polls.
pub open spec fn fires(ts: Seq<TimerQueue>, nows: Seq<u64>, i: int, k: int) -> bool {
    expired(ts[k].slots[i].deadline, nows[k])
}

/// The clock was at or past `d` in one of the first `k` polls.
pub open spec fn reached(nows: Seq<u64>, d: u64, k: int) -> bool {
    exists|j: int| 0 <= j < k && #[trigger] nows[j] >= d
}

proof fn lemma_slot_over_polls(ts: Seq<TimerQueue>, nows: Seq<u64>, i: int, k: int)
    requires
        0 <= i < MAX_TIMERS,
        ts.len() == nows.len() + 1,
        forall|j: int| 0 <= j < nows.len() ==> polled(&ts[j], &ts[j + 1], #[trigger] nows[j]),
        ts[0].slots[i].deadline != 0,
        0 <= k < ts.len(),
    ensures
        ts[k].slots[i].deadline == (if reached(nows, ts[0].slots[i].deadline, k) {
            0
        } else {
            ts[0].slots[i].deadline
        }),
    decreases k,
{
    let d = ts[0].slots[i].deadline;
    if k > 0 {
        lemma_slot_over_polls(ts, nows, i, k - 1);
        assert(polled(&ts[k - 1], &ts[k], nows[k - 1]));
        assert(ts[k].slots[i].deadline == (if expired(ts[k - 1].slots[i].deadline, nows[k - 1]) {
            0
        } else {
            ts[k - 1].slots[i].deadline
        }));
        if reached(nows, d, k - 1) {
            let j = choose|j: int| 0 <= j < k - 1 && #[trigger] nows[j] >= d;
            assert(nows[j] >= d);
        } else if nows[k - 1] < d {
            assert forall|j: int| 0 <= j < k implies #[trigger] nows[j] < d by {
                if j < k - 1 && nows[j] >= d {
                    assert(reached(nows, d, k - 1));
                }
            }
        }
    }
}

/// A registered sleep fires exactly once: over any run of polls, in the first
/// poll at or after its deadline and in no other.
pub proof fn law_fires_exactly_once(ts: Seq<TimerQueue>, nows: Seq<u64>, i: int, k: int)
    requires
        0 <= i < MAX_TIMERS,
        ts.len() == nows.len() + 1,
        forall|j: int| 0 <= j < nows.len() ==> polled(&ts[j], &ts[j + 1], #[trigger] nows[j]),
        ts[0].slots[i].deadline != 0,
        0 <= k < nows.len(),
    ensures
        fires(ts, nows, i, k) <==> nows[k] >= ts[0].slots[i].deadline && !reached(
            nows,
            ts[0].slots[i].deadline,
            k,
        ),
{
    lemma_slot_over_polls(ts, nows, i, k);
}

/// A sleep that fires makes its task ready and frees its slot.
pub proof fn law_firing_wakes(
    t0: TimerQueue,
    t1: TimerQueue,
    w0: WakerState,
    w1: WakerState,
    now: u64,
    i: int,
)
    requires
        0 <= i < MAX_TIMERS,
        polled(&t0, &t1, now),
        sleepers_woken(&w0, &w1, &t0, now, MAX_TIMERS as int),
        expired(t0.slots[i].deadline, now),
    ensures
        w1.ready(t0.slots[i].task.prio(), t0.slots[i].task.idx() % 32),
        t1.slots[i].deadline == 0,
{
}

/// One operation on the deadlines: a registration, a cancellation, a poll, or
/// one that leaves the slots alone.
pub open spec fn operated(pre: &TimerQueue, post: &TimerQueue) -> bool {
    ||| exists|d: u64, task: TaskId, h: TimerHandle| #[trigger] registered(pre, post, d, task, h)
    ||| exists|h: TimerHandle| #[trigger] cancelled(pre, post, h)
    ||| exists|now: u64| #[trigger] polled(pre, post, now)
    ||| post.slots == pre.slots
}

/// The `j`-th step of a run is one operation.
pub open spec fn operates(ts: Seq<TimerQueue>, j: int) -> bool {
    operated(&ts[j], &ts[j + 1])
}

/// One operation on slot `i`: it is taken if it was free, or freed, or left
/// alone.
proof fn lemma_operation_on_slot(pre: TimerQueue, post: TimerQueue, i: int)
    requires
        0 <= i < MAX_TIMERS,
        operated(&pre, &post),
    ensures
        ({
            let (a, b) = (pre.slots[i], post.slots[i]);
            ||| b == a
            ||| b == (TimerSlot { deadline: 0, ..a })
            ||| b.generation == next_generation(a.generation)
        }),
{
    if exists|d: u64, task: TaskId, h: TimerHandle| #[trigger]
        registered(&pre, &post, d, task, h) {
        let (d, task, h) = choose|d: u64, task: TaskId, h: TimerHandle| #[trigger]
            registered(&pre, &post, d, task, h);
        assert(post.slots@[i] == post.slots[i]);
    } else if exists|h: TimerHandle| #[trigger] cancelled(&pre, &post, h) {
        let h = choose|h: TimerHandle| #[trigger] cancelled(&pre, &post, h);
        assert(post.slots@[i] == post.slots[i]);
    } else if exists|now: u64| #[trigger] polled(&pre, &post, now) {
        let now = choose|now: u64| #[trigger] polled(&pre, &post, now);
        assert(post.slots[i] == post.slots[i]);
    }
}

/// How often slot `i` was taken in the first `k` operations of a run.
proof fn lemma_generations(ts: Seq<TimerQueue>, i: int, k: int) -> (m: int)
    requires
        0 <= i < MAX_TIMERS,
        0 <= k < ts.len(),
        forall|j: int| 0 <= j < ts.len() - 1 ==> #[trigger] operates(ts, j),
    ensures
        0 <= m <= k,
        ts[k].slots[i].generation == (ts[0].slots[i].generation + m) % 0x1_0000_0000_0000_0000,
        m == 0 ==> ts[k].slots[i].deadline == 0 || ts[k].slots[i].deadline
            == ts[0].slots[i].deadline,
        m == 0 && (exists|j: int|
            0 <= j <= k && (#[trigger] ts[j]).slots[i].deadline == 0)
            ==> ts[k].slots[i].deadline == 0,
    decreases k,
{
    if k == 0 {
        0
    } else {
        let m = lemma_generations(ts, i, k - 1);
        assert(operates(ts, k - 1));
        lemma_operation_on_slot(ts[k - 1], ts[k], i);
        let (a, b) = (ts[k - 1].slots[i], ts[k].slots[i]);
        if b == a || b == (TimerSlot { deadline: 0, ..a }) {
            if m == 0 && (exists|j: int|
                0 <= j <= k && (#[trigger] ts[j]).slots[i].deadline == 0) {
                let j = choose|j: int| 0 <= j <= k && (#[trigger] ts[j]).slots[i].deadline == 0;
                if j < k {
                    assert(ts[j].slots[i].deadline == 0);
                }
            }
            m
        } else {
            m + 1
        }
    }
}

/// A stale handle cancels nothing: once the sleep that it stands for has fired
/// or was cancelled, it stays without effect however often its slot is taken
/// again, for whatever task and time. (The generation of a slot repeats after
/// 2^64 sleeps.)
pub proof fn law_stale_cancel_does_nothing(
    ts: Seq<TimerQueue>,
    handle: TimerHandle,
    j: int,
    post: TimerQueue,
)
    requires
        0 < ts.len() <= u64::MAX,
        handle.slot < MAX_TIMERS,
        holds(ts[0].slots[handle.slot as int], handle),
        handle.deadline != 0,
        forall|k: int| 0 <= k < ts.len() - 1 ==> #[trigger] operates(ts, k),
        0 <= j < ts.len(),
        ts[j].slots[handle.slot as int].deadline == 0,
        cancelled(&ts.last(), &post, handle),
    ensures
        post.slots@ == ts.last().slots@,
        post.ptask == ts.last().ptask,
        post.next == ts.last().next,
{
    let i = handle.slot as int;
    let k = ts.len() - 1;
    let m = lemma_generations(ts, i, k);
    let g = ts[0].slots[i].generation as int;
    if m > 0 {
        assert((g + m) % 0x1_0000_0000_0000_0000 != g);
    } else {
        assert(ts[j].slots[i].deadline == 0);
    }
}

/// A blocked task whose deadline comes is made ready, and its deadline is
/// forgotten.
pub proof fn law_timeout_wakes_task(
    t0: TimerQueue,
    t1: TimerQueue,
    p0: Preempt,
    p1: Preempt,
    now: u64,
    x: int,
)
    requires
        polled(&t0, &t1, now),
        blocked_woken(&p0, &p1, &t0, now, MAX_PTASKS as int),
        p0.live(x) is Some,
        expired(t0.ptask[x], now),
    ensures
        p1.ready(x),
        t1.ptask[x] == 0,
{
    assert(p1.tasks[x].state == SlotState::Ready);
}

/// A sleep that was registered wakes its task at the first poll at or after its
/// deadline, and at no poll before it.
pub proof fn law_registered_sleep_fires_on_time(
    t0: &mut TimerQueue,
    deadline: u64,
    task: TaskId,
    r: Result<TimerHandle, TimerQueueFull>,
    t1: &mut TimerQueue,
    w: &mut WakerState,
    p: &mut Preempt,
    now: u64,
)
    requires
        call_ensures(register_deadline, (t0, deadline, task), r),
        r is Ok,
        deadline > 0,
        *old(t1) == *final(t0),
        call_ensures(poll_timers, (t1, w, p, now), ()),
    ensures
        ({
            let i = r->Ok_0.slot as int;
            &&& 0 <= i < MAX_TIMERS
            &&& old(t0).slots[i].deadline == 0
            &&& final(t0).slots[i].deadline == deadline
            &&& final(t0).slots[i].task == task
            &&& now >= deadline ==> final(w).ready(task.prio(), task.idx() % 32)
                && final(t1).slots[i].deadline == 0 && final(w).pend
            &&& now < deadline ==> final(t1).slots[i].deadline == deadline
        }),
{
    let i = r->Ok_0.slot as int;
    assert(final(t0).slots@[i] == final(t0).slots[i]);
}

/// A poll wakes nobody whose deadline has not come: a cooperative task is newly
/// ready only if a sleep of its own is over, and a preemptive one only if its
/// own deadline has come.
pub proof fn law_poll_wakes_nobody_early(
    t: &mut TimerQueue,
    w: &mut WakerState,
    p: &mut Preempt,
    now: u64,
    level: int,
    index: int,
    x: int,
)
    requires
        call_ensures(poll_timers, (t, w, p, now), ()),
        0 <= x < MAX_PTASKS,
    ensures
        final(w).ready(level, index) && !old(w).ready(level, index) ==> exists|i: int|
            {
                &&& 0 <= i < MAX_TIMERS
                &&& (#[trigger] old(t).slots[i]).deadline != 0
                &&& old(t).slots[i].deadline <= now
                &&& old(t).slots[i].task.prio() == level
                &&& old(t).slots[i].task.idx() % 32 == index
            },
        old(w).ready(level, index) ==> final(w).ready(level, index),
        old(t).ptask[x] == 0 || old(t).ptask[x] > now ==> final(p).tasks[x] == old(p).tasks[x]
            && final(t).ptask[x] == old(t).ptask[x],
        old(t).ptask[x] != 0 && old(t).ptask[x] <= now ==> final(t).ptask[x] == 0 && (old(
            p,
        ).tasks[x].used ==> final(p).tasks[x].state == SlotState::Ready),
{
    assert(final(p).tasks[x].used == old(p).tasks[x].used);
    if final(w).ready(level, index) && !old(w).ready(level, index) {
        let i = choose|i: int|
            {
                &&& 0 <= i < MAX_TIMERS
                &&& expired((#[trigger] old(t).slots[i]).deadline, now)
                &&& old(t).slots[i].task.prio() == level
                &&& old(t).slots[i].task.idx() % 32 == index
            };
        assert(old(t).slots[i].deadline != 0);
    }
}

/// Cancelling a sleep frees its slot and no other, so that it fires no more; a
/// second cancellation does nothing.
pub proof fn law_cancelled_sleep_is_gone(
    t0: &mut TimerQueue,
    deadline: u64,
    task: TaskId,
    r: Result<TimerHandle, TimerQueueFull>,
    t1: &mut TimerQueue,
    t2: &mut TimerQueue,
    x: int,
)
    requires
        call_ensures(register_deadline, (t0, deadline, task), r),
        r is Ok,
        deadline > 0,
        *old(t1) == *final(t0),
        call_ensures(cancel_deadline, (t1, r->Ok_0), ()),
        *old(t2) == *final(t1),
        call_ensures(cancel_deadline, (t2, r->Ok_0), ()),
        0 <= x < MAX_TIMERS,
        x != r->Ok_0.slot,
    ensures
        final(t1).slots[r->Ok_0.slot as int].deadline == 0,
        final(t1).slots[x] == old(t0).slots[x],
        final(t1).ptask == old(t0).ptask,
        final(t2).slots@ == final(t1).slots@,
{
    let i = r->Ok_0.slot as int;
    assert(final(t0).slots@[i] == final(t0).slots[i]);
    assert(final(t1).slots@[i] == final(t1).slots[i]);
    assert(final(t1).slots@[x] == final(t1).slots[x]);
    assert(final(t0).slots@[x] == final(t0).slots[x]);
}

/// A registration fails only if every slot is taken.
pub proof fn law_full_queue_refuses(
    t: &mut TimerQueue,
    deadline: u64,
    task: TaskId,
    r: Result<TimerHandle, TimerQueueFull>,
    i: int,
)
    requires
        call_ensures(register_deadline, (t, deadline, task), r),
        0 <= i < MAX_TIMERS,
        r is Err,
    ensures
        old(t).slots[i].deadline != 0,
        *final(t) == *old(t),
{
    let pre = *old(t);
    assert(pre.slots[i].deadline != 0);
}

/// The block deadline of a task is what was registered last, until it is
/// forgotten; those of other tasks are left alone.
pub proof fn law_block_deadline_is_kept(
    t0: &mut TimerQueue,
    deadline: u64,
    task: usize,
    r: Result<(), TimerQueueFull>,
    t1: &mut TimerQueue,
    x: int,
)
    requires
        call_ensures(register_ptask_deadline, (t0, deadline, task), r),
        task < MAX_PTASKS,
        *old(t1) == *final(t0),
        call_ensures(cancel_ptask_deadline, (t1, task), ()),
        0 <= x < MAX_PTASKS,
        x != task,
    ensures
        r is Ok,
        final(t0).ptask[task as int] == deadline,
        final(t1).ptask[task as int] == 0,
        final(t1).ptask[x] == old(t0).ptask[x],
        final(t1).slots == old(t0).slots,
        final(t0).next <= deadline,
        final(t0).next <= old(t0).next,
{
    assert(final(t0).ptask@[task as int] == final(t0).ptask[task as int]);
    assert(final(t1).ptask@[task as int] == final(t1).ptask[task as int]);
    assert(final(t0).ptask@[x] == old(t0).ptask@[x]);
    assert(final(t1).ptask@[x] == final(t0).ptask@[x]);
}

} // verus!
