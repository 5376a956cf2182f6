//! Durations and sleeps.
use crate::config::PRIORITY_LEVELS;
use crate::task::{Poll, TaskId};
use crate::timer::{self, TimerHandle, TimerQueue, MAX_TIMERS};
use crate::waker::WakerState;
use vstd::prelude::*;

verus! {

/// A span of time in microseconds.
#[derive(Clone, Copy, Debug)]
pub struct Duration {
    micros: u64,
}

impl Duration {
    /// The span in microseconds.
    pub closed spec fn micros(&self) -> u64 {
        self.micros
    }

    /// A span of microseconds.
    pub fn from_micros(micros: u64) -> (r: Self)
        ensures
            r.micros() == micros,
    {
        Duration { micros }
    }

    /// A span of milliseconds; it must fit the microsecond count.
    pub fn from_millis(ms: u64) -> (r: Self)
        requires
            ms * 1000 <= u64::MAX,
        ensures
            r.micros() == ms * 1000,
    {
        Duration { micros: ms * 1000 }
    }

    /// The span in microseconds.
    pub fn as_micros(&self) -> (r: u64)
        ensures
            r == self.micros(),
    {
        self.micros
    }

    /// The whole milliseconds of the span.
    pub fn as_millis(&self) -> (r: u64)
        ensures
            r == self.micros() / 1000,
    {
        self.micros / 1000
    }
}

/// The time `micros` after `now` on the wrapping clock. Zero stands for an
/// unset time, so one is used in its place.
pub open spec fn due_at(now: u64, micros: u64) -> u64 {
    let sum = if now + micros <= u64::MAX {
        now + micros
    } else {
        now + micros - 0x1_0000_0000_0000_0000
    };
    if sum == 0 {
        1
    } else {
        sum as u64
    }
}

/// A wait of `MICROS` microseconds in a cooperative task.
pub struct Sleep<const MICROS: u64> {
    /// When the wait ends; zero until the first poll.
    pub deadline: u64,
    /// The registration with the timer queue.
    pub slot: Option<TimerHandle>,
}

/// What the first poll of a sleep does: the deadline is fixed and registered
/// in the first free slot.
pub open spec fn sleep_begun(
    slot: Option<TimerHandle>,
    pre_t: &TimerQueue,
    post_t: &TimerQueue,
    deadline: u64,
    task: TaskId,
) -> bool {
    &&& slot matches Some(h)
    &&& timer::registered(pre_t, post_t, deadline, task, h)
    &&& forall|i: int| 0 <= i < h.slot ==> (#[trigger] pre_t.slots[i]).deadline != 0
}

impl<const MICROS: u64> Sleep<MICROS> {
    /// A sleep that begins with its first poll.
    pub fn new() -> (r: Self)
        ensures
            r.deadline == 0,
            r.slot is None,
    {
        Sleep { deadline: 0, slot: None }
    }

    /// What one poll at time `now` does, in the name of `current`.
    pub open spec fn polled(
        pre: &Self,
        post: &Self,
        pre_t: &TimerQueue,
        post_t: &TimerQueue,
        now: u64,
        current: Option<TaskId>,
        r: Poll<()>,
    ) -> bool {
        &&& post.deadline == (if pre.deadline == 0 {
            due_at(now, MICROS)
        } else {
            pre.deadline
        })
        &&& r is Ready == (now >= post.deadline)
        &&& if pre.deadline == 0 {
            exists|mid: TimerQueue, h: TimerHandle| #[trigger]
                sleep_begun(Some(h), pre_t, &mid, post.deadline, current->0) && if r is Ready {
                    post.slot is None && timer::cancelled(&mid, post_t, h)
                } else {
                    post.slot == Some(h) && *post_t == mid
                }
        } else if r is Ready {
            &&& post.slot is None
            &&& match pre.slot {
                Some(h) => timer::cancelled(pre_t, post_t, h),
                None => *post_t == *pre_t,
            }
        } else {
            *post_t == *pre_t && post.slot == pre.slot
        }
    }

    /// Poll. The first poll fixes the deadline and registers the polling task,
    /// which must be known, with the timer queue, which must have a free slot.
    /// The sleep is over once the deadline has come; until then it waits for
    /// the timer to wake the task. A sleep that is over leaves no registration
    /// behind, even if the timer has not seen the deadline yet.
    pub fn poll(&mut self, t: &mut TimerQueue, now: u64, current: Option<TaskId>) -> (r: Poll<()>)
        requires
            old(t).wf(),
            old(self).deadline == 0 ==> current is Some && current->0.prio() < PRIORITY_LEVELS,
            old(self).deadline == 0 ==> exists|i: int|
                0 <= i < MAX_TIMERS && (#[trigger] old(t).slots[i]).deadline == 0,
        ensures
            final(t).wf(),
            Self::polled(old(self), final(self), old(t), final(t), now, current, r),
    {
        if self.deadline == 0 {
            let sum: u64 = now.wrapping_add(MICROS);
            let deadline: u64 = if sum == 0 {
                1
            } else {
                sum
            };
            self.deadline = deadline;
            if let Some(id) = current {
                if let Ok(handle) = timer::register_deadline(t, deadline, id) {
                    self.slot = Some(handle);
                    assert(sleep_begun(Some(handle), old(t), t, deadline, id));
                }
            }
            if now >= deadline {
                self.cancel(t);
                return Poll::Ready(());
            }
            return Poll::Pending;
        }
        if now >= self.deadline {
            self.cancel(t);
            Poll::Ready(())
        } else {
            Poll::Pending
        }
    }

    /// Give the sleep up: a registration that is still there is cancelled.
    pub fn cancel(&mut self, t: &mut TimerQueue)
        requires
            old(t).wf(),
        ensures
            final(t).wf(),
            final(self).slot is None,
            final(self).deadline == old(self).deadline,
            match old(self).slot {
                Some(h) => timer::cancelled(old(t), final(t), h),
                None => *final(t) == *old(t),
            },
    {
        if let Some(handle) = self.slot {
            self.slot = None;
            timer::cancel_deadline(t, handle);
        }
    }
}

/// A sleep that is over neither keeps its slot nor wakes anybody later: its
/// registration is gone, whether or not the timer had come to it.
pub proof fn law_finished_sleep_keeps_no_slot<const MICROS: u64>(
    pre: Sleep<MICROS>,
    post: Sleep<MICROS>,
    pre_t: TimerQueue,
    post_t: TimerQueue,
    now: u64,
    current: Option<TaskId>,
    h: TimerHandle,
)
    requires
        pre.deadline != 0,
        pre.slot == Some(h),
        h.slot < MAX_TIMERS,
        h.deadline != 0,
        Sleep::<MICROS>::polled(&pre, &post, &pre_t, &post_t, now, current, Poll::Ready(())),
    ensures
        post.slot is None,
        !timer::holds(post_t.slots[h.slot as int], h),
        forall|i: int|
            0 <= i < MAX_TIMERS && i != h.slot ==> #[trigger] post_t.slots[i] == pre_t.slots[i],
{
    assert forall|i: int| 0 <= i < MAX_TIMERS && i != h.slot implies #[trigger] post_t.slots[i]
        == pre_t.slots[i] by {
        assert(post_t.slots@[i] == pre_t.slots@[i]);
    }
    assert(post_t.slots@[h.slot as int] == post_t.slots[h.slot as int]);
}

impl<const MICROS: u64> Default for Sleep<MICROS> {
    fn default() -> (r: Self)
        ensures
            r.deadline == 0,
            r.slot is None,
    {
        Self::new()
    }
}

/// A sleep ends: the first timer poll at or after its deadline makes its task
/// ready, and the poll of the sleep that follows finds it over.
pub proof fn law_sleep_ends<const MICROS: u64>(
    s0: Sleep<MICROS>,
    s1: Sleep<MICROS>,
    s2: Sleep<MICROS>,
    t0: TimerQueue,
    t1: TimerQueue,
    t2: TimerQueue,
    t3: TimerQueue,
    w1: WakerState,
    w2: WakerState,
    began: u64,
    fired: u64,
    later: u64,
    task: TaskId,
    r: Poll<()>,
)
    requires
        s0.deadline == 0,
        Sleep::polled(&s0, &s1, &t0, &t1, began, Some(task), Poll::Pending),
        timer::polled(&t1, &t2, fired),
        timer::sleepers_woken(&w1, &w2, &t1, fired, MAX_TIMERS as int),
        fired >= due_at(began, MICROS),
        later >= fired,
        Sleep::polled(&s1, &s2, &t2, &t3, later, Some(task), r),
    ensures
        w2.ready(task.prio(), task.idx() % 32),
        r is Ready,
        s2.slot is None,
        t3.slots@ == t2.slots@,
        t3.ptask == t2.ptask,
        t3.next == t2.next,
{
    let i = s1.slot->0.slot as int;
    assert(t1.slots[i].task == task);
    timer::law_firing_wakes(t1, t2, w1, w2, fired, i);
}

/// A span keeps what it was made from: microseconds come back as they were, and
/// a millisecond is a thousand of them.
pub proof fn law_span_is_what_was_asked(n: u64, a: Duration, b: Duration, us: u64, ms: u64)
    requires
        call_ensures(Duration::from_micros, (n,), a),
        call_ensures(Duration::from_millis, (n,), b),
        call_ensures(Duration::as_micros, (&a,), us),
        call_ensures(Duration::as_millis, (&b,), ms),
    ensures
        us == n,
        a.micros() == n,
        b.micros() == n * 1000,
        ms == n,
{
}

/// The whole milliseconds of a span: what is left over is less than one.
pub proof fn law_millis_are_whole(d: Duration, us: u64, ms: u64)
    requires
        call_ensures(Duration::as_micros, (&d,), us),
        call_ensures(Duration::as_millis, (&d,), ms),
    ensures
        ms * 1000 <= us < ms * 1000 + 1000,
{
}

/// A sleep of `MICROS` microseconds whose first poll is at `began` is over at
/// that poll only if it takes no time; otherwise the polling task is registered
/// for the wake-up `MICROS` microseconds later. (Time zero stands for no
/// deadline.)
pub proof fn law_sleep_begins<const MICROS: u64>(
    s: &mut Sleep<MICROS>,
    t: &mut TimerQueue,
    began: u64,
    task: TaskId,
    r: Poll<()>,
)
    requires
        call_ensures(Sleep::<MICROS>::poll, (s, t, began, Some(task)), r),
        old(s).deadline == 0,
        0 < began + MICROS <= u64::MAX,
    ensures
        r is Ready <==> MICROS == 0,
        r is Pending ==> {
            &&& final(s).slot matches Some(h)
            &&& h.slot < MAX_TIMERS
            &&& old(t).slots[h.slot as int].deadline == 0
            &&& final(t).slots[h.slot as int].deadline == began + MICROS
            &&& final(t).slots[h.slot as int].task == task
        },
        forall|x: int| 0 <= x < crate::config::MAX_PTASKS ==> final(t).ptask[x] == old(t).ptask[x],
{
    if r is Pending {
        let h = final(s).slot->0;
        assert(final(t).slots@[h.slot as int] == final(t).slots[h.slot as int]);
    }
}

/// A sleep of `MICROS` microseconds that was first polled at `began` is over
/// at a later poll exactly if `MICROS` microseconds have passed by then.
pub proof fn law_sleep_lasts<const MICROS: u64>(
    s0: &mut Sleep<MICROS>,
    t0: &mut TimerQueue,
    s1: &mut Sleep<MICROS>,
    t1: &mut TimerQueue,
    began: u64,
    now: u64,
    first: Option<TaskId>,
    second: Option<TaskId>,
    r0: Poll<()>,
    r1: Poll<()>,
)
    requires
        call_ensures(Sleep::<MICROS>::poll, (s0, t0, began, first), r0),
        old(s0).deadline == 0,
        0 < began + MICROS <= u64::MAX,
        *old(s1) == *final(s0),
        call_ensures(Sleep::<MICROS>::poll, (s1, t1, now, second), r1),
    ensures
        r1 is Ready <==> now >= began + MICROS,
        final(s1).deadline == final(s0).deadline,
{
}

/// Each poll of a sleep that has begun tests the same deadline.
pub proof fn law_sleep_keeps_its_deadline<const MICROS: u64>(
    s: &mut Sleep<MICROS>,
    t: &mut TimerQueue,
    now: u64,
    current: Option<TaskId>,
    r: Poll<()>,
)
    requires
        call_ensures(Sleep::<MICROS>::poll, (s, t, now, current), r),
        old(s).deadline != 0,
    ensures
        final(s).deadline == old(s).deadline,
        r is Ready <==> now >= old(s).deadline,
        r is Pending ==> *final(t) == *old(t) && final(s).slot == old(s).slot,
{
}

/// On a clock that wraps, the deadline is `MICROS` microseconds ahead of the
/// first poll, whatever the time.
pub proof fn law_sleep_wraps<const MICROS: u64>(
    s: &mut Sleep<MICROS>,
    t: &mut TimerQueue,
    began: u64,
    current: Option<TaskId>,
    r: Poll<()>,
)
    requires
        call_ensures(Sleep::<MICROS>::poll, (s, t, began, current), r),
        old(s).deadline == 0,
    ensures
        final(s).deadline != 0,
        final(s).deadline == began + MICROS || final(s).deadline == began + MICROS
            - 0x1_0000_0000_0000_0000 || (final(s).deadline == 1 && (began + MICROS) % (
        0x1_0000_0000_0000_0000) == 0),
{
}

/// A sleep that is given up leaves no registration of its own behind, and
/// keeps its deadline.
pub proof fn law_cancelled_sleep_is_gone<const MICROS: u64>(
    s0: &mut Sleep<MICROS>,
    s1: &mut Sleep<MICROS>,
    t0: &mut TimerQueue,
    t1: &mut TimerQueue,
    now: u64,
    task: TaskId,
    r: Poll<()>,
)
    requires
        old(s0).deadline == 0,
        old(t0).wf(),
        now > 0,
        0 < MICROS,
        now + MICROS <= u64::MAX,
        call_ensures(Sleep::<MICROS>::poll, (s0, t0, now, Some(task)), r),
        *old(s1) == *final(s0),
        *old(t1) == *final(t0),
        call_ensures(Sleep::<MICROS>::cancel, (s1, t1), ()),
    ensures
        r is Pending,
        final(s0).slot is Some,
        final(t0).slots[final(s0).slot->0.slot as int].deadline == now + MICROS,
        final(t1).slots[final(s0).slot->0.slot as int].deadline == 0,
        final(s1).deadline == now + MICROS,
        final(s1).slot is None,
{
    let h = final(s0).slot->0;
    assert(final(t0).slots@[h.slot as int] == final(t0).slots[h.slot as int]);
    assert(final(t1).slots@[h.slot as int] == final(t1).slots[h.slot as int]);
}

} // verus!
