//! A latch that wakes one waiting task.
//!
//! A driver's interrupt handler fires the signal; the task that drives the
//! peripheral waits for it. A signal that fires before the task waits is
//! remembered.
//!
//! Firing and waiting are made of steps, each of which is one access to the
//! latch or to the waiter's place. The interrupt may come between any two steps
//! of a wait: the wait looks at the latch again after it has registered its
//! task, and so misses nothing.
use crate::config::PRIORITY_LEVELS;
use crate::port::arch::Harts;
use crate::sync::race::{EventStage, PollStage};
use crate::task::{Poll, TaskId};
use crate::waker::{self, WakerState};
use vstd::prelude::*;

verus! {

/// The latch, and the task that waits for it.
pub struct Signal {
    /// The signal has fired and nobody has taken it.
    pub fired: bool,
    /// The waiting task.
    pub waiter: Option<TaskId>,
}

/// What firing the signal does.
pub open spec fn signalled(
    pre: &Signal,
    post: &Signal,
    pre_w: &WakerState,
    post_w: &WakerState,
    pre_h: &Harts,
    post_h: &Harts,
) -> bool {
    &&& post.fired
    &&& post.waiter is None
    &&& match pre.waiter {
        Some(id) => waker::marked(*pre_w, *post_w, id) && post_h.broadcast_from(pre_h),
        None => *post_w == *pre_w && *post_h == *pre_h,
    }
}

/// The latch was set.
pub open spec fn latched(pre: &Signal, post: &Signal) -> bool {
    post.fired && post.waiter == pre.waiter
}

/// The waiter's place was emptied.
pub open spec fn claimed(pre: &Signal, post: &Signal) -> bool {
    post.waiter is None && post.fired == pre.fired
}

/// The latch was read and cleared.
pub open spec fn taken(pre: &Signal, post: &Signal) -> bool {
    !post.fired && post.waiter == pre.waiter
}

/// The waiter's place was set.
pub open spec fn placed(pre: &Signal, post: &Signal, id: Option<TaskId>) -> bool {
    post.waiter == id && post.fired == pre.fired
}

impl Signal {
    /// The waiting task has a priority level.
    pub open spec fn wf(&self) -> bool {
        self.waiter matches Some(id) ==> id.prio() < PRIORITY_LEVELS
    }

    /// A signal that has not fired.
    pub fn new() -> (r: Self)
        ensures
            r.wf(),
            !r.fired,
            r.waiter is None,
    {
        Signal { fired: false, waiter: None }
    }

    /// Fire: the latch is set, and the waiting task, if there is one, is woken
    /// and forgotten.
    pub fn signal(&mut self, w: &mut WakerState, h: &mut Harts)
        requires
            old(self).wf(),
        ensures
            final(self).wf(),
            signalled(old(self), final(self), old(w), final(w), old(h), final(h)),
    {
        self.latch();
        if let Some(id) = self.claim() {
            waker::wake_task(w, h, id);
        }
    }

    /// First step of firing: set the latch.
    fn latch(&mut self)
        ensures
            latched(old(self), final(self)),
    {
        self.fired = true;
    }

    /// Second step of firing: take the waiting task out of its place.
    fn claim(&mut self) -> (r: Option<TaskId>)
        ensures
            r == old(self).waiter,
            claimed(old(self), final(self)),
    {
        let waiter = self.waiter;
        self.waiter = None;
        waiter
    }

    /// Put the waiting task into its place, or take it out.
    fn place(&mut self, id: Option<TaskId>)
        ensures
            placed(old(self), final(self), id),
    {
        self.waiter = id;
    }

    /// Take the signal if it has fired.
    pub fn try_take(&mut self) -> (r: bool)
        ensures
            r == old(self).fired,
            taken(old(self), final(self)),
    {
        let r = self.fired;
        self.fired = false;
        r
    }

    /// Forget that the signal has fired.
    pub fn reset(&mut self)
        ensures
            !final(self).fired,
            final(self).waiter == old(self).waiter,
    {
        self.fired = false;
    }

    /// Begin to wait.
    pub fn wait(&self) -> (r: Wait)
        ensures
            r.registered is None,
    {
        Wait { registered: None }
    }
}

impl Default for Signal {
    fn default() -> (r: Self)
        ensures
            !r.fired,
            r.waiter is None,
    {
        Self::new()
    }
}

/// A wait for a signal.
pub struct Wait {
    /// The task under which the wait is registered.
    pub registered: Option<TaskId>,
}

/// What one poll of a wait does, in the name of `current`.
pub open spec fn waited(
    pre: &Wait,
    post: &Wait,
    pre_s: &Signal,
    post_s: &Signal,
    current: Option<TaskId>,
    r: Poll<()>,
) -> bool {
    if pre_s.fired {
        &&& r == Poll::Ready(())
        &&& !post_s.fired
        &&& post_s.waiter == pre_s.waiter
        &&& *post == *pre
    } else {
        &&& r is Pending
        &&& !post_s.fired
        &&& post_s.waiter == current
        &&& post.registered == current
    }
}

impl Wait {
    /// Poll: take the signal if it has fired; otherwise register the polling
    /// task, which must be known, and be the only one that waits.
    pub fn poll(&mut self, sig: &mut Signal, current: Option<TaskId>) -> (r: Poll<()>)
        requires
            old(sig).wf(),
            !old(sig).fired ==> current is Some && current->0.prio() < PRIORITY_LEVELS,
            !old(sig).fired ==> old(sig).waiter is None || old(sig).waiter == current,
        ensures
            final(sig).wf(),
            waited(old(self), final(self), old(sig), final(sig), current, r),
    {
        if sig.try_take() {
            return Poll::Ready(());
        }
        sig.place(current);
        self.registered = current;
        // The signal may have fired before the task was in its place.
        if sig.try_take() {
            self.cancel(sig);
            return Poll::Ready(());
        }
        Poll::Pending
    }

    /// Stop waiting. A registration is withdrawn; the latch is left alone, so
    /// that a signal that has fired can still be taken.
    pub fn cancel(&mut self, sig: &mut Signal)
        requires
            old(sig).wf(),
        ensures
            final(sig).wf(),
            final(self).registered is None,
            final(sig).fired == old(sig).fired,
            final(sig).waiter == (if old(self).registered is Some {
                None
            } else {
                old(sig).waiter
            }),
    {
        if self.registered.is_some() {
            self.registered = None;
            sig.place(None);
        }
    }
}

/// No wakeup is lost: a task whose wait is pending is ready once the signal
/// fires, and the latch is set for its next poll.
pub proof fn law_signal_not_lost(
    w0: Wait,
    w1: Wait,
    s0: Signal,
    s1: Signal,
    s2: Signal,
    k1: WakerState,
    k2: WakerState,
    h1: Harts,
    h2: Harts,
    id: TaskId,
)
    requires
        waited(&w0, &w1, &s0, &s1, Some(id), Poll::Pending),
        signalled(&s1, &s2, &k1, &k2, &h1, &h2),
        k1.wf(),
        0 <= id.prio() < PRIORITY_LEVELS,
        id.idx() < 32,
    ensures
        s2.fired,
        k2.wf(),
        k2.ready(id.prio(), id.idx()),
{
    waker::law_no_lost_wakeup(k1, k2, id);
}

/// A signal that fires before the wait begins is not lost either: the first
/// poll takes it.
pub proof fn law_early_signal_is_latched(
    w0: Wait,
    w1: Wait,
    s0: Signal,
    s1: Signal,
    s2: Signal,
    k0: WakerState,
    k1: WakerState,
    h0: Harts,
    h1: Harts,
    current: Option<TaskId>,
    r: Poll<()>,
)
    requires
        signalled(&s0, &s1, &k0, &k1, &h0, &h1),
        waited(&w0, &w1, &s1, &s2, current, r),
    ensures
        r == Poll::Ready(()),
        !s2.fired,
{
}

/// A poll and an interrupt handler that fires the signal, both under way.
pub struct Race {
    /// The signal.
    pub sig: Signal,
    /// The poll.
    pub poll: PollStage,
    /// The handler.
    pub fire: EventStage,
    /// The handler has woken the task.
    pub woken: bool,
}

/// The poll, in the name of `id`, makes its next step.
pub open spec fn poll_steps(pre: &Race, post: &Race, id: TaskId) -> bool {
    &&& post.fire == pre.fire
    &&& post.woken == pre.woken
    &&& match pre.poll {
        PollStage::Fresh | PollStage::Placed => {
            &&& taken(&pre.sig, &post.sig)
            &&& post.poll == pre.poll.looked(pre.sig.fired)
        },
        PollStage::Missed => {
            &&& placed(&pre.sig, &post.sig, Some(id))
            &&& post.poll is Placed
        },
        PollStage::Caught => {
            &&& placed(&pre.sig, &post.sig, None)
            &&& post.poll is Ready
        },
        PollStage::Ready | PollStage::Pending => false,
    }
}

/// The handler makes its next step.
pub open spec fn fire_steps(pre: &Race, post: &Race) -> bool {
    &&& post.poll == pre.poll
    &&& match pre.fire {
        EventStage::Idle => {
            &&& latched(&pre.sig, &post.sig)
            &&& post.fire is Happened
            &&& post.woken == pre.woken
        },
        EventStage::Happened => {
            &&& claimed(&pre.sig, &post.sig)
            &&& post.fire is Done
            &&& post.woken == (pre.woken || pre.sig.waiter is Some)
        },
        EventStage::Done => false,
    }
}

/// What holds at every moment of a race.
spec fn race_sound(r: &Race, id: TaskId) -> bool {
    let fired = !(r.fire is Idle);
    match r.poll {
        PollStage::Fresh => r.sig.waiter is None && (fired ==> r.sig.fired),
        PollStage::Missed => r.sig.waiter is None && r.sig.fired == fired,
        PollStage::Placed => {
            &&& r.sig.fired == fired
            &&& !(r.fire is Done) ==> r.sig.waiter == Some(id)
        },
        PollStage::Pending => {
            &&& r.sig.fired == fired
            &&& if r.fire is Done {
                r.woken
            } else {
                r.sig.waiter == Some(id)
            }
        },
        PollStage::Caught | PollStage::Ready => true,
    }
}

/// Looking at the latch again after registering is enough: however the steps
/// of a poll and of the handler that fires the signal come to lie, a poll that
/// ends without the signal has its task woken, and the latch still set for the
/// next one.
pub proof fn law_no_interleaving_loses_the_signal(rs: Seq<Race>, id: TaskId)
    requires
        rs.len() > 0,
        rs[0].poll is Fresh,
        rs[0].fire is Idle,
        rs[0].sig.waiter is None,
        forall|j: int|
            0 <= j < rs.len() - 1 ==> poll_steps(#[trigger] &rs[j], &rs[j + 1], id) || fire_steps(
                &rs[j],
                &rs[j + 1],
            ),
        rs.last().poll.over(),
        rs.last().fire is Done,
    ensures
        rs.last().poll is Pending ==> rs.last().woken && rs.last().sig.fired,
{
    lemma_race_sound(rs, id, (rs.len() - 1) as nat);
}

proof fn lemma_race_sound(rs: Seq<Race>, id: TaskId, n: nat)
    requires
        n < rs.len(),
        rs[0].poll is Fresh,
        rs[0].fire is Idle,
        rs[0].sig.waiter is None,
        forall|j: int|
            0 <= j < rs.len() - 1 ==> poll_steps(#[trigger] &rs[j], &rs[j + 1], id) || fire_steps(
                &rs[j],
                &rs[j + 1],
            ),
    ensures
        race_sound(&rs[n as int], id),
    decreases n,
{
    if n > 0 {
        lemma_race_sound(rs, id, (n - 1) as nat);
        assert(poll_steps(&rs[n - 1], &rs[n - 1 + 1], id) || fire_steps(
            &rs[n - 1],
            &rs[n - 1 + 1],
        ));
    }
}

/// A wait is pending until the signal fires, which makes its task and no other
/// task ready; the next poll takes the signal, which is then gone.
pub proof fn law_wait_ends_with_the_signal(
    sig: Signal,
    begun: Wait,
    f0: &mut Wait,
    f1: &mut Wait,
    s0: &mut Signal,
    s1: &mut Signal,
    s2: &mut Signal,
    s3: &mut Signal,
    w: &mut WakerState,
    h: &mut Harts,
    id: TaskId,
    r0: Poll<()>,
    r1: Poll<()>,
    again: bool,
)
    requires
        0 <= id.prio() < PRIORITY_LEVELS,
        id.idx() < 32,
        call_ensures(Signal::new, (), sig),
        call_ensures(Signal::wait, (&sig,), begun),
        *old(s0) == sig,
        *old(f0) == begun,
        call_ensures(Wait::poll, (f0, s0, Some(id)), r0),
        *old(s1) == *final(s0),
        call_ensures(Signal::signal, (s1, w, h), ()),
        *old(s2) == *final(s1),
        *old(f1) == *final(f0),
        call_ensures(Wait::poll, (f1, s2, Some(id)), r1),
        *old(s3) == *final(s2),
        call_ensures(Signal::try_take, (s3,), again),
    ensures
        r0 is Pending,
        final(s0).waiter == Some(id),
        final(w).ready(id.prio(), id.idx()),
        final(w).pend,
        forall|p: int, i: int|
            !(p == id.prio() && i == id.idx()) ==> #[trigger] final(w).ready(p, i) == old(w).ready(
                p,
                i,
            ),
        r1 == Poll::Ready(()),
        !again,
{
}

/// A signal that nobody waits for wakes nobody and is remembered: it is taken
/// once, unless it is forgotten first.
pub proof fn law_signal_is_taken_once(
    s0: &mut Signal,
    s1: &mut Signal,
    s2: &mut Signal,
    s3: &mut Signal,
    s4: &mut Signal,
    w: &mut WakerState,
    h: &mut Harts,
    first: bool,
    second: bool,
    forgotten: bool,
)
    requires
        old(s0).waiter is None,
        call_ensures(Signal::signal, (s0, w, h), ()),
        *old(s1) == *final(s0),
        call_ensures(Signal::try_take, (s1,), first),
        *old(s2) == *final(s1),
        call_ensures(Signal::try_take, (s2,), second),
        *old(s3) == *final(s0),
        call_ensures(Signal::reset, (s3,), ()),
        *old(s4) == *final(s3),
        call_ensures(Signal::try_take, (s4,), forgotten),
    ensures
        *final(w) == *old(w),
        *final(h) == *old(h),
        first,
        !second,
        !forgotten,
{
}

/// A wait that is given up is no longer woken, and leaves a signal that has
/// fired to others.
pub proof fn law_cancelled_wait_is_forgotten(
    f0: &mut Wait,
    f1: &mut Wait,
    s0: &mut Signal,
    s1: &mut Signal,
    s2: &mut Signal,
    s3: &mut Signal,
    w: &mut WakerState,
    h: &mut Harts,
    id: TaskId,
    r0: Poll<()>,
    left: bool,
)
    requires
        !old(s0).fired,
        call_ensures(Wait::poll, (f0, s0, Some(id)), r0),
        *old(f1) == *final(f0),
        *old(s1) == *final(s0),
        call_ensures(Wait::cancel, (f1, s1), ()),
        *old(s2) == *final(s1),
        call_ensures(Signal::signal, (s2, w, h), ()),
        *old(s3) == *final(s2),
        call_ensures(Signal::try_take, (s3,), left),
    ensures
        r0 is Pending,
        *final(w) == *old(w),
        *final(h) == *old(h),
        left,
{
}

} // verus!
