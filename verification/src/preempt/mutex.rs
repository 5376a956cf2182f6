//! Priority-inheritance mutexes.
//!
//! While a task waits for a mutex, the holder runs at least at the waiter's
//! priority, so that nothing which the waiter could preempt can keep the
//! holder from giving the mutex back. Giving one mutex back keeps what the
//! holder inherits through the others.
use crate::config::{MAX_HARTS, PRIORITY_LEVELS};
use crate::port::arch;
use crate::preempt::lifecycle;
use crate::preempt::sched::{self, Preempt};
use crate::preempt::tcb::{HeldMutex, SlotState, Tcb, MAX_HELD, MAX_PTASKS, NO_TASK};
use crate::preempt::{self, SpawnError, TaskHandle, TaskSpec};
use crate::time::Duration;
use crate::timer::{self, TimerQueue};
use vstd::prelude::*;

verus! {

/// Why a mutex was not acquired.
#[derive(Clone, Copy, PartialEq, Eq, Structural, Debug)]
pub enum LockError {
    /// The calling task holds the mutex already.
    Recursive,
    /// The deadline passed first.
    Timeout,
    /// The calling task's list of held mutexes is full.
    TooManyHeldMutexes,
    /// There is no calling task.
    NotInTask,
    /// A holder faulted while it held the mutex; the data may be
    /// inconsistent.
    Poisoned,
}

/// The lock word of a mutex: everything but the data it guards.
#[derive(Clone, Copy)]
pub struct MutexCore {
    /// The mutex is held.
    pub locked: bool,
    /// The task that holds it.
    pub owner: usize,
    /// Tasks that wait for it.
    pub waiters: [usize; MAX_PTASKS],
    /// A holder faulted while it held the mutex.
    pub poisoned: bool,
}

/// A mutex: its place in the mutex table, and the data it guards.
pub struct PriorityMutex<T> {
    id: usize,
    data: T,
}

/// Possession of a mutex. It cannot be copied, and only taking the mutex
/// makes one.
pub struct PriorityMutexGuard {
    mutex: usize,
}

/// What one attempt to take a mutex brought.
pub enum LockStep {
    /// The mutex is taken.
    Acquired(PriorityMutexGuard),
    /// The attempt failed for good.
    Failed(LockError),
    /// The task is registered as a waiter and blocked: it gives up the
    /// processor, and tries again when it runs next.
    Blocked,
}

/// The greatest declared priority among the live tasks of `waiters`, 0 if
/// there is none.
pub open spec fn top_waiter(tasks: Seq<Tcb>, waiters: Seq<usize>) -> int
    decreases waiters.len(),
{
    if waiters.len() == 0 {
        0
    } else {
        let rest = top_waiter(tasks, waiters.drop_last());
        let w = waiters.last();
        if w < tasks.len() && tasks[w as int].used && tasks[w as int].base_priority > rest {
            tasks[w as int].base_priority as int
        } else {
            rest
        }
    }
}

/// The priority that a task with declared priority `base` has through the
/// mutexes of its held list: the declared one, or that of the greatest waiter
/// if it is greater.
pub open spec fn inherited(p: &Preempt, held: Seq<HeldMutex>, base: int) -> int
    decreases held.len(),
{
    if held.len() == 0 {
        base
    } else {
        let rest = inherited(p, held.drop_last(), base);
        match held.last().mutex {
            Some(m) => {
                let top = top_waiter(p.tasks@, p.mutexes@[m as int].waiters@);
                if top > rest {
                    top
                } else {
                    rest
                }
            },
            None => rest,
        }
    }
}

/// Every waiter's priority is below the top of the list that it is on.
proof fn lemma_top_waiter(tasks: Seq<Tcb>, waiters: Seq<usize>, i: int)
    requires
        0 <= i < waiters.len(),
        waiters[i] < tasks.len(),
        tasks[waiters[i] as int].used,
    ensures
        tasks[waiters[i] as int].base_priority <= top_waiter(tasks, waiters),
    decreases waiters.len(),
{
    if i < waiters.len() - 1 {
        assert(waiters.drop_last()[i] == waiters[i]);
        lemma_top_waiter(tasks, waiters.drop_last(), i);
    }
}

/// Tops lie within the priority levels.
proof fn lemma_top_range(p: &Preempt, waiters: Seq<usize>)
    requires
        p.slots_wf(),
    ensures
        0 <= top_waiter(p.tasks@, waiters) < PRIORITY_LEVELS,
    decreases waiters.len(),
{
    if waiters.len() > 0 {
        lemma_top_range(p, waiters.drop_last());
        let w = waiters.last();
        if w < MAX_PTASKS {
            assert(p.tasks[w as int].base_priority < PRIORITY_LEVELS);
        }
    }
}

/// What a task inherits is at least its declared priority, and at least the
/// top waiter of each mutex of the list.
proof fn lemma_inherited(p: &Preempt, held: Seq<HeldMutex>, base: int, i: int)
    requires
        0 <= i < held.len(),
        held[i].mutex is Some,
    ensures
        top_waiter(p.tasks@, p.mutexes@[held[i].mutex->0 as int].waiters@) <= inherited(
            p,
            held,
            base,
        ),
    decreases held.len(),
{
    if i < held.len() - 1 {
        assert(held.drop_last()[i] == held[i]);
        lemma_inherited(p, held.drop_last(), base, i);
    }
}

/// Task `x` is among the first `n` entries of the list of waiters.
pub open spec fn waits_within(word: MutexCore, x: int, n: int) -> bool {
    exists|i: int| 0 <= i < n && #[trigger] word.waiters[i] == x
}

/// Task `x` is on the list of waiters.
pub open spec fn waits(word: MutexCore, x: int) -> bool {
    waits_within(word, x, MAX_PTASKS as int)
}

/// Nobody is on the list of waiters.
pub open spec fn no_waiter(word: MutexCore) -> bool {
    forall|i: int| 0 <= i < MAX_PTASKS ==> #[trigger] word.waiters[i] == NO_TASK
}

/// Priority inheritance holds: a held mutex stands in its holder's list and in
/// no other, and there once; whoever waits is live and does not outrank the
/// holder; a free or poisoned mutex has no waiter.
pub open spec fn inherits(p: &Preempt) -> bool {
    &&& forall|m: int| 0 <= m < p.mutexes@.len() ==> #[trigger] inherits_at(p, m)
    &&& forall|x: int| 0 <= x < MAX_PTASKS ==> #[trigger] lists_its_own(p, x)
}

/// What stands in the held list of slot `x` is held by that slot, and stands
/// there once.
pub open spec fn lists_its_own(p: &Preempt, x: int) -> bool {
    forall|i: int|
        0 <= i < MAX_HELD ==> ((#[trigger] p.tasks[x].held[i]).mutex matches Some(m) ==> {
            &&& p.mutexes@[m as int].locked
            &&& p.mutexes@[m as int].owner == x
            &&& forall|j: int|
                0 <= j < MAX_HELD && j != i ==> (#[trigger] p.tasks[x].held[j]).mutex != Some(m)
        })
}

/// [`inherits`], for one mutex.
pub open spec fn inherits_at(p: &Preempt, m: int) -> bool {
    let word = p.mutexes@[m];
    &&& !word.locked || word.poisoned ==> no_waiter(word)
    &&& forall|i: int|
        0 <= i < MAX_PTASKS ==> #[trigger] word.waiters[i] == NO_TASK || p.live(
            word.waiters[i] as int,
        ) is Some
    &&& word.locked && !word.poisoned ==> {
        &&& p.live(word.owner as int) is Some
        &&& p.tasks[word.owner as int].holds(m as usize)
        &&& forall|i: int|
            0 <= i < MAX_PTASKS && p.live(#[trigger] word.waiters[i] as int) is Some
                ==> p.tasks[word.waiters[i] as int].base_priority <= p.eff(word.owner as int)
    }
}

/// The tasks after `me` lifted the holder `owner` to its own priority.
pub open spec fn boosted(p: &Preempt, me: int, owner: int) -> Seq<Tcb> {
    if p.live(me) is Some && p.live(owner) is Some && p.tasks[me].base_priority > p.eff(owner) {
        p.tasks@.update(
            owner,
            (Tcb { effective_priority: p.tasks[me].base_priority, ..p.tasks[owner] }),
        )
    } else {
        p.tasks@
    }
}

/// The mutex's word after `x` was put into the first free place of the list;
/// a full list stays as it is.
pub open spec fn with_waiter(pre: MutexCore, post: MutexCore, x: usize) -> bool {
    &&& post.locked == pre.locked
    &&& post.owner == pre.owner
    &&& post.poisoned == pre.poisoned
    &&& ({
        ||| (forall|i: int| 0 <= i < MAX_PTASKS ==> #[trigger] pre.waiters[i] != NO_TASK)
            && post.waiters@ == pre.waiters@
        ||| exists|i: int|
            {
                &&& 0 <= i < MAX_PTASKS
                &&& #[trigger] pre.waiters[i] == NO_TASK
                &&& forall|j: int| 0 <= j < i ==> #[trigger] pre.waiters[j] != NO_TASK
                &&& post.waiters@ == pre.waiters@.update(i, x)
            }
    })
}

/// The mutex's word without waiter `x`.
pub open spec fn without_waiter(pre: MutexCore, post: MutexCore, x: usize) -> bool {
    &&& post.locked == pre.locked
    &&& post.owner == pre.owner
    &&& post.poisoned == pre.poisoned
    &&& forall|i: int|
        0 <= i < MAX_PTASKS ==> #[trigger] post.waiters[i] == (if pre.waiters[i] == x {
            NO_TASK
        } else {
            pre.waiters[i]
        })
}

/// The task can record one more mutex.
pub open spec fn can_hold(t: Tcb) -> bool {
    t.held_count < MAX_HELD && exists|i: int|
        0 <= i < MAX_HELD && (#[trigger] t.held[i]).mutex is None
}

/// The task recorded mutex `m` in the first empty entry of its list.
pub open spec fn holding_one_more(pre: Tcb, post: Tcb, m: usize) -> bool {
    &&& exists|i: int|
        {
            &&& 0 <= i < MAX_HELD
            &&& (#[trigger] pre.held[i]).mutex is None
            &&& forall|j: int| 0 <= j < i ==> (#[trigger] pre.held[j]).mutex is Some
            &&& post.held@ == pre.held@.update(i, (HeldMutex { mutex: Some(m) }))
        }
    &&& post == (Tcb {
        held: post.held,
        held_count: (pre.held_count + 1) as u8,
        ..pre
    })
}

/// Everything outside slots, queues and lock words is as before.
pub open spec fn rest_same(pre: &Preempt, post: &Preempt) -> bool {
    &&& post.current == pre.current
    &&& post.dispatch_counter == pre.dispatch_counter
    &&& post.dispatch_seq == pre.dispatch_seq
    &&& post.cycle == pre.cycle
    &&& post.harts.hart == pre.harts.hart
}

/// Task `me` took mutex `m`.
pub open spec fn acquired(pre: &Preempt, post: &Preempt, m: int, me: usize) -> bool {
    &&& rest_same(pre, post)
    &&& post.harts == pre.harts
    &&& post.ready_at == pre.ready_at
    &&& post.queues == pre.queues
    &&& post.bitmap == pre.bitmap
    &&& post.mutexes@ == pre.mutexes@.update(
        m,
        (MutexCore { locked: true, owner: me, ..pre.mutexes@[m] }),
    )
    &&& holding_one_more(pre.tasks[me as int], post.tasks[me as int], m as usize)
    &&& post.tasks@ == pre.tasks@.update(me as int, post.tasks[me as int])
}

/// Task `me` registered as a waiter of mutex `m`, lifted the holder and
/// blocked.
pub open spec fn blocked(pre: &Preempt, post: &Preempt, m: int, me: usize) -> bool {
    &&& rest_same(pre, post)
    &&& post.ready_at == pre.ready_at
    &&& post.harts.resched@ == pre.harts.resched@.update(pre.harts.hart as int, true)
    &&& with_waiter(pre.mutexes@[m], post.mutexes@[m], me)
    &&& post.mutexes@ == pre.mutexes@.update(m, post.mutexes@[m])
    &&& post.tasks@ == ({
        let lifted = boosted(pre, me as int, pre.mutexes@[m].owner as int);
        if pre.live(me as int) is Some {
            lifted.update(me as int, (Tcb { state: SlotState::Blocked, ..lifted[me as int] }))
        } else {
            lifted
        }
    })
}

/// Task `me` stopped waiting for mutex `m`.
pub open spec fn gave_up(pre: &Preempt, post: &Preempt, m: int, me: usize) -> bool {
    &&& *post == (Preempt { mutexes: post.mutexes, ..*pre })
    &&& without_waiter(pre.mutexes@[m], post.mutexes@[m], me)
    &&& post.mutexes@ == pre.mutexes@.update(m, post.mutexes@[m])
}

/// A deadline that has come.
pub open spec fn overdue(deadline: Option<u64>, now: u64) -> bool {
    deadline is Some && now >= deadline->0
}

/// Everything that one attempt of task `me` to take mutex `m` can do, each
/// outcome with the states on which it comes.
pub open spec fn attempted(
    pre: &Preempt,
    post: &Preempt,
    pre_t: &TimerQueue,
    post_t: &TimerQueue,
    m: int,
    me: usize,
    deadline: Option<u64>,
    now: u64,
    r: LockStep,
) -> bool {
    let word = pre.mutexes@[m];
    if word.poisoned {
        &&& r == LockStep::Failed(LockError::Poisoned)
        &&& *post == *pre
        &&& *post_t == *pre_t
    } else if !word.locked && pre.live(me as int) is None {
        &&& r == LockStep::Failed(LockError::NotInTask)
        &&& *post == *pre
        &&& *post_t == *pre_t
    } else if !word.locked && !can_hold(pre.tasks[me as int]) {
        &&& r == LockStep::Failed(LockError::TooManyHeldMutexes)
        &&& *post == *pre
        &&& *post_t == *pre_t
    } else if !word.locked {
        &&& r matches LockStep::Acquired(g)
        &&& g.of() == m
        &&& acquired(pre, post, m, me)
        &&& *post_t == *pre_t
    } else if word.owner == me {
        &&& r == LockStep::Failed(LockError::Recursive)
        &&& *post == *pre
        &&& *post_t == *pre_t
    } else if overdue(deadline, now) {
        &&& r == LockStep::Failed(LockError::Timeout)
        &&& gave_up(pre, post, m, me)
        &&& timer::ptask_set(pre_t, post_t, me as int, 0)
    } else {
        &&& r is Blocked
        &&& blocked(pre, post, m, me)
        &&& match deadline {
            Some(d) => timer::ptask_armed(pre_t, post_t, me as int, d),
            None => *post_t == *pre_t,
        }
    }
}

impl PriorityMutexGuard {
    /// The mutex that is possessed.
    pub closed spec fn of(&self) -> int {
        self.mutex as int
    }
}

impl<T> PriorityMutex<T> {
    /// Place in the mutex table.
    pub closed spec fn place(&self) -> int {
        self.id as int
    }

    /// The guarded data.
    pub closed spec fn value(&self) -> T {
        self.data
    }

    /// The mutex has a lock word in the table.
    pub open spec fn wf(&self, p: &Preempt) -> bool {
        0 <= self.place() < p.mutexes@.len()
    }

    /// The mutex's lock word.
    pub open spec fn word(&self, p: &Preempt) -> MutexCore {
        p.mutexes@[self.place()]
    }

    /// A free mutex around `value`; its lock word goes to the end of the
    /// table.
    pub fn new(p: &mut Preempt, value: T) -> (r: Self)
        requires
            old(p).wf(),
            old(p).mutexes@.len() < usize::MAX,
        ensures
            final(p).wf(),
            r.wf(final(p)),
            r.place() == old(p).mutexes@.len(),
            r.value() == value,
            *final(p) == (Preempt { mutexes: final(p).mutexes, ..*old(p) }),
            final(p).mutexes@ == old(p).mutexes@.push(r.word(final(p))),
            !r.word(final(p)).locked,
            !r.word(final(p)).poisoned,
            r.word(final(p)).owner == NO_TASK,
            no_waiter(r.word(final(p))),
            inherits(old(p)) ==> inherits(final(p)),
    {
        let id: usize = p.mutexes.len();
        p.mutexes.push(
            MutexCore {
                locked: false,
                owner: NO_TASK,
                waiters: [NO_TASK; MAX_PTASKS],
                poisoned: false,
            },
        );
        proof {
            sched::lemma_same_slots(*old(p), *p);
            if inherits(old(p)) {
                lemma_lists_same(*old(p), *p);
                assert forall|m: int| 0 <= m < p.mutexes@.len() implies #[trigger] inherits_at(
                    p,
                    m,
                ) by {
                    if m < id {
                        assert(inherits_at(old(p), m));
                    }
                }
            }
        }
        PriorityMutex { id, data: value }
    }

    /// Whether a holder faulted while it held the mutex.
    pub fn is_poisoned(&self, p: &Preempt) -> (r: bool)
        requires
            self.wf(p),
        ensures
            r == self.word(p).poisoned,
    {
        p.mutexes[self.id].poisoned
    }

    /// Read the guarded data.
    pub fn get(&self, g: &PriorityMutexGuard) -> (r: &T)
        requires
            g.of() == self.place(),
        ensures
            *r == self.value(),
    {
        &self.data
    }

    /// Replace the guarded data.
    pub fn set(&mut self, g: &PriorityMutexGuard, value: T)
        requires
            g.of() == old(self).place(),
        ensures
            final(self).place() == old(self).place(),
            final(self).value() == value,
    {
        self.data = value;
    }

    /// Take the lock word for `me` if it is free.
    pub fn try_acquire(&self, p: &mut Preempt, me: usize) -> (r: bool)
        requires
            self.wf(old(p)),
            old(p).wf(),
        ensures
            final(p).wf(),
            r == !self.word(old(p)).locked,
            !r ==> *final(p) == *old(p),
            r ==> *final(p) == (Preempt { mutexes: final(p).mutexes, ..*old(p) }),
            r ==> final(p).mutexes@ == old(p).mutexes@.update(
                self.place(),
                (MutexCore { locked: true, owner: me, ..self.word(old(p)) }),
            ),
    {
        if p.mutexes[self.id].locked {
            return false;
        }
        p.mutexes[self.id].locked = true;
        p.mutexes[self.id].owner = me;
        proof {
            sched::lemma_same_slots(*old(p), *p);
        }
        true
    }

    /// Take the mutex for `me` and record it in the task's held list. When
    /// the list has no room the mutex stays free: it is never held without a
    /// guard to give it back.
    fn try_acquire_guarded(&self, p: &mut Preempt, me: usize) -> (r: Result<
        Option<PriorityMutexGuard>,
        LockError,
    >)
        requires
            self.wf(old(p)),
            old(p).wf(),
        ensures
            final(p).wf(),
            r matches Ok(Some(g)) ==> {
                &&& g.of() == self.place()
                &&& acquired(old(p), final(p), self.place(), me)
            },
            !(r matches Ok(Some(_))) ==> *final(p) == *old(p),
            r matches Ok(None) <==> self.word(old(p)).poisoned || self.word(old(p)).locked,
            r == Err::<Option<PriorityMutexGuard>, LockError>(LockError::NotInTask) <==> {
                &&& !self.word(old(p)).poisoned
                &&& !self.word(old(p)).locked
                &&& old(p).live(me as int) is None
            },
            r == Err::<Option<PriorityMutexGuard>, LockError>(LockError::TooManyHeldMutexes) <==> {
                &&& !self.word(old(p)).poisoned
                &&& !self.word(old(p)).locked
                &&& old(p).live(me as int) is Some
                &&& !can_hold(old(p).tasks[me as int])
            },
            r is Err ==> r->Err_0 == LockError::NotInTask || r->Err_0
                == LockError::TooManyHeldMutexes,
            inherits(old(p)) ==> inherits(final(p)),
    {
        if p.mutexes[self.id].poisoned || p.mutexes[self.id].locked {
            return Ok(None);
        }
        if me >= MAX_PTASKS || !p.tasks[me].used {
            return Err(LockError::NotInTask);
        }
        let mut slot = p.tasks[me];
        if !slot.push_held(self.id) {
            return Err(LockError::TooManyHeldMutexes);
        }
        p.tasks[me] = slot;
        let ghost mid = *p;
        proof {
            assert(mid.tasks@ =~= old(p).tasks@.update(me as int, mid.tasks[me as int]));
            assert forall|i: int| 0 <= i < MAX_HELD implies ((
            #[trigger] mid.tasks[me as int].held[i]).mutex matches Some(x) ==> x
                < old(p).mutexes@.len()) by {
                let k = choose|k: int|
                    {
                        &&& 0 <= k < MAX_HELD
                        &&& (#[trigger] old(p).tasks[me as int].held[k]).mutex is None
                        &&& forall|j: int|
                            0 <= j < k ==> (
                            #[trigger] old(p).tasks[me as int].held[j]).mutex is Some
                        &&& mid.tasks[me as int].held@ == old(p).tasks[me as int].held@.update(
                            k,
                            (HeldMutex { mutex: Some(self.id) }),
                        )
                    };
                if i != k {
                    assert(mid.tasks[me as int].held[i] == old(p).tasks[me as int].held[i]);
                }
            }
            assert(forall|q: int, x: int| #[trigger] mid.in_queue(q, x) == old(p).in_queue(q, x));
            assert(old(p).ready(me as int) ==> old(p).in_queue(old(p).eff(me as int), me as int));
            sched::lemma_slot_changed(*old(p), mid, me as int, mid.tasks[me as int]);
        }
        let ok = self.try_acquire(p, me);
        let ghost count: usize = p.mutexes.len();
        proof {
            if inherits(old(p)) {
                lemma_acquire_inherits(*old(p), *p, self.place(), me);
            }
        }
        Ok(Some(PriorityMutexGuard { mutex: self.id }))
    }

    /// Take the mutex if it is free, in the name of the running task.
    pub fn try_lock(&self, p: &mut Preempt) -> (r: Option<PriorityMutexGuard>)
        requires
            self.wf(old(p)),
            old(p).wf(),
        ensures
            final(p).wf(),
            r is Some <==> {
                &&& old(p).running() is Some
                &&& !self.word(old(p)).poisoned
                &&& !self.word(old(p)).locked
                &&& old(p).live(old(p).running()->0 as int) is Some
                &&& can_hold(old(p).tasks[old(p).running()->0 as int])
            },
            r matches Some(g) ==> {
                &&& g.of() == self.place()
                &&& acquired(old(p), final(p), self.place(), old(p).running()->0)
            },
            r is None ==> *final(p) == *old(p),
            inherits(old(p)) ==> inherits(final(p)),
    {
        match sched::current(p) {
            None => None,
            Some(me) => {
                match self.try_acquire_guarded(p, me) {
                    Ok(g) => g,
                    Err(_) => None,
                }
            },
        }
    }

    /// Highest declared priority among the live waiters, 0 if there is none.
    pub fn highest_waiter_priority(&self, p: &Preempt) -> (r: u8)
        requires
            p.slots_wf(),
            self.wf(p),
        ensures
            r == top_waiter(p.tasks@, self.word(p).waiters@),
            r < PRIORITY_LEVELS,
    {
        highest_waiter(p, self.id)
    }

    /// Lift the holder to the priority of `me`, if that is higher.
    fn boost_holder(&self, p: &mut Preempt, me: usize)
        requires
            self.wf(old(p)),
            old(p).wf(),
        ensures
            final(p).wf(),
            final(p).frame(old(p)),
            final(p).harts == old(p).harts,
            final(p).ready_at == old(p).ready_at,
            final(p).tasks@ == boosted(old(p), me as int, self.word(old(p)).owner as int),
    {
        let owner: usize = p.mutexes[self.id].owner;
        if me < MAX_PTASKS && p.tasks[me].used && owner < MAX_PTASKS && p.tasks[owner].used {
            let base: u8 = p.tasks[me].base_priority;
            if base > p.tasks[owner].effective_priority {
                Tcb::set_effective_priority(p, owner, base);
            }
        }
    }

    /// Put `id` into the first free place of the list of waiters.
    fn add_waiter(&self, p: &mut Preempt, id: usize)
        requires
            self.wf(old(p)),
            old(p).wf(),
        ensures
            final(p).wf(),
            *final(p) == (Preempt { mutexes: final(p).mutexes, ..*old(p) }),
            with_waiter(self.word(old(p)), self.word(final(p)), id),
            final(p).mutexes@ == old(p).mutexes@.update(self.place(), self.word(final(p))),
    {
        let m: usize = self.id;
        let mut i: usize = 0;
        while i < MAX_PTASKS
            invariant
                i <= MAX_PTASKS,
                m == self.id,
                *p == *old(p),
                p.wf(),
                m < p.mutexes@.len(),
                forall|j: int|
                    0 <= j < i ==> #[trigger] p.mutexes@[m as int].waiters[j] != NO_TASK,
            decreases MAX_PTASKS - i,
        {
            if p.mutexes[m].waiters[i] == NO_TASK {
                assert(self.word(old(p)).waiters[i as int] == NO_TASK);
                p.mutexes[m].waiters[i] = id;
                proof {
                    sched::lemma_same_slots(*old(p), *p);
                }
                return ;
            }
            i = i + 1;
        }
        assert(p.mutexes@ =~= old(p).mutexes@.update(self.place(), self.word(p)));
    }

    /// Take `id` off the list of waiters.
    fn remove_waiter(&self, p: &mut Preempt, id: usize)
        requires
            self.wf(old(p)),
            old(p).wf(),
        ensures
            final(p).wf(),
            gave_up(old(p), final(p), self.place(), id),
    {
        let m: usize = self.id;
        let mut i: usize = 0;
        while i < MAX_PTASKS
            invariant
                i <= MAX_PTASKS,
                m == self.id,
                self.wf(old(p)),
                *p == (Preempt { mutexes: p.mutexes, ..*old(p) }),
                p.mutexes@ == old(p).mutexes@.update(m as int, p.mutexes@[m as int]),
                p.mutexes@[m as int] == (MutexCore {
                    waiters: p.mutexes@[m as int].waiters,
                    ..self.word(old(p))
                }),
                m < p.mutexes@.len(),
                forall|j: int|
                    0 <= j < i ==> #[trigger] p.mutexes@[m as int].waiters[j] == (if self.word(
                        old(p),
                    ).waiters[j] == id {
                        NO_TASK
                    } else {
                        self.word(old(p)).waiters[j]
                    }),
                forall|j: int|
                    i <= j < MAX_PTASKS ==> #[trigger] p.mutexes@[m as int].waiters[j]
                        == self.word(old(p)).waiters[j],
            decreases MAX_PTASKS - i,
        {
            if p.mutexes[m].waiters[i] == id {
                p.mutexes[m].waiters[i] = NO_TASK;
            }
            i = i + 1;
        }
        proof {
            sched::lemma_same_slots(*old(p), *p);
        }
    }

    /// One attempt of task `me` to take the mutex, without interruption: the
    /// mutex is tested and the task registered as a waiter in one step, so a
    /// release cannot fall between the two. `deadline` is the end of the
    /// wait, if it has one.
    pub fn lock_step(
        &self,
        p: &mut Preempt,
        t: &mut TimerQueue,
        me: usize,
        deadline: Option<u64>,
        now: u64,
    ) -> (r: LockStep)
        requires
            self.wf(old(p)),
            old(p).wf(),
            old(t).wf(),
            old(p).running() == Some(me),
        ensures
            final(p).wf(),
            final(t).wf(),
            attempted(old(p), final(p), old(t), final(t), self.place(), me, deadline, now, r),
            inherits(old(p)) && old(p).live(me as int) is Some ==> inherits(final(p)),
    {
        if p.mutexes[self.id].poisoned {
            return LockStep::Failed(LockError::Poisoned);
        }
        match self.try_acquire_guarded(p, me) {
            Ok(Some(g)) => {
                return LockStep::Acquired(g);
            },
            Ok(None) => {},
            Err(e) => {
                return LockStep::Failed(e);
            },
        }
        if p.mutexes[self.id].owner == me {
            return LockStep::Failed(LockError::Recursive);
        }
        if let Some(d) = deadline {
            if now >= d {
                // A later release must not wake a task that waits no more.
                self.remove_waiter(p, me);
                timer::cancel_ptask_deadline(t, me);
                proof {
                    if inherits(old(p)) && old(p).live(me as int) is Some {
                        lemma_gave_up_inherits(*old(p), *p, self.place(), me);
                    }
                }
                return LockStep::Failed(LockError::Timeout);
            }
        }
        self.boost_holder(p, me);
        let ghost lifted = *p;
        self.add_waiter(p, me);
        if let Some(d) = deadline {
            let _ = timer::register_ptask_deadline(t, d, me);
        }
        sched::block_current(p);
        let ghost parked = *p;
        arch::request_reschedule(&mut p.harts);
        proof {
            sched::lemma_same_slots(parked, *p);
            if inherits(old(p)) && old(p).live(me as int) is Some {
                lemma_blocked_inherits(*old(p), *p, self.place(), me);
            }
        }
        LockStep::Blocked
    }

    /// The end of a wait that starts now.
    pub open spec fn wait_end(timeout: Option<Duration>, now: u64) -> Option<u64> {
        match timeout {
            Some(d) => Some(((now + d.micros()) % 0x1_0000_0000_0000_0000) as u64),
            None => None,
        }
    }

    /// Begin to take the mutex, waiting at most `timeout` (for ever without
    /// one). Besides the outcome of the first attempt this returns the end of
    /// the wait: a blocked task goes on with
    /// [`lock_step`](PriorityMutex::lock_step) and that time.
    pub fn lock_timeout(
        &self,
        p: &mut Preempt,
        t: &mut TimerQueue,
        timeout: Option<Duration>,
        now: u64,
    ) -> (r: (LockStep, Option<u64>))
        requires
            self.wf(old(p)),
            old(p).wf(),
            old(t).wf(),
        ensures
            final(p).wf(),
            final(t).wf(),
            r.1 == Self::wait_end(timeout, now),
            match old(p).running() {
                None => {
                    &&& r.0 == LockStep::Failed(LockError::NotInTask)
                    &&& *final(p) == *old(p)
                    &&& *final(t) == *old(t)
                },
                Some(me) => attempted(
                    old(p),
                    final(p),
                    old(t),
                    final(t),
                    self.place(),
                    me,
                    Self::wait_end(timeout, now),
                    now,
                    r.0,
                ),
            },
            inherits(old(p)) && (old(p).running() matches Some(me) ==> old(p).live(me as int) is Some)
                ==> inherits(final(p)),
    {
        let deadline = match timeout {
            Some(d) => Some(now.wrapping_add(d.as_micros())),
            None => None,
        };
        match sched::current(p) {
            None => (LockStep::Failed(LockError::NotInTask), deadline),
            Some(me) => {
                let step = self.lock_step(p, t, me, deadline, now);
                (step, deadline)
            },
        }
    }

    /// Take the mutex, waiting as long as it takes. There must be a running
    /// task that does not hold the mutex and has room to record it, and the
    /// mutex must not be poisoned.
    ///
    /// None means that the task is blocked; it calls again when it runs next.
    pub fn lock(&self, p: &mut Preempt, t: &mut TimerQueue, now: u64) -> (r: Option<
        PriorityMutexGuard,
    >)
        requires
            self.wf(old(p)),
            old(p).wf(),
            old(t).wf(),
            old(p).running() is Some,
            old(p).live(old(p).running()->0 as int) is Some,
            can_hold(old(p).tasks[old(p).running()->0 as int]),
            !self.word(old(p)).poisoned,
            self.word(old(p)).locked ==> self.word(old(p)).owner != old(p).running()->0,
        ensures
            final(p).wf(),
            final(t).wf(),
            *final(t) == *old(t),
            r is Some <==> !self.word(old(p)).locked,
            r matches Some(g) ==> {
                &&& g.of() == self.place()
                &&& acquired(old(p), final(p), self.place(), old(p).running()->0)
            },
            r is None ==> blocked(old(p), final(p), self.place(), old(p).running()->0),
            inherits(old(p)) ==> inherits(final(p)),
    {
        let (step, _) = self.lock_timeout(p, t, None, now);
        match step {
            LockStep::Acquired(g) => Some(g),
            _ => None,
        }
    }
}

/// The greatest declared priority among the live waiters of mutex `m`.
fn highest_waiter(p: &Preempt, m: usize) -> (r: u8)
    requires
        p.slots_wf(),
        m < p.mutexes@.len(),
    ensures
        r == top_waiter(p.tasks@, p.mutexes@[m as int].waiters@),
        r < PRIORITY_LEVELS,
{
    let mut max: u8 = 0;
    let mut i: usize = 0;
    let ghost waiters = p.mutexes@[m as int].waiters@;
    while i < MAX_PTASKS
        invariant
            i <= MAX_PTASKS,
            m < p.mutexes@.len(),
            waiters == p.mutexes@[m as int].waiters@,
            max == top_waiter(p.tasks@, waiters.take(i as int)),
        decreases MAX_PTASKS - i,
    {
        let id: usize = p.mutexes[m].waiters[i];
        assert(waiters.take(i + 1).drop_last() =~= waiters.take(i as int));
        assert(waiters.take(i + 1).last() == id);
        if id < MAX_PTASKS && p.tasks[id].used {
            let b: u8 = p.tasks[id].base_priority;
            if b > max {
                max = b;
            }
        }
        i = i + 1;
    }
    proof {
        assert(waiters.take(MAX_PTASKS as int) =~= waiters);
        lemma_top_range(p, waiters);
    }
    max
}

/// The priority that task `id` has through the mutexes it holds.
fn inherited_priority(p: &Preempt, id: usize) -> (r: u8)
    requires
        p.slots_wf(),
        id < MAX_PTASKS,
    ensures
        r == inherited(
            p,
            p.tasks[id as int].held@,
            p.tasks[id as int].base_priority as int,
        ),
        r < PRIORITY_LEVELS,
{
    let mut eff: u8 = p.tasks[id].base_priority;
    let mut i: usize = 0;
    let ghost held = p.tasks[id as int].held@;
    let ghost base = p.tasks[id as int].base_priority as int;
    assert(p.tasks[id as int].base_priority < PRIORITY_LEVELS);
    while i < MAX_HELD
        invariant
            i <= MAX_HELD,
            p.slots_wf(),
            id < MAX_PTASKS,
            held == p.tasks[id as int].held@,
            base == p.tasks[id as int].base_priority,
            eff == inherited(p, held.take(i as int), base),
            eff < PRIORITY_LEVELS,
        decreases MAX_HELD - i,
    {
        assert(held.take(i + 1).drop_last() =~= held.take(i as int));
        assert(held.take(i + 1).last() == p.tasks[id as int].held[i as int]);
        if let Some(m) = p.tasks[id].held[i].mutex {
            let top: u8 = highest_waiter(p, m);
            if top > eff {
                eff = top;
            }
        }
        i = i + 1;
    }
    assert(held.take(MAX_HELD as int) =~= held);
    eff
}

/// Taking a free mutex keeps priority inheritance.
proof fn lemma_acquire_inherits(pre: Preempt, post: Preempt, m: int, me: usize)
    requires
        inherits(&pre),
        acquired(&pre, &post, m, me),
        0 <= m < pre.mutexes@.len(),
        pre.mutexes@.len() <= usize::MAX,
        !pre.mutexes@[m].locked,
        pre.slots_wf(),
        pre.live(me as int) is Some,
    ensures
        inherits(&post),
{
    let t0 = pre.tasks[me as int];
    let t1 = post.tasks[me as int];
    let k = choose|i: int|
        {
            &&& 0 <= i < MAX_HELD
            &&& (#[trigger] t0.held[i]).mutex is None
            &&& forall|j: int| 0 <= j < i ==> (#[trigger] t0.held[j]).mutex is Some
            &&& t1.held@ == t0.held@.update(i, (HeldMutex { mutex: Some(m as usize) }))
        };
    assert(t1.held[k].mutex == Some(m as usize));
    assert forall|x: int| 0 <= x < MAX_PTASKS implies #[trigger] lists_its_own(&post, x) by {
        assert(lists_its_own(&pre, x));
        assert(post.tasks[x] == post.tasks@[x]);
        assert forall|i: int| 0 <= i < MAX_HELD implies ((
        #[trigger] post.tasks[x].held[i]).mutex matches Some(n) ==> {
            &&& post.mutexes@[n as int].locked
            &&& post.mutexes@[n as int].owner == x
            &&& forall|j: int|
                0 <= j < MAX_HELD && j != i ==> (#[trigger] post.tasks[x].held[j]).mutex != Some(n)
        }) by {
            assert(post.tasks[x].held[i] == if x == me && i == k {
                HeldMutex { mutex: Some(m as usize) }
            } else {
                pre.tasks[x].held[i]
            });
            if let Some(n) = post.tasks[x].held[i].mutex {
                assert forall|j: int| 0 <= j < MAX_HELD && j != i implies (
                #[trigger] post.tasks[x].held[j]).mutex != Some(n) by {
                    assert(post.tasks[x].held[j] == if x == me && j == k {
                        HeldMutex { mutex: Some(m as usize) }
                    } else {
                        pre.tasks[x].held[j]
                    });
                    // What was free before stood in no list.
                    assert(pre.tasks[x].held[j].mutex != Some(m as usize));
                    assert(pre.tasks[x].held[i].mutex != Some(m as usize));
                }
            }
        }
    }
    assert forall|n: int| 0 <= n < post.mutexes@.len() implies #[trigger] inherits_at(
        &post,
        n,
    ) by {
        assert(inherits_at(&pre, n));
        let word = pre.mutexes@[n];
        assert forall|x: int| #[trigger] post.live(x) is Some == pre.live(x) is Some by {}
        if n == m {
            assert(no_waiter(word));
        } else if word.locked && !word.poisoned && word.owner == me {
            let i = choose|i: int|
                0 <= i < MAX_HELD && (#[trigger] t0.held[i]).mutex == Some(n as usize);
            assert(t1.held[i].mutex == Some(n as usize));
            assert(t1.holds(n as usize));
        }
    }
}

/// Giving up keeps priority inheritance.
proof fn lemma_gave_up_inherits(pre: Preempt, post: Preempt, m: int, me: usize)
    requires
        inherits(&pre),
        gave_up(&pre, &post, m, me),
        pre.slots_wf(),
        0 <= m < pre.mutexes@.len(),
        me < MAX_PTASKS,
    ensures
        inherits(&post),
{
    lemma_lists_same(pre, post);
    assert forall|n: int| 0 <= n < post.mutexes@.len() implies #[trigger] inherits_at(
        &post,
        n,
    ) by {
        assert(inherits_at(&pre, n));
        let word = pre.mutexes@[n];
        assert forall|x: int| #[trigger] post.live(x) == pre.live(x) by {}
        if n == m {
            assert forall|i: int| 0 <= i < MAX_PTASKS implies #[trigger]
                post.mutexes@[n].waiters[i] == (if word.waiters[i] == me {
                NO_TASK
            } else {
                word.waiters[i]
            }) by {}
        }
    }
}

/// Blocking on a held mutex keeps priority inheritance: that is what lifting
/// the holder is for.
proof fn lemma_blocked_inherits(pre: Preempt, post: Preempt, m: int, me: usize)
    requires
        inherits(&pre),
        blocked(&pre, &post, m, me),
        0 <= m < pre.mutexes@.len(),
        pre.mutexes@[m].locked,
        !pre.mutexes@[m].poisoned,
        pre.mutexes@[m].owner != me,
        pre.slots_wf(),
        pre.live(me as int) is Some,
    ensures
        inherits(&post),
{
    let owner = pre.mutexes@[m].owner as int;
    assert forall|x: int| 0 <= x < MAX_PTASKS implies {
        &&& #[trigger] post.tasks[x].used == pre.tasks[x].used
        &&& post.tasks[x].base_priority == pre.tasks[x].base_priority
        &&& post.tasks[x].held == pre.tasks[x].held
        &&& post.eff(x) >= pre.eff(x)
    } by {
        assert(post.tasks[x] == post.tasks@[x]);
    }
    assert forall|x: int| 0 <= x < MAX_PTASKS implies (#[trigger] post.tasks[x]).held
        == pre.tasks[x].held by {
        assert(post.tasks[x].used == pre.tasks[x].used);
    }
    lemma_lists_same(pre, post);
    assert forall|n: int| 0 <= n < post.mutexes@.len() implies #[trigger] inherits_at(
        &post,
        n,
    ) by {
        assert(inherits_at(&pre, n));
        let word = pre.mutexes@[n];
        assert forall|x: int| #[trigger] post.live(x) is Some == pre.live(x) is Some by {}
        if word.locked && !word.poisoned {
            let o = word.owner as int;
            let i = choose|i: int|
                0 <= i < MAX_HELD && (#[trigger] pre.tasks[o].held[i]).mutex == Some(n as usize);
            assert(post.tasks[o].held[i].mutex == Some(n as usize));
            assert(post.tasks[o].holds(n as usize));
        }
        if n == m {
            assert forall|i: int|
                0 <= i < MAX_PTASKS && post.live(
                    #[trigger] post.mutexes@[n].waiters[i] as int,
                ) is Some implies post.tasks[post.mutexes@[n].waiters[i] as int].base_priority
                <= post.eff(owner) by {
                let w = post.mutexes@[n].waiters[i];
                assert(w == word.waiters[i] || w == me);
                assert(post.tasks[w as int].base_priority == pre.tasks[w as int].base_priority);
                assert(post.tasks[owner] == post.tasks@[owner]);
            }
        }
    }
}

/// The first `n` waiters of mutex `m` were taken off its list and made ready,
/// and their deadlines forgotten; the other harts were told if that woke a
/// task.
pub open spec fn woken_within(
    pre: &Preempt,
    post: &Preempt,
    pre_t: &TimerQueue,
    post_t: &TimerQueue,
    m: int,
    n: int,
) -> bool {
    let word = pre.mutexes@[m];
    &&& rest_same(pre, post)
    &&& forall|i: int|
        0 <= i < MAX_PTASKS ==> #[trigger] post.mutexes@[m].waiters[i] == (if i < n {
            NO_TASK
        } else {
            word.waiters[i]
        })
    &&& post.mutexes@ == pre.mutexes@.update(
        m,
        (MutexCore { waiters: post.mutexes@[m].waiters, ..word }),
    )
    &&& forall|x: int|
        0 <= x < MAX_PTASKS ==> #[trigger] post.tasks[x] == (if waits_within(word, x, n)
            && pre.tasks[x].used {
            Tcb { state: SlotState::Ready, ..pre.tasks[x] }
        } else {
            pre.tasks[x]
        })
    &&& forall|x: int|
        0 <= x < MAX_PTASKS ==> #[trigger] post.ready_at[x] == (if waits_within(word, x, n)
            && pre.tasks[x].used {
            pre.cycle
        } else {
            pre.ready_at[x]
        })
    &&& forall|h: int|
        0 <= h < MAX_HARTS ==> #[trigger] post.harts.resched[h] == (pre.harts.resched[h] || (h
            != pre.harts.hart && exists|x: int|
            #[trigger] waits_within(word, x, n) && pre.live(x) is Some))
    &&& post_t.slots == pre_t.slots
    &&& post_t.next == pre_t.next
    &&& forall|x: int|
        0 <= x < MAX_PTASKS ==> #[trigger] post_t.ptask[x] == (if waits_within(word, x, n) {
            0
        } else {
            pre_t.ptask[x]
        })
}

/// Every waiter of mutex `m` was woken.
pub open spec fn all_woken(
    pre: &Preempt,
    post: &Preempt,
    pre_t: &TimerQueue,
    post_t: &TimerQueue,
    m: int,
) -> bool {
    woken_within(pre, post, pre_t, post_t, m, MAX_PTASKS as int)
}

/// Wake every waiter of mutex `m`; each tries again when it runs.
fn wake_all_waiters(p: &mut Preempt, t: &mut TimerQueue, m: usize)
    requires
        old(p).wf(),
        old(t).wf(),
        m < old(p).mutexes@.len(),
    ensures
        final(p).wf(),
        final(t).wf(),
        all_woken(old(p), final(p), old(t), final(t), m as int),
{
    let ghost pre = *p;
    let ghost pre_t = *t;
    let ghost word = p.mutexes@[m as int];
    let mut i: usize = 0;
    assert(p.mutexes@ =~= pre.mutexes@.update(
        m as int,
        (MutexCore { waiters: p.mutexes@[m as int].waiters, ..word }),
    ));
    while i < MAX_PTASKS
        invariant
            i <= MAX_PTASKS,
            p.wf(),
            t.wf(),
            m < p.mutexes@.len(),
            m < pre.mutexes@.len(),
            word == pre.mutexes@[m as int],
            woken_within(&pre, p, &pre_t, t, m as int, i as int),
        decreases MAX_PTASKS - i,
    {
        let ghost before = *p;
        let ghost before_t = *t;
        let id: usize = p.mutexes[m].waiters[i];
        assert(before.mutexes@[m as int].waiters[i as int] == word.waiters[i as int]);
        p.mutexes[m].waiters[i] = NO_TASK;
        let ghost cleared = *p;
        proof {
            sched::lemma_same_slots(before, cleared);
        }
        if id != NO_TASK {
            sched::unblock(p, id);
            timer::cancel_ptask_deadline(t, id);
        }
        proof {
            let n = i as int;
            assert forall|x: int| #[trigger] waits_within(word, x, n + 1) == (waits_within(
                word,
                x,
                n,
            ) || x == id) by {
                if x == id {
                    assert(word.waiters[n] == x);
                }
            }
            assert(cleared.live(id as int) is Some == pre.live(id as int) is Some);
            assert forall|x: int| 0 <= x < MAX_PTASKS implies #[trigger] p.tasks[x] == (
            if waits_within(word, x, n + 1) && pre.tasks[x].used {
                Tcb { state: SlotState::Ready, ..pre.tasks[x] }
            } else {
                pre.tasks[x]
            }) by {
                assert(before.tasks[x].used == pre.tasks[x].used);
            }
            assert forall|x: int| 0 <= x < MAX_PTASKS implies #[trigger] p.ready_at[x] == (
            if waits_within(word, x, n + 1) && pre.tasks[x].used {
                pre.cycle
            } else {
                pre.ready_at[x]
            }) by {
                assert(before.tasks[x].used == pre.tasks[x].used);
                assert(before.ready_at[x] == cleared.ready_at[x]);
            }
            assert forall|x: int| 0 <= x < MAX_PTASKS implies #[trigger] t.ptask[x] == (
            if waits_within(word, x, n + 1) {
                0
            } else {
                pre_t.ptask[x]
            }) by {
                assert(before_t.ptask[x] == before_t.ptask@[x]);
                assert(t.ptask[x] == t.ptask@[x]);
            }
            assert(p.mutexes == cleared.mutexes);
            assert(p.mutexes@ =~= pre.mutexes@.update(
                m as int,
                (MutexCore { waiters: p.mutexes@[m as int].waiters, ..word }),
            ));
            assert(pre.live(id as int) is Some ==> waits_within(word, id as int, n + 1));
            assert forall|h: int| 0 <= h < MAX_HARTS implies #[trigger] p.harts.resched[h] == (
            pre.harts.resched[h] || (h != pre.harts.hart && exists|x: int|
                #[trigger] waits_within(word, x, n + 1) && pre.live(x) is Some)) by {
                assert(before.harts.resched[h] == cleared.harts.resched[h]);
                if exists|x: int| #[trigger] waits_within(word, x, n) && pre.live(x) is Some {
                    let x = choose|x: int|
                        #[trigger] waits_within(word, x, n) && pre.live(x) is Some;
                    assert(waits_within(word, x, n + 1));
                }
            }
        }
        i = i + 1;
    }
}

/// Mark mutex `m` as poisoned and wake its waiters, so that they see it.
pub fn poison_mutex(p: &mut Preempt, t: &mut TimerQueue, m: usize)
    requires
        old(p).wf(),
        old(t).wf(),
        m < old(p).mutexes@.len(),
    ensures
        final(p).wf(),
        final(t).wf(),
        poisoned(old(p), final(p), old(t), final(t), m as int),
        inherits(old(p)) ==> inherits(final(p)),
{
    p.mutexes[m].poisoned = true;
    proof {
        sched::lemma_same_slots(*old(p), *p);
    }
    let ghost marked = *p;
    wake_all_waiters(p, t, m);
    proof {
        let pre = *old(p);
        assert(marked.mutexes@ =~= pre.mutexes@.update(
            m as int,
            (MutexCore { poisoned: true, ..pre.mutexes@[m as int] }),
        ));
        assert(marked == (Preempt { mutexes: marked.mutexes, ..pre }));
        if inherits(&pre) {
            lemma_lists_same(pre, *p);
            assert forall|n: int| 0 <= n < p.mutexes@.len() implies #[trigger] inherits_at(
                p,
                n,
            ) by {
                assert(inherits_at(&pre, n));
                lemma_woken_inherits(marked, *p, *old(t), *t, m as int, n);
            }
        }
    }
}

/// Mutex `m` was marked as poisoned, and its waiters woken.
pub open spec fn poisoned(
    pre: &Preempt,
    post: &Preempt,
    pre_t: &TimerQueue,
    post_t: &TimerQueue,
    m: int,
) -> bool {
    exists|mid: Preempt|
        {
            &&& mid == (Preempt { mutexes: mid.mutexes, ..*pre })
            &&& mid.mutexes@ == pre.mutexes@.update(
                m,
                (MutexCore { poisoned: true, ..pre.mutexes@[m] }),
            )
            &&& #[trigger] all_woken(&mid, post, pre_t, post_t, m)
        }
}

/// Waking the waiters of one mutex keeps priority inheritance at another, and
/// at the same one if it held before.
proof fn lemma_woken_inherits(
    pre: Preempt,
    post: Preempt,
    pre_t: TimerQueue,
    post_t: TimerQueue,
    m: int,
    n: int,
)
    requires
        all_woken(&pre, &post, &pre_t, &post_t, m),
        0 <= m < pre.mutexes@.len(),
        0 <= n < pre.mutexes@.len(),
        n != m ==> inherits_at(&pre, n),
        n == m && pre.mutexes@[m].locked && !pre.mutexes@[m].poisoned ==> pre.live(
            pre.mutexes@[m].owner as int,
        ) is Some && pre.tasks[pre.mutexes@[m].owner as int].holds(m as usize),
    ensures
        inherits_at(&post, n),
{
    assert forall|x: int| 0 <= x < MAX_PTASKS implies {
        &&& #[trigger] post.tasks[x].used == pre.tasks[x].used
        &&& post.tasks[x].base_priority == pre.tasks[x].base_priority
        &&& post.tasks[x].held == pre.tasks[x].held
        &&& post.eff(x) == pre.eff(x)
    } by {}
    assert forall|x: int| #[trigger] post.live(x) is Some == pre.live(x) is Some by {
        if 0 <= x < MAX_PTASKS {
            assert(post.tasks[x].used == pre.tasks[x].used);
        }
    }
    let word = pre.mutexes@[n];
    if word.locked && !word.poisoned {
        let o = word.owner as int;
        assert(post.tasks[o].held == pre.tasks[o].held);
        let i = choose|i: int|
            0 <= i < MAX_HELD && (#[trigger] pre.tasks[o].held[i]).mutex == Some(n as usize);
        assert(post.tasks[o].held[i].mutex == Some(n as usize));
        assert(post.tasks[o].holds(n as usize));
    }
    if n == m {
        assert(no_waiter(post.mutexes@[n]));
        assert forall|i: int| 0 <= i < MAX_PTASKS implies #[trigger]
            post.mutexes@[n].waiters[i] == NO_TASK by {}
    }
}

/// The holder of mutex `m` let go of it: the mutex is free, it is off the
/// holder's list, and the holder's priority is what it inherits through the
/// rest of that list.
pub open spec fn let_go(pre: &Preempt, mid: &Preempt, m: int) -> bool {
    let owner = pre.mutexes@[m].owner as int;
    &&& mid.mutexes@ == pre.mutexes@.update(
        m,
        (MutexCore { locked: false, owner: NO_TASK, ..pre.mutexes@[m] }),
    )
    &&& rest_same(pre, mid)
    &&& mid.harts == pre.harts
    &&& mid.ready_at == pre.ready_at
    &&& pre.live(owner) is None ==> mid.tasks == pre.tasks
    &&& pre.live(owner) is Some ==> {
        let t0 = pre.tasks[owner];
        let t1 = mid.tasks[owner];
        &&& mid.tasks@ == pre.tasks@.update(owner, t1)
        &&& t1 == (Tcb {
            held: t1.held,
            held_count: t1.held_count,
            effective_priority: t1.effective_priority,
            ..t0
        })
        &&& released(t0, t1, m as usize)
        &&& t1.effective_priority == inherited(pre, t1.held@, t0.base_priority as int)
    }
}

/// The first entry of the held list that names `m` was emptied.
pub open spec fn released(t0: Tcb, t1: Tcb, m: usize) -> bool {
    if t0.holds(m) {
        &&& exists|i: int|
            {
                &&& 0 <= i < MAX_HELD
                &&& (#[trigger] t0.held[i]).mutex == Some(m)
                &&& forall|j: int| 0 <= j < i ==> (#[trigger] t0.held[j]).mutex != Some(m)
                &&& t1.held@ == t0.held@.update(i, (HeldMutex { mutex: None }))
            }
        &&& t1.held_count == (if t0.held_count == 0 {
            255
        } else {
            t0.held_count - 1
        })
    } else {
        t1.held == t0.held && t1.held_count == t0.held_count
    }
}

/// Mutex `m` was given back: its holder let go of it, its waiters were woken,
/// and the executing hart is to run the scheduler.
pub open spec fn unlocked(
    pre: &Preempt,
    post: &Preempt,
    pre_t: &TimerQueue,
    post_t: &TimerQueue,
    m: int,
) -> bool {
    exists|mid: Preempt, woken: Preempt|
        {
            &&& #[trigger] let_go(pre, &mid, m)
            &&& #[trigger] all_woken(&mid, &woken, pre_t, post_t, m)
            &&& *post == (Preempt { harts: post.harts, ..woken })
            &&& post.harts.hart == woken.harts.hart
            &&& post.harts.resched@ == woken.harts.resched@.update(woken.harts.hart as int, true)
        }
}

impl PriorityMutexGuard {
    /// Give the mutex back. The holder's priority falls to what it still
    /// inherits, every waiter is woken, and the scheduler gets a chance to
    /// run one of them at once.
    pub fn drop(self, p: &mut Preempt, t: &mut TimerQueue)
        requires
            old(p).wf(),
            old(t).wf(),
            0 <= self.of() < old(p).mutexes@.len(),
        ensures
            final(p).wf(),
            final(t).wf(),
            unlocked(old(p), final(p), old(t), final(t), self.of()),
            inherits(old(p)) && old(p).live(old(p).mutexes@[self.of()].owner as int) is Some
                ==> inherits(final(p)),
    {
        let m: usize = self.mutex;
        let ghost pre = *p;
        let owner: usize = p.mutexes[m].owner;
        if owner < MAX_PTASKS && p.tasks[owner].used {
            let mut slot = p.tasks[owner];
            slot.remove_held(m);
            p.tasks[owner] = slot;
            let ghost mid = *p;
            proof {
                lemma_slot_without_mutex(pre, mid, owner as int, m);
                lemma_inherited_same(&pre, &mid, mid.tasks[owner as int].held@,
                    pre.tasks[owner as int].base_priority as int);
            }
            let eff: u8 = inherited_priority(p, owner);
            Tcb::set_effective_priority(p, owner, eff);
            assert(p.tasks@ =~= pre.tasks@.update(owner as int, p.tasks[owner as int]));
        }
        let ghost lowered = *p;
        p.mutexes[m].owner = NO_TASK;
        p.mutexes[m].locked = false;
        let ghost mid = *p;
        let ghost count: usize = p.mutexes.len();
        proof {
            sched::lemma_same_slots(lowered, mid);
            let o = pre.mutexes@[m as int].owner as int;
            assert(mid.mutexes@ =~= pre.mutexes@.update(
                m as int,
                (MutexCore { locked: false, owner: NO_TASK, ..pre.mutexes@[m as int] }),
            ));
            if pre.live(o) is Some {
                assert(mid.tasks@ =~= pre.tasks@.update(o, mid.tasks[o]));
                assert(released(pre.tasks[o], mid.tasks[o], m));
            }
            assert(let_go(&pre, &mid, m as int));
        }
        wake_all_waiters(p, t, m);
        let ghost woken = *p;
        arch::request_reschedule(&mut p.harts);
        proof {
            sched::lemma_same_slots(woken, *p);
            assert(all_woken(&mid, &woken, old(t), t, m as int));
            if inherits(&pre) && pre.live(pre.mutexes@[m as int].owner as int) is Some {
                assert(unlocked(&pre, p, old(t), t, m as int));
                lemma_unlocked_inherits(pre, *p, *old(t), *t, m as int);
            }
        }
    }
}

/// Giving a mutex back keeps priority inheritance.
proof fn lemma_unlocked_inherits(
    pre: Preempt,
    post: Preempt,
    pre_t: TimerQueue,
    post_t: TimerQueue,
    m: int,
)
    requires
        inherits(&pre),
        pre.slots_wf(),
        0 <= m < pre.mutexes@.len(),
        pre.mutexes@.len() <= usize::MAX,
        pre.live(pre.mutexes@[m].owner as int) is Some,
        unlocked(&pre, &post, &pre_t, &post_t, m),
    ensures
        inherits(&post),
{
    let (mid, woken) = choose|mid: Preempt, woken: Preempt|
        {
            &&& #[trigger] let_go(&pre, &mid, m)
            &&& #[trigger] all_woken(&mid, &woken, &pre_t, &post_t, m)
            &&& post == (Preempt { harts: post.harts, ..woken })
            &&& post.harts.hart == woken.harts.hart
            &&& post.harts.resched@ == woken.harts.resched@.update(woken.harts.hart as int, true)
        };
    lemma_let_go_lists(pre, mid, m);
    lemma_lists_same(mid, post);
    assert forall|n: int| 0 <= n < post.mutexes@.len() implies #[trigger] inherits_at(
        &post,
        n,
    ) by {
        assert(inherits_at(&pre, n));
        if n != m {
            lemma_let_go_inherits(pre, mid, m, n);
        }
        lemma_woken_inherits(mid, woken, pre_t, post_t, m, n);
        assert(inherits_at(&woken, n));
        assert(forall|x: int| #[trigger] post.live(x) == woken.live(x));
    }
}

/// Emptying an entry of a held list keeps the invariant.
proof fn lemma_slot_without_mutex(pre: Preempt, mid: Preempt, owner: int, m: usize)
    requires
        pre.wf(),
        0 <= owner < MAX_PTASKS,
        mid.tasks@ == pre.tasks@.update(owner, mid.tasks[owner]),
        mid == (Preempt { tasks: mid.tasks, ..pre }),
        released(pre.tasks[owner], mid.tasks[owner], m),
        mid.tasks[owner] == (Tcb {
            held: mid.tasks[owner].held,
            held_count: mid.tasks[owner].held_count,
            ..pre.tasks[owner]
        }),
    ensures
        mid.wf(),
{
    let t0 = pre.tasks[owner];
    let t1 = mid.tasks[owner];
    assert forall|i: int| 0 <= i < MAX_HELD implies ((#[trigger] t1.held[i]).mutex matches Some(
        x,
    ) ==> x < pre.mutexes@.len()) by {
        if t0.holds(m) {
            let k = choose|i: int|
                {
                    &&& 0 <= i < MAX_HELD
                    &&& (#[trigger] t0.held[i]).mutex == Some(m)
                    &&& forall|j: int| 0 <= j < i ==> (#[trigger] t0.held[j]).mutex != Some(m)
                    &&& t1.held@ == t0.held@.update(i, (HeldMutex { mutex: None }))
                };
            if i != k {
                assert(t1.held[i] == pre.tasks[owner].held[i]);
            }
        } else {
            assert(t1.held[i] == pre.tasks[owner].held[i]);
        }
    }
    assert(forall|q: int, x: int| #[trigger] mid.in_queue(q, x) == pre.in_queue(q, x));
    assert(pre.ready(owner) ==> pre.in_queue(pre.eff(owner), owner));
    sched::lemma_slot_changed(pre, mid, owner, t1);
}

/// The slots agree on whether they are live and on the declared priority.
spec fn same_rank(a: Tcb, b: Tcb) -> bool {
    a.used == b.used && a.base_priority == b.base_priority
}

/// What is inherited depends on declared priorities and waiters alone.
proof fn lemma_inherited_same(a: &Preempt, b: &Preempt, held: Seq<HeldMutex>, base: int)
    requires
        a.mutexes == b.mutexes,
        forall|x: int| 0 <= x < MAX_PTASKS ==> same_rank(#[trigger] a.tasks[x], b.tasks[x]),
    ensures
        inherited(a, held, base) == inherited(b, held, base),
    decreases held.len(),
{
    if held.len() > 0 {
        lemma_inherited_same(a, b, held.drop_last(), base);
        if let Some(m) = held.last().mutex {
            lemma_top_same(a, b, a.mutexes@[m as int].waiters@);
        }
    }
}

/// The top of a list depends on declared priorities alone.
proof fn lemma_top_same(a: &Preempt, b: &Preempt, waiters: Seq<usize>)
    requires
        forall|x: int| 0 <= x < MAX_PTASKS ==> same_rank(#[trigger] a.tasks[x], b.tasks[x]),
    ensures
        top_waiter(a.tasks@, waiters) == top_waiter(b.tasks@, waiters),
    decreases waiters.len(),
{
    if waiters.len() > 0 {
        lemma_top_same(a, b, waiters.drop_last());
        let w = waiters.last() as int;
        if w < MAX_PTASKS {
            assert(same_rank(a.tasks[w], b.tasks[w]));
            assert(a.tasks@[w] == a.tasks[w]);
            assert(b.tasks@[w] == b.tasks[w]);
        }
    }
}

/// Letting go of one mutex keeps priority inheritance at the others: the
/// holder keeps what it inherits through them.
proof fn lemma_let_go_inherits(pre: Preempt, mid: Preempt, m: int, n: int)
    requires
        let_go(&pre, &mid, m),
        inherits_at(&pre, n),
        0 <= m < pre.mutexes@.len(),
        0 <= n < pre.mutexes@.len(),
        pre.mutexes@.len() <= usize::MAX,
        n != m,
    ensures
        inherits_at(&mid, n),
{
    let owner = pre.mutexes@[m].owner as int;
    let word = pre.mutexes@[n];
    assert forall|x: int| 0 <= x < MAX_PTASKS implies {
        &&& #[trigger] mid.tasks[x].used == pre.tasks[x].used
        &&& mid.tasks[x].base_priority == pre.tasks[x].base_priority
    } by {
        assert(mid.tasks[x] == mid.tasks@[x]);
    }
    assert forall|x: int| #[trigger] mid.live(x) is Some == pre.live(x) is Some by {
        if 0 <= x < MAX_PTASKS {
            assert(mid.tasks[x].used == pre.tasks[x].used);
        }
    }
    if word.locked && !word.poisoned {
        let o = word.owner as int;
        let i = choose|i: int|
            0 <= i < MAX_HELD && (#[trigger] pre.tasks[o].held[i]).mutex == Some(n as usize);
        if o == owner {
            let t1 = mid.tasks[o];
            assert(t1.held[i].mutex == Some(n as usize));
            assert(t1.holds(n as usize));
            lemma_inherited(&pre, t1.held@, pre.tasks[o].base_priority as int, i);
            assert(t1.held@[i] == t1.held[i]);
            assert forall|k: int|
                0 <= k < MAX_PTASKS && mid.live(#[trigger] word.waiters[k] as int) is Some implies
                mid.tasks[word.waiters[k] as int].base_priority <= mid.eff(o) by {
                lemma_top_waiter(pre.tasks@, word.waiters@, k);
                assert(pre.tasks@[word.waiters[k] as int] == pre.tasks[word.waiters[k] as int]);
                assert(mid.tasks[word.waiters[k] as int].base_priority
                    == pre.tasks[word.waiters[k] as int].base_priority);
            }
        } else {
            assert(mid.tasks[o] == mid.tasks@[o]);
            assert(mid.tasks[o] == pre.tasks[o]);
        }
    }
}

/// The held lists name mutexes of the table.
spec fn lists_in_table(p: &Preempt) -> bool {
    forall|x: int, i: int|
        0 <= x < MAX_PTASKS && 0 <= i < MAX_HELD ==> ((
        #[trigger] p.tasks[x].held[i]).mutex matches Some(m) ==> m < p.mutexes@.len())
}

/// Who holds what is the same, and so the held lists are as sound as before.
proof fn lemma_lists_same(a: Preempt, b: Preempt)
    requires
        forall|x: int| 0 <= x < MAX_PTASKS ==> #[trigger] lists_its_own(&a, x),
        lists_in_table(&a),
        b.mutexes@.len() >= a.mutexes@.len(),
        forall|m: int|
            0 <= m < a.mutexes@.len() ==> (#[trigger] b.mutexes@[m]).locked == a.mutexes@[m].locked
                && b.mutexes@[m].owner == a.mutexes@[m].owner,
        forall|x: int| 0 <= x < MAX_PTASKS ==> (#[trigger] b.tasks[x]).held == a.tasks[x].held,
    ensures
        forall|x: int| 0 <= x < MAX_PTASKS ==> #[trigger] lists_its_own(&b, x),
{
    assert forall|x: int| 0 <= x < MAX_PTASKS implies #[trigger] lists_its_own(&b, x) by {
        assert(lists_its_own(&a, x));
        assert(b.tasks[x].held == a.tasks[x].held);
        assert forall|i: int| 0 <= i < MAX_HELD implies ((
        #[trigger] b.tasks[x].held[i]).mutex matches Some(m) ==> {
            &&& b.mutexes@[m as int].locked
            &&& b.mutexes@[m as int].owner == x
            &&& forall|j: int|
                0 <= j < MAX_HELD && j != i ==> (#[trigger] b.tasks[x].held[j]).mutex != Some(m)
        }) by {
            if let Some(m) = a.tasks[x].held[i].mutex {
                assert(m < a.mutexes@.len());
                assert forall|j: int| 0 <= j < MAX_HELD && j != i implies (
                #[trigger] b.tasks[x].held[j]).mutex != Some(m) by {
                    assert(a.tasks[x].held[j].mutex != Some(m));
                }
            }
        }
    }
}

/// A mutex that was let go of stands in no list, and the lists stay sound.
proof fn lemma_let_go_lists(pre: Preempt, mid: Preempt, m: int)
    requires
        let_go(&pre, &mid, m),
        inherits(&pre),
        pre.slots_wf(),
        0 <= m < pre.mutexes@.len(),
        pre.mutexes@.len() <= usize::MAX,
        pre.live(pre.mutexes@[m].owner as int) is Some,
    ensures
        forall|x: int| 0 <= x < MAX_PTASKS ==> #[trigger] lists_its_own(&mid, x),
        lists_in_table(&mid),
        forall|x: int| 0 <= x < MAX_PTASKS ==> !(#[trigger] mid.tasks[x]).holds(m as usize),
{
    let owner = pre.mutexes@[m].owner as int;
    let t0 = pre.tasks[owner];
    let t1 = mid.tasks[owner];
    assert(lists_its_own(&pre, owner));
    assert forall|i: int| 0 <= i < MAX_HELD implies {
        &&& (#[trigger] t1.held[i]).mutex != Some(m as usize)
        &&& t1.held[i].mutex is Some ==> t1.held[i] == t0.held[i]
    } by {
        if t0.holds(m as usize) {
            let k = choose|i: int|
                {
                    &&& 0 <= i < MAX_HELD
                    &&& (#[trigger] t0.held[i]).mutex == Some(m as usize)
                    &&& forall|j: int|
                        0 <= j < i ==> (#[trigger] t0.held[j]).mutex != Some(m as usize)
                    &&& t1.held@ == t0.held@.update(i, (HeldMutex { mutex: None }))
                };
            assert(pre.tasks[owner].held[k].mutex == Some(m as usize));
            assert(t1.held@[i] == t1.held[i]);
            assert(pre.tasks[owner].held[i] == t0.held[i]);
        } else {
            assert(t1.held[i] == t0.held[i]);
        }
    }
    assert forall|x: int| 0 <= x < MAX_PTASKS implies #[trigger] lists_its_own(&mid, x)
        && !mid.tasks[x].holds(m as usize) by {
        assert(lists_its_own(&pre, x));
        assert(mid.tasks[x] == mid.tasks@[x]);
        assert forall|i: int| 0 <= i < MAX_HELD implies ((
        #[trigger] mid.tasks[x].held[i]).mutex matches Some(n) ==> {
            &&& n != m
            &&& mid.mutexes@[n as int].locked
            &&& mid.mutexes@[n as int].owner == x
            &&& forall|j: int|
                0 <= j < MAX_HELD && j != i ==> (#[trigger] mid.tasks[x].held[j]).mutex != Some(n)
        }) by {
            if let Some(n) = mid.tasks[x].held[i].mutex {
                assert(pre.tasks[x].held[i].mutex == Some(n)) by {
                    if x == owner {
                        assert(t1.held[i] == t0.held[i]);
                    }
                }
                assert(n < pre.mutexes@.len());
                assert forall|j: int| 0 <= j < MAX_HELD && j != i implies (
                #[trigger] mid.tasks[x].held[j]).mutex != Some(n) by {
                    assert(pre.tasks[x].held[j].mutex != Some(n));
                    if x == owner {
                        assert(t1.held[j].mutex is Some ==> t1.held[j] == t0.held[j]);
                    }
                }
            }
        }
    }
    assert forall|x: int| 0 <= x < MAX_PTASKS implies !(#[trigger] mid.tasks[x]).holds(
        m as usize,
    ) by {
        assert(lists_its_own(&mid, x));
    }
    assert forall|x: int, i: int| 0 <= x < MAX_PTASKS && 0 <= i < MAX_HELD implies ((
    #[trigger] mid.tasks[x].held[i]).mutex matches Some(n) ==> n < mid.mutexes@.len()) by {
        assert(mid.tasks[x] == mid.tasks@[x]);
        if x == owner && mid.tasks[x].held[i].mutex is Some {
            assert(t1.held[i] == t0.held[i]);
        }
        assert(pre.tasks[x].held[i].mutex matches Some(n) ==> n < pre.mutexes@.len());
    }
}

/// A waiter of a mutex that the list names and that is live.
pub open spec fn lends(p: &Preempt, held: Seq<HeldMutex>, w: int) -> bool {
    &&& p.live(w) is Some
    &&& exists|i: int|
        0 <= i < held.len() && (#[trigger] held[i]).mutex is Some && waits(
            p.mutexes@[held[i].mutex->0 as int],
            w,
        )
}

/// The top of a list is the declared priority of someone on it, or 0.
proof fn lemma_top_is_someone(p: &Preempt, waiters: Seq<usize>)
    ensures
        top_waiter(p.tasks@, waiters) > 0 ==> exists|i: int|
            0 <= i < waiters.len() && p.live(#[trigger] waiters[i] as int) is Some
                && p.tasks[waiters[i] as int].base_priority == top_waiter(p.tasks@, waiters),
    decreases waiters.len(),
{
    if waiters.len() > 0 {
        lemma_top_is_someone(p, waiters.drop_last());
        let rest = top_waiter(p.tasks@, waiters.drop_last());
        let w = waiters.last();
        if w < MAX_PTASKS && p.tasks@[w as int].used && p.tasks@[w as int].base_priority > rest {
            assert(waiters[waiters.len() - 1] == w);
            assert(p.tasks@[w as int] == p.tasks[w as int]);
            assert(p.live(w as int) is Some);
        } else if rest > 0 {
            let i = choose|i: int|
                0 <= i < waiters.drop_last().len() && p.live(
                    #[trigger] waiters.drop_last()[i] as int,
                ) is Some && p.tasks[waiters.drop_last()[i] as int].base_priority == rest;
            assert(waiters[i] == waiters.drop_last()[i]);
        }
    }
}

/// What is inherited through a list is the greatest of the declared priority
/// and those of the waiters of its mutexes.
proof fn lemma_inherited_is_greatest(p: &Preempt, held: Seq<HeldMutex>, base: int)
    requires
        base >= 0,
    ensures
        inherited(p, held, base) >= base,
        forall|w: int| #[trigger]
            lends(p, held, w) ==> p.tasks[w].base_priority <= inherited(p, held, base),
        inherited(p, held, base) == base || exists|w: int| #[trigger]
            lends(p, held, w) && p.tasks[w].base_priority == inherited(p, held, base),
    decreases held.len(),
{
    if held.len() > 0 {
        let before = held.drop_last();
        lemma_inherited_is_greatest(p, before, base);
        assert forall|w: int| #[trigger] lends(p, before, w) implies lends(p, held, w) by {
            let i = choose|i: int|
                0 <= i < before.len() && (#[trigger] before[i]).mutex is Some && waits(
                    p.mutexes@[before[i].mutex->0 as int],
                    w,
                );
            assert(held[i] == before[i]);
        }
        assert forall|w: int| #[trigger] lends(p, held, w) implies p.tasks[w].base_priority
            <= inherited(p, held, base) by {
            let i = choose|i: int|
                0 <= i < held.len() && (#[trigger] held[i]).mutex is Some && waits(
                    p.mutexes@[held[i].mutex->0 as int],
                    w,
                );
            let word = p.mutexes@[held[i].mutex->0 as int];
            let k = choose|k: int| 0 <= k < MAX_PTASKS && #[trigger] word.waiters[k] == w;
            assert(word.waiters@[k] == w);
            assert(p.tasks@[w] == p.tasks[w]);
            lemma_top_waiter(p.tasks@, word.waiters@, k);
            lemma_inherited(p, held, base, i);
        }
        if let Some(m) = held.last().mutex {
            let word = p.mutexes@[m as int];
            let rest = inherited(p, before, base);
            if top_waiter(p.tasks@, word.waiters@) > rest {
                lemma_top_is_someone(p, word.waiters@);
                let k = choose|k: int|
                    0 <= k < word.waiters@.len() && p.live(#[trigger] word.waiters@[k] as int) is Some
                        && p.tasks[word.waiters@[k] as int].base_priority == top_waiter(
                        p.tasks@,
                        word.waiters@,
                    );
                let w = word.waiters@[k] as int;
                assert(word.waiters[k] == w);
                assert(waits(word, w));
                assert(held[held.len() - 1].mutex == Some(m));
                assert(lends(p, held, w));
            }
        }
    }
}

/// What giving a mutex back leaves behind. The mutex is free, without an owner
/// and without waiters, and stands in nobody's held list. The holder keeps its
/// declared priority, and its effective one is the greatest of that and of
/// those of the live tasks that wait for mutexes which it still holds. The
/// executing hart is asked to run the scheduler.
pub proof fn law_unlock(
    pre: Preempt,
    post: Preempt,
    pre_t: TimerQueue,
    post_t: TimerQueue,
    m: int,
)
    requires
        pre.wf(),
        inherits(&pre),
        0 <= m < pre.mutexes@.len(),
        pre.mutexes@.len() <= usize::MAX,
        pre.live(pre.mutexes@[m].owner as int) is Some,
        unlocked(&pre, &post, &pre_t, &post_t, m),
    ensures
        !post.mutexes@[m].locked,
        post.mutexes@[m].owner == NO_TASK,
        no_waiter(post.mutexes@[m]),
        forall|x: int| 0 <= x < MAX_PTASKS ==> !(#[trigger] post.tasks[x]).holds(m as usize),
        post.harts.resched[pre.harts.hart as int],
        ({
            let h = pre.mutexes@[m].owner as int;
            let held = post.tasks[h].held@;
            &&& post.tasks[h].base_priority == pre.tasks[h].base_priority
            &&& post.eff(h) >= post.tasks[h].base_priority
            &&& forall|w: int| #[trigger]
                lends(&post, held, w) ==> post.tasks[w].base_priority <= post.eff(h)
            &&& post.eff(h) == post.tasks[h].base_priority || exists|w: int| #[trigger]
                lends(&post, held, w) && post.tasks[w].base_priority == post.eff(h)
        }),
{
    let (mid, woken) = choose|mid: Preempt, woken: Preempt|
        {
            &&& #[trigger] let_go(&pre, &mid, m)
            &&& #[trigger] all_woken(&mid, &woken, &pre_t, &post_t, m)
            &&& post == (Preempt { harts: post.harts, ..woken })
            &&& post.harts.hart == woken.harts.hart
            &&& post.harts.resched@ == woken.harts.resched@.update(woken.harts.hart as int, true)
        };
    lemma_let_go_lists(pre, mid, m);
    assert forall|i: int| 0 <= i < MAX_PTASKS implies #[trigger] post.mutexes@[m].waiters[i]
        == NO_TASK by {
        assert(woken.mutexes@[m].waiters[i] == NO_TASK);
    }
    assert forall|x: int| 0 <= x < MAX_PTASKS implies !(#[trigger] post.tasks[x]).holds(
        m as usize,
    ) by {
        assert(!mid.tasks[x].holds(m as usize));
        assert(woken.tasks[x].held == mid.tasks[x].held);
        assert forall|i: int| 0 <= i < MAX_HELD implies (#[trigger] post.tasks[x].held[i]).mutex
            != Some(m as usize) by {
            assert(mid.tasks[x].held[i].mutex != Some(m as usize));
        }
    }
    assert(pre.harts.wf());
    assert(post.harts.resched@[pre.harts.hart as int]);
    let h = pre.mutexes@[m].owner as int;
    let held = post.tasks[h].held@;
    assert(woken.tasks[h].held == mid.tasks[h].held);
    lemma_inherited_is_greatest(&pre, held, pre.tasks[h].base_priority as int);
    assert forall|x: int| 0 <= x < MAX_PTASKS implies {
        &&& #[trigger] post.tasks[x].used == pre.tasks[x].used
        &&& post.tasks[x].base_priority == pre.tasks[x].base_priority
    } by {
        assert(mid.tasks[x] == mid.tasks@[x]);
        assert(woken.tasks[x].used == mid.tasks[x].used);
    }
    // Who waits for the mutexes of the list did not change: the one that was
    // given back is not among them.
    assert forall|w: int| #[trigger] lends(&post, held, w) == lends(&pre, held, w) by {
        assert(post.live(w) is Some == pre.live(w) is Some) by {
            if 0 <= w < MAX_PTASKS {
                assert(post.tasks[w].used == pre.tasks[w].used);
            }
        }
        assert forall|i: int| 0 <= i < held.len() && (#[trigger] held[i]).mutex is Some implies
            post.mutexes@[held[i].mutex->0 as int] == pre.mutexes@[held[i].mutex->0 as int] by {
            assert(held[i] == post.tasks[h].held[i]);
            assert(!post.tasks[h].holds(m as usize));
            assert(held[i].mutex->0 != m);
            assert(mid.tasks[h].held[i] == held[i]);
        }
        if lends(&post, held, w) {
            let i = choose|i: int|
                0 <= i < held.len() && (#[trigger] held[i]).mutex is Some && waits(
                    post.mutexes@[held[i].mutex->0 as int],
                    w,
                );
            assert(waits(pre.mutexes@[held[i].mutex->0 as int], w));
        }
        if lends(&pre, held, w) {
            let i = choose|i: int|
                0 <= i < held.len() && (#[trigger] held[i]).mutex is Some && waits(
                    pre.mutexes@[held[i].mutex->0 as int],
                    w,
                );
            assert(waits(post.mutexes@[held[i].mutex->0 as int], w));
        }
    }
    if post.eff(h) != post.tasks[h].base_priority {
        let w = choose|w: int| #[trigger]
            lends(&pre, held, w) && pre.tasks[w].base_priority == inherited(
                &pre,
                held,
                pre.tasks[h].base_priority as int,
            );
        assert(lends(&post, held, w));
    }
    assert forall|w: int| #[trigger] lends(&post, held, w) implies post.tasks[w].base_priority
        <= post.eff(h) by {
        assert(lends(&pre, held, w));
    }
}

/// Priority inheritance rests on lock words, declared and effective
/// priorities and held lists: nothing else can break it.
pub proof fn lemma_inherits_same(a: Preempt, b: Preempt)
    requires
        inherits(&a),
        a.slots_wf(),
        b.mutexes == a.mutexes,
        forall|x: int|
            0 <= x < MAX_PTASKS ==> same_standing(#[trigger] b.tasks[x], a.tasks[x]),
    ensures
        inherits(&b),
{
    assert forall|x: int| 0 <= x < MAX_PTASKS implies (#[trigger] b.tasks[x]).held
        == a.tasks[x].held by {
        assert(same_standing(b.tasks[x], a.tasks[x]));
    }
    lemma_lists_same(a, b);
    assert forall|n: int| 0 <= n < b.mutexes@.len() implies #[trigger] inherits_at(&b, n) by {
        assert(inherits_at(&a, n));
        let word = a.mutexes@[n];
        assert forall|x: int| #[trigger] b.live(x) is Some == a.live(x) is Some by {
            if 0 <= x < MAX_PTASKS {
                assert(same_standing(b.tasks[x], a.tasks[x]));
            }
        }
        if word.locked && !word.poisoned {
            let o = word.owner as int;
            assert(same_standing(b.tasks[o], a.tasks[o]));
            let i = choose|i: int|
                0 <= i < MAX_HELD && (#[trigger] a.tasks[o].held[i]).mutex == Some(n as usize);
            assert(b.tasks[o].held[i].mutex == Some(n as usize));
            assert forall|k: int|
                0 <= k < MAX_PTASKS && b.live(#[trigger] word.waiters[k] as int) is Some implies
                b.tasks[word.waiters[k] as int].base_priority <= b.eff(o) by {
                assert(same_standing(
                    b.tasks[word.waiters[k] as int],
                    a.tasks[word.waiters[k] as int],
                ));
            }
        }
    }
}

/// Taking a free slot for a task keeps priority inheritance: nobody waits or
/// holds in the name of a slot that is free.
pub proof fn lemma_registered_inherits(pre: Preempt, post: Preempt, id: int)
    requires
        inherits(&pre),
        pre.slots_wf(),
        post.mutexes == pre.mutexes,
        0 <= id < MAX_PTASKS,
        !pre.tasks[id].used,
        post.tasks@ == pre.tasks@.update(id, post.tasks[id]),
        post.tasks[id].held == pre.tasks[id].held,
    ensures
        inherits(&post),
{
    assert forall|x: int| 0 <= x < MAX_PTASKS implies (#[trigger] post.tasks[x]).held
        == pre.tasks[x].held by {
        assert(post.tasks[x] == post.tasks@[x]);
    }
    lemma_lists_same(pre, post);
    assert forall|n: int| 0 <= n < post.mutexes@.len() implies #[trigger] inherits_at(
        &post,
        n,
    ) by {
        assert(inherits_at(&pre, n));
        let word = pre.mutexes@[n];
        assert forall|x: int| #[trigger] pre.live(x) is Some implies post.live(x) is Some
            && post.tasks[x] == pre.tasks[x] by {
            assert(post.tasks[x] == post.tasks@[x]);
        }
        assert forall|i: int| 0 <= i < MAX_PTASKS implies #[trigger] word.waiters[i] == NO_TASK
            || post.live(word.waiters[i] as int) is Some by {
            assert(word.waiters[i] == NO_TASK || pre.live(word.waiters[i] as int) is Some);
        }
        if word.locked && !word.poisoned {
            let o = word.owner as int;
            assert(pre.live(o) is Some);
            assert(post.tasks[o] == pre.tasks[o]);
            assert forall|i: int|
                0 <= i < MAX_PTASKS && post.live(#[trigger] word.waiters[i] as int) is Some implies
                post.tasks[word.waiters[i] as int].base_priority <= post.eff(o) by {
                assert(word.waiters[i] == NO_TASK || pre.live(word.waiters[i] as int) is Some);
            }
        }
    }
}

/// Task `id` holds no mutex that is in order, and waits for none.
pub open spec fn uninvolved(p: &Preempt, id: int) -> bool {
    forall|m: int|
        0 <= m < p.mutexes@.len() ==> {
            &&& !waits(#[trigger] p.mutexes@[m], id)
            &&& !(p.mutexes@[m].locked && !p.mutexes@[m].poisoned && p.mutexes@[m].owner == id)
        }
}

/// Freeing the slot of a task that neither holds a mutex nor waits for one
/// keeps priority inheritance.
pub proof fn lemma_vacated_inherits(pre: Preempt, post: Preempt, id: int)
    requires
        inherits(&pre),
        pre.slots_wf(),
        post.mutexes == pre.mutexes,
        0 <= id < MAX_PTASKS,
        uninvolved(&pre, id),
        post.tasks@ == pre.tasks@.update(id, post.tasks[id]),
        post.tasks[id].held == pre.tasks[id].held,
    ensures
        inherits(&post),
{
    assert forall|x: int| 0 <= x < MAX_PTASKS implies (#[trigger] post.tasks[x]).held
        == pre.tasks[x].held by {
        assert(post.tasks[x] == post.tasks@[x]);
    }
    lemma_lists_same(pre, post);
    assert forall|n: int| 0 <= n < post.mutexes@.len() implies #[trigger] inherits_at(
        &post,
        n,
    ) by {
        assert(inherits_at(&pre, n));
        let word = pre.mutexes@[n];
        assert(!waits(word, id));
        assert forall|x: int| x != id implies #[trigger] post.live(x) == pre.live(x) && (0 <= x
            < MAX_PTASKS ==> post.tasks[x] == pre.tasks[x]) by {
            if 0 <= x < MAX_PTASKS {
                assert(post.tasks[x] == post.tasks@[x]);
            }
        }
        assert forall|i: int| 0 <= i < MAX_PTASKS implies #[trigger] word.waiters[i] != id by {}
        assert forall|i: int| 0 <= i < MAX_PTASKS implies #[trigger] word.waiters[i] == NO_TASK
            || post.live(word.waiters[i] as int) is Some by {
            assert(post.live(word.waiters[i] as int) == pre.live(word.waiters[i] as int));
        }
        if word.locked && !word.poisoned {
            let o = word.owner as int;
            assert(post.live(o) == pre.live(o));
            assert forall|i: int|
                0 <= i < MAX_PTASKS && post.live(#[trigger] word.waiters[i] as int) is Some implies
                post.tasks[word.waiters[i] as int].base_priority <= post.eff(o) by {
                assert(post.live(word.waiters[i] as int) == pre.live(word.waiters[i] as int));
            }
        }
    }
}

/// The slots agree on everything that priority inheritance rests on.
pub open spec fn same_standing(a: Tcb, b: Tcb) -> bool {
    &&& a.used == b.used
    &&& a.base_priority == b.base_priority
    &&& a.effective_priority == b.effective_priority
    &&& a.held == b.held
}

/// Priority inheritance: wherever it holds, a live task that waits for a held
/// mutex never outranks the task that holds it, which is live, in the sense
/// that the holder's effective priority is at least the waiter's declared one.
pub proof fn law_holder_not_outranked(p: Preempt, m: int, waiter: int)
    requires
        inherits(&p),
        0 <= m < p.mutexes@.len(),
        p.mutexes@[m].locked,
        waits(p.mutexes@[m], waiter),
        p.live(waiter) is Some,
    ensures
        p.live(p.mutexes@[m].owner as int) is Some,
        p.eff(p.mutexes@[m].owner as int) >= p.tasks[waiter].base_priority,
{
    assert(inherits_at(&p, m));
    let i = choose|i: int|
        0 <= i < MAX_PTASKS && #[trigger] p.mutexes@[m].waiters[i] == waiter;
    assert(p.mutexes@[m].waiters[i] == waiter);
}

/// A task tries to take a mutex.
pub open spec fn some_attempt(pre: &Preempt, post: &Preempt) -> bool {
    exists|
        pre_t: TimerQueue,
        post_t: TimerQueue,
        m: int,
        me: usize,
        deadline: Option<u64>,
        now: u64,
        r: LockStep,
    |
        0 <= m < pre.mutexes@.len() && pre.live(me as int) is Some && #[trigger] attempted(
            pre,
            post,
            &pre_t,
            &post_t,
            m,
            me,
            deadline,
            now,
            r,
        )
}

/// A live holder gives a mutex back.
pub open spec fn some_unlock(pre: &Preempt, post: &Preempt) -> bool {
    exists|pre_t: TimerQueue, post_t: TimerQueue, m: int|
        0 <= m < pre.mutexes@.len() && pre.live(pre.mutexes@[m].owner as int) is Some
            && #[trigger] unlocked(pre, post, &pre_t, &post_t, m)
}

/// The scheduling state of task `x` changed, and the queues with it.
pub open spec fn state_changed(pre: &Preempt, post: &Preempt, x: int, state: SlotState) -> bool {
    &&& 0 <= x < MAX_PTASKS
    &&& post.tasks@ == pre.tasks@.update(x, (Tcb { state, ..pre.tasks[x] }))
    &&& post.frame(pre)
}

/// One step of the preemptive tier: a task takes a mutex, waits for one or
/// gives one back; a task is woken, parks, is paused or resumed, is put on the
/// processor or taken off it; timers wake tasks; a task is spawned.
pub open spec fn moves(pre: &Preempt, post: &Preempt) -> bool {
    ||| some_attempt(pre, post)
    ||| some_unlock(pre, post)
    ||| exists|id: int| #[trigger] sched::unblocked(pre, post, id)
    ||| lifecycle::parked(pre, post)
    ||| exists|x: int, state: SlotState| #[trigger] state_changed(pre, post, x, state)
    ||| exists|c: int| 0 <= c < MAX_PTASKS && #[trigger] preempt::dispatched(pre, post, c)
    ||| exists|x: int| #[trigger] preempt::put_back(pre, post, x)
    ||| exists|x: int, sp: usize| #[trigger] preempt::sp_saved(pre, post, x, sp)
    ||| exists|t: TimerQueue, now: u64| #[trigger]
        timer::blocked_woken(pre, post, &t, now, MAX_PTASKS as int)
    ||| exists|spec: TaskSpec, r: Result<TaskHandle, SpawnError>| #[trigger]
        preempt::spawn_attempted(pre, post, spec, r)
}

/// The `j`-th step of a run.
pub open spec fn moves_at(ps: Seq<Preempt>, j: int) -> bool {
    moves(&ps[j], &ps[j + 1])
}

proof fn lemma_attempt_inherits(pre: Preempt, post: Preempt)
    requires
        pre.wf(),
        inherits(&pre),
        pre.mutexes@.len() <= usize::MAX,
        some_attempt(&pre, &post),
    ensures
        inherits(&post),
{
    let (pre_t, post_t, m, me, deadline, now, r) = choose|
        pre_t: TimerQueue,
        post_t: TimerQueue,
        m: int,
        me: usize,
        deadline: Option<u64>,
        now: u64,
        r: LockStep,
    |
        0 <= m < pre.mutexes@.len() && pre.live(me as int) is Some && #[trigger] attempted(
            &pre,
            &post,
            &pre_t,
            &post_t,
            m,
            me,
            deadline,
            now,
            r,
        );
    match r {
        LockStep::Acquired(_) => lemma_acquire_inherits(pre, post, m, me),
        LockStep::Blocked => lemma_blocked_inherits(pre, post, m, me),
        LockStep::Failed(LockError::Timeout) => lemma_gave_up_inherits(pre, post, m, me),
        LockStep::Failed(_) => {},
    }
}

proof fn lemma_unlock_inherits(pre: Preempt, post: Preempt)
    requires
        pre.wf(),
        inherits(&pre),
        pre.mutexes@.len() <= usize::MAX,
        some_unlock(&pre, &post),
    ensures
        inherits(&post),
{
    let (pre_t, post_t, m) = choose|pre_t: TimerQueue, post_t: TimerQueue, m: int|
        0 <= m < pre.mutexes@.len() && pre.live(pre.mutexes@[m].owner as int) is Some
            && #[trigger] unlocked(&pre, &post, &pre_t, &post_t, m);
    lemma_unlocked_inherits(pre, post, pre_t, post_t, m);
}

proof fn lemma_spawn_inherits(pre: Preempt, post: Preempt, spec: TaskSpec, r: Result<
    TaskHandle,
    SpawnError,
>)
    requires
        pre.wf(),
        inherits(&pre),
        preempt::spawn_attempted(&pre, &post, spec, r),
    ensures
        inherits(&post),
{
    if let Ok(h) = r {
        assert(post.tasks@[h.id as int] == post.tasks[h.id as int]);
        lemma_registered_inherits(pre, post, h.id as int);
    }
}

/// Every step of the preemptive tier keeps priority inheritance.
pub proof fn law_steps_keep_inheritance(pre: Preempt, post: Preempt)
    requires
        pre.wf(),
        inherits(&pre),
        pre.mutexes@.len() <= usize::MAX,
        moves(&pre, &post),
    ensures
        inherits(&post),
{
    if some_attempt(&pre, &post) {
        lemma_attempt_inherits(pre, post);
    } else if some_unlock(&pre, &post) {
        lemma_unlock_inherits(pre, post);
    } else if exists|spec: TaskSpec, r: Result<TaskHandle, SpawnError>| #[trigger]
        preempt::spawn_attempted(&pre, &post, spec, r) {
        let (spec, r) = choose|spec: TaskSpec, r: Result<TaskHandle, SpawnError>| #[trigger]
            preempt::spawn_attempted(&pre, &post, spec, r);
        lemma_spawn_inherits(pre, post, spec, r);
    } else {
        assert(post.mutexes == pre.mutexes);
        assert forall|x: int| 0 <= x < MAX_PTASKS implies same_standing(
            #[trigger] post.tasks[x],
            pre.tasks[x],
        ) by {
            assert(post.tasks[x] == post.tasks@[x]);
            assert(pre.tasks[x] == pre.tasks@[x]);
        }
        lemma_inherits_same(pre, post);
    }
}

/// Over any run of steps of the preemptive tier, from any state in which
/// priority inheritance holds (such as one without mutexes), no live waiter
/// ever outranks the holder of the mutex that it waits for.
pub proof fn law_no_inversion_over_a_run(ps: Seq<Preempt>, m: int, waiter: int)
    requires
        ps.len() > 0,
        forall|j: int| 0 <= j < ps.len() ==> (#[trigger] ps[j]).wf() && ps[j].mutexes@.len()
            <= usize::MAX,
        inherits(&ps[0]),
        forall|j: int| 0 <= j < ps.len() - 1 ==> #[trigger] moves_at(ps, j),
        0 <= m < ps.last().mutexes@.len(),
        ps.last().mutexes@[m].locked,
        waits(ps.last().mutexes@[m], waiter),
        ps.last().live(waiter) is Some,
    ensures
        ps.last().live(ps.last().mutexes@[m].owner as int) is Some,
        ps.last().eff(ps.last().mutexes@[m].owner as int) >= ps.last().tasks[waiter].base_priority,
{
    lemma_inheritance_lasts(ps, ps.len() - 1);
    law_holder_not_outranked(ps.last(), m, waiter);
}

proof fn lemma_inheritance_lasts(ps: Seq<Preempt>, n: int)
    requires
        0 <= n < ps.len(),
        forall|j: int| 0 <= j < ps.len() ==> (#[trigger] ps[j]).wf() && ps[j].mutexes@.len()
            <= usize::MAX,
        inherits(&ps[0]),
        forall|j: int| 0 <= j < ps.len() - 1 ==> #[trigger] moves_at(ps, j),
    ensures
        inherits(&ps[n]),
    decreases n,
{
    if n > 0 {
        lemma_inheritance_lasts(ps, n - 1);
        assert(moves_at(ps, n - 1));
        law_steps_keep_inheritance(ps[n - 1], ps[n]);
    }
}

/// Mutual exclusion: while a mutex is held, no attempt of any task takes it.
pub proof fn law_mutual_exclusion(
    pre: Preempt,
    post: Preempt,
    pre_t: TimerQueue,
    post_t: TimerQueue,
    m: int,
    me: usize,
    deadline: Option<u64>,
    now: u64,
    r: LockStep,
)
    requires
        pre.mutexes@[m].locked,
        0 <= m < pre.mutexes@.len(),
        attempted(&pre, &post, &pre_t, &post_t, m, me, deadline, now, r),
    ensures
        !(r is Acquired),
        post.mutexes@[m].locked,
        post.mutexes@[m].owner == pre.mutexes@[m].owner,
{
}

/// A holder of nothing else falls back to its declared priority when it gives
/// the mutex back.
pub proof fn law_last_unlock_restores(pre: Preempt, mid: Preempt, m: int)
    requires
        let_go(&pre, &mid, m),
        pre.live(pre.mutexes@[m].owner as int) is Some,
        forall|i: int|
            0 <= i < MAX_HELD ==> (#[trigger] mid.tasks[pre.mutexes@[m].owner as int].held[i]).mutex
                is None,
    ensures
        mid.tasks[pre.mutexes@[m].owner as int].effective_priority
            == pre.tasks[pre.mutexes@[m].owner as int].base_priority,
{
    let o = pre.mutexes@[m].owner as int;
    let held = mid.tasks[o].held@;
    assert forall|i: int| 0 <= i < held.len() implies (#[trigger] held[i]).mutex is None by {
        assert(held[i] == mid.tasks[o].held[i]);
    }
    lemma_inherited_none(&pre, held, pre.tasks[o].base_priority as int);
}

/// Nothing is inherited through an empty list.
proof fn lemma_inherited_none(p: &Preempt, held: Seq<HeldMutex>, base: int)
    requires
        forall|i: int| 0 <= i < held.len() ==> (#[trigger] held[i]).mutex is None,
    ensures
        inherited(p, held, base) == base,
    decreases held.len(),
{
    if held.len() > 0 {
        assert forall|i: int| 0 <= i < held.drop_last().len() implies (
        #[trigger] held.drop_last()[i]).mutex is None by {
            assert(held.drop_last()[i] == held[i]);
        }
        lemma_inherited_none(p, held.drop_last(), base);
        assert(held.last() == held[held.len() - 1]);
    }
}

/// No wakeup is lost: giving a mutex back makes every live task that waits for
/// it ready, and leaves nobody on its list.
pub proof fn law_unlock_wakes_waiters(
    pre: Preempt,
    post: Preempt,
    pre_t: TimerQueue,
    post_t: TimerQueue,
    m: int,
    x: int,
)
    requires
        0 <= m < pre.mutexes@.len(),
        unlocked(&pre, &post, &pre_t, &post_t, m),
        waits(pre.mutexes@[m], x),
        pre.live(x) is Some,
    ensures
        post.ready(x),
        post_t.ptask[x] == 0,
        no_waiter(post.mutexes@[m]),
{
    let (mid, woken) = choose|mid: Preempt, woken: Preempt|
        {
            &&& #[trigger] let_go(&pre, &mid, m)
            &&& #[trigger] all_woken(&mid, &woken, &pre_t, &post_t, m)
            &&& post == (Preempt { harts: post.harts, ..woken })
            &&& post.harts.hart == woken.harts.hart
            &&& post.harts.resched@ == woken.harts.resched@.update(woken.harts.hart as int, true)
        };
    let i = choose|i: int| 0 <= i < MAX_PTASKS && #[trigger] pre.mutexes@[m].waiters[i] == x;
    assert(mid.mutexes@[m].waiters[i] == x);
    assert(waits(mid.mutexes@[m], x));
    assert(mid.tasks[x] == mid.tasks@[x]);
    assert(mid.tasks[x].used);
    assert(woken.tasks[x].state == SlotState::Ready);
    assert forall|j: int| 0 <= j < MAX_PTASKS implies #[trigger] post.mutexes@[m].waiters[j]
        == NO_TASK by {
        assert(woken.mutexes@[m].waiters[j] == NO_TASK);
    }
}

/// A task that asks for a mutex which another task holds waits for the whole of
/// its timeout: it is blocked, its wake-up is armed for exactly that much later,
/// and the holder runs at its priority if that is higher than its own.
pub proof fn law_lock_waits_out_its_timeout<T>(
    m: &PriorityMutex<T>,
    p: &mut Preempt,
    t: &mut TimerQueue,
    d: Duration,
    span: u64,
    now: u64,
    r: (LockStep, Option<u64>),
)
    requires
        call_ensures(PriorityMutex::<T>::lock_timeout, (m, p, t, Some(d), now), r),
        call_ensures(Duration::as_micros, (&d,), span),
        m.wf(old(p)),
        old(p).wf(),
        old(p).running() is Some,
        old(p).live(old(p).running()->0 as int) is Some,
        m.word(old(p)).locked,
        !m.word(old(p)).poisoned,
        m.word(old(p)).owner != old(p).running()->0,
        0 < span,
        now + span <= u64::MAX,
    ensures
        ({
            let me = old(p).running()->0 as int;
            let owner = m.word(old(p)).owner as int;
            &&& r.0 is Blocked
            &&& r.1 is Some && r.1->0 == now + span
            &&& final(t).ptask[me] == now + span
            &&& final(p).tasks[me].state == SlotState::Blocked
            &&& old(p).live(owner) is Some ==> final(p).eff(owner) == (if old(
                p,
            ).tasks[me].base_priority > old(p).eff(owner) {
                old(p).tasks[me].base_priority as int
            } else {
                old(p).eff(owner)
            })
            &&& forall|x: int|
                0 <= x < MAX_PTASKS && x != me && x != owner ==> #[trigger] final(p).tasks[x]
                    == old(p).tasks[x]
            &&& final(p).mutexes@[m.place()].owner == owner
            &&& final(p).mutexes@[m.place()].locked
            &&& forall|x: int|
                0 <= x < MAX_PTASKS && x != me ==> #[trigger] final(t).ptask[x] == old(t).ptask[x]
        }),
{
    let me = old(p).running()->0 as int;
    let owner = m.word(old(p)).owner as int;
    assert(final(t).ptask@[me] == final(t).ptask[me]);
    assert(final(p).tasks@[me] == final(p).tasks[me]);
    if old(p).live(owner) is Some {
        assert(final(p).tasks@[owner] == final(p).tasks[owner]);
    }
    assert forall|x: int| 0 <= x < MAX_PTASKS && x != me && x != owner
        implies #[trigger] final(p).tasks[x] == old(p).tasks[x] by {
        assert(final(p).tasks@[x] == old(p).tasks@[x]);
    }
    assert forall|x: int| 0 <= x < MAX_PTASKS && x != me implies #[trigger] final(t).ptask[x]
        == old(t).ptask[x] by {
        assert(final(t).ptask@[x] == old(t).ptask@[x]);
    }
}

/// A timeout is reported neither early nor late: an attempt that finds the mutex
/// still held by another task gives up exactly if the whole timeout has passed
/// since the first attempt. A task without a timeout never gives up.
pub proof fn law_timeout_is_punctual<T>(
    m: &PriorityMutex<T>,
    p0: &mut Preempt,
    t0: &mut TimerQueue,
    timeout: Option<Duration>,
    span: u64,
    began: u64,
    r0: (LockStep, Option<u64>),
    p1: &mut Preempt,
    t1: &mut TimerQueue,
    me: usize,
    now: u64,
    r1: LockStep,
)
    requires
        call_ensures(PriorityMutex::<T>::lock_timeout, (m, p0, t0, timeout, began), r0),
        timeout matches Some(d) ==> call_ensures(Duration::as_micros, (&d,), span),
        began + span <= u64::MAX,
        call_ensures(PriorityMutex::<T>::lock_step, (m, p1, t1, me, r0.1, now), r1),
        m.wf(old(p1)),
        old(p1).wf(),
        m.word(old(p1)).locked,
        !m.word(old(p1)).poisoned,
        m.word(old(p1)).owner != me,
    ensures
        timeout is Some ==> (r1 == LockStep::Failed(LockError::Timeout) <==> now - began >= span),
        timeout is None ==> r1 is Blocked,
        r1 is Blocked || r1 == LockStep::Failed(LockError::Timeout),
        r1 == LockStep::Failed(LockError::Timeout) ==> !waits(
            final(p1).mutexes@[m.place()],
            me as int,
        ) || me == NO_TASK,
        r1 == LockStep::Failed(LockError::Timeout) && me < MAX_PTASKS
            ==> final(t1).ptask[me as int] == 0,
{
    if r1 == LockStep::Failed(LockError::Timeout) && me < MAX_PTASKS {
        assert(final(t1).ptask@[me as int] == final(t1).ptask[me as int]);
    }
}

/// Every attempt ends as the mutex is found: a poisoned one is refused, a free
/// one is taken if the task can record it, one's own is refused, and for
/// another's the task waits or gives up.
pub proof fn law_attempt_goes_by_the_lock<T>(
    m: &PriorityMutex<T>,
    p: &mut Preempt,
    t: &mut TimerQueue,
    me: usize,
    deadline: Option<u64>,
    now: u64,
    r: LockStep,
)
    requires
        call_ensures(PriorityMutex::<T>::lock_step, (m, p, t, me, deadline, now), r),
        m.wf(old(p)),
        old(p).wf(),
        old(p).live(me as int) is Some,
    ensures
        m.word(old(p)).poisoned <==> r == LockStep::Failed(LockError::Poisoned),
        r is Acquired ==> {
            &&& !m.word(old(p)).locked
            &&& m.word(final(p)).locked
            &&& m.word(final(p)).owner == me
            &&& final(p).tasks[me as int].holds(m.place() as usize)
        },
        !m.word(old(p)).poisoned && !m.word(old(p)).locked ==> r is Acquired || (r
            == LockStep::Failed(LockError::TooManyHeldMutexes) && forall|i: int|
            0 <= i < MAX_HELD && old(p).tasks[me as int].held_count < MAX_HELD ==> (
            #[trigger] old(p).tasks[me as int].held[i]).mutex is Some),
        !m.word(old(p)).poisoned && m.word(old(p)).locked && m.word(old(p)).owner == me ==> r
            == LockStep::Failed(LockError::Recursive),
        !(r is Acquired) ==> m.word(final(p)).locked == m.word(old(p)).locked
            && m.word(final(p)).owner == m.word(old(p)).owner,
        m.word(final(p)).poisoned == m.word(old(p)).poisoned,
        forall|n: int|
            0 <= n < old(p).mutexes@.len() && n != m.place() ==> #[trigger] final(p).mutexes@[n]
                == old(p).mutexes@[n],
{
    let t0 = old(p).tasks[me as int];
    let t1 = final(p).tasks[me as int];
    if r is Acquired {
        let i = choose|i: int|
            {
                &&& 0 <= i < MAX_HELD
                &&& (#[trigger] t0.held[i]).mutex is None
                &&& forall|j: int| 0 <= j < i ==> (#[trigger] t0.held[j]).mutex is Some
                &&& t1.held@ == t0.held@.update(
                    i,
                    (HeldMutex { mutex: Some(m.place() as usize) }),
                )
            };
        assert(t1.held[i].mutex == Some(m.place() as usize));
    }
}

/// A guard that is given back frees its mutex and wakes every live task that
/// waits for it; a holder of nothing else falls back to its declared priority.
pub proof fn law_guard_gives_back(
    g: PriorityMutexGuard,
    p: &mut Preempt,
    t: &mut TimerQueue,
    x: int,
)
    requires
        call_ensures(PriorityMutexGuard::drop, (g, p, t), ()),
        old(p).wf(),
        inherits(old(p)),
        0 <= g.of() < old(p).mutexes@.len() <= usize::MAX,
        old(p).live(old(p).mutexes@[g.of()].owner as int) is Some,
    ensures
        !final(p).mutexes@[g.of()].locked,
        no_waiter(final(p).mutexes@[g.of()]),
        forall|y: int| 0 <= y < MAX_PTASKS ==> !(#[trigger] final(p).tasks[y]).holds(g.of() as usize),
        waits(old(p).mutexes@[g.of()], x) && old(p).live(x) is Some ==> final(p).ready(x)
            && final(t).ptask[x] == 0,
        ({
            let h = old(p).mutexes@[g.of()].owner as int;
            (forall|i: int|
                0 <= i < MAX_HELD ==> (#[trigger] final(p).tasks[h].held[i]).mutex is None)
                ==> final(p).eff(h) == old(p).tasks[h].base_priority
        }),
{
    law_unlock(*old(p), *final(p), *old(t), *final(t), g.of());
    if waits(old(p).mutexes@[g.of()], x) && old(p).live(x) is Some {
        law_unlock_wakes_waiters(*old(p), *final(p), *old(t), *final(t), g.of(), x);
    }
    let h = old(p).mutexes@[g.of()].owner as int;
    let held = final(p).tasks[h].held@;
    if forall|i: int|
        0 <= i < MAX_HELD ==> (#[trigger] final(p).tasks[h].held[i]).mutex is None {
        assert forall|w: int| !#[trigger] lends(final(p), held, w) by {
            assert forall|i: int| 0 <= i < held.len() implies (#[trigger] held[i]).mutex is None by {
                assert(held[i] == final(p).tasks[h].held[i]);
            }
        }
    }
}

/// The data of a mutex is what was last put there.
pub proof fn law_data_is_kept<T>(
    m: &mut PriorityMutex<T>,
    g: PriorityMutexGuard,
    value: T,
    read: &T,
)
    requires
        call_ensures(PriorityMutex::<T>::set, (m, &g, value), ()),
        call_ensures(PriorityMutex::<T>::get, (&*final(m), &g), read),
    ensures
        *read == value,
        final(m).place() == old(m).place(),
{
}

/// A mutex that is tried is taken exactly if it is free and sound and the
/// running task can record it; then nobody else can take it.
pub proof fn law_tried_mutex_is_taken<T>(
    m: &PriorityMutex<T>,
    p: &mut Preempt,
    again: &mut Preempt,
    r: Option<PriorityMutexGuard>,
    s: Option<PriorityMutexGuard>,
)
    requires
        call_ensures(PriorityMutex::<T>::try_lock, (m, p), r),
        m.wf(old(p)),
        old(p).wf(),
        *old(again) == *final(p),
        call_ensures(PriorityMutex::<T>::try_lock, (m, again), s),
    ensures
        r is Some ==> !m.word(old(p)).locked && !m.word(old(p)).poisoned && m.word(final(p)).locked
            && Some(m.word(final(p)).owner) == old(p).running(),
        r is Some ==> s is None,
        r is None ==> *final(p) == *old(p),
        old(p).running() is None ==> r is None,
{
}

proof fn lemma_top_is_somebodys(tasks: Seq<Tcb>, waiters: Seq<usize>) -> (i: int)
    ensures
        top_waiter(tasks, waiters) == 0 || (0 <= i < waiters.len() && waiters[i] < tasks.len()
            && tasks[waiters[i] as int].used && tasks[waiters[i] as int].base_priority
            == top_waiter(tasks, waiters)),
    decreases waiters.len(),
{
    if waiters.len() == 0 {
        0
    } else {
        let rest = waiters.drop_last();
        let i = lemma_top_is_somebodys(tasks, rest);
        let w = waiters.last();
        if w < tasks.len() && tasks[w as int].used && tasks[w as int].base_priority > top_waiter(
            tasks,
            rest,
        ) {
            waiters.len() - 1
        } else {
            if 0 <= i < rest.len() {
                assert(rest[i] == waiters[i]);
            }
            i
        }
    }
}

/// The highest priority among the waiters is no lower than that of any live
/// one, and is that of one of them, or zero.
pub proof fn law_highest_waiter_is_a_waiter<T>(m: &PriorityMutex<T>, p: &Preempt, r: u8, x: int)
    requires
        p.slots_wf(),
        m.wf(p),
        call_ensures(PriorityMutex::<T>::highest_waiter_priority, (m, p), r),
    ensures
        waits(m.word(p), x) && p.live(x) is Some ==> p.tasks[x].base_priority <= r,
        r > 0 ==> exists|y: int| #[trigger]
            waits(m.word(p), y) && p.live(y) is Some && p.tasks[y].base_priority == r,
{
    let w = m.word(p);
    if waits(w, x) && p.live(x) is Some {
        let i = choose|i: int| 0 <= i < MAX_PTASKS && #[trigger] w.waiters[i] == x;
        assert(w.waiters@[i] == w.waiters[i]);
        assert(p.tasks@[x] == p.tasks[x]);
        lemma_top_waiter(p.tasks@, w.waiters@, i);
    }
    let i = lemma_top_is_somebodys(p.tasks@, w.waiters@);
    if r > 0 {
        let y = w.waiters@[i] as int;
        assert(w.waiters[i] == y);
        assert(p.tasks@[y] == p.tasks[y]);
        assert(waits(w, y));
    }
}

/// A new mutex is free and sound, stands behind the others, and holds what it
/// was made with; no task changes.
pub proof fn law_new_mutex_is_free<T>(
    p: &mut Preempt,
    value: T,
    m: PriorityMutex<T>,
    g: PriorityMutexGuard,
    bad: bool,
    read: &T,
)
    requires
        call_ensures(PriorityMutex::<T>::new, (p, value), m),
        call_ensures(PriorityMutex::<T>::is_poisoned, (&m, &*final(p)), bad),
        call_ensures(PriorityMutex::<T>::get, (&m, &g), read),
    ensures
        !bad,
        !m.word(final(p)).locked,
        forall|x: int| 0 <= x < MAX_PTASKS ==> !waits(m.word(final(p)), x) || x == NO_TASK,
        *read == value,
        final(p).tasks == old(p).tasks,
        final(p).mutexes@.drop_last() == old(p).mutexes@,
{
    assert(final(p).mutexes@.drop_last() =~= old(p).mutexes@);
}

/// A poisoned mutex is refused to whoever tries it; everybody who waited for it
/// is made ready to see that, and its lock stays as it was.
#[verifier::spinoff_prover]
#[verifier::rlimit(60)]
pub proof fn law_poisoned_mutex_is_refused<T>(
    m: &PriorityMutex<T>,
    p0: &mut Preempt,
    p1: &mut Preempt,
    t: &mut TimerQueue,
    place: usize,
    bad: bool,
    r: Option<PriorityMutexGuard>,
    x: int,
)
    requires
        old(p0).wf(),
        m.wf(old(p0)),
        place == m.place(),
        call_ensures(poison_mutex, (p0, t, place), ()),
        call_ensures(PriorityMutex::<T>::is_poisoned, (m, &*final(p0)), bad),
        *old(p1) == *final(p0),
        call_ensures(PriorityMutex::<T>::try_lock, (m, p1), r),
    ensures
        bad,
        r is None,
        m.word(final(p0)).locked == m.word(old(p0)).locked,
        m.word(final(p0)).owner == m.word(old(p0)).owner,
        no_waiter(m.word(final(p0))),
        0 <= x < MAX_PTASKS && waits(m.word(old(p0)), x) && old(p0).tasks[x].used
            ==> final(p0).tasks[x].state == SlotState::Ready && final(t).ptask[x] == 0,
        0 <= x < MAX_PTASKS && !waits(m.word(old(p0)), x) ==> final(p0).tasks[x] == old(p0).tasks[x]
            && final(t).ptask[x] == old(t).ptask[x],
        forall|n: int|
            0 <= n < old(p0).mutexes@.len() && n != m.place() ==> #[trigger] final(p0).mutexes@[n]
                == old(p0).mutexes@[n],
{
    let mid = choose|mid: Preempt|
        {
            &&& mid == (Preempt { mutexes: mid.mutexes, ..*old(p0) })
            &&& mid.mutexes@ == old(p0).mutexes@.update(
                m.place(),
                (MutexCore { poisoned: true, ..old(p0).mutexes@[m.place()] }),
            )
            &&& #[trigger] all_woken(&mid, final(p0), old(t), final(t), m.place())
        };
    let w0 = old(p0).mutexes@[m.place()];
    let w1 = mid.mutexes@[m.place()];
    assert(w1.waiters == w0.waiters);
    if 0 <= x < MAX_PTASKS {
        assert(final(p0).tasks[x] == final(p0).tasks@[x]);
        if waits(w0, x) {
            let i = choose|i: int| 0 <= i < MAX_PTASKS && #[trigger] w0.waiters[i] == x;
            assert(w1.waiters[i] == x);
            assert(waits_within(w1, x, MAX_PTASKS as int));
        }
        if waits_within(w1, x, MAX_PTASKS as int) {
            let i = choose|i: int| 0 <= i < MAX_PTASKS && #[trigger] w1.waiters[i] == x;
            assert(w0.waiters[i] == x);
        }
    }
}

/// A lock without a timeout takes a free mutex, and otherwise blocks the
/// running task with nothing armed to wake it.
pub proof fn law_lock_waits_for_the_holder<T>(
    m: &PriorityMutex<T>,
    p: &mut Preempt,
    t: &mut TimerQueue,
    now: u64,
    r: Option<PriorityMutexGuard>,
    me: usize,
)
    requires
        m.wf(old(p)),
        old(p).wf(),
        old(p).running() == Some(me),
        old(p).live(me as int) is Some,
        m.word(old(p)).locked ==> m.word(old(p)).owner != me,
        call_ensures(PriorityMutex::<T>::lock, (m, p, t, now), r),
    ensures
        *final(t) == *old(t),
        !m.word(old(p)).locked ==> r is Some && m.word(final(p)).locked && m.word(final(p)).owner
            == me,
        m.word(old(p)).locked ==> r is None && final(p).tasks[me as int].state
            == SlotState::Blocked && m.word(final(p)).owner == m.word(old(p)).owner,
{
    assert(final(p).tasks@[me as int] == final(p).tasks[me as int]);
}

/// A timeout that ends beyond the clock ends where the clock has wrapped to.
pub proof fn law_timeout_wraps<T>(
    m: &PriorityMutex<T>,
    p: &mut Preempt,
    t: &mut TimerQueue,
    d: Duration,
    span: u64,
    now: u64,
    r: (LockStep, Option<u64>),
)
    requires
        call_ensures(PriorityMutex::<T>::lock_timeout, (m, p, t, Some(d), now), r),
        call_ensures(Duration::as_micros, (&d,), span),
        now + span > u64::MAX,
    ensures
        r.1 is Some && r.1->0 == now + span - 0x1_0000_0000_0000_0000,
{
}

/// A lock word is taken exactly if it is free, for the task that is named.
pub proof fn law_free_word_is_taken<T>(
    m: &PriorityMutex<T>,
    p: &mut Preempt,
    me: usize,
    r: bool,
)
    requires
        m.wf(old(p)),
        call_ensures(PriorityMutex::<T>::try_acquire, (m, p, me), r),
    ensures
        r <==> !m.word(old(p)).locked,
        r ==> m.word(final(p)).locked && m.word(final(p)).owner == me,
        !r ==> *final(p) == *old(p),
        final(p).tasks == old(p).tasks,
{
}

} // verus!
