//! Task control blocks and the registry of preemptive tasks.
use crate::config;
use crate::preempt::mutex::{self, inherits};
use crate::preempt::sched::{self, Preempt};
use vstd::prelude::*;

verus! {

/// Preemptive task slots.
pub const MAX_PTASKS: usize = config::MAX_PTASKS;

/// Mutexes that one task may hold at a time.
pub const MAX_HELD: usize = config::MAX_HELD;

/// The id that names no task.
pub const NO_TASK: usize = usize::MAX;

/// Scheduling state of a task, as its observers see it.
#[derive(Clone, Copy, PartialEq, Eq, Structural, Debug)]
pub enum TaskState {
    /// Waiting for the processor.
    Ready,
    /// On a processor.
    Running,
    /// Waiting for an event.
    Blocked,
}

/// Scheduling state of a slot.
#[derive(Clone, Copy, PartialEq, Eq, Structural, Debug)]
pub enum SlotState {
    /// Waiting for the processor, or free.
    Ready,
    /// On a processor.
    Running,
    /// Waiting for an event.
    Blocked,
    /// Paused; not runnable until it is resumed.
    Suspended,
}

/// One entry of a task's list of held mutexes.
#[derive(Clone, Copy, Debug)]
pub struct HeldMutex {
    /// The mutex, by its place in the mutex table.
    pub mutex: Option<usize>,
}

impl HeldMutex {
    /// No mutex.
    pub fn empty() -> (r: Self)
        ensures
            r.mutex is None,
    {
        HeldMutex { mutex: None }
    }
}

/// Task control block.
#[derive(Clone, Copy)]
pub struct Tcb {
    /// Saved stack pointer; meaningful while the task is off the processor.
    pub sp: usize,
    /// Priority that the task was declared with.
    pub base_priority: u8,
    /// Priority in force: the declared one, or a higher one that the task
    /// inherits from a waiter of a mutex it holds.
    pub effective_priority: u8,
    /// Scheduling state.
    pub state: SlotState,
    /// The slot holds a live task.
    pub used: bool,
    /// Lowest address of the task's stack, 0 when unknown.
    pub stack_base: usize,
    /// Bytes of the task's stack, 0 when unknown.
    pub stack_size: usize,
    /// Mutexes that the task holds.
    pub held: [HeldMutex; MAX_HELD],
    /// Mutexes that the task has taken and not given back.
    pub held_count: u8,
    /// Time of the last watchdog check-in, in the low word of the clock.
    pub last_checkin: u32,
    /// How often the slot was taken; tells a recycled slot from the old one.
    pub generation: u32,
    /// Bytes of the value that the task returned.
    pub result_buf: [u8; 32],
    /// Length of that value.
    pub result_size: u8,
    /// Owner's handle of the value's destructor, 0 for none.
    pub result_drop: usize,
    /// The task's entry function returned.
    pub exited: bool,
    /// The task was taken out of service by a fault.
    pub faulted: bool,
    /// The task that waits for this one to exit.
    pub joiner: usize,
    /// The task was asked to stop.
    pub stop_requested: bool,
    /// A join took the value away, and the duty to destroy it.
    pub taken: bool,
}

impl Tcb {
    /// A live task that waits for the processor.
    pub open spec fn ready(&self) -> bool {
        self.used && self.state == SlotState::Ready
    }

    /// The task's stack, if it is known.
    pub fn stack_info(&self) -> (r: Option<(usize, usize)>)
        ensures
            r == (if self.stack_base == 0 || self.stack_size == 0 {
                None
            } else {
                Some((self.stack_base, self.stack_size))
            }),
    {
        if self.stack_base == 0 || self.stack_size == 0 {
            None
        } else {
            Some((self.stack_base, self.stack_size))
        }
    }

    /// What a slot holds before it is first taken.
    pub open spec fn blank(&self) -> bool {
        &&& self.sp == 0
        &&& self.base_priority == 0
        &&& self.effective_priority == 0
        &&& self.state == SlotState::Ready
        &&& !self.used
        &&& self.stack_base == 0
        &&& self.stack_size == 0
        &&& forall|i: int| 0 <= i < MAX_HELD ==> (#[trigger] self.held[i]).mutex is None
        &&& self.held_count == 0
        &&& self.last_checkin == 0
        &&& self.generation == 0
        &&& forall|i: int| 0 <= i < 32 ==> #[trigger] self.result_buf[i] == 0
        &&& self.result_size == 0
        &&& self.result_drop == 0
        &&& !self.exited
        &&& !self.faulted
        &&& self.joiner == NO_TASK
        &&& !self.stop_requested
        &&& !self.taken
    }

    /// A free slot.
    pub fn new() -> (r: Self)
        ensures
            r.blank(),
    {
        Tcb {
            sp: 0,
            base_priority: 0,
            effective_priority: 0,
            state: SlotState::Ready,
            used: false,
            stack_base: 0,
            stack_size: 0,
            held: [HeldMutex { mutex: None }; MAX_HELD],
            held_count: 0,
            last_checkin: 0,
            generation: 0,
            result_buf: [0; 32],
            result_size: 0,
            result_drop: 0,
            exited: false,
            faulted: false,
            joiner: NO_TASK,
            stop_requested: false,
            taken: false,
        }
    }

    /// Record mutex `m` in the first empty entry of the held list. False,
    /// with nothing changed, if the list is full.
    pub fn push_held(&mut self, m: usize) -> (r: bool)
        ensures
            r == (old(self).held_count < MAX_HELD && exists|i: int|
                0 <= i < MAX_HELD && (#[trigger] old(self).held[i]).mutex is None),
            !r ==> *final(self) == *old(self),
            r ==> exists|i: int|
                {
                    &&& 0 <= i < MAX_HELD
                    &&& (#[trigger] old(self).held[i]).mutex is None
                    &&& forall|j: int|
                        0 <= j < i ==> (#[trigger] old(self).held[j]).mutex is Some
                    &&& final(self).held@ == old(self).held@.update(
                        i,
                        (HeldMutex { mutex: Some(m) }),
                    )
                },
            r ==> final(self).held_count == old(self).held_count + 1,
            r ==> *final(self) == (Tcb {
                held: final(self).held,
                held_count: final(self).held_count,
                ..*old(self)
            }),
    {
        if self.held_count as usize >= MAX_HELD {
            return false;
        }
        let mut i: usize = 0;
        while i < MAX_HELD
            invariant
                i <= MAX_HELD,
                *self == *old(self),
                self.held_count < MAX_HELD,
                forall|j: int| 0 <= j < i ==> (#[trigger] self.held[j]).mutex is Some,
            decreases MAX_HELD - i,
        {
            if self.held[i].mutex.is_none() {
                self.held[i] = HeldMutex { mutex: Some(m) };
                self.held_count = self.held_count + 1;
                return true;
            }
            i = i + 1;
        }
        false
    }

    /// The held list names `m`.
    pub open spec fn holds(&self, m: usize) -> bool {
        exists|i: int| 0 <= i < MAX_HELD && (#[trigger] self.held[i]).mutex == Some(m)
    }

    /// Forget mutex `m`: its first entry is emptied and the count goes down.
    /// Nothing changes if the list does not name it.
    pub fn remove_held(&mut self, m: usize)
        ensures
            !old(self).holds(m) ==> *final(self) == *old(self),
            old(self).holds(m) ==> exists|i: int|
                {
                    &&& 0 <= i < MAX_HELD
                    &&& (#[trigger] old(self).held[i]).mutex == Some(m)
                    &&& forall|j: int|
                        0 <= j < i ==> (#[trigger] old(self).held[j]).mutex != Some(m)
                    &&& final(self).held@ == old(self).held@.update(i, (HeldMutex { mutex: None }))
                },
            old(self).holds(m) ==> final(self).held_count == (if old(self).held_count == 0 {
                255
            } else {
                old(self).held_count - 1
            }),
            *final(self) == (Tcb {
                held: final(self).held,
                held_count: final(self).held_count,
                ..*old(self)
            }),
    {
        let mut i: usize = 0;
        while i < MAX_HELD
            invariant
                i <= MAX_HELD,
                *self == *old(self),
                forall|j: int| 0 <= j < i ==> (#[trigger] self.held[j]).mutex != Some(m),
            decreases MAX_HELD - i,
        {
            match self.held[i].mutex {
                Some(x) => {
                    if x == m {
                        assert(old(self).held[i as int].mutex == Some(m));
                        self.held[i] = HeldMutex { mutex: None };
                        self.held_count = self.held_count.wrapping_sub(1);
                        return ;
                    }
                },
                None => {},
            }
            i = i + 1;
        }
    }

    /// The observed state: a paused task counts as waiting.
    pub open spec fn observed(&self) -> TaskState {
        match self.state {
            SlotState::Running => TaskState::Running,
            SlotState::Blocked => TaskState::Blocked,
            _ => TaskState::Ready,
        }
    }

    /// The scheduling state.
    pub fn state(&self) -> (r: TaskState)
        ensures
            r == self.observed(),
    {
        match self.state {
            SlotState::Running => TaskState::Running,
            SlotState::Blocked => TaskState::Blocked,
            _ => TaskState::Ready,
        }
    }

    /// The slot state that an observed state is stored as.
    pub open spec fn stored(s: TaskState) -> SlotState {
        match s {
            TaskState::Ready => SlotState::Ready,
            TaskState::Running => SlotState::Running,
            TaskState::Blocked => SlotState::Blocked,
        }
    }

    /// Set the scheduling state of task `id`, and queue or unqueue it
    /// accordingly: a ready task stands in the queue of its effective
    /// priority, a running or blocked one in none.
    pub fn set_state(p: &mut Preempt, id: usize, s: TaskState)
        requires
            old(p).wf(),
            id < MAX_PTASKS,
            old(p).tasks[id as int].used,
        ensures
            final(p).wf(),
            final(p).frame(old(p)),
            inherits(old(p)) ==> inherits(final(p)),
            final(p).tasks@ == old(p).tasks@.update(
                id as int,
                (Tcb { state: Self::stored(s), ..old(p).tasks[id as int] }),
            ),
            s == TaskState::Ready ==> {
                &&& final(p).harts.broadcast_from(&old(p).harts)
                &&& final(p).ready_at@ == old(p).ready_at@.update(id as int, old(p).cycle)
            },
            s != TaskState::Ready ==> final(p).harts == old(p).harts && final(p).ready_at == old(
                p,
            ).ready_at,
    {
        let v = match s {
            TaskState::Ready => SlotState::Ready,
            TaskState::Running => SlotState::Running,
            TaskState::Blocked => SlotState::Blocked,
        };
        p.tasks[id].state = v;
        let ghost mid = *p;
        match s {
            TaskState::Ready => sched::ready_add(p, id),
            TaskState::Running | TaskState::Blocked => sched::ready_remove(p, id),
        }
        proof {
            let pre = *old(p);
            assert(forall|q: int, x: int| #[trigger]
                mid.in_queue(q, x) == pre.in_queue(q, x));
            sched::lemma_slot_changed(pre, *p, id as int, p.tasks[id as int]);
            if inherits(&pre) {
                mutex::lemma_inherits_same(pre, *p);
            }
        }
    }

    /// Set the effective priority of task `id`, and move the task to the
    /// queue of that priority if it stands in one.
    pub fn set_effective_priority(p: &mut Preempt, id: usize, new: u8)
        requires
            old(p).wf(),
            id < MAX_PTASKS,
            new < config::PRIORITY_LEVELS,
        ensures
            final(p).wf(),
            final(p).frame(old(p)),
            final(p).harts == old(p).harts,
            final(p).ready_at == old(p).ready_at,
            final(p).tasks@ == old(p).tasks@.update(
                id as int,
                (Tcb { effective_priority: new, ..old(p).tasks[id as int] }),
            ),
    {
        let before: u8 = p.tasks[id].effective_priority;
        p.tasks[id].effective_priority = new;
        let ghost mid = *p;
        sched::on_effective_priority_change(p, id, before, new);
        proof {
            let pre = *old(p);
            assert(forall|q: int, x: int| #[trigger]
                mid.in_queue(q, x) == pre.in_queue(q, x));
            assert(pre.ready(id as int) ==> pre.in_queue(pre.eff(id as int), id as int));
            sched::lemma_slot_changed(pre, *p, id as int, p.tasks[id as int]);
        }
    }
}

impl Default for Tcb {
    fn default() -> (r: Self)
        ensures
            r.blank(),
    {
        Self::new()
    }
}

/// What registering leaves in a slot: the task's own description, and a clean
/// life cycle.
pub open spec fn registered(
    pre: Tcb,
    sp: usize,
    priority: u8,
    stack_base: usize,
    stack_size: usize,
) -> Tcb {
    Tcb {
        sp,
        base_priority: priority,
        effective_priority: priority,
        stack_base,
        stack_size,
        joiner: NO_TASK,
        exited: false,
        faulted: false,
        stop_requested: false,
        taken: false,
        last_checkin: 0,
        result_size: 0,
        held_count: 0,
        state: SlotState::Ready,
        used: true,
        generation: (if pre.generation == u32::MAX {
            0
        } else {
            (pre.generation + 1) as u32
        }),
        ..pre
    }
}

/// Take the first free slot for a task and queue it. None, with nothing
/// changed, if every slot is taken.
pub fn register_full(
    p: &mut Preempt,
    sp: usize,
    priority: u8,
    stack_base: usize,
    stack_size: usize,
) -> (r: Option<usize>)
    requires
        old(p).wf(),
        priority < config::PRIORITY_LEVELS,
    ensures
        final(p).wf(),
        inherits(old(p)) ==> inherits(final(p)),
        r is None <==> forall|i: int| 0 <= i < MAX_PTASKS ==> (#[trigger] old(p).tasks[i]).used,
        r is None ==> *final(p) == *old(p),
        r matches Some(id) ==> {
            &&& id < MAX_PTASKS
            &&& !old(p).tasks[id as int].used
            &&& forall|i: int| 0 <= i < id ==> (#[trigger] old(p).tasks[i]).used
            &&& final(p).tasks@ == old(p).tasks@.update(
                id as int,
                registered(old(p).tasks[id as int], sp, priority, stack_base, stack_size),
            )
            &&& final(p).frame(old(p))
            &&& final(p).harts.broadcast_from(&old(p).harts)
            &&& final(p).ready_at@ == old(p).ready_at@.update(id as int, old(p).cycle)
        },
{
    let mut id: usize = 0;
    while id < MAX_PTASKS
        invariant
            id <= MAX_PTASKS,
            *p == *old(p),
            p.wf(),
            priority < config::PRIORITY_LEVELS,
            forall|i: int| 0 <= i < id ==> (#[trigger] old(p).tasks[i]).used,
        decreases MAX_PTASKS - id,
    {
        if !p.tasks[id].used {
            p.tasks[id].sp = sp;
            p.tasks[id].base_priority = priority;
            p.tasks[id].effective_priority = priority;
            p.tasks[id].stack_base = stack_base;
            p.tasks[id].stack_size = stack_size;
            p.tasks[id].joiner = NO_TASK;
            p.tasks[id].exited = false;
            p.tasks[id].faulted = false;
            p.tasks[id].stop_requested = false;
            p.tasks[id].taken = false;
            p.tasks[id].last_checkin = 0;
            p.tasks[id].result_size = 0;
            p.tasks[id].held_count = 0;
            p.tasks[id].state = SlotState::Ready;
            p.tasks[id].used = true;
            p.tasks[id].generation = p.tasks[id].generation.wrapping_add(1);
            let ghost mid = *p;
            sched::ready_add(p, id);
            proof {
                let pre = *old(p);
                assert(forall|q: int, x: int| #[trigger]
                    mid.in_queue(q, x) == pre.in_queue(q, x));
                assert(p.tasks@ =~= pre.tasks@.update(id as int, p.tasks[id as int]));
                sched::lemma_slot_changed(pre, *p, id as int, p.tasks[id as int]);
                if inherits(&pre) {
                    mutex::lemma_registered_inherits(pre, *p, id as int);
                }
            }
            return Some(id);
        }
        id = id + 1;
    }
    None
}

/// Take a slot for a task whose stack is not described.
pub fn register(p: &mut Preempt, sp: usize, priority: u8) -> (r: Option<usize>)
    requires
        old(p).wf(),
        priority < config::PRIORITY_LEVELS,
    ensures
        final(p).wf(),
        inherits(old(p)) ==> inherits(final(p)),
        r is None <==> forall|i: int| 0 <= i < MAX_PTASKS ==> (#[trigger] old(p).tasks[i]).used,
        r is None ==> *final(p) == *old(p),
        r matches Some(id) ==> {
            &&& id < MAX_PTASKS
            &&& !old(p).tasks[id as int].used
            &&& forall|i: int| 0 <= i < id ==> (#[trigger] old(p).tasks[i]).used
            &&& final(p).tasks@ == old(p).tasks@.update(
                id as int,
                registered(old(p).tasks[id as int], sp, priority, 0, 0),
            )
            &&& final(p).frame(old(p))
            &&& final(p).harts.broadcast_from(&old(p).harts)
            &&& final(p).ready_at@ == old(p).ready_at@.update(id as int, old(p).cycle)
        },
{
    register_full(p, sp, priority, 0, 0)
}

/// The live task in slot `id`.
pub fn get(p: &Preempt, id: usize) -> (r: Option<&Tcb>)
    ensures
        r == p.live(id as int),
{
    if id < MAX_PTASKS && p.tasks[id].used {
        Some(&p.tasks[id])
    } else {
        None
    }
}

/// A mutex that was recorded is held and counted; forgetting it again restores
/// the count and, if it was not recorded twice, the task holds it no more.
pub proof fn law_held_list_remembers(a: &mut Tcb, b: &mut Tcb, m: usize, n: usize, r: bool)
    requires
        call_ensures(Tcb::push_held, (a, m), r),
        r,
        *old(b) == *final(a),
        call_ensures(Tcb::remove_held, (b, m), ()),
        !old(a).holds(m),
        n != m,
    ensures
        final(a).holds(m),
        final(a).holds(n) == old(a).holds(n),
        final(a).held_count == old(a).held_count + 1,
        !final(b).holds(m),
        final(b).holds(n) == old(a).holds(n),
        final(b).held_count == old(a).held_count,
        final(b).base_priority == old(a).base_priority,
        final(b).effective_priority == old(a).effective_priority,
        final(b).state == old(a).state,
{
    let i = choose|i: int|
        {
            &&& 0 <= i < MAX_HELD
            &&& (#[trigger] old(a).held[i]).mutex is None
            &&& forall|j: int| 0 <= j < i ==> (#[trigger] old(a).held[j]).mutex is Some
            &&& final(a).held@ == old(a).held@.update(i, (HeldMutex { mutex: Some(m) }))
        };
    assert(final(a).held[i].mutex == Some(m));
    assert forall|j: int| 0 <= j < MAX_HELD && j != i implies #[trigger] final(a).held[j] == old(
        a,
    ).held[j] by {
        assert(final(a).held@[j] == old(a).held@[j]);
    }
    if old(a).holds(n) {
        let j = choose|j: int| 0 <= j < MAX_HELD && (#[trigger] old(a).held[j]).mutex == Some(n);
        assert(final(a).held[j].mutex == Some(n));
    }
    if final(a).holds(n) {
        let j = choose|j: int| 0 <= j < MAX_HELD && (#[trigger] final(a).held[j]).mutex == Some(n);
        assert(old(a).held[j].mutex == Some(n));
    }
    let k = choose|k: int|
        {
            &&& 0 <= k < MAX_HELD
            &&& (#[trigger] old(b).held[k]).mutex == Some(m)
            &&& forall|j: int| 0 <= j < k ==> (#[trigger] old(b).held[j]).mutex != Some(m)
            &&& final(b).held@ == old(b).held@.update(k, (HeldMutex { mutex: None }))
        };
    assert(k == i) by {
        if k != i {
            assert(old(a).held[k].mutex == Some(m));
        }
    }
    assert forall|j: int| 0 <= j < MAX_HELD && j != k implies #[trigger] final(b).held[j] == old(
        a,
    ).held[j] by {
        assert(final(b).held@[j] == old(b).held@[j]);
    }
    assert forall|j: int| 0 <= j < MAX_HELD implies (#[trigger] final(b).held[j]).mutex != Some(
        m,
    ) by {
        if j != k {
            assert(old(a).held[j].mutex != Some(m));
        } else {
            assert(final(b).held@[k].mutex is None);
        }
    }
    if old(a).holds(n) {
        let j = choose|j: int| 0 <= j < MAX_HELD && (#[trigger] old(a).held[j]).mutex == Some(n);
        assert(final(b).held[j].mutex == Some(n));
    }
    if final(b).holds(n) {
        let j = choose|j: int| 0 <= j < MAX_HELD && (#[trigger] final(b).held[j]).mutex == Some(n);
        if j == k {
            assert(final(b).held@[k].mutex is None);
        }
        assert(old(a).held[j].mutex == Some(n));
    }
}

/// A task's state is what it was set to, and it stands in the queue of its
/// priority exactly while it is ready.
pub proof fn law_state_is_what_was_set(
    p: &mut Preempt,
    id: usize,
    s: TaskState,
    r: TaskState,
    q: int,
)
    requires
        call_ensures(Tcb::set_state, (p, id, s), ()),
        id < MAX_PTASKS,
        old(p).wf(),
        old(p).tasks[id as int].used,
        call_ensures(Tcb::state, (&final(p).tasks[id as int],), r),
    ensures
        r == s,
        final(p).in_queue(q, id as int) == (s == TaskState::Ready && q == old(
            p,
        ).tasks[id as int].effective_priority),
        forall|x: int|
            0 <= x < MAX_PTASKS && x != id ==> #[trigger] final(p).tasks[x] == old(p).tasks[x],
{
    assert(final(p).tasks@[id as int] == final(p).tasks[id as int]);
    if final(p).in_queue(q, id as int) {
        assert(final(p).ready(id as int));
    }
    if s == TaskState::Ready {
        assert(final(p).ready(id as int));
    }
    assert forall|x: int| 0 <= x < MAX_PTASKS && x != id implies #[trigger] final(p).tasks[x]
        == old(p).tasks[x] by {
        assert(final(p).tasks@[x] == old(p).tasks@[x]);
    }
}

/// A task that was registered is found in its slot, ready, with its own
/// priority and stack and with nothing left of the task before it but its
/// number, which is the next one.
pub proof fn law_registered_task_is_new(
    p: &mut Preempt,
    sp: usize,
    priority: u8,
    stack_base: usize,
    stack_size: usize,
    r: Option<usize>,
    found: Option<&Tcb>,
)
    requires
        call_ensures(register_full, (p, sp, priority, stack_base, stack_size), r),
        old(p).wf(),
        r is Some,
        call_ensures(get, (&*final(p), r->0), found),
    ensures
        !old(p).tasks[r->0 as int].used,
        found is Some,
        found->0.sp == sp,
        found->0.base_priority == priority,
        found->0.effective_priority == priority,
        found->0.stack_base == stack_base,
        found->0.stack_size == stack_size,
        found->0.state == SlotState::Ready,
        !found->0.exited,
        !found->0.faulted,
        !found->0.stop_requested,
        !found->0.taken,
        found->0.joiner == NO_TASK,
        found->0.held_count == 0,
        found->0.last_checkin == 0,
        found->0.result_size == 0,
        old(p).tasks[r->0 as int].generation < u32::MAX ==> found->0.generation == old(
            p,
        ).tasks[r->0 as int].generation + 1,
        final(p).in_queue(priority as int, r->0 as int),
        forall|x: int|
            0 <= x < MAX_PTASKS && x != r->0 ==> #[trigger] final(p).tasks[x] == old(p).tasks[x],
{
    let id = r->0 as int;
    assert(final(p).tasks@[id] == final(p).tasks[id]);
    assert(final(p).ready(id));
    assert forall|x: int| 0 <= x < MAX_PTASKS && x != id implies #[trigger] final(p).tasks[x]
        == old(p).tasks[x] by {
        assert(final(p).tasks@[x] == old(p).tasks@[x]);
    }
}

/// A task's effective priority is what it was set to, and a ready task stands
/// in that queue alone.
pub proof fn law_priority_is_what_was_set(p: &mut Preempt, id: usize, new: u8, q: int)
    requires
        call_ensures(Tcb::set_effective_priority, (p, id, new), ()),
        id < MAX_PTASKS,
        old(p).wf(),
    ensures
        final(p).tasks[id as int].effective_priority == new,
        final(p).tasks[id as int].base_priority == old(p).tasks[id as int].base_priority,
        final(p).tasks[id as int].state == old(p).tasks[id as int].state,
        final(p).in_queue(q, id as int) == (old(p).ready(id as int) && q == new),
{
    assert(final(p).tasks@[id as int] == final(p).tasks[id as int]);
    if final(p).in_queue(q, id as int) {
        assert(final(p).ready(id as int));
    }
    if old(p).ready(id as int) {
        assert(final(p).ready(id as int));
    }
}

/// A slot is found exactly if a live task is in it; its stack is known exactly
/// if it has an address and a size, and then those are told.
pub proof fn law_task_is_found(
    p: &Preempt,
    id: usize,
    t: &Tcb,
    r: Option<&Tcb>,
    s: Option<(usize, usize)>,
)
    requires
        call_ensures(get, (p, id), r),
        call_ensures(Tcb::stack_info, (t,), s),
    ensures
        r is Some <==> id < MAX_PTASKS && p.tasks[id as int].used,
        r is Some ==> *r->0 == p.tasks[id as int],
        s is Some <==> t.stack_base != 0 && t.stack_size != 0,
        s is Some ==> s == Some((t.stack_base, t.stack_size)),
{
}

/// A task that is registered without a stack is ready in the lowest free slot,
/// at its priority, with no stack known.
pub proof fn law_bare_task_is_registered(
    p: &mut Preempt,
    sp: usize,
    priority: u8,
    r: Option<usize>,
    x: int,
)
    requires
        call_ensures(register, (p, sp, priority), r),
        0 <= x < MAX_PTASKS,
    ensures
        r is None ==> old(p).tasks[x].used && *final(p) == *old(p),
        r matches Some(id) ==> {
            &&& !old(p).tasks[id as int].used
            &&& x < id ==> old(p).tasks[x].used
            &&& final(p).tasks[id as int].ready()
            &&& final(p).tasks[id as int].sp == sp
            &&& final(p).tasks[id as int].base_priority == priority
            &&& final(p).tasks[id as int].effective_priority == priority
            &&& final(p).tasks[id as int].stack_base == 0
            &&& final(p).tasks[id as int].stack_size == 0
            &&& x != id ==> final(p).tasks[x] == old(p).tasks[x]
        },
{
    if let Some(id) = r {
        assert(final(p).tasks@[id as int] == final(p).tasks[id as int]);
        assert(final(p).tasks@[x] == final(p).tasks[x]);
    }
}

} // verus!
