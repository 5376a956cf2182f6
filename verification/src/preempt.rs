//! Preemptive tier: tasks with stacks of their own, scheduled by priority.
use crate::config::PRIORITY_LEVELS;
use crate::deadlines::{self, Deadlines};
use crate::exec_time;
use crate::fault::{self, FaultAction, FaultInfo, FaultKind};
use crate::kernel::Kernel;
use crate::latency::{self, Histograms, Kind};
use crate::preempt::lifecycle::{parked, JoinStep};
use crate::preempt::mutex::inherits;
use crate::preempt::sched::Preempt;
use crate::preempt::stack_pool::{StackAlloc, StackPool};
use crate::preempt::tcb::{SlotState, TaskState, Tcb, MAX_PTASKS};
use crate::timer::{self, TimerQueue};
use vstd::prelude::*;

pub mod lifecycle;
pub mod mutex;
pub mod sched;
pub mod stack_pool;
pub mod tcb;

verus! {

/// A spawned task: its slot, and how often the slot had been taken when it
/// was spawned. A slot that was taken again is another task.
#[derive(Clone, Copy, PartialEq, Eq, Structural, Debug)]
pub struct TaskHandle {
    /// The slot.
    pub id: u16,
    /// The slot's generation.
    pub generation: u32,
}

/// Why a task could not be spawned.
#[derive(Clone, Copy, PartialEq, Eq, Structural, Debug)]
pub enum SpawnError {
    /// Every task slot is taken.
    RegistryFull,
    /// The stack pool is used up.
    StackPoolFull,
}

impl TaskHandle {
    /// The handle names the task that its slot holds.
    pub open spec fn names(&self, p: &Preempt) -> bool {
        p.live(self.id as int) is Some && p.tasks[self.id as int].generation == self.generation
    }

    /// Whether the handle still names its task.
    pub fn is_valid(&self, p: &Preempt) -> (r: bool)
        ensures
            r == self.names(p),
    {
        let id: usize = self.id as usize;
        id < MAX_PTASKS && p.tasks[id].used && p.tasks[id].generation == self.generation
    }
}

/// The running task was blocked until `deadline`, and the executing hart asked
/// to reschedule; nothing happened without a running task.
pub open spec fn slept(
    pre: &Preempt,
    post: &Preempt,
    pre_t: &TimerQueue,
    post_t: &TimerQueue,
    deadline: u64,
) -> bool {
    match pre.running() {
        None => *post == *pre && *post_t == *pre_t,
        Some(me) => parked(pre, post) && timer::ptask_armed(pre_t, post_t, me as int, deadline),
    }
}

/// Block the running task until `deadline_us`. A deadline that has passed
/// still gives up the processor once. Nothing happens without a running task.
///
/// When the task runs again its deadline is to be cancelled.
pub fn sleep_until(p: &mut Preempt, t: &mut TimerQueue, deadline_us: u64)
    requires
        old(p).wf(),
        old(t).wf(),
    ensures
        final(p).wf(),
        inherits(old(p)) ==> inherits(final(p)),
        final(t).wf(),
        slept(old(p), final(p), old(t), final(t), deadline_us),
{
    let me: usize = match sched::current(p) {
        Some(me) => me,
        None => {
            return ;
        },
    };
    lifecycle::park(p);
    let _ = timer::register_ptask_deadline(t, deadline_us, me);
}

/// The pattern that fills a stack before its task runs, byte by byte.
pub const STACK_FILL: u8 = 0xAA;

/// The same pattern, as the lowest word of a stack.
pub const STACK_FILL_WORD: u32 = 0xAAAA_AAAA;

/// Stack storage of `SIZE` bytes.
pub struct Stack<const SIZE: usize>(pub [u8; SIZE]);

impl<const SIZE: usize> Stack<SIZE> {
    /// Storage of zeros.
    pub fn new() -> (r: Self)
        ensures
            forall|i: int| 0 <= i < SIZE ==> #[trigger] r.0[i] == 0,
    {
        Stack([0; SIZE])
    }
}

impl<const SIZE: usize> Default for Stack<SIZE> {
    fn default() -> (r: Self)
        ensures
            forall|i: int| 0 <= i < SIZE ==> #[trigger] r.0[i] == 0,
    {
        Self::new()
    }
}

/// Length of the run of fill bytes at the low end of a stack.
pub open spec fn untouched(stack: Seq<u8>) -> nat
    decreases stack.len(),
{
    if stack.len() == 0 || stack[0] != STACK_FILL {
        0
    } else {
        1 + untouched(stack.skip(1))
    }
}

/// How many bytes of its stack a task has used at most: everything from the
/// top down to the lowest byte that is not the fill pattern any more.
pub fn stack_usage(stack: &[u8]) -> (r: usize)
    ensures
        r == stack@.len() - untouched(stack@),
{
    let n: usize = stack.len();
    let mut i: usize = 0;
    assert(stack@.skip(0) =~= stack@);
    while i < n && stack[i] == STACK_FILL
        invariant
            i <= n,
            n == stack@.len(),
            untouched(stack@) == i + untouched(stack@.skip(i as int)),
        decreases n - i,
    {
        assert(stack@.skip(i as int).skip(1) =~= stack@.skip(i + 1));
        assert(stack@.skip(i as int)[0] == stack@[i as int]);
        i = i + 1;
    }
    proof {
        if i < n {
            assert(stack@.skip(i as int)[0] == stack@[i as int]);
        }
    }
    n - i
}

/// What a task is spawned with.
#[derive(Clone, Copy, Debug)]
pub struct TaskSpec {
    /// Initial stack pointer: the task's first frame is there.
    pub sp: usize,
    /// Lowest address of the stack.
    pub stack_base: usize,
    /// Bytes of the stack.
    pub stack_size: usize,
    /// Priority.
    pub priority: u8,
    /// Bytes of the value that the task returns, at most eight.
    pub result_size: u8,
    /// Owner's handle of that value's destructor, 0 for none.
    pub result_drop: usize,
}

/// The slot of a task that was just spawned.
pub open spec fn spawned(pre: Tcb, s: TaskSpec) -> Tcb {
    Tcb {
        result_size: s.result_size,
        result_drop: s.result_drop,
        ..tcb::registered(pre, s.sp, s.priority, s.stack_base, s.stack_size)
    }
}

/// What spawning does: the lowest free slot holds the new task, which is ready;
/// nothing changes if every slot is taken.
pub open spec fn spawn_attempted(
    pre: &Preempt,
    post: &Preempt,
    s: TaskSpec,
    r: Result<TaskHandle, SpawnError>,
) -> bool {
    &&& r is Err <==> forall|i: int| 0 <= i < MAX_PTASKS ==> (#[trigger] pre.tasks[i]).used
    &&& r is Err ==> r->Err_0 == SpawnError::RegistryFull && *post == *pre
    &&& r matches Ok(h) ==> {
        let id = h.id as int;
        &&& id < MAX_PTASKS
        &&& !pre.tasks[id].used
        &&& forall|i: int| 0 <= i < id ==> (#[trigger] pre.tasks[i]).used
        &&& post.tasks@ == pre.tasks@.update(id, spawned(pre.tasks[id], s))
        &&& h.names(post)
        &&& post.frame(pre)
        &&& post.harts.broadcast_from(&pre.harts)
        &&& post.ready_at@ == pre.ready_at@.update(id, pre.cycle)
    }
}

/// Make a task ready to run. Its stack must be at least `min_stack` bytes.
/// Fails, with nothing changed, if every slot is taken.
pub fn spawn(p: &mut Preempt, s: &TaskSpec, min_stack: usize) -> (r: Result<
    TaskHandle,
    SpawnError,
>)
    requires
        old(p).wf(),
        s.stack_size >= min_stack,
        s.priority < PRIORITY_LEVELS,
        s.result_size <= 8,
    ensures
        final(p).wf(),
        inherits(old(p)) ==> inherits(final(p)),
        spawn_attempted(old(p), final(p), *s, r),
{
    match tcb::register_full(p, s.sp, s.priority, s.stack_base, s.stack_size) {
        Some(id) => {
            let ghost mid = *p;
            p.tasks[id].result_size = s.result_size;
            p.tasks[id].result_drop = s.result_drop;
            proof {
                assert(p.tasks@ =~= mid.tasks@.update(id as int, p.tasks[id as int]));
                sched::lemma_slot_annotated(mid, *p, id as int);
                if inherits(&mid) {
                    mutex::lemma_inherits_same(mid, *p);
                }
                assert(p.tasks@ =~= old(p).tasks@.update(
                    id as int,
                    spawned(old(p).tasks[id as int], *s),
                ));
            }
            Ok(TaskHandle { id: id as u16, generation: p.tasks[id].generation })
        },
        None => Err(SpawnError::RegistryFull),
    }
}

/// What a task is spawned with when its stack comes from the pool.
#[derive(Clone, Copy, Debug)]
pub struct PooledSpec {
    /// Bytes of the stack: a power of two.
    pub stack_size: usize,
    /// Priority.
    pub priority: u8,
    /// Bytes of the value that the task returns, at most eight.
    pub result_size: u8,
    /// Owner's handle of that value's destructor, 0 for none.
    pub result_drop: usize,
}

/// The task that `s` asks for, on stack `a`, with its first frame at `sp`.
pub open spec fn on_stack(s: PooledSpec, a: StackAlloc, sp: usize) -> TaskSpec {
    TaskSpec {
        sp,
        stack_base: a.base,
        stack_size: a.size,
        priority: s.priority,
        result_size: s.result_size,
        result_drop: s.result_drop,
    }
}

/// Spawn a task on a stack of the pool, above a guard band of `guard` bytes.
/// `prepare` readies the stack: it registers the guard band, fills the stack
/// with the watermark pattern, and returns where the task's first frame is.
///
/// Fails if the pool is used up, or if every task slot is taken; in the second
/// case the stack stays taken.
pub fn spawn_ptask_impl<F>(
    p: &mut Preempt,
    pool: &mut StackPool,
    s: &PooledSpec,
    guard: usize,
    min_stack: usize,
    prepare: F,
) -> (r: Result<TaskHandle, SpawnError>) where F: FnOnce(StackAlloc) -> usize
    requires
        old(p).wf(),
        old(pool).wf(),
        stack_pool::is_pow2(s.stack_size as int),
        s.stack_size >= guard,
        s.stack_size >= min_stack,
        s.priority < PRIORITY_LEVELS,
        s.result_size <= 8,
        forall|a: StackAlloc| #[trigger] call_requires(prepare, (a,)),
    ensures
        final(p).wf(),
        inherits(old(p)) ==> inherits(final(p)),
        final(pool).wf(),
        exists|a: Option<StackAlloc>|
            {
                &&& #[trigger] stack_pool::allocated(old(pool), final(pool), s.stack_size, guard, a)
                &&& match a {
                    None => r == Err::<TaskHandle, SpawnError>(SpawnError::StackPoolFull)
                        && *final(p) == *old(p),
                    Some(a) => exists|sp: usize|
                        {
                            &&& #[trigger] call_ensures(prepare, (a,), sp)
                            &&& spawn_attempted(old(p), final(p), on_stack(*s, a, sp), r)
                        },
                }
            },
{
    match stack_pool::alloc_stack(pool, s.stack_size, guard) {
        None => Err(SpawnError::StackPoolFull),
        Some(a) => {
            let sp: usize = prepare(a);
            let spec = TaskSpec {
                sp,
                stack_base: a.base,
                stack_size: a.size,
                priority: s.priority,
                result_size: s.result_size,
                result_drop: s.result_drop,
            };
            spawn(p, &spec, min_stack)
        },
    }
}

/// What is left of a task that was despawned, for the owner of its memory.
#[derive(Clone, Copy, PartialEq, Eq, Structural, Debug)]
pub struct Reclaimed {
    /// Handle of the destructor to run on the task's value, 0 for none.
    pub drop: usize,
    /// The stack to fill with the watermark pattern, if it went back to the
    /// pool.
    pub stack: Option<FilledStack>,
}

/// A stack that was given back.
#[derive(Clone, Copy, PartialEq, Eq, Structural, Debug)]
pub struct FilledStack {
    /// Lowest address.
    pub base: usize,
    /// Bytes.
    pub size: usize,
}

/// The slot of a task that was despawned.
pub open spec fn vacated(t: Tcb) -> Tcb {
    Tcb {
        state: SlotState::Ready,
        exited: false,
        result_size: 0,
        result_drop: 0,
        stop_requested: false,
        taken: false,
        used: false,
        stack_base: 0,
        stack_size: 0,
        ..t
    }
}

impl TaskHandle {
    /// Ask the task to stop. False, with nothing changed, for a stale handle.
    pub fn request_stop(&self, p: &mut Preempt) -> (r: bool)
        requires
            old(p).wf(),
        ensures
            final(p).wf(),
            inherits(old(p)) ==> inherits(final(p)),
            r == self.names(old(p)),
            !r ==> *final(p) == *old(p),
            r ==> *final(p) == (Preempt { tasks: final(p).tasks, ..*old(p) }),
            r ==> final(p).tasks@ == old(p).tasks@.update(
                self.id as int,
                (Tcb { stop_requested: true, ..old(p).tasks[self.id as int] }),
            ),
    {
        if !self.is_valid(p) {
            return false;
        }
        let id: usize = self.id as usize;
        let ghost pre = *p;
        p.tasks[id].stop_requested = true;
        proof {
            assert(p.tasks@ =~= pre.tasks@.update(id as int, p.tasks[id as int]));
            assert(pre.tasks[id as int].result_size <= 8);
            sched::lemma_slot_annotated(pre, *p, id as int);
            if inherits(&pre) {
                mutex::lemma_inherits_same(pre, *p);
            }
        }
        true
    }

    /// Wait for the task to exit; `size` is the size of its value. See
    /// [`lifecycle::join_task`].
    pub fn join(&self, p: &mut Preempt, size: usize) -> (r: JoinStep)
        requires
            old(p).wf(),
        ensures
            final(p).wf(),
            inherits(old(p)) ==> inherits(final(p)),
            !self.names(old(p)) <==> r == JoinStep::Failed(lifecycle::JoinError::Stale),
            self.names(old(p)) && old(p).running() == Some(self.id as usize) <==> r
                == JoinStep::Failed(lifecycle::JoinError::SelfJoin),
            self.names(old(p)) && old(p).running() != Some(self.id as usize) && (old(
                p,
            ).tasks[self.id as int].joiner != tcb::NO_TASK || old(p).tasks[self.id as int].taken)
                <==> r == JoinStep::Failed(lifecycle::JoinError::AlreadyJoined),
            r is Failed && r->Failed_0 != lifecycle::JoinError::Faulted ==> *final(p) == *old(p),
            r is Done || r is Blocked || r == JoinStep::Failed(lifecycle::JoinError::Faulted)
                ==> exists|mid: Preempt|
                {
                    &&& mid == (Preempt { tasks: mid.tasks, ..*old(p) })
                    &&& mid.tasks@ == old(p).tasks@.update(
                        self.id as int,
                        (Tcb {
                            joiner: lifecycle::joiner_id(old(p)),
                            ..old(p).tasks[self.id as int]
                        }),
                    )
                    &&& #[trigger] lifecycle::join_attempted(
                        &mid,
                        final(p),
                        self.id as int,
                        lifecycle::joiner_id(old(p)),
                        size,
                        r,
                    )
                },
    {
        lifecycle::join_task(p, self, size)
    }

    /// Set the task's period. Nothing happens for a stale handle.
    pub fn set_period_us(&self, p: &Preempt, d: &mut Deadlines, period_us: u32)
        ensures
            !self.names(p) ==> *final(d) == *old(d),
            self.names(p) ==> {
                &&& *final(d) == (Deadlines { period: final(d).period, ..*old(d) })
                &&& final(d).period@ == old(d).period@.update(self.id as int, period_us)
            },
    {
        if self.is_valid(p) {
            deadlines::set_period_us(d, self.id as usize, period_us);
        }
    }

    /// Set the task's budget per period. Nothing happens for a stale handle.
    pub fn set_budget_us(&self, p: &Preempt, d: &mut Deadlines, budget_us: u32)
        ensures
            !self.names(p) ==> *final(d) == *old(d),
            self.names(p) ==> {
                &&& *final(d) == (Deadlines { budget: final(d).budget, ..*old(d) })
                &&& final(d).budget@ == old(d).budget@.update(self.id as int, budget_us)
            },
    {
        if self.is_valid(p) {
            deadlines::set_budget_us(d, self.id as usize, budget_us);
        }
    }

    /// The task may be despawned: the handle names it and it is on no
    /// processor.
    pub open spec fn can_despawn(&self, p: &Preempt) -> bool {
        &&& self.names(p)
        &&& p.running() != Some(self.id as usize)
        &&& p.tasks[self.id as int].state != SlotState::Running
    }

    /// Free the task's slot, and give its stack back to the pool. Nothing of the
    /// task is left to the next one in the slot: its timer is disarmed, and its
    /// period and budget are forgotten. A value that the task returned and that
    /// no join took is left to be destroyed. None, with nothing changed, for a
    /// stale handle or a task that is on a processor.
    pub fn despawn(
        &self,
        p: &mut Preempt,
        q: &mut TimerQueue,
        d: &mut Deadlines,
        pool: &mut StackPool,
    ) -> (r: Option<Reclaimed>)
        requires
            old(p).wf(),
            old(q).wf(),
            old(pool).wf(),
        ensures
            final(p).wf(),
            final(q).wf(),
            final(pool).wf(),
            inherits(old(p)) && mutex::uninvolved(old(p), self.id as int) ==> inherits(final(p)),
            r is Some <==> self.can_despawn(old(p)),
            r is None ==> {
                &&& *final(p) == *old(p)
                &&& *final(q) == *old(q)
                &&& *final(d) == *old(d)
                &&& *final(pool) == *old(pool)
            },
            r is Some ==> timer::ptask_set(old(q), final(q), self.id as int, 0),
            r is Some ==> deadlines::forgotten(old(d), final(d), self.id as int),
            r matches Some(rec) ==> {
                let t = old(p).tasks[self.id as int];
                let known = t.stack_base != 0 && t.stack_size != 0;
                let ours = known && old(pool).holds(t.stack_base, t.stack_size);
                &&& rec.drop == (if t.exited {
                    t.result_drop
                } else {
                    0
                })
                &&& rec.stack == (if ours {
                    Some(FilledStack { base: t.stack_base, size: t.stack_size })
                } else {
                    None
                })
                &&& final(p).tasks@ == old(p).tasks@.update(self.id as int, vacated(t))
                &&& final(p).frame(old(p))
                &&& final(p).harts == old(p).harts
                &&& final(p).ready_at == old(p).ready_at
                &&& if known {
                    stack_pool::released(
                        old(pool),
                        final(pool),
                        t.stack_base,
                        t.stack_size,
                        ours,
                    )
                } else {
                    *final(pool) == *old(pool)
                }
            },
    {
        if !self.is_valid(p) {
            return None;
        }
        let id: usize = self.id as usize;
        if let Some(me) = sched::current(p) {
            if me == id {
                return None;
            }
        }
        if p.tasks[id].state() == TaskState::Running {
            return None;
        }
        let ghost pre = *p;
        sched::ready_remove(p, id);
        let ghost mid = *p;
        let mut slot = p.tasks[id];
        let drop: usize = if slot.exited {
            slot.result_drop
        } else {
            0
        };
        let stack = slot.stack_info();
        slot.result_drop = 0;
        slot.state = SlotState::Ready;
        slot.exited = false;
        slot.result_size = 0;
        slot.stop_requested = false;
        slot.taken = false;
        slot.used = false;
        slot.stack_base = 0;
        slot.stack_size = 0;
        p.tasks[id] = slot;
        proof {
            assert(p.tasks@ =~= pre.tasks@.update(id as int, vacated(pre.tasks[id as int])));
            assert(forall|q: int, x: int| #[trigger] p.in_queue(q, x) == mid.in_queue(q, x));
            assert forall|i: int| 0 <= i < tcb::MAX_HELD implies ((
            #[trigger] p.tasks[id as int].held[i]).mutex matches Some(m) ==> m
                < pre.mutexes@.len()) by {
                assert(p.tasks[id as int].held[i] == pre.tasks[id as int].held[i]);
            }
            assert(pre.tasks[id as int].base_priority < PRIORITY_LEVELS);
            sched::lemma_slot_changed(pre, *p, id as int, p.tasks[id as int]);
            if inherits(&pre) && mutex::uninvolved(&pre, id as int) {
                mutex::lemma_vacated_inherits(pre, *p, id as int);
            }
        }
        timer::cancel_ptask_deadline(q, id);
        deadlines::forget(d, id);
        let mut given: Option<FilledStack> = None;
        if let Some((base, size)) = stack {
            if stack_pool::release_stack(pool, base, size) {
                given = Some(FilledStack { base, size });
            }
        }
        Some(Reclaimed { drop, stack: given })
    }

    /// Take a ready task out of scheduling until it is resumed. False, with
    /// nothing changed, for a stale handle or a task that is not ready.
    pub fn pause(&self, p: &mut Preempt) -> (r: bool)
        requires
            old(p).wf(),
        ensures
            final(p).wf(),
            inherits(old(p)) ==> inherits(final(p)),
            r == (self.names(old(p)) && old(p).tasks[self.id as int].state == SlotState::Ready),
            !r ==> *final(p) == *old(p),
            r ==> {
                &&& final(p).tasks@ == old(p).tasks@.update(
                    self.id as int,
                    (Tcb { state: SlotState::Suspended, ..old(p).tasks[self.id as int] }),
                )
                &&& final(p).frame(old(p))
                &&& final(p).harts == old(p).harts
                &&& final(p).ready_at == old(p).ready_at
            },
    {
        if !self.is_valid(p) {
            return false;
        }
        let id: usize = self.id as usize;
        if p.tasks[id].state != SlotState::Ready {
            return false;
        }
        let ghost pre = *p;
        p.tasks[id].state = SlotState::Suspended;
        let ghost mid = *p;
        sched::ready_remove(p, id);
        proof {
            lemma_requeued(pre, mid, *p, id as int);
            if inherits(&pre) {
                mutex::lemma_inherits_same(pre, *p);
            }
        }
        true
    }

    /// Make a paused task ready. False, with nothing changed, for a stale
    /// handle or a task that is not paused.
    pub fn resume(&self, p: &mut Preempt) -> (r: bool)
        requires
            old(p).wf(),
        ensures
            final(p).wf(),
            inherits(old(p)) ==> inherits(final(p)),
            r == (self.names(old(p)) && old(p).tasks[self.id as int].state
                == SlotState::Suspended),
            !r ==> *final(p) == *old(p),
            r ==> {
                &&& final(p).tasks@ == old(p).tasks@.update(
                    self.id as int,
                    (Tcb { state: SlotState::Ready, ..old(p).tasks[self.id as int] }),
                )
                &&& final(p).frame(old(p))
                &&& final(p).harts.broadcast_from(&old(p).harts)
                &&& final(p).ready_at@ == old(p).ready_at@.update(self.id as int, old(p).cycle)
            },
    {
        if !self.is_valid(p) {
            return false;
        }
        let id: usize = self.id as usize;
        if p.tasks[id].state != SlotState::Suspended {
            return false;
        }
        let ghost pre = *p;
        p.tasks[id].state = SlotState::Ready;
        let ghost mid = *p;
        sched::ready_add(p, id);
        proof {
            lemma_requeued(pre, mid, *p, id as int);
            if inherits(&pre) {
                mutex::lemma_inherits_same(pre, *p);
            }
        }
        true
    }
}

/// Changing a live task's state and queueing it accordingly keeps the
/// invariant.
proof fn lemma_requeued(pre: Preempt, mid: Preempt, post: Preempt, id: int)
    requires
        pre.wf(),
        0 <= id < MAX_PTASKS,
        pre.tasks[id].used,
        mid == (Preempt { tasks: mid.tasks, ..pre }),
        mid.tasks@ == pre.tasks@.update(id, (Tcb { state: mid.tasks[id].state, ..pre.tasks[id] })),
        post.tasks == mid.tasks,
        post.frame(&mid),
        post.summary_exact(),
        forall|q: int, x: int|
            #[trigger] post.in_queue(q, x) == (if x == id && q == mid.eff(id) {
                mid.tasks[id].state == SlotState::Ready
            } else {
                mid.in_queue(q, x)
            }),
    ensures
        post.wf(),
{
    assert(forall|q: int, x: int| #[trigger] mid.in_queue(q, x) == pre.in_queue(q, x));
    assert(pre.tasks[id].base_priority < PRIORITY_LEVELS);
    assert forall|i: int| 0 <= i < tcb::MAX_HELD implies ((
    #[trigger] post.tasks[id].held[i]).mutex matches Some(m) ==> m < pre.mutexes@.len()) by {
        assert(post.tasks[id].held[i] == pre.tasks[id].held[i]);
    }
    sched::lemma_slot_changed(pre, post, id, post.tasks[id]);
}

/// Resuming undoes pausing: the slots are as they were before, and the task is
/// queued again.
pub proof fn law_resume_undoes_pause(h: TaskHandle, pre: Preempt, mid: Preempt, post: Preempt)
    requires
        pre.wf(),
        post.wf(),
        h.names(&pre),
        pre.tasks[h.id as int].state == SlotState::Ready,
        mid.tasks@ == pre.tasks@.update(
            h.id as int,
            (Tcb { state: SlotState::Suspended, ..pre.tasks[h.id as int] }),
        ),
        post.tasks@ == mid.tasks@.update(
            h.id as int,
            (Tcb { state: SlotState::Ready, ..mid.tasks[h.id as int] }),
        ),
    ensures
        post.tasks@ == pre.tasks@,
        forall|q: int, x: int| #[trigger] post.in_queue(q, x) == pre.in_queue(q, x),
{
    assert(post.tasks@ =~= pre.tasks@);
    assert forall|x: int| #[trigger] post.ready(x) == pre.ready(x) by {
        if 0 <= x < MAX_PTASKS {
            assert(post.tasks@[x] == pre.tasks@[x]);
        }
    }
    assert forall|q: int, x: int| #[trigger] post.in_queue(q, x) == pre.in_queue(q, x) by {
        if post.in_queue(q, x) {
            assert(post.ready(x));
            assert(post.tasks@[x] == pre.tasks@[x]);
            assert(pre.in_queue(pre.eff(x), x));
        }
        if pre.in_queue(q, x) {
            assert(pre.ready(x));
            assert(post.tasks@[x] == pre.tasks@[x]);
            assert(post.ready(x));
            assert(post.in_queue(post.eff(x), x));
        }
    }
}

/// A handle never names a later task of its slot, as long as the slot was
/// taken fewer times than the generation counts.
pub proof fn law_stale_handle_detected(h: TaskHandle, pre: Preempt, post: Preempt, s: TaskSpec)
    requires
        0 <= h.id < MAX_PTASKS,
        pre.tasks[h.id as int].generation == h.generation,
        h.generation < u32::MAX,
        post.tasks@ == pre.tasks@.update(h.id as int, spawned(pre.tasks[h.id as int], s)),
    ensures
        !h.names(&post),
{
    assert(post.tasks[h.id as int] == post.tasks@[h.id as int]);
}

/// The end of a sleep of `ms` milliseconds that begins at `now`.
pub open spec fn sleep_end(now: u64, ms: u64) -> u64 {
    let span = if ms * 1000 > u64::MAX {
        u64::MAX as int
    } else {
        ms * 1000
    };
    if now + span <= u64::MAX {
        (now + span) as u64
    } else {
        (now + span - 0x1_0000_0000_0000_0000) as u64
    }
}

/// Block the running task for `ms` milliseconds. Nothing happens without a
/// running task.
pub fn sleep_ms(p: &mut Preempt, t: &mut TimerQueue, ms: u64, now: u64)
    requires
        old(p).wf(),
        old(t).wf(),
    ensures
        final(p).wf(),
        inherits(old(p)) ==> inherits(final(p)),
        final(t).wf(),
        slept(old(p), final(p), old(t), final(t), sleep_end(now, ms)),
{
    let span: u64 = match ms.checked_mul(1000) {
        Some(v) => v,
        None => u64::MAX,
    };
    sleep_until(p, t, now.wrapping_add(span));
}

/// Take the running task out of scheduling for good. There must be one.
pub fn park_forever(p: &mut Preempt)
    requires
        old(p).wf(),
        old(p).running() is Some,
    ensures
        final(p).wf(),
        inherits(old(p)) ==> inherits(final(p)),
        parked(old(p), final(p)),
{
    lifecycle::park(p);
}

/// What the first dispatch of a hart needs.
#[derive(Clone, Copy, PartialEq, Eq, Structural, Debug)]
pub struct Dispatch {
    /// The task.
    pub task: usize,
    /// Its stack pointer.
    pub sp: usize,
    /// Lowest address of its stack.
    pub stack_base: usize,
    /// Bytes of its stack.
    pub stack_size: usize,
}

/// Ready task `c` was put on the executing hart's processor and stamped.
pub open spec fn dispatched(pre: &Preempt, post: &Preempt, c: int) -> bool {
    &&& post.tasks@ == pre.tasks@.update(c, (Tcb { state: SlotState::Running, ..pre.tasks[c] }))
    &&& post.current@ == pre.current@.update(pre.harts.hart as int, c as usize)
    &&& post.dispatch_counter == sched::next_stamp(pre)
    &&& post.dispatch_seq@ == pre.dispatch_seq@.update(c, sched::next_stamp(pre))
    &&& post.harts == pre.harts
    &&& post.ready_at == pre.ready_at
    &&& post.cycle == pre.cycle
    &&& post.mutexes == pre.mutexes
}

/// The first dispatch of the executing hart: the next task is put on its
/// processor.
pub open spec fn first_dispatch(pre: &Preempt, post: &Preempt, d: Dispatch) -> bool {
    let c = d.task as int;
    &&& pre.is_next(c)
    &&& dispatched(pre, post, c)
    &&& d.sp == pre.tasks[c].sp
    &&& d.stack_base == pre.tasks[c].stack_base
    &&& d.stack_size == pre.tasks[c].stack_size
}

/// Put ready task `c` on the executing hart's processor. Returns the cycles
/// that it waited, if they are known.
fn dispatch(p: &mut Preempt, c: usize) -> (r: Option<u64>)
    requires
        old(p).wf(),
        old(p).ready(c as int),
    ensures
        final(p).wf(),
        inherits(old(p)) ==> inherits(final(p)),
        dispatched(old(p), final(p), c as int),
        r == waited(old(p), c as int),
{
    Tcb::set_state(p, c, TaskState::Running);
    sched::set_current(p, c);
    sched::on_dispatch(p, c)
}

/// The cycles that task `c` has waited since it became ready, if that moment
/// is known.
pub open spec fn waited(p: &Preempt, c: int) -> Option<u64> {
    if p.ready_at[c] == 0 {
        None
    } else if p.cycle >= p.ready_at[c] {
        Some((p.cycle - p.ready_at[c]) as u64)
    } else {
        Some((p.cycle - p.ready_at[c] + 0x1_0000_0000) as u64)
    }
}

/// Start scheduling on the first hart: the next task is dispatched, and
/// accounting begins. Some task must be ready.
pub fn start(k: &mut Kernel, cycle: u64) -> (r: Dispatch)
    requires
        old(k).wf(),
        old(k).preempt.any_ready(),
    ensures
        final(k).wf(),
        inherits(&old(k).preempt) ==> inherits(&final(k).preempt),
        first_dispatch(&old(k).preempt, &final(k).preempt, r),
        final(k).exec_time.started,
        final(k).exec_time.boot_cycle == cycle,
        final(k).exec_time.last_dispatch == cycle,
        final(k).exec_time.busy == old(k).exec_time.busy,
        wake_recorded(old(k), final(k), waited(&old(k).preempt, r.task as int)),
        *final(k) == (Kernel {
            preempt: final(k).preempt,
            exec_time: final(k).exec_time,
            latency: final(k).latency,
            ..*old(k)
        }),
{
    let first: usize = match sched::schedule(&mut k.preempt) {
        Some(c) => c,
        None => {
            assert(false);
            0
        },
    };
    let wait = dispatch(&mut k.preempt, first);
    record_wake(k, wait);
    exec_time::on_first_dispatch(&mut k.exec_time, cycle);
    let t = k.preempt.tasks[first];
    Dispatch { task: first, sp: t.sp, stack_base: t.stack_base, stack_size: t.stack_size }
}

/// Start scheduling on another hart: the next task is dispatched, if there is
/// one. None means that the hart idles and tries again later. Accounting is
/// left alone: it began with the first hart.
pub fn start_secondary_hart(k: &mut Kernel) -> (r: Option<Dispatch>)
    requires
        old(k).wf(),
    ensures
        final(k).wf(),
        inherits(&old(k).preempt) ==> inherits(&final(k).preempt),
        r is None <==> !old(k).preempt.any_ready(),
        r is None ==> *final(k) == *old(k),
        r matches Some(d) ==> {
            &&& first_dispatch(&old(k).preempt, &final(k).preempt, d)
            &&& wake_recorded(old(k), final(k), waited(&old(k).preempt, d.task as int))
            &&& *final(k) == (Kernel {
                preempt: final(k).preempt,
                latency: final(k).latency,
                ..*old(k)
            })
        },
{
    match sched::schedule(&mut k.preempt) {
        Some(first) => {
            let wait = dispatch(&mut k.preempt, first);
            record_wake(k, wait);
            let t = k.preempt.tasks[first];
            Some(
                Dispatch {
                    task: first,
                    sp: t.sp,
                    stack_base: t.stack_base,
                    stack_size: t.stack_size,
                },
            )
        },
        None => None,
    }
}

/// The cycles from ready to running went into the histogram, if they are
/// known.
pub open spec fn wake_recorded(pre: &Kernel, post: &Kernel, wait: Option<u64>) -> bool {
    match wait {
        Some(c) => latency::recorded(&pre.latency, &post.latency, Kind::SchedulingWake, c),
        None => post.latency == pre.latency,
    }
}

fn record_wake(k: &mut Kernel, wait: Option<u64>)
    ensures
        wake_recorded(old(k), final(k), wait),
        *final(k) == (Kernel { latency: final(k).latency, ..*old(k) }),
{
    if let Some(c) = wait {
        latency::record(&mut k.latency, Kind::SchedulingWake, c);
    }
}

/// What is known when a tick, or a request to reschedule, interrupts a task.
#[derive(Clone, Copy, Debug)]
pub struct Tick {
    /// Stack pointer of the interrupted task, after its registers were saved.
    pub sp: usize,
    /// Lowest word of the interrupted task's stack, where that is known.
    pub lowest: u32,
    /// Processor time that the interrupted task has used in its period, in
    /// microseconds.
    pub used_us: u64,
    /// The cycle counter.
    pub cycle: u64,
}

/// What the interrupt handler does next.
#[derive(Clone, Copy, PartialEq, Eq, Structural, Debug)]
pub enum TickAction {
    /// Go on with the interrupted task, from this stack pointer.
    Keep(usize),
    /// Go on with another task.
    Switch {
        /// The task that was interrupted.
        from: usize,
        /// The task that runs now.
        next: Dispatch,
    },
    /// The interrupted task faulted.
    Fault(FaultAction),
}

/// The interrupted task's stack pointer was stored.
pub open spec fn sp_saved(pre: &Preempt, post: &Preempt, r: int, sp: usize) -> bool {
    &&& *post == (Preempt { tasks: post.tasks, ..*pre })
    &&& post.tasks@ == (if pre.live(r) is Some {
        pre.tasks@.update(r, (Tcb { sp, ..pre.tasks[r] }))
    } else {
        pre.tasks@
    })
}

/// The live task `r` has written over the lowest word of its stack.
pub open spec fn overflowed(p: &Preempt, r: int, tick: Tick) -> bool {
    &&& p.live(r) is Some
    &&& p.tasks[r].stack_base != 0
    &&& p.tasks[r].stack_size >= 4
    &&& tick.lowest != STACK_FILL_WORD
}

/// The live task `r` is on the processor and has used up its budget.
pub open spec fn exhausted(k: &Kernel, p: &Preempt, r: int, tick: Tick) -> bool {
    &&& p.live(r) is Some
    &&& p.tasks[r].state == SlotState::Running
    &&& deadlines::over_budget(&k.deadlines, r, tick.used_us)
}

/// Task `r` cannot go on: it blocked itself, or its slot is free.
pub open spec fn cannot_go_on(p: &Preempt, r: int) -> bool {
    p.live(r) is None || p.tasks[r].state == SlotState::Blocked
}

/// The slots after `r` was put back among the ready tasks, if it was on the
/// processor.
pub open spec fn put_back(pre: &Preempt, post: &Preempt, r: int) -> bool {
    if pre.live(r) is Some && pre.tasks[r].state == SlotState::Running {
        &&& post.tasks@ == pre.tasks@.update(
            r,
            (Tcb { state: SlotState::Ready, ..pre.tasks[r] }),
        )
        &&& post.frame(pre)
        &&& post.harts.broadcast_from(&pre.harts)
        &&& post.ready_at@ == pre.ready_at@.update(r, pre.cycle)
    } else {
        *post == *pre
    }
}

/// The processor went from task `r` to task `c`.
pub open spec fn switched_to(
    pre: &Kernel,
    mid: &Preempt,
    post: &Kernel,
    r: int,
    c: int,
    cycle: u64,
    a: TickAction,
) -> bool {
    exists|back: Preempt|
        {
            &&& #[trigger] put_back(mid, &back, r)
            &&& dispatched(&back, &post.preempt, c)
            &&& wake_recorded(pre, post, waited(&back, c))
            &&& exec_time::switched(&pre.exec_time, &post.exec_time, r, cycle)
            &&& *post == (Kernel {
                preempt: post.preempt,
                exec_time: post.exec_time,
                latency: post.latency,
                ..*pre
            })
            &&& a == TickAction::Switch {
                from: r as usize,
                next: Dispatch {
                    task: c as usize,
                    sp: mid.tasks[c].sp,
                    stack_base: mid.tasks[c].stack_base,
                    stack_size: mid.tasks[c].stack_size,
                },
            }
        }
}

/// The fault that ends a task's turn on a tick.
pub open spec fn tick_fault(p: &Preempt, r: usize, overflow: bool) -> FaultInfo {
    FaultInfo {
        task_id: Some(r),
        kind: (if overflow {
            FaultKind::StackOverflow
        } else {
            FaultKind::BudgetExceeded
        }),
        address: (if overflow {
            p.tasks[r as int].stack_base
        } else {
            0
        }),
        pc: 0,
    }
}

/// What a tick does to a hart that runs task `r`, whose stack pointer is
/// stored in `mid`; `said` is what goes to the console.
pub open spec fn tick_decided(
    pre: &Kernel,
    mid: &Preempt,
    post: &Kernel,
    r: usize,
    tick: Tick,
    used: Seq<usize>,
    said: Seq<u8>,
    a: TickAction,
) -> bool {
    let kept = a == TickAction::Keep(tick.sp) && *post == (Kernel { preempt: *mid, ..*pre })
        && said == Seq::<u8>::empty();
    if !mid.any_ready() {
        kept
    } else if overflowed(mid, r as int, tick) || exhausted(pre, mid, r as int, tick) {
        &&& a matches TickAction::Fault(f)
        &&& fault::handled(
            &pre.fault,
            mid,
            &post.preempt,
            &pre.timers,
            &post.timers,
            said,
            used,
            tick_fault(mid, r, overflowed(mid, r as int, tick)),
            f,
        )
        &&& *post == (Kernel { preempt: post.preempt, timers: post.timers, ..*pre })
    } else {
        exists|c: int|
            {
                &&& #[trigger] mid.is_next(c)
                &&& if cannot_go_on(mid, r as int) {
                    if c == r {
                        kept
                    } else {
                        switched_to(pre, mid, post, r as int, c, tick.cycle, a)
                            && said == Seq::<u8>::empty()
                    }
                } else if c != r && mid.eff(c) >= mid.eff(r as int) {
                    switched_to(pre, mid, post, r as int, c, tick.cycle, a)
                        && said == Seq::<u8>::empty()
                } else {
                    kept
                }
            }
    }
}

/// What a tick does.
pub open spec fn ticked(
    pre: &Kernel,
    post: &Kernel,
    tick: Tick,
    used: Seq<usize>,
    said: Seq<u8>,
    a: TickAction,
) -> bool {
    match pre.preempt.running() {
        None => a == TickAction::Keep(tick.sp) && *post == *pre && said == Seq::<u8>::empty(),
        Some(r) => exists|mid: Preempt|
            {
                &&& #[trigger] sp_saved(&pre.preempt, &mid, r as int, tick.sp)
                &&& tick_decided(pre, &mid, post, r, tick, used, said, a)
            },
    }
}

/// Decide what runs after a tick or a request to reschedule. What a fault has
/// to say is appended to `out`; `used` is how much of its stack each task has
/// used.
pub fn on_tick(
    k: &mut Kernel,
    tick: &Tick,
    used: &[usize; MAX_PTASKS],
    out: &mut Vec<u8>,
) -> (r: TickAction)
    requires
        old(k).wf(),
    ensures
        final(k).wf(),
        inherits(&old(k).preempt) ==> inherits(&final(k).preempt),
        exists|said: Seq<u8>|
            final(out)@ == old(out)@ + said && #[trigger] ticked(
                old(k),
                final(k),
                *tick,
                used@,
                said,
                r,
            ),
{
    let ghost start = out@;
    let ghost none = Seq::<u8>::empty();
    proof {
        crate::text::lemma_cat_empty(start);
    }
    let running: usize = match sched::current(&k.preempt) {
        Some(r) => r,
        None => {
            let a = TickAction::Keep(tick.sp);
            assert(ticked(old(k), k, *tick, used@, none, a));
            return a;
        },
    };
    let a = on_tick_locked(k, running, tick, used, out);
    proof {
        let (mid, said) = choose|mid: Preempt, said: Seq<u8>|
            {
                &&& #[trigger] sp_saved(&old(k).preempt, &mid, running as int, tick.sp)
                &&& out@ == start + said
                &&& #[trigger] tick_decided(old(k), &mid, k, running, *tick, used@, said, a)
            };
        assert(ticked(old(k), k, *tick, used@, said, a));
    }
    a
}

fn on_tick_locked(
    k: &mut Kernel,
    running: usize,
    tick: &Tick,
    used: &[usize; MAX_PTASKS],
    out: &mut Vec<u8>,
) -> (r: TickAction)
    requires
        old(k).wf(),
        old(k).preempt.running() == Some(running),
    ensures
        final(k).wf(),
        inherits(&old(k).preempt) ==> inherits(&final(k).preempt),
        exists|mid: Preempt, said: Seq<u8>|
            {
                &&& #[trigger] sp_saved(&old(k).preempt, &mid, running as int, tick.sp)
                &&& final(out)@ == old(out)@ + said
                &&& #[trigger] tick_decided(
                    old(k),
                    &mid,
                    final(k),
                    running,
                    *tick,
                    used@,
                    said,
                    r,
                )
            },
{
    let ghost pre = *k;
    let ghost none = Seq::<u8>::empty();
    let ghost start = out@;
    proof {
        crate::text::lemma_cat_empty(start);
    }
    let alive = k.preempt.tasks[running].used;
    if alive {
        k.preempt.tasks[running].sp = tick.sp;
        proof {
            let p0 = pre.preempt;
            assert(k.preempt.tasks@ =~= p0.tasks@.update(
                running as int,
                k.preempt.tasks[running as int],
            ));
            assert(p0.tasks[running as int].result_size <= 8);
            sched::lemma_slot_annotated(p0, k.preempt, running as int);
            if inherits(&p0) {
                mutex::lemma_inherits_same(p0, k.preempt);
            }
        }
    }
    let ghost mid = k.preempt;
    assert(sp_saved(&pre.preempt, &mid, running as int, tick.sp));
    let candidate: usize = match sched::schedule(&mut k.preempt) {
        Some(c) => c,
        None => {
            let a = TickAction::Keep(tick.sp);
            assert(*k == Kernel { preempt: mid, ..pre });
            assert(tick_decided(&pre, &mid, k, running, *tick, used@, none, a));
            return a;
        },
    };
    assert(k.preempt == mid);
    let t = k.preempt.tasks[running];
    if alive && t.stack_base != 0 && t.stack_size >= 4 && tick.lowest != STACK_FILL_WORD {
        let info = FaultInfo {
            task_id: Some(running),
            kind: FaultKind::StackOverflow,
            address: t.stack_base,
            pc: 0,
        };
        let f = fault::on_fault(&k.fault, &mut k.preempt, &mut k.timers, out, used, &info);
        let a = TickAction::Fault(f);
        proof {
            let said = choose|said: Seq<u8>|
                out@ == start + said && #[trigger] fault::handled(
                    &pre.fault,
                    &mid,
                    &k.preempt,
                    &pre.timers,
                    &k.timers,
                    said,
                    used@,
                    info,
                    f,
                );
            assert(overflowed(&mid, running as int, *tick));
            assert(tick_decided(&pre, &mid, k, running, *tick, used@, said, a));
        }
        return a;
    }
    if alive && t.state() == TaskState::Running && deadlines::check_budget(
        &k.deadlines,
        running,
        tick.used_us,
    ) {
        let info = FaultInfo {
            task_id: Some(running),
            kind: FaultKind::BudgetExceeded,
            address: 0,
            pc: 0,
        };
        let f = fault::on_fault(&k.fault, &mut k.preempt, &mut k.timers, out, used, &info);
        let a = TickAction::Fault(f);
        proof {
            let said = choose|said: Seq<u8>|
                out@ == start + said && #[trigger] fault::handled(
                    &pre.fault,
                    &mid,
                    &k.preempt,
                    &pre.timers,
                    &k.timers,
                    said,
                    used@,
                    info,
                    f,
                );
            assert(exhausted(&pre, &mid, running as int, *tick));
            assert(tick_decided(&pre, &mid, k, running, *tick, used@, said, a));
        }
        return a;
    }
    // A task that blocked itself is left whatever the candidate's priority:
    // it cannot go on at all.
    let blocked = !alive || t.state() == TaskState::Blocked;
    if (!blocked && !sched::should_preempt(&k.preempt, candidate, running)) || (blocked
        && candidate == running) {
        let a = TickAction::Keep(tick.sp);
        proof {
            assert(mid.is_next(candidate as int));
            assert(*k == Kernel { preempt: mid, ..pre });
            assert(tick_decided(&pre, &mid, k, running, *tick, used@, none, a));
        }
        return a;
    }
    if alive && t.state() == TaskState::Running {
        Tcb::set_state(&mut k.preempt, running, TaskState::Ready);
    }
    let ghost back = k.preempt;
    assert(put_back(&mid, &back, running as int));
    exec_time::on_switch(&mut k.exec_time, running, tick.cycle);
    proof {
        assert(mid.ready(candidate as int));
        assert(back.tasks[candidate as int] == back.tasks@[candidate as int]);
        assert(back.ready(candidate as int));
    }
    let wait = dispatch(&mut k.preempt, candidate);
    record_wake(k, wait);
    let to = k.preempt.tasks[candidate];
    let a = TickAction::Switch {
        from: running,
        next: Dispatch {
            task: candidate,
            sp: to.sp,
            stack_base: to.stack_base,
            stack_size: to.stack_size,
        },
    };
    proof {
        assert(mid.is_next(candidate as int));
        assert(switched_to(
            &pre,
            &mid,
            k,
            running as int,
            candidate as int,
            tick.cycle,
            a,
        ));
        assert(tick_decided(&pre, &mid, k, running, *tick, used@, none, a));
    }
    a
}

/// Record what deciding cost: `start` and `now` are the cycle counter before
/// and after a call of [`on_tick`].
pub fn decision_measured(h: &mut Histograms, start: u64, now: u64)
    ensures
        latency::recorded(
            old(h),
            final(h),
            Kind::DispatchDecision,
            now.wrapping_sub(start),
        ),
{
    latency::record(h, Kind::DispatchDecision, now.wrapping_sub(start));
}

/// Priority preemption: when a tick leaves a hart on a task without a fault,
/// and that task can go on, no ready task outranks it.
pub proof fn law_tick_runs_highest(
    pre: Kernel,
    post: Kernel,
    tick: Tick,
    used: Seq<usize>,
    said: Seq<u8>,
    a: TickAction,
    x: int,
)
    requires
        pre.wf(),
        ticked(&pre, &post, tick, used, said, a),
        !(a is Fault),
        post.preempt.running() is Some,
        !cannot_go_on(&post.preempt, post.preempt.running()->0 as int),
        post.preempt.ready(x),
    ensures
        post.preempt.eff(x) <= post.preempt.eff(post.preempt.running()->0 as int),
{
    let r = pre.preempt.running()->0;
    assert(pre.preempt.running() is Some);
    let mid = choose|mid: Preempt|
        {
            &&& #[trigger] sp_saved(&pre.preempt, &mid, r as int, tick.sp)
            &&& tick_decided(&pre, &mid, &post, r, tick, used, said, a)
        };
    if mid.any_ready() {
        let c = choose|c: int|
            {
                &&& #[trigger] mid.is_next(c)
                &&& if cannot_go_on(&mid, r as int) {
                    if c == r {
                        a == TickAction::Keep(tick.sp) && post == (Kernel { preempt: mid, ..pre })
                            && said == Seq::<u8>::empty()
                    } else {
                        switched_to(&pre, &mid, &post, r as int, c, tick.cycle, a)
                            && said == Seq::<u8>::empty()
                    }
                } else if c != r && mid.eff(c) >= mid.eff(r as int) {
                    switched_to(&pre, &mid, &post, r as int, c, tick.cycle, a)
                        && said == Seq::<u8>::empty()
                } else {
                    a == TickAction::Keep(tick.sp) && post == (Kernel { preempt: mid, ..pre })
                        && said == Seq::<u8>::empty()
                }
            };
        if a is Switch {
            let back = choose|back: Preempt|
                {
                    &&& #[trigger] put_back(&mid, &back, r as int)
                    &&& dispatched(&back, &post.preempt, c)
                    &&& wake_recorded(&pre, &post, waited(&back, c))
                    &&& exec_time::switched(&pre.exec_time, &post.exec_time, r as int, tick.cycle)
                    &&& post == (Kernel {
                        preempt: post.preempt,
                        exec_time: post.exec_time,
                        latency: post.latency,
                        ..pre
                    })
                    &&& a == TickAction::Switch {
                        from: r,
                        next: Dispatch {
                            task: c as usize,
                            sp: mid.tasks[c].sp,
                            stack_base: mid.tasks[c].stack_base,
                            stack_size: mid.tasks[c].stack_size,
                        },
                    }
                };
            assert(post.preempt.tasks[x] == post.preempt.tasks@[x]);
            assert(post.preempt.tasks[c] == post.preempt.tasks@[c]);
            assert(back.tasks[x] == back.tasks@[x]);
            assert(back.tasks[c] == back.tasks@[c]);
            assert(mid.ready(c));
            if x != r {
                assert(mid.ready(x));
            } else if mid.tasks[x].state == SlotState::Ready {
                assert(mid.ready(x));
            }
        } else {
            assert(mid.ready(x));
            assert(mid.before(c, x));
        }
    }
}

/// A task that sleeps for `ms` milliseconds is blocked, and its wake-up is armed
/// for exactly that much later.
pub proof fn law_sleep_ms_arms(p: &mut Preempt, t: &mut TimerQueue, ms: u64, now: u64)
    requires
        call_ensures(sleep_ms, (p, t, ms, now), ()),
        old(p).wf(),
        old(p).running() is Some,
        now + ms * 1000 <= u64::MAX,
    ensures
        final(t).ptask[old(p).running()->0 as int] == now + ms * 1000,
        forall|x: int|
            0 <= x < MAX_PTASKS && x != old(p).running()->0 ==> #[trigger] final(t).ptask[x]
                == old(t).ptask[x],
        old(p).live(old(p).running()->0 as int) is Some
            ==> final(p).tasks[old(p).running()->0 as int].state
            == SlotState::Blocked,
        final(p).harts.resched[old(p).harts.hart as int],
{
    let me = old(p).running()->0 as int;
    assert(final(t).ptask@[me] == final(t).ptask[me]);
    assert(final(p).tasks@[me] == final(p).tasks[me]);
    assert(final(p).harts.resched@[old(p).harts.hart as int] == final(p).harts.resched[old(
        p,
    ).harts.hart as int]);
    assert forall|x: int| 0 <= x < MAX_PTASKS && x != me implies #[trigger] final(t).ptask[x]
        == old(t).ptask[x] by {
        assert(final(t).ptask@[x] == old(t).ptask@[x]);
    }
}

/// A task that sleeps for `ms` milliseconds stays blocked through a timer poll
/// before they have passed, and is ready after one at or past that time.
pub proof fn law_sleep_ms_lasts(
    p0: &mut Preempt,
    t0: &mut TimerQueue,
    ms: u64,
    now: u64,
    p1: &mut Preempt,
    t1: &mut TimerQueue,
    w: &mut crate::waker::WakerState,
    at: u64,
)
    requires
        call_ensures(sleep_ms, (p0, t0, ms, now), ()),
        old(p0).wf(),
        old(p0).running() is Some,
        old(p0).live(old(p0).running()->0 as int) is Some,
        0 < now + ms * 1000 <= u64::MAX,
        *old(p1) == *final(p0),
        *old(t1) == *final(t0),
        call_ensures(timer::poll_timers, (t1, w, p1, at), ()),
    ensures
        ({
            let me = old(p0).running()->0 as int;
            &&& at < now + ms * 1000 ==> final(p1).tasks[me].state == SlotState::Blocked
                && final(t1).ptask[me] == now + ms * 1000
            &&& at >= now + ms * 1000 ==> final(p1).ready(me) && final(t1).ptask[me] == 0
        }),
{
    law_sleep_ms_arms(p0, t0, ms, now);
    let me = old(p0).running()->0 as int;
    assert(final(p0).tasks@[me] == final(p0).tasks[me]);
    assert(final(p1).tasks[me].used == old(p1).tasks[me].used);
}

/// A tick that finds some task ready reports an overflow of the interrupted
/// task's stack, at the base of the stack, exactly if the word there is not the
/// fill pattern any more, whatever it is; and of a task whose stack is whole it reports a fault
/// only if its budget is used up.
pub proof fn law_tick_finds_overflow(
    k: &mut Kernel,
    tick: &Tick,
    used: &[usize; MAX_PTASKS],
    out: &mut Vec<u8>,
    a: TickAction,
    r: usize,
    x: int,
    info: FaultInfo,
)
    requires
        call_ensures(on_tick, (k, tick, used, out), a),
        old(k).wf(),
        old(k).preempt.running() == Some(r),
        old(k).preempt.live(r as int) is Some,
        old(k).preempt.tasks[r as int].stack_base != 0,
        old(k).preempt.tasks[r as int].stack_size >= 4,
        old(k).preempt.ready(x),
        info.task_id == Some(r),
        info.kind == (if tick.lowest != 0xAAAA_AAAA {
            FaultKind::StackOverflow
        } else {
            FaultKind::BudgetExceeded
        }),
        info.address == (if tick.lowest != 0xAAAA_AAAA {
            old(k).preempt.tasks[r as int].stack_base
        } else {
            0
        }),
        info.pc == 0,
    ensures
        ({
            let t = old(k).preempt.tasks[r as int];
            let over = t.state == SlotState::Running && old(k).deadlines.budget[r as int] > 0
                && tick.used_us > old(k).deadlines.budget[r as int];
            &&& a is Fault <==> tick.lowest != 0xAAAA_AAAA || over
            &&& a matches TickAction::Fault(f) ==> exists|mid: Preempt, said: Seq<u8>|
                {
                    &&& #[trigger] sp_saved(&old(k).preempt, &mid, r as int, tick.sp)
                    &&& final(out)@ == old(out)@ + said
                    &&& #[trigger] fault::handled(
                        &old(k).fault,
                        &mid,
                        &final(k).preempt,
                        &old(k).timers,
                        &final(k).timers,
                        said,
                        used@,
                        info,
                        f,
                    )
                }
        }),
{
    let said = choose|said: Seq<u8>|
        final(out)@ == old(out)@ + said && #[trigger] ticked(
            old(k),
            final(k),
            *tick,
            used@,
            said,
            a,
        );
    let mid = choose|mid: Preempt|
        {
            &&& #[trigger] sp_saved(&old(k).preempt, &mid, r as int, tick.sp)
            &&& tick_decided(old(k), &mid, final(k), r, *tick, used@, said, a)
        };
    assert(mid.tasks[r as int] == mid.tasks@[r as int]);
    assert(mid.tasks[x] == mid.tasks@[x]);
    assert(mid.ready(x));
}

/// Without a ready task a tick changes nothing but the saved stack pointer, and
/// without a running one it changes nothing at all.
pub proof fn law_idle_tick(
    k: &mut Kernel,
    tick: &Tick,
    used: &[usize; MAX_PTASKS],
    out: &mut Vec<u8>,
    a: TickAction,
)
    requires
        call_ensures(on_tick, (k, tick, used, out), a),
        old(k).wf(),
        old(k).preempt.running() is None || forall|x: int| !#[trigger] old(k).preempt.ready(x),
    ensures
        a == TickAction::Keep(tick.sp),
        final(out)@ == old(out)@,
        final(k).timers == old(k).timers,
        final(k).exec_time == old(k).exec_time,
        final(k).preempt.current == old(k).preempt.current,
        old(k).preempt.running() is None ==> *final(k) == *old(k),
        old(k).preempt.running() matches Some(r) ==> old(k).preempt.live(r as int) is Some
            ==> final(k).preempt.tasks[r as int].sp == tick.sp,
{
    let said = choose|said: Seq<u8>|
        final(out)@ == old(out)@ + said && #[trigger] ticked(
            old(k),
            final(k),
            *tick,
            used@,
            said,
            a,
        );
    crate::text::lemma_cat_empty(old(out)@);
    if let Some(r) = old(k).preempt.running() {
        let mid = choose|mid: Preempt|
            {
                &&& #[trigger] sp_saved(&old(k).preempt, &mid, r as int, tick.sp)
                &&& tick_decided(old(k), &mid, final(k), r, *tick, used@, said, a)
            };
        assert(mid.tasks[r as int] == mid.tasks@[r as int]);
        assert forall|x: int| !#[trigger] mid.ready(x) by {
            if 0 <= x < MAX_PTASKS {
                assert(mid.tasks[x] == mid.tasks@[x]);
                assert(!old(k).preempt.ready(x));
            }
        }
    }
}

/// The handle of a task that was spawned names it: it is ready, with the
/// priority, the stack and the first frame that were asked for. A spawn fails
/// only if every slot is taken.
pub proof fn law_spawned_task_is_ready(
    p: &mut Preempt,
    s: &TaskSpec,
    min_stack: usize,
    r: Result<TaskHandle, SpawnError>,
    valid: bool,
    x: int,
)
    requires
        call_ensures(spawn, (p, s, min_stack), r),
        old(p).wf(),
        r matches Ok(h) ==> call_ensures(TaskHandle::is_valid, (&h, &*final(p)), valid),
        0 <= x < MAX_PTASKS,
    ensures
        r is Err ==> old(p).tasks[x].used && *final(p) == *old(p),
        r matches Ok(h) ==> {
            &&& valid
            &&& !old(p).tasks[h.id as int].used
            &&& final(p).ready(h.id as int)
            &&& final(p).tasks[h.id as int].base_priority == s.priority
            &&& final(p).tasks[h.id as int].effective_priority == s.priority
            &&& final(p).tasks[h.id as int].sp == s.sp
            &&& final(p).tasks[h.id as int].stack_base == s.stack_base
            &&& final(p).tasks[h.id as int].stack_size == s.stack_size
            &&& final(p).tasks[h.id as int].result_size == s.result_size
            &&& final(p).tasks[h.id as int].result_drop == s.result_drop
            &&& !final(p).tasks[h.id as int].exited
            &&& x != h.id ==> final(p).tasks[x] == old(p).tasks[x]
        },
{
    if let Ok(h) = r {
        assert(final(p).tasks@[h.id as int] == final(p).tasks[h.id as int]);
        assert(final(p).tasks@[x] == final(p).tasks[x]);
    }
}

/// A task that was despawned is gone: its handle is stale, its slot is free,
/// its timer is disarmed, and its period and budget are forgotten. Only a task
/// that is on no processor can be despawned.
pub proof fn law_despawned_task_is_gone(
    h: TaskHandle,
    p: &mut Preempt,
    q: &mut TimerQueue,
    d: &mut Deadlines,
    pool: &mut StackPool,
    r: Option<Reclaimed>,
    x: int,
)
    requires
        call_ensures(TaskHandle::despawn, (&h, p, q, d, pool), r),
        old(p).wf(),
        0 <= x < MAX_PTASKS,
        x != h.id,
    ensures
        r is Some <==> h.names(old(p)) && old(p).running() != Some(h.id as usize) && old(
            p,
        ).tasks[h.id as int].state != SlotState::Running,
        r is Some ==> {
            &&& !final(p).tasks[h.id as int].used
            &&& !h.names(final(p))
            &&& !final(p).ready(h.id as int)
            &&& final(q).ptask[h.id as int] == 0
            &&& final(d).period[h.id as int] == 0
            &&& final(d).budget[h.id as int] == 0
            &&& final(p).tasks[x] == old(p).tasks[x]
            &&& final(q).ptask[x] == old(q).ptask[x]
            &&& final(d).period[x] == old(d).period[x]
        },
        r matches Some(rec) ==> (rec.stack matches Some(s) ==> s.base == old(
            p,
        ).tasks[h.id as int].stack_base && s.size == old(p).tasks[h.id as int].stack_size),
        r matches Some(rec) ==> (rec.drop != 0 ==> old(p).tasks[h.id as int].exited && rec.drop
            == old(p).tasks[h.id as int].result_drop),
        r is None ==> *final(p) == *old(p) && *final(q) == *old(q) && *final(d) == *old(d)
            && *final(pool) == *old(pool),
{
    if r is Some {
        let id = h.id as int;
        assert(final(p).tasks@[id] == final(p).tasks[id]);
        assert(final(p).tasks@[x] == final(p).tasks[x]);
        assert(final(q).ptask@[id] == final(q).ptask[id]);
        assert(final(q).ptask@[x] == final(q).ptask[x]);
        assert(final(d).period@[id] == final(d).period[id]);
        assert(final(d).budget@[id] == final(d).budget[id]);
        assert(final(d).period@[x] == final(d).period[x]);
    }
}

/// A paused task is not ready, and is again once it is resumed.
pub proof fn law_paused_task_waits(
    h: TaskHandle,
    p: &mut Preempt,
    q: &mut Preempt,
    r: bool,
    s: bool,
)
    requires
        call_ensures(TaskHandle::pause, (&h, p), r),
        old(p).wf(),
        *old(q) == *final(p),
        call_ensures(TaskHandle::resume, (&h, q), s),
    ensures
        r <==> h.names(old(p)) && old(p).ready(h.id as int),
        r ==> !final(p).ready(h.id as int) && s && final(q).ready(h.id as int)
            && final(q).tasks[h.id as int].effective_priority
                == old(p).tasks[h.id as int].effective_priority,
        !r ==> *final(p) == *old(p),
{
    if r {
        assert(final(p).tasks@[h.id as int] == final(p).tasks[h.id as int]);
        assert(final(q).tasks@[h.id as int] == final(q).tasks[h.id as int]);
    }
}

/// A tick that switches leaves a task for another one that was ready and has at
/// least its priority, unless it could not go on; the other one runs from where
/// it was saved, and the one that was left is ready again if it ran.
pub proof fn law_switch_goes_to_a_ready_task(
    k: &mut Kernel,
    tick: &Tick,
    used: &[usize; MAX_PTASKS],
    out: &mut Vec<u8>,
    from: usize,
    next: Dispatch,
    x: int,
)
    requires
        call_ensures(on_tick, (k, tick, used, out), (TickAction::Switch { from, next })),
        old(k).wf(),
        0 <= x < MAX_PTASKS,
        x != from,
        x != next.task,
    ensures
        old(k).preempt.running() == Some(from),
        next.task != from,
        old(k).preempt.ready(next.task as int),
        next.sp == old(k).preempt.tasks[next.task as int].sp,
        next.stack_base == old(k).preempt.tasks[next.task as int].stack_base,
        next.stack_size == old(k).preempt.tasks[next.task as int].stack_size,
        final(k).preempt.running() == Some(next.task),
        final(k).preempt.tasks[next.task as int].state == SlotState::Running,
        old(k).preempt.tasks[from as int].used && old(k).preempt.tasks[from as int].state
            == SlotState::Running ==> {
            &&& final(k).preempt.tasks[from as int].state == SlotState::Ready
            &&& final(k).preempt.tasks[from as int].sp == tick.sp
            &&& old(k).preempt.tasks[next.task as int].effective_priority >= old(
                k,
            ).preempt.tasks[from as int].effective_priority
        },
        final(k).preempt.tasks[x] == old(k).preempt.tasks[x],
        final(out)@ == old(out)@,
{
    let a = TickAction::Switch { from, next };
    let said = choose|said: Seq<u8>|
        final(out)@ == old(out)@ + said && #[trigger] ticked(
            old(k),
            final(k),
            *tick,
            used@,
            said,
            a,
        );
    crate::text::lemma_cat_empty(old(out)@);
    assert(old(k).preempt.running() is Some);
    let r = old(k).preempt.running()->0;
    let mid = choose|mid: Preempt|
        {
            &&& #[trigger] sp_saved(&old(k).preempt, &mid, r as int, tick.sp)
            &&& tick_decided(old(k), &mid, final(k), r, *tick, used@, said, a)
        };
    let c = next.task as int;
    assert(mid.any_ready());
    assert(exists|back: Preempt|
        #[trigger] put_back(&mid, &back, r as int) && dispatched(&back, &final(k).preempt, c)
            && mid.is_next(c));
    let back = choose|back: Preempt|
        #[trigger] put_back(&mid, &back, r as int) && dispatched(&back, &final(k).preempt, c)
            && mid.is_next(c);
    let ri = r as int;
    assert(mid.tasks@[ri] == mid.tasks[ri]);
    assert(mid.tasks@[c] == mid.tasks[c]);
    assert(mid.tasks@[x] == mid.tasks[x]);
    assert(back.tasks@[ri] == back.tasks[ri]);
    assert(back.tasks@[c] == back.tasks[c]);
    assert(back.tasks@[x] == back.tasks[x]);
    assert(final(k).preempt.tasks@[ri] == final(k).preempt.tasks[ri]);
    assert(final(k).preempt.tasks@[c] == final(k).preempt.tasks[c]);
    assert(final(k).preempt.tasks@[x] == final(k).preempt.tasks[x]);
    assert(mid.ready(c));
    assert(final(k).preempt.current@[old(k).preempt.harts.hart as int]
        == final(k).preempt.current[old(k).preempt.harts.hart as int]);
}

/// A tick never stays with a task that a ready one outranks, as long as nothing
/// is wrong with it.
pub proof fn law_tick_yields_to_higher_priority(
    k: &mut Kernel,
    tick: &Tick,
    used: &[usize; MAX_PTASKS],
    out: &mut Vec<u8>,
    a: TickAction,
    r: usize,
    x: int,
)
    requires
        call_ensures(on_tick, (k, tick, used, out), a),
        old(k).wf(),
        old(k).preempt.running() == Some(r),
        old(k).preempt.ready(x),
        old(k).preempt.tasks[x].effective_priority > old(k).preempt.tasks[r as int].effective_priority,
    ensures
        !(a is Keep),
        a matches TickAction::Switch { from, next } ==> old(
            k,
        ).preempt.tasks[next.task as int].effective_priority >= old(
            k,
        ).preempt.tasks[x].effective_priority,
{
    let said = choose|said: Seq<u8>|
        final(out)@ == old(out)@ + said && #[trigger] ticked(
            old(k),
            final(k),
            *tick,
            used@,
            said,
            a,
        );
    let mid = choose|mid: Preempt|
        {
            &&& #[trigger] sp_saved(&old(k).preempt, &mid, r as int, tick.sp)
            &&& tick_decided(old(k), &mid, final(k), r, *tick, used@, said, a)
        };
    assert(mid.tasks@[r as int] == mid.tasks[r as int]);
    assert(mid.tasks@[x] == mid.tasks[x]);
    assert(mid.ready(x));
    assert forall|c: int| #[trigger] mid.is_next(c) implies mid.eff(c) >= mid.eff(x) && c != r by {
        assert(mid.before(c, x));
        assert(mid.tasks@[c] == mid.tasks[c]);
    }
    if let TickAction::Switch { from, next } = a {
        let c = next.task as int;
        assert(mid.is_next(c));
        assert(mid.tasks@[c] == mid.tasks[c]);
    }
}

/// Scheduling starts with a ready task of the highest priority, from its first
/// frame.
pub proof fn law_start_runs_the_highest(k: &mut Kernel, cycle: u64, d: Dispatch, x: int)
    requires
        call_ensures(start, (k, cycle), d),
        old(k).wf(),
        old(k).preempt.ready(x),
    ensures
        old(k).preempt.ready(d.task as int),
        old(k).preempt.tasks[d.task as int].effective_priority >= old(
            k,
        ).preempt.tasks[x].effective_priority,
        d.sp == old(k).preempt.tasks[d.task as int].sp,
        d.stack_base == old(k).preempt.tasks[d.task as int].stack_base,
        d.stack_size == old(k).preempt.tasks[d.task as int].stack_size,
        final(k).preempt.running() == Some(d.task),
        final(k).preempt.tasks[d.task as int].state == SlotState::Running,
        final(k).exec_time.boot_cycle == cycle,
        final(k).exec_time.started,
{
    let c = d.task as int;
    assert(old(k).preempt.before(c, x));
    assert(final(k).preempt.tasks@[c] == final(k).preempt.tasks[c]);
    assert(final(k).preempt.current@[old(k).preempt.harts.hart as int]
        == final(k).preempt.current[old(k).preempt.harts.hart as int]);
}

/// A stack is used down to its lowest byte that is not the fill pattern: below
/// that every byte is untouched, and there the first touched one lies.
pub proof fn law_usage_reaches_the_lowest_touched_byte(stack: &[u8], r: usize, i: int)
    requires
        call_ensures(stack_usage, (stack,), r),
        0 <= i < stack@.len(),
    ensures
        r <= stack@.len(),
        i < stack@.len() - r ==> stack@[i] == 0xAA,
        r > 0 ==> stack@[stack@.len() - r] != 0xAA,
{
    lemma_untouched(stack@, i);
}

proof fn lemma_untouched(s: Seq<u8>, i: int)
    requires
        0 <= i < s.len(),
    ensures
        untouched(s) <= s.len(),
        i < untouched(s) ==> s[i] == 0xAA,
        untouched(s) < s.len() ==> s[untouched(s) as int] != 0xAA,
    decreases s.len(),
{
    if s[0] == STACK_FILL {
        let rest = s.skip(1);
        if rest.len() > 0 {
            lemma_untouched(rest, if i > 0 {
                i - 1
            } else {
                0
            });
            if i > 0 {
                assert(rest[i - 1] == s[i]);
            }
            if untouched(rest) < rest.len() {
                assert(rest[untouched(rest) as int] == s[untouched(rest) as int + 1]);
            }
        } else {
            assert(untouched(rest) == 0);
        }
    }
}

/// A task that sleeps until a time is blocked, and its wake-up is armed for
/// that time and for no other task.
pub proof fn law_sleep_until_arms(p: &mut Preempt, t: &mut TimerQueue, deadline: u64, me: usize)
    requires
        call_ensures(sleep_until, (p, t, deadline), ()),
        old(p).wf(),
        old(p).running() == Some(me),
        old(p).live(me as int) is Some,
        deadline > 0,
    ensures
        final(t).ptask[me as int] == deadline,
        final(p).tasks[me as int].state == SlotState::Blocked,
        !final(p).ready(me as int),
        forall|x: int|
            0 <= x < MAX_PTASKS && x != me ==> #[trigger] final(t).ptask[x] == old(t).ptask[x],
        forall|x: int|
            0 <= x < MAX_PTASKS && x != me ==> #[trigger] final(p).tasks[x] == old(p).tasks[x],
        final(p).harts.resched[old(p).harts.hart as int],
{
    let m = me as int;
    assert(final(t).ptask@[m] == final(t).ptask[m]);
    assert(final(p).tasks@[m] == final(p).tasks[m]);
    assert(final(p).harts.resched@[old(p).harts.hart as int] == final(p).harts.resched[old(
        p,
    ).harts.hart as int]);
    assert forall|x: int| 0 <= x < MAX_PTASKS && x != me implies #[trigger] final(t).ptask[x]
        == old(t).ptask[x] by {
        assert(final(t).ptask@[x] == old(t).ptask@[x]);
    }
    assert forall|x: int| 0 <= x < MAX_PTASKS && x != me implies #[trigger] final(p).tasks[x]
        == old(p).tasks[x] by {
        assert(final(p).tasks@[x] == old(p).tasks@[x]);
    }
}

/// A sleep whose end lies beyond the clock ends where the clock has wrapped to,
/// and one that is too long to count is as long as the clock can count.
pub proof fn law_sleep_ms_wraps(p: &mut Preempt, t: &mut TimerQueue, ms: u64, now: u64, me: usize)
    requires
        call_ensures(sleep_ms, (p, t, ms, now), ()),
        old(p).wf(),
        old(p).running() == Some(me),
        now + ms * 1000 > u64::MAX,
    ensures
        ms * 1000 <= u64::MAX && now + ms * 1000 - 0x1_0000_0000_0000_0000 > 0
            ==> final(t).ptask[me as int] == now + ms * 1000 - 0x1_0000_0000_0000_0000,
        ms * 1000 > u64::MAX && now > 1 ==> final(t).ptask[me as int] == now - 1,
{
    assert(final(t).ptask@[me as int] == final(t).ptask[me as int]);
}

/// The running task that is parked for good is blocked, and nobody else is.
pub proof fn law_parked_task_is_blocked(p: &mut Preempt, me: usize, x: int)
    requires
        call_ensures(park_forever, (p,), ()),
        old(p).wf(),
        old(p).running() == Some(me),
        old(p).live(me as int) is Some,
        0 <= x < MAX_PTASKS,
    ensures
        final(p).tasks[me as int].state == SlotState::Blocked,
        x != me ==> final(p).tasks[x] == old(p).tasks[x],
        final(p).harts.resched[old(p).harts.hart as int],
{
    assert(final(p).tasks@[me as int] == final(p).tasks[me as int]);
    assert(final(p).tasks@[x] == final(p).tasks[x]);
    assert(final(p).harts.resched@[old(p).harts.hart as int] == final(p).harts.resched[old(
        p,
    ).harts.hart as int]);
}

/// Another hart starts with a ready task of the highest priority as well, and
/// idles exactly if there is none; the accounting of processor time goes on as
/// it is.
pub proof fn law_other_hart_runs_the_highest(k: &mut Kernel, r: Option<Dispatch>, x: int)
    requires
        call_ensures(start_secondary_hart, (k,), r),
        old(k).wf(),
    ensures
        old(k).preempt.ready(x) ==> r is Some,
        r is None ==> *final(k) == *old(k),
        r matches Some(d) ==> {
            &&& old(k).preempt.ready(d.task as int)
            &&& old(k).preempt.ready(x) ==> old(k).preempt.tasks[d.task as int].effective_priority
                >= old(k).preempt.tasks[x].effective_priority
            &&& d.sp == old(k).preempt.tasks[d.task as int].sp
            &&& d.stack_base == old(k).preempt.tasks[d.task as int].stack_base
            &&& d.stack_size == old(k).preempt.tasks[d.task as int].stack_size
            &&& final(k).preempt.running() == Some(d.task)
            &&& final(k).preempt.tasks[d.task as int].state == SlotState::Running
            &&& final(k).exec_time == old(k).exec_time
        },
{
    if let Some(d) = r {
        let c = d.task as int;
        if old(k).preempt.ready(x) {
            assert(old(k).preempt.before(c, x));
        }
        assert(final(k).preempt.tasks@[c] == final(k).preempt.tasks[c]);
        let h = old(k).preempt.harts.hart as int;
        assert(final(k).preempt.current@[h] == final(k).preempt.current[h]);
    }
}

/// A task that waited `n` cycles for its first dispatch is counted among the
/// wake-ups with `n` cycles, and with nothing if that is not known.
pub proof fn law_wait_is_measured(
    k: &mut Kernel,
    cycle: u64,
    d: Dispatch,
    h: &mut Histograms,
    n: u64,
    max_start: u32,
    max_alone: u32,
)
    requires
        call_ensures(start, (k, cycle), d),
        old(k).wf(),
        n < 0x1_0000_0000,
        old(k).preempt.ready_at[d.task as int] != 0,
        (old(k).preempt.cycle - old(k).preempt.ready_at[d.task as int] - n) % 0x1_0000_0000 == 0,
        *old(h) == old(k).latency,
        call_ensures(latency::record, (h, Kind::SchedulingWake, n), ()),
        call_ensures(latency::max_cycles, (&final(k).latency, Kind::SchedulingWake), max_start),
        call_ensures(latency::max_cycles, (&*final(h), Kind::SchedulingWake), max_alone),
    ensures
        max_start == max_alone,
{
}

/// The stop that is asked for is noted with its task alone, and only if the
/// handle is not stale.
pub proof fn law_stop_is_noted(h: TaskHandle, p: &mut Preempt, r: bool, valid: bool, x: int)
    requires
        old(p).wf(),
        call_ensures(TaskHandle::is_valid, (&h, &*old(p)), valid),
        call_ensures(TaskHandle::request_stop, (&h, p), r),
        0 <= x < MAX_PTASKS,
    ensures
        r == valid,
        !r ==> *final(p) == *old(p),
        r ==> final(p).tasks[h.id as int].stop_requested,
        x != h.id ==> final(p).tasks[x] == old(p).tasks[x],
{
    if r {
        assert(final(p).tasks@[h.id as int] == final(p).tasks[h.id as int]);
        assert(final(p).tasks@[x] == final(p).tasks[x]);
    }
}

/// A period and a budget that are set through a handle are those of its task,
/// and of no task if the handle is stale.
pub proof fn law_handle_sets_its_task(
    h: TaskHandle,
    p: &Preempt,
    d0: &mut Deadlines,
    d1: &mut Deadlines,
    period: u32,
    budget: u32,
    valid: bool,
    id: usize,
    period_read: u32,
    budget_read: u32,
    x: int,
)
    requires
        h.id < MAX_PTASKS,
        id == h.id,
        call_ensures(TaskHandle::is_valid, (&h, p), valid),
        call_ensures(TaskHandle::set_period_us, (&h, p, d0, period), ()),
        *old(d1) == *final(d0),
        call_ensures(TaskHandle::set_budget_us, (&h, p, d1, budget), ()),
        call_ensures(deadlines::period_us, (&*final(d1), id), period_read),
        call_ensures(deadlines::budget_us, (&*final(d1), id), budget_read),
        0 <= x < MAX_PTASKS,
    ensures
        valid ==> period_read == period && budget_read == budget,
        !valid ==> *final(d1) == *old(d0),
        x != h.id ==> final(d1).period[x] == old(d0).period[x] && final(d1).budget[x] == old(
            d0,
        ).budget[x],
{
    if valid {
        let m = id as int;
        assert(final(d0).period@[m] == final(d0).period[m]);
        assert(final(d1).budget@[m] == final(d1).budget[m]);
        assert(final(d0).period@[x] == final(d0).period[x]);
        assert(final(d1).budget@[x] == final(d1).budget[x]);
    }
}

/// What deciding costs is the difference of the two counts, wrapped.
pub proof fn law_decision_cost_is_the_difference(
    a: &mut Histograms,
    b: &mut Histograms,
    start_at: u64,
    now: u64,
    n: u64,
    x: u32,
    y: u32,
)
    requires
        (now - start_at - n) % 0x1_0000_0000_0000_0000 == 0,
        *old(a) == *old(b),
        call_ensures(decision_measured, (a, start_at, now), ()),
        call_ensures(latency::record, (b, Kind::DispatchDecision, n), ()),
        call_ensures(latency::max_cycles, (&*final(a), Kind::DispatchDecision), x),
        call_ensures(latency::max_cycles, (&*final(b), Kind::DispatchDecision), y),
    ensures
        x == y,
{
}

/// A task that is spawned on a stack of the pool has a stack of the size that
/// it asked for, starts at the frame that was prepared there, and is ready; a
/// pool that is used up and a table that is full are told apart.
#[verifier::spinoff_prover]
#[verifier::rlimit(60)]
pub proof fn law_pooled_task_is_ready<F: FnOnce(StackAlloc) -> usize>(
    p: &mut Preempt,
    pool: &mut StackPool,
    s: &PooledSpec,
    guard: usize,
    min_stack: usize,
    prepare: F,
    r: Result<TaskHandle, SpawnError>,
)
    requires
        old(p).wf(),
        call_ensures(spawn_ptask_impl::<F>, (p, pool, s, guard, min_stack, prepare), r),
    ensures
        r is Err ==> *final(p) == *old(p),
        r == Err::<TaskHandle, SpawnError>(SpawnError::RegistryFull) ==> forall|i: int|
            0 <= i < MAX_PTASKS ==> (#[trigger] old(p).tasks[i]).used,
        r matches Ok(h) ==> {
            let t = final(p).tasks[h.id as int];
            &&& !old(p).tasks[h.id as int].used
            &&& final(p).ready(h.id as int)
            &&& t.base_priority == s.priority
            &&& t.stack_size == s.stack_size
            &&& t.result_size == s.result_size
            &&& t.result_drop == s.result_drop
            &&& exists|a: StackAlloc| #[trigger]
                call_ensures(prepare, (a,), t.sp) && a.base == t.stack_base && a.size
                    == t.stack_size
        },
{
    if let Ok(h) = r {
        assert(final(p).tasks@[h.id as int] == final(p).tasks[h.id as int]);
        let got = choose|a: Option<StackAlloc>|
            {
                &&& #[trigger] stack_pool::allocated(old(pool), final(pool), s.stack_size, guard, a)
                &&& match a {
                    None => false,
                    Some(a) => exists|sp: usize|
                        {
                            &&& #[trigger] call_ensures(prepare, (a,), sp)
                            &&& spawn_attempted(old(p), final(p), on_stack(*s, a, sp), r)
                        },
                }
            };
        let a = got->0;
        let sp = choose|sp: usize|
            {
                &&& #[trigger] call_ensures(prepare, (a,), sp)
                &&& spawn_attempted(old(p), final(p), on_stack(*s, a, sp), r)
            };
        assert(final(p).tasks[h.id as int] == spawned(
            old(p).tasks[h.id as int],
            on_stack(*s, a, sp),
        ));
        assert(call_ensures(prepare, (a,), final(p).tasks[h.id as int].sp));
    }
}

/// Tasks of one priority take turns: a tick with nothing wrong goes on with the
/// task that was on the processor exactly if every ready one has a lower
/// priority; a task that has blocked itself does not go on as long as another
/// one is ready.
#[verifier::spinoff_prover]
#[verifier::rlimit(60)]
pub proof fn law_equals_take_turns(
    k: &mut Kernel,
    tick: &Tick,
    used: &[usize; MAX_PTASKS],
    out: &mut Vec<u8>,
    a: TickAction,
    r: usize,
    x: int,
)
    requires
        call_ensures(on_tick, (k, tick, used, out), a),
        old(k).wf(),
        old(k).preempt.running() == Some(r),
        old(k).preempt.live(r as int) is Some,
        tick.lowest == 0xAAAA_AAAA,
        old(k).deadlines.budget[r as int] == 0,
        old(k).preempt.ready(x),
    ensures
        !(a is Fault),
        old(k).preempt.tasks[r as int].state == SlotState::Running && old(
            k,
        ).preempt.tasks[x].effective_priority >= old(k).preempt.tasks[r as int].effective_priority
            ==> a is Switch,
        old(k).preempt.tasks[r as int].state == SlotState::Blocked ==> a is Switch,
        old(k).preempt.tasks[r as int].state == SlotState::Running && (forall|y: int| #[trigger]
            old(k).preempt.ready(y) ==> old(k).preempt.tasks[y].effective_priority < old(
                k,
            ).preempt.tasks[r as int].effective_priority) ==> a == TickAction::Keep(tick.sp),
{
    let said = choose|said: Seq<u8>|
        final(out)@ == old(out)@ + said && #[trigger] ticked(
            old(k),
            final(k),
            *tick,
            used@,
            said,
            a,
        );
    let ri = r as int;
    let mid = choose|mid: Preempt|
        {
            &&& #[trigger] sp_saved(&old(k).preempt, &mid, ri, tick.sp)
            &&& tick_decided(old(k), &mid, final(k), r, *tick, used@, said, a)
        };
    assert(mid.tasks@[ri] == mid.tasks[ri]);
    assert(mid.tasks@[x] == mid.tasks[x]);
    assert(mid.ready(x));
    assert forall|c: int| #[trigger] mid.is_next(c) implies mid.eff(c) >= mid.eff(x) && old(
        k,
    ).preempt.ready(c) && mid.eff(c) == old(k).preempt.eff(c) by {
        assert(mid.before(c, x));
        assert(mid.tasks@[c] == mid.tasks[c]);
    }
}

/// A switch settles the account of the task that was left: what it had while
/// it was on the processor is what it has now, and the next one's begins with
/// the tick.
#[verifier::spinoff_prover]
#[verifier::rlimit(60)]
pub proof fn law_switch_settles_the_account(
    k: &mut Kernel,
    tick: &Tick,
    used: &[usize; MAX_PTASKS],
    out: &mut Vec<u8>,
    from: usize,
    next: Dispatch,
    live: u64,
    settled: u64,
)
    requires
        call_ensures(on_tick, (k, tick, used, out), (TickAction::Switch { from, next })),
        old(k).wf(),
        from < MAX_PTASKS,
        old(k).exec_time.started,
        call_ensures(exec_time::busy_cycles_live, (&old(k).exec_time, from, tick.cycle), live),
        call_ensures(exec_time::busy_cycles, (&final(k).exec_time, from), settled),
    ensures
        settled == live,
        final(k).exec_time.last_dispatch == tick.cycle,
        final(k).exec_time.boot_cycle == old(k).exec_time.boot_cycle,
{
    let a = TickAction::Switch { from, next };
    let said = choose|said: Seq<u8>|
        final(out)@ == old(out)@ + said && #[trigger] ticked(
            old(k),
            final(k),
            *tick,
            used@,
            said,
            a,
        );
    let r = old(k).preempt.running()->0;
    let mid = choose|mid: Preempt|
        {
            &&& #[trigger] sp_saved(&old(k).preempt, &mid, r as int, tick.sp)
            &&& tick_decided(old(k), &mid, final(k), r, *tick, used@, said, a)
        };
    assert(exec_time::switched(&old(k).exec_time, &final(k).exec_time, r as int, tick.cycle));
    let i = from as int;
    assert(final(k).exec_time.busy@[i] == final(k).exec_time.busy[i]);
}

/// A despawned task leaves what is to be destroyed exactly if it has exited,
/// and its stack goes back exactly if it lies in the pool.
pub proof fn law_despawn_gives_back(
    h: TaskHandle,
    p: &mut Preempt,
    q: &mut TimerQueue,
    d: &mut Deadlines,
    pool: &mut StackPool,
    r: Option<Reclaimed>,
)
    requires
        call_ensures(TaskHandle::despawn, (&h, p, q, d, pool), r),
        old(p).wf(),
        old(pool).wf(),
        r is Some,
    ensures
        ({
            let t = old(p).tasks[h.id as int];
            &&& t.exited ==> r->0.drop == t.result_drop
            &&& !t.exited ==> r->0.drop == 0
            &&& t.stack_base != 0 && t.stack_size != 0 && t.stack_base >= old(pool).base
                && t.stack_base + t.stack_size <= old(pool).base + old(pool).len ==> r->0.stack
                == Some(FilledStack { base: t.stack_base, size: t.stack_size })
            &&& t.stack_base < old(pool).base || t.stack_base + t.stack_size > old(pool).base
                + old(pool).len ==> r->0.stack is None && final(pool).free.stacks() == old(
                pool,
            ).free.stacks()
            &&& t.stack_base == 0 || t.stack_size == 0 ==> r->0.stack is None && *final(pool)
                == *old(pool)
        }),
{
}

/// A join through a handle ends as a join of its task does.
pub proof fn law_handle_joins_its_task(
    h: TaskHandle,
    a: &mut Preempt,
    b: &mut Preempt,
    size: usize,
    r: JoinStep,
    s: JoinStep,
)
    requires
        old(a).wf(),
        *old(a) == *old(b),
        call_ensures(TaskHandle::join, (&h, a, size), r),
        call_ensures(lifecycle::join_task, (b, &h, size), s),
    ensures
        r == JoinStep::Failed(lifecycle::JoinError::Stale) <==> s == JoinStep::Failed(
            lifecycle::JoinError::Stale,
        ),
        r == JoinStep::Failed(lifecycle::JoinError::SelfJoin) <==> s == JoinStep::Failed(
            lifecycle::JoinError::SelfJoin,
        ),
        s == JoinStep::Failed(lifecycle::JoinError::Stale) || s == JoinStep::Failed(
            lifecycle::JoinError::SelfJoin,
        ) ==> *final(a) == *old(a),
{
}

} // verus!
