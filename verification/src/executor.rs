//! The executor of the cooperative tier.
//!
//! Tasks are polled in priority order on one stack. Between two rounds the
//! processor sleeps. Polling a future and sleeping are the caller's: the
//! executor decides what to do next, and is told how it went.
use crate::config::PRIORITY_LEVELS;
use crate::task::{Poll, TaskId, TaskReg, TaskRegistry, MAX_PRIORITY, MAX_TASKS};
use crate::waker::{self, WakerState};
use vstd::prelude::*;

verus! {

/// The task that is being polled.
pub struct CurrentTask {
    /// `None` outside of a poll.
    pub task: Option<TaskId>,
}

impl CurrentTask {
    /// Outside of a poll.
    pub fn new() -> (r: Self)
        ensures
            r.task is None,
    {
        CurrentTask { task: None }
    }
}

fn set_current(c: &mut CurrentTask, id: TaskId)
    ensures
        final(c).task == Some(id),
{
    c.task = Some(id);
}

fn clear_current(c: &mut CurrentTask)
    ensures
        final(c).task is None,
{
    c.task = None;
}

/// Act as if the given task were being polled.
pub fn set_current_for_test(c: &mut CurrentTask, priority: u8, index: u8)
    ensures
        final(c).task is Some,
        final(c).task->0.prio() == priority,
        final(c).task->0.idx() == index,
{
    set_current(c, TaskId::new(priority, index));
}

/// Act as if no task were being polled.
pub fn clear_current_for_test(c: &mut CurrentTask)
    ensures
        final(c).task is None,
{
    clear_current(c);
}

/// The task that is being polled, or `None` outside of a poll.
pub fn current_task(c: &CurrentTask) -> (r: Option<TaskId>)
    ensures
        r == c.task,
{
    c.task
}

/// How many of the declared tasks have priority `p`.
pub open spec fn count_of(regs: Seq<TaskReg>, p: int) -> nat
    decreases regs.len(),
{
    if regs.len() == 0 {
        0
    } else {
        count_of(regs.drop_last(), p) + if regs.last().priority == p {
            1nat
        } else {
            0nat
        }
    }
}

/// Index of the `k`-th declared task within its priority: how many tasks of
/// that priority were declared before it.
pub open spec fn rank(regs: Seq<TaskReg>, k: int) -> nat {
    count_of(regs.take(k), regs[k].priority as int)
}

proof fn lemma_count_step(regs: Seq<TaskReg>, k: int, p: int)
    requires
        0 <= k < regs.len(),
    ensures
        count_of(regs.take(k + 1), p) == count_of(regs.take(k), p) + if regs[k].priority == p {
            1nat
        } else {
            0nat
        },
{
    assert(regs.take(k + 1).drop_last() =~= regs.take(k));
}

proof fn lemma_count_grows(regs: Seq<TaskReg>, k: int, p: int)
    requires
        0 <= k <= regs.len(),
    ensures
        count_of(regs.take(k), p) <= count_of(regs, p),
    decreases regs.len() - k,
{
    if k == regs.len() {
        assert(regs.take(k) =~= regs);
    } else {
        lemma_count_step(regs, k, p);
        lemma_count_grows(regs, k + 1, p);
    }
}

/// What the caller reports to the executor.
pub enum Event {
    /// Begin a round: at the start, after sleeping, or when told to.
    Begin,
    /// The poll that was asked for returned.
    Polled(Poll<()>),
}

/// What the executor asks of the caller.
#[derive(PartialEq, Eq, Debug)]
pub enum Action {
    /// Poll the future in `cell` in the name of `task`, and report the result.
    Poll {
        /// The task.
        task: TaskId,
        /// The handle of its storage.
        cell: usize,
    },
    /// Sleep until an interrupt, then begin a round.
    Sleep,
    /// Work was announced meanwhile: begin a round.
    Again,
}

/// The executor.
pub struct Executor {
    /// Known tasks.
    pub registry: TaskRegistry,
    /// Tasks whose future has not completed.
    pub live_tasks: usize,
}

/// Ready task `(p, i)` is served later than `id`.
pub open spec fn comes_after(p: int, i: int, id: TaskId) -> bool {
    p < id.prio() || (p == id.prio() && i > id.idx())
}

impl Executor {
    /// No task.
    pub fn new() -> (r: Self)
        ensures
            r.registry.total == 0,
            r.live_tasks == 0,
            forall|p: int, i: int| r.registered(p, i) is None,
            forall|p: int|
                0 <= p < PRIORITY_LEVELS ==> #[trigger] r.registry.count_per_priority[p] == 0,
    {
        Executor { registry: TaskRegistry::new(), live_tasks: 0 }
    }

    /// The storage handle of task `i` of level `p`.
    pub open spec fn registered(&self, p: int, i: int) -> Option<usize> {
        if 0 <= p < PRIORITY_LEVELS && 0 <= i < MAX_TASKS {
            self.registry.tasks[p][i]
        } else {
            None
        }
    }

    /// Every handle names a completion flag.
    pub open spec fn cells_within(&self, n: int) -> bool {
        forall|p: int, i: int|
            (#[trigger] self.registered(p, i)) is Some ==> self.registered(p, i)->0 < n
    }

    /// A wake of task `i` of level `p` leads to no poll: there is no such task
    /// or its future has completed.
    pub open spec fn passes_over(&self, completed: Seq<bool>, p: int, i: int) -> bool {
        match self.registered(p, i) {
            Some(cell) => completed[cell as int],
            None => true,
        }
    }

    /// Give a task the next index of its priority.
    fn enrol(&mut self, counts: &mut [u8; PRIORITY_LEVELS], reg: TaskReg)
        requires
            reg.priority <= MAX_PRIORITY,
            old(counts)[reg.priority as int] < MAX_TASKS,
            old(self).registry.total < u8::MAX,
            old(self).live_tasks < usize::MAX,
        ensures
            final(self).registry.total == old(self).registry.total + 1,
            final(self).live_tasks == old(self).live_tasks + 1,
            final(counts)@ == old(counts)@.update(
                reg.priority as int,
                (old(counts)[reg.priority as int] + 1) as u8,
            ),
            forall|p: int, i: int| #[trigger]
                final(self).registered(p, i) == (if p == reg.priority && i
                    == old(counts)[reg.priority as int] {
                    Some(reg.cell)
                } else {
                    old(self).registered(p, i)
                }),
    {
        let prio: usize = reg.priority as usize;
        let idx: usize = counts[prio] as usize;
        let mut row = self.registry.tasks[prio];
        row[idx] = Some(reg.cell);
        self.registry.tasks[prio] = row;
        counts[prio] = counts[prio] + 1;
        self.registry.total = self.registry.total + 1;
        self.live_tasks = self.live_tasks + 1;
    }

    /// Take the declared tasks in. Each gets the next index of its priority
    /// and is made ready once, so that its first poll comes. A priority that
    /// does not exist, or more tasks than a level can hold, is not allowed.
    #[verifier::spinoff_prover]
    #[verifier::rlimit(80)]
    pub fn init(&mut self, w: &mut WakerState, regs: &[TaskReg])
        requires
            forall|k: int| 0 <= k < regs@.len() ==> (#[trigger] regs@[k]).priority <= MAX_PRIORITY,
            forall|p: int| 0 <= p <= MAX_PRIORITY ==> #[trigger] count_of(regs@, p) <= MAX_TASKS,
            old(self).registry.total + regs@.len() <= u8::MAX,
            old(self).live_tasks + regs@.len() <= usize::MAX,
        ensures
            forall|k: int|
                0 <= k < regs@.len() ==> final(self).registered(
                    (#[trigger] regs@[k]).priority as int,
                    rank(regs@, k) as int,
                ) == Some(regs@[k].cell),
            forall|p: int, i: int|
                i >= count_of(regs@, p) ==> #[trigger] final(self).registered(p, i) == old(
                    self,
                ).registered(p, i),
            forall|p: int|
                0 <= p < PRIORITY_LEVELS
                    ==> #[trigger] final(self).registry.count_per_priority[p] == count_of(regs@, p),
            final(self).registry.total == old(self).registry.total + regs@.len(),
            final(self).live_tasks == old(self).live_tasks + regs@.len(),
            old(w).wf() ==> final(w).wf(),
            final(w).pend == (old(w).pend || regs@.len() > 0),
            forall|p: int, i: int|
                #[trigger] final(w).ready(p, i) == (old(w).ready(p, i) || (0 <= p < PRIORITY_LEVELS
                    && 0 <= i < count_of(regs@, p))),
    {
        let ghost pre = *self;
        let mut counts: [u8; PRIORITY_LEVELS] = [0; PRIORITY_LEVELS];
        let mut k: usize = 0;
        assert(regs@.take(0) =~= Seq::<TaskReg>::empty());
        while k < regs.len()
            invariant
                k <= regs@.len(),
                forall|j: int|
                    0 <= j < regs@.len() ==> (#[trigger] regs@[j]).priority <= MAX_PRIORITY,
                forall|p: int|
                    0 <= p <= MAX_PRIORITY ==> #[trigger] count_of(regs@, p) <= MAX_TASKS,
                pre.registry.total + regs@.len() <= u8::MAX,
                pre.live_tasks + regs@.len() <= usize::MAX,
                self.registry.total == pre.registry.total + k,
                self.live_tasks == pre.live_tasks + k,
                forall|p: int|
                    0 <= p < PRIORITY_LEVELS ==> #[trigger] counts[p] == count_of(
                        regs@.take(k as int),
                        p,
                    ),
                forall|j: int|
                    0 <= j < k ==> self.registered(
                        (#[trigger] regs@[j]).priority as int,
                        rank(regs@, j) as int,
                    ) == Some(regs@[j].cell) && rank(regs@, j) < count_of(
                        regs@.take(k as int),
                        regs@[j].priority as int,
                    ),
                forall|p: int, i: int|
                    i >= count_of(regs@.take(k as int), p) ==> #[trigger] self.registered(p, i)
                        == pre.registered(p, i),
                *w == *old(w),
            decreases regs@.len() - k,
        {
            let reg = regs[k];
            let prio: usize = reg.priority as usize;
            let ghost seen = count_of(regs@.take(k as int), prio as int);
            proof {
                assert(regs@[k as int].priority <= MAX_PRIORITY);
                lemma_count_grows(regs@, k as int, prio as int);
                lemma_count_step(regs@, k as int, prio as int);
                lemma_count_grows(regs@, k + 1, prio as int);
                assert(counts[prio as int] == seen);
                assert forall|p: int| #[trigger] count_of(regs@.take(k + 1), p) == count_of(
                    regs@.take(k as int),
                    p,
                ) + if p == prio {
                    1nat
                } else {
                    0nat
                } by {
                    lemma_count_step(regs@, k as int, p);
                }
            }
            let ghost before = *self;
            self.enrol(&mut counts, reg);
            proof {
                assert(rank(regs@, k as int) == seen);
                assert forall|j: int| 0 <= j < k + 1 implies self.registered(
                    (#[trigger] regs@[j]).priority as int,
                    rank(regs@, j) as int,
                ) == Some(regs@[j].cell) && rank(regs@, j) < count_of(
                    regs@.take(k + 1),
                    regs@[j].priority as int,
                ) by {
                    if j < k {
                        assert(before.registered(
                            regs@[j].priority as int,
                            rank(regs@, j) as int,
                        ) == Some(regs@[j].cell));
                    }
                }
            }
            k = k + 1;
        }
        assert(regs@.take(k as int) =~= regs@);
        let ghost filled = *self;
        self.registry.count_per_priority = counts;
        let ghost known = *self;
        assert(forall|p: int, i: int| #[trigger] known.registered(p, i) == filled.registered(p, i));
        let mut p: usize = 0;
        while p < PRIORITY_LEVELS
            invariant
                p <= PRIORITY_LEVELS,
                *self == known,
                forall|q: int|
                    0 <= q < PRIORITY_LEVELS ==> #[trigger] counts[q] == count_of(regs@, q),
                old(w).wf() ==> w.wf(),
                w.pend == (old(w).pend || exists|q: int| 0 <= q < p && #[trigger] counts[q] > 0),
                forall|q: int, i: int|
                    #[trigger] w.ready(q, i) == (old(w).ready(q, i) || (0 <= q < p && 0 <= i
                        < counts[q])),
                forall|q: int|
                    0 <= q <= MAX_PRIORITY ==> #[trigger] count_of(regs@, q) <= MAX_TASKS,
            decreases PRIORITY_LEVELS - p,
        {
            let count: u8 = counts[p];
            assert(count_of(regs@, p as int) <= MAX_TASKS);
            let mut i: u8 = 0;
            let ghost mid = *w;
            while i < count
                invariant
                    i <= count <= MAX_TASKS,
                    p < PRIORITY_LEVELS,
                    old(w).wf() ==> w.wf(),
                    w.pend == (mid.pend || i > 0),
                    forall|q: int, j: int|
                        #[trigger] w.ready(q, j) == (mid.ready(q, j) || (q == p && 0 <= j < i)),
                decreases count - i,
            {
                waker::mark_ready(w, TaskId::new(p as u8, i));
                i = i + 1;
            }
            proof {
                if exists|q: int| 0 <= q < p + 1 && #[trigger] counts[q] > 0 {
                    let q = choose|q: int| 0 <= q < p + 1 && #[trigger] counts[q] > 0;
                    if q < p {
                        assert(mid.pend);
                    }
                }
            }
            p = p + 1;
        }
        proof {
            if regs@.len() > 0 {
                let last = regs@.len() - 1;
                let q = regs@[last].priority as int;
                assert(counts[q] > 0) by {
                    assert(count_of(regs@, q) > 0);
                }
            } else {
                assert forall|q: int| count_of(regs@, q) == 0 by {}
            }
        }
    }

    /// The storage handle of a task, if there is such a task.
    pub fn lookup_task(&self, priority: u8, index: u8) -> (r: Option<usize>)
        ensures
            r == self.registered(priority as int, index as int),
    {
        let p: usize = priority as usize;
        let i: usize = index as usize;
        if p > MAX_PRIORITY as usize || i >= MAX_TASKS {
            return None;
        }
        self.registry.tasks[p][i]
    }

    /// What taking the next task to poll off the ready set does. Wakes that
    /// lead to no poll are dropped on the way.
    pub open spec fn advanced(
        &self,
        completed: Seq<bool>,
        pre: &WakerState,
        post: &WakerState,
        r: Option<(TaskId, usize)>,
    ) -> bool {
        &&& post.wf()
        &&& post.pend == pre.pend
        &&& match r {
            Some((id, cell)) => {
                &&& 0 <= id.prio() < PRIORITY_LEVELS
                &&& pre.ready(id.prio(), id.idx())
                &&& self.registered(id.prio(), id.idx()) == Some(cell)
                &&& !completed[cell as int]
                &&& forall|p: int, i: int|
                    #[trigger] post.ready(p, i) == (pre.ready(p, i) && comes_after(p, i, id))
                &&& forall|p: int, i: int| #[trigger]
                    pre.ready(p, i) && !comes_after(p, i, id) && !(p == id.prio() && i == id.idx())
                        ==> self.passes_over(completed, p, i)
            },
            None => {
                &&& post.idle()
                &&& forall|p: int, i: int| #[trigger]
                    pre.ready(p, i) ==> self.passes_over(completed, p, i)
            },
        }
    }

    /// Take the next task to poll off the ready set: the highest priority,
    /// then the lowest index. Wakes of unknown and of completed tasks are
    /// dropped.
    pub fn next_poll(&self, w: &mut WakerState, completed: &[bool]) -> (r: Option<(TaskId, usize)>)
        requires
            old(w).wf(),
            self.cells_within(completed@.len() as int),
        ensures
            self.advanced(completed@, old(w), final(w), r),
    {
        let ghost pre = *w;
        let ghost mut bound: int = 32 * PRIORITY_LEVELS;
        loop
            invariant
                w.wf(),
                w.pend == pre.pend,
                pre == *old(w),
                self.cells_within(completed@.len() as int),
                bound >= 0,
                forall|p: int, i: int| #[trigger] w.ready(p, i) == (pre.ready(p, i)
                    && 32 * p + 31 - i < bound),
                forall|p: int, i: int| #[trigger]
                    pre.ready(p, i) && 32 * p + 31 - i >= bound ==> self.passes_over(
                        completed@,
                        p,
                        i,
                    ),
            decreases bound,
        {
            let ghost mid = *w;
            match waker::next_ready(w) {
                None => {
                    assert forall|p: int, i: int| !w.ready(p, i) by {
                        assert(!mid.ready(p, i));
                    }
                    assert forall|p: int, i: int| #[trigger] pre.ready(p, i) implies self.passes_over(
                        completed@,
                        p,
                        i,
                    ) by {
                        assert(!mid.ready(p, i));
                    }
                    return None;
                },
                Some(id) => {
                    let ghost at = 32 * id.prio() + 31 - id.idx();
                    proof {
                        assert(mid.ready(id.prio(), id.idx()));
                        assert forall|p: int, i: int| #[trigger] w.ready(p, i) == (pre.ready(p, i)
                            && 32 * p + 31 - i < at) by {
                            if mid.ready(p, i) {
                                assert(p <= id.prio());
                            }
                        }
                    }
                    if let Some(cell) = self.lookup_task(id.priority(), id.index()) {
                        assert(self.registered(id.prio(), id.idx()) is Some);
                        if !completed[cell] {
                            proof {
                                assert forall|p: int, i: int| #[trigger] pre.ready(p, i)
                                    && !comes_after(p, i, id) && !(p == id.prio() && i
                                    == id.idx()) implies self.passes_over(completed@, p, i) by {
                                    assert(!w.ready(p, i));
                                    if mid.ready(p, i) {
                                        assert(p <= id.prio());
                                    }
                                }
                            }
                            return Some((id, cell));
                        }
                    }
                    proof {
                        assert forall|p: int, i: int| #[trigger] pre.ready(p, i) && 32 * p + 31 - i
                            >= at implies self.passes_over(completed@, p, i) by {
                            if 32 * p + 31 - i < bound {
                                assert(mid.ready(p, i));
                                assert(p <= id.prio());
                                assert(mid.ready(id.prio(), i) ==> id.idx() <= i);
                            }
                        }
                        bound = at;
                    }
                },
            }
        }
    }

    /// What one step of the executor does.
    ///
    /// A round first forgets that work was announced. A task is polled while
    /// it is the current task; a completed future is counted out. When no task
    /// is left to poll the processor may sleep, unless work was announced
    /// since the round began.
    pub open spec fn stepped(
        pre: &Executor,
        post: &Executor,
        pre_w: &WakerState,
        post_w: &WakerState,
        post_c: &CurrentTask,
        event: Event,
        completed: Seq<bool>,
        r: Action,
    ) -> bool {
        let start = WakerState { pend: pre_w.pend && event is Polled, ..*pre_w };
        &&& post.registry == pre.registry
        &&& post.live_tasks == (if event matches Event::Polled(Poll::Ready(_)) {
            if pre.live_tasks > 0 {
                (pre.live_tasks - 1) as usize
            } else {
                usize::MAX
            }
        } else {
            pre.live_tasks
        })
        &&& match r {
            Action::Poll { task, cell } => pre.advanced(
                completed,
                &start,
                post_w,
                Some((task, cell)),
            ) && post_c.task == Some(task),
            Action::Sleep => pre.advanced(completed, &start, post_w, None) && post_c.task is None
                && !start.pend,
            Action::Again => pre.advanced(completed, &start, post_w, None) && post_c.task is None
                && start.pend,
        }
    }

    /// One step of the executor's endless loop. `completed` holds the
    /// completion flag of each storage cell.
    pub fn run(
        &mut self,
        w: &mut WakerState,
        c: &mut CurrentTask,
        event: Event,
        completed: &[bool],
    ) -> (r: Action)
        requires
            old(w).wf(),
            old(self).cells_within(completed@.len() as int),
        ensures
            Self::stepped(
                old(self),
                final(self),
                old(w),
                final(w),
                final(c),
                event,
                completed@,
                r,
            ),
    {
        let ghost pre = *self;
        clear_current(c);
        match event {
            Event::Begin => {
                waker::clear_pend(w);
            },
            Event::Polled(Poll::Ready(())) => {
                self.live_tasks = self.live_tasks.wrapping_sub(1);
            },
            Event::Polled(Poll::Pending) => {},
        }
        assert(*w == (WakerState { pend: old(w).pend && event is Polled, ..*old(w) }));
        assert(self.registry == pre.registry);
        assert(forall|p: int, i: int| #[trigger] self.registered(p, i) == pre.registered(p, i));
        assert(forall|p: int, i: int| #[trigger]
            self.passes_over(completed@, p, i) == pre.passes_over(completed@, p, i));
        let ghost start = *w;
        let next = self.next_poll(w, completed);
        assert(pre.advanced(completed@, &start, w, next)) by {
            assert(self.advanced(completed@, &start, w, next));
        }
        match next {
            Some((task, cell)) => {
                set_current(c, task);
                Action::Poll { task, cell }
            },
            None => {
                if waker::has_pending(w) {
                    Action::Again
                } else {
                    Action::Sleep
                }
            },
        }
    }
}

impl Default for Executor {
    fn default() -> (r: Self)
        ensures
            r.registry.total == 0,
            r.live_tasks == 0,
    {
        Self::new()
    }
}

/// The executor never polls below the highest priority that has work: every
/// task that stays ready behind the polled one has a lower priority, or the
/// same priority and a higher index.
pub proof fn law_highest_priority_first(
    e0: Executor,
    e1: Executor,
    w0: WakerState,
    w1: WakerState,
    c1: CurrentTask,
    event: Event,
    completed: Seq<bool>,
    task: TaskId,
    cell: usize,
    p: int,
    i: int,
)
    requires
        Executor::stepped(
            &e0,
            &e1,
            &w0,
            &w1,
            &c1,
            event,
            completed,
            (Action::Poll { task, cell }),
        ),
        w0.ready(p, i),
        !e0.passes_over(completed, p, i),
    ensures
        p <= task.prio(),
        p == task.prio() ==> task.idx() <= i,
{
    let start = WakerState { pend: w0.pend && event is Polled, ..w0 };
    assert(start.ready(p, i));
}

/// The processor sleeps only when no task that could be polled is ready.
pub proof fn law_sleep_only_when_idle(
    e0: Executor,
    e1: Executor,
    w0: WakerState,
    w1: WakerState,
    c1: CurrentTask,
    event: Event,
    completed: Seq<bool>,
    p: int,
    i: int,
)
    requires
        Executor::stepped(&e0, &e1, &w0, &w1, &c1, event, completed, Action::Sleep),
        w0.ready(p, i),
    ensures
        e0.passes_over(completed, p, i),
        w1.idle(),
        !w1.pend,
{
    let start = WakerState { pend: w0.pend && event is Polled, ..w0 };
    assert(start.ready(p, i));
}

/// Every declared task is known under its priority, the next index of that
/// priority, and its own storage, and is ready for its first poll.
pub proof fn law_declared_tasks_start(
    e: &mut Executor,
    w: &mut WakerState,
    regs: &[TaskReg],
    k: int,
    j: int,
    index: u8,
    found: Option<usize>,
)
    requires
        call_ensures(Executor::init, (e, w, regs), ()),
        0 <= j < k < regs@.len(),
        regs@[j].priority <= MAX_PRIORITY,
        regs@[k].priority <= MAX_PRIORITY,
        index == rank(regs@, k),
        index < MAX_TASKS,
        call_ensures(Executor::lookup_task, (&*final(e), regs@[k].priority, index), found),
    ensures
        found == Some(regs@[k].cell),
        final(w).ready(regs@[k].priority as int, index as int),
        regs@[j].priority == regs@[k].priority ==> rank(regs@, j) < rank(regs@, k),
        final(e).registry.total == old(e).registry.total + regs@.len(),
        final(e).live_tasks == old(e).live_tasks + regs@.len(),
        (forall|i: int| 0 <= i < k ==> (#[trigger] regs@[i]).priority != regs@[k].priority)
            ==> index == 0,
{
    let p = regs@[k].priority as int;
    lemma_count_step(regs@, k, p);
    lemma_count_grows(regs@, k + 1, p);
    assert(final(w).ready(p, index as int));
    if regs@[j].priority == p {
        lemma_count_step(regs@, j, p);
        lemma_counts_ordered(regs@, j + 1, k, p);
    }
    if forall|i: int| 0 <= i < k ==> (#[trigger] regs@[i]).priority != p {
        lemma_count_none(regs@, k, p);
    }
}

proof fn lemma_counts_ordered(regs: Seq<TaskReg>, a: int, b: int, p: int)
    requires
        0 <= a <= b <= regs.len(),
    ensures
        count_of(regs.take(a), p) <= count_of(regs.take(b), p),
    decreases b - a,
{
    if a < b {
        lemma_count_step(regs, a, p);
        lemma_counts_ordered(regs, a + 1, b, p);
    }
}

proof fn lemma_count_none(regs: Seq<TaskReg>, k: int, p: int)
    requires
        0 <= k <= regs.len(),
        forall|i: int| 0 <= i < k ==> (#[trigger] regs[i]).priority != p,
    ensures
        count_of(regs.take(k), p) == 0,
    decreases k,
{
    if k > 0 {
        lemma_count_none(regs, k - 1, p);
        lemma_count_step(regs, k - 1, p);
    }
}

/// A step polls the ready task with work that has the highest priority and,
/// among those, the lowest index; it is the current task then, and is not ready
/// any more. What is ready behind it stays so.
pub proof fn law_step_polls_the_first(
    e: &mut Executor,
    w: &mut WakerState,
    c: &mut CurrentTask,
    event: Event,
    completed: &[bool],
    r: Action,
    p: int,
    i: int,
    current: Option<TaskId>,
)
    requires
        call_ensures(Executor::run, (e, w, c, event, completed), r),
        call_ensures(current_task, (&*final(c),), current),
        old(w).ready(p, i),
        0 <= p < PRIORITY_LEVELS,
        0 <= i < MAX_TASKS,
        old(e).registry.tasks[p][i] matches Some(cell) && !completed@[cell as int],
    ensures
        r is Poll,
        current == Some(r->task),
        old(w).ready(r->task.prio(), r->task.idx()),
        old(e).registry.tasks[r->task.prio()][r->task.idx()] == Some(r->cell),
        !completed@[r->cell as int],
        r->task.prio() > p || (r->task.prio() == p && r->task.idx() <= i),
        !final(w).ready(r->task.prio(), r->task.idx()),
        !(r->task.prio() == p && r->task.idx() == i) ==> final(w).ready(p, i),
{
    let start = WakerState { pend: old(w).pend && event is Polled, ..*old(w) };
    assert(start.ready(p, i));
    assert(!old(e).passes_over(completed@, p, i));
    if r is Poll {
        assert(start.ready(r->task.prio(), r->task.idx()));
    }
}

/// Without a ready task that has work there is nothing to poll: the processor
/// sleeps, unless work was announced since the round began.
pub proof fn law_idle_executor_sleeps(
    e: &mut Executor,
    w: &mut WakerState,
    c: &mut CurrentTask,
    event: Event,
    completed: &[bool],
    r: Action,
    current: Option<TaskId>,
)
    requires
        call_ensures(Executor::run, (e, w, c, event, completed), r),
        call_ensures(current_task, (&*final(c),), current),
        forall|p: int, i: int| !#[trigger] old(w).ready(p, i),
    ensures
        r == Action::Again <==> old(w).pend && event is Polled,
        r == Action::Sleep <==> !(old(w).pend && event is Polled),
        current is None,
{
    let start = WakerState { pend: old(w).pend && event is Polled, ..*old(w) };
    if r is Poll {
        assert(start.ready(r->task.prio(), r->task.idx()));
        assert(old(w).ready(r->task.prio(), r->task.idx()));
    }
}

/// Finished futures are counted out one by one.
pub proof fn law_finished_futures_are_counted(
    e: &mut Executor,
    w: &mut WakerState,
    c: &mut CurrentTask,
    event: Event,
    completed: &[bool],
    r: Action,
)
    requires
        call_ensures(Executor::run, (e, w, c, event, completed), r),
        old(e).live_tasks > 0,
    ensures
        event == Event::Polled(Poll::Ready(())) ==> final(e).live_tasks == old(e).live_tasks - 1,
        event == Event::Polled(Poll::Pending) || event is Begin ==> final(e).live_tasks == old(
            e,
        ).live_tasks,
        final(e).registry == old(e).registry,
{
}

/// The current task is the one that was set last, and none once it was
/// cleared.
pub proof fn law_current_is_what_was_set(
    fresh: CurrentTask,
    c0: &mut CurrentTask,
    c1: &mut CurrentTask,
    priority: u8,
    index: u8,
    none: Option<TaskId>,
    some: Option<TaskId>,
    gone: Option<TaskId>,
)
    requires
        call_ensures(CurrentTask::new, (), fresh),
        call_ensures(current_task, (&fresh,), none),
        call_ensures(set_current_for_test, (c0, priority, index), ()),
        call_ensures(current_task, (&*final(c0),), some),
        *old(c1) == *final(c0),
        call_ensures(clear_current_for_test, (c1,), ()),
        call_ensures(current_task, (&*final(c1),), gone),
    ensures
        none is None,
        some is Some && some->0.prio() == priority && some->0.idx() == index,
        gone is None,
{
}

} // verus!
