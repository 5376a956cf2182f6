//! Identity and registration of cooperative tasks.
use crate::config;
use vstd::prelude::*;

verus! {

/// Cooperative tasks per priority level.
pub const MAX_TASKS: usize = config::MAX_TASKS;

/// Highest priority level (0 is the lowest).
pub const MAX_PRIORITY: u8 = 31;

/// Bytes reserved for a task's state machine unless it asks for more.
pub const DEFAULT_TASK_SIZE: usize = 512;

/// Strictest alignment that a task's storage can give.
pub const TASK_CELL_ALIGN: usize = 16;

/// What one poll of a future brought.
#[derive(PartialEq, Eq, Debug)]
pub enum Poll<T> {
    /// The future is finished, with this value.
    Ready(T),
    /// The future waits for an event.
    Pending,
}

/// The identity of a cooperative task: its priority and its index within
/// that priority, packed into one word.
#[derive(Clone, Copy, PartialEq, Eq, Structural, Debug, Hash)]
pub struct TaskId(pub u16);

impl TaskId {
    /// The priority half.
    pub open spec fn prio(self) -> int {
        self.0 as int / 256
    }

    /// The index half.
    pub open spec fn idx(self) -> int {
        self.0 as int % 256
    }

    /// Pack a priority and an index.
    pub fn new(priority: u8, index: u8) -> (r: Self)
        ensures
            r.prio() == priority,
            r.idx() == index,
            r.0 == priority * 256 + index,
    {
        let p: u16 = priority as u16;
        let i: u16 = index as u16;
        let v: u16 = (p << 8) | i;
        assert(v == p * 256 + i) by (bit_vector)
            requires
                p < 256,
                i < 256,
                v == (p << 8) | i,
        ;
        TaskId(v)
    }

    /// The priority of the task.
    pub fn priority(self) -> (r: u8)
        ensures
            r == self.prio(),
    {
        let v: u16 = self.0;
        assert(v >> 8 == v / 256 && v >> 8 < 256) by (bit_vector);
        (v >> 8) as u8
    }

    /// The index of the task within its priority.
    pub fn index(self) -> (r: u8)
        ensures
            r == self.idx(),
    {
        let v: u16 = self.0;
        assert(v & 0xFF == v % 256 && v & 0xFF < 256) by (bit_vector);
        (v & 0xFF) as u8
    }

    /// The packed word.
    pub fn as_u16(self) -> (r: u16)
        ensures
            r == self.0,
    {
        self.0
    }

    /// The task that a packed word names.
    pub fn from_u16(v: u16) -> (r: Self)
        ensures
            r.0 == v,
    {
        TaskId(v)
    }
}

/// An identity is its priority and its index: two tasks that agree on both
/// are the same task.
pub proof fn law_identity_is_a_pair(a: TaskId, b: TaskId)
    ensures
        (a == b) == (a.prio() == b.prio() && a.idx() == b.idx()),
        0 <= a.prio() < 256,
        0 <= a.idx() < 256,
{
}

/// What the owner of a task's storage has to do for one poll.
#[derive(Clone, Copy, PartialEq, Eq, Structural, Debug)]
pub enum CellAction {
    /// Construct the future in the storage, then poll it.
    CreateAndPoll,
    /// Poll the future that is there.
    Poll,
    /// The future has finished and is gone: there is nothing to poll.
    Finished,
}

/// Life of the future that a task's storage of `SIZE` bytes holds.
pub struct TaskCell<const SIZE: usize> {
    /// The future was constructed.
    pub initialized: bool,
    /// The future ran to completion and was dropped.
    pub completed: bool,
}

impl<const SIZE: usize> TaskCell<SIZE> {
    /// A future can only finish after it was constructed.
    pub open spec fn wf(&self) -> bool {
        self.completed ==> self.initialized
    }

    /// Empty storage.
    pub fn new() -> (r: Self)
        ensures
            r.wf(),
            !r.initialized,
            !r.completed,
    {
        TaskCell { initialized: false, completed: false }
    }

    /// Whether the future has finished.
    pub fn is_completed(&self) -> (r: bool)
        ensures
            r == self.completed,
    {
        self.completed
    }

    /// Start a poll of a future of `size` bytes aligned to `align`. The
    /// future must fit the storage.
    pub fn begin_poll(&mut self, size: usize, align: usize) -> (r: CellAction)
        requires
            old(self).wf(),
            size <= SIZE,
            align <= TASK_CELL_ALIGN,
        ensures
            final(self).wf(),
            final(self).initialized,
            final(self).completed == old(self).completed,
            r == (if !old(self).initialized {
                CellAction::CreateAndPoll
            } else if old(self).completed {
                CellAction::Finished
            } else {
                CellAction::Poll
            }),
    {
        if !self.initialized {
            self.initialized = true;
            CellAction::CreateAndPoll
        } else if self.completed {
            CellAction::Finished
        } else {
            CellAction::Poll
        }
    }

    /// Finish a poll whose future answered `outcome`. A finished future is
    /// never polled again: whatever `outcome` says, it stays finished.
    pub fn poll(&mut self, outcome: Poll<()>) -> (r: Poll<()>)
        requires
            old(self).wf(),
            old(self).initialized,
        ensures
            final(self).wf(),
            final(self).initialized,
            final(self).completed == (old(self).completed || outcome is Ready),
            r == (if old(self).completed {
                Poll::Ready(())
            } else {
                outcome
            }),
    {
        if self.completed {
            return Poll::Ready(());
        }
        match outcome {
            Poll::Ready(_) => {
                self.completed = true;
            },
            Poll::Pending => {},
        }
        outcome
    }
}

impl<const SIZE: usize> Default for TaskCell<SIZE> {
    fn default() -> (r: Self)
        ensures
            !r.initialized,
            !r.completed,
    {
        Self::new()
    }
}

/// A declared cooperative task: its priority and the storage of its future.
#[derive(Clone, Copy, PartialEq, Eq, Structural, Debug)]
pub struct TaskReg {
    /// Priority level.
    pub priority: u8,
    /// Index within the level; assigned when the executor starts.
    pub index_in_priority: u8,
    /// The owner's handle of the task's storage.
    pub cell: usize,
}

/// The tasks that the executor knows, by priority and index.
pub struct TaskRegistry {
    /// The storage handle of each task.
    pub tasks: [[Option<usize>; MAX_TASKS]; config::PRIORITY_LEVELS],
    /// Tasks per level.
    pub count_per_priority: [u8; config::PRIORITY_LEVELS],
    /// Tasks in all.
    pub total: u8,
}

impl TaskRegistry {
    /// No task.
    pub fn new() -> (r: Self)
        ensures
            r.total == 0,
            forall|p: int, i: int|
                0 <= p < config::PRIORITY_LEVELS && 0 <= i < MAX_TASKS
                    ==> #[trigger] r.tasks[p][i] == None::<usize>,
            forall|p: int|
                0 <= p < config::PRIORITY_LEVELS ==> #[trigger] r.count_per_priority[p] == 0,
    {
        TaskRegistry {
            tasks: [[None; MAX_TASKS]; config::PRIORITY_LEVELS],
            count_per_priority: [0; config::PRIORITY_LEVELS],
            total: 0,
        }
    }
}

/// A task's priority and index come back out of its identity, and so does the
/// identity out of its packed word.
pub proof fn law_identity_round_trips(
    priority: u8,
    index: u8,
    id: TaskId,
    p: u8,
    i: u8,
    word: u16,
    again: TaskId,
)
    requires
        call_ensures(TaskId::new, (priority, index), id),
        call_ensures(TaskId::priority, (id,), p),
        call_ensures(TaskId::index, (id,), i),
        call_ensures(TaskId::as_u16, (id,), word),
        call_ensures(TaskId::from_u16, (word,), again),
    ensures
        p == priority,
        i == index,
        again == id,
        word == priority * 256 + index,
{
}

/// A future is made once, polled until it is finished, and never again.
pub proof fn law_future_lives_once<const SIZE: usize>(
    a: &mut TaskCell<SIZE>,
    b: &mut TaskCell<SIZE>,
    c: &mut TaskCell<SIZE>,
    size: usize,
    align: usize,
    outcome: Poll<()>,
    first: CellAction,
    answer: Poll<()>,
    done: bool,
    second: CellAction,
)
    requires
        call_ensures(TaskCell::<SIZE>::begin_poll, (a, size, align), first),
        old(a).wf(),
        *old(b) == *final(a),
        call_ensures(TaskCell::<SIZE>::poll, (b, outcome), answer),
        call_ensures(TaskCell::<SIZE>::is_completed, (&*final(b),), done),
        *old(c) == *final(b),
        call_ensures(TaskCell::<SIZE>::begin_poll, (c, size, align), second),
    ensures
        first == CellAction::CreateAndPoll <==> !old(a).initialized,
        first == CellAction::Finished <==> old(a).completed,
        second != CellAction::CreateAndPoll,
        old(a).completed ==> answer is Ready,
        !old(a).completed ==> answer == outcome,
        done <==> answer is Ready,
        second == CellAction::Finished <==> done,
        second == CellAction::Poll <==> !done,
{
}

} // verus!
