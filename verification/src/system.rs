//! The system: the kernel with its executor, console and log.
use crate::config::PRIORITY_LEVELS;
use crate::console::{self, Console};
use crate::executor::{count_of, rank, CurrentTask, Executor};
use crate::kernel::Kernel;
use crate::log::{self, Log, LogFrame};
use crate::port::arch::{self, Harts};
use crate::port::board::{self, LastAct};
use crate::preempt::mutex::inherits;
use crate::preempt::tcb::{SlotState, MAX_PTASKS};
use crate::preempt::{self, Dispatch, SpawnError, TaskHandle, TaskSpec};
use crate::task::{TaskReg, MAX_PRIORITY, MAX_TASKS};
use crate::waker::WakerState;
use vstd::prelude::*;

verus! {

/// Version of the system.
pub const VERSION: &'static str = "0.1.0";

/// Stack of the task that runs the executor.
pub const ASYNC_IDLE_STACK_SIZE: usize = 4096;

/// Everything that the system remembers.
pub struct System {
    /// The kernel.
    pub kernel: Kernel,
    /// The executor.
    pub executor: Executor,
    /// The task that the executor polls.
    pub current: CurrentTask,
    /// The console.
    pub console: Console,
    /// The log.
    pub log: Log,
}

impl System {
    /// The invariant of every part.
    pub open spec fn wf(&self) -> bool {
        self.kernel.wf() && self.console.wf() && self.log.wf()
    }

    /// Nothing has been set up: no task, no interrupt-driven console, nothing
    /// written, nothing logged and nothing lost.
    pub open spec fn initial(&self) -> bool {
        &&& self.kernel.initial()
        &&& self.executor.registry.total == 0
        &&& self.executor.live_tasks == 0
        &&& forall|p: int, i: int| self.executor.registered(p, i) is None
        &&& forall|p: int|
            0 <= p < PRIORITY_LEVELS
                ==> #[trigger] self.executor.registry.count_per_priority[p] == 0
        &&& self.current.task is None
        &&& !self.console.started()
        &&& !self.console.irq_driven()
        &&& !self.console.locked()
        &&& self.console.incoming() == Seq::<u8>::empty()
        &&& self.console.outgoing() == Seq::<u8>::empty()
        &&& !self.log.started()
        &&& self.log.frames() == Seq::<LogFrame>::empty()
        &&& self.log.lost() == 0
        &&& self.log.channel().receiver_waiting() is None
        &&& self.log.channel().sender_waiting() is None
    }

    /// A system that has not been set up.
    pub fn new() -> (r: Self)
        ensures
            r.wf(),
            r.initial(),
    {
        System {
            kernel: Kernel::new(),
            executor: Executor::new(),
            current: CurrentTask::new(),
            console: Console::new(),
            log: Log::new(),
        }
    }
}

/// The task that runs the executor: the lowest priority, and no result.
pub open spec fn idle_task(sp: usize, stack_base: usize) -> TaskSpec {
    TaskSpec {
        sp,
        stack_base,
        stack_size: ASYNC_IDLE_STACK_SIZE,
        priority: 0,
        result_size: 0,
        result_drop: 0,
    }
}

/// Set the system up: the console and the log are taken into use, the declared
/// cooperative tasks are registered and made ready, and the task that runs the
/// executor is spawned at the lowest priority, on the stack at `stack_base`
/// with its first frame at `sp`. Without a free slot there is no such task.
pub fn init(s: &mut System, regs: &[TaskReg], sp: usize, stack_base: usize, min_stack: usize)
    requires
        old(s).wf(),
        min_stack <= ASYNC_IDLE_STACK_SIZE,
        forall|k: int| 0 <= k < regs@.len() ==> (#[trigger] regs@[k]).priority <= MAX_PRIORITY,
        forall|p: int| 0 <= p <= MAX_PRIORITY ==> #[trigger] count_of(regs@, p) <= MAX_TASKS,
        old(s).executor.registry.total + regs@.len() <= u8::MAX,
        old(s).executor.live_tasks + regs@.len() <= usize::MAX,
    ensures
        final(s).wf(),
        inherits(&old(s).kernel.preempt) ==> inherits(&final(s).kernel.preempt),
        final(s).console.started(),
        final(s).log.started(),
        final(s).current == old(s).current,
        final(s).executor.live_tasks == old(s).executor.live_tasks + regs@.len(),
        forall|k: int|
            0 <= k < regs@.len() ==> final(s).executor.registered(
                (#[trigger] regs@[k]).priority as int,
                rank(regs@, k) as int,
            ) == Some(regs@[k].cell),
        forall|p: int, i: int|
            #[trigger] final(s).kernel.waker.ready(p, i) == (old(s).kernel.waker.ready(p, i) || (0
                <= p < PRIORITY_LEVELS && 0 <= i < count_of(regs@, p))),
        exists|r: Result<TaskHandle, SpawnError>| #[trigger]
            preempt::spawn_attempted(
                &old(s).kernel.preempt,
                &final(s).kernel.preempt,
                idle_task(sp, stack_base),
                r,
            ),
        final(s).kernel == (Kernel {
            waker: final(s).kernel.waker,
            preempt: final(s).kernel.preempt,
            ..old(s).kernel
        }),
{
    console::init(&mut s.console);
    log::init(&mut s.log);
    s.executor.init(&mut s.kernel.waker, regs);
    let idle = TaskSpec {
        sp,
        stack_base,
        stack_size: ASYNC_IDLE_STACK_SIZE,
        priority: 0,
        result_size: 0,
        result_drop: 0,
    };
    let r = preempt::spawn(&mut s.kernel.preempt, &idle, min_stack);
    assert(preempt::spawn_attempted(
        &old(s).kernel.preempt,
        &s.kernel.preempt,
        idle_task(sp, stack_base),
        r,
    ));
}

/// Start scheduling: the task that runs first. Some task must be ready.
pub fn run(s: &mut System, cycle: u64) -> (r: Dispatch)
    requires
        old(s).wf(),
        old(s).kernel.preempt.any_ready(),
    ensures
        final(s).wf(),
        inherits(&old(s).kernel.preempt) ==> inherits(&final(s).kernel.preempt),
        preempt::first_dispatch(&old(s).kernel.preempt, &final(s).kernel.preempt, r),
        final(s).kernel.exec_time.started,
        final(s).kernel.exec_time.boot_cycle == cycle,
        final(s).kernel.exec_time.last_dispatch == cycle,
        final(s).kernel.exec_time.busy == old(s).kernel.exec_time.busy,
        preempt::wake_recorded(
            &old(s).kernel,
            &final(s).kernel,
            preempt::waited(&old(s).kernel.preempt, r.task as int),
        ),
        final(s).kernel == (Kernel {
            preempt: final(s).kernel.preempt,
            exec_time: final(s).kernel.exec_time,
            latency: final(s).kernel.latency,
            ..old(s).kernel
        }),
        *final(s) == (System { kernel: final(s).kernel, ..*old(s) }),
{
    preempt::start(&mut s.kernel, cycle)
}

/// Give up the processor: ask the executing hart to run the scheduler.
pub fn yield_now(h: &mut Harts)
    requires
        old(h).wf(),
    ensures
        final(h).hart == old(h).hart,
        final(h).resched@ == old(h).resched@.update(old(h).hart as int, true),
{
    arch::request_reschedule(h);
}

/// End the program with success.
pub fn exit_success(c: &mut Console, w: &mut WakerState, out: &mut Vec<u8>) -> (r: LastAct)
    requires
        old(c).wf(),
    ensures
        final(c).wf(),
        *final(w) == *old(w),
        final(out)@ == old(out)@ + old(c).outgoing(),
        final(c).outgoing() == Seq::<u8>::empty(),
        r == LastAct::Exit(0),
{
    board::exit(c, w, 0, out)
}

/// End the program with a failure code.
pub fn exit_failure(c: &mut Console, w: &mut WakerState, code: u32, out: &mut Vec<u8>) -> (r:
    LastAct)
    requires
        old(c).wf(),
    ensures
        final(c).wf(),
        *final(w) == *old(w),
        final(out)@ == old(out)@ + old(c).outgoing(),
        final(c).outgoing() == Seq::<u8>::empty(),
        r == LastAct::Exit(code),
{
    board::exit(c, w, code, out)
}

/// Reset the system.
pub fn system_reset(c: &mut Console, w: &mut WakerState, out: &mut Vec<u8>) -> (r: LastAct)
    requires
        old(c).wf(),
    ensures
        final(c).wf(),
        *final(w) == *old(w),
        final(out)@ == old(out)@ + old(c).outgoing(),
        final(c).outgoing() == Seq::<u8>::empty(),
        r == LastAct::Reset,
{
    board::reset(c, w, out)
}

/// Setting the system up spawns the task that runs the executor: it takes the
/// lowest free slot, has priority zero and a stack of 4096 bytes, and is ready.
/// With every slot taken the tasks stay as they are.
pub proof fn law_executor_gets_a_task(
    s: &mut System,
    regs: &[TaskReg],
    sp: usize,
    stack_base: usize,
    min_stack: usize,
    x: int,
)
    requires
        old(s).wf(),
        call_ensures(init, (s, regs, sp, stack_base, min_stack), ()),
        0 <= x < MAX_PTASKS,
        forall|i: int| 0 <= i < x ==> (#[trigger] old(s).kernel.preempt.tasks[i]).used,
    ensures
        final(s).console.started(),
        final(s).log.started(),
        !old(s).kernel.preempt.tasks[x].used ==> {
            let t = final(s).kernel.preempt.tasks[x];
            &&& t.used
            &&& t.base_priority == 0
            &&& t.effective_priority == 0
            &&& t.sp == sp
            &&& t.stack_base == stack_base
            &&& t.stack_size == 4096
            &&& t.state == SlotState::Ready
        },
        x == MAX_PTASKS - 1 && old(s).kernel.preempt.tasks[x].used ==> final(s).kernel.preempt
            == old(s).kernel.preempt,
{
    let pre = old(s).kernel.preempt;
    let post = final(s).kernel.preempt;
    let r = choose|r: Result<TaskHandle, SpawnError>| #[trigger]
        preempt::spawn_attempted(&pre, &post, idle_task(sp, stack_base), r);
    if let Ok(h) = r {
        let id = h.id as int;
        assert(post.tasks@[id] == post.tasks[id]);
        if id < x {
            assert(pre.tasks[id].used);
        }
        if x < id {
            assert(pre.tasks[x].used);
        }
    } else if !pre.tasks[x].used {
        assert(pre.tasks[x].used);
    }
}

/// Setting the system up makes every declared task ready under its level and
/// its place there, and leaves no other one ready that was not.
pub proof fn law_declared_tasks_are_ready(
    s: &mut System,
    regs: &[TaskReg],
    sp: usize,
    stack_base: usize,
    min_stack: usize,
    k: int,
)
    requires
        old(s).wf(),
        call_ensures(init, (s, regs, sp, stack_base, min_stack), ()),
        0 <= k < regs@.len(),
        forall|j: int| 0 <= j < regs@.len() ==> (#[trigger] regs@[j]).priority <= MAX_PRIORITY,
    ensures
        final(s).executor.registered(regs@[k].priority as int, rank(regs@, k) as int) == Some(
            regs@[k].cell,
        ),
        final(s).executor.live_tasks == old(s).executor.live_tasks + regs@.len(),
{
}

/// Running the system starts with a ready task of the highest priority, and
/// processor time is counted from then on.
pub proof fn law_system_runs_the_highest(s: &mut System, cycle: u64, d: Dispatch, x: int)
    requires
        old(s).wf(),
        old(s).kernel.preempt.ready(x),
        call_ensures(run, (s, cycle), d),
    ensures
        old(s).kernel.preempt.ready(d.task as int),
        old(s).kernel.preempt.tasks[d.task as int].effective_priority >= old(
            s,
        ).kernel.preempt.tasks[x].effective_priority,
        d.sp == old(s).kernel.preempt.tasks[d.task as int].sp,
        final(s).kernel.preempt.running() == Some(d.task),
        final(s).kernel.exec_time.started,
        final(s).kernel.exec_time.boot_cycle == cycle,
        final(s).console == old(s).console,
        final(s).executor == old(s).executor,
{
    let pre = old(s).kernel.preempt;
    let post = final(s).kernel.preempt;
    assert(pre.before(d.task as int, x));
    assert(post.current@[pre.harts.hart as int] == post.current[pre.harts.hart as int]);
}

/// The program ends as it was asked to, with the console written out first.
pub proof fn law_program_ends_as_asked(
    c0: &mut Console,
    c1: &mut Console,
    c2: &mut Console,
    w0: &mut WakerState,
    w1: &mut WakerState,
    w2: &mut WakerState,
    code: u32,
    out0: &mut Vec<u8>,
    out1: &mut Vec<u8>,
    out2: &mut Vec<u8>,
    a: LastAct,
    b: LastAct,
    c: LastAct,
)
    requires
        call_ensures(exit_success, (c0, w0, out0), a),
        call_ensures(exit_failure, (c1, w1, code, out1), b),
        call_ensures(system_reset, (c2, w2, out2), c),
    ensures
        a == LastAct::Exit(0),
        b == LastAct::Exit(code),
        c is Reset,
        final(out0)@ == old(out0)@ + old(c0).outgoing(),
        final(out1)@ == old(out1)@ + old(c1).outgoing(),
        final(out2)@ == old(out2)@ + old(c2).outgoing(),
{
}

/// Giving up the processor asks the executing hart, and no other, to run the
/// scheduler.
pub proof fn law_giving_up_asks_this_hart(
    h0: &mut Harts,
    h1: &mut Harts,
    asked: bool,
    other: int,
)
    requires
        old(h0).wf(),
        0 <= other < crate::config::MAX_HARTS,
        other != old(h0).hart,
        call_ensures(yield_now, (h0,), ()),
        *old(h1) == *final(h0),
        call_ensures(arch::take_reschedule, (h1,), asked),
    ensures
        asked,
        final(h0).resched[other] == old(h0).resched[other],
{
    let m = old(h0).hart as int;
    assert(final(h0).resched@[m] == final(h0).resched[m]);
    assert(final(h0).resched@[other] == final(h0).resched[other]);
    assert(old(h0).resched@[other] == old(h0).resched[other]);
}

} // verus!
