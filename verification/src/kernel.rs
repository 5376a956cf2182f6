//! The kernel's state as a whole.
use crate::config::MAX_HARTS;
use crate::deadlines::Deadlines;
use crate::exec_time::ExecTime;
use crate::fault::{FaultPolicy, FaultState};
use crate::latency::{Histograms, BUCKETS, KINDS};
use crate::preempt::mutex::inherits;
use crate::preempt::sched::Preempt;
use crate::preempt::tcb::{MAX_PTASKS, NO_TASK};
use crate::timer::{TimerQueue, MAX_TIMERS, NO_DEADLINE};
use crate::waker::WakerState;
use vstd::prelude::*;

verus! {

/// Everything that the kernel remembers between two entries.
pub struct Kernel {
    /// Ready tasks of the cooperative tier.
    pub waker: WakerState,
    /// Armed deadlines.
    pub timers: TimerQueue,
    /// Preemptive tasks and their queues.
    pub preempt: Preempt,
    /// Processor time of the preemptive tasks.
    pub exec_time: ExecTime,
    /// Periods and budgets.
    pub deadlines: Deadlines,
    /// Reaction to faults.
    pub fault: FaultState,
    /// Latency histograms.
    pub latency: Histograms,
}

impl Kernel {
    /// The invariant of every part.
    pub open spec fn wf(&self) -> bool {
        self.waker.wf() && self.timers.wf() && self.preempt.wf()
    }

    /// The kernel has not run yet: no task, nothing armed, nothing counted,
    /// nothing asked of a hart.
    pub open spec fn initial(&self) -> bool {
        &&& self.wf()
        &&& self.waker.idle()
        &&& !self.waker.pend
        &&& self.timers.next == NO_DEADLINE
        &&& forall|i: int|
            0 <= i < MAX_TIMERS ==> (#[trigger] self.timers.slots[i]).deadline == 0
                && self.timers.slots[i].generation == 0
        &&& forall|i: int| 0 <= i < MAX_PTASKS ==> #[trigger] self.timers.ptask[i] == 0
        &&& forall|i: int| 0 <= i < MAX_PTASKS ==> (#[trigger] self.preempt.tasks[i]).blank()
        &&& forall|i: int| 0 <= i < MAX_PTASKS ==> #[trigger] self.preempt.dispatch_seq[i] == 0
        &&& forall|i: int| 0 <= i < MAX_PTASKS ==> #[trigger] self.preempt.ready_at[i] == 0
        &&& self.preempt.dispatch_counter == 0
        &&& self.preempt.cycle == 0
        &&& self.preempt.mutexes@.len() == 0
        &&& inherits(&self.preempt)
        &&& !self.preempt.any_ready()
        &&& self.preempt.running() is None
        &&& forall|h: int| 0 <= h < MAX_HARTS ==> #[trigger] self.preempt.current[h] == NO_TASK
        &&& self.preempt.harts.hart == 0
        &&& forall|h: int| 0 <= h < MAX_HARTS ==> !#[trigger] self.preempt.harts.resched[h]
        &&& !self.exec_time.started
        &&& self.exec_time.last_dispatch == 0
        &&& self.exec_time.boot_cycle == 0
        &&& forall|i: int| 0 <= i < MAX_PTASKS ==> #[trigger] self.exec_time.busy[i] == 0
        &&& forall|i: int|
            0 <= i < MAX_PTASKS ==> #[trigger] self.deadlines.period[i] == 0
                && self.deadlines.budget[i] == 0 && self.deadlines.next_us[i] == 0
                && self.deadlines.start_cycles[i] == 0
        &&& self.fault.policy == FaultPolicy::Panic
        &&& self.fault.hook is None
        &&& forall|k: int, b: int|
            0 <= k < KINDS && 0 <= b < BUCKETS ==> #[trigger] self.latency.counts[k][b] == 0
        &&& forall|k: int| 0 <= k < KINDS ==> #[trigger] self.latency.max[k] == 0
    }

    /// A kernel that has not run yet.
    pub fn new() -> (r: Self)
        ensures
            r.initial(),
    {
        let r = Kernel {
            waker: WakerState::new(),
            timers: TimerQueue::new(),
            preempt: Preempt::new(),
            exec_time: ExecTime::new(),
            deadlines: Deadlines::new(),
            fault: FaultState::new(),
            latency: Histograms::new(),
        };
        proof {
            assert forall|x: int| !r.preempt.ready(x) by {
                if 0 <= x < MAX_PTASKS {
                    assert(r.preempt.tasks[x].blank());
                }
            }
        }
        r
    }
}

} // verus!
