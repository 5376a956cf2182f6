//! Support for tests of the kernel.
use crate::irq::{self, IrqTable};
use crate::port::host::{self, HostClock};
use crate::preempt::stack_pool::StackPool;
use crate::preempt::tcb::MAX_PTASKS;
use crate::system::System;
use crate::watchdog::Watchdog;
use vstd::prelude::*;

verus! {

/// Put everything back to how it is before the system starts: the kernel, the
/// executor, the console, the log, the interrupt handlers, the stacks, the
/// watchdog and the clock. The pool keeps its memory, the watchdog its kind.
pub fn reset_all(
    s: &mut System,
    irqs: &mut IrqTable,
    pool: &mut StackPool,
    wd: &mut Watchdog,
    clock: &mut HostClock,
)
    requires
        old(s).wf(),
        old(pool).wf(),
    ensures
        final(s).wf(),
        final(s).initial(),
        forall|i: int| final(irqs).handler(i) is None,
        final(irqs).vacant(),
        final(pool).base == old(pool).base,
        final(pool).len == old(pool).len,
        final(pool).wf(),
        final(pool).next == 0,
        final(pool).count == 0,
        final(pool).free.stacks().len() == 0,
        final(wd).hardware == old(wd).hardware,
        final(wd).period_us == 0,
        final(wd).deadline == 0,
        final(wd).checkin_timeout_us == 0,
        final(clock).ticks == 0,
        final(clock).cycles == 0,
{
    *s = System::new();
    irq::reset(irqs);
    *pool = StackPool::new(pool.base, pool.len);
    *wd = Watchdog::new(wd.hardware);
    host::reset_test_clock(clock);
}

/// After everything was put back no interrupt has a handler, the clock reads
/// zero, no task is known, and nothing is ready.
pub proof fn law_reset_system_is_empty(
    s: &mut System,
    irqs: &mut IrqTable,
    pool: &mut StackPool,
    wd: &mut Watchdog,
    clock: &mut HostClock,
    read: &mut HostClock,
    irq_num: u32,
    found: Option<usize>,
    now: u64,
    x: int,
)
    requires
        call_ensures(reset_all, (s, irqs, pool, wd, clock), ()),
        call_ensures(irq::dispatch, (&*final(irqs), irq_num), found),
        *old(read) == *final(clock),
        call_ensures(host::now_micros, (read,), now),
        0 <= x < MAX_PTASKS,
    ensures
        found is None,
        now == 0,
        !final(s).kernel.preempt.tasks[x].used,
        final(s).kernel.timers.ptask[x] == 0,
        final(s).kernel.deadlines.budget[x] == 0,
        final(s).kernel.exec_time.busy[x] == 0,
        final(pool).base == old(pool).base && final(pool).len == old(pool).len && final(pool).next
            == 0,
        final(wd).hardware == old(wd).hardware && final(wd).period_us == 0,
{
    assert(final(s).kernel.preempt.tasks[x].blank());
    assert(final(s).kernel.deadlines.period[x] == 0);
}

} // verus!
