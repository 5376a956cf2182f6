//! The kernel on a development machine: no hardware, and a clock that goes on
//! by one whenever it is read.
use vstd::prelude::*;

verus! {

/// Smallest stack of a task.
pub const MIN_TASK_STACK: usize = 256;

/// The two clocks.
pub struct HostClock {
    /// Time in microseconds.
    pub ticks: u64,
    /// Cycles.
    pub cycles: u64,
}

/// The count after one more.
pub open spec fn one_more(n: u64) -> u64 {
    if n == u64::MAX {
        0
    } else {
        (n + 1) as u64
    }
}

impl HostClock {
    /// Both at zero.
    pub fn new() -> (r: Self)
        ensures
            r.ticks == 0,
            r.cycles == 0,
    {
        HostClock { ticks: 0, cycles: 0 }
    }
}

/// Set both clocks back.
pub fn reset_test_clock(c: &mut HostClock)
    ensures
        final(c).ticks == 0,
        final(c).cycles == 0,
{
    c.ticks = 0;
    c.cycles = 0;
}

/// The time, which is different every time.
pub fn now_micros(c: &mut HostClock) -> (r: u64)
    ensures
        r == old(c).ticks,
        final(c).ticks == one_more(old(c).ticks),
        final(c).cycles == old(c).cycles,
{
    let now: u64 = c.ticks;
    c.ticks = now.wrapping_add(1);
    now
}

/// The cycle count, which is different every time.
pub fn cycle_count(c: &mut HostClock) -> (r: u64)
    ensures
        r == old(c).cycles,
        final(c).cycles == one_more(old(c).cycles),
        final(c).ticks == old(c).ticks,
{
    let now: u64 = c.cycles;
    c.cycles = now.wrapping_add(1);
    now
}

/// Where a new task's frame would be: there is none, so its stack stands for
/// it.
pub fn init_task_stack(base: usize) -> (r: usize)
    ensures
        r == base,
{
    base
}

/// Each clock reads zero after it was set back, and one more at every reading;
/// reading one leaves the other alone.
pub proof fn law_clocks_count_readings(
    c0: &mut HostClock,
    c1: &mut HostClock,
    c2: &mut HostClock,
    c3: &mut HostClock,
    c4: &mut HostClock,
    a: u64,
    b: u64,
    x: u64,
    y: u64,
)
    requires
        call_ensures(reset_test_clock, (c0,), ()),
        *old(c1) == *final(c0),
        call_ensures(now_micros, (c1,), a),
        *old(c2) == *final(c1),
        call_ensures(cycle_count, (c2,), x),
        *old(c3) == *final(c2),
        call_ensures(now_micros, (c3,), b),
        *old(c4) == *final(c3),
        call_ensures(cycle_count, (c4,), y),
    ensures
        a == 0,
        b == 1,
        x == 0,
        y == 1,
{
}

/// A clock goes on by one from wherever it stands, and wraps.
pub proof fn law_clock_goes_on(c: &mut HostClock, d: &mut HostClock, a: u64, b: u64)
    requires
        call_ensures(now_micros, (c,), a),
        call_ensures(cycle_count, (d,), b),
    ensures
        a == old(c).ticks,
        final(c).ticks == (old(c).ticks + 1) % 0x1_0000_0000_0000_0000,
        b == old(d).cycles,
        final(d).cycles == (old(d).cycles + 1) % 0x1_0000_0000_0000_0000,
{
}

} // verus!
