//! Delays of a preemptive task.
use crate::preempt::mutex::inherits;
use crate::preempt::sched::Preempt;
use crate::preempt::{self, sleep_end, slept};
use crate::timer::TimerQueue;
use vstd::prelude::*;

verus! {

/// Delays by putting the running task to sleep.
pub struct RivetDelay;

/// The milliseconds that a delay of `ns` nanoseconds takes: rounded up, and
/// one at least.
pub open spec fn delay_ms(ns: u32) -> int {
    if ns == 0 {
        1
    } else {
        (ns + 999_999) / 1_000_000
    }
}

impl RivetDelay {
    /// The milliseconds that a delay of `ns` nanoseconds takes.
    pub fn millis(ns: u32) -> (r: u64)
        ensures
            r == delay_ms(ns),
            r >= 1,
            r * 1_000_000 >= ns,
    {
        if ns == 0 {
            return 1;
        }
        (ns as u64 + 999_999) / 1_000_000
    }

    /// Put the running task to sleep for `ns` nanoseconds or a little longer.
    /// Nothing happens without a running task.
    pub fn delay_ns(&mut self, p: &mut Preempt, t: &mut TimerQueue, now: u64, ns: u32)
        requires
            old(p).wf(),
            old(t).wf(),
        ensures
            final(p).wf(),
            inherits(old(p)) ==> inherits(final(p)),
            final(t).wf(),
            slept(
                old(p),
                final(p),
                old(t),
                final(t),
                sleep_end(now, delay_ms(ns) as u64),
            ),
    {
        let ms: u64 = Self::millis(ns);
        preempt::sleep_ms(p, t, ms, now);
    }
}

/// A delay takes whole milliseconds: no shorter than what was asked for, less
/// than one millisecond longer, and one at least.
pub proof fn law_delay_is_rounded_up(ns: u32, r: u64)
    requires
        call_ensures(RivetDelay::millis, (ns,), r),
    ensures
        ns <= r * 1_000_000,
        ns > 0 ==> (r - 1) * 1_000_000 < ns,
        ns == 0 ==> r == 1,
{
}

/// A delay is a sleep of that many milliseconds: the running task is blocked
/// until then, and nobody else is.
pub proof fn law_delay_is_a_sleep(
    d: &mut RivetDelay,
    p: &mut Preempt,
    t: &mut TimerQueue,
    now: u64,
    ns: u32,
    ms: u64,
)
    requires
        call_ensures(RivetDelay::millis, (ns,), ms),
        call_ensures(RivetDelay::delay_ns, (d, p, t, now, ns), ()),
        now + ms * 1000 <= u64::MAX,
    ensures
        slept(old(p), final(p), old(t), final(t), (now + ms * 1000) as u64),
{
}

} // verus!
