//! A watchdog in software, for boards without one: a deadline that is looked
//! at on every tick. It cannot see a hang that stops the tick itself.
use vstd::prelude::*;

verus! {

/// The deadline.
pub struct SwWatchdog {
    /// Time between two feedings; zero while disabled.
    pub period_us: u32,
    /// When the system is overdue.
    pub deadline_us: u64,
}

/// The time `us` after `now` on the wrapping clock.
pub open spec fn later(now: u64, us: u32) -> u64 {
    if now + us <= u64::MAX {
        (now + us) as u64
    } else {
        (now + us - 0x1_0000_0000_0000_0000) as u64
    }
}

impl SwWatchdog {
    /// Disabled.
    pub fn new() -> (r: Self)
        ensures
            r.period_us == 0,
            r.deadline_us == 0,
    {
        SwWatchdog { period_us: 0, deadline_us: 0 }
    }
}

/// Arm the deadline; a period of zero disables it.
pub fn init(wd: &mut SwWatchdog, period_us: u32, now_us: u64)
    ensures
        final(wd).period_us == period_us,
        final(wd).deadline_us == later(now_us, period_us),
{
    wd.period_us = period_us;
    wd.deadline_us = now_us.wrapping_add(period_us as u64);
}

/// Arm the deadline anew.
pub fn feed(wd: &mut SwWatchdog, now_us: u64)
    ensures
        final(wd).period_us == old(wd).period_us,
        final(wd).deadline_us == (if old(wd).period_us != 0 {
            later(now_us, old(wd).period_us)
        } else {
            old(wd).deadline_us
        }),
{
    if wd.period_us != 0 {
        wd.deadline_us = now_us.wrapping_add(wd.period_us as u64);
    }
}

/// Whether the deadline has passed.
pub fn expired(wd: &SwWatchdog, now_us: u64) -> (r: bool)
    ensures
        r == (wd.period_us != 0 && now_us >= wd.deadline_us),
{
    if wd.period_us == 0 {
        return false;
    }
    now_us >= wd.deadline_us
}

/// A watchdog that has just been fed does not run out before its period is
/// over, as long as the clock does not wrap meanwhile.
pub proof fn law_fed_dog_waits(wd: SwWatchdog, fed: u64, now: u64)
    requires
        wd.period_us != 0,
        wd.deadline_us == later(fed, wd.period_us),
        fed + wd.period_us <= u64::MAX,
    ensures
        (now >= wd.deadline_us) == (now - fed >= wd.period_us),
{
}

/// A watchdog that was armed or fed runs out exactly when its period is over;
/// one with a period of zero never does.
pub proof fn law_dog_runs_out_with_its_period(
    a: &mut SwWatchdog,
    b: &mut SwWatchdog,
    period_us: u32,
    armed: u64,
    fed: u64,
    t: u64,
    u: u64,
    before: bool,
    after: bool,
)
    requires
        armed + period_us <= u64::MAX,
        fed + period_us <= u64::MAX,
        call_ensures(init, (a, period_us, armed), ()),
        call_ensures(expired, (&*final(a), t), before),
        *old(b) == *final(a),
        call_ensures(feed, (b, fed), ()),
        call_ensures(expired, (&*final(b), u), after),
    ensures
        before <==> period_us != 0 && t - armed >= period_us,
        after <==> period_us != 0 && u - fed >= period_us,
        final(b).period_us == period_us,
{
}

/// A new watchdog is off.
pub proof fn law_new_dog_sleeps(wd: SwWatchdog, now: u64, r: bool)
    requires
        call_ensures(SwWatchdog::new, (), wd),
        call_ensures(expired, (&wd, now), r),
    ensures
        !r,
{
}

} // verus!
