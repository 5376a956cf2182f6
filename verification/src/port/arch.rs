//! Requests to the harts that share the run queue.
use crate::config::MAX_HARTS;
use vstd::prelude::*;

verus! {

/// The hart that runs kernel code now, and the reschedule requests that are
/// pending for each hart. A request is a level, not a count: asking twice
/// before the hart reacts is asking once.
pub struct Harts {
    /// The hart that executes the current critical section.
    pub hart: usize,
    /// Pending reschedule request, per hart.
    pub resched: [bool; MAX_HARTS],
}

impl Harts {
    /// The executing hart exists.
    pub open spec fn wf(&self) -> bool {
        self.hart < MAX_HARTS
    }

    /// Every hart but the executing one is asked; nothing else changes.
    pub open spec fn broadcast_from(&self, pre: &Harts) -> bool {
        &&& self.hart == pre.hart
        &&& forall|h: int|
            0 <= h < MAX_HARTS ==> #[trigger] self.resched[h] == (h != pre.hart
                || pre.resched[h])
    }

    /// Hart 0 executing, no request pending.
    pub fn new() -> (r: Self)
        ensures
            r.wf(),
            r.hart == 0,
            forall|h: int| 0 <= h < MAX_HARTS ==> !#[trigger] r.resched[h],
    {
        Harts { hart: 0, resched: [false; MAX_HARTS] }
    }
}

/// The executing hart.
pub fn hart_id(h: &Harts) -> (r: usize)
    ensures
        r == h.hart,
{
    h.hart
}

/// Ask `hart` to run the scheduler; out-of-range harts do not exist and are
/// ignored.
pub fn request_reschedule_on(h: &mut Harts, hart: usize)
    ensures
        final(h).hart == old(h).hart,
        hart < MAX_HARTS ==> final(h).resched@ == old(h).resched@.update(hart as int, true),
        hart >= MAX_HARTS ==> final(h).resched@ == old(h).resched@,
{
    if hart < MAX_HARTS {
        h.resched[hart] = true;
    }
}

/// Ask the executing hart to run the scheduler once it leaves the kernel.
pub fn request_reschedule(h: &mut Harts)
    requires
        old(h).wf(),
    ensures
        final(h).hart == old(h).hart,
        final(h).resched@ == old(h).resched@.update(old(h).hart as int, true),
{
    let me: usize = h.hart;
    h.resched[me] = true;
}

/// Take the pending request of the executing hart.
pub fn take_reschedule(h: &mut Harts) -> (r: bool)
    requires
        old(h).wf(),
    ensures
        final(h).hart == old(h).hart,
        r == old(h).resched[old(h).hart as int],
        final(h).resched@ == old(h).resched@.update(old(h).hart as int, false),
{
    let me: usize = h.hart;
    let r = h.resched[me];
    h.resched[me] = false;
    r
}

/// Ask every hart but the executing one.
pub fn request_reschedule_others(h: &mut Harts)
    ensures
        final(h).broadcast_from(old(h)),
{
    let me: usize = h.hart;
    let mut i: usize = 0;
    while i < MAX_HARTS
        invariant
            i <= MAX_HARTS,
            me == old(h).hart,
            h.hart == old(h).hart,
            forall|k: int|
                0 <= k < i ==> #[trigger] h.resched[k] == (k != me || old(h).resched[k]),
            forall|k: int| i <= k < MAX_HARTS ==> #[trigger] h.resched[k] == old(h).resched[k],
        decreases MAX_HARTS - i,
    {
        if i != me {
            request_reschedule_on(h, i);
        }
        i = i + 1;
    }
}

/// A request is seen once by the hart that it was made for, and by no other.
pub proof fn law_request_is_seen_once(
    h0: &mut Harts,
    h1: &mut Harts,
    h2: &mut Harts,
    first: bool,
    second: bool,
    me: usize,
    other: int,
)
    requires
        old(h0).wf(),
        0 <= other < MAX_HARTS,
        other != old(h0).hart,
        call_ensures(request_reschedule, (h0,), ()),
        *old(h1) == *final(h0),
        call_ensures(take_reschedule, (h1,), first),
        *old(h2) == *final(h1),
        call_ensures(take_reschedule, (h2,), second),
        call_ensures(hart_id, (&*final(h2),), me),
    ensures
        first,
        !second,
        final(h2).resched[other] == old(h0).resched[other],
        me == old(h0).hart,
{
    let m = old(h0).hart as int;
    assert(final(h0).resched@[m] == final(h0).resched[m]);
    assert(final(h1).resched@[m] == final(h1).resched[m]);
    assert(old(h0).resched@[other] == old(h0).resched[other]);
    assert(final(h2).resched@[other] == final(h2).resched[other]);
}

/// A request for a named hart reaches that hart alone; one for the others
/// reaches every hart but the executing one.
pub proof fn law_request_reaches_its_hart(h0: &mut Harts, h1: &mut Harts, hart: usize, x: int)
    requires
        0 <= x < MAX_HARTS,
        call_ensures(request_reschedule_on, (h0, hart), ()),
        call_ensures(request_reschedule_others, (h1,), ()),
    ensures
        final(h0).resched[x] == (x == hart || old(h0).resched[x]),
        final(h1).resched[x] == (x != old(h1).hart || old(h1).resched[x]),
        final(h0).hart == old(h0).hart,
        final(h1).hart == old(h1).hart,
{
    assert(final(h0).resched@[x] == final(h0).resched[x]);
    assert(old(h0).resched@[x] == old(h0).resched[x]);
}

} // verus!
