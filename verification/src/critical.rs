//! Critical sections.
//!
//! A critical section runs with interrupts masked on its hart, and excludes
//! every other hart by a lock. Sections nest: the lock is taken on the way
//! into the outermost one and given back on the way out of it.
use crate::config::MAX_HARTS;
use crate::latency::{self, Histograms, Kind};
use vstd::prelude::*;

verus! {

/// The lock, and how deep each hart has nested.
pub struct Critical {
    /// Open sections per hart.
    pub nesting: [u32; MAX_HARTS],
    /// The hart that holds the lock.
    pub owner: Option<usize>,
}

impl Critical {
    /// A hart holds the lock exactly while it has a section open.
    pub open spec fn wf(&self) -> bool {
        forall|h: int|
            0 <= h < MAX_HARTS ==> (#[trigger] self.nesting[h] > 0) == (self.owner == Some(
                h as usize,
            ))
    }

    /// No section is open.
    pub fn new() -> (r: Self)
        ensures
            r.wf(),
            r.owner is None,
    {
        Critical { nesting: [0; MAX_HARTS], owner: None }
    }
}

/// A section of `hart` was opened.
pub open spec fn entered(pre: &Critical, post: &Critical, hart: usize) -> bool {
    &&& post.owner == Some(hart)
    &&& post.nesting@ == pre.nesting@.update(
        hart as int,
        (pre.nesting[hart as int] + 1) as u32,
    )
}

/// A section of `hart` was closed, which had been opened at `depth`.
pub open spec fn left(pre: &Critical, post: &Critical, hart: usize, depth: u32) -> bool {
    &&& post.nesting@ == pre.nesting@.update(hart as int, depth)
    &&& post.owner == (if depth == 0 {
        None
    } else {
        pre.owner
    })
}

/// One attempt to open a section. It succeeds unless another hart holds the
/// lock, and then returns the depth to close it with. The caller repeats a
/// failed attempt.
pub fn try_enter(c: &mut Critical, hart: usize) -> (r: Option<u32>)
    requires
        old(c).wf(),
        hart < MAX_HARTS,
        old(c).nesting[hart as int] < u32::MAX,
    ensures
        final(c).wf(),
        r is None <==> old(c).owner is Some && old(c).owner != Some(hart),
        r is None ==> *final(c) == *old(c),
        r matches Some(depth) ==> depth == old(c).nesting[hart as int] && entered(
            old(c),
            final(c),
            hart,
        ),
{
    let depth: u32 = c.nesting[hart];
    if depth == 0 {
        if c.owner.is_some() {
            return None;
        }
        c.owner = Some(hart);
    }
    c.nesting[hart] = depth + 1;
    Some(depth)
}

/// Close a section that was opened at `depth`.
pub fn leave(c: &mut Critical, hart: usize, depth: u32)
    requires
        hart < MAX_HARTS,
    ensures
        left(old(c), final(c), hart, depth),
{
    c.nesting[hart] = depth;
    if depth == 0 {
        c.owner = None;
    }
}

/// Close a section, and record how long it took. Both cycle counts are read
/// with interrupts masked, so that no interrupt is measured along.
pub fn leave_measured(
    c: &mut Critical,
    h: &mut Histograms,
    hart: usize,
    depth: u32,
    start: u64,
    now: u64,
)
    requires
        hart < MAX_HARTS,
    ensures
        left(old(c), final(c), hart, depth),
        latency::recorded(
            old(h),
            final(h),
            Kind::CriticalSection,
            now.wrapping_sub(start),
        ),
{
    leave(c, hart, depth);
    latency::record(h, Kind::CriticalSection, now.wrapping_sub(start));
}

/// Run `f` inside a section of `hart`. The section's state goes through `f`,
/// which may open further ones. No other hart may hold the lock.
pub fn enter<F, R>(c: Critical, hart: usize, f: F) -> (r: (R, Critical)) where
    F: FnOnce(Critical) -> (R, Critical),

    requires
        c.wf(),
        hart < MAX_HARTS,
        c.nesting[hart as int] < u32::MAX,
        c.owner is None || c.owner == Some(hart),
        forall|inner: Critical| entered(&c, &inner, hart) && inner.wf() ==> call_requires(f, (inner,)),
    ensures
        exists|inner: Critical, outer: Critical|
            {
                &&& #[trigger] entered(&c, &inner, hart)
                &&& inner.wf()
                &&& call_ensures(f, (inner,), (r.0, outer))
                &&& #[trigger] left(&outer, &r.1, hart, c.nesting[hart as int])
            },
{
    enter_locked(c, hart, f)
}

fn enter_locked<F, R>(c: Critical, hart: usize, f: F) -> (r: (R, Critical)) where
    F: FnOnce(Critical) -> (R, Critical),

    requires
        c.wf(),
        hart < MAX_HARTS,
        c.nesting[hart as int] < u32::MAX,
        c.owner is None || c.owner == Some(hart),
        forall|inner: Critical| entered(&c, &inner, hart) && inner.wf() ==> call_requires(f, (inner,)),
    ensures
        exists|inner: Critical, outer: Critical|
            {
                &&& #[trigger] entered(&c, &inner, hart)
                &&& inner.wf()
                &&& call_ensures(f, (inner,), (r.0, outer))
                &&& #[trigger] left(&outer, &r.1, hart, c.nesting[hart as int])
            },
{
    let mut inner = c;
    let depth: u32 = inner.nesting[hart];
    let _entered = try_enter(&mut inner, hart);
    let ghost held = inner;
    let (value, mut outer) = f(inner);
    let ghost after = outer;
    leave(&mut outer, hart, depth);
    let r = (value, outer);
    assert(entered(&c, &held, hart));
    assert(left(&after, &r.1, hart, c.nesting[hart as int]));
    assert(call_ensures(f, (held,), (r.0, after)));
    r
}

/// Nested sections compose: opening and closing a section leaves the lock and
/// every depth as they were.
pub proof fn law_section_restores(c0: Critical, c1: Critical, c2: Critical, hart: usize)
    requires
        c0.wf(),
        hart < MAX_HARTS,
        c0.owner is None || c0.owner == Some(hart),
        entered(&c0, &c1, hart),
        left(&c1, &c2, hart, c0.nesting[hart as int]),
    ensures
        c2.owner == c0.owner,
        c2.nesting@ == c0.nesting@,
        c2.wf(),
{
    assert(c2.nesting@ =~= c0.nesting@);
    assert(c0.nesting[hart as int] > 0 <==> c0.owner == Some(hart));
}

/// Two harts are never inside at once.
pub proof fn law_sections_exclude(c: Critical, a: int, b: int)
    requires
        c.wf(),
        0 <= a < MAX_HARTS,
        0 <= b < MAX_HARTS,
        c.nesting[a] > 0,
        c.nesting[b] > 0,
    ensures
        a == b,
{
}

/// A section can be opened unless another hart is inside; closing it with the
/// depth that opening gave restores the lock.
pub proof fn law_lock_admits_one_hart(
    c: &mut Critical,
    d: &mut Critical,
    e: &mut Critical,
    hart: usize,
    other: usize,
    r: Option<u32>,
    s: Option<u32>,
)
    requires
        call_ensures(try_enter, (c, hart), r),
        old(c).wf(),
        hart < MAX_HARTS,
        other < MAX_HARTS,
        other != hart,
        old(c).nesting[hart as int] < u32::MAX,
        *old(d) == *final(c),
        call_ensures(try_enter, (d, other), s),
        r is Some,
        *old(e) == *final(c),
        call_ensures(leave, (e, hart, r->0), ()),
    ensures
        old(c).nesting[other as int] == 0,
        s is None,
        final(c).owner == Some(hart),
        final(c).nesting[hart as int] == old(c).nesting[hart as int] + 1,
        final(e).owner == old(c).owner,
        final(e).nesting@ == old(c).nesting@,
{
    assert(final(e).nesting@ =~= old(c).nesting@);
    assert(final(c).nesting@[hart as int] == final(c).nesting[hart as int]);
    assert(old(c).nesting[hart as int] > 0 <==> old(c).owner == Some(hart));
    assert(old(c).nesting[other as int] > 0 <==> old(c).owner == Some(other));
}

/// A hart that finds the lock free, or holds it, gets in.
pub proof fn law_free_lock_is_given(c: &mut Critical, hart: usize, r: Option<u32>)
    requires
        call_ensures(try_enter, (c, hart), r),
        old(c).wf(),
        hart < MAX_HARTS,
        forall|h: int| 0 <= h < MAX_HARTS && h != hart ==> #[trigger] old(c).nesting[h] == 0,
        old(c).owner matches Some(o) ==> o < MAX_HARTS,
    ensures
        r == Some(old(c).nesting[hart as int]),
{
    if let Some(o) = old(c).owner {
        assert(old(c).nesting[o as int] > 0);
    }
}

/// What is recorded of a section is the cycles that it took.
pub proof fn law_section_is_measured(
    c: &mut Critical,
    h: &mut Histograms,
    hart: usize,
    depth: u32,
    start: u64,
    now: u64,
    max: u32,
)
    requires
        call_ensures(leave_measured, (c, h, hart, depth, start, now), ()),
        call_ensures(latency::max_cycles, (&*final(h), Kind::CriticalSection), max),
        start <= now,
        now - start <= u32::MAX,
    ensures
        max >= now - start,
        old(h).max[2] <= now - start ==> max == now - start,
{
    assert(final(h).max[2] == max);
}

/// A function that runs inside a section finds the lock with its own hart and
/// one level more, and afterwards the hart's nesting is what it was; the
/// outermost section gives the lock back.
pub proof fn law_section_surrounds_the_function<F: FnOnce(Critical) -> (R, Critical), R>(
    c: Critical,
    hart: usize,
    f: F,
    r: (R, Critical),
)
    requires
        c.wf(),
        hart < MAX_HARTS,
        c.nesting[hart as int] < u32::MAX,
        call_ensures(enter::<F, R>, (c, hart, f), r),
    ensures
        exists|inner: Critical, outer: Critical|
            {
                &&& #[trigger] call_ensures(f, (inner,), (r.0, outer))
                &&& inner.owner == Some(hart)
                &&& inner.nesting[hart as int] == c.nesting[hart as int] + 1
            },
        r.1.nesting[hart as int] == c.nesting[hart as int],
        c.nesting[hart as int] == 0 ==> r.1.owner is None,
{
    let (inner, outer) = choose|inner: Critical, outer: Critical|
        {
            &&& #[trigger] entered(&c, &inner, hart)
            &&& inner.wf()
            &&& call_ensures(f, (inner,), (r.0, outer))
            &&& #[trigger] left(&outer, &r.1, hart, c.nesting[hart as int])
        };
    assert(inner.nesting@[hart as int] == inner.nesting[hart as int]);
    assert(r.1.nesting@[hart as int] == r.1.nesting[hart as int]);
    assert(call_ensures(f, (inner,), (r.0, outer)));
}

} // verus!
