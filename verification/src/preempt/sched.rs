//! Priority scheduling, least recently dispatched first within a priority.
//!
//! A ready task stands in the queue of its effective priority, one word per
//! priority with one bit per task; a summary word says which queues are not
//! empty. The next task is taken from the highest queue, and within it the
//! task whose last dispatch lies furthest back.
use crate::bits::{self, bit};
use crate::config::{MAX_HARTS, PRIORITY_LEVELS};
use crate::port::arch::{self, Harts};
use crate::preempt::mutex::MutexCore;
use crate::preempt::mutex::{self, inherits};
use crate::preempt::tcb::{SlotState, TaskState, Tcb, MAX_HELD, MAX_PTASKS, NO_TASK};
use vstd::prelude::*;

verus! {

/// State of the preemptive tier.
pub struct Preempt {
    /// Task slots.
    pub tasks: [Tcb; MAX_PTASKS],
    /// Bit `p`: queue `p` is not empty.
    pub bitmap: u32,
    /// Bit `i` of word `p`: task `i` is queued at priority `p`.
    pub queues: [u32; PRIORITY_LEVELS],
    /// The task that runs on each hart.
    pub current: [usize; MAX_HARTS],
    /// Dispatches so far.
    pub dispatch_counter: u32,
    /// The count at each task's last dispatch.
    pub dispatch_seq: [u32; MAX_PTASKS],
    /// Cycle at which each task last became ready.
    pub ready_at: [u32; MAX_PTASKS],
    /// The cycle counter, as sampled when the kernel was entered.
    pub cycle: u32,
    /// Harts and their reschedule requests.
    pub harts: Harts,
    /// Lock words of the mutexes.
    pub mutexes: Vec<MutexCore>,
}

impl Preempt {
    /// Task `x` stands in queue `q`.
    pub open spec fn in_queue(&self, q: int, x: int) -> bool {
        0 <= q < PRIORITY_LEVELS && bit(self.queues[q], x)
    }

    /// The live task in slot `id`.
    pub open spec fn live(&self, id: int) -> Option<&Tcb> {
        if 0 <= id < MAX_PTASKS && self.tasks[id].used {
            Some(&self.tasks[id])
        } else {
            None
        }
    }

    /// Slot `x` holds a live task that waits for the processor.
    pub open spec fn ready(&self, x: int) -> bool {
        0 <= x < MAX_PTASKS && self.tasks[x].ready()
    }

    /// Effective priority of slot `x`.
    pub open spec fn eff(&self, x: int) -> int {
        self.tasks[x].effective_priority as int
    }

    /// The summary word names exactly the queues that are not empty.
    pub open spec fn summary_exact(&self) -> bool {
        forall|q: int|
            0 <= q < PRIORITY_LEVELS ==> #[trigger] bit(self.bitmap, q) == (self.queues[q] != 0)
    }

    /// The summary word names at least the queues that are not empty.
    pub open spec fn summary_covers(&self) -> bool {
        forall|q: int|
            0 <= q < PRIORITY_LEVELS && self.queues[q] != 0 ==> #[trigger] bit(self.bitmap, q)
    }

    /// Slots and queues agree: a task stands in a queue when and only when it
    /// is live and ready, and then in the queue of its effective priority.
    pub open spec fn slots_wf(&self) -> bool {
        &&& self.harts.wf()
        &&& forall|q: int, x: int|
            #[trigger] self.in_queue(q, x) ==> self.ready(x) && self.eff(x) == q
        &&& forall|x: int| #[trigger] self.ready(x) ==> self.in_queue(self.eff(x), x)
        &&& forall|x: int|
            0 <= x < MAX_PTASKS ==> {
                &&& (#[trigger] self.tasks[x]).base_priority < PRIORITY_LEVELS
                &&& self.tasks[x].effective_priority < PRIORITY_LEVELS
                &&& !self.tasks[x].used ==> self.tasks[x].state == SlotState::Ready
                    && self.tasks[x].result_drop == 0
                &&& self.tasks[x].result_size <= 8
            }
        &&& forall|x: int, i: int|
            0 <= x < MAX_PTASKS && 0 <= i < MAX_HELD ==> ((
            #[trigger] self.tasks[x].held[i]).mutex matches Some(m) ==> m < self.mutexes@.len())
        &&& forall|h: int|
            0 <= h < MAX_HARTS ==> #[trigger] self.current[h] == NO_TASK || self.current[h]
                < MAX_PTASKS
    }

    /// The invariant of the preemptive tier.
    pub open spec fn wf(&self) -> bool {
        self.slots_wf() && self.summary_exact()
    }

    /// Nothing but slots, queues, wake stamps and reschedule requests differs
    /// from `pre`.
    pub open spec fn frame(&self, pre: &Preempt) -> bool {
        &&& self.current == pre.current
        &&& self.dispatch_counter == pre.dispatch_counter
        &&& self.dispatch_seq == pre.dispatch_seq
        &&& self.cycle == pre.cycle
        &&& self.mutexes == pre.mutexes
        &&& self.harts.hart == pre.harts.hart
    }

    /// No task, nothing running.
    pub fn new() -> (r: Self)
        ensures
            r.wf(),
            inherits(&r),
            r.bitmap == 0,
            forall|i: int| 0 <= i < MAX_PTASKS ==> (#[trigger] r.tasks[i]).blank(),
            forall|i: int| 0 <= i < MAX_PTASKS ==> #[trigger] r.dispatch_seq[i] == 0,
            forall|h: int| 0 <= h < MAX_HARTS ==> #[trigger] r.current[h] == NO_TASK,
            forall|h: int| 0 <= h < MAX_HARTS ==> !#[trigger] r.harts.resched[h],
            forall|i: int| 0 <= i < MAX_PTASKS ==> #[trigger] r.ready_at[i] == 0,
            r.dispatch_counter == 0,
            r.cycle == 0,
            r.harts.hart == 0,
            r.mutexes@.len() == 0,
    {
        proof {
            bits::lemma_zero(0);
        }
        Preempt {
            tasks: [Tcb::new();MAX_PTASKS],
            bitmap: 0,
            queues: [0; PRIORITY_LEVELS],
            current: [NO_TASK; MAX_HARTS],
            dispatch_counter: 0,
            dispatch_seq: [0; MAX_PTASKS],
            ready_at: [0; MAX_PTASKS],
            cycle: 0,
            harts: Harts::new(),
            mutexes: Vec::new(),
        }
    }

    /// The task that the executing hart runs.
    pub open spec fn running(&self) -> Option<usize> {
        if self.current[self.harts.hart as int] == NO_TASK {
            None
        } else {
            Some(self.current[self.harts.hart as int])
        }
    }
}

/// The task that the executing hart runs, if it runs one.
pub fn current(p: &Preempt) -> (r: Option<usize>)
    requires
        p.harts.wf(),
    ensures
        r == p.running(),
{
    let c: usize = p.current[p.harts.hart];
    if c == NO_TASK {
        None
    } else {
        Some(c)
    }
}

/// Set the task that the executing hart runs.
pub fn set_current(p: &mut Preempt, id: usize)
    requires
        old(p).harts.wf(),
        id < MAX_PTASKS || id == NO_TASK,
    ensures
        final(p).current@ == old(p).current@.update(old(p).harts.hart as int, id),
        *final(p) == (Preempt { current: final(p).current, ..*old(p) }),
        old(p).wf() ==> final(p).wf(),
        old(p).wf() && inherits(old(p)) ==> inherits(final(p)),
        final(p).running() == (if id == NO_TASK {
            None
        } else {
            Some(id)
        }),
{
    let h: usize = p.harts.hart;
    p.current[h] = id;
    assert(forall|q: int, x: int| p.in_queue(q, x) == old(p).in_queue(q, x));
    assert(forall|x: int| p.ready(x) == old(p).ready(x));
    proof {
        if old(p).wf() && inherits(old(p)) {
            mutex::lemma_inherits_same(*old(p), *p);
        }
    }
}

/// Put task `id` into the queue of its effective priority, note the cycle,
/// and tell the other harts. An id without a slot is ignored.
pub fn ready_add(p: &mut Preempt, id: usize)
    requires
        id < MAX_PTASKS ==> old(p).tasks[id as int].effective_priority < PRIORITY_LEVELS,
    ensures
        id >= MAX_PTASKS ==> *final(p) == *old(p),
        id < MAX_PTASKS ==> {
            &&& forall|q: int, x: int|
                #[trigger] final(p).in_queue(q, x) == (old(p).in_queue(q, x) || (q == old(p).eff(
                    id as int,
                ) && x == id))
            &&& final(p).ready_at@ == old(p).ready_at@.update(id as int, old(p).cycle)
            &&& final(p).harts.broadcast_from(&old(p).harts)
        },
        final(p).tasks == old(p).tasks,
        final(p).frame(old(p)),
        old(p).summary_exact() ==> final(p).summary_exact(),
        old(p).summary_covers() ==> final(p).summary_covers(),
{
    if id >= MAX_PTASKS {
        return ;
    }
    p.ready_at[id] = p.cycle;
    let prio: usize = p.tasks[id].effective_priority as usize;
    proof {
        bits::lemma_set(p.queues[prio as int], id as u32);
        bits::lemma_set(p.bitmap, prio as u32);
        bits::lemma_zero(p.queues[prio as int] | (1u32 << (id as u32)));
    }
    p.queues[prio] = p.queues[prio] | (1u32 << (id as u32));
    p.bitmap = p.bitmap | (1u32 << (prio as u32));
    assert(bit(p.queues[prio as int], id as int));
    wake_other_harts(&mut p.harts);
}

/// Ask every hart but the executing one to look for work: the task that
/// became ready may be the next task of any of them.
fn wake_other_harts(h: &mut Harts)
    ensures
        final(h).broadcast_from(old(h)),
{
    arch::request_reschedule_others(h);
}

/// Take task `id` out of the queue of its effective priority. An id without
/// a slot is ignored.
pub fn ready_remove(p: &mut Preempt, id: usize)
    requires
        id < MAX_PTASKS ==> old(p).tasks[id as int].effective_priority < PRIORITY_LEVELS,
    ensures
        id >= MAX_PTASKS ==> *final(p) == *old(p),
        id < MAX_PTASKS ==> forall|q: int, x: int|
            #[trigger] final(p).in_queue(q, x) == (old(p).in_queue(q, x) && !(q == old(p).eff(
                id as int,
            ) && x == id)),
        final(p).tasks == old(p).tasks,
        final(p).frame(old(p)),
        final(p).harts == old(p).harts,
        final(p).ready_at == old(p).ready_at,
        old(p).summary_exact() ==> final(p).summary_exact(),
        old(p).summary_covers() ==> final(p).summary_covers(),
{
    if id >= MAX_PTASKS {
        return ;
    }
    let prio: usize = p.tasks[id].effective_priority as usize;
    dequeue(p, id, prio);
}

/// Take task `id` out of queue `prio`.
fn dequeue(p: &mut Preempt, id: usize, prio: usize)
    requires
        id < MAX_PTASKS,
        prio < PRIORITY_LEVELS,
    ensures
        forall|q: int, x: int|
            #[trigger] final(p).in_queue(q, x) == (old(p).in_queue(q, x) && !(q == prio && x
                == id)),
        final(p).tasks == old(p).tasks,
        final(p).frame(old(p)),
        final(p).harts == old(p).harts,
        final(p).ready_at == old(p).ready_at,
        old(p).summary_exact() ==> final(p).summary_exact(),
        old(p).summary_covers() ==> final(p).summary_covers(),
{
    let prev: u32 = p.queues[prio];
    proof {
        bits::lemma_clear(prev, id as u32);
        bits::lemma_is_single(prev, id as u32);
        bits::lemma_zero(prev);
        bits::lemma_zero(prev & !(1u32 << (id as u32)));
        bits::lemma_clear(p.bitmap, prio as u32);
    }
    p.queues[prio] = prev & !(1u32 << (id as u32));
    if prev == 1u32 << (id as u32) {
        // The queue is empty now.
        p.bitmap = p.bitmap & !(1u32 << (prio as u32));
    } else {
        proof {
            let j = choose|j: int| bit(prev, j) != (j == id);
            if prev != 0 && bit(prev, id as int) {
                assert(bit(prev & !(1u32 << (id as u32)), j));
            }
            if prev != 0 && !bit(prev, id as int) {
                let k = choose|k: int| bit(prev, k);
                assert(bit(prev & !(1u32 << (id as u32)), k));
            }
        }
    }
}

/// Move a queued task after its effective priority went from `old_prio` to
/// `new_prio`. A task that stands in no queue (it runs, is blocked, is paused
/// or its slot is free) is left alone.
pub fn on_effective_priority_change(p: &mut Preempt, id: usize, old_prio: u8, new_prio: u8)
    requires
        old_prio < PRIORITY_LEVELS,
        new_prio < PRIORITY_LEVELS,
    ensures
        final(p).tasks == old(p).tasks,
        final(p).frame(old(p)),
        final(p).harts == old(p).harts,
        final(p).ready_at == old(p).ready_at,
        old(p).summary_exact() ==> final(p).summary_exact(),
        old(p).summary_covers() ==> final(p).summary_covers(),
        !old(p).ready(id as int) || old_prio == new_prio ==> *final(p) == *old(p),
        old(p).ready(id as int) && old_prio != new_prio ==> forall|q: int, x: int|
            #[trigger] final(p).in_queue(q, x) == (if x == id {
                q == new_prio || (old(p).in_queue(q, x) && q != old_prio)
            } else {
                old(p).in_queue(q, x)
            }),
{
    if id >= MAX_PTASKS || old_prio == new_prio {
        return ;
    }
    if !p.tasks[id].used || p.tasks[id].state != SlotState::Ready {
        return ;
    }
    dequeue(p, id, old_prio as usize);
    let ghost mid = *p;
    let prio: usize = new_prio as usize;
    proof {
        bits::lemma_set(p.queues[prio as int], id as u32);
        bits::lemma_set(p.bitmap, prio as u32);
        bits::lemma_zero(p.queues[prio as int] | (1u32 << (id as u32)));
    }
    p.queues[prio] = p.queues[prio] | (1u32 << (id as u32));
    p.bitmap = p.bitmap | (1u32 << (prio as u32));
    assert(bit(p.queues[prio as int], id as int));
    assert forall|q: int, x: int| #[trigger]
        p.in_queue(q, x) == (mid.in_queue(q, x) || (q == prio && x == id)) by {}
}

/// The invariant rests on slots, queues, the running tasks and the number of
/// mutexes: nothing else can break it.
pub proof fn lemma_same_slots(a: Preempt, b: Preempt)
    requires
        a.slots_wf(),
        b.tasks == a.tasks,
        b.queues == a.queues,
        b.current == a.current,
        b.harts.wf(),
        b.mutexes@.len() >= a.mutexes@.len(),
    ensures
        b.slots_wf(),
        b.bitmap == a.bitmap && a.wf() ==> b.wf(),
        forall|x: int| #[trigger] b.ready(x) == a.ready(x),
        forall|q: int, x: int| #[trigger] b.in_queue(q, x) == a.in_queue(q, x),
{
    assert(forall|x: int| #[trigger] b.ready(x) == a.ready(x));
    assert(forall|q: int, x: int| #[trigger] b.in_queue(q, x) == a.in_queue(q, x));
    assert forall|x: int, i: int| 0 <= x < MAX_PTASKS && 0 <= i < MAX_HELD implies ((
    #[trigger] b.tasks[x].held[i]).mutex matches Some(m) ==> m < b.mutexes@.len()) by {
        assert(b.tasks[x].held[i] == a.tasks[x].held[i]);
    }
}

/// Changing one slot keeps slots and queues in agreement, as long as the
/// queues follow that slot.
pub proof fn lemma_slot_changed(pre: Preempt, post: Preempt, id: int, t: Tcb)
    requires
        pre.slots_wf(),
        0 <= id < MAX_PTASKS,
        post.tasks@ == pre.tasks@.update(id, t),
        post.harts.hart == pre.harts.hart,
        post.current == pre.current,
        post.mutexes@.len() == pre.mutexes@.len(),
        forall|q: int, x: int|
            #[trigger] post.in_queue(q, x) == (if x == id {
                t.ready() && q == t.effective_priority
            } else {
                pre.in_queue(q, x)
            }),
        t.base_priority < PRIORITY_LEVELS,
        t.effective_priority < PRIORITY_LEVELS,
        !t.used ==> t.state == SlotState::Ready && t.result_drop == 0,
        t.result_size <= 8,
        forall|i: int|
            0 <= i < MAX_HELD ==> ((#[trigger] t.held[i]).mutex matches Some(m) ==> m
                < pre.mutexes@.len()),
    ensures
        post.slots_wf(),
{
    assert forall|q: int, x: int| #[trigger] post.in_queue(q, x) implies post.ready(x) && post.eff(
        x,
    ) == q by {
        if x != id {
            assert(pre.in_queue(q, x));
            assert(pre.ready(x));
        }
    }
    assert forall|x: int| #[trigger] post.ready(x) implies post.in_queue(post.eff(x), x) by {
        if x != id {
            assert(pre.ready(x));
            assert(pre.in_queue(pre.eff(x), x));
        }
    }
    assert forall|x: int, i: int| 0 <= x < MAX_PTASKS && 0 <= i < MAX_HELD implies ((
    #[trigger] post.tasks[x].held[i]).mutex matches Some(m) ==> m < post.mutexes@.len()) by {
        if x != id {
            assert(post.tasks[x].held[i] == pre.tasks[x].held[i]);
        }
    }
}

/// Changing what a slot says besides its scheduling data keeps the invariant.
pub proof fn lemma_slot_annotated(pre: Preempt, post: Preempt, id: int)
    requires
        pre.wf(),
        0 <= id < MAX_PTASKS,
        post == (Preempt { tasks: post.tasks, ..pre }),
        post.tasks@ == pre.tasks@.update(id, post.tasks[id]),
        post.tasks[id].used == pre.tasks[id].used,
        post.tasks[id].state == pre.tasks[id].state,
        post.tasks[id].base_priority == pre.tasks[id].base_priority,
        post.tasks[id].effective_priority == pre.tasks[id].effective_priority,
        post.tasks[id].held == pre.tasks[id].held,
        post.tasks[id].result_size <= 8,
        post.tasks[id].used || post.tasks[id].result_drop == 0,
    ensures
        post.wf(),
{
    assert(forall|q: int, x: int| #[trigger] post.in_queue(q, x) == pre.in_queue(q, x));
    assert(pre.ready(id) ==> pre.in_queue(pre.eff(id), id));
    assert forall|i: int| 0 <= i < MAX_HELD implies ((
    #[trigger] post.tasks[id].held[i]).mutex matches Some(m) ==> m < pre.mutexes@.len()) by {
        assert(post.tasks[id].held[i] == pre.tasks[id].held[i]);
    }
    assert(pre.tasks[id].state == pre.tasks[id].state);
    lemma_slot_changed(pre, post, id, post.tasks[id]);
}

impl Preempt {
    /// Of two ready tasks, `a` runs before `b` (or is `b`): its priority is
    /// higher, or the same and its last dispatch lies further back. The lower
    /// id breaks a tie.
    pub open spec fn before(&self, a: int, b: int) -> bool {
        ||| self.eff(a) > self.eff(b)
        ||| self.eff(a) == self.eff(b) && self.older(a, b)
    }

    /// The last dispatch of `a` lies further back than that of `b`, or they
    /// are equal and `a` is the lower id or is `b`.
    pub open spec fn older(&self, a: int, b: int) -> bool {
        ||| self.dispatch_seq[a] < self.dispatch_seq[b]
        ||| self.dispatch_seq[a] == self.dispatch_seq[b] && a <= b
    }

    /// `id` is the ready task that runs before every other.
    pub open spec fn is_next(&self, id: int) -> bool {
        self.ready(id) && forall|x: int| #[trigger] self.ready(x) ==> self.before(id, x)
    }

    /// Some task is ready.
    pub open spec fn any_ready(&self) -> bool {
        exists|x: int| self.ready(x)
    }
}

/// Select the task to run next; nothing is dispatched.
///
/// A summary bit whose queue is empty cannot hide the queues below it: the
/// bit is dropped and the search goes on. With an exact summary nothing
/// changes.
pub fn schedule(p: &mut Preempt) -> (r: Option<usize>)
    requires
        old(p).slots_wf(),
        old(p).summary_covers(),
    ensures
        *final(p) == (Preempt { bitmap: final(p).bitmap, ..*old(p) }),
        final(p).slots_wf(),
        final(p).summary_covers(),
        forall|q: int| #[trigger] bit(final(p).bitmap, q) ==> bit(old(p).bitmap, q),
        inherits(old(p)) ==> inherits(final(p)),
        old(p).summary_exact() ==> *final(p) == *old(p),
        r is None <==> !old(p).any_ready(),
        r matches Some(id) ==> old(p).is_next(id as int),
{
    let ghost pre = *p;
    loop
        invariant
            *p == (Preempt { bitmap: p.bitmap, ..pre }),
            pre.slots_wf(),
            pre == *old(p),
            p.summary_covers(),
            forall|q: int| #[trigger] bit(p.bitmap, q) ==> bit(pre.bitmap, q),
            pre.summary_exact() ==> *p == pre,
        decreases p.bitmap,
    {
        proof {
            lemma_same_slots(pre, *p);
            if inherits(&pre) {
                mutex::lemma_inherits_same(pre, *p);
            }
        }
        let bitmap: u32 = p.bitmap;
        if bitmap == 0 {
            proof {
                bits::lemma_zero(bitmap);
                assert forall|x: int| !pre.ready(x) by {
                    if pre.ready(x) {
                        assert(pre.in_queue(pre.eff(x), x));
                        bits::lemma_zero(pre.queues[pre.eff(x)]);
                        assert(bit(p.bitmap, pre.eff(x)));
                    }
                }
            }
            return None;
        }
        let prio: u32 = bits::highest(bitmap);
        let word: u32 = p.queues[prio as usize];
        if word == 0 {
            // A stale summary bit: nothing is queued at this priority.
            proof {
                bits::lemma_clear(bitmap, prio);
                bits::lemma_clear_less(bitmap, prio);
            }
            p.bitmap = bitmap & !(1u32 << prio);
            continue ;
        }
        let best: usize = oldest_in(p, word, prio);
        proof {
            assert(pre.in_queue(prio as int, best as int));
            assert forall|x: int| #[trigger] pre.ready(x) implies pre.before(best as int, x) by {
                assert(pre.in_queue(pre.eff(x), x));
                bits::lemma_zero(pre.queues[pre.eff(x)]);
                assert(bit(p.bitmap, pre.eff(x)));
                if pre.eff(x) == prio {
                    assert(p.in_queue(prio as int, x));
                    assert(p.older(best as int, x));
                }
            }
        }
        return Some(best);
    }
}

/// The task of queue `prio`, whose word is `word`, that was dispatched least
/// recently.
fn oldest_in(p: &Preempt, word: u32, prio: u32) -> (r: usize)
    requires
        p.slots_wf(),
        prio < PRIORITY_LEVELS,
        word == p.queues[prio as int],
        word != 0,
    ensures
        p.in_queue(prio as int, r as int),
        forall|x: int| #[trigger] p.in_queue(prio as int, x) ==> p.older(r as int, x),
{
    let mut best: Option<usize> = None;
    let mut best_seq: u32 = u32::MAX;
    let mut w: u32 = word;
    while w != 0
        invariant
            p.slots_wf(),
            prio < PRIORITY_LEVELS,
            word == p.queues[prio as int],
            forall|x: int| #[trigger] bit(w, x) ==> bit(word, x),
            forall|x: int, y: int|
                #[trigger] bit(w, x) && #[trigger] bit(word, y) && !bit(w, y) ==> y < x,
            match best {
                Some(b) => {
                    &&& bit(word, b as int)
                    &&& !bit(w, b as int)
                    &&& best_seq == p.dispatch_seq[b as int]
                    &&& forall|x: int| #[trigger]
                        bit(word, x) && !bit(w, x) ==> p.older(b as int, x)
                },
                None => {
                    &&& best_seq == u32::MAX
                    &&& forall|x: int| #[trigger]
                        bit(word, x) && !bit(w, x) ==> p.dispatch_seq[x] == u32::MAX
                },
            },
        decreases w,
    {
        let low: u32 = bits::lowest(w);
        let id: usize = low as usize;
        proof {
            bits::lemma_clear_lowest(w, low);
            bits::lemma_clear(w, low);
            assert(p.in_queue(prio as int, id as int));
            assert(p.ready(id as int));
        }
        let ghost prev = w;
        w = w & (w - 1);
        if id < MAX_PTASKS {
            let seq: u32 = p.dispatch_seq[id];
            if seq < best_seq {
                best_seq = seq;
                best = Some(id);
            }
        }
        assert forall|x: int, y: int| #[trigger]
            bit(w, x) && #[trigger] bit(word, y) && !bit(w, y) implies y < x by {
            assert(bit(prev, x));
            assert(x != low);
        }
    }
    proof {
        bits::lemma_zero(w);
        assert forall|x: int| #[trigger] p.in_queue(prio as int, x) implies bit(word, x) by {}
    }
    match best {
        Some(b) => b,
        None => {
            // Every stamp is the greatest there is: the lowest id is next.
            let r: u32 = bits::lowest(word);
            proof {
                assert(p.in_queue(prio as int, r as int));
                assert(p.ready(r as int));
                assert forall|x: int| #[trigger] p.in_queue(prio as int, x) implies p.older(
                    r as int,
                    x,
                ) by {
                    assert(bit(word, x));
                    assert(p.ready(x));
                }
            }
            r as usize
        },
    }
}

/// The stamp that the next dispatch gets.
pub open spec fn next_stamp(p: &Preempt) -> u32 {
    if p.dispatch_counter == u32::MAX {
        0
    } else {
        (p.dispatch_counter + 1) as u32
    }
}

/// Record that task `id` was put on a processor: it is now the one that was
/// dispatched last. Returns the cycles that it waited since it became ready,
/// if that moment is known.
pub fn on_dispatch(p: &mut Preempt, id: usize) -> (r: Option<u64>)
    ensures
        id >= MAX_PTASKS ==> *final(p) == *old(p) && r is None,
        id < MAX_PTASKS ==> {
            &&& final(p).dispatch_counter == next_stamp(old(p))
            &&& final(p).dispatch_seq@ == old(p).dispatch_seq@.update(
                id as int,
                next_stamp(old(p)),
            )
            &&& r == (if old(p).ready_at[id as int] == 0 {
                None
            } else if old(p).cycle >= old(p).ready_at[id as int] {
                Some((old(p).cycle - old(p).ready_at[id as int]) as u64)
            } else {
                Some((old(p).cycle - old(p).ready_at[id as int] + 0x1_0000_0000) as u64)
            })
        },
        *final(p) == (Preempt {
            dispatch_counter: final(p).dispatch_counter,
            dispatch_seq: final(p).dispatch_seq,
            ..*old(p)
        }),
        old(p).wf() ==> final(p).wf(),
        old(p).wf() && inherits(old(p)) ==> inherits(final(p)),
{
    if id < MAX_PTASKS {
        let seq: u32 = p.dispatch_counter.wrapping_add(1);
        p.dispatch_counter = seq;
        p.dispatch_seq[id] = seq;
        assert(forall|q: int, x: int| #[trigger] p.in_queue(q, x) == old(p).in_queue(q, x));
        assert(forall|x: int| #[trigger] p.ready(x) == old(p).ready(x));
        proof {
            if old(p).wf() && inherits(old(p)) {
                mutex::lemma_inherits_same(*old(p), *p);
            }
        }
        let ready_at: u32 = p.ready_at[id];
        if ready_at != 0 {
            let waited: u32 = p.cycle.wrapping_sub(ready_at);
            return Some(waited as u64);
        }
    }
    None
}

/// Whether a tick switches from `running` to `candidate`: the candidate is
/// another task, of at least the same effective priority.
pub fn should_preempt(p: &Preempt, candidate: usize, running: usize) -> (r: bool)
    requires
        candidate < MAX_PTASKS,
        running < MAX_PTASKS,
    ensures
        r == (candidate != running && p.eff(candidate as int) >= p.eff(running as int)),
{
    if candidate == running {
        return false;
    }
    p.tasks[candidate].effective_priority >= p.tasks[running].effective_priority
}

/// What making `id` ready does to the slots and the other harts.
pub open spec fn unblocked(pre: &Preempt, post: &Preempt, id: int) -> bool {
    &&& post.frame(pre)
    &&& pre.live(id) is None ==> *post == *pre
    &&& pre.live(id) is Some ==> {
        &&& post.tasks@ == pre.tasks@.update(
            id,
            (Tcb { state: SlotState::Ready, ..pre.tasks[id] }),
        )
        &&& post.harts.broadcast_from(&pre.harts)
        &&& post.ready_at@ == pre.ready_at@.update(id, pre.cycle)
    }
}

/// Make task `id` ready. Nothing happens if the slot holds no task.
pub fn unblock(p: &mut Preempt, id: usize)
    requires
        old(p).wf(),
    ensures
        final(p).wf(),
        inherits(old(p)) ==> inherits(final(p)),
        unblocked(old(p), final(p), id as int),
{
    if id < MAX_PTASKS && p.tasks[id].used {
        Tcb::set_state(p, id, TaskState::Ready);
    }
}

/// Block the task that the executing hart runs, without switching away from
/// it. Nothing happens if it runs none, or one whose slot is free.
pub fn block_current(p: &mut Preempt)
    requires
        old(p).wf(),
    ensures
        final(p).wf(),
        inherits(old(p)) ==> inherits(final(p)),
        final(p).frame(old(p)),
        final(p).harts == old(p).harts,
        final(p).ready_at == old(p).ready_at,
        match old(p).running() {
            Some(id) if old(p).live(id as int) is Some => final(p).tasks@
                == old(p).tasks@.update(
                id as int,
                (Tcb { state: SlotState::Blocked, ..old(p).tasks[id as int] }),
            ),
            _ => *final(p) == *old(p),
        },
{
    if let Some(id) = current(p) {
        if id < MAX_PTASKS && p.tasks[id].used {
            Tcb::set_state(p, id, TaskState::Blocked);
        }
    }
}

/// The summary word.
pub fn ready_bitmap_for_test(p: &Preempt) -> (r: u32)
    ensures
        r == p.bitmap,
        p.wf() ==> forall|q: int|
            0 <= q < PRIORITY_LEVELS ==> #[trigger] bit(r, q) == (exists|x: int|
                p.ready(x) && p.eff(x) == q),
{
    proof {
        if p.wf() {
            assert forall|q: int| 0 <= q < PRIORITY_LEVELS implies #[trigger] bit(p.bitmap, q) == (
            exists|x: int| p.ready(x) && p.eff(x) == q) by {
                bits::lemma_zero(p.queues[q]);
                if bit(p.bitmap, q) {
                    let x = choose|x: int| bit(p.queues[q], x);
                    assert(p.in_queue(q, x));
                    assert(p.ready(x) && p.eff(x) == q);
                }
                if exists|x: int| p.ready(x) && p.eff(x) == q {
                    let x = choose|x: int| p.ready(x) && p.eff(x) == q;
                    assert(p.in_queue(q, x));
                }
            }
        }
    }
    p.bitmap
}

/// There is at most one next task.
pub proof fn law_next_is_unique(p: Preempt, a: int, b: int)
    requires
        p.is_next(a),
        p.is_next(b),
    ensures
        a == b,
{
    assert(p.before(a, b));
    assert(p.before(b, a));
}

/// Every stamp lies in the past: no dispatch is stamped later than the count
/// of dispatches says, and the count has room for another.
pub open spec fn stamps_past(p: &Preempt) -> bool {
    &&& p.dispatch_counter < u32::MAX
    &&& forall|x: int| 0 <= x < MAX_PTASKS ==> #[trigger] p.dispatch_seq[x] <= p.dispatch_counter
}

/// The tasks that were dispatched less recently than `b`.
pub open spec fn ahead_of(p: &Preempt, b: int) -> Set<int> {
    Set::new(|x: int| 0 <= x < MAX_PTASKS && x != b && p.older(x, b))
}

/// The tasks ahead of another are finitely many.
proof fn lemma_ahead_finite(p: &Preempt, b: int)
    ensures
        ahead_of(p, b).finite(),
        0 <= b < MAX_PTASKS ==> ahead_of(p, b).len() < MAX_PTASKS,
{
    let all = vstd::set_lib::set_int_range(0, MAX_PTASKS as int);
    vstd::set_lib::lemma_int_range(0, MAX_PTASKS as int);
    assert(ahead_of(p, b).subset_of(all));
    vstd::set_lib::lemma_len_subset(ahead_of(p, b), all);
    if 0 <= b < MAX_PTASKS {
        assert(ahead_of(p, b).subset_of(all.remove(b)));
        vstd::set_lib::lemma_len_subset(ahead_of(p, b), all.remove(b));
    }
}

/// No starvation: whenever another task `a` of the same priority is selected
/// and dispatched while `b` is ready, the tasks that were dispatched less
/// recently than `b` become one fewer, and fewer than there are slots to
/// begin with. That number depends on the stamps alone, so it does not matter
/// which tasks block and wake in between, or on which hart they run: `b`
/// waits for less than [`MAX_PTASKS`] dispatches of its priority.
pub proof fn law_bounded_waiting(pre: Preempt, post: Preempt, a: int, b: int)
    requires
        stamps_past(&pre),
        pre.is_next(a),
        pre.ready(b),
        pre.eff(a) == pre.eff(b),
        a != b,
        post.dispatch_seq@ == pre.dispatch_seq@.update(a, next_stamp(&pre)),
    ensures
        ahead_of(&pre, b).contains(a),
        ahead_of(&post, b) == ahead_of(&pre, b).remove(a),
        ahead_of(&post, b).finite(),
        ahead_of(&post, b).len() == ahead_of(&pre, b).len() - 1,
        ahead_of(&pre, b).len() < MAX_PTASKS,
{
    assert(pre.before(a, b));
    lemma_ahead_finite(&pre, b);
    assert(pre.dispatch_seq[b] <= pre.dispatch_counter);
    assert(post.dispatch_seq[a] == next_stamp(&pre));
    assert forall|x: int| x != a && 0 <= x < MAX_PTASKS implies post.dispatch_seq[x]
        == pre.dispatch_seq[x] by {}
    assert(ahead_of(&post, b) =~= ahead_of(&pre, b).remove(a));
}

/// A ready task that nothing of its priority is ahead of, and that no ready
/// task outranks, is the next task.
pub proof fn law_oldest_runs(p: Preempt, b: int)
    requires
        p.ready(b),
        ahead_of(&p, b) == Set::<int>::empty(),
        forall|x: int| #[trigger] p.ready(x) ==> p.eff(x) <= p.eff(b),
    ensures
        p.is_next(b),
{
    assert forall|x: int| #[trigger] p.ready(x) implies p.before(b, x) by {
        assert(!ahead_of(&p, b).contains(x));
    }
}

/// Dispatching keeps every stamp in the past until the count is used up.
pub proof fn law_stamps_stay_past(pre: Preempt, post: Preempt, id: int)
    requires
        stamps_past(&pre),
        0 <= id < MAX_PTASKS,
        pre.dispatch_counter < u32::MAX - 1,
        post.dispatch_counter == next_stamp(&pre),
        post.dispatch_seq@ == pre.dispatch_seq@.update(id, next_stamp(&pre)),
    ensures
        stamps_past(&post),
{
    assert forall|x: int| 0 <= x < MAX_PTASKS implies #[trigger] post.dispatch_seq[x]
        <= post.dispatch_counter by {
        assert(post.dispatch_seq[x] == post.dispatch_seq@[x]);
        assert(pre.dispatch_seq[x] <= pre.dispatch_counter);
    }
}

/// The task that is selected is ready, none that is ready has a higher
/// priority, and of those with the same priority none was dispatched less
/// recently. None is selected only if none is ready.
pub proof fn law_selected_task_is_due(p: &mut Preempt, r: Option<usize>)
    requires
        call_ensures(schedule, (p,), r),
        old(p).wf(),
    ensures
        r is None <==> forall|x: int|
            0 <= x < MAX_PTASKS && (#[trigger] old(p).tasks[x]).used ==> old(p).tasks[x].state
                != SlotState::Ready,
        r matches Some(id) ==> {
            &&& id < MAX_PTASKS
            &&& old(p).tasks[id as int].used
            &&& old(p).tasks[id as int].state == SlotState::Ready
            &&& forall|x: int|
                0 <= x < MAX_PTASKS && (#[trigger] old(p).tasks[x]).used && old(p).tasks[x].state
                    == SlotState::Ready ==> {
                    ||| old(p).tasks[x].effective_priority < old(
                        p,
                    ).tasks[id as int].effective_priority
                    ||| old(p).tasks[x].effective_priority == old(
                        p,
                    ).tasks[id as int].effective_priority && old(p).dispatch_seq[x] >= old(
                        p,
                    ).dispatch_seq[id as int]
                }
        },
        final(p).tasks == old(p).tasks,
        final(p).dispatch_seq == old(p).dispatch_seq,
        final(p).current == old(p).current,
{
    if let Some(id) = r {
        assert forall|x: int|
            0 <= x < MAX_PTASKS && (#[trigger] old(p).tasks[x]).used && old(p).tasks[x].state
                == SlotState::Ready implies {
            ||| old(p).tasks[x].effective_priority < old(p).tasks[id as int].effective_priority
            ||| old(p).tasks[x].effective_priority == old(p).tasks[id as int].effective_priority
                && old(p).dispatch_seq[x] >= old(p).dispatch_seq[id as int]
        } by {
            assert(old(p).ready(x));
        }
    } else {
        assert forall|x: int| 0 <= x < MAX_PTASKS && (#[trigger] old(p).tasks[x]).used implies old(
            p,
        ).tasks[x].state != SlotState::Ready by {
            assert(!old(p).ready(x));
        }
    }
    if forall|x: int|
        0 <= x < MAX_PTASKS && (#[trigger] old(p).tasks[x]).used ==> old(p).tasks[x].state
            != SlotState::Ready {
        assert forall|x: int| !#[trigger] old(p).ready(x) by {
            if 0 <= x < MAX_PTASKS {
                assert(old(p).tasks[x].used ==> old(p).tasks[x].state != SlotState::Ready);
            }
        }
    }
}

/// A dispatch is stamped later than every dispatch before it, and the wait that
/// it ends is counted from when the task became ready.
pub proof fn law_dispatch_is_the_latest(p: &mut Preempt, id: usize, r: Option<u64>)
    requires
        call_ensures(on_dispatch, (p, id), r),
        id < MAX_PTASKS,
        old(p).dispatch_counter < u32::MAX,
        forall|x: int|
            0 <= x < MAX_PTASKS ==> #[trigger] old(p).dispatch_seq[x] <= old(p).dispatch_counter,
    ensures
        forall|x: int|
            0 <= x < MAX_PTASKS && x != id
                ==> #[trigger] final(p).dispatch_seq[x] < final(p).dispatch_seq[id as int]
                    && final(p).dispatch_seq[x] == old(p).dispatch_seq[x],
        final(p).dispatch_seq[id as int] == old(p).dispatch_counter + 1,
        final(p).dispatch_counter == old(p).dispatch_counter + 1,
        old(p).ready_at[id as int] == 0 <==> r is None,
        old(p).ready_at[id as int] != 0 && old(p).ready_at[id as int] <= old(p).cycle ==> r->0
            == old(p).cycle - old(p).ready_at[id as int],
{
    assert(final(p).dispatch_seq@[id as int] == final(p).dispatch_seq[id as int]);
    assert forall|x: int| 0 <= x < MAX_PTASKS && x != id
        implies #[trigger] final(p).dispatch_seq[x] < final(p).dispatch_seq[id as int]
            && final(p).dispatch_seq[x] == old(
        p,
    ).dispatch_seq[x] by {
        assert(final(p).dispatch_seq@[x] == old(p).dispatch_seq@[x]);
        assert(old(p).dispatch_seq[x] <= old(p).dispatch_counter);
    }
}

/// A task gives way to another one of at least its priority, and never to
/// itself or to one of a lower priority.
pub proof fn law_preemption_goes_by_priority(p: Preempt, a: usize, b: usize, r: bool)
    requires
        call_ensures(should_preempt, (&p, a, b), r),
        a < MAX_PTASKS,
        b < MAX_PTASKS,
    ensures
        p.tasks[a as int].effective_priority > p.tasks[b as int].effective_priority ==> r,
        p.tasks[a as int].effective_priority < p.tasks[b as int].effective_priority ==> !r,
        p.tasks[a as int].effective_priority == p.tasks[b as int].effective_priority ==> r == (a
            != b),
{
}

/// A task that is unblocked is ready and the other harts are told; one that is
/// blocked is not ready. Neither touches another task.
pub proof fn law_block_and_unblock(
    p: &mut Preempt,
    q: &mut Preempt,
    id: usize,
    x: int,
)
    requires
        call_ensures(block_current, (p,), ()),
        old(p).wf(),
        old(p).running() == Some(id),
        old(p).live(id as int) is Some,
        *old(q) == *final(p),
        call_ensures(unblock, (q, id), ()),
        0 <= x < MAX_PTASKS,
        x != id,
    ensures
        !final(p).ready(id as int),
        final(p).tasks[id as int].state == SlotState::Blocked,
        final(q).ready(id as int),
        final(q).tasks[x] == old(p).tasks[x],
        final(p).tasks[x] == old(p).tasks[x],
        final(q).current == old(p).current,
        final(q).ready_at[id as int] == old(p).cycle,
        forall|h: int|
            0 <= h < MAX_HARTS && h != old(p).harts.hart ==> #[trigger] final(q).harts.resched[h],
{
    assert(final(p).tasks@[id as int] == final(p).tasks[id as int]);
    assert(final(q).tasks@[id as int] == final(q).tasks[id as int]);
    assert(final(p).tasks@[x] == old(p).tasks@[x]);
    assert(final(q).tasks@[x] == old(q).tasks@[x]);
    assert(final(q).ready_at@[id as int] == final(q).ready_at[id as int]);
}

/// The task that a hart is set to run is the one that it runs.
pub proof fn law_current_is_what_was_set(p: &mut Preempt, id: usize, r: Option<usize>)
    requires
        call_ensures(set_current, (p, id), ()),
        call_ensures(current, (&*final(p),), r),
        old(p).harts.wf(),
    ensures
        id != NO_TASK ==> r == Some(id),
        id == NO_TASK ==> r is None,
        forall|h: int|
            0 <= h < MAX_HARTS && h != old(p).harts.hart ==> #[trigger] final(p).current[h] == old(
                p,
            ).current[h],
        final(p).tasks == old(p).tasks,
{
    assert forall|h: int| 0 <= h < MAX_HARTS && h != old(p).harts.hart
        implies #[trigger] final(p).current[h] == old(p).current[h] by {
        assert(final(p).current@[h] == old(p).current@[h]);
    }
}

/// The summary word has the bit of a level exactly if a task of that level is
/// ready.
pub proof fn law_summary_tells_ready_levels(p: &Preempt, r: u32, x: int, q: int)
    requires
        p.wf(),
        call_ensures(ready_bitmap_for_test, (p,), r),
        0 <= q < 32,
    ensures
        p.ready(x) && p.eff(x) == q ==> bit(r, q),
        (forall|y: int| p.ready(y) ==> #[trigger] p.eff(y) != q) ==> !bit(r, q),
{
    assert(PRIORITY_LEVELS == 32);
}

/// A task stands in the queue of its effective priority once it was added
/// there, with the cycle noted and the other harts told, and not once it was
/// taken out; no other place in a queue changes.
pub proof fn law_queue_holds_what_was_added(
    a: &mut Preempt,
    b: &mut Preempt,
    id: usize,
    q: int,
    x: int,
    h: int,
)
    requires
        id < MAX_PTASKS,
        old(a).tasks[id as int].effective_priority < PRIORITY_LEVELS,
        call_ensures(ready_add, (a, id), ()),
        *old(b) == *final(a),
        call_ensures(ready_remove, (b, id), ()),
        0 <= h < MAX_HARTS,
        h != old(a).harts.hart,
    ensures
        final(a).in_queue(old(a).tasks[id as int].effective_priority as int, id as int),
        !final(b).in_queue(old(a).tasks[id as int].effective_priority as int, id as int),
        x != id || q != old(a).tasks[id as int].effective_priority ==> final(a).in_queue(q, x)
            == old(a).in_queue(q, x) && final(b).in_queue(q, x) == old(a).in_queue(q, x),
        final(a).ready_at[id as int] == old(a).cycle,
        final(a).harts.resched[h],
{
    assert(final(a).ready_at@[id as int] == final(a).ready_at[id as int]);
}

/// A ready task whose priority changed stands in the queue of the new one and
/// not in that of the old one; nobody else is moved.
pub proof fn law_priority_change_moves_the_task(
    p: &mut Preempt,
    id: usize,
    old_prio: u8,
    new_prio: u8,
    q: int,
    x: int,
)
    requires
        old(p).ready(id as int),
        old_prio < PRIORITY_LEVELS,
        new_prio < PRIORITY_LEVELS,
        old_prio != new_prio,
        call_ensures(on_effective_priority_change, (p, id, old_prio, new_prio), ()),
    ensures
        final(p).in_queue(new_prio as int, id as int),
        !final(p).in_queue(old_prio as int, id as int),
        x != id ==> final(p).in_queue(q, x) == old(p).in_queue(q, x),
{
}

/// A wait is counted across the wrap of the cycle word, and stamps begin anew
/// after the greatest.
pub proof fn law_dispatch_wraps(p: &mut Preempt, id: usize, r: Option<u64>)
    requires
        call_ensures(on_dispatch, (p, id), r),
        id < MAX_PTASKS,
    ensures
        old(p).ready_at[id as int] > old(p).cycle ==> r is Some && r->0 == old(p).cycle - old(
            p,
        ).ready_at[id as int] + 0x1_0000_0000,
        old(p).dispatch_counter == u32::MAX ==> final(p).dispatch_counter == 0
            && final(p).dispatch_seq[id as int] == 0,
{
    assert(final(p).dispatch_seq@[id as int] == final(p).dispatch_seq[id as int]);
}

} // verus!
