//! Ready tasks of the cooperative tier.
//!
//! A task is ready or it is not: waking it twice before it runs is waking it
//! once. The ready set is one word per priority level, with one summary word
//! that says which levels are not empty.
//!
//! Making a task ready is made of steps, each of which is one access to a word.
//! Other tasks and interrupt handlers may make tasks ready between any two of
//! them.
use crate::bits::{self, bit};
use crate::config::PRIORITY_LEVELS;
use crate::port::arch::{self, Harts};
use crate::task::TaskId;
use vstd::prelude::*;

verus! {

/// The ready set.
pub struct WakerState {
    /// Bit `p`: level `p` has a ready task.
    pub bitmap: u32,
    /// Bit `i` of word `p`: task `i` of level `p` is ready.
    pub queues: [u32; PRIORITY_LEVELS],
    /// A task was made ready since the executor last began a round.
    pub pend: bool,
}

impl WakerState {
    /// Task `i` of level `p` is ready.
    pub open spec fn ready(&self, p: int, i: int) -> bool {
        0 <= p < PRIORITY_LEVELS && bit(self.queues[p], i)
    }

    /// The summary word names exactly the levels that are not empty.
    pub open spec fn wf(&self) -> bool {
        forall|p: int|
            0 <= p < PRIORITY_LEVELS ==> #[trigger] bit(self.bitmap, p) == (self.queues[p] != 0)
    }

    /// No task is ready.
    pub open spec fn idle(&self) -> bool {
        forall|p: int, i: int| !self.ready(p, i)
    }

    /// Nothing ready, nothing pending.
    pub fn new() -> (r: Self)
        ensures
            r.wf(),
            r.idle(),
            !r.pend,
            r.bitmap == 0,
    {
        let r = WakerState { bitmap: 0, queues: [0; PRIORITY_LEVELS], pend: false };
        proof {
            bits::lemma_zero(0);
        }
        r
    }
}

/// Forget every ready task and the pending flag.
pub fn reset(w: &mut WakerState)
    ensures
        final(w).wf(),
        final(w).idle(),
        !final(w).pend,
{
    *w = WakerState::new();
}

/// The effect of `mark_ready` on the ready set.
pub open spec fn marked(pre: WakerState, post: WakerState, id: TaskId) -> bool {
    &&& post.pend
    &&& pre.wf() ==> post.wf()
    &&& forall|p: int, i: int|
        #[trigger] post.ready(p, i) == (pre.ready(p, i) || (p == id.prio() && i == id.idx() % 32))
}

/// Make `id` ready. A queue word has 32 places; an index beyond them wraps.
pub fn mark_ready(w: &mut WakerState, id: TaskId)
    requires
        id.prio() < PRIORITY_LEVELS,
    ensures
        marked(*old(w), *final(w), id),
{
    queue_task(w, id);
    let ghost mid = *w;
    sum_level(w, id);
    w.pend = true;
    proof {
        assert(forall|p: int, i: int| #[trigger] w.ready(p, i) == mid.ready(p, i));
        assert(mid.ready(id.prio(), id.idx() % 32));
        bits::lemma_zero(mid.queues[id.prio()]);
        if old(w).wf() {
            assert forall|p: int| 0 <= p < PRIORITY_LEVELS implies #[trigger] bit(w.bitmap, p) == (
            w.queues[p] != 0) by {
                let pre = old(w).queues[p];
                let post = mid.queues[p];
                bits::lemma_zero(post);
                bits::lemma_zero(pre);
                assert(bit(old(w).bitmap, p) == (pre != 0));
                if pre != 0 {
                    let i = choose|i: int| bit(pre, i);
                    assert(old(w).ready(p, i) && mid.ready(p, i));
                }
                if post != 0 && p != id.prio() {
                    let i = choose|i: int| bit(post, i);
                    assert(bit(post, i));
                    assert(mid.ready(p, i));
                    assert(old(w).ready(p, i));
                }
            }
        }
    }
}

/// The task was put into its queue word.
pub open spec fn queued(pre: &WakerState, post: &WakerState, id: TaskId) -> bool {
    &&& post.bitmap == pre.bitmap
    &&& post.pend == pre.pend
    &&& forall|p: int, i: int|
        #[trigger] post.ready(p, i) == (pre.ready(p, i) || (p == id.prio() && i == id.idx() % 32))
}

/// The level of the task was put into the summary word.
pub open spec fn summed(pre: &WakerState, post: &WakerState, id: TaskId) -> bool {
    &&& post.queues == pre.queues
    &&& post.pend == pre.pend
    &&& forall|p: int|
        #[trigger] bit(post.bitmap, p) == (bit(pre.bitmap, p) || p == id.prio())
}

/// First step of making `id` ready.
fn queue_task(w: &mut WakerState, id: TaskId)
    requires
        id.prio() < PRIORITY_LEVELS,
    ensures
        queued(old(w), final(w), id),
{
    let index: u8 = id.index();
    let prio: usize = id.priority() as usize;
    let i: u32 = (index & 0x1F) as u32;
    assert(index & 0x1F == index % 32) by (bit_vector);
    proof {
        bits::lemma_set(w.queues[prio as int], i);
    }
    w.queues[prio] = w.queues[prio] | (1u32 << i);
}

/// Second step of making `id` ready.
fn sum_level(w: &mut WakerState, id: TaskId)
    requires
        id.prio() < PRIORITY_LEVELS,
    ensures
        summed(old(w), final(w), id),
{
    let prio: u32 = id.priority() as u32;
    proof {
        bits::lemma_set(w.bitmap, prio);
    }
    w.bitmap = w.bitmap | (1u32 << prio);
}

/// Whether the executor has work, or has been told of some since it last
/// began a round.
pub fn has_pending(w: &WakerState) -> (r: bool)
    ensures
        r == (w.pend || w.bitmap != 0),
        w.wf() ==> r == (w.pend || !w.idle()),
{
    proof {
        if w.wf() {
            lemma_bitmap_idle(w);
        }
    }
    w.pend || w.bitmap != 0
}

/// With an exact summary, the summary is zero when and only when nothing is
/// ready.
pub proof fn lemma_bitmap_idle(w: &WakerState)
    requires
        w.wf(),
    ensures
        (w.bitmap == 0) == w.idle(),
{
    bits::lemma_zero(w.bitmap);
    if w.bitmap == 0 {
        assert forall|p: int, i: int| !w.ready(p, i) by {
            if 0 <= p < PRIORITY_LEVELS {
                assert(!bit(w.bitmap, p));
                bits::lemma_zero(w.queues[p]);
            }
        }
    } else {
        let p = choose|p: int| bit(w.bitmap, p);
        bits::lemma_zero(w.queues[p]);
        let i = choose|i: int| bit(w.queues[p], i);
        assert(w.ready(p, i));
    }
}

/// Begin a round: forget that work was announced.
pub fn clear_pend(w: &mut WakerState)
    ensures
        !final(w).pend,
        final(w).bitmap == old(w).bitmap,
        final(w).queues == old(w).queues,
{
    w.pend = false;
}

/// `id` is the ready task that runs next: no ready task has a higher
/// priority, and none of its level has a lower index.
pub open spec fn is_next(w: &WakerState, id: TaskId) -> bool {
    &&& w.ready(id.prio(), id.idx())
    &&& forall|p: int, i: int| #[trigger] w.ready(p, i) ==> p <= id.prio()
    &&& forall|i: int| #[trigger] w.ready(id.prio(), i) ==> id.idx() <= i
}

/// Take the next ready task off the ready set.
///
/// With an exact summary this returns a task whenever one is ready. A summary
/// bit whose level is empty is dropped, and the call then returns nothing.
pub fn next_ready(w: &mut WakerState) -> (r: Option<TaskId>)
    ensures
        final(w).pend == old(w).pend,
        old(w).wf() ==> final(w).wf(),
        old(w).wf() ==> (r is None) == old(w).idle(),
        old(w).wf() && r is Some ==> is_next(old(w), r->0),
        r is Some ==> forall|p: int, i: int|
            #[trigger] final(w).ready(p, i) == (old(w).ready(p, i) && !(p == r->0.prio() && i
                == r->0.idx())),
        r is Some ==> r->0.prio() < PRIORITY_LEVELS && r->0.idx() < 32 && old(w).ready(
            r->0.prio(),
            r->0.idx(),
        ),
        r is None ==> final(w).queues == old(w).queues,
{
    proof {
        if w.wf() {
            lemma_bitmap_idle(w);
        }
    }
    let bitmap: u32 = w.bitmap;
    if bitmap == 0 {
        return None;
    }
    let prio: u32 = bits::highest(bitmap);
    let queue: u32 = w.queues[prio as usize];
    proof {
        bits::lemma_clear(w.bitmap, prio);
        bits::lemma_zero(queue);
    }
    if queue == 0 {
        w.bitmap = w.bitmap & !(1u32 << prio);
        return None;
    }
    let index: u32 = bits::lowest(queue);
    proof {
        bits::lemma_clear(queue, index);
        bits::lemma_is_single(queue, index);
        bits::lemma_zero(queue & !(1u32 << index));
    }
    w.queues[prio as usize] = queue & !(1u32 << index);
    if queue == 1u32 << index {
        w.bitmap = w.bitmap & !(1u32 << prio);
    } else {
        proof {
            assert(w.queues[prio as int] != 0) by {
                let j = choose|j: int| bit(queue, j) != (j == index);
                assert(bit(queue & !(1u32 << index), j));
            }
        }
    }
    let id = TaskId::new(prio as u8, index as u8);
    proof {
        let pre = *old(w);
        assert(pre.ready(prio as int, index as int));
        if pre.wf() {
            assert forall|p: int, i: int| #[trigger] pre.ready(p, i) implies p <= prio by {
                bits::lemma_zero(pre.queues[p]);
                assert(bit(pre.bitmap, p));
            }
            assert forall|p: int| 0 <= p < PRIORITY_LEVELS implies #[trigger] bit(w.bitmap, p) == (
            w.queues[p] != 0) by {
                assert(bit(pre.bitmap, p) == (pre.queues[p] != 0));
            }
        }
    }
    Some(id)
}

/// Ask every hart but the executing one to look for work.
pub fn broadcast_reschedule(h: &mut Harts)
    ensures
        final(h).broadcast_from(old(h)),
{
    arch::request_reschedule_others(h);
}

/// Make `id` ready from outside the executor: the executor may idle on
/// another hart, so the others are told.
pub fn wake_task(w: &mut WakerState, h: &mut Harts, id: TaskId)
    requires
        id.prio() < PRIORITY_LEVELS,
    ensures
        marked(*old(w), *final(w), id),
        final(h).broadcast_from(old(h)),
{
    mark_ready(w, id);
    broadcast_reschedule(h);
}

/// No wakeup is lost: once `id` is marked it is ready, and every task that
/// was ready stays ready.
pub proof fn law_no_lost_wakeup(pre: WakerState, post: WakerState, id: TaskId)
    requires
        pre.wf(),
        marked(pre, post, id),
        0 <= id.prio() < PRIORITY_LEVELS,
        id.idx() < 32,
    ensures
        post.wf(),
        post.ready(id.prio(), id.idx()),
        !post.idle(),
        forall|p: int, i: int| pre.ready(p, i) ==> post.ready(p, i),
{
    assert(post.ready(id.prio(), id.idx()));
}

/// How far making a task ready has come.
pub enum MarkStage {
    /// Nothing was done yet.
    Idle,
    /// The task is in its queue word.
    Queued,
    /// The level is in the summary word.
    Summed,
    /// Work was announced.
    Done,
}

/// Any number of tasks that are being made ready at the same time.
pub struct Race {
    /// The ready set.
    pub waker: WakerState,
    /// How far each has come.
    pub marks: Seq<MarkStage>,
}

/// Mark `j`, of task `id`, makes its next step.
pub open spec fn mark_steps(pre: &Race, post: &Race, j: int, id: TaskId) -> bool {
    &&& 0 <= j < pre.marks.len()
    &&& post.marks == pre.marks.update(j, post.marks[j])
    &&& match pre.marks[j] {
        MarkStage::Idle => queued(&pre.waker, &post.waker, id) && post.marks[j] is Queued,
        MarkStage::Queued => summed(&pre.waker, &post.waker, id) && post.marks[j] is Summed,
        MarkStage::Summed => {
            &&& post.waker == (WakerState { pend: true, ..pre.waker })
            &&& post.marks[j] is Done
        },
        MarkStage::Done => false,
    }
}

/// What holds at every moment of the race: the summary word is exact but for
/// levels that a mark has yet to put there.
spec fn race_sound(first: &WakerState, r: &Race, ids: Seq<TaskId>) -> bool {
    &&& r.marks.len() == ids.len()
    &&& forall|p: int, i: int| #[trigger] first.ready(p, i) ==> r.waker.ready(p, i)
    &&& forall|j: int|
        0 <= j < ids.len() && !(#[trigger] r.marks[j] is Idle) ==> r.waker.ready(
            ids[j].prio(),
            ids[j].idx() % 32,
        )
    &&& forall|j: int| 0 <= j < ids.len() && #[trigger] r.marks[j] is Done ==> r.waker.pend
    &&& forall|p: int|
        0 <= p < PRIORITY_LEVELS && #[trigger] bit(r.waker.bitmap, p) ==> r.waker.queues[p] != 0
    &&& forall|p: int, i: int| #[trigger]
        r.waker.ready(p, i) ==> bit(r.waker.bitmap, p) || exists|j: int|
            0 <= j < ids.len() && #[trigger] r.marks[j] is Queued && ids[j].prio() == p
}

proof fn lemma_mark_step(first: &WakerState, pre: &Race, post: &Race, ids: Seq<TaskId>, j: int)
    requires
        race_sound(first, pre, ids),
        forall|k: int| 0 <= k < ids.len() ==> (#[trigger] ids[k]).prio() < PRIORITY_LEVELS,
        mark_steps(pre, post, j, ids[j]),
    ensures
        race_sound(first, post, ids),
{
    let id = ids[j];
    assert forall|x: int| 0 <= x < ids.len() && x != j implies #[trigger] post.marks[x]
        == pre.marks[x] by {}
    match pre.marks[j] {
        MarkStage::Idle => {
            assert(post.marks[j] is Queued);
            assert(post.waker.ready(id.prio(), id.idx() % 32));
            assert forall|p: int| 0 <= p < PRIORITY_LEVELS && #[trigger] bit(
                post.waker.bitmap,
                p,
            ) implies post.waker.queues[p] != 0 by {
                bits::lemma_zero(pre.waker.queues[p]);
                bits::lemma_zero(post.waker.queues[p]);
                let i = choose|i: int| bit(pre.waker.queues[p], i);
                assert(pre.waker.ready(p, i));
                assert(post.waker.ready(p, i));
            }
            assert forall|p: int, i: int| #[trigger] post.waker.ready(p, i) implies bit(
                post.waker.bitmap,
                p,
            ) || exists|x: int|
                0 <= x < ids.len() && #[trigger] post.marks[x] is Queued && ids[x].prio() == p by {
                if pre.waker.ready(p, i) && !bit(pre.waker.bitmap, p) {
                    let x = choose|x: int|
                        0 <= x < ids.len() && #[trigger] pre.marks[x] is Queued && ids[x].prio()
                            == p;
                    assert(post.marks[x] is Queued);
                }
            }
        },
        _ => {
            assert(forall|p: int, i: int|
                #[trigger] post.waker.ready(p, i) == pre.waker.ready(p, i));
            assert(pre.waker.ready(id.prio(), id.idx() % 32));
            bits::lemma_zero(pre.waker.queues[id.prio()]);
            assert forall|p: int, i: int| #[trigger] post.waker.ready(p, i) implies bit(
                post.waker.bitmap,
                p,
            ) || exists|x: int|
                0 <= x < ids.len() && #[trigger] post.marks[x] is Queued && ids[x].prio() == p by {
                assert(pre.waker.ready(p, i));
                if !bit(pre.waker.bitmap, p) {
                    let x = choose|x: int|
                        0 <= x < ids.len() && #[trigger] pre.marks[x] is Queued && ids[x].prio()
                            == p;
                    if x != j {
                        assert(post.marks[x] is Queued);
                    }
                }
            }
        },
    }
}

proof fn lemma_race(rs: Seq<Race>, ids: Seq<TaskId>, by: Seq<int>, n: nat)
    requires
        n < rs.len(),
        by.len() == rs.len() - 1,
        rs[0].waker.wf(),
        rs[0].marks.len() == ids.len(),
        forall|j: int| 0 <= j < ids.len() ==> #[trigger] rs[0].marks[j] is Idle,
        forall|k: int| 0 <= k < ids.len() ==> (#[trigger] ids[k]).prio() < PRIORITY_LEVELS,
        forall|m: int|
            0 <= m < by.len() ==> mark_steps(&rs[m], &rs[m + 1], #[trigger] by[m], ids[by[m]]),
    ensures
        race_sound(&rs[0].waker, &rs[n as int], ids),
    decreases n,
{
    if n == 0 {
        let w = rs[0].waker;
        assert forall|p: int, i: int| #[trigger] w.ready(p, i) implies bit(w.bitmap, p) by {
            bits::lemma_zero(w.queues[p]);
        }
    } else {
        lemma_race(rs, ids, by, (n - 1) as nat);
        assert(mark_steps(&rs[n - 1], &rs[n - 1 + 1], by[n - 1], ids[by[n - 1]]));
        lemma_mark_step(&rs[0].waker, &rs[n - 1], &rs[n as int], ids, by[n - 1]);
    }
}

/// Tasks that are made ready at the same time are all made ready: however the
/// steps come to lie, in the end every one of them is ready, whoever was ready
/// still is, and the summary word is exact. Step `m` is made by mark `by[m]`.
pub proof fn law_no_interleaving_loses_a_mark(rs: Seq<Race>, ids: Seq<TaskId>, by: Seq<int>)
    requires
        rs.len() > 0,
        by.len() == rs.len() - 1,
        rs[0].waker.wf(),
        rs[0].marks.len() == ids.len(),
        forall|j: int| 0 <= j < ids.len() ==> #[trigger] rs[0].marks[j] is Idle,
        forall|k: int| 0 <= k < ids.len() ==> (#[trigger] ids[k]).prio() < PRIORITY_LEVELS,
        forall|m: int|
            0 <= m < by.len() ==> mark_steps(&rs[m], &rs[m + 1], #[trigger] by[m], ids[by[m]]),
        forall|j: int| 0 <= j < ids.len() ==> #[trigger] rs.last().marks[j] is Done,
    ensures
        rs.last().waker.wf(),
        ids.len() > 0 ==> rs.last().waker.pend,
        forall|j: int|
            0 <= j < ids.len() ==> rs.last().waker.ready(
                (#[trigger] ids[j]).prio(),
                ids[j].idx() % 32,
            ),
        forall|p: int, i: int| #[trigger]
            rs[0].waker.ready(p, i) ==> rs.last().waker.ready(p, i),
{
    lemma_race(rs, ids, by, (rs.len() - 1) as nat);
    let w = rs.last().waker;
    assert forall|j: int| 0 <= j < ids.len() implies w.ready(
        (#[trigger] ids[j]).prio(),
        ids[j].idx() % 32,
    ) by {
        assert(rs.last().marks[j] is Done);
    }
    if ids.len() > 0 {
        assert(rs.last().marks[0] is Done);
    }
    assert forall|p: int| 0 <= p < PRIORITY_LEVELS implies #[trigger] bit(w.bitmap, p) == (
    w.queues[p] != 0) by {
        bits::lemma_zero(w.queues[p]);
        if w.queues[p] != 0 {
            let i = choose|i: int| bit(w.queues[p], i);
            assert(w.ready(p, i));
        }
    }
}

/// A task that is woken is ready until it is taken; what is taken is the ready
/// task of the highest priority, and of those the one with the lowest index.
pub proof fn law_woken_task_is_taken(
    a: &mut WakerState,
    b: &mut WakerState,
    id: TaskId,
    r: Option<TaskId>,
)
    requires
        call_ensures(mark_ready, (a, id), ()),
        old(a).wf(),
        0 <= id.prio() < PRIORITY_LEVELS,
        id.idx() < 32,
        *old(b) == *final(a),
        call_ensures(next_ready, (b,), r),
    ensures
        final(a).ready(id.prio(), id.idx()),
        r is Some,
        r->0.prio() > id.prio() || (r->0.prio() == id.prio() && r->0.idx() <= id.idx()),
        r->0 == id || old(a).ready(r->0.prio(), r->0.idx()),
        r->0 != id ==> final(b).ready(id.prio(), id.idx()),
        !final(b).ready(r->0.prio(), r->0.idx()),
        forall|p: int, i: int|
            #[trigger] old(a).ready(p, i) && !(p == r->0.prio() && i == r->0.idx())
                ==> final(b).ready(p, i),
        forall|p: int, i: int| #[trigger] final(b).ready(p, i) ==> p < r->0.prio() || (p
            == r->0.prio() && i > r->0.idx()),
{
    assert(final(a).ready(id.prio(), id.idx()));
    let got = r->0;
    crate::task::law_identity_is_a_pair(got, id);
    assert(old(b).ready(got.prio(), got.idx()));
    assert(final(a).ready(got.prio(), got.idx()));
    assert forall|p: int, i: int| #[trigger] final(b).ready(p, i) implies p < got.prio() || (p
        == got.prio() && i > got.idx()) by {
        assert(old(b).ready(p, i));
    }
    assert forall|p: int, i: int|
        #[trigger] old(a).ready(p, i) && !(p == got.prio() && i == got.idx())
            implies final(b).ready(p, i) by {
        assert(final(a).ready(p, i));
    }
}

/// There is work exactly if a task is ready or was announced, and announcing
/// lasts until a round begins.
pub proof fn law_pending_work_is_seen(
    a: &mut WakerState,
    b: &mut WakerState,
    id: TaskId,
    before: bool,
    after: bool,
)
    requires
        call_ensures(has_pending, (&*old(a),), before),
        call_ensures(mark_ready, (a, id), ()),
        old(a).wf(),
        0 <= id.prio() < PRIORITY_LEVELS,
        id.idx() < 32,
        *old(b) == *final(a),
        call_ensures(clear_pend, (b,), ()),
        call_ensures(has_pending, (&*final(b),), after),
    ensures
        final(a).pend,
        !final(b).pend,
        after,
        before <==> old(a).pend || exists|p: int, i: int| old(a).ready(p, i),
{
    assert(final(a).ready(id.prio(), id.idx()));
    assert(final(b).ready(id.prio(), id.idx()));
    assert(final(b).wf());
}

/// A wake from outside tells every other hart.
pub proof fn law_wake_tells_other_harts(w: &mut WakerState, h: &mut Harts, id: TaskId, x: int)
    requires
        call_ensures(wake_task, (w, h, id), ()),
        0 <= id.prio() < PRIORITY_LEVELS,
        id.idx() < 32,
        0 <= x < crate::config::MAX_HARTS,
    ensures
        final(w).ready(id.prio(), id.idx()),
        x != old(h).hart ==> final(h).resched[x],
        x == old(h).hart ==> final(h).resched[x] == old(h).resched[x],
{
    assert(final(w).ready(id.prio(), id.idx()));
}

/// After a reset no task is ready and no work is announced.
pub proof fn law_reset_forgets_everything(
    w0: &mut WakerState,
    w1: &mut WakerState,
    work: bool,
    r: Option<TaskId>,
)
    requires
        call_ensures(reset, (w0,), ()),
        call_ensures(has_pending, (&*final(w0),), work),
        *old(w1) == *final(w0),
        call_ensures(next_ready, (w1,), r),
    ensures
        !work,
        r is None,
{
}

} // verus!
