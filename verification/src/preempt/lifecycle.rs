//! Exit, join and stop.
use crate::port::arch;
use crate::preempt::mutex::{self, inherits};
use crate::preempt::sched::{self, Preempt};
use crate::preempt::tcb::{SlotState, Tcb, MAX_PTASKS, NO_TASK};
use crate::preempt::TaskHandle;
use vstd::prelude::*;

verus! {

/// Why a task could not be joined.
#[derive(Clone, Copy, PartialEq, Eq, Structural, Debug)]
pub enum JoinError {
    /// The handle's slot is free or was taken again since.
    Stale,
    /// A task cannot join itself.
    SelfJoin,
    /// Another task waits for this one already.
    AlreadyJoined,
    /// The task was taken out of service before it exited, or left no value
    /// of the expected size.
    Faulted,
}

/// What one attempt to join brought.
pub enum JoinStep {
    /// The task exited with this value.
    Done(Vec<u8>),
    /// The join failed for good.
    Failed(JoinError),
    /// The task still runs: the caller gives up the processor, and goes on
    /// with [`join_resume`] when it runs next.
    Blocked,
}

/// Byte `i` of `v`, from the lowest.
pub open spec fn byte_of(v: u64, i: int) -> u8 {
    (v >> ((8 * i) as u64)) as u8
}

/// The slot of the running task after its entry returned `value`.
pub open spec fn exited(t: Tcb, post: Tcb, value: u64) -> bool {
    &&& forall|i: int|
        0 <= i < 32 ==> #[trigger] post.result_buf[i] == (if i < t.result_size {
            byte_of(value, i)
        } else {
            t.result_buf[i]
        })
    &&& post == (Tcb {
        result_buf: post.result_buf,
        exited: true,
        joiner: NO_TASK,
        ..t
    })
}

/// The running task's entry returned; `value` holds the first eight bytes of
/// what it returned. The value is stored, the task is marked as exited,
/// whoever joined it is woken, and the task is parked. Nothing but a request
/// to reschedule happens if no live task runs.
pub fn rivet_task_exit_core(p: &mut Preempt, value: u64)
    requires
        old(p).wf(),
    ensures
        final(p).wf(),
        inherits(old(p)) ==> inherits(final(p)),
        match old(p).running() {
            Some(me) if old(p).live(me as int) is Some => exists|mid: Preempt, woken: Preempt|
                {
                    &&& mid == (Preempt { tasks: mid.tasks, ..*old(p) })
                    &&& mid.tasks@ == old(p).tasks@.update(me as int, mid.tasks[me as int])
                    &&& exited(old(p).tasks[me as int], mid.tasks[me as int], value)
                    &&& #[trigger] sched::unblocked(
                        &mid,
                        &woken,
                        old(p).tasks[me as int].joiner as int,
                    )
                    &&& #[trigger] parked(&woken, final(p))
                },
            _ => parked(old(p), final(p)),
        },
{
    if let Some(me) = sched::current(p) {
        if me < MAX_PTASKS && p.tasks[me].used {
            let ghost pre = *p;
            let size: usize = p.tasks[me].result_size as usize;
            let mut slot = p.tasks[me];
            assert(pre.tasks[me as int].result_size <= 8);
            let mut i: usize = 0;
            while i < size
                invariant
                    i <= size,
                    size <= 8,
                    slot == (Tcb { result_buf: slot.result_buf, ..pre.tasks[me as int] }),
                    forall|j: int|
                        0 <= j < i ==> #[trigger] slot.result_buf[j] == byte_of(value, j),
                    forall|j: int|
                        i <= j < 32 ==> #[trigger] slot.result_buf[j]
                            == pre.tasks[me as int].result_buf[j],
                decreases size - i,
            {
                slot.result_buf[i] = (value >> ((8 * i) as u64)) as u8;
                i = i + 1;
            }
            let joiner: usize = slot.joiner;
            slot.exited = true;
            slot.joiner = NO_TASK;
            p.tasks[me] = slot;
            let ghost mid = *p;
            proof {
                sched::lemma_slot_annotated(pre, mid, me as int);
                if inherits(&pre) {
                    mutex::lemma_inherits_same(pre, mid);
                }
            }
            sched::unblock(p, joiner);
            let ghost woken = *p;
            park(p);
            proof {
                assert(exited(pre.tasks[me as int], mid.tasks[me as int], value));
                assert(sched::unblocked(&mid, &woken, joiner as int));
                assert(parked(&woken, p));
            }
            return ;
        }
    }
    park(p);
}

/// The running task was blocked, and the executing hart asked to reschedule.
pub open spec fn parked(pre: &Preempt, post: &Preempt) -> bool {
    &&& post.frame(pre)
    &&& post.ready_at == pre.ready_at
    &&& post.harts.resched@ == pre.harts.resched@.update(pre.harts.hart as int, true)
    &&& post.tasks@ == (match pre.running() {
        Some(id) if pre.live(id as int) is Some => pre.tasks@.update(
            id as int,
            (Tcb { state: SlotState::Blocked, ..pre.tasks[id as int] }),
        ),
        _ => pre.tasks@,
    })
}

/// Block the running task and ask for another one.
pub fn park(p: &mut Preempt)
    requires
        old(p).wf(),
    ensures
        final(p).wf(),
        inherits(old(p)) ==> inherits(final(p)),
        parked(old(p), final(p)),
{
    sched::block_current(p);
    let ghost mid = *p;
    arch::request_reschedule(&mut p.harts);
    proof {
        sched::lemma_same_slots(mid, *p);
        if inherits(&mid) {
            mutex::lemma_inherits_same(mid, *p);
        }
    }
}

/// Whether the running task was asked to stop.
pub fn should_stop(p: &Preempt) -> (r: bool)
    requires
        p.wf(),
    ensures
        r == (match p.running() {
            Some(me) => p.live(me as int) is Some && p.tasks[me as int].stop_requested,
            None => false,
        }),
{
    match sched::current(p) {
        Some(me) => me < MAX_PTASKS && p.tasks[me].used && p.tasks[me].stop_requested,
        None => false,
    }
}

/// The id under which the running task joins.
pub open spec fn joiner_id(p: &Preempt) -> usize {
    match p.running() {
        Some(me) => me,
        None => NO_TASK,
    }
}

/// A join that expects a value of `size` bytes gets it.
pub open spec fn hands_out(t: Tcb, size: usize) -> bool {
    t.exited && !t.taken && t.result_size == size
}

/// What an attempt to finish the join of slot `id` by `me` does: while the
/// task runs the caller is parked, and otherwise the registration is given
/// back and the value handed out. A value with a destructor is handed out once:
/// with it goes the duty to destroy it.
pub open spec fn join_attempted(
    pre: &Preempt,
    post: &Preempt,
    id: int,
    me: usize,
    size: usize,
    r: JoinStep,
) -> bool {
    let t = pre.tasks[id];
    if !t.exited && !t.faulted {
        r is Blocked && parked(pre, post)
    } else {
        &&& *post == (Preempt { tasks: post.tasks, ..*pre })
        &&& post.tasks@ == pre.tasks@.update(
            id,
            (Tcb {
                joiner: (if t.joiner == me {
                    NO_TASK
                } else {
                    t.joiner
                }),
                taken: t.taken || (hands_out(t, size) && t.result_drop != 0),
                result_drop: (if hands_out(t, size) {
                    0
                } else {
                    t.result_drop
                }),
                ..t
            }),
        )
        &&& if t.taken {
            r == JoinStep::Failed(JoinError::AlreadyJoined)
        } else if hands_out(t, size) {
            &&& r matches JoinStep::Done(v)
            &&& v@ == t.result_buf@.take(size as int)
        } else {
            r == JoinStep::Failed(JoinError::Faulted)
        }
    }
}

/// Go on with a join for which `me` is registered: `size` is the size of the
/// value that is expected.
pub fn join_resume(p: &mut Preempt, id: usize, me: usize, size: usize) -> (r: JoinStep)
    requires
        old(p).wf(),
        id < MAX_PTASKS,
    ensures
        final(p).wf(),
        inherits(old(p)) ==> inherits(final(p)),
        join_attempted(old(p), final(p), id as int, me, size, r),
{
    if !p.tasks[id].exited && !p.tasks[id].faulted {
        park(p);
        return JoinStep::Blocked;
    }
    let ghost pre = *p;
    let mut slot = p.tasks[id];
    if slot.joiner == me {
        slot.joiner = NO_TASK;
    }
    let taken = slot.taken;
    let done = slot.exited && !taken && slot.result_size as usize == size;
    if done {
        slot.taken = slot.result_drop != 0;
        slot.result_drop = 0;
    }
    p.tasks[id] = slot;
    proof {
        assert(p.tasks@ =~= pre.tasks@.update(id as int, p.tasks[id as int]));
        assert(pre.tasks[id as int].result_size <= 8);
        assert(pre.tasks[id as int].used || pre.tasks[id as int].result_drop == 0);
        sched::lemma_slot_annotated(pre, *p, id as int);
        if inherits(&pre) {
            mutex::lemma_inherits_same(pre, *p);
        }
    }
    if taken {
        return JoinStep::Failed(JoinError::AlreadyJoined);
    }
    if !done {
        return JoinStep::Failed(JoinError::Faulted);
    }
    let mut v: Vec<u8> = Vec::new();
    let mut i: usize = 0;
    while i < size
        invariant
            i <= size,
            size <= 8,
            v@ == slot.result_buf@.take(i as int),
        decreases size - i,
    {
        assert(slot.result_buf@.take(i + 1) =~= slot.result_buf@.take(i as int).push(
            slot.result_buf@[i as int],
        ));
        v.push(slot.result_buf[i]);
        i = i + 1;
    }
    JoinStep::Done(v)
}

/// Begin to join the task of `handle`, whose value has `size` bytes: the
/// running task registers as the one joiner that a task can have.
pub fn join_task(p: &mut Preempt, handle: &TaskHandle, size: usize) -> (r: JoinStep)
    requires
        old(p).wf(),
    ensures
        final(p).wf(),
        inherits(old(p)) ==> inherits(final(p)),
        if !handle.names(old(p)) {
            r == JoinStep::Failed(JoinError::Stale) && *final(p) == *old(p)
        } else if old(p).running() == Some(handle.id as usize) {
            r == JoinStep::Failed(JoinError::SelfJoin) && *final(p) == *old(p)
        } else if old(p).tasks[handle.id as int].joiner != NO_TASK || old(
            p,
        ).tasks[handle.id as int].taken {
            r == JoinStep::Failed(JoinError::AlreadyJoined) && *final(p) == *old(p)
        } else {
            exists|mid: Preempt|
                {
                    &&& mid == (Preempt { tasks: mid.tasks, ..*old(p) })
                    &&& mid.tasks@ == old(p).tasks@.update(
                        handle.id as int,
                        (Tcb { joiner: joiner_id(old(p)), ..old(p).tasks[handle.id as int] }),
                    )
                    &&& #[trigger] join_attempted(
                        &mid,
                        final(p),
                        handle.id as int,
                        joiner_id(old(p)),
                        size,
                        r,
                    )
                }
        },
{
    let id: usize = handle.id as usize;
    if !handle.is_valid(p) {
        return JoinStep::Failed(JoinError::Stale);
    }
    let ghost pre = *p;
    let me: usize = match sched::current(p) {
        Some(c) => c,
        None => NO_TASK,
    };
    if me == id {
        return JoinStep::Failed(JoinError::SelfJoin);
    }
    if p.tasks[id].joiner != NO_TASK || p.tasks[id].taken {
        return JoinStep::Failed(JoinError::AlreadyJoined);
    }
    p.tasks[id].joiner = me;
    let ghost mid = *p;
    proof {
        assert(mid.tasks@ =~= pre.tasks@.update(id as int, mid.tasks[id as int]));
        assert(pre.tasks[id as int].result_size <= 8);
        sched::lemma_slot_annotated(pre, mid, id as int);
        if inherits(&pre) {
            mutex::lemma_inherits_same(pre, mid);
        }
    }
    let r = join_resume(p, id, me, size);
    assert(join_attempted(&mid, p, handle.id as int, joiner_id(old(p)), size, r));
    r
}

/// A join gives back what the task returned: once a task whose value has
/// `size` bytes has exited with `value`, an attempt to join it yields the
/// first `size` bytes of `value`.
pub proof fn law_join_returns_exit_value(
    before: Tcb,
    pre: Preempt,
    post: Preempt,
    id: int,
    me: usize,
    value: u64,
    r: JoinStep,
)
    requires
        0 <= id < MAX_PTASKS,
        before.result_size <= 8,
        !before.taken,
        exited(before, pre.tasks[id], value),
        join_attempted(&pre, &post, id, me, before.result_size as usize, r),
    ensures
        r matches JoinStep::Done(v) && v@ == Seq::new(
            before.result_size as nat,
            |i: int| byte_of(value, i),
        ),
{
    let t = pre.tasks[id];
    let want = Seq::new(before.result_size as nat, |i: int| byte_of(value, i));
    assert forall|i: int| 0 <= i < before.result_size implies t.result_buf@[i] == want[i] by {
        assert(t.result_buf[i] == byte_of(value, i));
    }
    assert(t.result_buf@.take(before.result_size as int) =~= want);
}

/// A value with a destructor has one owner: once a join has handed it out, no
/// other join does, and the slot keeps no destructor for it.
pub proof fn law_value_is_handed_out_once(
    pre: Preempt,
    mid: Preempt,
    post: Preempt,
    id: int,
    first: usize,
    second: usize,
    size: usize,
    other_size: usize,
    a: JoinStep,
    b: JoinStep,
)
    requires
        0 <= id < MAX_PTASKS,
        pre.tasks[id].result_drop != 0,
        join_attempted(&pre, &mid, id, first, size, a),
        a is Done,
        join_attempted(&mid, &post, id, second, other_size, b),
    ensures
        mid.tasks[id].result_drop == 0,
        b == JoinStep::Failed(JoinError::AlreadyJoined),
{
    assert(mid.tasks[id] == mid.tasks@[id]);
}

/// No wakeup is lost: the task that joined is ready once the task that it waits
/// for has exited.
pub proof fn law_exit_wakes_joiner(mid: Preempt, woken: Preempt, post: Preempt, joiner: int)
    requires
        mid.live(joiner) is Some,
        mid.running() != Some(joiner as usize),
        sched::unblocked(&mid, &woken, joiner),
        parked(&woken, &post),
    ensures
        post.ready(joiner),
{
    assert(woken.tasks[joiner] == woken.tasks@[joiner]);
    assert(post.tasks[joiner] == post.tasks@[joiner]);
}

/// The bytes of a value, from the lowest: together they make up the value.
pub proof fn law_bytes_make_up_the_value(v: u64)
    ensures
        v == byte_of(v, 0) + byte_of(v, 1) * 0x100 + byte_of(v, 2) * 0x1_0000 + byte_of(v, 3)
            * 0x100_0000 + byte_of(v, 4) * 0x1_0000_0000 + byte_of(v, 5) * 0x100_0000_0000
            + byte_of(v, 6) * 0x1_0000_0000_0000 + byte_of(v, 7) * 0x100_0000_0000_0000,
{
    assert(v == ((v >> 0u64) as u8) as u64 + ((v >> 8u64) as u8) as u64 * 0x100 + ((v
        >> 16u64) as u8) as u64 * 0x1_0000 + ((v >> 24u64) as u8) as u64 * 0x100_0000 + ((v
        >> 32u64) as u8) as u64 * 0x1_0000_0000 + ((v >> 40u64) as u8) as u64 * 0x100_0000_0000
        + ((v >> 48u64) as u8) as u64 * 0x1_0000_0000_0000 + ((v >> 56u64) as u8) as u64
        * 0x100_0000_0000_0000) by (bit_vector);
}

/// A join that comes after the exit hands out the value that the task returned:
/// its bytes, from the lowest, make up the value.
pub proof fn law_join_hands_out_the_value(
    p: &mut Preempt,
    q: &mut Preempt,
    value: u64,
    me: usize,
    by: usize,
    r: JoinStep,
)
    requires
        call_ensures(rivet_task_exit_core, (p, value), ()),
        old(p).wf(),
        old(p).running() == Some(me),
        old(p).live(me as int) is Some,
        !old(p).tasks[me as int].taken,
        old(p).tasks[me as int].result_size == 8,
        *old(q) == *final(p),
        call_ensures(join_resume, (q, me, by, 8), r),
    ensures
        final(p).tasks[me as int].exited,
        final(p).tasks[me as int].state == SlotState::Blocked,
        r is Done,
        r->Done_0@.len() == 8,
        value == r->Done_0@[0] + r->Done_0@[1] * 0x100 + r->Done_0@[2] * 0x1_0000 + r->Done_0@[3]
            * 0x100_0000 + r->Done_0@[4] * 0x1_0000_0000 + r->Done_0@[5] * 0x100_0000_0000
            + r->Done_0@[6] * 0x1_0000_0000_0000 + r->Done_0@[7] * 0x100_0000_0000_0000,
{
    let x = me as int;
    let (mid, woken) = choose|mid: Preempt, woken: Preempt|
        {
            &&& mid == (Preempt { tasks: mid.tasks, ..*old(p) })
            &&& mid.tasks@ == old(p).tasks@.update(x, mid.tasks[x])
            &&& exited(old(p).tasks[x], mid.tasks[x], value)
            &&& #[trigger] sched::unblocked(&mid, &woken, old(p).tasks[x].joiner as int)
            &&& #[trigger] parked(&woken, final(p))
        };
    assert(mid.tasks@[x] == mid.tasks[x]);
    assert(woken.tasks@[x] == woken.tasks[x]);
    assert(final(p).tasks@[x] == final(p).tasks[x]);
    let t = final(p).tasks[x];
    assert(t.result_buf == mid.tasks[x].result_buf);
    assert forall|i: int| 0 <= i < 8 implies #[trigger] r->Done_0@[i] == byte_of(value, i) by {
        assert(r->Done_0@[i] == t.result_buf@[i]);
        assert(mid.tasks[x].result_buf[i] == byte_of(value, i));
    }
    law_bytes_make_up_the_value(value);
}

/// A join of a task that still runs waits, and one of a task that faulted fails.
pub proof fn law_join_waits_for_the_exit(
    p: &mut Preempt,
    id: usize,
    me: usize,
    size: usize,
    r: JoinStep,
)
    requires
        call_ensures(join_resume, (p, id, me, size), r),
        id < MAX_PTASKS,
    ensures
        r is Blocked <==> !old(p).tasks[id as int].exited && !old(p).tasks[id as int].faulted,
        r is Done ==> old(p).tasks[id as int].exited && old(p).tasks[id as int].result_size == size,
        old(p).tasks[id as int].exited && !old(p).tasks[id as int].taken && old(
            p,
        ).tasks[id as int].result_size == size ==> r is Done,
        old(p).tasks[id as int].faulted && !old(p).tasks[id as int].exited && !old(
            p,
        ).tasks[id as int].taken ==> r == JoinStep::Failed(JoinError::Faulted),
{
}

/// A join is refused for a stale handle, for oneself, and where another task
/// has joined already; otherwise the caller is the task's joiner while it
/// waits.
pub proof fn law_one_task_joins(p: &mut Preempt, h: TaskHandle, size: usize, r: JoinStep, me: usize)
    requires
        call_ensures(join_task, (p, &h, size), r),
        old(p).wf(),
        old(p).running() == Some(me),
    ensures
        r == JoinStep::Failed(JoinError::Stale) <==> !h.names(old(p)),
        h.names(old(p)) && me == h.id ==> r == JoinStep::Failed(JoinError::SelfJoin),
        h.names(old(p)) && me != h.id && old(p).tasks[h.id as int].joiner != NO_TASK ==> r
            == JoinStep::Failed(JoinError::AlreadyJoined),
        r is Blocked ==> final(p).tasks[h.id as int].joiner == me && (old(p).live(
            me as int,
        ) is Some ==> final(p).tasks[me as int].state == SlotState::Blocked),
{
    if r is Blocked {
        let mid = choose|mid: Preempt|
            {
                &&& mid == (Preempt { tasks: mid.tasks, ..*old(p) })
                &&& mid.tasks@ == old(p).tasks@.update(
                    h.id as int,
                    (Tcb { joiner: joiner_id(old(p)), ..old(p).tasks[h.id as int] }),
                )
                &&& #[trigger] join_attempted(
                    &mid,
                    final(p),
                    h.id as int,
                    joiner_id(old(p)),
                    size,
                    r,
                )
            };
        assert(mid.tasks@[h.id as int] == mid.tasks[h.id as int]);
        assert(mid.tasks@[me as int] == mid.tasks[me as int]);
        assert(final(p).tasks@[h.id as int] == final(p).tasks[h.id as int]);
        assert(final(p).tasks@[me as int] == final(p).tasks[me as int]);
    }
}

/// A task that was asked to stop finds out, and one that was not does not.
pub proof fn law_stop_request_is_seen(
    p: &mut Preempt,
    h: TaskHandle,
    r: bool,
    before: bool,
    after: bool,
    me: usize,
)
    requires
        call_ensures(should_stop, (&*old(p),), before),
        call_ensures(TaskHandle::request_stop, (&h, p), r),
        call_ensures(should_stop, (&*final(p),), after),
        old(p).wf(),
        old(p).running() == Some(me),
        old(p).live(me as int) is Some,
    ensures
        r == h.names(old(p)),
        before == old(p).tasks[me as int].stop_requested,
        r && h.id == me ==> after,
        !r || h.id != me ==> after == before,
{
    assert(final(p).tasks@[me as int] == final(p).tasks[me as int]);
}

/// A join hands out as many bytes of the returned value as the value has, from
/// the lowest, and a second one finds them gone if they had to be destroyed.
pub proof fn law_join_hands_out_the_bytes(
    p: &mut Preempt,
    q: &mut Preempt,
    value: u64,
    me: usize,
    by: usize,
    size: usize,
    r: JoinStep,
    i: int,
)
    requires
        call_ensures(rivet_task_exit_core, (p, value), ()),
        old(p).wf(),
        old(p).running() == Some(me),
        old(p).live(me as int) is Some,
        !old(p).tasks[me as int].taken,
        old(p).tasks[me as int].result_size == size,
        *old(q) == *final(p),
        call_ensures(join_resume, (q, me, by, size), r),
        0 <= i < size,
    ensures
        size <= 8,
        r is Done,
        r->Done_0@.len() == size,
        r->Done_0@[i] == byte_of(value, i),
        final(q).tasks[me as int].result_drop == 0,
        final(q).tasks[me as int].taken == (old(p).tasks[me as int].result_drop != 0),
{
    let x = me as int;
    let (mid, woken) = choose|mid: Preempt, woken: Preempt|
        {
            &&& mid == (Preempt { tasks: mid.tasks, ..*old(p) })
            &&& mid.tasks@ == old(p).tasks@.update(x, mid.tasks[x])
            &&& exited(old(p).tasks[x], mid.tasks[x], value)
            &&& #[trigger] sched::unblocked(&mid, &woken, old(p).tasks[x].joiner as int)
            &&& #[trigger] parked(&woken, final(p))
        };
    assert(old(p).tasks[x].result_size <= 8);
    assert(mid.tasks@[x] == mid.tasks[x]);
    assert(woken.tasks@[x] == woken.tasks[x]);
    assert(final(p).tasks@[x] == final(p).tasks[x]);
    assert(final(q).tasks@[x] == final(q).tasks[x]);
    let t = final(p).tasks[x];
    assert(t.result_buf == mid.tasks[x].result_buf);
    assert(r->Done_0@[i] == t.result_buf@[i]);
    assert(mid.tasks[x].result_buf[i] == byte_of(value, i));
}

} // verus!
