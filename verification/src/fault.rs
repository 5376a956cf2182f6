//! What happens when a task faults.
//!
//! Under [`FaultPolicy::Panic`] the fault is described and the machine is reset.
//! Under [`FaultPolicy::IsolateTask`] the faulting task is taken out of
//! service, every mutex that it holds is poisoned, and the next ready task
//! runs.
use crate::config::MAX_HARTS;
use crate::preempt::mutex::{self, inherits, rest_same, waits, MutexCore};
use crate::preempt::sched::{self, Preempt};
use crate::preempt::tcb::{HeldMutex, SlotState, TaskState, Tcb, MAX_HELD, MAX_PTASKS, NO_TASK};
use crate::text::{dec, hex, lemma_cat, lemma_cat_empty, lit, put_dec, put_hex, put_str};
use crate::timer::TimerQueue;
use vstd::prelude::*;

verus! {

/// Kinds of fault.
#[derive(Clone, Copy, PartialEq, Eq, Structural, Debug)]
pub enum FaultKind {
    /// An instruction could not be fetched.
    InstructionAccess,
    /// A load was refused.
    LoadAccess,
    /// A store was refused.
    StoreAccess,
    /// The memory protection unit refused an access; the status word says how.
    MemManage(u32),
    /// The task wrote past the end of its stack.
    StackOverflow,
    /// The task used more processor time than its period allows.
    BudgetExceeded,
}

/// A fault.
#[derive(Clone, Copy, PartialEq, Eq, Structural, Debug)]
pub struct FaultInfo {
    /// The task that was running.
    pub task_id: Option<usize>,
    /// Kind of fault.
    pub kind: FaultKind,
    /// Address of the refused access, 0 if there is none.
    pub address: usize,
    /// Address of the faulting instruction, 0 if unknown.
    pub pc: usize,
}

/// What to do about a fault.
#[derive(Clone, Copy, PartialEq, Eq, Structural, Debug)]
pub enum FaultPolicy {
    /// Describe the fault and end.
    Panic,
    /// Take the faulting task out of service and go on.
    IsolateTask,
}

/// The configured reaction to faults.
pub struct FaultState {
    /// The policy.
    pub policy: FaultPolicy,
    /// Owner's handle of the function to call when a task is isolated.
    pub hook: Option<usize>,
}

/// What the trap handler does next.
#[derive(Clone, Copy, PartialEq, Eq, Structural, Debug)]
pub enum FaultAction {
    /// Reset the machine.
    Reset,
    /// Call the hook with the isolated task and the fault, then [`resume_next`].
    CallHook {
        /// The hook.
        hook: usize,
        /// The task.
        task: usize,
        /// The fault.
        info: FaultInfo,
    },
    /// Resume from this stack pointer, on the stack that is described.
    Resume {
        /// Stack pointer.
        sp: usize,
        /// Lowest address of the stack.
        stack_base: usize,
        /// Bytes of the stack.
        stack_size: usize,
    },
}

impl FaultState {
    /// Reset on a fault; no hook.
    pub fn new() -> (r: Self)
        ensures
            r.policy == FaultPolicy::Panic,
            r.hook is None,
    {
        FaultState { policy: FaultPolicy::Panic, hook: None }
    }
}

/// Choose the policy.
pub fn set_policy(f: &mut FaultState, policy: FaultPolicy)
    ensures
        final(f).policy == policy,
        final(f).hook == old(f).hook,
{
    f.policy = policy;
}

/// Choose the function that is called when a task is isolated.
pub fn set_on_task_fault(f: &mut FaultState, hook: usize)
    ensures
        final(f).policy == old(f).policy,
        final(f).hook == Some(hook),
{
    f.hook = Some(hook);
}

/// The name of a kind of fault.
pub open spec fn kind_name(kind: FaultKind) -> Seq<u8> {
    match kind {
        FaultKind::InstructionAccess => lit("instruction-access"),
        FaultKind::LoadAccess => lit("load-access"),
        FaultKind::StoreAccess => lit("store-access"),
        FaultKind::MemManage(_) => lit("memmanage"),
        FaultKind::StackOverflow => lit("stack-overflow"),
        FaultKind::BudgetExceeded => lit("budget-exceeded"),
    }
}

/// The description of a fault.
pub open spec fn dump_text(info: FaultInfo) -> Seq<u8> {
    lit("\nRIVET FAULT: ") + kind_name(info.kind) + lit(" addr=0x") + hex(info.address as nat, 8)
        + lit(" pc=0x") + hex(info.pc as nat, 8) + (match info.task_id {
        Some(id) => lit(" task=") + dec(id as nat),
        None => Seq::empty(),
    }) + lit("\n")
}

/// The stack line of one task, empty if the slot is free or its stack is not
/// known.
pub open spec fn stack_line(t: Tcb, id: nat, used: nat) -> Seq<u8> {
    if t.used && t.stack_base != 0 && t.stack_size != 0 {
        lit("  task ") + dec(id) + lit(" stack ") + dec(used) + lit("/") + dec(
            t.stack_size as nat,
        ) + lit("\n")
    } else {
        Seq::empty()
    }
}

/// The stack lines of the first `n` tasks.
pub open spec fn stack_lines(tasks: Seq<Tcb>, used: Seq<usize>, n: nat) -> Seq<u8>
    decreases n,
{
    if n == 0 {
        Seq::empty()
    } else {
        stack_lines(tasks, used, (n - 1) as nat) + stack_line(
            tasks[n - 1],
            (n - 1) as nat,
            used[n - 1] as nat,
        )
    }
}

/// Everything that is said of a fault that ends the system.
pub open spec fn last_words(p: &Preempt, used: Seq<usize>, info: FaultInfo) -> Seq<u8> {
    dump_text(info) + stack_lines(p.tasks@, used, MAX_PTASKS as nat)
}

/// Describe a fault.
pub fn dump(out: &mut Vec<u8>, info: &FaultInfo)
    ensures
        final(out)@ == old(out)@ + dump_text(*info),
{
    let ghost start = out@;
    put_str(out, "\nRIVET FAULT: ");
    let ghost mut said = lit("\nRIVET FAULT: ");
    match info.kind {
        FaultKind::InstructionAccess => put_str(out, "instruction-access"),
        FaultKind::LoadAccess => put_str(out, "load-access"),
        FaultKind::StoreAccess => put_str(out, "store-access"),
        FaultKind::MemManage(_) => put_str(out, "memmanage"),
        FaultKind::StackOverflow => put_str(out, "stack-overflow"),
        FaultKind::BudgetExceeded => put_str(out, "budget-exceeded"),
    }
    proof {
        lemma_cat(start, said, kind_name(info.kind));
        said = said + kind_name(info.kind);
    }
    put_str(out, " addr=0x");
    put_hex(out, info.address as u64);
    proof {
        lemma_cat(start, said, lit(" addr=0x"));
        said = said + lit(" addr=0x");
        lemma_cat(start, said, hex(info.address as nat, 8));
        said = said + hex(info.address as nat, 8);
    }
    put_str(out, " pc=0x");
    put_hex(out, info.pc as u64);
    proof {
        lemma_cat(start, said, lit(" pc=0x"));
        said = said + lit(" pc=0x");
        lemma_cat(start, said, hex(info.pc as nat, 8));
        said = said + hex(info.pc as nat, 8);
    }
    if let Some(id) = info.task_id {
        let ghost before = out@;
        put_str(out, " task=");
        put_dec(out, id as u64);
        proof {
            lemma_cat(before, lit(" task="), dec(id as nat));
            lemma_cat(start, said, lit(" task=") + dec(id as nat));
            said = said + (lit(" task=") + dec(id as nat));
        }
    } else {
        proof {
            lemma_cat_empty(said);
            said = said + Seq::<u8>::empty();
        }
    }
    put_str(out, "\n");
    proof {
        lemma_cat(start, said, lit("\n"));
    }
}

/// Say how much of its stack a task has used.
fn put_stack_line(out: &mut Vec<u8>, t: &Tcb, id: usize, used: usize)
    ensures
        final(out)@ == old(out)@ + stack_line(*t, id as nat, used as nat),
{
    let ghost start = out@;
    if t.used && t.stack_base != 0 && t.stack_size != 0 {
        put_str(out, "  task ");
        let ghost mut said = lit("  task ");
        put_dec(out, id as u64);
        proof {
            lemma_cat(start, said, dec(id as nat));
            said = said + dec(id as nat);
        }
        put_str(out, " stack ");
        proof {
            lemma_cat(start, said, lit(" stack "));
            said = said + lit(" stack ");
        }
        put_dec(out, used as u64);
        proof {
            lemma_cat(start, said, dec(used as nat));
            said = said + dec(used as nat);
        }
        put_str(out, "/");
        proof {
            lemma_cat(start, said, lit("/"));
            said = said + lit("/");
        }
        put_dec(out, t.stack_size as u64);
        proof {
            lemma_cat(start, said, dec(t.stack_size as nat));
            said = said + dec(t.stack_size as nat);
        }
        put_str(out, "\n");
        proof {
            lemma_cat(start, said, lit("\n"));
        }
    } else {
        proof {
            lemma_cat_empty(start);
        }
    }
}

/// Describe a fault, and how much of its stack each task has used (`used`),
/// and ask for a reset.
fn panic_policy(
    p: &Preempt,
    out: &mut Vec<u8>,
    used: &[usize; MAX_PTASKS],
    info: &FaultInfo,
) -> (r: FaultAction)
    ensures
        final(out)@ == old(out)@ + last_words(p, used@, *info),
        r == FaultAction::Reset,
{
    dump(out, info);
    let ghost start = out@;
    let mut id: usize = 0;
    proof {
        lemma_cat_empty(start);
    }
    while id < MAX_PTASKS
        invariant
            id <= MAX_PTASKS,
            out@ == start + stack_lines(p.tasks@, used@, id as nat),
            used@.len() == MAX_PTASKS,
        decreases MAX_PTASKS - id,
    {
        put_stack_line(out, &p.tasks[id], id, used[id]);
        proof {
            lemma_cat(
                start,
                stack_lines(p.tasks@, used@, id as nat),
                stack_line(p.tasks@[id as int], id as nat, used@[id as int] as nat),
            );
        }
        id = id + 1;
    }
    proof {
        lemma_cat(
            old(out)@,
            dump_text(*info),
            stack_lines(p.tasks@, used@, MAX_PTASKS as nat),
        );
    }
    FaultAction::Reset
}

/// The first `n` entries of a held list name mutex `m`.
pub open spec fn names_within(held: Seq<HeldMutex>, m: int, n: int) -> bool {
    exists|j: int| 0 <= j < n && (#[trigger] held[j]).mutex is Some && held[j].mutex->0 == m
}

/// Task `x` waits for a mutex that the first `n` entries of a held list name.
pub open spec fn waits_on_any(p: &Preempt, held: Seq<HeldMutex>, x: int, n: int) -> bool {
    exists|m: int|
        0 <= m < p.mutexes@.len() && #[trigger] names_within(held, m, n) && waits(p.mutexes@[m], x)
}

/// The lock word of a mutex of the list: poisoned and without waiters. Other
/// mutexes are as they were.
pub open spec fn word_after(pre: MutexCore, post: MutexCore, named: bool) -> bool {
    if named {
        &&& post.poisoned
        &&& post.locked == pre.locked
        &&& post.owner == pre.owner
        &&& forall|i: int| 0 <= i < MAX_PTASKS ==> #[trigger] post.waiters[i] == NO_TASK
    } else {
        post == pre
    }
}

/// The mutexes of the first `n` entries of a held list were poisoned and their
/// waiters woken.
pub open spec fn poisoned_within(
    pre: &Preempt,
    post: &Preempt,
    pre_t: &TimerQueue,
    post_t: &TimerQueue,
    held: Seq<HeldMutex>,
    n: int,
) -> bool {
    &&& rest_same(pre, post)
    &&& post.mutexes@.len() == pre.mutexes@.len()
    &&& forall|m: int|
        0 <= m < pre.mutexes@.len() ==> word_after(
            pre.mutexes@[m],
            #[trigger] post.mutexes@[m],
            names_within(held, m, n),
        )
    &&& forall|x: int|
        0 <= x < MAX_PTASKS ==> #[trigger] post.tasks[x] == (if waits_on_any(pre, held, x, n)
            && pre.tasks[x].used {
            Tcb { state: SlotState::Ready, ..pre.tasks[x] }
        } else {
            pre.tasks[x]
        })
    &&& forall|x: int|
        0 <= x < MAX_PTASKS ==> #[trigger] post.ready_at[x] == (if waits_on_any(pre, held, x, n)
            && pre.tasks[x].used {
            pre.cycle
        } else {
            pre.ready_at[x]
        })
    &&& forall|h: int|
        0 <= h < MAX_HARTS ==> #[trigger] post.harts.resched[h] == (pre.harts.resched[h] || (h
            != pre.harts.hart && exists|x: int|
            #[trigger] waits_on_any(pre, held, x, n) && pre.live(x) is Some))
    &&& post_t.slots == pre_t.slots
    &&& post_t.next == pre_t.next
    &&& forall|x: int|
        0 <= x < MAX_PTASKS ==> #[trigger] post_t.ptask[x] == (if waits_on_any(
            pre,
            held,
            x,
            n,
        ) {
            0
        } else {
            pre_t.ptask[x]
        })
}

/// One more entry of the list.
proof fn lemma_poisoned_step(
    pre: Preempt,
    mid: Preempt,
    post: Preempt,
    pre_t: TimerQueue,
    mid_t: TimerQueue,
    post_t: TimerQueue,
    held: Seq<HeldMutex>,
    n: int,
)
    requires
        0 <= n < held.len(),
        poisoned_within(&pre, &mid, &pre_t, &mid_t, held, n),
        held[n].mutex is Some ==> held[n].mutex->0 < pre.mutexes@.len() && mutex::poisoned(
            &mid,
            &post,
            &mid_t,
            &post_t,
            held[n].mutex->0 as int,
        ),
        held[n].mutex is None ==> post == mid && post_t == mid_t,
    ensures
        poisoned_within(&pre, &post, &pre_t, &post_t, held, n + 1),
{
    if held[n].mutex is None {
        assert forall|m: int| #[trigger] names_within(held, m, n + 1) == names_within(
            held,
            m,
            n,
        ) by {}
        assert forall|x: int| #[trigger] waits_on_any(&pre, held, x, n + 1) == waits_on_any(
            &pre,
            held,
            x,
            n,
        ) by {
            if waits_on_any(&pre, held, x, n) {
                let m = choose|m: int|
                    0 <= m < pre.mutexes@.len() && #[trigger] names_within(held, m, n) && waits(
                        pre.mutexes@[m],
                        x,
                    );
                assert(names_within(held, m, n + 1));
            }
            if waits_on_any(&pre, held, x, n + 1) {
                let m = choose|m: int|
                    0 <= m < pre.mutexes@.len() && #[trigger] names_within(held, m, n + 1)
                        && waits(pre.mutexes@[m], x);
                assert(names_within(held, m, n));
            }
        }
        assert((exists|x: int| #[trigger]
            waits_on_any(&pre, held, x, n + 1) && pre.live(x) is Some) == (exists|x: int| #[trigger]
            waits_on_any(&pre, held, x, n) && pre.live(x) is Some)) by {
            if exists|x: int| #[trigger] waits_on_any(&pre, held, x, n) && pre.live(x) is Some {
                let x = choose|x: int|
                    #[trigger] waits_on_any(&pre, held, x, n) && pre.live(x) is Some;
                assert(waits_on_any(&pre, held, x, n + 1));
            }
        }
        assert forall|m: int| 0 <= m < pre.mutexes@.len() implies word_after(
            pre.mutexes@[m],
            #[trigger] post.mutexes@[m],
            names_within(held, m, n + 1),
        ) by {
            assert(names_within(held, m, n + 1) == names_within(held, m, n));
        }
    } else {
        let k = held[n].mutex->0 as int;
        assert forall|m: int| #[trigger] names_within(held, m, n + 1) == (names_within(held, m, n)
            || m == k) by {
            if m == k {
                assert(held[n].mutex->0 == m);
            }
        }
        let marked = choose|marked: Preempt|
            {
                &&& marked == (Preempt { mutexes: marked.mutexes, ..mid })
                &&& marked.mutexes@ == mid.mutexes@.update(
                    k,
                    (MutexCore { poisoned: true, ..mid.mutexes@[k] }),
                )
                &&& #[trigger] mutex::all_woken(&marked, &post, &mid_t, &post_t, k)
            };
        let word = marked.mutexes@[k];
        // Whoever still waits for the mutex waited for it at the start, and
        // an entry that was seen before has no waiter left.
        assert forall|x: int| x < NO_TASK implies #[trigger] waits(word, x) == (waits(
            pre.mutexes@[k],
            x,
        ) && !names_within(held, k, n)) by {
            assert(word_after(pre.mutexes@[k], mid.mutexes@[k], names_within(held, k, n)));
            assert(word.waiters == mid.mutexes@[k].waiters);
            if !names_within(held, k, n) {
                assert(mid.mutexes@[k] == pre.mutexes@[k]);
                if waits(word, x) {
                    let i = choose|i: int| 0 <= i < MAX_PTASKS && #[trigger] word.waiters[i] == x;
                    assert(pre.mutexes@[k].waiters[i] == x);
                }
                if waits(pre.mutexes@[k], x) {
                    let i = choose|i: int|
                        0 <= i < MAX_PTASKS && #[trigger] pre.mutexes@[k].waiters[i] == x;
                    assert(word.waiters[i] == x);
                }
            } else {
                if waits(word, x) {
                    let i = choose|i: int| 0 <= i < MAX_PTASKS && #[trigger] word.waiters[i] == x;
                    assert(mid.mutexes@[k].waiters[i] == NO_TASK);
                }
            }
        }
        assert forall|x: int| x < NO_TASK implies #[trigger] waits_on_any(&pre, held, x, n + 1)
            == (waits_on_any(&pre, held, x, n) || waits(word, x)) by {
            if waits_on_any(&pre, held, x, n + 1) {
                let m = choose|m: int|
                    0 <= m < pre.mutexes@.len() && #[trigger] names_within(held, m, n + 1)
                        && waits(pre.mutexes@[m], x);
                if names_within(held, m, n) {
                    assert(waits_on_any(&pre, held, x, n));
                }
            }
            if waits_on_any(&pre, held, x, n) {
                let m = choose|m: int|
                    0 <= m < pre.mutexes@.len() && #[trigger] names_within(held, m, n) && waits(
                        pre.mutexes@[m],
                        x,
                    );
                assert(names_within(held, m, n + 1));
            }
            if waits(word, x) {
                assert(names_within(held, k, n + 1));
            }
        }
        assert forall|m: int| 0 <= m < pre.mutexes@.len() implies word_after(
            pre.mutexes@[m],
            #[trigger] post.mutexes@[m],
            names_within(held, m, n + 1),
        ) by {
            assert(word_after(pre.mutexes@[m], mid.mutexes@[m], names_within(held, m, n)));
            if m == k {
                assert forall|i: int| 0 <= i < MAX_PTASKS implies #[trigger]
                    post.mutexes@[m].waiters[i] == NO_TASK by {}
            }
        }
        assert forall|x: int| 0 <= x < MAX_PTASKS implies #[trigger] post.tasks[x] == (
        if waits_on_any(&pre, held, x, n + 1) && pre.tasks[x].used {
            Tcb { state: SlotState::Ready, ..pre.tasks[x] }
        } else {
            pre.tasks[x]
        }) by {
            assert(marked.tasks[x] == mid.tasks[x]);
            assert(waits(word, x) || !waits(word, x));
        }
        assert forall|x: int| 0 <= x < MAX_PTASKS implies #[trigger] post.ready_at[x] == (
        if waits_on_any(&pre, held, x, n + 1) && pre.tasks[x].used {
            pre.cycle
        } else {
            pre.ready_at[x]
        }) by {
            assert(marked.ready_at[x] == mid.ready_at[x]);
            assert(marked.tasks[x] == mid.tasks[x]);
            assert(waits(word, x) || !waits(word, x));
        }
        assert forall|x: int| 0 <= x < MAX_PTASKS implies #[trigger] post_t.ptask[x] == (
        if waits_on_any(&pre, held, x, n + 1) {
            0
        } else {
            pre_t.ptask[x]
        }) by {
            assert(mid_t.ptask[x] == mid_t.ptask[x]);
            assert(waits(word, x) || !waits(word, x));
        }
        assert forall|x: int| 0 <= x < MAX_PTASKS implies #[trigger] marked.live(x) is Some
            == pre.live(x) is Some by {
            assert(marked.tasks[x] == mid.tasks[x]);
        }
        assert forall|h: int| 0 <= h < MAX_HARTS implies #[trigger] post.harts.resched[h] == (
        pre.harts.resched[h] || (h != pre.harts.hart && exists|x: int|
            #[trigger] waits_on_any(&pre, held, x, n + 1) && pre.live(x) is Some)) by {
            assert(mid.harts.resched[h] == marked.harts.resched[h]);
            if exists|x: int| #[trigger] waits_on_any(&pre, held, x, n) && pre.live(x) is Some {
                let x = choose|x: int|
                    #[trigger] waits_on_any(&pre, held, x, n) && pre.live(x) is Some;
                assert(waits_on_any(&pre, held, x, n + 1));
            }
            let all = MAX_PTASKS as int;
            if exists|x: int| #[trigger]
                mutex::waits_within(word, x, all) && marked.live(x) is Some {
                let x = choose|x: int| #[trigger]
                    mutex::waits_within(word, x, all) && marked.live(x) is Some;
                assert(waits(word, x));
                assert(waits_on_any(&pre, held, x, n + 1));
            }
            if exists|x: int| #[trigger] waits_on_any(&pre, held, x, n + 1) && pre.live(x) is Some {
                let x = choose|x: int|
                    #[trigger] waits_on_any(&pre, held, x, n + 1) && pre.live(x) is Some;
                assert(waits_on_any(&pre, held, x, n) || waits(word, x));
                assert(marked.live(x) is Some);
                if waits(word, x) {
                    assert(mutex::waits_within(word, x, MAX_PTASKS as int));
                }
            }
        }
    }
}

/// Poison every mutex that task `id` holds and wake their waiters.
fn poison_held(p: &mut Preempt, t: &mut TimerQueue, id: usize)
    requires
        old(p).wf(),
        old(t).wf(),
        id < MAX_PTASKS,
    ensures
        final(p).wf(),
        final(t).wf(),
        poisoned_within(
            old(p),
            final(p),
            old(t),
            final(t),
            old(p).tasks[id as int].held@,
            MAX_HELD as int,
        ),
        inherits(old(p)) ==> inherits(final(p)),
{
    let ghost pre = *p;
    let ghost pre_t = *t;
    let held = p.tasks[id].held;
    let mut i: usize = 0;
    assert(poisoned_within(&pre, p, &pre_t, t, held@, 0)) by {
        assert forall|m: int| !(#[trigger] names_within(held@, m, 0)) by {}
        assert forall|x: int| !(#[trigger] waits_on_any(&pre, held@, x, 0)) by {}
    }
    while i < MAX_HELD
        invariant
            i <= MAX_HELD,
            p.wf(),
            t.wf(),
            held@.len() == MAX_HELD,
            forall|j: int|
                0 <= j < MAX_HELD ==> ((#[trigger] held[j]).mutex matches Some(m) ==> m
                    < pre.mutexes@.len()),
            poisoned_within(&pre, p, &pre_t, t, held@, i as int),
            inherits(&pre) ==> inherits(p),
        decreases MAX_HELD - i,
    {
        let ghost mid = *p;
        let ghost mid_t = *t;
        assert(held@[i as int] == held[i as int]);
        if let Some(m) = held[i].mutex {
            mutex::poison_mutex(p, t, m);
        }
        proof {
            lemma_poisoned_step(pre, mid, *p, pre_t, mid_t, *t, held@, i as int);
        }
        i = i + 1;
    }
}

/// Task `faulting` was taken out of service: the mutexes of its held list are
/// poisoned, their waiters woken, the task is blocked and marked, and whoever
/// waits for its exit is woken. Nothing happens if the slot is free.
pub open spec fn isolated(
    pre: &Preempt,
    post: &Preempt,
    pre_t: &TimerQueue,
    post_t: &TimerQueue,
    faulting: int,
) -> bool {
    if pre.live(faulting) is Some {
        exists|mid: Preempt, marked: Preempt|
            {
                &&& #[trigger] poisoned_within(
                    pre,
                    &mid,
                    pre_t,
                    post_t,
                    pre.tasks[faulting].held@,
                    MAX_HELD as int,
                )
                &&& marked.frame(&mid)
                &&& marked.harts == mid.harts
                &&& marked.ready_at == mid.ready_at
                &&& marked.tasks@ == mid.tasks@.update(
                    faulting,
                    (Tcb {
                        state: SlotState::Blocked,
                        faulted: true,
                        joiner: NO_TASK,
                        ..mid.tasks[faulting]
                    }),
                )
                &&& #[trigger] sched::unblocked(
                    &marked,
                    post,
                    pre.tasks[faulting].joiner as int,
                )
            }
    } else {
        *post == *pre && *post_t == *pre_t
    }
}

/// The next ready task was put on the processor, or there was none.
pub open spec fn resumed(
    pre: &Preempt,
    post: &Preempt,
    said: Seq<u8>,
    used: Seq<usize>,
    info: FaultInfo,
    r: FaultAction,
) -> bool {
    if pre.any_ready() {
        exists|next: int|
            {
                &&& #[trigger] pre.is_next(next)
                &&& post.tasks@ == pre.tasks@.update(
                    next,
                    (Tcb { state: SlotState::Running, ..pre.tasks[next] }),
                )
                &&& post.running() == Some(next as usize)
                &&& post.current@ == pre.current@.update(pre.harts.hart as int, next as usize)
                &&& post.dispatch_counter == pre.dispatch_counter
                &&& post.dispatch_seq == pre.dispatch_seq
                &&& post.mutexes == pre.mutexes
                &&& post.harts == pre.harts
                &&& post.ready_at == pre.ready_at
                &&& post.cycle == pre.cycle
                &&& r == FaultAction::Resume {
                    sp: pre.tasks[next].sp,
                    stack_base: pre.tasks[next].stack_base,
                    stack_size: pre.tasks[next].stack_size,
                }
                &&& said == Seq::<u8>::empty()
            }
    } else {
        &&& *post == *pre
        &&& r == FaultAction::Reset
        &&& said == last_words(pre, used, info)
    }
}

/// Put the next ready task on the processor after a task was isolated; end if
/// there is none.
pub fn resume_next(
    p: &mut Preempt,
    out: &mut Vec<u8>,
    used: &[usize; MAX_PTASKS],
    info: &FaultInfo,
) -> (r: FaultAction)
    requires
        old(p).wf(),
    ensures
        final(p).wf(),
        inherits(old(p)) ==> inherits(final(p)),
        exists|said: Seq<u8>|
            final(out)@ == old(out)@ + said && #[trigger] resumed(
                old(p),
                final(p),
                said,
                used@,
                *info,
                r,
            ),
{
    match sched::schedule(p) {
        Some(next) => {
            assert(p.ready(next as int));
            Tcb::set_state(p, next, TaskState::Running);
            sched::set_current(p, next);
            let t = p.tasks[next];
            let r = FaultAction::Resume {
                sp: t.sp,
                stack_base: t.stack_base,
                stack_size: t.stack_size,
            };
            proof {
                assert(old(p).is_next(next as int));
                assert(out@ =~= old(out)@ + Seq::<u8>::empty());
                assert(resumed(old(p), p, Seq::empty(), used@, *info, r));
            }
            r
        },
        None => {
            let r = panic_policy(p, out, used, info);
            assert(resumed(old(p), p, last_words(old(p), used@, *info), used@, *info, r));
            r
        },
    }
}

/// Everything that handling a fault does, in terms of what is said (`said`).
pub open spec fn handled(
    f: &FaultState,
    pre: &Preempt,
    post: &Preempt,
    pre_t: &TimerQueue,
    post_t: &TimerQueue,
    said: Seq<u8>,
    used: Seq<usize>,
    info: FaultInfo,
    r: FaultAction,
) -> bool {
    match (f.policy, info.task_id) {
        (FaultPolicy::Panic, _) => {
            &&& *post == *pre
            &&& *post_t == *pre_t
            &&& r == FaultAction::Reset
            &&& said == last_words(pre, used, info)
        },
        // There is no task to isolate: the fault is described once more.
        (FaultPolicy::IsolateTask, None) => {
            &&& *post == *pre
            &&& *post_t == *pre_t
            &&& r == FaultAction::Reset
            &&& said == dump_text(info) + last_words(pre, used, info)
        },
        (FaultPolicy::IsolateTask, Some(task)) => exists|mid: Preempt|
            {
                &&& #[trigger] isolated(pre, &mid, pre_t, post_t, task as int)
                &&& match f.hook {
                    Some(hook) => {
                        &&& *post == mid
                        &&& r == FaultAction::CallHook { hook, task, info }
                        &&& said == dump_text(info)
                    },
                    None => exists|more: Seq<u8>|
                        said == dump_text(info) + more && #[trigger] resumed(
                            &mid,
                            post,
                            more,
                            used,
                            info,
                            r,
                        ),
                }
            },
    }
}

/// Handle a fault. What is said of it is appended to `out`; `used` is how much
/// of its stack each task has used.
pub fn on_fault(
    f: &FaultState,
    p: &mut Preempt,
    t: &mut TimerQueue,
    out: &mut Vec<u8>,
    used: &[usize; MAX_PTASKS],
    info: &FaultInfo,
) -> (r: FaultAction)
    requires
        old(p).wf(),
        old(t).wf(),
    ensures
        final(p).wf(),
        final(t).wf(),
        exists|said: Seq<u8>|
            final(out)@ == old(out)@ + said && #[trigger] handled(
                f,
                old(p),
                final(p),
                old(t),
                final(t),
                said,
                used@,
                *info,
                r,
            ),
        inherits(old(p)) ==> inherits(final(p)),
{
    match f.policy {
        FaultPolicy::IsolateTask => isolate(f, p, t, out, used, info),
        FaultPolicy::Panic => {
            let r = panic_policy(p, out, used, info);
            assert(handled(
                f,
                old(p),
                p,
                old(t),
                t,
                last_words(old(p), used@, *info),
                used@,
                *info,
                r,
            ));
            r
        },
    }
}

/// Take a task out of service.
fn take_out_of_service(p: &mut Preempt, t: &mut TimerQueue, faulting: usize)
    requires
        old(p).wf(),
        old(t).wf(),
    ensures
        final(p).wf(),
        final(t).wf(),
        isolated(old(p), final(p), old(t), final(t), faulting as int),
        inherits(old(p)) ==> inherits(final(p)),
{
    if faulting < MAX_PTASKS && p.tasks[faulting].used {
        poison_held(p, t, faulting);
        let ghost mid = *p;
        assert(p.tasks[faulting as int].used);
        Tcb::set_state(p, faulting, TaskState::Blocked);
        let ghost stopped = *p;
        let joiner: usize = p.tasks[faulting].joiner;
        p.tasks[faulting].faulted = true;
        p.tasks[faulting].joiner = NO_TASK;
        let ghost marked = *p;
        proof {
            assert(marked.tasks@ =~= stopped.tasks@.update(
                faulting as int,
                marked.tasks[faulting as int],
            ));
            sched::lemma_slot_annotated(stopped, marked, faulting as int);
            assert(marked.tasks@ =~= mid.tasks@.update(
                faulting as int,
                (Tcb {
                    state: SlotState::Blocked,
                    faulted: true,
                    joiner: NO_TASK,
                    ..mid.tasks[faulting as int]
                }),
            ));
        }
        sched::unblock(p, joiner);
        proof {
            assert(poisoned_within(
                old(p),
                &mid,
                old(t),
                t,
                old(p).tasks[faulting as int].held@,
                MAX_HELD as int,
            ));
            assert(sched::unblocked(&marked, p, joiner as int));
            assert(isolated(old(p), p, old(t), t, faulting as int));
            if inherits(&mid) {
                mutex::lemma_inherits_same(mid, *p);
            }
        }
    }
}

fn isolate(
    f: &FaultState,
    p: &mut Preempt,
    t: &mut TimerQueue,
    out: &mut Vec<u8>,
    used: &[usize; MAX_PTASKS],
    info: &FaultInfo,
) -> (r: FaultAction)
    requires
        old(p).wf(),
        old(t).wf(),
        f.policy == FaultPolicy::IsolateTask,
    ensures
        final(p).wf(),
        final(t).wf(),
        exists|said: Seq<u8>|
            final(out)@ == old(out)@ + said && #[trigger] handled(
                f,
                old(p),
                final(p),
                old(t),
                final(t),
                said,
                used@,
                *info,
                r,
            ),
        inherits(old(p)) ==> inherits(final(p)),
{
    dump(out, info);
    let ghost start = old(out)@;
    let faulting: usize = match info.task_id {
        Some(id) => id,
        None => {
            let r = panic_policy(p, out, used, info);
            let ghost said = dump_text(*info) + last_words(old(p), used@, *info);
            assert(out@ =~= start + said);
            assert(handled(f, old(p), p, old(t), t, said, used@, *info, r));
            return r;
        },
    };
    take_out_of_service(p, t, faulting);
    let ghost mid = *p;
    if let Some(hook) = f.hook {
        let r = FaultAction::CallHook { hook, task: faulting, info: *info };
        assert(handled(f, old(p), p, old(t), t, dump_text(*info), used@, *info, r));
        return r;
    }
    let ghost before = out@;
    let r = resume_next(p, out, used, info);
    proof {
        let more = choose|more: Seq<u8>|
            out@ == before + more && #[trigger] resumed(&mid, p, more, used@, *info, r);
        let said = dump_text(*info) + more;
        assert(out@ =~= start + said);
        assert(resumed(&mid, p, more, used@, *info, r));
        assert(handled(f, old(p), p, old(t), t, said, used@, *info, r));
        if inherits(&mid) {
            mutex::lemma_inherits_same(mid, *p);
        }
    }
    r
}

/// Isolation poisons every mutex that the task held: nobody can take one of
/// them any more, and nobody is left waiting for one.
pub proof fn law_isolation_poisons(
    pre: Preempt,
    post: Preempt,
    pre_t: TimerQueue,
    post_t: TimerQueue,
    task: int,
    i: int,
)
    requires
        isolated(&pre, &post, &pre_t, &post_t, task),
        pre.wf(),
        pre.live(task) is Some,
        0 <= i < MAX_HELD,
        pre.tasks[task].held[i].mutex is Some,
    ensures
        post.mutexes@[pre.tasks[task].held[i].mutex->0 as int].poisoned,
        mutex::no_waiter(post.mutexes@[pre.tasks[task].held[i].mutex->0 as int]),
        post.tasks[task].faulted,
{
    let held = pre.tasks[task].held@;
    let m = pre.tasks[task].held[i].mutex->0 as int;
    let (mid, marked) = choose|mid: Preempt, marked: Preempt|
        {
            &&& #[trigger] poisoned_within(
                &pre,
                &mid,
                &pre_t,
                &post_t,
                pre.tasks[task].held@,
                MAX_HELD as int,
            )
            &&& marked.frame(&mid)
            &&& marked.harts == mid.harts
            &&& marked.ready_at == mid.ready_at
            &&& marked.tasks@ == mid.tasks@.update(
                task,
                (Tcb {
                    state: SlotState::Blocked,
                    faulted: true,
                    joiner: NO_TASK,
                    ..mid.tasks[task]
                }),
            )
            &&& #[trigger] sched::unblocked(&marked, &post, pre.tasks[task].joiner as int)
        };
    assert(held[i].mutex->0 == m);
    assert(names_within(held, m, MAX_HELD as int));
    assert(word_after(pre.mutexes@[m], mid.mutexes@[m], true));
    assert(marked.tasks[task] == marked.tasks@[task]);
    assert(post.tasks[task] == post.tasks@[task]);
}

/// Under the policy to reset, a fault resets the machine and changes nothing;
/// what is said begins with the description of the fault.
pub proof fn law_reset_policy_resets(
    f: &FaultState,
    p: &mut Preempt,
    t: &mut TimerQueue,
    out: &mut Vec<u8>,
    used: &[usize; MAX_PTASKS],
    info: &FaultInfo,
    r: FaultAction,
)
    requires
        call_ensures(on_fault, (f, p, t, out, used, info), r),
        f.policy == FaultPolicy::Panic || info.task_id is None,
    ensures
        r == FaultAction::Reset,
        *final(p) == *old(p),
        *final(t) == *old(t),
        exists|rest: Seq<u8>| #[trigger] ((old(out)@ + dump_text(*info)) + rest) == final(out)@,
{
    let said = choose|said: Seq<u8>|
        final(out)@ == old(out)@ + said && #[trigger] handled(
            f,
            old(p),
            final(p),
            old(t),
            final(t),
            said,
            used@,
            *info,
            r,
        );
    let rest = said.skip(dump_text(*info).len() as int);
    assert(said =~= dump_text(*info) + rest);
    assert(((old(out)@ + dump_text(*info)) + rest) =~= final(out)@);
}

/// Under the policy to isolate, the faulting task is blocked and marked, every
/// mutex that its list names is poisoned, and whoever joined it is woken. The
/// hook is called if there is one; without one the ready task of the highest
/// priority goes on, and the machine is reset only if none is ready.
pub proof fn law_faulting_task_is_isolated(
    f: &FaultState,
    p: &mut Preempt,
    t: &mut TimerQueue,
    out: &mut Vec<u8>,
    used: &[usize; MAX_PTASKS],
    info: &FaultInfo,
    r: FaultAction,
    task: usize,
    i: int,
)
    requires
        call_ensures(on_fault, (f, p, t, out, used, info), r),
        old(p).wf(),
        f.policy == FaultPolicy::IsolateTask,
        info.task_id == Some(task),
        old(p).live(task as int) is Some,
        old(p).tasks[task as int].joiner != task,
        0 <= i < MAX_HELD,
    ensures
        final(p).tasks[task as int].faulted,
        final(p).tasks[task as int].state == SlotState::Blocked,
        final(p).tasks[task as int].joiner == NO_TASK,
        old(p).tasks[task as int].held[i].mutex matches Some(m) ==> final(p).mutexes@[m as int].poisoned,
        f.hook matches Some(hook) ==> r == (FaultAction::CallHook { hook, task, info: *info }),
        f.hook matches Some(hook) ==> (old(p).live(old(p).tasks[task as int].joiner as int) is Some
            ==> final(p).ready(old(p).tasks[task as int].joiner as int)),
        f.hook is None ==> r is Resume || r == FaultAction::Reset,
        f.hook is None && r is Resume ==> final(p).running() is Some && final(p).running() != Some(task),
{
    let said = choose|said: Seq<u8>|
        final(out)@ == old(out)@ + said && #[trigger] handled(
            f,
            old(p),
            final(p),
            old(t),
            final(t),
            said,
            used@,
            *info,
            r,
        );
    let x = task as int;
    let iso = choose|iso: Preempt|
        {
            &&& #[trigger] isolated(old(p), &iso, old(t), final(t), x)
            &&& match f.hook {
                Some(hook) => {
                    &&& *final(p) == iso
                    &&& r == FaultAction::CallHook { hook, task, info: *info }
                    &&& said == dump_text(*info)
                },
                None => exists|more: Seq<u8>|
                    said == dump_text(*info) + more && #[trigger] resumed(
                        &iso,
                        final(p),
                        more,
                        used@,
                        *info,
                        r,
                    ),
            }
        };
    let (mid, marked) = choose|mid: Preempt, marked: Preempt|
        {
            &&& #[trigger] poisoned_within(
                old(p),
                &mid,
                old(t),
                final(t),
                old(p).tasks[x].held@,
                MAX_HELD as int,
            )
            &&& marked.frame(&mid)
            &&& marked.harts == mid.harts
            &&& marked.ready_at == mid.ready_at
            &&& marked.tasks@ == mid.tasks@.update(
                x,
                (Tcb { state: SlotState::Blocked, faulted: true, joiner: NO_TASK, ..mid.tasks[x] }),
            )
            &&& #[trigger] sched::unblocked(&marked, &iso, old(p).tasks[x].joiner as int)
        };
    let j = old(p).tasks[x].joiner as int;
    assert(marked.tasks@[x] == marked.tasks[x]);
    assert(iso.tasks@[x] == iso.tasks[x]);
    if old(p).live(j) is Some {
        assert(mid.tasks[j].used == old(p).tasks[j].used);
        assert(marked.tasks@[j] == marked.tasks[j]);
        assert(iso.tasks@[j] == iso.tasks[j]);
    }
    if let Some(m) = old(p).tasks[x].held[i].mutex {
        assert(old(p).tasks[x].held@[i].mutex == Some(m));
        assert(names_within(old(p).tasks[x].held@, m as int, MAX_HELD as int));
        assert(old(p).tasks[x].held[i].mutex matches Some(m) ==> m < old(p).mutexes@.len());
        assert(mid.mutexes@[m as int].poisoned);
    }
    if f.hook is None {
        let more = choose|more: Seq<u8>|
            said == dump_text(*info) + more && #[trigger] resumed(
                &iso,
                final(p),
                more,
                used@,
                *info,
                r,
            );
        if iso.any_ready() {
            let next = choose|next: int|
                {
                    &&& #[trigger] iso.is_next(next)
                    &&& final(p).tasks@ == iso.tasks@.update(
                        next,
                        (Tcb { state: SlotState::Running, ..iso.tasks[next] }),
                    )
                    &&& final(p).running() == Some(next as usize)
                    &&& final(p).current@ == iso.current@.update(
                        iso.harts.hart as int,
                        next as usize,
                    )
                    &&& final(p).dispatch_counter == iso.dispatch_counter
                    &&& final(p).dispatch_seq == iso.dispatch_seq
                    &&& final(p).mutexes == iso.mutexes
                    &&& final(p).harts == iso.harts
                    &&& final(p).ready_at == iso.ready_at
                    &&& final(p).cycle == iso.cycle
                    &&& r == FaultAction::Resume {
                        sp: iso.tasks[next].sp,
                        stack_base: iso.tasks[next].stack_base,
                        stack_size: iso.tasks[next].stack_size,
                    }
                    &&& more == Seq::<u8>::empty()
                };
            assert(next != x);
            assert(final(p).tasks@[x] == final(p).tasks[x]);
        }
    }
}

/// After a fault the ready task of the highest priority goes on from where it
/// was; the machine is reset only if no task is ready.
pub proof fn law_next_task_goes_on(
    p: &mut Preempt,
    out: &mut Vec<u8>,
    used: &[usize; MAX_PTASKS],
    info: &FaultInfo,
    r: FaultAction,
    x: int,
)
    requires
        call_ensures(resume_next, (p, out, used, info), r),
        old(p).wf(),
        old(p).ready(x),
    ensures
        final(p).running() matches Some(next) && {
            &&& old(p).ready(next as int)
            &&& old(p).tasks[next as int].effective_priority >= old(p).tasks[x].effective_priority
            &&& final(p).tasks[next as int].state == SlotState::Running
            &&& r == (FaultAction::Resume {
                sp: old(p).tasks[next as int].sp,
                stack_base: old(p).tasks[next as int].stack_base,
                stack_size: old(p).tasks[next as int].stack_size,
            })
        },
        final(out)@ == old(out)@,
{
    let said = choose|said: Seq<u8>|
        final(out)@ == old(out)@ + said && #[trigger] resumed(
            old(p),
            final(p),
            said,
            used@,
            *info,
            r,
        );
    lemma_cat_empty(old(out)@);
    let next = final(p).running()->0 as int;
    assert(final(p).tasks@[next] == final(p).tasks[next]);
}

/// A fault is described by its name, the address that was touched, the
/// instruction that did it, and the task, if there was one.
pub proof fn law_fault_is_described(
    out: &mut Vec<u8>,
    info: &FaultInfo,
    name: Seq<u8>,
)
    requires
        call_ensures(dump, (out, info), ()),
        info.kind is InstructionAccess ==> name == lit("instruction-access"),
        info.kind is LoadAccess ==> name == lit("load-access"),
        info.kind is StoreAccess ==> name == lit("store-access"),
        info.kind is MemManage ==> name == lit("memmanage"),
        info.kind is StackOverflow ==> name == lit("stack-overflow"),
        info.kind is BudgetExceeded ==> name == lit("budget-exceeded"),
    ensures
        info.task_id is None ==> final(out)@ == old(out)@ + (lit("\nRIVET FAULT: ") + name + lit(
            " addr=0x",
        ) + hex(info.address as nat, 8) + lit(" pc=0x") + hex(info.pc as nat, 8) + lit("\n")),
        info.task_id is Some ==> final(out)@ == old(out)@ + (lit("\nRIVET FAULT: ") + name + lit(
            " addr=0x",
        ) + hex(info.address as nat, 8) + lit(" pc=0x") + hex(info.pc as nat, 8) + (lit(" task=")
            + dec(info.task_id->0 as nat)) + lit("\n")),
{
    lemma_cat_empty(
        lit("\nRIVET FAULT: ") + name + lit(" addr=0x") + hex(info.address as nat, 8) + lit(
            " pc=0x",
        ) + hex(info.pc as nat, 8),
    );
}

/// The policy and the hook are those that were chosen last, and each is chosen
/// without the other; at first a fault resets and nobody is called.
pub proof fn law_reaction_is_what_was_chosen(
    fresh: FaultState,
    a: &mut FaultState,
    b: &mut FaultState,
    policy: FaultPolicy,
    hook: usize,
)
    requires
        call_ensures(FaultState::new, (), fresh),
        call_ensures(set_policy, (a, policy), ()),
        *old(b) == *final(a),
        call_ensures(set_on_task_fault, (b, hook), ()),
    ensures
        fresh.policy == FaultPolicy::Panic,
        fresh.hook is None,
        final(a).hook == old(a).hook,
        final(b).policy == policy,
        final(b).hook == Some(hook),
{
}

proof fn lemma_no_stack_lines(tasks: Seq<Tcb>, used: Seq<usize>, n: nat)
    requires
        n <= tasks.len(),
        forall|i: int| 0 <= i < n ==> !(#[trigger] tasks[i]).used,
    ensures
        stack_lines(tasks, used, n) == Seq::<u8>::empty(),
    decreases n,
{
    if n > 0 {
        lemma_no_stack_lines(tasks, used, (n - 1) as nat);
        assert(!tasks[n - 1].used);
        lemma_cat_empty(Seq::<u8>::empty());
    }
}

proof fn lemma_one_stack_line(tasks: Seq<Tcb>, used: Seq<usize>, n: nat, id: int)
    requires
        0 <= id < n <= tasks.len(),
        forall|i: int| 0 <= i < n && i != id ==> !(#[trigger] tasks[i]).used,
    ensures
        stack_lines(tasks, used, n) == stack_line(tasks[id], id as nat, used[id] as nat),
    decreases n,
{
    let line = stack_line(tasks[id], id as nat, used[id] as nat);
    if id == n - 1 {
        lemma_no_stack_lines(tasks, used, (n - 1) as nat);
        assert(Seq::<u8>::empty() + line =~= line);
    } else {
        lemma_one_stack_line(tasks, used, (n - 1) as nat, id);
        assert(!tasks[n - 1].used);
        lemma_cat_empty(line);
    }
}

/// Before a reset the fault is described, and how much of its stack each task
/// has used: here of a single task.
pub proof fn law_last_words_tell_the_stacks(
    f: &FaultState,
    p: &mut Preempt,
    t: &mut TimerQueue,
    out: &mut Vec<u8>,
    other: &mut Vec<u8>,
    used: &[usize; MAX_PTASKS],
    info: &FaultInfo,
    r: FaultAction,
    id: int,
)
    requires
        call_ensures(on_fault, (f, p, t, out, used, info), r),
        call_ensures(dump, (other, info), ()),
        *old(other) == *old(out),
        f.policy == FaultPolicy::Panic,
        0 <= id < MAX_PTASKS,
        forall|i: int| 0 <= i < MAX_PTASKS && i != id ==> !(#[trigger] old(p).tasks[i]).used,
    ensures
        old(p).tasks[id].used && old(p).tasks[id].stack_base != 0 && old(p).tasks[id].stack_size
            != 0 ==> final(out)@ == final(other)@ + (lit("  task ") + dec(id as nat) + lit(
            " stack ",
        ) + dec(used[id] as nat) + lit("/") + dec(old(p).tasks[id].stack_size as nat) + lit("\n")),
        !old(p).tasks[id].used ==> final(out)@ == final(other)@,
{
    let said = choose|said: Seq<u8>|
        final(out)@ == old(out)@ + said && #[trigger] handled(
            f,
            old(p),
            final(p),
            old(t),
            final(t),
            said,
            used@,
            *info,
            r,
        );
    let tasks = old(p).tasks@;
    assert forall|i: int| 0 <= i < MAX_PTASKS && i != id implies !(#[trigger] tasks[i]).used by {
        assert(!old(p).tasks[i].used);
    }
    assert(tasks[id] == old(p).tasks[id]);
    assert(used@[id] == used[id]);
    lemma_one_stack_line(tasks, used@, MAX_PTASKS as nat, id);
    let line = stack_line(tasks[id], id as nat, used@[id] as nat);
    lemma_cat(old(out)@, dump_text(*info), line);
    lemma_cat_empty(old(out)@ + dump_text(*info));
}

} // verus!
