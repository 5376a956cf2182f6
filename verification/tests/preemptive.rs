//! The preemptive tier: tasks, scheduling, mutexes, lifecycle, stacks, ticks
//! and faults.
use rivet::deadlines::{self, Deadlines};
use rivet::exec_time;
use rivet::fault::{self, FaultAction, FaultInfo, FaultKind, FaultPolicy, FaultState};
use rivet::kernel::Kernel;
use rivet::latency::{self, Kind};
use rivet::preempt::lifecycle::{
    join_resume, rivet_task_exit_core, should_stop, JoinError, JoinStep,
};
use rivet::preempt::mutex::{LockError, LockStep, PriorityMutex};
use rivet::preempt::sched::{
    self, on_dispatch, ready_bitmap_for_test, schedule, set_current, should_preempt, Preempt,
};
use rivet::preempt::stack_pool::{alloc_stack, contains, pool_bounds, release_stack, StackPool};
use rivet::preempt::tcb::{get, register, SlotState, TaskState, Tcb, MAX_PTASKS, NO_TASK};
use rivet::preempt::{
    self, on_tick, sleep_ms, spawn, spawn_ptask_impl, stack_usage, PooledSpec, SpawnError, Stack,
    TaskHandle, TaskSpec, Tick, TickAction, STACK_FILL_WORD,
};
use rivet::time::Duration;
use rivet::timer::{poll_timers, TimerQueue};
use rivet::waker::WakerState;
use rivet::watchdog::{self, Watchdog};

fn spec(sp: usize, base: usize, priority: u8) -> TaskSpec {
    TaskSpec { sp, stack_base: base, stack_size: 512, priority, result_size: 4, result_drop: 0 }
}

fn eff(p: &Preempt, id: usize) -> u8 {
    get(p, id).unwrap().effective_priority
}

#[test]
fn register_assigns_first_free_slot_and_sets_fields() {
    let mut p = Preempt::new();
    let a = register(&mut p, 0x1000, 3).unwrap();
    assert_eq!(a, 0, "first free slot is 0");
    let b = register(&mut p, 0x2000, 5).unwrap();
    assert_eq!(b, 1);
    let ta = get(&p, a).unwrap();
    assert_eq!(ta.sp, 0x1000);
    assert_eq!(ta.base_priority, 3);
    assert_eq!(ta.effective_priority, 3);
    assert_eq!(ta.state(), TaskState::Ready);
}

#[test]
fn register_full_returns_none() {
    let mut p = Preempt::new();
    for i in 0..MAX_PTASKS {
        assert!(register(&mut p, 0x1000 + i, 1).is_some(), "slot {i}");
    }
    assert_eq!(register(&mut p, 0x9000, 1), None, "registry full");
}

#[test]
fn schedule_picks_highest_priority() {
    let mut p = Preempt::new();
    let _a = register(&mut p, 0x1000, 0).unwrap();
    let b = register(&mut p, 0x2000, 5).unwrap();
    let _c = register(&mut p, 0x3000, 2).unwrap();
    assert_eq!(schedule(&mut p), Some(b));
}

#[test]
fn schedule_round_robins_same_priority() {
    let mut p = Preempt::new();
    let a = register(&mut p, 0x1000, 1).unwrap();
    let b = register(&mut p, 0x2000, 1).unwrap();

    let mut saw_a = false;
    let mut saw_b = false;
    for _ in 0..10 {
        let id = schedule(&mut p).unwrap();
        match id {
            id if id == a => saw_a = true,
            id if id == b => saw_b = true,
            _ => {}
        }
        on_dispatch(&mut p, id);
    }
    assert!(saw_a && saw_b, "both tied tasks must be dispatched");
}

#[test]
fn rr_advances_only_on_dispatch() {
    let mut p = Preempt::new();
    let a = register(&mut p, 0x1000, 1).unwrap();
    let b = register(&mut p, 0x2000, 1).unwrap();

    assert_eq!(schedule(&mut p), Some(a));
    assert_eq!(schedule(&mut p), Some(a));

    on_dispatch(&mut p, a);
    assert_eq!(schedule(&mut p), Some(b));
    on_dispatch(&mut p, b);
    assert_eq!(schedule(&mut p), Some(a));
}

#[test]
fn blocked_tasks_not_scheduled() {
    let mut p = Preempt::new();
    let a = register(&mut p, 0x1000, 3).unwrap();
    let b = register(&mut p, 0x2000, 1).unwrap();
    Tcb::set_state(&mut p, a, TaskState::Blocked);
    assert_eq!(schedule(&mut p), Some(b));
}

#[test]
fn should_preempt_logic() {
    let mut p = Preempt::new();
    let low = register(&mut p, 0x1000, 1).unwrap();
    let high = register(&mut p, 0x2000, 5).unwrap();
    assert!(should_preempt(&p, high, low));
    assert!(!should_preempt(&p, low, high));
    assert!(!should_preempt(&p, low, low));
}

#[test]
fn effective_priority_used_for_scheduling() {
    let mut p = Preempt::new();
    let low = register(&mut p, 0x1000, 1).unwrap();
    let _high = register(&mut p, 0x2000, 5).unwrap();
    Tcb::set_effective_priority(&mut p, low, 9);
    assert_eq!(schedule(&mut p), Some(low));
}

#[test]
fn ready_queue_consistent_with_state() {
    let mut p = Preempt::new();
    let a = register(&mut p, 0x1000, 2).unwrap();
    let b = register(&mut p, 0x2000, 2).unwrap();
    assert_ne!(ready_bitmap_for_test(&p) & (1 << 2), 0);
    Tcb::set_state(&mut p, b, TaskState::Blocked);
    assert_eq!(schedule(&mut p), Some(a));
    Tcb::set_state(&mut p, a, TaskState::Running);
    assert_eq!(schedule(&mut p), None, "nothing ready");
    Tcb::set_state(&mut p, b, TaskState::Ready);
    assert_eq!(schedule(&mut p), Some(b));
}

#[test]
fn tied_tasks_are_dispatched_in_turn() {
    let mut p = Preempt::new();
    let ids: Vec<usize> = (0..5).map(|i| register(&mut p, 0x1000 * i, 4).unwrap()).collect();
    let mut counts = [0u32; 5];
    for _ in 0..50 {
        let id = schedule(&mut p).unwrap();
        counts[ids.iter().position(|x| *x == id).unwrap()] += 1;
        on_dispatch(&mut p, id);
    }
    assert_eq!(counts, [10; 5]);
}

#[test]
fn lock_unlock_basic() {
    let mut p = Preempt::new();
    let mut t = TimerQueue::new();
    let a = register(&mut p, 0x1000, 1).unwrap();
    set_current(&mut p, a);

    let mut m: PriorityMutex<u32> = PriorityMutex::new(&mut p, 0);
    {
        let guard = m.lock(&mut p, &mut t, 0).unwrap();
        m.set(&guard, 42);
        guard.drop(&mut p, &mut t);
    }
    let guard = m.lock(&mut p, &mut t, 0).unwrap();
    assert_eq!(*m.get(&guard), 42);
}

#[test]
fn try_lock_behavior() {
    let mut p = Preempt::new();
    let mut t = TimerQueue::new();
    let a = register(&mut p, 0x1000, 1).unwrap();
    set_current(&mut p, a);

    let m: PriorityMutex<u32> = PriorityMutex::new(&mut p, 0);
    let g = m.try_lock(&mut p).expect("free mutex must lock");
    assert!(m.try_lock(&mut p).is_none(), "held mutex must not lock");
    g.drop(&mut p, &mut t);
    assert!(m.try_lock(&mut p).is_some(), "released mutex must lock");
}

#[test]
fn priority_inheritance_boosts_holder() {
    let mut p = Preempt::new();
    let mut t = TimerQueue::new();
    let low = register(&mut p, 0x1000, 1).unwrap();
    let high = register(&mut p, 0x2000, 5).unwrap();

    let m: PriorityMutex<u32> = PriorityMutex::new(&mut p, 0);

    set_current(&mut p, low);
    let guard = m.lock(&mut p, &mut t, 0).unwrap();
    assert_eq!(eff(&p, low), 1);

    set_current(&mut p, high);
    assert!(m.lock(&mut p, &mut t, 0).is_none());
    assert_eq!(eff(&p, low), 5);

    set_current(&mut p, low);
    guard.drop(&mut p, &mut t);
    assert_eq!(eff(&p, low), 1);
}

#[test]
fn b11_nested_unlock_keeps_boost_from_other_mutex() {
    let mut p = Preempt::new();
    let mut t = TimerQueue::new();
    let holder = register(&mut p, 0x1000, 1).unwrap();
    let a: PriorityMutex<u32> = PriorityMutex::new(&mut p, 0);
    let b: PriorityMutex<u32> = PriorityMutex::new(&mut p, 0);
    set_current(&mut p, holder);

    let ga = a.lock(&mut p, &mut t, 0).unwrap();
    let gb = b.lock(&mut p, &mut t, 0).unwrap();

    let waiter = register(&mut p, 0x3000, 8).unwrap();
    set_current(&mut p, waiter);
    assert!(a.lock(&mut p, &mut t, 0).is_none());
    assert_eq!(eff(&p, holder), 8);

    set_current(&mut p, holder);
    gb.drop(&mut p, &mut t);
    assert_eq!(eff(&p, holder), 8, "[B11] unlocking B must not drop the boost held for A");

    ga.drop(&mut p, &mut t);
    assert_eq!(eff(&p, holder), 1, "[B11] after unlocking both, effective priority = base");
}

#[test]
fn b1_retest_inside_critical_section_catches_release() {
    let mut p = Preempt::new();
    let mut t = TimerQueue::new();
    let a = register(&mut p, 0x1000, 1).unwrap();
    let b = register(&mut p, 0x2000, 5).unwrap();
    let m: PriorityMutex<u32> = PriorityMutex::new(&mut p, 0);

    set_current(&mut p, a);
    let guard_a = m.lock(&mut p, &mut t, 0).unwrap();

    set_current(&mut p, b);
    assert!(!m.try_acquire(&mut p, b), "A holds the mutex");

    set_current(&mut p, a);
    guard_a.drop(&mut p, &mut t);

    set_current(&mut p, b);
    let guard_b = m.lock(&mut p, &mut t, 0).unwrap();
    assert!(p.mutexes[0].locked);
    guard_b.drop(&mut p, &mut t);
    assert!(!p.mutexes[0].locked);
}

#[test]
fn mutex_given_back_stands_in_no_list() {
    let mut p = Preempt::new();
    let mut t = TimerQueue::new();
    let low = register(&mut p, 0x1000, 1).unwrap();
    let mid = register(&mut p, 0x2000, 4).unwrap();
    let high = register(&mut p, 0x3000, 9).unwrap();
    let a: PriorityMutex<u32> = PriorityMutex::new(&mut p, 0);
    let b: PriorityMutex<u32> = PriorityMutex::new(&mut p, 0);
    let names = |p: &Preempt, m: usize| {
        p.tasks.iter().flat_map(|t| t.held.iter()).filter(|h| h.mutex == Some(m)).count()
    };
    set_current(&mut p, low);
    let held_a = a.lock(&mut p, &mut t, 0).unwrap();
    let held_b = b.lock(&mut p, &mut t, 0).unwrap();
    assert_eq!((names(&p, 0), names(&p, 1)), (1, 1));
    set_current(&mut p, mid);
    assert!(a.lock(&mut p, &mut t, 0).is_none());
    set_current(&mut p, high);
    assert!(b.lock(&mut p, &mut t, 0).is_none());
    assert_eq!(p.tasks[low].effective_priority, 9);
    set_current(&mut p, low);
    held_b.drop(&mut p, &mut t);
    assert_eq!((names(&p, 0), names(&p, 1)), (1, 0));
    assert!(!p.mutexes[1].locked);
    assert_eq!(p.tasks[low].effective_priority, 4);
    assert_eq!(p.tasks[low].base_priority, 1);
    held_a.drop(&mut p, &mut t);
    assert_eq!((names(&p, 0), names(&p, 1)), (0, 0));
    assert_eq!(p.tasks[low].effective_priority, 1);
    assert!(p.harts.resched[0]);
}

#[test]
fn waiter_gets_the_mutex_after_unlock() {
    let mut p = Preempt::new();
    let mut t = TimerQueue::new();
    let low = register(&mut p, 0x1000, 1).unwrap();
    let high = register(&mut p, 0x2000, 5).unwrap();
    let m: PriorityMutex<u32> = PriorityMutex::new(&mut p, 0);
    set_current(&mut p, low);
    let guard = m.lock(&mut p, &mut t, 0).unwrap();
    set_current(&mut p, high);
    assert!(m.lock(&mut p, &mut t, 0).is_none());
    assert_eq!(get(&p, high).unwrap().state(), TaskState::Blocked);
    set_current(&mut p, low);
    guard.drop(&mut p, &mut t);
    assert_eq!(get(&p, high).unwrap().state(), TaskState::Ready);
    set_current(&mut p, high);
    assert!(m.lock(&mut p, &mut t, 0).is_some());
}

#[test]
fn lock_errors() {
    let mut p = Preempt::new();
    let mut t = TimerQueue::new();
    let a = register(&mut p, 0x1000, 1).unwrap();
    let b = register(&mut p, 0x2000, 2).unwrap();
    let m: PriorityMutex<u32> = PriorityMutex::new(&mut p, 0);
    let (step, _) = m.lock_timeout(&mut p, &mut t, None, 0);
    assert!(matches!(step, LockStep::Failed(LockError::NotInTask)));

    set_current(&mut p, a);
    let _guard = m.lock(&mut p, &mut t, 0).unwrap();
    let (step, _) = m.lock_timeout(&mut p, &mut t, None, 0);
    assert!(matches!(step, LockStep::Failed(LockError::Recursive)));

    // Another task waits, and gives up when its time has come.
    set_current(&mut p, b);
    let (step, deadline) = m.lock_timeout(&mut p, &mut t, Some(Duration::from_micros(50)), 100);
    assert!(matches!(step, LockStep::Blocked));
    assert_eq!(deadline, Some(150));
    let mut w = WakerState::new();
    poll_timers(&mut t, &mut w, &mut p, 150);
    assert_eq!(get(&p, b).unwrap().state(), TaskState::Ready);
    let step = m.lock_step(&mut p, &mut t, b, deadline, 150);
    assert!(matches!(step, LockStep::Failed(LockError::Timeout)));

    // The list of held mutexes is bounded.
    set_current(&mut p, a);
    let more: Vec<PriorityMutex<u8>> =
        (0..4).map(|_| PriorityMutex::new(&mut p, 0)).collect();
    for extra in more.iter().take(3) {
        assert!(extra.lock(&mut p, &mut t, 0).is_some());
    }
    let (step, _) = more[3].lock_timeout(&mut p, &mut t, None, 0);
    assert!(matches!(step, LockStep::Failed(LockError::TooManyHeldMutexes)));
}

#[test]
fn faulted_holder_poisons_its_mutexes() {
    let mut k = Kernel::new();
    let a = register(&mut k.preempt, 0x1000, 3).unwrap();
    let b = register(&mut k.preempt, 0x2000, 2).unwrap();
    let m: PriorityMutex<u32> = PriorityMutex::new(&mut k.preempt, 0);
    set_current(&mut k.preempt, a);
    let _guard = m.lock(&mut k.preempt, &mut k.timers, 0).unwrap();
    assert!(!m.is_poisoned(&k.preempt));
    fault::set_policy(&mut k.fault, FaultPolicy::IsolateTask);
    let info = FaultInfo {
        task_id: Some(a),
        kind: FaultKind::LoadAccess,
        address: 0xdead_0000,
        pc: 0x80,
    };
    let mut out = Vec::new();
    let used = [0usize; MAX_PTASKS];
    let action =
        fault::on_fault(&k.fault, &mut k.preempt, &mut k.timers, &mut out, &used, &info);
    assert_eq!(
        String::from_utf8(out).unwrap(),
        "\nRIVET FAULT: load-access addr=0xdead0000 pc=0x00000080 task=0\n"
    );
    assert!(m.is_poisoned(&k.preempt));
    assert!(matches!(action, FaultAction::Resume { sp: 0x2000, .. }));
    set_current(&mut k.preempt, b);
    let (step, _) = m.lock_timeout(&mut k.preempt, &mut k.timers, None, 0);
    assert!(matches!(step, LockStep::Failed(LockError::Poisoned)));
    assert!(m.try_lock(&mut k.preempt).is_none());
}

#[test]
fn panic_policy_describes_every_stack() {
    let mut p = Preempt::new();
    let mut t = TimerQueue::new();
    spawn(&mut p, &spec(0x1100, 0x1000, 1), 128).unwrap();
    let f = FaultState::new();
    let info =
        FaultInfo { task_id: None, kind: FaultKind::StackOverflow, address: 0, pc: 0x1234abcd };
    let mut used = [0usize; MAX_PTASKS];
    used[0] = 300;
    let mut out = Vec::new();
    let action = fault::on_fault(&f, &mut p, &mut t, &mut out, &used, &info);
    assert_eq!(action, FaultAction::Reset);
    assert_eq!(
        String::from_utf8(out).unwrap(),
        "\nRIVET FAULT: stack-overflow addr=0x00000000 pc=0x1234abcd\n  task 0 stack 300/512\n"
    );
}

#[test]
fn fault_hook_is_called_with_the_task() {
    let mut k = Kernel::new();
    let a = register(&mut k.preempt, 0x1000, 3).unwrap();
    set_current(&mut k.preempt, a);
    fault::set_policy(&mut k.fault, FaultPolicy::IsolateTask);
    fault::set_on_task_fault(&mut k.fault, 77);
    let info = FaultInfo { task_id: Some(a), kind: FaultKind::StoreAccess, address: 1, pc: 2 };
    let mut out = Vec::new();
    let used = [0usize; MAX_PTASKS];
    let action =
        fault::on_fault(&k.fault, &mut k.preempt, &mut k.timers, &mut out, &used, &info);
    assert_eq!(action, FaultAction::CallHook { hook: 77, task: a, info });
}

#[test]
fn join_returns_exit_value() {
    let mut p = Preempt::new();
    let child = spawn(&mut p, &spec(0x1100, 0x1000, 2), 128).unwrap();
    let parent = spawn(&mut p, &spec(0x2100, 0x2000, 1), 128).unwrap();
    set_current(&mut p, parent.id as usize);
    assert!(matches!(child.join(&mut p, 4), JoinStep::Blocked));
    assert_eq!(get(&p, 1).unwrap().state(), TaskState::Blocked);

    set_current(&mut p, child.id as usize);
    rivet_task_exit_core(&mut p, 0x0403_0201);
    assert_eq!(get(&p, 1).unwrap().state(), TaskState::Ready);
    set_current(&mut p, parent.id as usize);
    match join_resume(&mut p, child.id as usize, parent.id as usize, 4) {
        JoinStep::Done(v) => assert_eq!(v, vec![1, 2, 3, 4]),
        _ => panic!("joined task has exited"),
    }
}

#[test]
fn join_errors() {
    let mut p = Preempt::new();
    let a = spawn(&mut p, &spec(0x1100, 0x1000, 2), 128).unwrap();
    let b = spawn(&mut p, &spec(0x2100, 0x2000, 1), 128).unwrap();
    let c = spawn(&mut p, &spec(0x3100, 0x3000, 1), 128).unwrap();
    set_current(&mut p, a.id as usize);
    assert!(matches!(a.join(&mut p, 4), JoinStep::Failed(JoinError::SelfJoin)));
    set_current(&mut p, b.id as usize);
    assert!(matches!(a.join(&mut p, 4), JoinStep::Blocked));
    set_current(&mut p, c.id as usize);
    assert!(matches!(a.join(&mut p, 4), JoinStep::Failed(JoinError::AlreadyJoined)));
    // A value of another size than was asked for.
    set_current(&mut p, a.id as usize);
    rivet_task_exit_core(&mut p, 9);
    set_current(&mut p, b.id as usize);
    assert!(matches!(
        join_resume(&mut p, 0, 1, 8),
        JoinStep::Failed(JoinError::Faulted)
    ));
    // A recycled slot.
    let gone = rivet::preempt::TaskHandle { id: 0, generation: 999 };
    assert!(matches!(gone.join(&mut p, 4), JoinStep::Failed(JoinError::Stale)));
}

#[test]
fn stop_requests_reach_the_task() {
    let mut p = Preempt::new();
    let a = spawn(&mut p, &spec(0x1100, 0x1000, 2), 128).unwrap();
    set_current(&mut p, a.id as usize);
    assert!(!should_stop(&p));
    assert!(a.request_stop(&mut p));
    assert!(should_stop(&p));
}

#[test]
fn despawn_recycles_slot_and_stack() {
    let mut p = Preempt::new();
    let mut pool = StackPool::new(0x1_0000, 0x4000);
    let want = PooledSpec { stack_size: 1024, priority: 3, result_size: 0, result_drop: 7 };
    let mut prepared = None;
    let h = spawn_ptask_impl(&mut p, &mut pool, &want, 64, 128, |a| {
        prepared = Some(a);
        a.base + 900
    })
    .unwrap();
    let stack = prepared.unwrap();
    assert_eq!(stack.base, 0x1_0400);
    assert_eq!(stack.guard.unwrap().base, 0x1_0400 - 64);
    assert_eq!(p.tasks[h.id as usize].sp, stack.base + 900);
    assert_eq!(p.tasks[h.id as usize].stack_info(), Some((stack.base, 1024)));
    assert!(h.is_valid(&p));
    let (mut t, mut d) = (TimerQueue::new(), Deadlines::new());
    let back = h.despawn(&mut p, &mut t, &mut d, &mut pool).unwrap();
    assert_eq!(back.stack.unwrap().base, stack.base);
    // The task never returned a value, so there is none to destroy.
    assert_eq!(back.drop, 0);
    assert!(!h.is_valid(&p));
    assert!(h.despawn(&mut p, &mut t, &mut d, &mut pool).is_none());
    // The slot is taken again under a new generation, and the stack too.
    let again = spawn_ptask_impl(&mut p, &mut pool, &want, 64, 128, |a| a.base).unwrap();
    assert_eq!(again.id, h.id);
    assert_ne!(again.generation, h.generation);
    assert!(!h.is_valid(&p));
    assert_eq!(p.tasks[again.id as usize].sp, stack.base);
}

#[test]
fn despawn_leaves_foreign_stacks_alone() {
    let mut p = Preempt::new();
    let mut pool = StackPool::new(0x1_0000, 0x4000);
    let below = spawn(&mut p, &spec(0x1100, 0x1000, 2), 128).unwrap();
    let above = spawn(&mut p, &spec(0x8_0100, 0x8_0000, 2), 128).unwrap();
    let (mut t, mut d) = (TimerQueue::new(), Deadlines::new());
    assert_eq!(below.despawn(&mut p, &mut t, &mut d, &mut pool).unwrap().stack, None);
    assert_eq!(above.despawn(&mut p, &mut t, &mut d, &mut pool).unwrap().stack, None);
    assert_eq!(pool.free.count, 0);
}

/// A task whose value has a destructor, with what it needs to be despawned.
fn droppable() -> (Preempt, TaskHandle, TimerQueue, Deadlines, StackPool) {
    let mut p = Preempt::new();
    let s = TaskSpec { result_size: 4, result_drop: 7, ..spec(0x1100, 0x1000, 2) };
    let h = spawn(&mut p, &s, 128).unwrap();
    spawn(&mut p, &spec(0x2100, 0x2000, 1), 128).unwrap();
    (p, h, TimerQueue::new(), Deadlines::new(), StackPool::new(0x1_0000, 0x4000))
}

#[test]
fn value_that_nobody_took_is_destroyed() {
    let (mut p, h, mut t, mut d, mut pool) = droppable();
    set_current(&mut p, h.id as usize);
    rivet_task_exit_core(&mut p, 0x1234);
    set_current(&mut p, 1);
    assert_eq!(h.despawn(&mut p, &mut t, &mut d, &mut pool).unwrap().drop, 7);
}

#[test]
fn value_that_a_join_took_is_not_destroyed() {
    let (mut p, h, mut t, mut d, mut pool) = droppable();
    set_current(&mut p, h.id as usize);
    rivet_task_exit_core(&mut p, 0x1234);
    set_current(&mut p, 1);
    assert!(matches!(h.join(&mut p, 8), JoinStep::Failed(JoinError::Faulted)));
    assert!(matches!(h.join(&mut p, 4), JoinStep::Done(v) if v == [0x34, 0x12, 0, 0]));
    assert!(matches!(h.join(&mut p, 4), JoinStep::Failed(JoinError::AlreadyJoined)));
    assert!(matches!(
        join_resume(&mut p, h.id as usize, 1, 4),
        JoinStep::Failed(JoinError::AlreadyJoined)
    ));
    assert_eq!(h.despawn(&mut p, &mut t, &mut d, &mut pool).unwrap().drop, 0);
}

#[test]
fn next_task_in_a_slot_inherits_nothing() {
    let mut k = Kernel::new();
    let mut pool = StackPool::new(0x1_0000, 0x4000);
    let mut wd = Watchdog::new(false);
    watchdog::enable_checkins(&mut wd, Duration::from_millis(1));
    let h = spawn(&mut k.preempt, &spec(0x1100, 0x1000, 2), 128).unwrap();
    h.set_period_us(&k.preempt, &mut k.deadlines, 5000);
    h.set_budget_us(&k.preempt, &mut k.deadlines, 300);
    preempt::start(&mut k, 0);
    watchdog::checkin(&wd, &mut k.preempt, 77);
    let woken = deadlines::wait_period(
        &mut k.deadlines,
        &k.exec_time,
        &mut k.preempt,
        &mut k.timers,
        100,
    );
    assert_eq!(woken, Some(5100));
    set_current(&mut k.preempt, NO_TASK);
    assert!(h.despawn(&mut k.preempt, &mut k.timers, &mut k.deadlines, &mut pool).is_some());
    let next = spawn(&mut k.preempt, &spec(0x2100, 0x2000, 2), 128).unwrap();
    assert_eq!(next.id, h.id);
    assert_eq!(k.preempt.tasks[0].last_checkin, 0);
    let mut out = Vec::new();
    assert!(!watchdog::on_tick(&wd, &k.preempt, 900_000, &mut out));
    assert_eq!(deadlines::period_us(&k.deadlines, 0), 0);
    assert_eq!(deadlines::budget_us(&k.deadlines, 0), 0);
    assert_eq!(k.deadlines.next_us[0], 0);
    assert_eq!(k.timers.ptask[0], 0);
}

#[test]
fn pause_and_resume() {
    let mut p = Preempt::new();
    let a = spawn(&mut p, &spec(0x1100, 0x1000, 4), 128).unwrap();
    let b = spawn(&mut p, &spec(0x2100, 0x2000, 1), 128).unwrap();
    assert!(a.pause(&mut p));
    assert_eq!(p.tasks[a.id as usize].state, SlotState::Suspended);
    assert_eq!(schedule(&mut p), Some(b.id as usize));
    assert!(a.resume(&mut p));
    assert_eq!(schedule(&mut p), Some(a.id as usize));
    assert!(!a.resume(&mut p));
}

#[test]
fn spawn_fails_when_every_slot_is_taken() {
    let mut p = Preempt::new();
    for i in 0..MAX_PTASKS {
        assert!(spawn(&mut p, &spec(0x1100 + i, 0x1000, 1), 128).is_ok());
    }
    assert_eq!(spawn(&mut p, &spec(0x9000, 0x9000, 1), 128), Err(SpawnError::RegistryFull));
}

#[test]
fn stack_pool_is_bounded() {
    let mut pool = StackPool::new(0x2_0000, 0x1000);
    assert_eq!(pool_bounds(&pool), (0x2_0000, 0x1000));
    assert!(contains(&pool, 0x2_0fff));
    assert!(!contains(&pool, 0x2_1000));
    let a = alloc_stack(&mut pool, 0x400, 64).unwrap();
    let b = alloc_stack(&mut pool, 0x400, 64).unwrap();
    assert_eq!(a.base, 0x2_0400);
    assert_eq!(b.base, 0x2_0c00);
    assert_eq!(a.guard.unwrap().base, 0x2_0400 - 64);
    assert!(alloc_stack(&mut pool, 0x400, 64).is_none());
    let mut p = Preempt::new();
    let want = PooledSpec { stack_size: 0x400, priority: 3, result_size: 0, result_drop: 0 };
    assert_eq!(
        spawn_ptask_impl(&mut p, &mut pool, &want, 64, 128, |a| a.base),
        Err(SpawnError::StackPoolFull)
    );
    assert!(alloc_stack(&mut pool, 1 << 62, 64).is_none());
    assert!(!release_stack(&mut pool, 0x1_0000, 0x400));
    assert!(release_stack(&mut pool, b.base, b.size));
    assert_eq!(alloc_stack(&mut pool, 0x400, 64).unwrap().base, b.base);
}

#[test]
fn stacks_and_their_guard_bands_stay_apart() {
    let mut pool = StackPool::new(0x2_0000, 0x4000);
    let mut taken: Vec<(usize, usize)> = Vec::new();
    for size in [0x400, 0x100, 0x800, 0x100, 0x200] {
        let a = alloc_stack(&mut pool, size, 64).unwrap();
        assert_eq!((a.size, a.base % size), (size, 0));
        taken.push((a.base - 64, a.base + size));
    }
    let (second, _) = taken.remove(1);
    assert!(release_stack(&mut pool, second + 64, 0x100));
    let again = alloc_stack(&mut pool, 0x100, 64).unwrap();
    assert_eq!(again.base, second + 64);
    taken.push((again.base - 64, again.base + 0x100));
    for (i, a) in taken.iter().enumerate() {
        assert!(0x2_0000 <= a.0 && a.1 <= 0x2_4000);
        for b in &taken[i + 1..] {
            assert!(a.1 <= b.0 || b.1 <= a.0, "{a:?} {b:?}");
        }
    }
    let left = pool.next;
    assert!(alloc_stack(&mut pool, 0x4000, 64).is_none());
    assert_eq!(pool.next, left);
}

#[test]
fn stack_usage_measures_fill_pattern() {
    let mut stack = [0xAAu8; 512];
    assert_eq!(stack_usage(&stack), 0, "untouched stack uses nothing");
    stack[256..].fill(0x00);
    assert_eq!(stack_usage(&stack), 256);
    assert_eq!(stack_usage(&Stack::<16>::new().0), 16);
}

#[test]
fn sleeping_task_is_woken_by_the_timer() {
    let mut p = Preempt::new();
    let mut t = TimerQueue::new();
    let mut w = WakerState::new();
    let a = register(&mut p, 0x1000, 1).unwrap();
    set_current(&mut p, a);
    sleep_ms(&mut p, &mut t, 2, 500);
    assert_eq!(get(&p, a).unwrap().state(), TaskState::Blocked);
    poll_timers(&mut t, &mut w, &mut p, 2499);
    assert_eq!(get(&p, a).unwrap().state(), TaskState::Blocked);
    poll_timers(&mut t, &mut w, &mut p, 2500);
    assert_eq!(get(&p, a).unwrap().state(), TaskState::Ready);
}

fn tick(sp: usize, cycle: u64) -> Tick {
    Tick { sp, lowest: STACK_FILL_WORD, used_us: 0, cycle }
}

#[test]
fn tick_switches_to_the_highest_priority() {
    let mut k = Kernel::new();
    let low = register(&mut k.preempt, 0x1000, 1).unwrap();
    let first = preempt::start(&mut k, 10);
    assert_eq!(first.task, low);
    let used = [0usize; MAX_PTASKS];
    let mut out = Vec::new();
    // Nothing else is ready: the task goes on.
    assert_eq!(on_tick(&mut k, &tick(0x1010, 20), &used, &mut out), TickAction::Keep(0x1010));
    k.preempt.cycle = 25;
    let high = register(&mut k.preempt, 0x2000, 5).unwrap();
    k.preempt.cycle = 30;
    match on_tick(&mut k, &tick(0x1020, 30), &used, &mut out) {
        TickAction::Switch { from, next } => {
            assert_eq!(from, low);
            assert_eq!(next.task, high);
            assert_eq!(next.sp, 0x2000);
        }
        _ => panic!("the higher priority must run"),
    }
    assert_eq!(sched::current(&k.preempt), Some(high));
    assert_eq!(get(&k.preempt, low).unwrap().sp, 0x1020);
    assert_eq!(exec_time::busy_cycles(&k.exec_time, low), 20);
    assert_eq!(exec_time::busy_percent(&k.exec_time, low, 50), 50);
    assert_eq!(latency::snapshot(&k.latency, Kind::SchedulingWake)[2], 1);
    assert_eq!(latency::max_cycles(&k.latency, Kind::SchedulingWake), 5);
    assert!(out.is_empty());
}

#[test]
fn tick_catches_an_overflowed_stack() {
    let mut k = Kernel::new();
    spawn(&mut k.preempt, &spec(0x1100, 0x1000, 1), 128).unwrap();
    spawn(&mut k.preempt, &spec(0x2100, 0x2000, 0), 128).unwrap();
    preempt::start(&mut k, 0);
    let used = [512usize; MAX_PTASKS];
    let mut out = Vec::new();
    let bad = Tick { sp: 0x1080, lowest: 0, used_us: 0, cycle: 5 };
    assert_eq!(
        on_tick(&mut k, &bad, &used, &mut out),
        TickAction::Fault(FaultAction::Reset)
    );
    assert!(String::from_utf8(out).unwrap().starts_with("\nRIVET FAULT: stack-overflow"));
}

#[test]
fn tick_catches_an_exceeded_budget() {
    let mut k = Kernel::new();
    let a = register(&mut k.preempt, 0x1000, 1).unwrap();
    let b = register(&mut k.preempt, 0x2000, 1).unwrap();
    deadlines::set_budget_us(&mut k.deadlines, a, 100);
    fault::set_policy(&mut k.fault, FaultPolicy::IsolateTask);
    preempt::start(&mut k, 0);
    let used = [0usize; MAX_PTASKS];
    let mut out = Vec::new();
    let over = Tick { sp: 0x1080, lowest: STACK_FILL_WORD, used_us: 101, cycle: 5 };
    match on_tick(&mut k, &over, &used, &mut out) {
        TickAction::Fault(FaultAction::Resume { sp, .. }) => assert_eq!(sp, 0x2000),
        _ => panic!("the other task must run"),
    }
    assert!(String::from_utf8(out).unwrap().contains("budget-exceeded"));
    assert_eq!(sched::current(&k.preempt), Some(b));
}

#[test]
fn wait_period_noop_without_config() {
    let mut k = Kernel::new();
    assert_eq!(
        deadlines::wait_period(
            &mut k.deadlines,
            &k.exec_time,
            &mut k.preempt,
            &mut k.timers,
            0,
        ),
        None
    );
}

#[test]
fn check_budget_false_without_config() {
    let k = Kernel::new();
    assert!(!deadlines::check_budget(&k.deadlines, 0, u64::MAX));
}

#[test]
fn used_time_is_counted_in_microseconds() {
    let mut k = Kernel::new();
    spawn(&mut k.preempt, &spec(0x1100, 0x1000, 1), 128).unwrap();
    preempt::start(&mut k, 1000);
    let (d, e) = (&k.deadlines, &k.exec_time);
    assert_eq!(deadlines::used_cycles(d, e, 0, 1850), 850);
    assert_eq!(deadlines::used_us(d, e, 0, 1850, 84), 10);
    assert_eq!(deadlines::used_us(d, e, 0, 1083, 84), 0);
}

#[test]
fn set_and_read_period_budget() {
    let mut k = Kernel::new();
    deadlines::set_period_us(&mut k.deadlines, 2, 5000);
    deadlines::set_budget_us(&mut k.deadlines, 2, 1000);
    assert_eq!(deadlines::period_us(&k.deadlines, 2), 5000);
    assert_eq!(deadlines::budget_us(&k.deadlines, 2), 1000);
}

#[test]
fn periods_do_not_drift() {
    let mut k = Kernel::new();
    let a = register(&mut k.preempt, 0x1000, 1).unwrap();
    deadlines::set_period_us(&mut k.deadlines, a, 100);
    let mut ends = Vec::new();
    for now in [1000, 1103, 1207] {
        set_current(&mut k.preempt, a);
        Tcb::set_state(&mut k.preempt, a, TaskState::Running);
        ends.push(
            deadlines::wait_period(
                &mut k.deadlines,
                &k.exec_time,
                &mut k.preempt,
                &mut k.timers,
                now,
            )
            .unwrap(),
        );
    }
    assert_eq!(ends, vec![1100, 1200, 1300]);
}

#[test]
fn busy_percent_zero_before_start() {
    let k = Kernel::new();
    assert_eq!(exec_time::busy_percent(&k.exec_time, 0, 0), 0);
}

#[test]
fn accounts_switch_time() {
    let mut k = Kernel::new();
    exec_time::on_first_dispatch(&mut k.exec_time, 0);
    exec_time::on_switch(&mut k.exec_time, 0, 11);
    assert!(exec_time::busy_cycles(&k.exec_time, 0) > 0);
    assert_eq!(exec_time::busy_cycles(&k.exec_time, 1), 0);
    assert_eq!(exec_time::busy_cycles(&k.exec_time, 0), 11);
}

#[test]
fn accounts_add_up_to_the_time_that_passed() {
    let mut k = Kernel::new();
    exec_time::on_first_dispatch(&mut k.exec_time, 1000);
    let switches = [(0, 1010), (3, 1500), (0, 1501), (7, 9000)];
    for (outgoing, now) in switches {
        exec_time::on_switch(&mut k.exec_time, outgoing, now);
    }
    let total: u64 = (0..MAX_PTASKS).map(|id| exec_time::busy_cycles(&k.exec_time, id)).sum();
    assert_eq!(total, 8000);
    assert_eq!(exec_time::busy_cycles(&k.exec_time, 0), 11);
}

#[test]
fn bucket_of_boundaries() {
    assert_eq!(latency::bucket_of(0), 0);
    assert_eq!(latency::bucket_of(1), 0);
    assert_eq!(latency::bucket_of(2), 1);
    assert_eq!(latency::bucket_of(3), 1);
    assert_eq!(latency::bucket_of(4), 2);
    assert_eq!(latency::bucket_of(u64::MAX), latency::BUCKETS - 1);
}

#[test]
fn record_and_snapshot() {
    let mut k = Kernel::new();
    latency::record(&mut k.latency, Kind::IrqEntry, 5);
    latency::record(&mut k.latency, Kind::IrqEntry, 5);
    latency::record(&mut k.latency, Kind::IrqEntry, 100);
    let snap = latency::snapshot(&k.latency, Kind::IrqEntry);
    assert_eq!(snap[latency::bucket_of(5)], 2);
    assert_eq!(snap[latency::bucket_of(100)], 1);
    assert_eq!(latency::max_cycles(&k.latency, Kind::IrqEntry), 100);
    assert_eq!(latency::name(Kind::IrqEntry), "irq_entry");
}

#[test]
fn secondary_hart_takes_the_next_task() {
    let mut k = Kernel::new();
    let a = register(&mut k.preempt, 0x1000, 1).unwrap();
    let b = register(&mut k.preempt, 0x2000, 4).unwrap();
    assert_eq!(preempt::start(&mut k, 0).task, b);
    k.preempt.harts.hart = 1;
    assert_eq!(preempt::start_secondary_hart(&mut k).unwrap().task, a);
}
