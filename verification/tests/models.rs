//! Random operations against simple models.
use rivet::latency::{self, Histograms, Kind};
use rivet::preempt::decision_measured;
use rivet::preempt::sched::{self, Preempt};
use rivet::preempt::tcb::{self, TaskState, Tcb, MAX_PTASKS};
use rivet::preempt::Stack;
use rivet::sync::{Channel, Semaphore};
use rivet::task::TaskId;
use rivet::timer::{poll_timers, register_deadline, slots_in_use, TimerQueue, MAX_TIMERS};
use rivet::waker::{self, WakerState};
use std::collections::HashMap;
use std::collections::VecDeque;

/// A linear congruential generator.
struct Rng(u64);

impl Rng {
    fn below(&mut self, n: u64) -> u64 {
        self.0 = self.0.wrapping_mul(6364136223846793005).wrapping_add(1442695040888963407);
        (self.0 >> 33) % n
    }
}

#[derive(Clone, Copy)]
struct Slot {
    eff: u8,
    ready: bool,
}

#[test]
fn schedule_always_picks_max_priority_ready_task() {
    for seed in 0..40 {
        let mut rng = Rng(seed);
        let mut p = Preempt::new();
        let mut model: [Option<Slot>; MAX_PTASKS] = [None; MAX_PTASKS];
        for _ in 0..200 {
            let id = rng.below(MAX_PTASKS as u64) as usize;
            let prio = rng.below(32) as u8;
            match rng.below(14) {
                0..=2 => {
                    let predicted = model.iter().position(|s| s.is_none());
                    assert_eq!(tcb::register(&mut p, 0x4000, prio), predicted);
                    if let Some(i) = predicted {
                        model[i] = Some(Slot { eff: prio, ready: true });
                    }
                }
                3..=4 => {
                    if let Some(s) = &mut model[id] {
                        s.ready = true;
                        sched::unblock(&mut p, id);
                    }
                }
                5..=6 => {
                    if let Some(s) = &mut model[id] {
                        s.ready = false;
                        Tcb::set_state(&mut p, id, TaskState::Blocked);
                    }
                }
                7..=8 => {
                    if let Some(s) = &mut model[id] {
                        s.eff = prio;
                        Tcb::set_effective_priority(&mut p, id, prio);
                    }
                }
                _ => {
                    let best = model.iter().flatten().filter(|s| s.ready).map(|s| s.eff).max();
                    let got = sched::schedule(&mut p);
                    assert_eq!(got.is_some(), best.is_some());
                    if let Some(id) = got {
                        let t = tcb::get(&p, id).unwrap();
                        assert_eq!(t.state(), TaskState::Ready);
                        assert_eq!(Some(t.effective_priority), best);
                    }
                }
            }
        }
    }
}

#[test]
fn tied_tasks_are_fairly_dispatched() {
    for tasks in 2..MAX_PTASKS {
        let mut p = Preempt::new();
        for _ in 0..tasks {
            tcb::register(&mut p, 0x5000, 7).unwrap();
        }
        let mut running: Option<usize> = None;
        let mut last = vec![0usize; tasks];
        for round in 1..=200 {
            let candidate = sched::schedule(&mut p).unwrap();
            if let Some(r) = running {
                assert!(sched::should_preempt(&p, candidate, r));
                Tcb::set_state(&mut p, r, TaskState::Ready);
            }
            Tcb::set_state(&mut p, candidate, TaskState::Running);
            sched::on_dispatch(&mut p, candidate);
            running = Some(candidate);
            assert!(round - last[candidate] <= tasks);
            last[candidate] = round;
        }
        assert!(last.iter().all(|&l| l + tasks > 200));
    }
}

#[test]
fn timer_queue_fires_each_deadline_exactly_once() {
    for seed in 0..40 {
        let mut rng = Rng(seed);
        let mut t = TimerQueue::new();
        let mut w = WakerState::new();
        let mut p = Preempt::new();
        let mut pending: HashMap<(u8, u8), u64> = HashMap::new();
        let mut now = 0;
        for _ in 0..300 {
            if rng.below(8) < 3 {
                let key = (rng.below(32) as u8, rng.below(16) as u8);
                let deadline = 1 + rng.below(9_999);
                if pending.contains_key(&key) || pending.len() >= MAX_TIMERS {
                    continue;
                }
                register_deadline(&mut t, deadline, TaskId::new(key.0, key.1)).unwrap();
                pending.insert(key, deadline);
            } else {
                now += 1 + rng.below(1_000);
                poll_timers(&mut t, &mut w, &mut p, now);
                let mut expected: Vec<(u8, u8)> =
                    pending.iter().filter(|(_, &d)| d <= now).map(|(&k, _)| k).collect();
                let mut actual = Vec::new();
                while let Some(id) = waker::next_ready(&mut w) {
                    actual.push((id.priority(), id.index()));
                }
                expected.sort();
                actual.sort();
                assert_eq!(actual, expected, "at {now}");
                for key in &expected {
                    pending.remove(key);
                }
                assert_eq!(slots_in_use(&t), pending.len());
            }
        }
        now += 10_000;
        poll_timers(&mut t, &mut w, &mut p, now);
        while let Some(id) = waker::next_ready(&mut w) {
            assert!(pending.remove(&(id.priority(), id.index())).is_some());
        }
        assert!(pending.is_empty());
        assert_eq!(slots_in_use(&t), 0);
    }
}

#[test]
fn channel_is_a_bounded_queue() {
    let mut rng = Rng(11);
    let mut chan: Channel<u64, 5> = Channel::default();
    let mut w = WakerState::new();
    let (tx, rx) = chan.split().unwrap();
    let mut model: VecDeque<u64> = VecDeque::new();
    for n in 0..1000 {
        if rng.below(2) == 0 {
            let sent = tx.try_send(&mut chan, &mut w, n);
            if model.len() < 4 {
                assert_eq!(sent, Ok(()));
                model.push_back(n);
            } else {
                assert_eq!(sent, Err(n));
            }
        } else {
            assert_eq!(rx.try_recv(&mut chan, &mut w), model.pop_front());
        }
        assert_eq!(chan.front(), model.front());
    }
}

#[test]
fn as_many_releases_as_waiters_serve_everyone() {
    let mut sem: Semaphore<3> = Semaphore::new(0);
    let mut w = WakerState::new();
    let waiters = [(4, 1), (4, 0), (9, 3), (0, 2)];
    for (p, i) in waiters {
        sem.register_waiter(TaskId::new(p, i));
    }
    for _ in 0..waiters.len() {
        sem.release(&mut w);
    }
    let mut woken = Vec::new();
    while let Some(id) = waker::next_ready(&mut w) {
        woken.push((id.priority(), id.index()));
    }
    assert_eq!(woken, vec![(9, 3), (4, 0), (4, 1), (0, 2)]);
    assert_eq!(sem.debug_waiters(), [0; 32]);
}

#[test]
fn decisions_are_measured() {
    let mut h = Histograms::new();
    decision_measured(&mut h, u64::MAX, 9);
    assert_eq!(latency::max_cycles(&h, Kind::DispatchDecision), 10);
    assert_eq!(latency::snapshot(&h, Kind::DispatchDecision)[3], 1);
}

#[test]
fn stack_storage_is_zeroed() {
    let s: Stack<64> = Stack::default();
    assert_eq!(s.0, [0; 64]);
}
