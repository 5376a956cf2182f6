//! A summary of the system as text.
use crate::exec_time::{self, share};
use crate::kernel::Kernel;
use crate::latency::{self, Histograms, Kind, ALL_KINDS, BUCKETS, KINDS};
use crate::log::{self, Log};
use crate::preempt::tcb::{TaskState, Tcb, MAX_PTASKS};
use crate::text::{self, dec, lit, put_dec, put_str};
use crate::timer::{self, used_slots, MAX_TIMERS};
use vstd::prelude::*;
use vstd::utf8::encode_utf8;

verus! {

/// What a task's state is called.
pub open spec fn state_name(t: &Tcb) -> Seq<u8> {
    if t.exited {
        lit("exited")
    } else {
        match t.observed() {
            TaskState::Ready => lit("ready"),
            TaskState::Running => lit("running"),
            TaskState::Blocked => lit("blocked"),
        }
    }
}

/// The line of task `id`, of whose stack `used` bytes have been used and which
/// had `busy` per cent of the processor. A priority in force that differs from
/// the declared one, a known stack and held mutexes are mentioned.
pub open spec fn task_line(t: &Tcb, id: nat, used: nat, busy: nat) -> Seq<u8> {
    let head = lit("task ") + dec(id) + lit(" prio=") + dec(t.base_priority as nat);
    let ranked = if t.effective_priority != t.base_priority {
        head + lit("(eff=") + dec(t.effective_priority as nat) + lit(")")
    } else {
        head
    };
    let stated = ranked + lit(" state=") + state_name(t);
    let stacked = if t.stack_base != 0 && t.stack_size != 0 {
        stated + lit(" stack=") + dec(used) + lit("/") + dec(t.stack_size as nat)
    } else {
        stated
    };
    let holding = if t.held_count != 0 {
        stacked + lit(" held_mutexes=") + dec(t.held_count as nat)
    } else {
        stacked
    };
    holding + lit(" busy=") + dec(busy) + lit("%") + lit("\n")
}

/// `said`, followed by the lines of the live tasks among the first `n`.
pub open spec fn task_lines(
    said: Seq<u8>,
    k: &Kernel,
    used: Seq<usize>,
    now: u64,
    n: nat,
) -> Seq<u8>
    decreases n,
{
    if n == 0 {
        said
    } else {
        let before = task_lines(said, k, used, now, (n - 1) as nat);
        let t = k.preempt.tasks[n - 1];
        if t.used {
            before + task_line(
                &t,
                (n - 1) as nat,
                used[n - 1] as nat,
                share(&k.exec_time, n - 1, now) as nat,
            )
        } else {
            before
        }
    }
}

/// Live tasks among the first `n`.
pub open spec fn live_tasks(k: &Kernel, n: nat) -> nat
    decreases n,
{
    if n == 0 {
        0
    } else {
        live_tasks(k, (n - 1) as nat) + if k.preempt.tasks[n - 1].used {
            1nat
        } else {
            0nat
        }
    }
}

/// `said`, followed by the first `n` buckets that are not empty.
pub open spec fn bucket_list(said: Seq<u8>, counts: Seq<u32>, n: nat) -> Seq<u8>
    decreases n,
{
    if n == 0 {
        said
    } else {
        let before = bucket_list(said, counts, (n - 1) as nat);
        if counts[n - 1] == 0 {
            before
        } else {
            before + lit("2^") + dec((n - 1) as nat) + lit(":") + dec(counts[n - 1] as nat) + lit(
                " ",
            )
        }
    }
}

/// There is a sample among the first `n` buckets.
pub open spec fn sampled(counts: Seq<u32>, n: nat) -> bool {
    exists|b: int| 0 <= b < n && #[trigger] counts[b] != 0
}

/// `said`, followed by the lines of the first `n` kinds of latency.
pub open spec fn latency_lines(said: Seq<u8>, h: &Histograms, n: nat) -> Seq<u8>
    decreases n,
{
    if n == 0 {
        said
    } else {
        let kind = ALL_KINDS[n - 1];
        let counts = h.counts[latency::place(kind)]@;
        let head = latency_lines(said, h, (n - 1) as nat) + lit("  ") + encode_utf8(
            latency::name_of(kind),
        ) + lit(": ");
        let listed = bucket_list(head, counts, BUCKETS as nat);
        let closed = if sampled(counts, BUCKETS as nat) {
            listed + lit("max=") + dec(h.max[latency::place(kind)] as nat)
        } else {
            listed + lit("(no samples)")
        };
        closed + lit("\n")
    }
}

/// The whole summary. The histograms are part of it only on request
/// (`histograms`).
pub open spec fn report_text(
    k: &Kernel,
    l: &Log,
    used: Seq<usize>,
    now: u64,
    histograms: bool,
) -> Seq<u8> {
    let tasks = task_lines(lit("=== rivet::report() ===\n"), k, used, now, MAX_PTASKS as nat);
    let slots = tasks + lit("ptask slots: ") + dec(live_tasks(k, MAX_PTASKS as nat)) + lit("/")
        + dec(MAX_PTASKS as nat) + lit("\ntimer slots: ") + dec(used_slots(k.timers.slots@)) + lit(
        "/",
    ) + dec(MAX_TIMERS as nat) + lit("\n");
    let logged = slots + lit("log: ") + dec(l.lost() as nat) + lit(" dropped frame(s)\n");
    let measured = if histograms {
        latency_lines(
            logged + lit("latency (cycles, log2 buckets):\n"),
            &k.latency,
            KINDS as nat,
        )
    } else {
        logged
    };
    measured + lit("=== end report ===\n")
}

fn put_task_line(t: &Tcb, id: usize, used: usize, busy: u8, out: &mut Vec<u8>)
    ensures
        final(out)@ == old(out)@ + task_line(t, id as nat, used as nat, busy as nat),
{
    let mut line: Vec<u8> = Vec::new();
    put_str(&mut line, "task ");
    assert(line@ =~= lit("task "));
    put_dec(&mut line, id as u64);
    put_str(&mut line, " prio=");
    put_dec(&mut line, t.base_priority as u64);
    if t.effective_priority != t.base_priority {
        put_str(&mut line, "(eff=");
        put_dec(&mut line, t.effective_priority as u64);
        put_str(&mut line, ")");
    }
    put_str(&mut line, " state=");
    if t.exited {
        put_str(&mut line, "exited");
    } else {
        match t.state() {
            TaskState::Ready => put_str(&mut line, "ready"),
            TaskState::Running => put_str(&mut line, "running"),
            TaskState::Blocked => put_str(&mut line, "blocked"),
        }
    }
    if t.stack_base != 0 && t.stack_size != 0 {
        put_str(&mut line, " stack=");
        put_dec(&mut line, used as u64);
        put_str(&mut line, "/");
        put_dec(&mut line, t.stack_size as u64);
    }
    if t.held_count != 0 {
        put_str(&mut line, " held_mutexes=");
        put_dec(&mut line, t.held_count as u64);
    }
    put_str(&mut line, " busy=");
    put_dec(&mut line, busy as u64);
    put_str(&mut line, "%");
    put_str(&mut line, "\n");
    text::put_bytes(out, &line);
}

/// Write the latency histogram of one kind.
fn put_latency_line(h: &Histograms, kind: Kind, out: &mut Vec<u8>)
    ensures
        final(out)@ == ({
            let counts = h.counts[latency::place(kind)]@;
            let head = old(out)@ + lit("  ") + encode_utf8(latency::name_of(kind)) + lit(": ");
            let listed = bucket_list(head, counts, BUCKETS as nat);
            let closed = if sampled(counts, BUCKETS as nat) {
                listed + lit("max=") + dec(h.max[latency::place(kind)] as nat)
            } else {
                listed + lit("(no samples)")
            };
            closed + lit("\n")
        }),
{
    put_str(out, "  ");
    put_str(out, latency::name(kind));
    put_str(out, ": ");
    let ghost head = out@;
    let counts = latency::snapshot(h, kind);
    let mut any = false;
    let mut b: usize = 0;
    while b < BUCKETS
        invariant
            b <= BUCKETS,
            any == sampled(counts@, b as nat),
            out@ == bucket_list(head, counts@, b as nat),
        decreases BUCKETS - b,
    {
        let count: u32 = counts[b];
        if count != 0 {
            any = true;
            put_str(out, "2^");
            put_dec(out, b as u64);
            put_str(out, ":");
            put_dec(out, count as u64);
            put_str(out, " ");
            assert(counts@[b as int] != 0);
        } else {
            assert(sampled(counts@, (b + 1) as nat) ==> sampled(counts@, b as nat));
        }
        b = b + 1;
    }
    if !any {
        put_str(out, "(no samples)");
    } else {
        put_str(out, "max=");
        put_dec(out, latency::max_cycles(h, kind) as u64);
    }
    put_str(out, "\n");
}

fn print_latency_histograms(h: &Histograms, out: &mut Vec<u8>)
    ensures
        final(out)@ == latency_lines(
            old(out)@ + lit("latency (cycles, log2 buckets):\n"),
            h,
            KINDS as nat,
        ),
{
    put_str(out, "latency (cycles, log2 buckets):\n");
    let ghost said = out@;
    let mut i: usize = 0;
    while i < KINDS
        invariant
            i <= KINDS,
            out@ == latency_lines(said, h, i as nat),
        decreases KINDS - i,
    {
        put_latency_line(h, ALL_KINDS[i], out);
        i = i + 1;
    }
}

/// Write the summary. `used` holds the bytes of its stack that each task has
/// used, and `now` the cycle count. The latency histograms follow only where
/// the system collects them.
pub fn report(
    k: &Kernel,
    l: &Log,
    used: &[usize; MAX_PTASKS],
    now: u64,
    histograms: bool,
    out: &mut Vec<u8>,
)
    ensures
        final(out)@ == old(out)@ + report_text(k, l, used@, now, histograms),
{
    let mut all: Vec<u8> = Vec::new();
    put_str(&mut all, "=== rivet::report() ===\n");
    assert(all@ =~= lit("=== rivet::report() ===\n"));
    let mut used_count: usize = 0;
    let mut id: usize = 0;
    while id < MAX_PTASKS
        invariant
            id <= MAX_PTASKS,
            used_count <= id,
            used_count == live_tasks(k, id as nat),
            all@ == task_lines(lit("=== rivet::report() ===\n"), k, used@, now, id as nat),
        decreases MAX_PTASKS - id,
    {
        let t = &k.preempt.tasks[id];
        if t.used {
            used_count = used_count + 1;
            let busy: u8 = exec_time::busy_percent(&k.exec_time, id, now);
            put_task_line(t, id, used[id], busy, &mut all);
        }
        id = id + 1;
    }
    put_str(&mut all, "ptask slots: ");
    put_dec(&mut all, used_count as u64);
    put_str(&mut all, "/");
    put_dec(&mut all, MAX_PTASKS as u64);
    put_str(&mut all, "\ntimer slots: ");
    put_dec(&mut all, timer::slots_in_use(&k.timers) as u64);
    put_str(&mut all, "/");
    put_dec(&mut all, MAX_TIMERS as u64);
    put_str(&mut all, "\n");
    put_str(&mut all, "log: ");
    put_dec(&mut all, log::dropped_frames(l) as u64);
    put_str(&mut all, " dropped frame(s)\n");
    if histograms {
        print_latency_histograms(&k.latency, &mut all);
    }
    put_str(&mut all, "=== end report ===\n");
    text::put_bytes(out, &all);
}

proof fn lemma_no_lines(said: Seq<u8>, k: &Kernel, used: Seq<usize>, now: u64, n: nat)
    requires
        n <= MAX_PTASKS,
        forall|i: int| 0 <= i < n ==> !(#[trigger] k.preempt.tasks[i]).used,
    ensures
        task_lines(said, k, used, now, n) == said,
        live_tasks(k, n) == 0,
    decreases n,
{
    if n > 0 {
        lemma_no_lines(said, k, used, now, (n - 1) as nat);
        assert(!k.preempt.tasks[n - 1].used);
    }
}

proof fn lemma_one_line(
    said: Seq<u8>,
    k: &Kernel,
    used: Seq<usize>,
    now: u64,
    n: nat,
    id: int,
)
    requires
        0 <= id < n <= MAX_PTASKS,
        k.preempt.tasks[id].used,
        forall|i: int| 0 <= i < n && i != id ==> !(#[trigger] k.preempt.tasks[i]).used,
    ensures
        task_lines(said, k, used, now, n) == said + task_line(
            &k.preempt.tasks[id],
            id as nat,
            used[id] as nat,
            share(&k.exec_time, id, now) as nat,
        ),
        live_tasks(k, n) == 1,
    decreases n,
{
    if id == n - 1 {
        lemma_no_lines(said, k, used, now, (n - 1) as nat);
        assert(k.preempt.tasks[n - 1].used);
    } else {
        lemma_one_line(said, k, used, now, (n - 1) as nat, id);
        assert(!k.preempt.tasks[n - 1].used);
    }
}

/// What follows the tasks in a summary without histograms.
pub open spec fn closing(tasks: Seq<u8>, live: nat, armed: nat, lost: nat) -> Seq<u8> {
    tasks + lit("ptask slots: ") + dec(live) + lit("/") + dec(16) + lit("\ntimer slots: ") + dec(
        armed,
    ) + lit("/") + dec(16) + lit("\n") + lit("log: ") + dec(lost) + lit(" dropped frame(s)\n")
        + lit("=== end report ===\n")
}

/// The summary of a system without a task counts its slots, its armed timers
/// and the messages that it lost.
pub proof fn law_idle_system_is_summed_up(
    k: &Kernel,
    l: &Log,
    used: &[usize; MAX_PTASKS],
    now: u64,
    out: &mut Vec<u8>,
    armed: usize,
    lost: usize,
)
    requires
        forall|i: int| 0 <= i < MAX_PTASKS ==> !(#[trigger] k.preempt.tasks[i]).used,
        call_ensures(timer::slots_in_use, (&k.timers,), armed),
        call_ensures(log::dropped_frames, (l,), lost),
        call_ensures(report, (k, l, used, now, false, out), ()),
    ensures
        final(out)@ == old(out)@ + closing(
            lit("=== rivet::report() ===\n"),
            0,
            armed as nat,
            lost as nat,
        ),
{
    lemma_no_lines(lit("=== rivet::report() ===\n"), k, used@, now, MAX_PTASKS as nat);
}

/// The line of a ready task without anything special tells its priority, its
/// stack, and its share of the processor.
#[verifier::spinoff_prover]
#[verifier::rlimit(60)]
pub proof fn law_task_has_its_line(
    k: &Kernel,
    l: &Log,
    used: &[usize; MAX_PTASKS],
    now: u64,
    out: &mut Vec<u8>,
    id: usize,
    state: TaskState,
    busy: u8,
    armed: usize,
    lost: usize,
)
    requires
        id < MAX_PTASKS,
        k.preempt.tasks[id as int].used,
        forall|i: int|
            0 <= i < MAX_PTASKS && i != id ==> !(#[trigger] k.preempt.tasks[i]).used,
        !k.preempt.tasks[id as int].exited,
        k.preempt.tasks[id as int].effective_priority == k.preempt.tasks[id as int].base_priority,
        k.preempt.tasks[id as int].held_count == 0,
        k.preempt.tasks[id as int].stack_base != 0,
        k.preempt.tasks[id as int].stack_size != 0,
        call_ensures(Tcb::state, (&k.preempt.tasks[id as int],), state),
        call_ensures(exec_time::busy_percent, (&k.exec_time, id, now), busy),
        call_ensures(timer::slots_in_use, (&k.timers,), armed),
        call_ensures(log::dropped_frames, (l,), lost),
        call_ensures(report, (k, l, used, now, false, out), ()),
    ensures
        ({
            let t = k.preempt.tasks[id as int];
            let name = match state {
                TaskState::Ready => lit("ready"),
                TaskState::Running => lit("running"),
                TaskState::Blocked => lit("blocked"),
            };
            let line = lit("task ") + dec(id as nat) + lit(" prio=") + dec(t.base_priority as nat)
                + lit(" state=") + name + lit(" stack=") + dec(used[id as int] as nat) + lit("/")
                + dec(t.stack_size as nat) + lit(" busy=") + dec(busy as nat) + lit("%") + lit(
                "\n",
            );
            final(out)@ == old(out)@ + closing(
                lit("=== rivet::report() ===\n") + line,
                1,
                armed as nat,
                lost as nat,
            )
        }),
{
    lemma_one_line(
        lit("=== rivet::report() ===\n"),
        k,
        used@,
        now,
        MAX_PTASKS as nat,
        id as int,
    );
    assert(used@[id as int] == used[id as int]);
}

/// The line of a task that has exited says so; a raised priority and held
/// mutexes are mentioned, and a stack that is not known is not.
#[verifier::spinoff_prover]
#[verifier::rlimit(60)]
pub proof fn law_special_task_has_its_line(
    k: &Kernel,
    l: &Log,
    used: &[usize; MAX_PTASKS],
    now: u64,
    out: &mut Vec<u8>,
    id: usize,
    busy: u8,
    armed: usize,
    lost: usize,
)
    requires
        id < MAX_PTASKS,
        k.preempt.tasks[id as int].used,
        forall|i: int|
            0 <= i < MAX_PTASKS && i != id ==> !(#[trigger] k.preempt.tasks[i]).used,
        k.preempt.tasks[id as int].exited,
        k.preempt.tasks[id as int].effective_priority != k.preempt.tasks[id as int].base_priority,
        k.preempt.tasks[id as int].held_count != 0,
        k.preempt.tasks[id as int].stack_base == 0 || k.preempt.tasks[id as int].stack_size == 0,
        call_ensures(exec_time::busy_percent, (&k.exec_time, id, now), busy),
        call_ensures(timer::slots_in_use, (&k.timers,), armed),
        call_ensures(log::dropped_frames, (l,), lost),
        call_ensures(report, (k, l, used, now, false, out), ()),
    ensures
        ({
            let t = k.preempt.tasks[id as int];
            let line = lit("task ") + dec(id as nat) + lit(" prio=") + dec(t.base_priority as nat)
                + lit("(eff=") + dec(t.effective_priority as nat) + lit(")") + lit(" state=") + lit(
                "exited",
            ) + lit(" held_mutexes=") + dec(t.held_count as nat) + lit(" busy=") + dec(busy as nat)
                + lit("%") + lit("\n");
            final(out)@ == old(out)@ + closing(
                lit("=== rivet::report() ===\n") + line,
                1,
                armed as nat,
                lost as nat,
            )
        }),
{
    lemma_one_line(
        lit("=== rivet::report() ===\n"),
        k,
        used@,
        now,
        MAX_PTASKS as nat,
        id as int,
    );
}

proof fn lemma_no_buckets(said: Seq<u8>, counts: Seq<u32>, n: nat)
    requires
        n <= counts.len(),
        forall|b: int| 0 <= b < n ==> #[trigger] counts[b] == 0,
    ensures
        bucket_list(said, counts, n) == said,
        !sampled(counts, n),
    decreases n,
{
    if n > 0 {
        lemma_no_buckets(said, counts, (n - 1) as nat);
        assert(counts[n - 1] == 0);
    }
}

/// Histograms without a sample say so, one line for each kind, before the
/// summary ends.
#[verifier::spinoff_prover]
#[verifier::rlimit(60)]
pub proof fn law_empty_histograms_are_listed(
    k: &Kernel,
    l: &Log,
    used: &[usize; MAX_PTASKS],
    now: u64,
    with: &mut Vec<u8>,
    without: &mut Vec<u8>,
    head: Seq<u8>,
)
    requires
        forall|h: int, b: int|
            0 <= h < KINDS && 0 <= b < BUCKETS ==> #[trigger] k.latency.counts[h][b] == 0,
        call_ensures(report, (k, l, used, now, true, with), ()),
        call_ensures(report, (k, l, used, now, false, without), ()),
        *old(with) == *old(without),
        final(without)@ == old(without)@ + (head + lit("=== end report ===\n")),
    ensures
        final(with)@ == old(with)@ + (head + lit("latency (cycles, log2 buckets):\n") + lit("  ")
            + lit("irq_entry") + lit(": ") + lit("(no samples)") + lit("\n") + lit("  ") + lit(
            "dispatch",
        ) + lit(": ") + lit("(no samples)") + lit("\n") + lit("  ") + lit("critsec") + lit(": ")
            + lit("(no samples)") + lit("\n") + lit("  ") + lit("sched_wake") + lit(": ") + lit(
            "(no samples)",
        ) + lit("\n") + lit("=== end report ===\n")),
{
    let end = lit("=== end report ===\n");
    let logged = report_text(k, l, used@, now, false).take(
        report_text(k, l, used@, now, false).len() - end.len(),
    );
    let text = report_text(k, l, used@, now, false);
    assert(final(without)@.skip(old(without)@.len() as int) =~= text);
    assert(final(without)@.skip(old(without)@.len() as int) =~= head + end);
    assert(logged =~= head);
    let measured = latency_lines(head + lit("latency (cycles, log2 buckets):\n"), &k.latency, 4);
    assert(report_text(k, l, used@, now, true) == measured + end) by {
        let tasks = task_lines(
            lit("=== rivet::report() ===\n"),
            k,
            used@,
            now,
            MAX_PTASKS as nat,
        );
        let slots = tasks + lit("ptask slots: ") + dec(live_tasks(k, MAX_PTASKS as nat)) + lit("/")
            + dec(MAX_PTASKS as nat) + lit("\ntimer slots: ") + dec(used_slots(k.timers.slots@))
            + lit("/") + dec(MAX_TIMERS as nat) + lit("\n");
        let full = slots + lit("log: ") + dec(l.lost() as nat) + lit(" dropped frame(s)\n");
        assert(text == full + end);
        assert(full =~= text.take(text.len() - end.len()));
    }
    reveal_with_fuel(latency_lines, 5);
    let said0 = head + lit("latency (cycles, log2 buckets):\n");
    assert forall|h: int, said: Seq<u8>| 0 <= h < 4 implies #[trigger] bucket_list(
        said,
        k.latency.counts[h]@,
        BUCKETS as nat,
    ) == said && !sampled(k.latency.counts[h]@, BUCKETS as nat) by {
        assert forall|b: int| 0 <= b < BUCKETS implies #[trigger] k.latency.counts[h]@[b] == 0 by {
            assert(k.latency.counts[h][b] == 0);
        }
        lemma_no_buckets(said, k.latency.counts[h]@, BUCKETS as nat);
    }
    assert(latency_lines(said0, &k.latency, 1) == said0 + lit("  ") + lit("irq_entry") + lit(": ")
        + lit("(no samples)") + lit("\n"));
    let said1 = latency_lines(said0, &k.latency, 1);
    assert(latency_lines(said0, &k.latency, 2) == said1 + lit("  ") + lit("dispatch") + lit(": ")
        + lit("(no samples)") + lit("\n"));
    let said2 = latency_lines(said0, &k.latency, 2);
    assert(latency_lines(said0, &k.latency, 3) == said2 + lit("  ") + lit("critsec") + lit(": ")
        + lit("(no samples)") + lit("\n"));
    let said3 = latency_lines(said0, &k.latency, 3);
    assert(latency_lines(said0, &k.latency, 4) == said3 + lit("  ") + lit("sched_wake") + lit(": ")
        + lit("(no samples)") + lit("\n"));
}

} // verus!
