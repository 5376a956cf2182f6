//! A binary trace of what the kernel does.
//!
//! Each event is one frame: two sync bytes, the version, a running number, the
//! kind, the hart, the task, the time, the payload with its length, and a
//! checksum over all of it. Numbers are little-endian.
use crate::mmio::low_word;
use crate::preempt::sched::Preempt;
use crate::preempt::tcb::MAX_PTASKS;
use crate::text;
use vstd::prelude::*;

verus! {

/// First sync byte.
pub const SYNC0: u8 = 0xA5;

/// Second sync byte.
pub const SYNC1: u8 = 0x5A;

/// Version of the frame layout.
pub const PROTOCOL_VERSION: u8 = 1;

/// Stands for no task.
pub const NO_TASK: u32 = 0xFFFF_FFFF;

/// Longest payload.
pub const MAX_PAYLOAD: usize = 32;

/// Bytes of a frame besides its payload.
pub const FRAME_OVERHEAD: usize = 23;

/// Longest frame.
pub const MAX_FRAME: usize = 55;

/// Kinds of frames.
pub const STREAM_HEADER: u16 = 0x0701;

/// A task exists.
pub const TASK_CREATED: u16 = 0x0001;

/// The processor went to another task.
pub const CONTEXT_SWITCH: u16 = 0x0009;

/// An interrupt handler began.
pub const IRQ_ENTER: u16 = 0x0301;

/// An interrupt handler ended.
pub const IRQ_EXIT: u16 = 0x0302;

/// A mutex was taken.
pub const MUTEX_LOCK_ACQUIRED: u16 = 0x0102;

/// A mutex was given back.
pub const MUTEX_UNLOCK: u16 = 0x0104;

/// A holder was raised to a waiter's priority.
pub const PRIORITY_INHERIT: u16 = 0x0105;

/// A task faulted.
pub const HARD_FAULT: u16 = 0x0601;

/// A task overran its stack.
pub const STACK_OVERFLOW: u16 = 0x0605;

/// Ticks between two announcements of the tasks.
pub const REANNOUNCE_TICKS: u32 = 2000;

/// Why the processor went to another task.
#[derive(Clone, Copy, Debug, PartialEq, Eq, Structural)]
pub enum SwitchReason {
    /// A tick found a task that should run instead.
    Preempted,
    /// A sleep ended.
    TimerWake,
}

/// The number of a reason.
pub open spec fn reason_code(reason: SwitchReason) -> u8 {
    match reason {
        SwitchReason::Preempted => 0,
        SwitchReason::TimerWake => 6,
    }
}

/// What the trace remembers.
pub struct Trace {
    /// Number of the next frame.
    pub seq_no: u16,
    /// Processor clock, as last announced; zero if never.
    pub cpu_hz: u32,
    /// Harts, as last announced.
    pub max_harts: u8,
    /// Ticks seen.
    pub ticks: u32,
}

/// Where and when an event happens.
#[derive(Clone, Copy, Debug, PartialEq, Eq, Structural)]
pub struct Stamp {
    /// The hart.
    pub hart: u8,
    /// Time in microseconds.
    pub now_us: u64,
}

impl Trace {
    /// Nothing announced.
    pub fn new() -> (r: Self)
        ensures
            r.seq_no == 0,
            r.cpu_hz == 0,
            r.max_harts == 0,
            r.ticks == 0,
    {
        Trace { seq_no: 0, cpu_hz: 0, max_harts: 0, ticks: 0 }
    }

    /// The next frame number, which wraps.
    pub open spec fn next_no(&self, n: nat) -> int {
        (self.seq_no + n) % 0x1_0000
    }
}

/// The lowest `k` bytes of `n`, the lowest first.
pub open spec fn le(n: nat, k: nat) -> Seq<u8>
    decreases k,
{
    if k == 0 {
        Seq::empty()
    } else {
        seq![(n % 256) as u8] + le(n / 256, (k - 1) as nat)
    }
}

/// The number whose lowest bytes are `s`, the lowest first.
pub open spec fn from_le(s: Seq<u8>) -> nat
    decreases s.len(),
{
    if s.len() == 0 {
        0
    } else {
        s[0] as nat + 256 * from_le(s.skip(1))
    }
}

/// One bit of the checksum's shift register.
pub open spec fn crc_shift(crc: u16) -> u16 {
    if crc & 0x8000 != 0 {
        (crc << 1) ^ 0x1021
    } else {
        crc << 1
    }
}

/// `n` bits of the shift register.
pub open spec fn crc_shifts(crc: u16, n: nat) -> u16
    decreases n,
{
    if n == 0 {
        crc
    } else {
        crc_shift(crc_shifts(crc, (n - 1) as nat))
    }
}

/// The checksum of `data`: polynomial 0x1021, all ones at first.
pub open spec fn crc_of(data: Seq<u8>) -> u16
    decreases data.len(),
{
    if data.len() == 0 {
        0xFFFF
    } else {
        crc_shifts(crc_of(data.drop_last()) ^ ((data.last() as u16) << 8), 8)
    }
}

/// A frame without its checksum.
pub open spec fn frame_body(
    seq_no: u16,
    kind: u16,
    hart: u8,
    task: u32,
    time: u64,
    payload: Seq<u8>,
) -> Seq<u8> {
    seq![SYNC0, SYNC1, PROTOCOL_VERSION] + le(seq_no as nat, 2) + le(kind as nat, 2) + seq![hart]
        + le(task as nat, 4) + le(time as nat, 8) + seq![payload.len() as u8] + payload
}

/// A frame.
pub open spec fn frame(
    seq_no: u16,
    kind: u16,
    hart: u8,
    task: u32,
    time: u64,
    payload: Seq<u8>,
) -> Seq<u8> {
    let body = frame_body(seq_no, kind, hart, task, time, payload);
    body + le(crc_of(body) as nat, 2)
}

/// The checksum of `data`.
pub fn crc16(data: &[u8]) -> (r: u16)
    ensures
        r == crc_of(data@),
{
    let mut crc: u16 = 0xFFFF;
    let n: usize = data.len();
    let mut i: usize = 0;
    proof {
        assert(data@.take(0) =~= Seq::<u8>::empty());
    }
    while i < n
        invariant
            i <= n,
            n == data@.len(),
            crc == crc_of(data@.take(i as int)),
        decreases n - i,
    {
        let byte: u16 = data[i] as u16;
        let mixed: u16 = crc ^ (byte << 8);
        crc = mixed;
        let mut k: u32 = 0;
        while k < 8
            invariant
                k <= 8,
                crc == crc_shifts(mixed, k as nat),
            decreases 8 - k,
        {
            if crc & 0x8000 != 0 {
                crc = (crc << 1) ^ 0x1021;
            } else {
                crc = crc << 1;
            }
            k = k + 1;
        }
        proof {
            let next = data@.take(i + 1);
            assert(next.drop_last() =~= data@.take(i as int));
            assert(next.last() == data@[i as int]);
        }
        i = i + 1;
    }
    assert(data@.take(n as int) =~= data@);
    crc
}

proof fn lemma_le_len(n: nat, k: nat)
    ensures
        le(n, k).len() == k,
    decreases k,
{
    if k > 0 {
        lemma_le_len(n / 256, (k - 1) as nat);
    }
}

/// Append the lowest `k` bytes of `n`.
fn put_le(out: &mut Vec<u8>, n: u64, k: usize)
    ensures
        final(out)@ == old(out)@ + le(n as nat, k as nat),
{
    let ghost start = out@;
    let ghost goal = le(n as nat, k as nat);
    let mut rest: u64 = n;
    let mut i: usize = 0;
    while i < k
        invariant
            i <= k,
            start + goal == out@ + le(rest as nat, (k - i) as nat),
        decreases k - i,
    {
        let ghost said = out@;
        let b: u8 = (rest % 256) as u8;
        out.push(b);
        proof {
            assert(out@ =~= said + seq![b]);
            text::lemma_cat(said, seq![b], le((rest / 256) as nat, (k - i - 1) as nat));
        }
        rest = rest / 256;
        i = i + 1;
    }
    proof {
        text::lemma_cat_empty(out@);
    }
}

/// Make a frame, and count it.
pub fn encode(t: &mut Trace, kind: u16, task_id: u32, at: Stamp, payload: &[u8]) -> (r: Vec<u8>)
    requires
        payload@.len() <= MAX_PAYLOAD,
    ensures
        r@ == frame(old(t).seq_no, kind, at.hart, task_id, at.now_us, payload@),
        *final(t) == (Trace { seq_no: old(t).next_no(1) as u16, ..*old(t) }),
{
    let seq_no: u16 = t.seq_no;
    t.seq_no = seq_no.wrapping_add(1);
    let mut buf: Vec<u8> = Vec::new();
    buf.push(SYNC0);
    buf.push(SYNC1);
    buf.push(PROTOCOL_VERSION);
    assert(buf@ =~= seq![SYNC0, SYNC1, PROTOCOL_VERSION]);
    put_le(&mut buf, seq_no as u64, 2);
    put_le(&mut buf, kind as u64, 2);
    let ghost before = buf@;
    buf.push(at.hart);
    assert(buf@ =~= before + seq![at.hart]);
    put_le(&mut buf, task_id as u64, 4);
    put_le(&mut buf, at.now_us, 8);
    let ghost before = buf@;
    buf.push(payload.len() as u8);
    assert(buf@ =~= before + seq![payload@.len() as u8]);
    text::put_bytes(&mut buf, payload);
    let crc: u16 = crc16(&buf);
    put_le(&mut buf, crc as u64, 2);
    buf
}

/// Append a frame.
fn emit(t: &mut Trace, kind: u16, task_id: u32, at: Stamp, payload: &[u8], out: &mut Vec<u8>)
    requires
        payload@.len() <= MAX_PAYLOAD,
    ensures
        final(out)@ == old(out)@ + frame(
            old(t).seq_no,
            kind,
            at.hart,
            task_id,
            at.now_us,
            payload@,
        ),
        *final(t) == (Trace { seq_no: old(t).next_no(1) as u16, ..*old(t) }),
{
    let bytes = encode(t, kind, task_id, at, payload);
    text::put_bytes(out, &bytes);
}

/// The payload of a stream header: version 0.1.0, the clock and the harts.
pub open spec fn header_payload(cpu_hz: u32, max_harts: u8) -> Seq<u8> {
    seq![0u8, 1u8, 0u8] + le(cpu_hz as nat, 4) + seq![max_harts]
}

/// Announce the stream, and remember what was announced.
pub fn stream_header(t: &mut Trace, cpu_hz: u32, max_harts: u8, at: Stamp, out: &mut Vec<u8>)
    ensures
        final(out)@ == old(out)@ + frame(
            old(t).seq_no,
            STREAM_HEADER,
            at.hart,
            NO_TASK,
            at.now_us,
            header_payload(cpu_hz, max_harts),
        ),
        *final(t) == (Trace {
            seq_no: old(t).next_no(1) as u16,
            cpu_hz,
            max_harts,
            ticks: old(t).ticks,
        }),
{
    t.cpu_hz = cpu_hz;
    t.max_harts = max_harts;
    let mut payload: Vec<u8> = Vec::new();
    payload.push(0);
    payload.push(1);
    payload.push(0);
    assert(payload@ =~= seq![0u8, 1u8, 0u8]);
    put_le(&mut payload, cpu_hz as u64, 4);
    let ghost before = payload@;
    payload.push(max_harts);
    proof {
        assert(payload@ =~= before + seq![max_harts]);
        lemma_le_len(cpu_hz as nat, 4);
    }
    emit(t, STREAM_HEADER, NO_TASK, at, &payload, out);
}

/// Announce the stream again, as it was announced last. Does nothing if it
/// never was.
pub fn reannounce_stream_header(t: &mut Trace, at: Stamp, out: &mut Vec<u8>)
    ensures
        old(t).cpu_hz == 0 ==> *final(t) == *old(t) && final(out)@ == old(out)@,
        old(t).cpu_hz != 0 ==> *final(t) == (Trace {
            seq_no: old(t).next_no(1) as u16,
            ..*old(t)
        }) && final(out)@ == old(out)@ + frame(
            old(t).seq_no,
            STREAM_HEADER,
            at.hart,
            NO_TASK,
            at.now_us,
            header_payload(old(t).cpu_hz, old(t).max_harts),
        ),
{
    let cpu_hz: u32 = t.cpu_hz;
    if cpu_hz == 0 {
        return ;
    }
    let max_harts: u8 = t.max_harts;
    stream_header(t, cpu_hz, max_harts, at, out);
}

/// The payload of a task's announcement.
pub open spec fn created_payload(priority: u8, stack_size: u32) -> Seq<u8> {
    seq![priority] + le(stack_size as nat, 4)
}

/// A task exists.
pub fn task_created(
    t: &mut Trace,
    task_id: u16,
    priority: u8,
    stack_size: u32,
    at: Stamp,
    out: &mut Vec<u8>,
)
    ensures
        final(out)@ == old(out)@ + frame(
            old(t).seq_no,
            TASK_CREATED,
            at.hart,
            task_id as u32,
            at.now_us,
            created_payload(priority, stack_size),
        ),
        *final(t) == (Trace { seq_no: old(t).next_no(1) as u16, ..*old(t) }),
{
    let mut payload: Vec<u8> = Vec::new();
    payload.push(priority);
    assert(payload@ =~= seq![priority]);
    put_le(&mut payload, stack_size as u64, 4);
    proof {
        lemma_le_len(stack_size as nat, 4);
    }
    emit(t, TASK_CREATED, task_id as u32, at, &payload, out);
}

/// The payload of a context switch.
pub open spec fn switch_payload(prev_task: u16, next_task: u16, reason: SwitchReason) -> Seq<u8> {
    le(prev_task as nat, 4) + le(next_task as nat, 4) + seq![reason_code(reason)]
}

/// The processor went from one task to another.
pub fn context_switch(
    t: &mut Trace,
    prev_task: u16,
    next_task: u16,
    reason: SwitchReason,
    at: Stamp,
    out: &mut Vec<u8>,
)
    ensures
        final(out)@ == old(out)@ + frame(
            old(t).seq_no,
            CONTEXT_SWITCH,
            at.hart,
            next_task as u32,
            at.now_us,
            switch_payload(prev_task, next_task, reason),
        ),
        *final(t) == (Trace { seq_no: old(t).next_no(1) as u16, ..*old(t) }),
{
    let mut payload: Vec<u8> = Vec::new();
    put_le(&mut payload, prev_task as u64, 4);
    assert(payload@ =~= le(prev_task as nat, 4));
    put_le(&mut payload, next_task as u64, 4);
    let code: u8 = match reason {
        SwitchReason::Preempted => 0,
        SwitchReason::TimerWake => 6,
    };
    let ghost before = payload@;
    payload.push(code);
    proof {
        assert(payload@ =~= before + seq![code]);
        lemma_le_len(prev_task as nat, 4);
        lemma_le_len(next_task as nat, 4);
    }
    emit(t, CONTEXT_SWITCH, next_task as u32, at, &payload, out);
}

/// A frame whose payload is one number.
fn emit_word(t: &mut Trace, kind: u16, task_id: u32, word: u32, at: Stamp, out: &mut Vec<u8>)
    ensures
        final(out)@ == old(out)@ + frame(
            old(t).seq_no,
            kind,
            at.hart,
            task_id,
            at.now_us,
            le(word as nat, 4),
        ),
        *final(t) == (Trace { seq_no: old(t).next_no(1) as u16, ..*old(t) }),
{
    let mut payload: Vec<u8> = Vec::new();
    put_le(&mut payload, word as u64, 4);
    proof {
        assert(payload@ =~= le(word as nat, 4));
        lemma_le_len(word as nat, 4);
    }
    emit(t, kind, task_id, at, &payload, out);
}

/// An interrupt handler began or ended.
pub fn isr(t: &mut Trace, irq: u32, entry: bool, at: Stamp, out: &mut Vec<u8>)
    ensures
        final(out)@ == old(out)@ + frame(
            old(t).seq_no,
            if entry {
                IRQ_ENTER
            } else {
                IRQ_EXIT
            },
            at.hart,
            NO_TASK,
            at.now_us,
            le(irq as nat, 4),
        ),
        *final(t) == (Trace { seq_no: old(t).next_no(1) as u16, ..*old(t) }),
{
    let kind: u16 = if entry {
        IRQ_ENTER
    } else {
        IRQ_EXIT
    };
    emit_word(t, kind, NO_TASK, irq, at, out);
}

/// A task took a mutex.
pub fn mutex_lock_acquired(
    t: &mut Trace,
    task_id: u16,
    mutex_id: u32,
    at: Stamp,
    out: &mut Vec<u8>,
)
    ensures
        final(out)@ == old(out)@ + frame(
            old(t).seq_no,
            MUTEX_LOCK_ACQUIRED,
            at.hart,
            task_id as u32,
            at.now_us,
            le(mutex_id as nat, 4),
        ),
        *final(t) == (Trace { seq_no: old(t).next_no(1) as u16, ..*old(t) }),
{
    emit_word(t, MUTEX_LOCK_ACQUIRED, task_id as u32, mutex_id, at, out);
}

/// A task gave a mutex back.
pub fn mutex_unlock(t: &mut Trace, task_id: u16, mutex_id: u32, at: Stamp, out: &mut Vec<u8>)
    ensures
        final(out)@ == old(out)@ + frame(
            old(t).seq_no,
            MUTEX_UNLOCK,
            at.hart,
            task_id as u32,
            at.now_us,
            le(mutex_id as nat, 4),
        ),
        *final(t) == (Trace { seq_no: old(t).next_no(1) as u16, ..*old(t) }),
{
    emit_word(t, MUTEX_UNLOCK, task_id as u32, mutex_id, at, out);
}

/// A task was raised to the priority of one that waits for its mutex.
pub fn priority_inherit(t: &mut Trace, task_id: u16, mutex_id: u32, at: Stamp, out: &mut Vec<u8>)
    ensures
        final(out)@ == old(out)@ + frame(
            old(t).seq_no,
            PRIORITY_INHERIT,
            at.hart,
            task_id as u32,
            at.now_us,
            le(mutex_id as nat, 4),
        ),
        *final(t) == (Trace { seq_no: old(t).next_no(1) as u16, ..*old(t) }),
{
    emit_word(t, PRIORITY_INHERIT, task_id as u32, mutex_id, at, out);
}

/// A task faulted. Reason 4 is a stack overflow.
pub fn fault(t: &mut Trace, task_id: u16, reason: u8, pc: u32, at: Stamp, out: &mut Vec<u8>)
    ensures
        final(out)@ == old(out)@ + frame(
            old(t).seq_no,
            if reason == 4 {
                STACK_OVERFLOW
            } else {
                HARD_FAULT
            },
            at.hart,
            task_id as u32,
            at.now_us,
            le(reason as nat, 4) + le(pc as nat, 4),
        ),
        *final(t) == (Trace { seq_no: old(t).next_no(1) as u16, ..*old(t) }),
{
    let mut payload: Vec<u8> = Vec::new();
    put_le(&mut payload, reason as u64, 4);
    assert(payload@ =~= le(reason as nat, 4));
    put_le(&mut payload, pc as u64, 4);
    let kind: u16 = if reason == 4 {
        STACK_OVERFLOW
    } else {
        HARD_FAULT
    };
    proof {
        lemma_le_len(reason as nat, 4);
        lemma_le_len(pc as nat, 4);
    }
    emit(t, kind, task_id as u32, at, &payload, out);
}

/// Live tasks among the first `n`.
pub open spec fn announced(p: &Preempt, n: nat) -> nat
    decreases n,
{
    if n == 0 {
        0
    } else {
        announced(p, (n - 1) as nat) + if p.tasks[n - 1].used {
            1nat
        } else {
            0nat
        }
    }
}

/// `said`, followed by the announcements of the live tasks among the first
/// `n`.
pub open spec fn announcements(
    said: Seq<u8>,
    t: &Trace,
    p: &Preempt,
    at: Stamp,
    n: nat,
) -> Seq<u8>
    decreases n,
{
    if n == 0 {
        said
    } else {
        let before = announcements(said, t, p, at, (n - 1) as nat);
        let task = p.tasks[n - 1];
        if task.used {
            before + frame(
                t.next_no(announced(p, (n - 1) as nat)) as u16,
                TASK_CREATED,
                at.hart,
                (n - 1) as u32,
                at.now_us,
                created_payload(task.base_priority, low_word(task.stack_size as int)),
            )
        } else {
            before
        }
    }
}

/// Announce every live task, so that a listener that joined late knows them.
pub fn reannounce_all_tasks(t: &mut Trace, p: &Preempt, at: Stamp, out: &mut Vec<u8>)
    ensures
        final(out)@ == announcements(old(out)@, old(t), p, at, MAX_PTASKS as nat),
        *final(t) == (Trace {
            seq_no: old(t).next_no(announced(p, MAX_PTASKS as nat)) as u16,
            ..*old(t)
        }),
{
    let mut id: usize = 0;
    while id < MAX_PTASKS
        invariant
            id <= MAX_PTASKS,
            announced(p, id as nat) <= id,
            out@ == announcements(old(out)@, old(t), p, at, id as nat),
            *t == (Trace { seq_no: old(t).next_no(announced(p, id as nat)) as u16, ..*old(t) }),
        decreases MAX_PTASKS - id,
    {
        let task = &p.tasks[id];
        if task.used {
            let size: u32 = (task.stack_size as u64 % 0x1_0000_0000) as u32;
            task_created(t, id as u16, task.base_priority, size, at, out);
        }
        id = id + 1;
    }
}

/// The trace of one tick: the switch that it made, if any, and every
/// [`REANNOUNCE_TICKS`] ticks the tasks and the stream again.
pub fn tick(
    t: &mut Trace,
    p: &Preempt,
    switch: Option<(u16, u16)>,
    at: Stamp,
    out: &mut Vec<u8>,
)
    ensures
        final(t).ticks == (if old(t).ticks == u32::MAX {
            0
        } else {
            (old(t).ticks + 1) as u32
        }),
        ({
            let (said, counted) = match switch {
                Some((prev, next)) => (
                    old(out)@ + frame(
                        old(t).seq_no,
                        CONTEXT_SWITCH,
                        at.hart,
                        next as u32,
                        at.now_us,
                        switch_payload(prev, next, SwitchReason::Preempted),
                    ),
                    Trace { seq_no: old(t).next_no(1) as u16, ..*old(t) },
                ),
                None => (old(out)@, *old(t)),
            };
            if old(t).ticks % REANNOUNCE_TICKS != 0 {
                final(out)@ == said && final(t).seq_no == counted.seq_no
            } else {
                let tasks = announcements(said, &counted, p, at, MAX_PTASKS as nat);
                let no = counted.next_no(announced(p, MAX_PTASKS as nat)) as u16;
                if old(t).cpu_hz == 0 {
                    final(out)@ == tasks && final(t).seq_no == no
                } else {
                    &&& final(out)@ == tasks + frame(
                        no,
                        STREAM_HEADER,
                        at.hart,
                        NO_TASK,
                        at.now_us,
                        header_payload(old(t).cpu_hz, old(t).max_harts),
                    )
                    &&& final(t).seq_no == (no + 1) % 0x1_0000
                }
            }
        }),
        final(t).cpu_hz == old(t).cpu_hz,
        final(t).max_harts == old(t).max_harts,
{
    if let Some((prev, next)) = switch {
        context_switch(t, prev, next, SwitchReason::Preempted, at, out);
    }
    let seen: u32 = t.ticks;
    if seen % REANNOUNCE_TICKS == 0 {
        reannounce_all_tasks(t, p, at, out);
        reannounce_stream_header(t, at, out);
    }
    t.ticks = seen.wrapping_add(1);
}

proof fn lemma_le_round_trip(n: nat, k: nat, limit: nat)
    requires
        n < limit,
        limit == vstd::arithmetic::power::pow(256, k),
    ensures
        from_le(le(n, k)) == n,
        le(n, k).len() == k,
    decreases k,
{
    lemma_le_len(n, k);
    if k == 0 {
        vstd::arithmetic::power::lemma_pow0(256);
    } else {
        let rest = vstd::arithmetic::power::pow(256, (k - 1) as nat) as nat;
        vstd::arithmetic::power::lemma_pow_positive(256, (k - 1) as nat);
        assert(limit == 256 * rest) by {
            reveal(vstd::arithmetic::power::pow);
        }
        lemma_le_round_trip(n / 256, (k - 1) as nat, rest);
        assert(le(n, k).skip(1) =~= le(n / 256, (k - 1) as nat));
    }
}

/// A reader gets every field of a frame back, and finds the checksum of what
/// precedes it at its end.
#[verifier::spinoff_prover]
#[verifier::rlimit(80)]
pub proof fn law_frame_can_be_read(
    seq_no: u16,
    kind: u16,
    hart: u8,
    task: u32,
    time: u64,
    payload: Seq<u8>,
)
    requires
        payload.len() <= MAX_PAYLOAD,
    ensures
        ({
            let f = frame(seq_no, kind, hart, task, time, payload);
            let n = payload.len() as int;
            &&& f.len() == FRAME_OVERHEAD + n
            &&& f.subrange(0, 3) == seq![SYNC0, SYNC1, PROTOCOL_VERSION]
            &&& from_le(f.subrange(3, 5)) == seq_no
            &&& from_le(f.subrange(5, 7)) == kind
            &&& f[7] == hart
            &&& from_le(f.subrange(8, 12)) == task
            &&& from_le(f.subrange(12, 20)) == time
            &&& f[20] == n
            &&& f.subrange(21, 21 + n) == payload
            &&& from_le(f.subrange(21 + n, 23 + n)) == crc_of(f.subrange(0, 21 + n))
        }),
{
    let f = frame(seq_no, kind, hart, task, time, payload);
    let n = payload.len() as int;
    let body = frame_body(seq_no, kind, hart, task, time, payload);
    assert(vstd::arithmetic::power::pow(256, 2) == 0x1_0000) by {
        reveal_with_fuel(vstd::arithmetic::power::pow, 3);
    }
    assert(vstd::arithmetic::power::pow(256, 4) == 0x1_0000_0000) by {
        reveal_with_fuel(vstd::arithmetic::power::pow, 5);
    }
    assert(vstd::arithmetic::power::pow(256, 8) == 0x1_0000_0000_0000_0000) by {
        reveal_with_fuel(vstd::arithmetic::power::pow, 9);
    }
    lemma_le_round_trip(seq_no as nat, 2, 0x1_0000);
    lemma_le_round_trip(kind as nat, 2, 0x1_0000);
    lemma_le_round_trip(task as nat, 4, 0x1_0000_0000);
    lemma_le_round_trip(time as nat, 8, 0x1_0000_0000_0000_0000);
    lemma_le_round_trip(crc_of(body) as nat, 2, 0x1_0000);
    assert(f.subrange(0, 3) =~= seq![SYNC0, SYNC1, PROTOCOL_VERSION]);
    assert(f.subrange(3, 5) =~= le(seq_no as nat, 2));
    assert(f.subrange(5, 7) =~= le(kind as nat, 2));
    assert(f.subrange(8, 12) =~= le(task as nat, 4));
    assert(f.subrange(12, 20) =~= le(time as nat, 8));
    assert(f.subrange(21, 21 + n) =~= payload);
    assert(f.subrange(0, 21 + n) =~= body);
    assert(f.subrange(21 + n, 23 + n) =~= le(crc_of(body) as nat, 2));
}

/// What a reader makes of a frame: its number, its kind, where and when it was
/// made and for which task, and a checksum that fits.
pub open spec fn reads_as(
    f: Seq<u8>,
    no: int,
    kind: int,
    hart: u8,
    task: int,
    time: u64,
    payload_len: int,
) -> bool {
    &&& f.len() == 23 + payload_len
    &&& f[0] == 0xA5
    &&& f[1] == 0x5A
    &&& f[2] == 1
    &&& from_le(f.subrange(3, 5)) == no
    &&& from_le(f.subrange(5, 7)) == kind
    &&& f[7] == hart
    &&& from_le(f.subrange(8, 12)) == task
    &&& from_le(f.subrange(12, 20)) == time
    &&& f[20] == payload_len
    &&& from_le(f.subrange(21 + payload_len, 23 + payload_len)) == crc_of(
        f.subrange(0, 21 + payload_len),
    )
}

proof fn lemma_frame_reads(
    seq_no: u16,
    kind: u16,
    hart: u8,
    task: u32,
    time: u64,
    payload: Seq<u8>,
)
    requires
        payload.len() <= 32,
    ensures
        ({
            let f = frame(seq_no, kind, hart, task, time, payload);
            &&& reads_as(f, seq_no as int, kind as int, hart, task as int, time, payload.len() as int)
            &&& f.subrange(21, 21 + payload.len() as int) == payload
        }),
{
    law_frame_can_be_read(seq_no, kind, hart, task, time, payload);
    let f = frame(seq_no, kind, hart, task, time, payload);
    assert(f.subrange(0, 3)[0] == f[0]);
    assert(f.subrange(0, 3)[1] == f[1]);
    assert(f.subrange(0, 3)[2] == f[2]);
}

/// What was appended to `pre`.
pub open spec fn appended(pre: Seq<u8>, post: Seq<u8>) -> Seq<u8> {
    post.skip(pre.len() as int)
}

/// The payload of a frame.
pub open spec fn payload_of(f: Seq<u8>) -> Seq<u8> {
    f.subrange(21, f.len() - 2)
}

/// One frame was appended to `pre`, and it reads as given.
pub open spec fn one_frame(
    pre: Seq<u8>,
    post: Seq<u8>,
    no: int,
    kind: int,
    at: Stamp,
    task: int,
    payload_len: int,
) -> bool {
    &&& post.take(pre.len() as int) == pre
    &&& reads_as(appended(pre, post), no, kind, at.hart, task, at.now_us, payload_len)
}

proof fn lemma_one_frame(
    pre: Seq<u8>,
    post: Seq<u8>,
    no: u16,
    kind: u16,
    at: Stamp,
    task: u32,
    payload: Seq<u8>,
)
    requires
        payload.len() <= 32,
        post == pre + frame(no, kind, at.hart, task, at.now_us, payload),
    ensures
        one_frame(pre, post, no as int, kind as int, at, task as int, payload.len() as int),
        payload_of(appended(pre, post)) == payload,
{
    lemma_frame_reads(no, kind, at.hart, task, at.now_us, payload);
    let f = frame(no, kind, at.hart, task, at.now_us, payload);
    assert(appended(pre, post) =~= f);
    assert(post.take(pre.len() as int) =~= pre);
}

proof fn lemma_word_round_trip(n: u32)
    ensures
        from_le(le(n as nat, 4)) == n,
        le(n as nat, 4).len() == 4,
{
    assert(vstd::arithmetic::power::pow(256, 4) == 0x1_0000_0000) by {
        reveal_with_fuel(vstd::arithmetic::power::pow, 5);
    }
    lemma_le_round_trip(n as nat, 4, 0x1_0000_0000);
}

proof fn lemma_crc_byte(crc: u16, b: u8, x: u16)
    requires
        x == ((crc >> 8u16) ^ (b as u16)) ^ (((crc >> 8u16) ^ (b as u16)) >> 4u16),
    ensures
        crc_shifts(crc ^ ((b as u16) << 8), 8) == (crc << 8u16) ^ (x << 12u16) ^ (x << 5u16) ^ x,
{
    reveal_with_fuel(crc_shifts, 9);
    let c0 = crc ^ ((b as u16) << 8);
    let c1 = crc_shift(c0);
    let c2 = crc_shift(c1);
    let c3 = crc_shift(c2);
    let c4 = crc_shift(c3);
    let c5 = crc_shift(c4);
    let c6 = crc_shift(c5);
    let c7 = crc_shift(c6);
    let c8 = crc_shift(c7);
    assert(crc_shifts(c0, 8) == c8);
    assert(c8 == (crc << 8u16) ^ (x << 12u16) ^ (x << 5u16) ^ x) by (bit_vector)
        requires
            x == ((crc >> 8u16) ^ (b as u16)) ^ (((crc >> 8u16) ^ (b as u16)) >> 4u16),
            c0 == crc ^ ((b as u16) << 8),
            c1 == (if c0 & 0x8000 != 0 { (c0 << 1) ^ 0x1021 } else { c0 << 1 }),
            c2 == (if c1 & 0x8000 != 0 { (c1 << 1) ^ 0x1021 } else { c1 << 1 }),
            c3 == (if c2 & 0x8000 != 0 { (c2 << 1) ^ 0x1021 } else { c2 << 1 }),
            c4 == (if c3 & 0x8000 != 0 { (c3 << 1) ^ 0x1021 } else { c3 << 1 }),
            c5 == (if c4 & 0x8000 != 0 { (c4 << 1) ^ 0x1021 } else { c4 << 1 }),
            c6 == (if c5 & 0x8000 != 0 { (c5 << 1) ^ 0x1021 } else { c5 << 1 }),
            c7 == (if c6 & 0x8000 != 0 { (c6 << 1) ^ 0x1021 } else { c6 << 1 }),
            c8 == (if c7 & 0x8000 != 0 { (c7 << 1) ^ 0x1021 } else { c7 << 1 }),
    ;
}

/// The checksum is all ones for nothing, and one more byte changes it in one
/// step: the polynomial has its terms at 12, 5 and 0.
pub proof fn law_checksum_goes_byte_by_byte(
    nothing: &[u8],
    data: &[u8],
    more: &[u8],
    b: u8,
    x: u16,
    none: u16,
    before: u16,
    after: u16,
)
    requires
        nothing@.len() == 0,
        more@ == data@.push(b),
        call_ensures(crc16, (nothing,), none),
        call_ensures(crc16, (data,), before),
        call_ensures(crc16, (more,), after),
        x == ((before >> 8u16) ^ (b as u16)) ^ (((before >> 8u16) ^ (b as u16)) >> 4u16),
    ensures
        none == 0xFFFF,
        after == (before << 8u16) ^ (x << 12u16) ^ (x << 5u16) ^ x,
{
    assert(more@.drop_last() =~= data@);
    lemma_crc_byte(before, b, x);
}

/// A frame can be read back whole, and frames are numbered one after the other
/// in a word of 16 bits.
pub proof fn law_encoded_frame_reads_back(
    t: &mut Trace,
    kind: u16,
    task_id: u32,
    at: Stamp,
    payload: &[u8],
    r: Vec<u8>,
)
    requires
        payload@.len() <= 32,
        call_ensures(encode, (t, kind, task_id, at, payload), r),
    ensures
        reads_as(
            r@,
            old(t).seq_no as int,
            kind as int,
            at.hart,
            task_id as int,
            at.now_us,
            payload@.len() as int,
        ),
        payload_of(r@) == payload@,
        final(t).seq_no == (old(t).seq_no + 1) % 0x1_0000,
        final(t).cpu_hz == old(t).cpu_hz,
        final(t).max_harts == old(t).max_harts,
        final(t).ticks == old(t).ticks,
{
    lemma_frame_reads(old(t).seq_no, kind, at.hart, task_id, at.now_us, payload@);
}

proof fn lemma_header(cpu_hz: u32, max_harts: u8)
    ensures
        ({
            let p = header_payload(cpu_hz, max_harts);
            &&& p.len() == 8
            &&& p[0] == 0
            &&& p[1] == 1
            &&& p[2] == 0
            &&& from_le(p.subrange(3, 7)) == cpu_hz
            &&& p[7] == max_harts
        }),
{
    let p = header_payload(cpu_hz, max_harts);
    lemma_word_round_trip(cpu_hz);
    assert(p.subrange(3, 7) =~= le(cpu_hz as nat, 4));
}

/// The stream's announcement tells the version, the clock and the harts, and
/// the trace remembers the last two for the next announcement.
#[verifier::spinoff_prover]
#[verifier::rlimit(80)]
pub proof fn law_stream_header_tells_the_clock(
    t0: &mut Trace,
    t1: &mut Trace,
    cpu_hz: u32,
    max_harts: u8,
    at: Stamp,
    again: Stamp,
    out0: &mut Vec<u8>,
    out1: &mut Vec<u8>,
)
    requires
        cpu_hz != 0,
        call_ensures(stream_header, (t0, cpu_hz, max_harts, at, out0), ()),
        *old(t1) == *final(t0),
        call_ensures(reannounce_stream_header, (t1, again, out1), ()),
    ensures
        one_frame(old(out0)@, final(out0)@, old(t0).seq_no as int, 0x0701, at, 0xFFFF_FFFF, 8),
        one_frame(
            old(out1)@,
            final(out1)@,
            (old(t0).seq_no + 1) % 0x1_0000,
            0x0701,
            again,
            0xFFFF_FFFF,
            8,
        ),
        ({
            let p = payload_of(appended(old(out0)@, final(out0)@));
            &&& p[0] == 0
            &&& p[1] == 1
            &&& p[2] == 0
            &&& from_le(p.subrange(3, 7)) == cpu_hz
            &&& p[7] == max_harts
            &&& payload_of(appended(old(out1)@, final(out1)@)) == p
        }),
        final(t1).seq_no == (old(t0).seq_no + 2) % 0x1_0000,
{
    let p = header_payload(cpu_hz, max_harts);
    lemma_header(cpu_hz, max_harts);
    let no = old(t0).seq_no;
    lemma_one_frame(old(out0)@, final(out0)@, no, 0x0701, at, 0xFFFF_FFFF, p);
    lemma_one_frame(old(out1)@, final(out1)@, old(t1).seq_no, 0x0701, again, 0xFFFF_FFFF, p);
}

/// A task's announcement tells its priority and the size of its stack.
#[verifier::spinoff_prover]
#[verifier::rlimit(40)]
pub proof fn law_task_is_announced(
    t: &mut Trace,
    task_id: u16,
    priority: u8,
    stack_size: u32,
    at: Stamp,
    out: &mut Vec<u8>,
)
    requires
        call_ensures(task_created, (t, task_id, priority, stack_size, at, out), ()),
    ensures
        one_frame(old(out)@, final(out)@, old(t).seq_no as int, 1, at, task_id as int, 5),
        payload_of(appended(old(out)@, final(out)@))[0] == priority,
        from_le(payload_of(appended(old(out)@, final(out)@)).skip(1)) == stack_size,
        final(t).seq_no == (old(t).seq_no + 1) % 0x1_0000,
{
    let p = created_payload(priority, stack_size);
    lemma_word_round_trip(stack_size);
    assert(p.len() == 5);
    assert(p.skip(1) =~= le(stack_size as nat, 4));
    lemma_one_frame(old(out)@, final(out)@, old(t).seq_no, 1, at, task_id as u32, p);
}

/// A switch tells the task that was left, the task that goes on, and why.
#[verifier::spinoff_prover]
#[verifier::rlimit(40)]
pub proof fn law_switch_is_told(
    t: &mut Trace,
    prev_task: u16,
    next_task: u16,
    reason: SwitchReason,
    at: Stamp,
    out: &mut Vec<u8>,
)
    requires
        call_ensures(context_switch, (t, prev_task, next_task, reason, at, out), ()),
    ensures
        one_frame(old(out)@, final(out)@, old(t).seq_no as int, 9, at, next_task as int, 9),
        ({
            let p = payload_of(appended(old(out)@, final(out)@));
            &&& from_le(p.subrange(0, 4)) == prev_task
            &&& from_le(p.subrange(4, 8)) == next_task
            &&& reason == SwitchReason::Preempted ==> p[8] == 0
            &&& reason == SwitchReason::TimerWake ==> p[8] == 6
        }),
        final(t).seq_no == (old(t).seq_no + 1) % 0x1_0000,
{
    let p = switch_payload(prev_task, next_task, reason);
    lemma_word_round_trip(prev_task as u32);
    lemma_word_round_trip(next_task as u32);
    assert(p.len() == 9);
    assert(p.subrange(0, 4) =~= le(prev_task as nat, 4));
    assert(p.subrange(4, 8) =~= le(next_task as nat, 4));
    lemma_one_frame(old(out)@, final(out)@, old(t).seq_no, 9, at, next_task as u32, p);
}

/// The beginning and the end of an interrupt handler are told apart, and each
/// names the interrupt.
pub proof fn law_interrupt_is_told(
    t: &mut Trace,
    irq: u32,
    entry: bool,
    at: Stamp,
    out: &mut Vec<u8>,
)
    requires
        call_ensures(isr, (t, irq, entry, at, out), ()),
    ensures
        entry ==> one_frame(
            old(out)@,
            final(out)@,
            old(t).seq_no as int,
            0x0301,
            at,
            0xFFFF_FFFF,
            4,
        ),
        !entry ==> one_frame(
            old(out)@,
            final(out)@,
            old(t).seq_no as int,
            0x0302,
            at,
            0xFFFF_FFFF,
            4,
        ),
        from_le(payload_of(appended(old(out)@, final(out)@))) == irq,
        final(t).seq_no == (old(t).seq_no + 1) % 0x1_0000,
{
    lemma_word_round_trip(irq);
    let p = le(irq as nat, 4);
    let kind: u16 = if entry {
        0x0301
    } else {
        0x0302
    };
    lemma_one_frame(old(out)@, final(out)@, old(t).seq_no, kind, at, 0xFFFF_FFFF, p);
}

/// Taking a mutex, giving it back and raising its holder are told apart, and
/// each names the task and the mutex.
#[verifier::spinoff_prover]
#[verifier::rlimit(40)]
pub proof fn law_mutex_is_told(
    t0: &mut Trace,
    t1: &mut Trace,
    t2: &mut Trace,
    task_id: u16,
    mutex_id: u32,
    at: Stamp,
    out0: &mut Vec<u8>,
    out1: &mut Vec<u8>,
    out2: &mut Vec<u8>,
)
    requires
        call_ensures(mutex_lock_acquired, (t0, task_id, mutex_id, at, out0), ()),
        call_ensures(mutex_unlock, (t1, task_id, mutex_id, at, out1), ()),
        call_ensures(priority_inherit, (t2, task_id, mutex_id, at, out2), ()),
    ensures
        one_frame(old(out0)@, final(out0)@, old(t0).seq_no as int, 0x0102, at, task_id as int, 4),
        one_frame(old(out1)@, final(out1)@, old(t1).seq_no as int, 0x0104, at, task_id as int, 4),
        one_frame(old(out2)@, final(out2)@, old(t2).seq_no as int, 0x0105, at, task_id as int, 4),
        from_le(payload_of(appended(old(out0)@, final(out0)@))) == mutex_id,
        from_le(payload_of(appended(old(out1)@, final(out1)@))) == mutex_id,
        from_le(payload_of(appended(old(out2)@, final(out2)@))) == mutex_id,
        final(t0).seq_no == (old(t0).seq_no + 1) % 0x1_0000,
        final(t1).seq_no == (old(t1).seq_no + 1) % 0x1_0000,
        final(t2).seq_no == (old(t2).seq_no + 1) % 0x1_0000,
{
    lemma_word_round_trip(mutex_id);
    let p = le(mutex_id as nat, 4);
    let id = task_id as u32;
    lemma_one_frame(old(out0)@, final(out0)@, old(t0).seq_no, 0x0102, at, id, p);
    lemma_one_frame(old(out1)@, final(out1)@, old(t1).seq_no, 0x0104, at, id, p);
    lemma_one_frame(old(out2)@, final(out2)@, old(t2).seq_no, 0x0105, at, id, p);
}

/// A fault tells the task, the reason and the address of the instruction; a
/// stack overflow has a kind of its own.
#[verifier::spinoff_prover]
#[verifier::rlimit(40)]
pub proof fn law_fault_is_told(
    t: &mut Trace,
    task_id: u16,
    reason: u8,
    pc: u32,
    at: Stamp,
    out: &mut Vec<u8>,
)
    requires
        call_ensures(fault, (t, task_id, reason, pc, at, out), ()),
    ensures
        reason == 4 ==> one_frame(
            old(out)@,
            final(out)@,
            old(t).seq_no as int,
            0x0605,
            at,
            task_id as int,
            8,
        ),
        reason != 4 ==> one_frame(
            old(out)@,
            final(out)@,
            old(t).seq_no as int,
            0x0601,
            at,
            task_id as int,
            8,
        ),
        from_le(payload_of(appended(old(out)@, final(out)@)).subrange(0, 4)) == reason,
        from_le(payload_of(appended(old(out)@, final(out)@)).subrange(4, 8)) == pc,
        final(t).seq_no == (old(t).seq_no + 1) % 0x1_0000,
{
    lemma_word_round_trip(reason as u32);
    lemma_word_round_trip(pc);
    let p = le(reason as nat, 4) + le(pc as nat, 4);
    assert(p.subrange(0, 4) =~= le(reason as nat, 4));
    assert(p.subrange(4, 8) =~= le(pc as nat, 4));
    let kind: u16 = if reason == 4 {
        0x0605
    } else {
        0x0601
    };
    lemma_one_frame(old(out)@, final(out)@, old(t).seq_no, kind, at, task_id as u32, p);
}

proof fn lemma_nobody_announced(said: Seq<u8>, t: &Trace, p: &Preempt, at: Stamp, n: nat)
    requires
        n <= MAX_PTASKS,
        forall|i: int| 0 <= i < n ==> !(#[trigger] p.tasks[i]).used,
    ensures
        announced(p, n) == 0,
        announcements(said, t, p, at, n) == said,
    decreases n,
{
    if n > 0 {
        lemma_nobody_announced(said, t, p, at, (n - 1) as nat);
        assert(!p.tasks[n - 1].used);
    }
}

proof fn lemma_one_announced(
    said: Seq<u8>,
    t: &Trace,
    p: &Preempt,
    at: Stamp,
    n: nat,
    id: int,
)
    requires
        0 <= id < n <= MAX_PTASKS,
        p.tasks[id].used,
        forall|i: int| 0 <= i < n && i != id ==> !(#[trigger] p.tasks[i]).used,
    ensures
        announced(p, n) == 1,
        announcements(said, t, p, at, n) == said + frame(
            t.seq_no,
            TASK_CREATED,
            at.hart,
            id as u32,
            at.now_us,
            created_payload(
                p.tasks[id].base_priority,
                low_word(p.tasks[id].stack_size as int),
            ),
        ),
    decreases n,
{
    if id == n - 1 {
        lemma_nobody_announced(said, t, p, at, (n - 1) as nat);
        assert(p.tasks[n - 1].used);
        assert(announced(p, (n - 1) as nat) == 0);
        assert(t.next_no(0) == t.seq_no);
    } else {
        lemma_one_announced(said, t, p, at, (n - 1) as nat, id);
        assert(!p.tasks[n - 1].used);
    }
}

/// Every live task is announced: without one nothing is written, and a single
/// one is announced with its own number, priority and stack.
#[verifier::spinoff_prover]
#[verifier::rlimit(40)]
pub proof fn law_live_tasks_are_announced(
    t: &mut Trace,
    p: &Preempt,
    at: Stamp,
    out: &mut Vec<u8>,
    id: int,
)
    requires
        0 <= id < MAX_PTASKS,
        forall|i: int| 0 <= i < MAX_PTASKS && i != id ==> !(#[trigger] p.tasks[i]).used,
        p.tasks[id].stack_size < 0x1_0000_0000,
        call_ensures(reannounce_all_tasks, (t, p, at, out), ()),
    ensures
        !p.tasks[id].used ==> final(out)@ == old(out)@ && *final(t) == *old(t),
        p.tasks[id].used ==> {
            &&& one_frame(old(out)@, final(out)@, old(t).seq_no as int, 1, at, id, 5)
            &&& payload_of(appended(old(out)@, final(out)@))[0] == p.tasks[id].base_priority
            &&& from_le(payload_of(appended(old(out)@, final(out)@)).skip(1))
                == p.tasks[id].stack_size
            &&& final(t).seq_no == (old(t).seq_no + 1) % 0x1_0000
        },
{
    if p.tasks[id].used {
        lemma_one_announced(old(out)@, old(t), p, at, MAX_PTASKS as nat, id);
        let size = low_word(p.tasks[id].stack_size as int);
        let pay = created_payload(p.tasks[id].base_priority, size);
        lemma_word_round_trip(size);
        assert(pay.skip(1) =~= le(size as nat, 4));
        lemma_one_frame(old(out)@, final(out)@, old(t).seq_no, 1, at, id as u32, pay);
    } else {
        lemma_nobody_announced(old(out)@, old(t), p, at, MAX_PTASKS as nat);
    }
}

/// A tick is counted. Between announcements, of which there is one in 2000
/// ticks, it writes the switch that it made and nothing else; with the
/// announcements, and no live task, it writes the stream's if there was one.
#[verifier::spinoff_prover]
#[verifier::rlimit(40)]
pub proof fn law_tick_tells_the_switch(
    t: &mut Trace,
    p: &Preempt,
    switch: Option<(u16, u16)>,
    prev: u16,
    next: u16,
    at: Stamp,
    out: &mut Vec<u8>,
)
    requires
        switch is None || switch == Some((prev, next)),
        call_ensures(tick, (t, p, switch, at, out), ()),
    ensures
        final(t).ticks == (old(t).ticks + 1) % 0x1_0000_0000,
        old(t).ticks % 2000 != 0 && switch is None ==> final(out)@ == old(out)@ && final(t).seq_no
            == old(t).seq_no,
        old(t).ticks % 2000 != 0 && switch is Some ==> one_frame(
            old(out)@,
            final(out)@,
            old(t).seq_no as int,
            9,
            at,
            next as int,
            9,
        ) && from_le(payload_of(appended(old(out)@, final(out)@)).subrange(0, 4)) == prev,
        old(t).ticks % 2000 == 0 && switch is None && old(t).cpu_hz != 0 && (forall|i: int|
            0 <= i < MAX_PTASKS ==> !(#[trigger] p.tasks[i]).used) ==> one_frame(
            old(out)@,
            final(out)@,
            old(t).seq_no as int,
            0x0701,
            at,
            0xFFFF_FFFF,
            8,
        ),
{
    if old(t).ticks % 2000 != 0 {
        if switch is Some {
            let pay = switch_payload(prev, next, SwitchReason::Preempted);
            lemma_word_round_trip(prev as u32);
            lemma_word_round_trip(next as u32);
            assert(pay.subrange(0, 4) =~= le(prev as nat, 4));
            lemma_one_frame(old(out)@, final(out)@, old(t).seq_no, 9, at, next as u32, pay);
        }
    } else if switch is None && old(t).cpu_hz != 0 && (forall|i: int|
        0 <= i < MAX_PTASKS ==> !(#[trigger] p.tasks[i]).used) {
        lemma_nobody_announced(old(out)@, old(t), p, at, MAX_PTASKS as nat);
        let pay = header_payload(old(t).cpu_hz, old(t).max_harts);
        lemma_word_round_trip(old(t).cpu_hz);
        lemma_one_frame(old(out)@, final(out)@, old(t).seq_no, 0x0701, at, 0xFFFF_FFFF, pay);
    }
}

} // verus!
