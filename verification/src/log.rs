//! Logging with deferred formatting.
//!
//! Logging pushes a small frame into a ring and formats nothing; a frame that
//! finds the ring full is counted and dropped. A task with time to spare takes
//! the frames out and writes them as text.
use crate::sync::channel::{Channel, Receiver, Sender};
use crate::text::{self, dec, lit};
use crate::waker::WakerState;
use vstd::prelude::*;

verus! {

/// Places of the ring.
pub const CAPACITY: usize = 16;

/// How important a message is.
#[derive(Debug, Clone, Copy, PartialEq, Eq, Structural)]
pub enum Level {
    /// Fine detail.
    Trace,
    /// Detail.
    Debug,
    /// Normal operation.
    Info,
    /// Something is odd.
    Warn,
    /// Something is wrong.
    Error,
}

/// The name of a level.
pub open spec fn level_name(level: Level) -> Seq<u8> {
    match level {
        Level::Trace => lit("TRACE"),
        Level::Debug => lit("DEBUG"),
        Level::Info => lit("INFO"),
        Level::Warn => lit("WARN"),
        Level::Error => lit("ERROR"),
    }
}

impl Level {
    /// The name of the level.
    pub fn as_str(self) -> (r: &'static str)
        ensures
            lit(r) == level_name(self),
    {
        match self {
            Level::Trace => "TRACE",
            Level::Debug => "DEBUG",
            Level::Info => "INFO",
            Level::Warn => "WARN",
            Level::Error => "ERROR",
        }
    }
}

/// A value that a message refers to.
#[derive(Clone, Copy, Debug)]
pub enum LogArg {
    /// No value.
    Absent,
    /// A number.
    U32(u32),
    /// A signed number.
    I32(i32),
    /// A floating-point number, as its bits. Whoever drains the log supplies
    /// its text.
    F32(u32),
    /// Text.
    Str(&'static str),
}

impl From<u32> for LogArg {
    fn from(v: u32) -> (r: Self) {
        LogArg::U32(v)
    }
}

impl vstd::std_specs::convert::FromSpecImpl<u32> for LogArg {
    open spec fn obeys_from_spec() -> bool {
        true
    }

    open spec fn from_spec(v: u32) -> LogArg {
        LogArg::U32(v)
    }
}

impl From<i32> for LogArg {
    fn from(v: i32) -> (r: Self) {
        LogArg::I32(v)
    }
}

impl vstd::std_specs::convert::FromSpecImpl<i32> for LogArg {
    open spec fn obeys_from_spec() -> bool {
        true
    }

    open spec fn from_spec(v: i32) -> LogArg {
        LogArg::I32(v)
    }
}

impl From<&'static str> for LogArg {
    fn from(v: &'static str) -> (r: Self) {
        LogArg::Str(v)
    }
}

impl vstd::std_specs::convert::FromSpecImpl<&'static str> for LogArg {
    open spec fn obeys_from_spec() -> bool {
        true
    }

    open spec fn from_spec(v: &'static str) -> LogArg {
        LogArg::Str(v)
    }
}

/// One message.
#[derive(Clone, Copy, Debug)]
pub struct LogFrame {
    /// Its level.
    pub level: Level,
    /// The preemptive task that logged it, if there was one.
    pub task_id: Option<u16>,
    /// The low word of the time in microseconds.
    pub timestamp_us: u32,
    /// The text, with a `{}` for each value.
    pub msg: &'static str,
    /// The values.
    pub args: [LogArg; 2],
}

/// The ring of messages.
pub struct Log {
    ring: Channel<LogFrame, CAPACITY>,
    ends: Option<(Sender<LogFrame, CAPACITY>, Receiver<LogFrame, CAPACITY>)>,
    dropped: u32,
}

impl Log {
    /// The messages, the oldest first.
    pub closed spec fn frames(&self) -> Seq<LogFrame> {
        self.ring.queue()
    }

    /// The ring is in use.
    pub closed spec fn started(&self) -> bool {
        self.ends is Some
    }

    /// Messages that found no place.
    pub closed spec fn lost(&self) -> u32 {
        self.dropped
    }

    /// The channel that holds the messages.
    pub closed spec fn channel(&self) -> Channel<LogFrame, CAPACITY> {
        self.ring
    }

    /// The ring is sound, and empty before it is in use.
    pub closed spec fn wf(&self) -> bool {
        &&& self.ring.wf()
        &&& self.ring.is_split() == (self.ends is Some)
        &&& self.ends is None ==> self.ring.queue().len() == 0
    }

    /// No messages.
    pub fn new() -> (r: Self)
        ensures
            r.wf(),
            !r.started(),
            r.frames() == Seq::<LogFrame>::empty(),
            r.lost() == 0,
            r.channel().receiver_waiting() is None,
            r.channel().sender_waiting() is None,
    {
        Log { ring: Channel::new(), ends: None, dropped: 0 }
    }
}

/// Take the ring into use. The second time does nothing.
pub fn init(l: &mut Log)
    requires
        old(l).wf(),
    ensures
        final(l).wf(),
        final(l).started(),
        final(l).frames() == old(l).frames(),
        final(l).lost() == old(l).lost(),
{
    if let Some(ends) = l.ring.split() {
        l.ends = Some(ends);
    }
}

/// A message can be stored.
pub open spec fn has_room(l: &Log) -> bool {
    l.started() && l.frames().len() < CAPACITY - 1
}

/// Store a message of the given task at the given time. It never waits: a
/// message that finds no place is counted and dropped.
pub fn push(
    l: &mut Log,
    w: &mut WakerState,
    level: Level,
    msg: &'static str,
    arg0: LogArg,
    arg1: LogArg,
    task: Option<usize>,
    now_us: u64,
)
    requires
        old(l).wf(),
    ensures
        final(l).wf(),
        final(l).started() == old(l).started(),
        has_room(old(l)) ==> {
            &&& final(l).lost() == old(l).lost()
            &&& final(l).frames().len() == old(l).frames().len() + 1
            &&& final(l).frames().drop_last() == old(l).frames()
            &&& final(l).frames().last().level == level
            &&& final(l).frames().last().msg == msg
            &&& final(l).frames().last().args@ == seq![arg0, arg1]
            &&& final(l).frames().last().task_id == (match task {
                Some(id) => Some(id as u16),
                None => None,
            })
            &&& final(l).frames().last().timestamp_us == now_us % 0x1_0000_0000
            &&& crate::sync::channel::woke(old(l).channel().receiver_waiting(), old(w), final(w))
        },
        !has_room(old(l)) ==> {
            &&& final(l).frames() == old(l).frames()
            &&& final(l).lost() == (if old(l).lost() == u32::MAX {
                0
            } else {
                (old(l).lost() + 1) as u32
            })
            &&& *final(w) == *old(w)
        },
{
    let task_id: Option<u16> = match task {
        Some(id) => Some(id as u16),
        None => None,
    };
    let timestamp_us: u32 = (now_us % 0x1_0000_0000) as u32;
    let frame = LogFrame { level, task_id, timestamp_us, msg, args: [arg0, arg1] };
    let mut sent = false;
    if let Some((tx, _)) = &l.ends {
        sent = tx.try_send(&mut l.ring, w, frame).is_ok();
    }
    if !sent {
        l.dropped = l.dropped.wrapping_add(1);
    } else {
        assert(l.frames().drop_last() =~= old(l).frames());
    }
}

/// Messages that were dropped so far.
pub fn dropped_frames(l: &Log) -> (r: usize)
    ensures
        r == l.lost(),
{
    l.dropped as usize
}

/// The text of a value; `float` is that of a floating-point number.
pub open spec fn arg_text(arg: LogArg, float: Seq<u8>) -> Seq<u8> {
    match arg {
        LogArg::Absent => Seq::empty(),
        LogArg::U32(v) => dec(v as nat),
        LogArg::I32(v) => if v < 0 {
            lit("-") + dec((-v) as nat)
        } else {
            dec(v as nat)
        },
        LogArg::F32(_) => float,
        LogArg::Str(s) => lit(s),
    }
}

/// What stands for the `k`-th `{}` of a message: the text of the `k`-th value,
/// or the placeholder itself if there is no such value.
pub open spec fn filled(args: Seq<LogArg>, floats: Seq<Seq<u8>>, k: int) -> Seq<u8> {
    if 0 <= k < args.len() && !(args[k] is Absent) {
        arg_text(args[k], floats[k])
    } else {
        lit("{}")
    }
}

/// A message with its placeholders filled in, the first of them with value
/// `k`.
pub open spec fn interpolated(
    msg: Seq<u8>,
    args: Seq<LogArg>,
    floats: Seq<Seq<u8>>,
    k: int,
) -> Seq<u8>
    decreases msg.len(),
{
    if msg.len() == 0 {
        Seq::empty()
    } else if msg.len() >= 2 && msg[0] == 123 && msg[1] == 125 {
        filled(args, floats, k) + interpolated(msg.skip(2), args, floats, k + 1)
    } else {
        seq![msg[0]] + interpolated(msg.skip(1), args, floats, k)
    }
}

/// The line of a message.
pub open spec fn frame_text(frame: &LogFrame, floats: Seq<Seq<u8>>) -> Seq<u8> {
    let head = lit("[") + level_name(frame.level) + lit("] t=") + dec(frame.timestamp_us as nat);
    let who = match frame.task_id {
        Some(id) => head + lit(" task=") + dec(id as nat),
        None => head,
    };
    who + lit(" ") + interpolated(lit(frame.msg), frame.args@, floats, 0) + lit("\n")
}

/// The views of two texts.
pub open spec fn texts(floats: &[Vec<u8>; 2]) -> Seq<Seq<u8>> {
    seq![floats[0]@, floats[1]@]
}

fn write_arg(arg: &LogArg, float: &Vec<u8>, out: &mut Vec<u8>)
    ensures
        final(out)@ == old(out)@ + arg_text(*arg, float@),
{
    match *arg {
        LogArg::Absent => {
            proof {
                text::lemma_cat_empty(out@);
            }
        },
        LogArg::U32(v) => text::put_dec(out, v as u64),
        LogArg::I32(v) => {
            if v < 0 {
                let ghost start = out@;
                text::put_str(out, "-");
                let magnitude: i64 = -(v as i64);
                text::put_dec(out, magnitude as u64);
                proof {
                    text::lemma_cat(start, lit("-"), dec(magnitude as nat));
                }
            } else {
                text::put_dec(out, v as u64);
            }
        },
        LogArg::F32(_) => text::put_bytes(out, float),
        LogArg::Str(s) => text::put_str(out, s),
    }
}

/// Write a message with its placeholders filled in. `floats` holds the texts
/// of the values that are floating-point numbers.
pub fn write_interpolated(
    msg: &str,
    args: &[LogArg; 2],
    floats: &[Vec<u8>; 2],
    out: &mut Vec<u8>,
)
    ensures
        final(out)@ == old(out)@ + interpolated(lit(msg), args@, texts(floats), 0),
{
    let bytes = msg.as_bytes();
    let n: usize = bytes.len();
    let ghost goal = interpolated(bytes@, args@, texts(floats), 0);
    let ghost start = out@;
    let mut i: usize = 0;
    let mut k: usize = 0;
    proof {
        assert(bytes@.skip(0) =~= bytes@);
    }
    while i < n
        invariant
            i <= n,
            k <= i,
            n == bytes@.len(),
            start + goal == out@ + interpolated(
                bytes@.skip(i as int),
                args@,
                texts(floats),
                k as int,
            ),
        decreases n - i,
    {
        let ghost rest = bytes@.skip(i as int);
        let ghost said = out@;
        if i + 1 < n && bytes[i] == 123 && bytes[i + 1] == 125 {
            if k < 2 {
                match &args[k] {
                    LogArg::Absent => text::put_str(out, "{}"),
                    arg => write_arg(arg, &floats[k], out),
                }
            } else {
                text::put_str(out, "{}");
            }
            proof {
                assert(rest.skip(2) =~= bytes@.skip(i + 2));
                assert(out@ == said + filled(args@, texts(floats), k as int));
                text::lemma_cat(
                    said,
                    filled(args@, texts(floats), k as int),
                    interpolated(rest.skip(2), args@, texts(floats), k + 1),
                );
            }
            k = k + 1;
            i = i + 2;
        } else {
            out.push(bytes[i]);
            proof {
                assert(rest.skip(1) =~= bytes@.skip(i + 1));
                assert(out@ =~= said + seq![rest[0]]);
                text::lemma_cat(
                    said,
                    seq![rest[0]],
                    interpolated(rest.skip(1), args@, texts(floats), k as int),
                );
            }
            i = i + 1;
        }
    }
    proof {
        text::lemma_cat_empty(out@);
    }
}

/// Write the line of a message.
pub fn write_frame(frame: &LogFrame, floats: &[Vec<u8>; 2], out: &mut Vec<u8>)
    ensures
        final(out)@ == old(out)@ + frame_text(frame, texts(floats)),
{
    let ghost start = out@;
    let ghost mut said = lit("[");
    text::put_str(out, "[");
    text::put_str(out, frame.level.as_str());
    proof {
        text::lemma_cat(start, said, level_name(frame.level));
        said = said + level_name(frame.level);
    }
    text::put_str(out, "] t=");
    proof {
        text::lemma_cat(start, said, lit("] t="));
        said = said + lit("] t=");
    }
    text::put_dec(out, frame.timestamp_us as u64);
    proof {
        text::lemma_cat(start, said, dec(frame.timestamp_us as nat));
        said = said + dec(frame.timestamp_us as nat);
    }
    if let Some(id) = frame.task_id {
        text::put_str(out, " task=");
        proof {
            text::lemma_cat(start, said, lit(" task="));
            said = said + lit(" task=");
        }
        text::put_dec(out, id as u64);
        proof {
            text::lemma_cat(start, said, dec(id as nat));
            said = said + dec(id as nat);
        }
    }
    text::put_str(out, " ");
    proof {
        text::lemma_cat(start, said, lit(" "));
        said = said + lit(" ");
    }
    write_interpolated(frame.msg, &frame.args, floats, out);
    proof {
        let body = interpolated(lit(frame.msg), frame.args@, texts(floats), 0);
        text::lemma_cat(start, said, body);
        said = said + body;
    }
    text::put_str(out, "\n");
    proof {
        text::lemma_cat(start, said, lit("\n"));
    }
}

/// The oldest message, if there is one; it stays where it is.
pub fn peek(l: &Log) -> (r: Option<LogFrame>)
    requires
        l.wf(),
    ensures
        r is None <==> l.frames().len() == 0,
        r matches Some(frame) ==> frame == l.frames()[0],
{
    match l.ring.front() {
        Some(frame) => Some(*frame),
        None => None,
    }
}

/// Take the oldest message out and write its line. Returns whether there was
/// one. `floats` holds the texts of its floating-point values.
pub fn drain_one(
    l: &mut Log,
    w: &mut WakerState,
    floats: &[Vec<u8>; 2],
    out: &mut Vec<u8>,
) -> (r: bool)
    requires
        old(l).wf(),
    ensures
        final(l).wf(),
        final(l).started() == old(l).started(),
        final(l).lost() == old(l).lost(),
        r == (old(l).frames().len() > 0),
        r ==> final(out)@ == old(out)@ + frame_text(&old(l).frames()[0], texts(floats))
            && final(l).frames() == old(l).frames().skip(1) && crate::sync::channel::woke(
            old(l).channel().sender_waiting(),
            old(w),
            final(w),
        ),
        !r ==> final(out)@ == old(out)@ && final(l).frames() == old(l).frames() && *final(w)
            == *old(w),
{
    let frame = match &l.ends {
        Some((_, rx)) => rx.try_recv(&mut l.ring, w),
        None => None,
    };
    match frame {
        Some(frame) => {
            write_frame(&frame, floats, out);
            true
        },
        None => false,
    }
}

/// A message is taken out as it was put in: with its level, text, values, task
/// and the low word of its time; and it can be looked at before.
pub proof fn law_message_is_kept(
    fresh: Log,
    l0: &mut Log,
    l1: &mut Log,
    w: &mut WakerState,
    level: Level,
    msg: &'static str,
    arg0: LogArg,
    arg1: LogArg,
    task: Option<usize>,
    now_us: u64,
    seen: Option<LogFrame>,
    lost: usize,
)
    requires
        call_ensures(Log::new, (), fresh),
        *old(l0) == fresh,
        call_ensures(init, (l0,), ()),
        *old(l1) == *final(l0),
        call_ensures(push, (l1, w, level, msg, arg0, arg1, task, now_us), ()),
        call_ensures(peek, (&*final(l1),), seen),
        call_ensures(dropped_frames, (&*final(l1),), lost),
    ensures
        seen is Some,
        seen->0.level == level,
        seen->0.msg == msg,
        seen->0.args@ == seq![arg0, arg1],
        seen->0.timestamp_us == now_us % 0x1_0000_0000,
        task is None ==> seen->0.task_id is None,
        task is Some && task->0 < 0x1_0000 ==> seen->0.task_id is Some && seen->0.task_id->0
            == task->0,
        lost == 0,
{
}

/// The ring holds 15 messages. A message that comes when it is full, or not in
/// use, changes none of them and is counted.
pub proof fn law_full_log_counts(
    l: &mut Log,
    w: &mut WakerState,
    level: Level,
    msg: &'static str,
    arg0: LogArg,
    arg1: LogArg,
    task: Option<usize>,
    now_us: u64,
    before: usize,
    after: usize,
)
    requires
        call_ensures(dropped_frames, (&*old(l),), before),
        call_ensures(push, (l, w, level, msg, arg0, arg1, task, now_us), ()),
        call_ensures(dropped_frames, (&*final(l),), after),
    ensures
        old(l).started() && old(l).frames().len() <= 14 ==> after == before
            && final(l).frames().len() == old(l).frames().len() + 1
                && final(l).frames().drop_last() == old(
            l,
        ).frames(),
        !old(l).started() || old(l).frames().len() >= 15 ==> final(l).frames() == old(l).frames()
            && after == (before + 1) % 0x1_0000_0000 && *final(w) == *old(w),
{
}

/// Messages are written in the order in which they came, one line for each.
pub proof fn law_drain_takes_the_oldest(
    l: &mut Log,
    w: &mut WakerState,
    floats: &[Vec<u8>; 2],
    out: &mut Vec<u8>,
    other: &mut Vec<u8>,
    seen: Option<LogFrame>,
    r: bool,
)
    requires
        call_ensures(peek, (&*old(l),), seen),
        call_ensures(drain_one, (l, w, floats, out), r),
        *old(other) == *old(out),
        seen is Some ==> call_ensures(write_frame, (&seen->0, floats, other), ()),
    ensures
        r == (seen is Some),
        r ==> final(out)@ == final(other)@ && seq![seen->0] + final(l).frames() == old(l).frames(),
        !r ==> final(out)@ == old(out)@ && final(l).frames() == old(l).frames(),
{
    if r {
        assert(seq![seen->0] + final(l).frames() =~= old(l).frames());
    }
}

/// The name of a level is its name in capitals.
pub proof fn law_level_has_its_name(level: Level, r: &'static str)
    requires
        call_ensures(Level::as_str, (level,), r),
    ensures
        level == Level::Trace ==> lit(r) == lit("TRACE"),
        level == Level::Debug ==> lit(r) == lit("DEBUG"),
        level == Level::Info ==> lit(r) == lit("INFO"),
        level == Level::Warn ==> lit(r) == lit("WARN"),
        level == Level::Error ==> lit(r) == lit("ERROR"),
{
}

/// No place of a text holds a placeholder.
pub open spec fn plain(s: Seq<u8>) -> bool {
    forall|i: int| 0 <= i < s.len() - 1 ==> !(#[trigger] s[i] == 123 && s[i + 1] == 125)
}

proof fn lemma_plain(s: Seq<u8>, args: Seq<LogArg>, floats: Seq<Seq<u8>>, k: int)
    requires
        plain(s),
    ensures
        interpolated(s, args, floats, k) == s,
    decreases s.len(),
{
    if s.len() > 0 {
        assert(plain(s.skip(1))) by {
            assert forall|i: int| 0 <= i < s.skip(1).len() - 1 implies !(#[trigger] s.skip(1)[i]
                == 123 && s.skip(1)[i + 1] == 125) by {
                assert(s.skip(1)[i] == s[i + 1]);
                assert(s.skip(1)[i + 1] == s[i + 1 + 1]);
            }
        }
        lemma_plain(s.skip(1), args, floats, k);
        if s.len() >= 2 {
            let first: int = 0;
            assert(!(s[first] == 123 && s[first + 1] == 125));
        }
        assert(seq![s[0]] + s.skip(1) =~= s);
    }
}

#[verifier::spinoff_prover]
#[verifier::rlimit(60)]
proof fn lemma_one_placeholder(
    a: Seq<u8>,
    b: Seq<u8>,
    args: Seq<LogArg>,
    floats: Seq<Seq<u8>>,
    k: int,
)
    requires
        plain(a),
    ensures
        interpolated(a + seq![123u8, 125u8] + b, args, floats, k) == a + filled(args, floats, k)
            + interpolated(b, args, floats, k + 1),
    decreases a.len(),
{
    let mark = seq![123u8, 125u8];
    let s = a + mark + b;
    let tail = interpolated(b, args, floats, k + 1);
    if a.len() == 0 {
        assert(s.skip(2) =~= b);
        assert(s[0] == 123 && s[1] == 125);
        assert(a + filled(args, floats, k) + tail =~= filled(args, floats, k) + tail);
    } else {
        let rest = a.skip(1);
        assert(plain(rest)) by {
            assert forall|i: int| 0 <= i < rest.len() - 1 implies !(#[trigger] rest[i] == 123
                && rest[i + 1] == 125) by {
                assert(rest[i] == a[i + 1]);
                assert(rest[i + 1] == a[i + 1 + 1]);
            }
        }
        lemma_one_placeholder(rest, b, args, floats, k);
        assert(s.skip(1) =~= rest + mark + b);
        if a.len() >= 2 {
            let first: int = 0;
            assert(!(a[first] == 123 && a[first + 1] == 125));
            assert(s[1] == a[1]);
        } else {
            assert(s[1] == 123);
        }
        assert(s[0] == a[0]);
        assert(seq![s[0]] + (rest + filled(args, floats, k) + tail) =~= a + filled(args, floats, k)
            + tail);
    }
}

/// A message without a placeholder is written as it stands.
pub proof fn law_plain_message_is_written_as_it_is(
    msg: &str,
    args: &[LogArg; 2],
    floats: &[Vec<u8>; 2],
    out: &mut Vec<u8>,
)
    requires
        plain(lit(msg)),
        call_ensures(write_interpolated, (msg, args, floats, out), ()),
    ensures
        final(out)@ == old(out)@ + lit(msg),
{
    lemma_plain(lit(msg), args@, texts(floats), 0);
}

/// The first placeholder gives way to the first value and the second to the
/// second; a placeholder without a value stays, and the text around them is
/// kept.
#[verifier::spinoff_prover]
#[verifier::rlimit(60)]
pub proof fn law_placeholders_are_filled_in_order(
    msg: &str,
    args: &[LogArg; 2],
    floats: &[Vec<u8>; 2],
    out: &mut Vec<u8>,
    a: Seq<u8>,
    b: Seq<u8>,
    c: Seq<u8>,
    x: u32,
    y: i32,
)
    requires
        lit(msg) == a + seq![123u8, 125u8] + (b + seq![123u8, 125u8] + c),
        plain(a),
        plain(b),
        plain(c),
        call_ensures(write_interpolated, (msg, args, floats, out), ()),
    ensures
        args[0] == LogArg::U32(x) && args[1] == LogArg::I32(y) ==> final(out)@ == old(out)@ + (a
            + dec(x as nat) + (b + (if y < 0 {
            lit("-") + dec((0 - y) as nat)
        } else {
            dec(y as nat)
        }) + c)),
        args[0] is F32 && args[1] is Str ==> final(out)@ == old(out)@ + (a + floats[0]@ + (b + lit(
            args[1]->Str_0,
        ) + c)),
        args[0] is Str && args[1] is F32 ==> final(out)@ == old(out)@ + (a + lit(args[0]->Str_0)
            + (b + floats[1]@ + c)),
        args[0] is Absent && args[1] is Absent ==> final(out)@ == old(out)@ + (a + lit("{}") + (b
            + lit("{}") + c)),
{
    lemma_one_placeholder(a, b + seq![123u8, 125u8] + c, args@, texts(floats), 0);
    lemma_one_placeholder(b, c, args@, texts(floats), 1);
    lemma_plain(c, args@, texts(floats), 2);
}

} // verus!
