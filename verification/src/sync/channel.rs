//! Queues between one sending and one receiving task.
//!
//! Sending and receiving are made of steps, each of which is one access to a
//! place of the ring, to an index or to a waiter's place. The other side may
//! come between any two of them: a value is in its place before the index says
//! so, and a place is empty before the index says so.
use crate::config::PRIORITY_LEVELS;
use crate::sync::race::{EventStage, PollStage};
use crate::task::{Poll, TaskId};
use crate::waker::{self, WakerState};
use core::marker::PhantomData;
use vstd::prelude::*;

verus! {

/// A ring of `N` places, one of which stays empty.
pub struct Channel<T, const N: usize> {
    buf: Vec<Option<T>>,
    head: usize,
    tail: usize,
    taken: bool,
    recv_waiter: Option<TaskId>,
    send_waiter: Option<TaskId>,
}

/// The right to send. A channel gives out one.
pub struct Sender<T, const N: usize> {
    half: PhantomData<T>,
}

/// The right to receive. A channel gives out one.
pub struct Receiver<T, const N: usize> {
    half: PhantomData<T>,
}

/// A task that has a priority level, if there is one.
pub open spec fn known(waiter: Option<TaskId>) -> bool {
    waiter matches Some(id) ==> id.prio() < PRIORITY_LEVELS
}

/// What waking the task of a waiter's place does.
pub open spec fn woke(waiter: Option<TaskId>, pre: &WakerState, post: &WakerState) -> bool {
    match waiter {
        Some(id) => waker::marked(*pre, *post, id),
        None => *post == *pre,
    }
}

impl<T, const N: usize> Channel<T, N> {
    /// Values in the ring.
    pub closed spec fn fill(&self) -> int {
        if self.tail >= self.head {
            self.tail - self.head
        } else {
            self.tail + N - self.head
        }
    }

    /// Place of the `i`-th value.
    closed spec fn place(&self, i: int) -> int {
        if self.head + i < N {
            self.head + i
        } else {
            self.head + i - N
        }
    }

    /// The queued values, the oldest first.
    pub closed spec fn queue(&self) -> Seq<T> {
        Seq::new(self.fill() as nat, |i: int| self.buf@[self.place(i)]->0)
    }

    /// Whether the halves were given out.
    pub closed spec fn is_split(&self) -> bool {
        self.taken
    }

    /// The task that waits for a value.
    pub closed spec fn receiver_waiting(&self) -> Option<TaskId> {
        self.recv_waiter
    }

    /// The task that waits for a place.
    pub closed spec fn sender_waiting(&self) -> Option<TaskId> {
        self.send_waiter
    }

    /// Every queued value is there.
    pub closed spec fn wf(&self) -> bool {
        &&& N > 0
        &&& self.buf@.len() == N
        &&& self.head < N
        &&& self.tail < N
        &&& forall|i: int| 0 <= i < self.fill() ==> self.buf@[#[trigger] self.place(i)] is Some
        &&& known(self.recv_waiter)
        &&& known(self.send_waiter)
    }

    /// There is no room for another value.
    pub open spec fn full(&self) -> bool {
        self.queue().len() >= N - 1
    }

    /// A queue never holds more than its capacity.
    pub proof fn law_capacity(&self)
        requires
            self.wf(),
        ensures
            self.queue().len() <= N - 1,
    {
    }

    /// An empty channel. Without a place it is of no use.
    pub fn new() -> (r: Self)
        ensures
            N > 0 ==> r.wf(),
            r.queue() == Seq::<T>::empty(),
            !r.is_split(),
            r.receiver_waiting() is None,
            r.sender_waiting() is None,
    {
        let mut buf: Vec<Option<T>> = Vec::new();
        let mut i: usize = 0;
        while i < N
            invariant
                i <= N,
                buf@.len() == i,
            decreases N - i,
        {
            buf.push(None);
            i = i + 1;
        }
        let r = Channel {
            buf,
            head: 0,
            tail: 0,
            taken: false,
            recv_waiter: None,
            send_waiter: None,
        };
        assert(r.queue() =~= Seq::<T>::empty());
        r
    }

    /// The oldest value, which stays where it is.
    pub fn front(&self) -> (r: Option<&T>)
        requires
            self.wf(),
        ensures
            r is None <==> self.queue().len() == 0,
            r matches Some(v) ==> *v == self.queue()[0],
    {
        if self.head == self.tail {
            return None;
        }
        assert(self.place(0) == self.head);
        self.buf[self.head].as_ref()
    }

    /// Give out the two halves, the first time that it is asked for them. A
    /// channel without a place has halves too.
    pub fn split(&mut self) -> (r: Option<(Sender<T, N>, Receiver<T, N>)>)
        ensures
            old(self).wf() ==> final(self).wf(),
            r is Some == !old(self).is_split(),
            final(self).is_split(),
            final(self).queue() == old(self).queue(),
            final(self).receiver_waiting() == old(self).receiver_waiting(),
            final(self).sender_waiting() == old(self).sender_waiting(),
    {
        if self.taken {
            return None;
        }
        self.taken = true;
        assert(forall|i: int| #[trigger] self.place(i) == old(self).place(i));
        assert(self.queue() =~= old(self).queue());
        Some((Sender { half: PhantomData }, Receiver { half: PhantomData }))
    }
}

impl<T, const N: usize> Default for Channel<T, N> {
    fn default() -> (r: Self)
        ensures
            N > 0 ==> r.wf(),
            r.queue() == Seq::<T>::empty(),
            !r.is_split(),
            r.receiver_waiting() is None,
            r.sender_waiting() is None,
    {
        Self::new()
    }
}

/// Everything but the ring is the same.
pub closed spec fn same_waiters<T, const N: usize>(
    pre: &Channel<T, N>,
    post: &Channel<T, N>,
) -> bool {
    &&& post.taken == pre.taken
    &&& post.recv_waiter == pre.recv_waiter
    &&& post.send_waiter == pre.send_waiter
}

/// The ring is the same.
pub closed spec fn same_ring<T, const N: usize>(pre: &Channel<T, N>, post: &Channel<T, N>) -> bool {
    &&& post.buf@ == pre.buf@
    &&& post.head == pre.head
    &&& post.tail == pre.tail
    &&& post.taken == pre.taken
}

/// The place after `at`.
spec fn next_place(at: usize, n: usize) -> usize {
    if at + 1 < n {
        (at + 1) as usize
    } else {
        0
    }
}

/// The value was put into the place behind the queue.
pub closed spec fn slot_filled<T, const N: usize>(
    pre: &Channel<T, N>,
    post: &Channel<T, N>,
    val: T,
) -> bool {
    &&& post.buf@ == pre.buf@.update(pre.tail as int, Some(val))
    &&& post.head == pre.head
    &&& post.tail == pre.tail
    &&& same_waiters(pre, post)
}

/// The place behind the queue was made part of it.
pub closed spec fn tail_moved<T, const N: usize>(pre: &Channel<T, N>, post: &Channel<T, N>) -> bool {
    &&& post.buf@ == pre.buf@
    &&& post.head == pre.head
    &&& post.tail == next_place(pre.tail, N)
    &&& same_waiters(pre, post)
}

/// The value was taken out of the first place of the queue.
pub closed spec fn slot_emptied<T, const N: usize>(
    pre: &Channel<T, N>,
    post: &Channel<T, N>,
    val: Option<T>,
) -> bool {
    &&& val == pre.buf@[pre.head as int]
    &&& post.buf@ == pre.buf@.update(pre.head as int, None)
    &&& post.head == pre.head
    &&& post.tail == pre.tail
    &&& same_waiters(pre, post)
}

/// The first place of the queue was made free.
pub closed spec fn head_moved<T, const N: usize>(pre: &Channel<T, N>, post: &Channel<T, N>) -> bool {
    &&& post.buf@ == pre.buf@
    &&& post.head == next_place(pre.head, N)
    &&& post.tail == pre.tail
    &&& same_waiters(pre, post)
}

/// A value became part of the queue.
pub open spec fn arrived<T, const N: usize>(
    pre: &Channel<T, N>,
    post: &Channel<T, N>,
    val: T,
) -> bool {
    &&& post.queue() == pre.queue().push(val)
    &&& post.is_split() == pre.is_split()
    &&& post.receiver_waiting() == pre.receiver_waiting()
    &&& post.sender_waiting() == pre.sender_waiting()
}

/// The oldest value left the queue.
pub open spec fn departed<T, const N: usize>(pre: &Channel<T, N>, post: &Channel<T, N>) -> bool {
    &&& pre.queue().len() > 0
    &&& post.queue() == pre.queue().skip(1)
    &&& post.is_split() == pre.is_split()
    &&& post.receiver_waiting() == pre.receiver_waiting()
    &&& post.sender_waiting() == pre.sender_waiting()
}

/// The place of the waiting receiver was set.
pub open spec fn receiver_placed<T, const N: usize>(
    pre: &Channel<T, N>,
    post: &Channel<T, N>,
    id: Option<TaskId>,
) -> bool {
    &&& same_ring(pre, post)
    &&& post.receiver_waiting() == id
    &&& post.sender_waiting() == pre.sender_waiting()
}

/// The place of the waiting sender was set.
pub open spec fn sender_placed<T, const N: usize>(
    pre: &Channel<T, N>,
    post: &Channel<T, N>,
    id: Option<TaskId>,
) -> bool {
    &&& same_ring(pre, post)
    &&& post.sender_waiting() == id
    &&& post.receiver_waiting() == pre.receiver_waiting()
}

impl<T, const N: usize> Channel<T, N> {
    /// Step of a send: look for a free place.
    fn has_room(&self) -> (r: bool)
        requires
            self.wf(),
        ensures
            r == !self.full(),
    {
        let next_tail: usize = if self.tail + 1 < N {
            self.tail + 1
        } else {
            0
        };
        next_tail != self.head
    }

    /// Step of a send: put the value into the place behind the queue.
    fn fill_slot(&mut self, val: T)
        requires
            old(self).wf(),
        ensures
            slot_filled(old(self), final(self), val),
    {
        self.buf.set(self.tail, Some(val));
    }

    /// Step of a send: make the place behind the queue part of it.
    fn move_tail(&mut self)
        requires
            old(self).tail < N,
        ensures
            tail_moved(old(self), final(self)),
    {
        self.tail = if self.tail + 1 < N {
            self.tail + 1
        } else {
            0
        };
    }

    /// Step of a receive: look for a value.
    fn has_value(&self) -> (r: bool)
        requires
            self.wf(),
        ensures
            r == (self.queue().len() > 0),
    {
        self.head != self.tail
    }

    /// Step of a receive: take the value out of the first place.
    fn empty_slot(&mut self) -> (r: Option<T>)
        requires
            old(self).wf(),
        ensures
            slot_emptied(old(self), final(self), r),
    {
        let mut val: Option<T> = None;
        self.buf.set_and_swap(self.head, &mut val);
        val
    }

    /// Step of a receive: make the first place free.
    fn move_head(&mut self)
        requires
            old(self).head < N,
        ensures
            head_moved(old(self), final(self)),
    {
        self.head = if self.head + 1 < N {
            self.head + 1
        } else {
            0
        };
    }

    /// Last step of a send: take the waiting receiver out of its place.
    fn claim_receiver(&mut self) -> (r: Option<TaskId>)
        requires
            old(self).wf(),
        ensures
            final(self).wf(),
            r == old(self).receiver_waiting(),
            receiver_placed(old(self), final(self), None),
            final(self).queue() == old(self).queue(),
            known(r),
    {
        let waiter = self.recv_waiter;
        self.recv_waiter = None;
        proof {
            lemma_same_ring(old(self), self);
        }
        waiter
    }

    /// Last step of a receive: take the waiting sender out of its place.
    fn claim_sender(&mut self) -> (r: Option<TaskId>)
        requires
            old(self).wf(),
        ensures
            final(self).wf(),
            r == old(self).sender_waiting(),
            sender_placed(old(self), final(self), None),
            final(self).queue() == old(self).queue(),
            known(r),
    {
        let waiter = self.send_waiter;
        self.send_waiter = None;
        proof {
            lemma_same_ring(old(self), self);
        }
        waiter
    }
}

/// With the same ring, the queue is the same.
proof fn lemma_same_ring<T, const N: usize>(pre: &Channel<T, N>, post: &Channel<T, N>)
    requires
        same_ring(pre, post),
    ensures
        post.queue() == pre.queue(),
        post.is_split() == pre.is_split(),
        pre.wf() && known(post.recv_waiter) && known(post.send_waiter) ==> post.wf(),
{
    assert(forall|i: int| #[trigger] post.place(i) == pre.place(i));
    assert(post.queue() =~= pre.queue());
}

/// A value that was put behind the queue and made part of it is its last.
proof fn lemma_sent<T, const N: usize>(pre: &Channel<T, N>, post: &Channel<T, N>, val: T)
    requires
        pre.wf(),
        !pre.full(),
        post.buf@ == pre.buf@.update(pre.tail as int, Some(val)),
        post.head == pre.head,
        post.tail == next_place(pre.tail, N),
        same_waiters(pre, post),
    ensures
        post.wf(),
        arrived(pre, post, val),
{
    assert(forall|i: int| #[trigger] post.place(i) == pre.place(i));
    assert(post.fill() == pre.fill() + 1);
    assert(pre.place(pre.fill()) == pre.tail);
    assert forall|i: int| 0 <= i < pre.fill() implies #[trigger] pre.place(i) != pre.tail by {}
    assert forall|i: int| 0 <= i < post.fill() implies post.buf@[#[trigger] post.place(
        i,
    )] is Some by {
        if i < pre.fill() {
            assert(pre.buf@[pre.place(i)] is Some);
        }
    }
    assert(post.queue() =~= pre.queue().push(val));
}

/// With the first place emptied and made free, the rest of the queue is left.
proof fn lemma_received<T, const N: usize>(pre: &Channel<T, N>, post: &Channel<T, N>)
    requires
        pre.wf(),
        pre.queue().len() > 0,
        post.buf@ == pre.buf@.update(pre.head as int, None),
        post.head == next_place(pre.head, N),
        post.tail == pre.tail,
        same_waiters(pre, post),
    ensures
        post.wf(),
        departed(pre, post),
{
    assert(pre.place(0) == pre.head);
    assert(post.fill() == pre.fill() - 1);
    assert forall|i: int| 0 <= i < post.fill() implies post.place(i) == #[trigger] pre.place(i + 1)
        && pre.place(i + 1) != pre.head by {}
    assert forall|i: int| 0 <= i < post.fill() implies post.buf@[#[trigger] post.place(
        i,
    )] is Some by {
        assert(pre.buf@[pre.place(i + 1)] is Some);
    }
    assert forall|i: int| 0 <= i < post.fill() implies #[trigger] post.queue()[i]
        == pre.queue().skip(1)[i] by {
        assert(post.place(i) == pre.place(i + 1));
    }
    assert(post.queue() =~= pre.queue().skip(1));
}

/// The value went to the end of the queue, and the task that waited for one
/// was woken.
pub open spec fn sent<T, const N: usize>(
    pre: &Channel<T, N>,
    post: &Channel<T, N>,
    pre_w: &WakerState,
    post_w: &WakerState,
    val: T,
) -> bool {
    &&& post.queue() == pre.queue().push(val)
    &&& post.is_split() == pre.is_split()
    &&& post.receiver_waiting() is None
    &&& post.sender_waiting() == pre.sender_waiting()
    &&& woke(pre.receiver_waiting(), pre_w, post_w)
}

/// The oldest value was taken out, and the task that waited for a place was
/// woken.
pub open spec fn received<T, const N: usize>(
    pre: &Channel<T, N>,
    post: &Channel<T, N>,
    pre_w: &WakerState,
    post_w: &WakerState,
    val: T,
) -> bool {
    &&& pre.queue().len() > 0
    &&& val == pre.queue()[0]
    &&& post.queue() == pre.queue().skip(1)
    &&& post.is_split() == pre.is_split()
    &&& post.sender_waiting() is None
    &&& post.receiver_waiting() == pre.receiver_waiting()
    &&& woke(pre.sender_waiting(), pre_w, post_w)
}

impl<T, const N: usize> Sender<T, N> {
    /// Put a value at the end of the queue, and wake the task that waits for
    /// one. A full queue hands the value back.
    pub fn try_send(&self, chan: &mut Channel<T, N>, w: &mut WakerState, val: T) -> (r: Result<
        (),
        T,
    >)
        requires
            old(chan).wf(),
        ensures
            final(chan).wf(),
            old(chan).full() ==> r == Err::<(), T>(val) && *final(chan) == *old(chan)
                && *final(w) == *old(w),
            !old(chan).full() ==> r is Ok && sent(old(chan), final(chan), old(w), final(w), val),
    {
        if !chan.has_room() {
            return Err(val);
        }
        let ghost pre = *chan;
        chan.fill_slot(val);
        chan.move_tail();
        proof {
            lemma_sent(&pre, chan, val);
        }
        if let Some(id) = chan.claim_receiver() {
            waker::mark_ready(w, id);
        }
        Ok(())
    }

    /// Begin to send a value.
    pub fn send(&self, val: T) -> (r: SendFut<T>)
        ensures
            r.val == Some(val),
            !r.registered,
    {
        SendFut { val: Some(val), registered: false }
    }
}

impl<T, const N: usize> Receiver<T, N> {
    /// Take the oldest value, and wake the task that waits for a place.
    pub fn try_recv(&self, chan: &mut Channel<T, N>, w: &mut WakerState) -> (r: Option<T>)
        requires
            old(chan).wf(),
        ensures
            final(chan).wf(),
            r is None <==> old(chan).queue().len() == 0,
            r is None ==> *final(chan) == *old(chan) && *final(w) == *old(w),
            r matches Some(val) ==> received(old(chan), final(chan), old(w), final(w), val),
    {
        if !chan.has_value() {
            return None;
        }
        let ghost pre = *chan;
        assert(pre.place(0) == pre.head);
        let val = chan.empty_slot();
        chan.move_head();
        proof {
            lemma_received(&pre, chan);
        }
        if let Some(id) = chan.claim_sender() {
            waker::mark_ready(w, id);
        }
        val
    }

    /// Begin to receive a value.
    pub fn recv(&self) -> (r: Recv)
        ensures
            !r.registered,
    {
        Recv { registered: false }
    }
}

/// A send that waits for a place.
pub struct SendFut<T> {
    /// The value, until it is sent.
    pub val: Option<T>,
    /// The send has registered its task.
    pub registered: bool,
}

/// A receive that waits for a value.
pub struct Recv {
    /// The receive has registered its task.
    pub registered: bool,
}

impl<T> SendFut<T> {
    /// What one poll of a send does, in the name of `current`.
    pub open spec fn polled<const N: usize>(
        pre: &SendFut<T>,
        post: &SendFut<T>,
        pre_c: &Channel<T, N>,
        post_c: &Channel<T, N>,
        pre_w: &WakerState,
        post_w: &WakerState,
        current: Option<TaskId>,
        r: Poll<()>,
    ) -> bool {
        if pre_c.full() {
            &&& r is Pending
            &&& post.val == pre.val
            &&& post.registered
            &&& post_c.queue() == pre_c.queue()
            &&& post_c.is_split() == pre_c.is_split()
            &&& post_c.receiver_waiting() == pre_c.receiver_waiting()
            &&& post_c.sender_waiting() == current
            &&& *post_w == *pre_w
        } else {
            &&& r == Poll::Ready(())
            &&& post.val is None
            &&& post.registered == pre.registered
            &&& post_c.queue() == pre_c.queue().push(pre.val->0)
            &&& post_c.is_split() == pre_c.is_split()
            &&& post_c.receiver_waiting() is None
            &&& post_c.sender_waiting() == (if pre.registered {
                None
            } else {
                pre_c.sender_waiting()
            })
            &&& woke(pre_c.receiver_waiting(), pre_w, post_w)
        }
    }

    /// Poll: send if there is room; otherwise register the polling task, which
    /// must be known. A send that is done must not be polled again.
    pub fn poll<const N: usize>(
        &mut self,
        tx: &Sender<T, N>,
        chan: &mut Channel<T, N>,
        w: &mut WakerState,
        current: Option<TaskId>,
    ) -> (r: Poll<()>)
        requires
            old(chan).wf(),
            old(self).val is Some,
            old(chan).full() ==> current is Some && known(current),
        ensures
            final(chan).wf(),
            Self::polled(
                old(self),
                final(self),
                old(chan),
                final(chan),
                old(w),
                final(w),
                current,
                r,
            ),
    {
        let val = match self.val.take() {
            Some(v) => v,
            None => {
                assert(false);
                return Poll::Ready(());
            },
        };
        match tx.try_send(chan, w, val) {
            Ok(()) => {
                self.clear_registration(chan);
                Poll::Ready(())
            },
            Err(v) => {
                chan.register_sender(current);
                self.registered = true;
                // A place may have become free before the task was in its
                // place.
                match tx.try_send(chan, w, v) {
                    Ok(()) => {
                        self.clear_registration(chan);
                        Poll::Ready(())
                    },
                    Err(v) => {
                        self.val = Some(v);
                        Poll::Pending
                    },
                }
            },
        }
    }

    /// Withdraw the registration of the task, if there is one. A send that is
    /// given up does this, so that a later receive wakes nobody.
    pub fn clear_registration<const N: usize>(&self, chan: &mut Channel<T, N>)
        requires
            old(chan).wf(),
        ensures
            final(chan).wf(),
            final(chan).queue() == old(chan).queue(),
            final(chan).is_split() == old(chan).is_split(),
            final(chan).receiver_waiting() == old(chan).receiver_waiting(),
            final(chan).sender_waiting() == (if self.registered {
                None
            } else {
                old(chan).sender_waiting()
            }),
    {
        if self.registered {
            chan.register_sender(None);
        }
    }
}

impl<T, const N: usize> Channel<T, N> {
    fn register_sender(&mut self, id: Option<TaskId>)
        requires
            old(self).wf(),
            known(id),
        ensures
            final(self).wf(),
            sender_placed(old(self), final(self), id),
            final(self).queue() == old(self).queue(),
            final(self).is_split() == old(self).is_split(),
    {
        self.send_waiter = id;
        proof {
            lemma_same_ring(old(self), self);
        }
    }

    fn register_receiver(&mut self, id: Option<TaskId>)
        requires
            old(self).wf(),
            known(id),
        ensures
            final(self).wf(),
            receiver_placed(old(self), final(self), id),
            final(self).queue() == old(self).queue(),
            final(self).is_split() == old(self).is_split(),
    {
        self.recv_waiter = id;
        proof {
            lemma_same_ring(old(self), self);
        }
    }
}

impl Recv {
    /// What one poll of a receive does, in the name of `current`.
    pub open spec fn polled<T, const N: usize>(
        pre: &Recv,
        post: &Recv,
        pre_c: &Channel<T, N>,
        post_c: &Channel<T, N>,
        pre_w: &WakerState,
        post_w: &WakerState,
        current: Option<TaskId>,
        r: Poll<T>,
    ) -> bool {
        if pre_c.queue().len() == 0 {
            &&& r is Pending
            &&& post.registered
            &&& post_c.queue() == pre_c.queue()
            &&& post_c.is_split() == pre_c.is_split()
            &&& post_c.receiver_waiting() == current
            &&& post_c.sender_waiting() == pre_c.sender_waiting()
            &&& *post_w == *pre_w
        } else {
            &&& r == Poll::Ready(pre_c.queue()[0])
            &&& post.registered == pre.registered
            &&& post_c.queue() == pre_c.queue().skip(1)
            &&& post_c.is_split() == pre_c.is_split()
            &&& post_c.receiver_waiting() == (if pre.registered {
                None
            } else {
                pre_c.receiver_waiting()
            })
            &&& post_c.sender_waiting() is None
            &&& woke(pre_c.sender_waiting(), pre_w, post_w)
        }
    }

    /// Poll: receive if there is a value; otherwise register the polling task,
    /// which must be known.
    pub fn poll<T, const N: usize>(
        &mut self,
        rx: &Receiver<T, N>,
        chan: &mut Channel<T, N>,
        w: &mut WakerState,
        current: Option<TaskId>,
    ) -> (r: Poll<T>)
        requires
            old(chan).wf(),
            old(chan).queue().len() == 0 ==> current is Some && known(current),
        ensures
            final(chan).wf(),
            Self::polled(
                old(self),
                final(self),
                old(chan),
                final(chan),
                old(w),
                final(w),
                current,
                r,
            ),
    {
        if let Some(v) = rx.try_recv(chan, w) {
            self.clear_registration(chan);
            return Poll::Ready(v);
        }
        chan.register_receiver(current);
        self.registered = true;
        // A value may have come before the task was in its place.
        if let Some(v) = rx.try_recv(chan, w) {
            self.clear_registration(chan);
            return Poll::Ready(v);
        }
        Poll::Pending
    }

    /// Withdraw the registration of the task, if there is one.
    pub fn clear_registration<T, const N: usize>(&self, chan: &mut Channel<T, N>)
        requires
            old(chan).wf(),
        ensures
            final(chan).wf(),
            final(chan).queue() == old(chan).queue(),
            final(chan).is_split() == old(chan).is_split(),
            final(chan).sender_waiting() == old(chan).sender_waiting(),
            final(chan).receiver_waiting() == (if self.registered {
                None
            } else {
                old(chan).receiver_waiting()
            }),
    {
        if self.registered {
            chan.register_receiver(None);
        }
    }
}

/// One transfer: a value was sent, or a value was received.
pub open spec fn transferred<T, const N: usize>(
    pre: &Channel<T, N>,
    post: &Channel<T, N>,
    pre_w: &WakerState,
    post_w: &WakerState,
    is_send: bool,
    val: T,
) -> bool {
    if is_send {
        sent(pre, post, pre_w, post_w, val)
    } else {
        received(pre, post, pre_w, post_w, val)
    }
}

/// The values that were sent, or those that were received, in their order.
pub open spec fn moved<T>(ops: Seq<(bool, T)>, is_send: bool) -> Seq<T>
    decreases ops.len(),
{
    if ops.len() == 0 {
        Seq::empty()
    } else if ops.last().0 == is_send {
        moved(ops.drop_last(), is_send).push(ops.last().1)
    } else {
        moved(ops.drop_last(), is_send)
    }
}

/// Every value that is sent is received exactly once, in the order of sending,
/// or is still queued: over any run of sends and receives, what was queued at
/// first followed by what was sent is what was received followed by what is
/// queued at last.
pub proof fn law_each_value_once_in_order<T, const N: usize>(
    cs: Seq<Channel<T, N>>,
    ws: Seq<WakerState>,
    ops: Seq<(bool, T)>,
)
    requires
        cs.len() == ops.len() + 1,
        ws.len() == ops.len() + 1,
        forall|i: int|
            0 <= i < ops.len() ==> transferred(
                &cs[i],
                &cs[i + 1],
                &ws[i],
                &ws[i + 1],
                (#[trigger] ops[i]).0,
                ops[i].1,
            ),
    ensures
        cs[0].queue() + moved(ops, true) == moved(ops, false) + cs.last().queue(),
    decreases ops.len(),
{
    if ops.len() == 0 {
        assert(cs[0].queue() + moved(ops, true) =~= moved(ops, false) + cs.last().queue());
    } else {
        let n = ops.len() - 1;
        let before = ops.drop_last();
        assert forall|i: int| 0 <= i < before.len() implies transferred(
            &cs.drop_last()[i],
            &cs.drop_last()[i + 1],
            &ws.drop_last()[i],
            &ws.drop_last()[i + 1],
            (#[trigger] before[i]).0,
            before[i].1,
        ) by {
            assert(ops[i] == before[i]);
        }
        law_each_value_once_in_order(cs.drop_last(), ws.drop_last(), before);
        let mid = cs[n].queue();
        let val = ops[n].1;
        assert(ops[n] == ops.last());
        assert(cs.drop_last().last() == cs[n]);
        assert(cs.last() == cs[n + 1]);
        let first = cs[0].queue();
        if ops[n].0 {
            assert(first + moved(before, true).push(val) =~= (first + moved(before, true)).push(
                val,
            ));
            assert((moved(before, false) + mid).push(val) =~= moved(before, false) + mid.push(val));
        } else {
            assert(moved(before, false).push(val) + mid.skip(1) =~= moved(before, false) + mid);
        }
    }
}

/// No wakeup is lost: a receive that is pending is woken by the next send.
pub proof fn law_send_wakes_receiver<T, const N: usize>(
    r0: Recv,
    r1: Recv,
    c0: Channel<T, N>,
    c1: Channel<T, N>,
    c2: Channel<T, N>,
    w0: WakerState,
    w1: WakerState,
    w2: WakerState,
    id: TaskId,
    val: T,
)
    requires
        Recv::polled(&r0, &r1, &c0, &c1, &w0, &w1, Some(id), Poll::Pending),
        sent(&c1, &c2, &w1, &w2, val),
        w1.wf(),
        0 <= id.prio() < PRIORITY_LEVELS,
        id.idx() < 32,
    ensures
        w2.ready(id.prio(), id.idx()),
        c2.queue() == c0.queue().push(val),
{
    waker::law_no_lost_wakeup(w1, w2, id);
}

/// How far a send has come.
pub enum SendStage<T> {
    /// No send is under way.
    Idle,
    /// There is a place for the value.
    Checked(T),
    /// The value is in its place.
    Filled(T),
    /// The value is part of the queue.
    Moved,
}

/// How far a receive has come.
pub enum RecvStage<T> {
    /// No receive is under way.
    Idle,
    /// There is a value.
    Checked,
    /// The value was taken out of its place.
    Emptied(T),
    /// The place is free.
    Moved,
}

/// A sender and a receiver, both at work on one channel.
pub struct Traffic<T, const N: usize> {
    /// The channel.
    pub chan: Channel<T, N>,
    /// The sender.
    pub send: SendStage<T>,
    /// The receiver.
    pub recv: RecvStage<T>,
    /// The values that were sent, in their order.
    pub sent: Seq<T>,
    /// The values that were received, in their order.
    pub received: Seq<T>,
}

/// The sender makes its next step. An idle one may begin to send any value, if
/// there is room.
pub open spec fn send_steps<T, const N: usize>(pre: &Traffic<T, N>, post: &Traffic<T, N>) -> bool {
    &&& post.recv == pre.recv
    &&& post.received == pre.received
    &&& match pre.send {
        SendStage::Idle => {
            &&& !pre.chan.full()
            &&& post.chan == pre.chan
            &&& post.send is Checked
            &&& post.sent == pre.sent
        },
        SendStage::Checked(val) => {
            &&& slot_filled(&pre.chan, &post.chan, val)
            &&& post.send == SendStage::Filled(val)
            &&& post.sent == pre.sent
        },
        SendStage::Filled(val) => {
            &&& tail_moved(&pre.chan, &post.chan)
            &&& post.send == SendStage::<T>::Moved
            &&& post.sent == pre.sent.push(val)
        },
        SendStage::Moved => {
            &&& receiver_placed(&pre.chan, &post.chan, None)
            &&& post.send == SendStage::<T>::Idle
            &&& post.sent == pre.sent
        },
    }
}

/// The receiver makes its next step. An idle one may begin to receive, if there
/// is a value.
pub open spec fn recv_steps<T, const N: usize>(pre: &Traffic<T, N>, post: &Traffic<T, N>) -> bool {
    &&& post.send == pre.send
    &&& post.sent == pre.sent
    &&& match pre.recv {
        RecvStage::Idle => {
            &&& pre.chan.queue().len() > 0
            &&& post.chan == pre.chan
            &&& post.recv == RecvStage::<T>::Checked
            &&& post.received == pre.received
        },
        RecvStage::Checked => {
            &&& post.recv matches RecvStage::Emptied(val) && slot_emptied(
                &pre.chan,
                &post.chan,
                Some(val),
            )
            &&& post.received == pre.received
        },
        RecvStage::Emptied(val) => {
            &&& head_moved(&pre.chan, &post.chan)
            &&& post.recv == RecvStage::<T>::Moved
            &&& post.received == pre.received.push(val)
        },
        RecvStage::Moved => {
            &&& sender_placed(&pre.chan, &post.chan, None)
            &&& post.recv == RecvStage::<T>::Idle
            &&& post.received == pre.received
        },
    }
}

/// The values on their way, the oldest first: one that has left its place but
/// not the queue counts as well.
pub open spec fn on_their_way<T, const N: usize>(t: &Traffic<T, N>) -> Seq<T> {
    match t.recv {
        RecvStage::Emptied(val) => t.chan.queue().update(0, val),
        _ => t.chan.queue(),
    }
}

/// What holds at every moment of the traffic over a ring.
spec fn traffic_sound<T, const N: usize>(t: &Traffic<T, N>) -> bool {
    let c = t.chan;
    &&& N > 0
    &&& c.buf@.len() == N
    &&& c.head < N
    &&& c.tail < N
    &&& match t.recv {
        RecvStage::Emptied(_) => {
            &&& c.fill() >= 1
            &&& forall|i: int| 1 <= i < c.fill() ==> c.buf@[#[trigger] c.place(i)] is Some
        },
        RecvStage::Checked => {
            &&& c.fill() >= 1
            &&& forall|i: int| 0 <= i < c.fill() ==> c.buf@[#[trigger] c.place(i)] is Some
        },
        _ => forall|i: int| 0 <= i < c.fill() ==> c.buf@[#[trigger] c.place(i)] is Some,
    }
    &&& match t.send {
        SendStage::Checked(_) => c.fill() <= N - 2,
        SendStage::Filled(val) => c.fill() <= N - 2 && c.buf@[c.tail as int] == Some(val),
        _ => true,
    }
}

proof fn lemma_send_step<T, const N: usize>(pre: &Traffic<T, N>, post: &Traffic<T, N>)
    requires
        traffic_sound(pre),
        send_steps(pre, post),
    ensures
        traffic_sound(post),
        on_their_way(post) == (match pre.send {
            SendStage::Filled(val) => on_their_way(pre).push(val),
            _ => on_their_way(pre),
        }),
{
    let a = pre.chan;
    let b = post.chan;
    assert(forall|i: int| #[trigger] b.place(i) == a.place(i));
    match pre.send {
        SendStage::Idle => {},
        SendStage::Checked(val) => {
            assert forall|i: int| 0 <= i < a.fill() implies #[trigger] a.place(i) != a.tail by {}
            assert(b.queue() =~= a.queue());
        },
        SendStage::Filled(val) => {
            assert(b.fill() == a.fill() + 1);
            assert(a.place(a.fill()) == a.tail);
            assert(b.queue() =~= a.queue().push(val));
            if pre.recv is Emptied {
                assert(on_their_way(post) =~= on_their_way(pre).push(val));
            }
        },
        SendStage::Moved => {
            assert(b.queue() =~= a.queue());
        },
    }
}

proof fn lemma_recv_step<T, const N: usize>(pre: &Traffic<T, N>, post: &Traffic<T, N>)
    requires
        traffic_sound(pre),
        recv_steps(pre, post),
    ensures
        traffic_sound(post),
        match pre.recv {
            RecvStage::Emptied(val) => on_their_way(pre) == seq![val] + on_their_way(post),
            _ => on_their_way(post) == on_their_way(pre),
        },
{
    let a = pre.chan;
    let b = post.chan;
    match pre.recv {
        RecvStage::Idle => {},
        RecvStage::Checked => {
            assert(forall|i: int| #[trigger] b.place(i) == a.place(i));
            assert(a.place(0) == a.head);
            assert forall|i: int| 1 <= i < a.fill() implies #[trigger] a.place(i) != a.head by {}
            assert(on_their_way(post) =~= on_their_way(pre));
        },
        RecvStage::Emptied(val) => {
            assert(b.fill() == a.fill() - 1);
            assert forall|i: int| 0 <= i < b.fill() implies b.place(i) == #[trigger] a.place(
                i + 1,
            ) by {}
            assert forall|i: int| 0 <= i < b.fill() implies b.buf@[#[trigger] b.place(
                i,
            )] is Some by {
                assert(a.buf@[a.place(i + 1)] is Some);
            }
            assert forall|i: int| 0 <= i < b.fill() implies #[trigger] b.queue()[i]
                == a.queue()[i + 1] by {
                assert(b.place(i) == a.place(i + 1));
            }
            assert(on_their_way(pre) =~= seq![val] + on_their_way(post));
        },
        RecvStage::Moved => {
            assert(forall|i: int| #[trigger] b.place(i) == a.place(i));
            assert(b.queue() =~= a.queue());
        },
    }
}

/// The sender and the receiver need no lock: however their steps come to lie,
/// every value that is sent is received exactly once, in the order of sending,
/// or is on its way.
pub proof fn law_no_interleaving_loses_a_value<T, const N: usize>(ts: Seq<Traffic<T, N>>)
    requires
        ts.len() > 0,
        ts[0].chan.wf(),
        ts[0].send == SendStage::<T>::Idle,
        ts[0].recv == RecvStage::<T>::Idle,
        ts[0].sent == Seq::<T>::empty(),
        ts[0].received == Seq::<T>::empty(),
        forall|j: int|
            0 <= j < ts.len() - 1 ==> send_steps(#[trigger] &ts[j], &ts[j + 1]) || recv_steps(
                &ts[j],
                &ts[j + 1],
            ),
    ensures
        ts[0].chan.queue() + ts.last().sent == ts.last().received + on_their_way(&ts.last()),
{
    lemma_traffic(ts, (ts.len() - 1) as nat);
}

proof fn lemma_traffic<T, const N: usize>(ts: Seq<Traffic<T, N>>, n: nat)
    requires
        n < ts.len(),
        ts[0].chan.wf(),
        ts[0].send == SendStage::<T>::Idle,
        ts[0].recv == RecvStage::<T>::Idle,
        ts[0].sent == Seq::<T>::empty(),
        ts[0].received == Seq::<T>::empty(),
        forall|j: int|
            0 <= j < ts.len() - 1 ==> send_steps(#[trigger] &ts[j], &ts[j + 1]) || recv_steps(
                &ts[j],
                &ts[j + 1],
            ),
    ensures
        traffic_sound(&ts[n as int]),
        ts[0].chan.queue() + ts[n as int].sent == ts[n as int].received + on_their_way(
            &ts[n as int],
        ),
    decreases n,
{
    let first = ts[0].chan.queue();
    if n == 0 {
        assert(first + ts[0].sent =~= ts[0].received + on_their_way(&ts[0]));
    } else {
        lemma_traffic(ts, (n - 1) as nat);
        let pre = ts[n - 1];
        let post = ts[n as int];
        assert(send_steps(&ts[n - 1], &ts[n - 1 + 1]) || recv_steps(&ts[n - 1], &ts[n - 1 + 1]));
        if send_steps(&pre, &post) {
            lemma_send_step(&pre, &post);
            if let SendStage::Filled(val) = pre.send {
                assert(first + post.sent =~= (first + pre.sent).push(val));
                assert(post.received + on_their_way(&post) =~= (pre.received + on_their_way(
                    &pre,
                )).push(val));
            }
        } else {
            lemma_recv_step(&pre, &post);
            if let RecvStage::Emptied(val) = pre.recv {
                assert(post.received + on_their_way(&post) =~= pre.received + on_their_way(&pre));
            }
        }
    }
}

/// A poll of one half of a channel and a transfer by the other half, both under
/// way.
pub struct Race<T, const N: usize> {
    /// The channel.
    pub chan: Channel<T, N>,
    /// The poll.
    pub poll: PollStage,
    /// The transfer.
    pub transfer: EventStage,
    /// The transfer has woken the task of the poll.
    pub woken: bool,
}

/// The poll of a receive, in the name of `id`, makes its next step.
pub open spec fn recv_poll_steps<T, const N: usize>(
    pre: &Race<T, N>,
    post: &Race<T, N>,
    id: TaskId,
) -> bool {
    &&& post.transfer == pre.transfer
    &&& post.woken == pre.woken
    &&& match pre.poll {
        PollStage::Fresh | PollStage::Placed => {
            let found = pre.chan.queue().len() > 0;
            &&& if found {
                departed(&pre.chan, &post.chan)
            } else {
                post.chan == pre.chan
            }
            &&& post.poll == pre.poll.looked(found)
        },
        PollStage::Missed => receiver_placed(&pre.chan, &post.chan, Some(id))
            && post.poll is Placed,
        PollStage::Caught => receiver_placed(&pre.chan, &post.chan, None) && post.poll is Ready,
        PollStage::Ready | PollStage::Pending => false,
    }
}

/// The send makes its next step.
pub open spec fn arrival_steps<T, const N: usize>(pre: &Race<T, N>, post: &Race<T, N>) -> bool {
    &&& post.poll == pre.poll
    &&& match pre.transfer {
        EventStage::Idle => {
            &&& exists|val: T| arrived(&pre.chan, &post.chan, val)
            &&& post.transfer is Happened
            &&& post.woken == pre.woken
        },
        EventStage::Happened => {
            &&& receiver_placed(&pre.chan, &post.chan, None)
            &&& post.transfer is Done
            &&& post.woken == (pre.woken || pre.chan.receiver_waiting() is Some)
        },
        EventStage::Done => false,
    }
}

/// What holds at every moment of a race between the poll of a receive and a
/// send.
spec fn recv_race_sound<T, const N: usize>(r: &Race<T, N>, id: TaskId) -> bool {
    &&& r.poll is Fresh || r.poll is Missed ==> r.chan.receiver_waiting() is None
    &&& r.poll is Fresh || r.poll is Missed || r.poll is Placed || r.poll is Pending ==> (
    !(r.transfer is Idle) ==> r.chan.queue().len() > 0)
    &&& r.poll is Placed && !(r.transfer is Done) ==> r.chan.receiver_waiting() == Some(id)
    &&& r.poll is Pending ==> if r.transfer is Done {
        r.woken
    } else {
        r.chan.receiver_waiting() == Some(id)
    }
}

/// However the steps of a poll and of a send come to lie, a poll that ends
/// without the value has its task woken, and the value in the queue.
pub proof fn law_no_interleaving_loses_the_receiver<T, const N: usize>(
    rs: Seq<Race<T, N>>,
    id: TaskId,
)
    requires
        rs.len() > 0,
        rs[0].poll is Fresh,
        rs[0].transfer is Idle,
        rs[0].chan.receiver_waiting() is None,
        forall|j: int|
            0 <= j < rs.len() - 1 ==> recv_poll_steps(#[trigger] &rs[j], &rs[j + 1], id)
                || arrival_steps(&rs[j], &rs[j + 1]),
        rs.last().poll.over(),
        rs.last().transfer is Done,
    ensures
        rs.last().poll is Pending ==> rs.last().woken && rs.last().chan.queue().len() > 0,
{
    lemma_recv_race(rs, id, (rs.len() - 1) as nat);
}

proof fn lemma_recv_race<T, const N: usize>(rs: Seq<Race<T, N>>, id: TaskId, n: nat)
    requires
        n < rs.len(),
        rs[0].poll is Fresh,
        rs[0].transfer is Idle,
        rs[0].chan.receiver_waiting() is None,
        forall|j: int|
            0 <= j < rs.len() - 1 ==> recv_poll_steps(#[trigger] &rs[j], &rs[j + 1], id)
                || arrival_steps(&rs[j], &rs[j + 1]),
    ensures
        recv_race_sound(&rs[n as int], id),
    decreases n,
{
    if n > 0 {
        lemma_recv_race(rs, id, (n - 1) as nat);
        let pre = rs[n - 1];
        let post = rs[n as int];
        assert(recv_poll_steps(&rs[n - 1], &rs[n - 1 + 1], id) || arrival_steps(
            &rs[n - 1],
            &rs[n - 1 + 1],
        ));
        if same_ring(&pre.chan, &post.chan) {
            lemma_same_ring(&pre.chan, &post.chan);
        }
    }
}

/// The poll of a send of `val`, in the name of `id`, makes its next step.
pub open spec fn send_poll_steps<T, const N: usize>(
    pre: &Race<T, N>,
    post: &Race<T, N>,
    id: TaskId,
    val: T,
) -> bool {
    &&& post.transfer == pre.transfer
    &&& post.woken == pre.woken
    &&& match pre.poll {
        PollStage::Fresh | PollStage::Placed => {
            let found = !pre.chan.full();
            &&& if found {
                arrived(&pre.chan, &post.chan, val)
            } else {
                post.chan == pre.chan
            }
            &&& post.poll == pre.poll.looked(found)
        },
        PollStage::Missed => sender_placed(&pre.chan, &post.chan, Some(id)) && post.poll is Placed,
        PollStage::Caught => sender_placed(&pre.chan, &post.chan, None) && post.poll is Ready,
        PollStage::Ready | PollStage::Pending => false,
    }
}

/// The receive makes its next step.
pub open spec fn departure_steps<T, const N: usize>(pre: &Race<T, N>, post: &Race<T, N>) -> bool {
    &&& post.poll == pre.poll
    &&& match pre.transfer {
        EventStage::Idle => {
            &&& departed(&pre.chan, &post.chan)
            &&& post.transfer is Happened
            &&& post.woken == pre.woken
        },
        EventStage::Happened => {
            &&& sender_placed(&pre.chan, &post.chan, None)
            &&& post.transfer is Done
            &&& post.woken == (pre.woken || pre.chan.sender_waiting() is Some)
        },
        EventStage::Done => false,
    }
}

/// What holds at every moment of a race between the poll of a send and a
/// receive.
spec fn send_race_sound<T, const N: usize>(r: &Race<T, N>, id: TaskId) -> bool {
    &&& r.poll is Fresh || r.poll is Missed ==> r.chan.sender_waiting() is None
    &&& r.poll is Fresh || r.poll is Missed || r.poll is Placed || r.poll is Pending ==> {
        &&& r.chan.queue().len() <= N - 1
        &&& !(r.transfer is Idle) ==> !r.chan.full()
    }
    &&& r.poll is Placed && !(r.transfer is Done) ==> r.chan.sender_waiting() == Some(id)
    &&& r.poll is Pending ==> if r.transfer is Done {
        r.woken
    } else {
        r.chan.sender_waiting() == Some(id)
    }
}

/// However the steps of a poll and of a receive come to lie, a poll that ends
/// without having sent its value has its task woken, and room in the queue.
pub proof fn law_no_interleaving_loses_the_sender<T, const N: usize>(
    rs: Seq<Race<T, N>>,
    id: TaskId,
    val: T,
)
    requires
        rs.len() > 0,
        rs[0].chan.wf(),
        rs[0].poll is Fresh,
        rs[0].transfer is Idle,
        rs[0].chan.sender_waiting() is None,
        forall|j: int|
            0 <= j < rs.len() - 1 ==> send_poll_steps(#[trigger] &rs[j], &rs[j + 1], id, val)
                || departure_steps(&rs[j], &rs[j + 1]),
        rs.last().poll.over(),
        rs.last().transfer is Done,
    ensures
        rs.last().poll is Pending ==> rs.last().woken && !rs.last().chan.full(),
{
    lemma_send_race(rs, id, val, (rs.len() - 1) as nat);
}

proof fn lemma_send_race<T, const N: usize>(rs: Seq<Race<T, N>>, id: TaskId, val: T, n: nat)
    requires
        n < rs.len(),
        rs[0].chan.wf(),
        rs[0].poll is Fresh,
        rs[0].transfer is Idle,
        rs[0].chan.sender_waiting() is None,
        forall|j: int|
            0 <= j < rs.len() - 1 ==> send_poll_steps(#[trigger] &rs[j], &rs[j + 1], id, val)
                || departure_steps(&rs[j], &rs[j + 1]),
    ensures
        send_race_sound(&rs[n as int], id),
    decreases n,
{
    if n == 0 {
        rs[0].chan.law_capacity();
    } else {
        lemma_send_race(rs, id, val, (n - 1) as nat);
        let pre = rs[n - 1];
        let post = rs[n as int];
        assert(send_poll_steps(&rs[n - 1], &rs[n - 1 + 1], id, val) || departure_steps(
            &rs[n - 1],
            &rs[n - 1 + 1],
        ));
        if same_ring(&pre.chan, &post.chan) {
            lemma_same_ring(&pre.chan, &post.chan);
        }
    }
}

/// Two values that were sent come out in the order in which they went in, the
/// oldest can be looked at before it is taken, and then nothing is left.
pub proof fn law_values_come_out_in_order<T, const N: usize>(
    tx: &Sender<T, N>,
    rx: &Receiver<T, N>,
    c: Channel<T, N>,
    c0: &mut Channel<T, N>,
    c1: &mut Channel<T, N>,
    c2: &mut Channel<T, N>,
    c3: &mut Channel<T, N>,
    c4: &mut Channel<T, N>,
    w0: &mut WakerState,
    w1: &mut WakerState,
    w2: &mut WakerState,
    w3: &mut WakerState,
    w4: &mut WakerState,
    a: T,
    b: T,
    s0: Result<(), T>,
    s1: Result<(), T>,
    seen: Option<&T>,
    r0: Option<T>,
    r1: Option<T>,
    r2: Option<T>,
)
    requires
        N >= 3,
        call_ensures(Channel::<T, N>::new, (), c),
        *old(c0) == c,
        call_ensures(Sender::<T, N>::try_send, (tx, c0, w0, a), s0),
        *old(c1) == *final(c0),
        call_ensures(Sender::<T, N>::try_send, (tx, c1, w1, b), s1),
        call_ensures(Channel::<T, N>::front, (&*final(c1),), seen),
        *old(c2) == *final(c1),
        call_ensures(Receiver::<T, N>::try_recv, (rx, c2, w2), r0),
        *old(c3) == *final(c2),
        call_ensures(Receiver::<T, N>::try_recv, (rx, c3, w3), r1),
        *old(c4) == *final(c3),
        call_ensures(Receiver::<T, N>::try_recv, (rx, c4, w4), r2),
    ensures
        s0 is Ok,
        s1 is Ok,
        seen == Some(&a),
        r0 == Some(a),
        r1 == Some(b),
        r2 is None,
{
}

/// A ring of `N` places holds one value less: up to there a value is taken in
/// behind the others, and from there on it is handed back and nothing changes.
pub proof fn law_channel_fills_up<T, const N: usize>(
    tx: &Sender<T, N>,
    c: &mut Channel<T, N>,
    w: &mut WakerState,
    val: T,
    r: Result<(), T>,
)
    requires
        old(c).wf(),
        call_ensures(Sender::<T, N>::try_send, (tx, c, w, val), r),
    ensures
        old(c).queue().len() + 1 < N ==> r is Ok && final(c).queue().len() == old(c).queue().len()
            + 1 && final(c).queue().last() == val && final(c).queue().drop_last() == old(c).queue(),
        old(c).queue().len() + 1 == N ==> r == Err::<(), T>(val) && *final(c) == *old(c)
            && *final(w) == *old(w),
        old(c).queue().len() + 1 <= N,
{
    old(c).law_capacity();
    if old(c).queue().len() + 1 < N {
        assert(final(c).queue().drop_last() =~= old(c).queue());
    }
}

/// The two halves are given out once.
pub proof fn law_halves_are_given_once<T, const N: usize>(
    c: Channel<T, N>,
    c0: &mut Channel<T, N>,
    c1: &mut Channel<T, N>,
    r0: Option<(Sender<T, N>, Receiver<T, N>)>,
    r1: Option<(Sender<T, N>, Receiver<T, N>)>,
)
    requires
        call_ensures(Channel::<T, N>::new, (), c),
        *old(c0) == c,
        call_ensures(Channel::<T, N>::split, (c0,), r0),
        *old(c1) == *final(c0),
        call_ensures(Channel::<T, N>::split, (c1,), r1),
    ensures
        r0 is Some,
        r1 is None,
        final(c1).queue().len() == 0,
{
}

/// A receive on an empty channel is pending, the next send makes its task and
/// no other task ready, and its next poll has the value.
pub proof fn law_receive_waits_for_a_send<T, const N: usize>(
    tx: &Sender<T, N>,
    rx: &Receiver<T, N>,
    begun: Recv,
    f0: &mut Recv,
    f1: &mut Recv,
    c0: &mut Channel<T, N>,
    c1: &mut Channel<T, N>,
    c2: &mut Channel<T, N>,
    w0: &mut WakerState,
    w1: &mut WakerState,
    w2: &mut WakerState,
    id: TaskId,
    val: T,
    r0: Poll<T>,
    s: Result<(), T>,
    r1: Poll<T>,
)
    requires
        N >= 2,
        0 <= id.prio() < PRIORITY_LEVELS,
        id.idx() < 32,
        old(c0).wf(),
        old(c0).queue().len() == 0,
        call_ensures(Receiver::<T, N>::recv, (rx,), begun),
        *old(f0) == begun,
        call_ensures(Recv::poll::<T, N>, (f0, rx, c0, w0, Some(id)), r0),
        *old(c1) == *final(c0),
        *old(w1) == *final(w0),
        call_ensures(Sender::<T, N>::try_send, (tx, c1, w1, val), s),
        *old(f1) == *final(f0),
        *old(c2) == *final(c1),
        *old(w2) == *final(w1),
        call_ensures(Recv::poll::<T, N>, (f1, rx, c2, w2, Some(id)), r1),
    ensures
        r0 is Pending,
        *final(w0) == *old(w0),
        s is Ok,
        final(w1).ready(id.prio(), id.idx()),
        forall|p: int, i: int|
            !(p == id.prio() && i == id.idx()) ==> #[trigger] final(w1).ready(p, i) == old(w0).ready(
                p,
                i,
            ),
        r1 == Poll::Ready(val),
        final(c2).queue().len() == 0,
        final(c2).receiver_waiting() is None,
{
}

/// A send on a full channel is pending and keeps its value; the next receive
/// makes its task and no other task ready, and its next poll sends the value
/// behind those that were there.
pub proof fn law_send_waits_for_a_place<T, const N: usize>(
    tx: &Sender<T, N>,
    rx: &Receiver<T, N>,
    begun: SendFut<T>,
    f0: &mut SendFut<T>,
    f1: &mut SendFut<T>,
    c0: &mut Channel<T, N>,
    c1: &mut Channel<T, N>,
    c2: &mut Channel<T, N>,
    w0: &mut WakerState,
    w1: &mut WakerState,
    w2: &mut WakerState,
    id: TaskId,
    val: T,
    r0: Poll<()>,
    got: Option<T>,
    r1: Poll<()>,
)
    requires
        N >= 2,
        0 <= id.prio() < PRIORITY_LEVELS,
        id.idx() < 32,
        old(c0).wf(),
        old(c0).queue().len() == N - 1,
        call_ensures(Sender::<T, N>::send, (tx, val), begun),
        *old(f0) == begun,
        call_ensures(SendFut::<T>::poll::<N>, (f0, tx, c0, w0, Some(id)), r0),
        *old(c1) == *final(c0),
        *old(w1) == *final(w0),
        call_ensures(Receiver::<T, N>::try_recv, (rx, c1, w1), got),
        *old(f1) == *final(f0),
        *old(c2) == *final(c1),
        *old(w2) == *final(w1),
        call_ensures(SendFut::<T>::poll::<N>, (f1, tx, c2, w2, Some(id)), r1),
    ensures
        r0 is Pending,
        final(f0).val == Some(val),
        *final(w0) == *old(w0),
        got == Some(old(c0).queue()[0]),
        final(w1).ready(id.prio(), id.idx()),
        forall|p: int, i: int|
            !(p == id.prio() && i == id.idx()) ==> #[trigger] final(w1).ready(p, i) == old(w0).ready(
                p,
                i,
            ),
        r1 == Poll::Ready(()),
        final(c2).queue() == old(c0).queue().skip(1).push(val),
        final(c2).sender_waiting() is None,
{
}

/// A send or a receive that is given up while it waits is no longer woken, and
/// the values in the channel stay.
pub proof fn law_given_up_wait_is_forgotten<T, const N: usize>(
    tx: &Sender<T, N>,
    rx: &Receiver<T, N>,
    s: &mut SendFut<T>,
    r: &mut Recv,
    c0: &mut Channel<T, N>,
    c1: &mut Channel<T, N>,
    d0: &mut Channel<T, N>,
    d1: &mut Channel<T, N>,
    w0: &mut WakerState,
    w1: &mut WakerState,
    id: TaskId,
    a: Poll<()>,
    b: Poll<T>,
)
    requires
        old(c0).wf(),
        old(c0).queue().len() == N - 1,
        call_ensures(SendFut::<T>::poll::<N>, (s, tx, c0, w0, Some(id)), a),
        *old(c1) == *final(c0),
        call_ensures(SendFut::<T>::clear_registration::<N>, (&*final(s), c1), ()),
        old(d0).wf(),
        old(d0).queue().len() == 0,
        call_ensures(Recv::poll::<T, N>, (r, rx, d0, w1, Some(id)), b),
        *old(d1) == *final(d0),
        call_ensures(Recv::clear_registration::<T, N>, (&*final(r), d1), ()),
    ensures
        final(c0).sender_waiting() == Some(id),
        final(c1).sender_waiting() is None,
        final(c1).queue() == old(c0).queue(),
        final(d0).receiver_waiting() == Some(id),
        final(d1).receiver_waiting() is None,
        final(d1).queue().len() == 0,
{
}

} // verus!
