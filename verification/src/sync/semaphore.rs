//! Counting semaphores.
//!
//! A token that comes back while a task waits is handed to that task: it is
//! granted to it, and nobody else can take it.
//!
//! Taking a token and giving one back are made of steps, each of which is one
//! access to the count, to a word of waiting tasks or to a word of grants. Other tasks and interrupt
//! handlers may come between any two of them.
use crate::bits::{self, bit};
use crate::config::PRIORITY_LEVELS;
use crate::task::{Poll, TaskId};
use crate::waker::{self, WakerState};
use vstd::prelude::*;

verus! {

/// A counting semaphore with at most `MAX` tokens.
pub struct Semaphore<const MAX: u8> {
    /// Tokens that can be taken.
    pub count: u8,
    /// Bit `i` of word `p`: task `i` of level `p` waits.
    pub waiters: [u32; PRIORITY_LEVELS],
    /// Bit `i` of word `p`: a token was handed to task `i` of level `p`.
    pub granted: [u32; PRIORITY_LEVELS],
}

/// `id` is the waiting task of level `p` that is served next.
pub open spec fn first_at<const MAX: u8>(s: &Semaphore<MAX>, p: int, id: TaskId) -> bool {
    &&& 0 <= id.prio() < PRIORITY_LEVELS
    &&& id.idx() < 32
    &&& id.prio() == p
    &&& s.waiting(p, id.idx())
    &&& forall|i: int| #[trigger] s.waiting(p, i) ==> id.idx() <= i
}

/// `id` was put on the list of waiting tasks.
pub open spec fn listed<const MAX: u8>(
    pre: &Semaphore<MAX>,
    post: &Semaphore<MAX>,
    id: TaskId,
) -> bool {
    &&& post.count == pre.count
    &&& post.granted == pre.granted
    &&& forall|p: int, i: int|
        #[trigger] post.waiting(p, i) == (pre.waiting(p, i) || (p == id.prio() && i == id.idx()))
}

/// `id` was struck off the list of waiting tasks.
pub open spec fn struck<const MAX: u8>(
    pre: &Semaphore<MAX>,
    post: &Semaphore<MAX>,
    id: TaskId,
) -> bool {
    &&& post.count == pre.count
    &&& post.granted == pre.granted
    &&& forall|p: int, i: int|
        #[trigger] post.waiting(p, i) == (pre.waiting(p, i) && !(p == id.prio() && i == id.idx()))
}

/// A token was taken, if there was one.
pub open spec fn token_taken<const MAX: u8>(pre: &Semaphore<MAX>, post: &Semaphore<MAX>) -> bool {
    &&& post.waiters == pre.waiters
    &&& post.granted == pre.granted
    &&& post.count == (if pre.count > 0 {
        (pre.count - 1) as u8
    } else {
        pre.count
    })
}

/// A token was handed to `id`.
pub open spec fn granted_to<const MAX: u8>(
    pre: &Semaphore<MAX>,
    post: &Semaphore<MAX>,
    id: TaskId,
) -> bool {
    &&& post.count == pre.count
    &&& post.waiters == pre.waiters
    &&& forall|p: int, i: int|
        #[trigger] post.holds_grant(p, i) == (pre.holds_grant(p, i) || (p == id.prio() && i
            == id.idx()))
}

/// The token that was handed to `id`, if any, was taken.
pub open spec fn grant_taken<const MAX: u8>(
    pre: &Semaphore<MAX>,
    post: &Semaphore<MAX>,
    id: TaskId,
) -> bool {
    &&& post.count == pre.count
    &&& post.waiters == pre.waiters
    &&& forall|p: int, i: int|
        #[trigger] post.holds_grant(p, i) == (pre.holds_grant(p, i) && !(p == id.prio() && i
            == id.idx()))
}

/// `id` was struck off the list of waiting tasks and handed a token.
pub open spec fn served<const MAX: u8>(
    pre: &Semaphore<MAX>,
    post: &Semaphore<MAX>,
    id: TaskId,
) -> bool {
    &&& post.count == pre.count
    &&& forall|p: int, i: int|
        #[trigger] post.waiting(p, i) == (pre.waiting(p, i) && !(p == id.prio() && i == id.idx()))
    &&& forall|p: int, i: int|
        #[trigger] post.holds_grant(p, i) == (pre.holds_grant(p, i) || (p == id.prio() && i
            == id.idx()))
}

/// There is one token more, to at most `MAX`.
pub open spec fn counted<const MAX: u8>(pre: &Semaphore<MAX>, post: &Semaphore<MAX>) -> bool {
    &&& post.waiters == pre.waiters
    &&& post.granted == pre.granted
    &&& post.count == (if pre.count < MAX {
        (pre.count + 1) as u8
    } else {
        pre.count
    })
}

impl<const MAX: u8> Semaphore<MAX> {
    /// Task `i` of level `p` waits.
    pub open spec fn waiting(&self, p: int, i: int) -> bool {
        0 <= p < PRIORITY_LEVELS && bit(self.waiters[p], i)
    }

    /// A token was handed to task `i` of level `p`.
    pub open spec fn holds_grant(&self, p: int, i: int) -> bool {
        0 <= p < PRIORITY_LEVELS && bit(self.granted[p], i)
    }

    /// A task that was handed a token does not wait.
    pub open spec fn wf(&self) -> bool {
        forall|p: int, i: int| #[trigger] self.waiting(p, i) ==> !self.holds_grant(p, i)
    }

    /// `id` is the waiting task that is served next: none has a higher
    /// priority, and none of its level a lower index.
    pub open spec fn first_waiter(&self, id: TaskId) -> bool {
        &&& self.waiting(id.prio(), id.idx())
        &&& forall|p: int, i: int| #[trigger] self.waiting(p, i) ==> p <= id.prio()
        &&& forall|i: int| #[trigger] self.waiting(id.prio(), i) ==> id.idx() <= i
    }

    /// No task of level `p` waits.
    pub open spec fn none_at(&self, p: int) -> bool {
        forall|i: int| !self.waiting(p, i)
    }

    /// No task waits.
    pub open spec fn unwanted(&self) -> bool {
        forall|p: int, i: int| !self.waiting(p, i)
    }

    /// A semaphore with `initial` tokens.
    pub fn new(initial: u8) -> (r: Self)
        ensures
            r.count == initial,
            r.unwanted(),
            r.wf(),
            forall|p: int, i: int| !r.holds_grant(p, i),
    {
        proof {
            bits::lemma_zero(0);
        }
        Semaphore {
            count: initial,
            waiters: [0; PRIORITY_LEVELS],
            granted: [0; PRIORITY_LEVELS],
        }
    }

    /// Take a token if there is one that was not handed to a task.
    pub fn try_acquire(&mut self) -> (r: bool)
        ensures
            r == (old(self).count > 0),
            token_taken(old(self), final(self)),
    {
        if self.count == 0 {
            return false;
        }
        self.count = self.count - 1;
        true
    }

    /// Begin to take a token.
    pub fn acquire(&self) -> (r: Acquire)
        ensures
            r.registered is None,
    {
        Acquire { registered: None }
    }

    /// What giving a token back does.
    pub open spec fn released(
        pre: &Self,
        post: &Self,
        pre_w: &WakerState,
        post_w: &WakerState,
    ) -> bool {
        if pre.unwanted() {
            counted(pre, post) && *post_w == *pre_w
        } else {
            exists|id: TaskId|
                {
                    &&& #[trigger] pre.first_waiter(id)
                    &&& 0 <= id.prio() < PRIORITY_LEVELS
                    &&& id.idx() < 32
                    &&& served(pre, post, id)
                    &&& waker::marked(*pre_w, *post_w, id)
                }
        }
    }

    /// Give a token back. The waiting task that is served next is handed the
    /// token and woken; without one, the count goes up, to at most `MAX`.
    pub fn release(&mut self, w: &mut WakerState)
        ensures
            Self::released(old(self), final(self), old(w), final(w)),
            old(self).wf() ==> final(self).wf(),
            old(self).count <= MAX ==> final(self).count <= MAX,
    {
        let mut prio: usize = PRIORITY_LEVELS;
        while prio > 0
            invariant
                prio <= PRIORITY_LEVELS,
                *self == *old(self),
                *w == *old(w),
                forall|q: int, i: int|
                    prio <= q < PRIORITY_LEVELS ==> !#[trigger] self.waiting(q, i),
            decreases prio,
        {
            prio = prio - 1;
            if let Some(id) = self.claim_at(prio) {
                let ghost claimed = *self;
                self.grant(id);
                waker::mark_ready(w, id);
                proof {
                    assert(old(self).first_waiter(id));
                    assert(forall|p: int, i: int|
                        #[trigger] self.waiting(p, i) == claimed.waiting(p, i));
                    assert(forall|p: int, i: int|
                        #[trigger] claimed.holds_grant(p, i) == old(self).holds_grant(p, i));
                    assert(served(old(self), self, id));
                }
                return ;
            }
        }
        assert(self.unwanted());
        self.count_up();
        assert(forall|p: int, i: int|
            #[trigger] self.holds_grant(p, i) == old(self).holds_grant(p, i));
        assert(forall|p: int, i: int| #[trigger] self.waiting(p, i) == old(self).waiting(p, i));
    }

    /// Step of a release: take the first waiting task of a level off its word.
    fn claim_at(&mut self, prio: usize) -> (r: Option<TaskId>)
        requires
            prio < PRIORITY_LEVELS,
        ensures
            r is None ==> *final(self) == *old(self) && old(self).none_at(prio as int),
            r matches Some(id) ==> first_at(old(self), prio as int, id) && struck(
                old(self),
                final(self),
                id,
            ),
    {
        let queue: u32 = self.waiters[prio];
        proof {
            bits::lemma_zero(queue);
        }
        if queue == 0 {
            return None;
        }
        let index: u32 = bits::lowest(queue);
        proof {
            bits::lemma_clear(queue, index);
        }
        self.waiters[prio] = queue & !(1u32 << index);
        assert(old(self).waiting(prio as int, index as int));
        Some(TaskId::new(prio as u8, index as u8))
    }

    /// Step of a release: hand the token to `id`.
    fn grant(&mut self, id: TaskId)
        requires
            has_place(id),
        ensures
            granted_to(old(self), final(self), id),
    {
        let prio: usize = id.priority() as usize;
        let index: u32 = id.index() as u32;
        proof {
            bits::lemma_set(self.granted[prio as int], index);
        }
        self.granted[prio] = self.granted[prio] | (1u32 << index);
    }

    /// Take the token that was handed to `id`, if there is one.
    fn take_grant(&mut self, id: TaskId) -> (r: bool)
        requires
            has_place(id),
        ensures
            r == old(self).holds_grant(id.prio(), id.idx()),
            grant_taken(old(self), final(self), id),
            !r ==> *final(self) == *old(self),
    {
        let prio: usize = id.priority() as usize;
        let index: u32 = id.index() as u32;
        let queue: u32 = self.granted[prio];
        if (queue >> index) & 1 != 1 {
            return false;
        }
        proof {
            bits::lemma_clear(queue, index);
        }
        self.granted[prio] = queue & !(1u32 << index);
        true
    }

    /// Step of a release that found no waiting task: one token more.
    fn count_up(&mut self)
        ensures
            counted(old(self), final(self)),
    {
        if self.count < MAX {
            self.count = self.count + 1;
        }
    }

    /// Note that `id` waits.
    pub fn register_waiter(&mut self, id: TaskId)
        requires
            id.prio() < PRIORITY_LEVELS,
            id.idx() < 32,
        ensures
            listed(old(self), final(self), id),
            old(self).wf() && !old(self).holds_grant(id.prio(), id.idx()) ==> final(self).wf(),
    {
        let prio: usize = id.priority() as usize;
        let index: u32 = id.index() as u32;
        proof {
            bits::lemma_set(self.waiters[prio as int], index);
        }
        self.waiters[prio] = self.waiters[prio] | (1u32 << index);
        assert(forall|p: int, i: int|
            #[trigger] self.holds_grant(p, i) == old(self).holds_grant(p, i));
        assert(forall|p: int, i: int| #[trigger]
            self.waiting(p, i) ==> old(self).waiting(p, i) || (p == id.prio() && i == id.idx()));
    }

    /// Note that `id` waits no more.
    pub fn remove_waiter(&mut self, id: TaskId)
        requires
            id.prio() < PRIORITY_LEVELS,
            id.idx() < 32,
        ensures
            struck(old(self), final(self), id),
            old(self).wf() ==> final(self).wf(),
    {
        let prio: usize = id.priority() as usize;
        let index: u32 = id.index() as u32;
        proof {
            bits::lemma_clear(self.waiters[prio as int], index);
        }
        self.waiters[prio] = self.waiters[prio] & !(1u32 << index);
        assert(forall|p: int, i: int|
            #[trigger] self.holds_grant(p, i) == old(self).holds_grant(p, i));
        assert(forall|p: int, i: int| #[trigger]
            self.waiting(p, i) ==> old(self).waiting(p, i));
    }

    /// The words of waiting tasks.
    pub fn debug_waiters(&self) -> (r: [u32; PRIORITY_LEVELS])
        ensures
            r == self.waiters,
    {
        self.waiters
    }
}

/// An attempt to take a token.
pub struct Acquire {
    /// The task under which the attempt is registered.
    pub registered: Option<TaskId>,
}

/// A task that a queue word has a place for.
pub open spec fn has_place(id: TaskId) -> bool {
    id.prio() < PRIORITY_LEVELS && id.idx() < 32
}

impl Acquire {
    /// The registered task has a place.
    pub open spec fn wf(&self) -> bool {
        self.registered matches Some(id) ==> has_place(id)
    }

    /// What one poll does, in the name of `current`.
    pub open spec fn polled<const MAX: u8>(
        pre: &Acquire,
        post: &Acquire,
        pre_s: &Semaphore<MAX>,
        post_s: &Semaphore<MAX>,
        current: Option<TaskId>,
        r: Poll<()>,
    ) -> bool {
        if current is Some && pre_s.holds_grant(current->0.prio(), current->0.idx()) {
            &&& r == Poll::Ready(())
            &&& grant_taken(pre_s, post_s, current->0)
            &&& post.registered is None
        } else if pre_s.count > 0 {
            &&& r == Poll::Ready(())
            &&& token_taken(pre_s, post_s)
            &&& *post == *pre
        } else {
            &&& r is Pending
            &&& listed(pre_s, post_s, current->0)
            &&& post.registered == current
        }
    }

    /// Poll: take the token that was handed to the polling task, or else any
    /// token that there is; otherwise register the task, which must be known.
    pub fn poll<const MAX: u8>(
        &mut self,
        sem: &mut Semaphore<MAX>,
        current: Option<TaskId>,
    ) -> (r: Poll<()>)
        requires
            old(self).wf(),
            old(sem).count == 0 ==> current is Some,
            current matches Some(id) ==> has_place(id),
        ensures
            final(self).wf(),
            Self::polled(old(self), final(self), old(sem), final(sem), current, r),
            old(sem).wf() ==> final(sem).wf(),
    {
        if let Some(id) = current {
            if sem.take_grant(id) {
                self.registered = None;
                proof {
                    assert(forall|p: int, i: int|
                        #[trigger] sem.waiting(p, i) == old(sem).waiting(p, i));
                }
                return Poll::Ready(());
            }
        }
        if sem.try_acquire() {
            proof {
                assert(forall|p: int, i: int|
                    #[trigger] sem.waiting(p, i) == old(sem).waiting(p, i));
                assert(forall|p: int, i: int|
                    #[trigger] sem.holds_grant(p, i) == old(sem).holds_grant(p, i));
            }
            return Poll::Ready(());
        }
        if let Some(id) = current {
            sem.register_waiter(id);
            self.registered = Some(id);
            // A token may have come back before the task was on the list.
            if sem.take_grant(id) || sem.try_acquire() {
                self.registered = None;
                sem.remove_waiter(id);
                return Poll::Ready(());
            }
        }
        Poll::Pending
    }

    /// What giving up does: a registration is withdrawn, and a token that was
    /// handed to the registered task is given back.
    pub open spec fn given_up<const MAX: u8>(
        pre: &Acquire,
        pre_s: &Semaphore<MAX>,
        post_s: &Semaphore<MAX>,
        pre_w: &WakerState,
        post_w: &WakerState,
    ) -> bool {
        match pre.registered {
            None => *post_s == *pre_s && *post_w == *pre_w,
            Some(id) => if pre_s.holds_grant(id.prio(), id.idx()) {
                exists|struck_s: Semaphore<MAX>, mid_s: Semaphore<MAX>| #[trigger]
                    struck(pre_s, &struck_s, id) && #[trigger] grant_taken(&struck_s, &mid_s, id)
                        && Semaphore::<MAX>::released(&mid_s, post_s, pre_w, post_w)
            } else {
                struck(pre_s, post_s, id) && *post_w == *pre_w
            },
        }
    }

    /// Give the attempt up: a registration is withdrawn, and a token that was
    /// handed to the registered task is given back.
    pub fn cancel<const MAX: u8>(&mut self, sem: &mut Semaphore<MAX>, w: &mut WakerState)
        requires
            old(self).wf(),
        ensures
            final(self).registered is None,
            Self::given_up(old(self), old(sem), final(sem), old(w), final(w)),
            old(sem).wf() ==> final(sem).wf(),
    {
        if let Some(id) = self.registered {
            self.registered = None;
            sem.remove_waiter(id);
            let ghost struck_s = *sem;
            assert(struck_s.holds_grant(id.prio(), id.idx()) == old(sem).holds_grant(
                id.prio(),
                id.idx(),
            ));
            if sem.take_grant(id) {
                let ghost mid_s = *sem;
                proof {
                    assert(struck(old(sem), &struck_s, id));
                    assert(grant_taken(&struck_s, &mid_s, id));
                    assert(forall|p: int, i: int|
                        #[trigger] mid_s.waiting(p, i) == struck_s.waiting(p, i));
                }
                sem.release(w);
            }
        }
    }
}

/// No wakeup is lost: with a task waiting, giving a token back makes a waiting
/// task ready and hands it the token. No other waiting task is forgotten.
pub proof fn law_release_wakes_a_waiter<const MAX: u8>(
    pre: Semaphore<MAX>,
    post: Semaphore<MAX>,
    pre_w: WakerState,
    post_w: WakerState,
    p: int,
    i: int,
)
    requires
        Semaphore::<MAX>::released(&pre, &post, &pre_w, &post_w),
        pre.waiting(p, i),
        pre_w.wf(),
    ensures
        post.count == pre.count,
        post_w.wf(),
        !post_w.idle(),
        post.waiting(p, i) || post_w.ready(p, i) && post.holds_grant(p, i),
{
    assert(!pre.unwanted());
    let id = choose|id: TaskId|
        {
            &&& #[trigger] pre.first_waiter(id)
            &&& 0 <= id.prio() < PRIORITY_LEVELS
            &&& id.idx() < 32
            &&& served(&pre, &post, id)
            &&& waker::marked(pre_w, post_w, id)
        };
    waker::law_no_lost_wakeup(pre_w, post_w, id);
}

impl<const MAX: u8> Semaphore<MAX> {
    /// The waiting tasks, each as one number.
    pub open spec fn who(&self) -> Set<int> {
        Set::new(|k: int| 0 <= k < 32 * PRIORITY_LEVELS && self.waiting(k / 32, k % 32))
    }

    /// The waiting tasks are finitely many, and there are none when and only
    /// when no task waits.
    proof fn lemma_who(&self)
        ensures
            self.who().finite(),
            self.unwanted() == (self.who().len() == 0),
            forall|p: int, i: int|
                #[trigger] self.waiting(p, i) ==> self.who().contains(p * 32 + i),
    {
        let all = vstd::set_lib::set_int_range(0, 32 * PRIORITY_LEVELS as int);
        vstd::set_lib::lemma_int_range(0, 32 * PRIORITY_LEVELS as int);
        assert(self.who().subset_of(all));
        vstd::set_lib::lemma_len_subset(self.who(), all);
        assert forall|p: int, i: int| #[trigger] self.waiting(p, i) implies self.who().contains(
            p * 32 + i,
        ) by {
            assert((p * 32 + i) / 32 == p && (p * 32 + i) % 32 == i);
        }
        if self.unwanted() {
            assert(self.who() =~= Set::<int>::empty());
        } else {
            let (p, i) = choose|p: int, i: int| self.waiting(p, i);
            assert(self.who().contains(p * 32 + i));
        }
        if self.who().len() == 0 {
            assert(self.who() =~= Set::<int>::empty());
        }
    }
}

proof fn lemma_who_struck<const MAX: u8>(
    pre: &Semaphore<MAX>,
    post: &Semaphore<MAX>,
    id: TaskId,
)
    requires
        forall|p: int, i: int|
            #[trigger] post.waiting(p, i) == (pre.waiting(p, i) && !(p == id.prio() && i
                == id.idx())),
        0 <= id.prio() < PRIORITY_LEVELS,
        id.idx() < 32,
        pre.waiting(id.prio(), id.idx()),
    ensures
        post.who().len() == pre.who().len() - 1,
{
    pre.lemma_who();
    let k = id.prio() * 32 + id.idx();
    assert(post.who() =~= pre.who().remove(k)) by {
        assert forall|x: int| post.who().contains(x) == pre.who().remove(k).contains(x) by {
            if 0 <= x < 32 * PRIORITY_LEVELS {
                assert(post.waiting(x / 32, x % 32) == (pre.waiting(x / 32, x % 32) && !(x / 32
                    == id.prio() && x % 32 == id.idx())));
                assert(x == (x / 32) * 32 + x % 32);
            }
        }
    }
}

/// As many releases as there are waiting tasks serve them all: over a run of
/// releases each one serves a waiting task, as long as there is one, and every
/// task that waited at first still waits or was made ready with a token of its
/// own.
pub proof fn law_releases_serve_everyone<const MAX: u8>(
    ss: Seq<Semaphore<MAX>>,
    ws: Seq<WakerState>,
    n: nat,
)
    requires
        ss.len() == n + 1,
        ws.len() == n + 1,
        ws[0].wf(),
        forall|j: int|
            0 <= j < n ==> Semaphore::<MAX>::released(
                &ss[j],
                &ss[j + 1],
                #[trigger] &ws[j],
                &ws[j + 1],
            ),
    ensures
        ws.last().wf(),
        ss[0].who().finite(),
        ss.last().who().len() == (if ss[0].who().len() >= n {
            ss[0].who().len() - n
        } else {
            0
        }),
        ss[0].who().len() <= n ==> ss.last().unwanted(),
        forall|p: int, i: int|
            #[trigger] ss[0].waiting(p, i) ==> ss.last().waiting(p, i) || (ws.last().ready(p, i)
                && ss.last().holds_grant(p, i)),
        forall|p: int, i: int|
            #[trigger] ss[0].holds_grant(p, i) ==> ss.last().holds_grant(p, i),
    decreases n,
{
    ss[0].lemma_who();
    ss.last().lemma_who();
    if n > 0 {
        let m = (n - 1) as nat;
        assert forall|j: int| 0 <= j < m implies Semaphore::<MAX>::released(
            &ss.drop_last()[j],
            &ss.drop_last()[j + 1],
            #[trigger] &ws.drop_last()[j],
            &ws.drop_last()[j + 1],
        ) by {
            assert(ws.drop_last()[j] == ws[j]);
        }
        law_releases_serve_everyone(ss.drop_last(), ws.drop_last(), m);
        let pre = ss[m as int];
        let post = ss[n as int];
        let pre_w = ws[m as int];
        let post_w = ws[n as int];
        assert(ss.drop_last().last() == pre);
        assert(ws.drop_last().last() == pre_w);
        assert(Semaphore::<MAX>::released(&pre, &post, &pre_w, &post_w));
        pre.lemma_who();
        post.lemma_who();
        if pre.unwanted() {
            assert forall|p: int, i: int| post.waiting(p, i) == pre.waiting(p, i) by {}
            assert forall|p: int, i: int| #[trigger] pre.holds_grant(p, i) implies post.holds_grant(
                p,
                i,
            ) by {}
        } else {
            let id = choose|id: TaskId|
                {
                    &&& #[trigger] pre.first_waiter(id)
                    &&& 0 <= id.prio() < PRIORITY_LEVELS
                    &&& id.idx() < 32
                    &&& served(&pre, &post, id)
                    &&& waker::marked(pre_w, post_w, id)
                };
            waker::law_no_lost_wakeup(pre_w, post_w, id);
            lemma_who_struck(&pre, &post, id);
        }
    }
}

impl<const MAX: u8> Semaphore<MAX> {
    /// The tasks that were handed a token, each as one number.
    pub open spec fn grants(&self) -> Set<int> {
        Set::new(|k: int| 0 <= k < 32 * PRIORITY_LEVELS && self.holds_grant(k / 32, k % 32))
    }

    /// The tokens that nobody has taken yet: those that anybody can take, and
    /// those that were handed to a task.
    pub open spec fn tokens(&self) -> nat {
        self.count as nat + self.grants().len()
    }

    proof fn lemma_grants_finite(&self)
        ensures
            self.grants().finite(),
    {
        let all = vstd::set_lib::set_int_range(0, 32 * PRIORITY_LEVELS as int);
        vstd::set_lib::lemma_int_range(0, 32 * PRIORITY_LEVELS as int);
        assert(self.grants().subset_of(all));
        vstd::set_lib::lemma_len_subset(self.grants(), all);
    }
}

/// Where `more` holds the grants of `less` and that of `id`.
proof fn lemma_one_grant_more<const MAX: u8>(
    less: &Semaphore<MAX>,
    more: &Semaphore<MAX>,
    id: TaskId,
)
    requires
        has_place(id),
        !less.holds_grant(id.prio(), id.idx()),
        forall|p: int, i: int|
            #[trigger] more.holds_grant(p, i) == (less.holds_grant(p, i) || (p == id.prio() && i
                == id.idx())),
    ensures
        more.grants().len() == less.grants().len() + 1,
{
    less.lemma_grants_finite();
    let k = id.prio() * 32 + id.idx();
    assert(k / 32 == id.prio() && k % 32 == id.idx());
    assert(!less.grants().contains(k));
    assert(more.grants() =~= less.grants().insert(k)) by {
        assert forall|x: int| more.grants().contains(x) == less.grants().insert(k).contains(x) by {
            if 0 <= x < 32 * PRIORITY_LEVELS {
                assert(more.holds_grant(x / 32, x % 32) == (less.holds_grant(x / 32, x % 32) || (x
                    / 32 == id.prio() && x % 32 == id.idx())));
                assert(x == (x / 32) * 32 + x % 32);
            }
        }
    }
}

/// No token is lost and none is made up: giving one back makes one more,
/// unless nobody waits and there are `MAX` already.
pub proof fn law_release_adds_one_token<const MAX: u8>(
    pre: Semaphore<MAX>,
    post: Semaphore<MAX>,
    pre_w: WakerState,
    post_w: WakerState,
)
    requires
        pre.wf(),
        Semaphore::<MAX>::released(&pre, &post, &pre_w, &post_w),
    ensures
        post.tokens() == pre.tokens() + if pre.unwanted() && pre.count >= MAX {
            0nat
        } else {
            1nat
        },
{
    if pre.unwanted() {
        assert(post.grants() =~= pre.grants());
    } else {
        let id = choose|id: TaskId|
            {
                &&& #[trigger] pre.first_waiter(id)
                &&& 0 <= id.prio() < PRIORITY_LEVELS
                &&& id.idx() < 32
                &&& served(&pre, &post, id)
                &&& waker::marked(pre_w, post_w, id)
            };
        lemma_one_grant_more(&pre, &post, id);
    }
}

/// A poll that ends with a token has taken exactly one, and a poll that ends
/// without one has taken none.
pub proof fn law_poll_takes_one_token<const MAX: u8>(
    a: Acquire,
    b: Acquire,
    pre: Semaphore<MAX>,
    post: Semaphore<MAX>,
    current: Option<TaskId>,
    r: Poll<()>,
)
    requires
        current matches Some(id) ==> has_place(id),
        Acquire::polled(&a, &b, &pre, &post, current, r),
    ensures
        pre.tokens() == post.tokens() + if r is Ready {
            1nat
        } else {
            0nat
        },
{
    if current is Some && pre.holds_grant(current->0.prio(), current->0.idx()) {
        lemma_one_grant_more(&post, &pre, current->0);
    } else {
        assert(post.grants() =~= pre.grants());
    }
}

/// Something that happens to a semaphore without the doing of `id`.
pub open spec fn others_act<const MAX: u8>(
    pre: &Semaphore<MAX>,
    post: &Semaphore<MAX>,
    id: TaskId,
) -> bool {
    ||| token_taken(pre, post)
    ||| exists|w0: WakerState, w1: WakerState| #[trigger]
        Semaphore::<MAX>::released(pre, post, &w0, &w1)
    ||| exists|x: TaskId| #[trigger] listed(pre, post, x)
    ||| exists|x: TaskId| #[trigger] struck(pre, post, x)
    ||| exists|a: Acquire, b: Acquire, x: TaskId, r: Poll<()>|
        (x.prio() != id.prio() || x.idx() != id.idx()) && #[trigger] Acquire::polled(
            &a,
            &b,
            pre,
            post,
            Some(x),
            r,
        )
    ||| exists|a: Acquire, w0: WakerState, w1: WakerState|
        !(a.registered matches Some(x) && x.prio() == id.prio() && x.idx() == id.idx())
            && #[trigger] Acquire::given_up(&a, pre, post, &w0, &w1)
}

/// The `j`-th step of a run is made by others than `id`.
pub open spec fn others_step<const MAX: u8>(ss: Seq<Semaphore<MAX>>, j: int, id: TaskId) -> bool {
    others_act(&ss[j], &ss[j + 1], id)
}

/// A token that was handed to a task cannot be taken by anybody else: whatever
/// the others do, the task's next poll ends with it.
pub proof fn law_handed_token_cannot_be_stolen<const MAX: u8>(
    ss: Seq<Semaphore<MAX>>,
    id: TaskId,
    a: Acquire,
    b: Acquire,
    post: Semaphore<MAX>,
    r: Poll<()>,
)
    requires
        ss.len() > 0,
        ss[0].holds_grant(id.prio(), id.idx()),
        forall|j: int| 0 <= j < ss.len() - 1 ==> #[trigger] others_step(ss, j, id),
        Acquire::polled(&a, &b, &ss.last(), &post, Some(id), r),
    ensures
        r == Poll::Ready(()),
{
    lemma_grant_stays(ss, id, ss.len() - 1);
}

proof fn lemma_grant_stays<const MAX: u8>(ss: Seq<Semaphore<MAX>>, id: TaskId, n: int)
    requires
        0 <= n < ss.len(),
        ss[0].holds_grant(id.prio(), id.idx()),
        forall|j: int| 0 <= j < ss.len() - 1 ==> #[trigger] others_step(ss, j, id),
    ensures
        ss[n].holds_grant(id.prio(), id.idx()),
    decreases n,
{
    if n > 0 {
        lemma_grant_stays(ss, id, n - 1);
        assert(others_step(ss, n - 1, id));
        lemma_act_keeps_grant(&ss[n - 1], &ss[n], id);
    }
}

proof fn lemma_act_keeps_grant<const MAX: u8>(
    pre: &Semaphore<MAX>,
    post: &Semaphore<MAX>,
    id: TaskId,
)
    requires
        pre.holds_grant(id.prio(), id.idx()),
        others_act(pre, post, id),
    ensures
        post.holds_grant(id.prio(), id.idx()),
{
    if exists|a: Acquire, w0: WakerState, w1: WakerState|
        !(a.registered matches Some(x) && x.prio() == id.prio() && x.idx() == id.idx())
            && #[trigger] Acquire::given_up(&a, pre, post, &w0, &w1) {
        let (a, w0, w1) = choose|a: Acquire, w0: WakerState, w1: WakerState|
            !(a.registered matches Some(x) && x.prio() == id.prio() && x.idx() == id.idx())
                && #[trigger] Acquire::given_up(&a, pre, post, &w0, &w1);
        if a.registered is Some {
            let x = a.registered->0;
            if pre.holds_grant(x.prio(), x.idx()) {
                let (struck_s, mid_s) = choose|struck_s: Semaphore<MAX>, mid_s: Semaphore<MAX>|
                    #[trigger] struck(pre, &struck_s, x) && #[trigger] grant_taken(
                        &struck_s,
                        &mid_s,
                        x,
                    ) && Semaphore::<MAX>::released(&mid_s, post, &w0, &w1);
                assert(struck_s.holds_grant(id.prio(), id.idx()));
                assert(mid_s.holds_grant(id.prio(), id.idx()));
            }
        }
    }
}

/// How far a poll has come.
pub enum AcquireStage {
    /// Nothing was done yet.
    Fresh,
    /// No token was handed to the task.
    Ungranted,
    /// There was no token to take either.
    Missed,
    /// The task is on the list.
    Placed,
    /// No token was handed to the task since.
    StillUngranted,
    /// There is a token after all; the task is still on the list.
    Caught,
    /// The poll is over with a token.
    Ready,
    /// The poll is over without one.
    Pending,
}

impl AcquireStage {
    /// The poll is over.
    pub open spec fn over(&self) -> bool {
        self is Ready || self is Pending
    }

    /// The task was not on the list yet.
    pub open spec fn early(&self) -> bool {
        self is Fresh || self is Ungranted || self is Missed
    }
}

/// How far a release has come.
pub enum ReleaseStage {
    /// The levels below this one are still to be looked at.
    Scanning(int),
    /// The task was struck off the list.
    Claimed(TaskId),
    /// The token was handed to the task.
    Granted(TaskId),
    /// The task was woken: the release is over.
    Served(TaskId),
    /// No task was waiting, and the token was counted: the release is over.
    Counted,
}

impl ReleaseStage {
    /// The release is over.
    pub open spec fn over(&self) -> bool {
        self is Served || self is Counted
    }

    /// The task that the release has struck off the list.
    pub open spec fn claims(&self) -> Option<TaskId> {
        match *self {
            ReleaseStage::Claimed(id) => Some(id),
            ReleaseStage::Granted(id) => Some(id),
            ReleaseStage::Served(id) => Some(id),
            _ => None,
        }
    }
}

/// A poll and any number of releases, all under way.
pub struct Race<const MAX: u8> {
    /// The semaphore.
    pub sem: Semaphore<MAX>,
    /// The poll.
    pub poll: AcquireStage,
    /// The releases.
    pub releases: Seq<ReleaseStage>,
    /// The tasks that were woken, by priority and index.
    pub woken: Set<(int, int)>,
}

/// The poll, in the name of `id`, makes its next step.
pub open spec fn poll_steps<const MAX: u8>(pre: &Race<MAX>, post: &Race<MAX>, id: TaskId) -> bool {
    &&& post.releases == pre.releases
    &&& post.woken == pre.woken
    &&& match pre.poll {
        AcquireStage::Fresh => {
            &&& grant_taken(&pre.sem, &post.sem, id)
            &&& post.poll == if pre.sem.holds_grant(id.prio(), id.idx()) {
                AcquireStage::Ready
            } else {
                AcquireStage::Ungranted
            }
        },
        AcquireStage::Ungranted => {
            &&& token_taken(&pre.sem, &post.sem)
            &&& post.poll == if pre.sem.count > 0 {
                AcquireStage::Ready
            } else {
                AcquireStage::Missed
            }
        },
        AcquireStage::Missed => listed(&pre.sem, &post.sem, id) && post.poll is Placed,
        AcquireStage::Placed => {
            &&& grant_taken(&pre.sem, &post.sem, id)
            &&& post.poll == if pre.sem.holds_grant(id.prio(), id.idx()) {
                AcquireStage::Caught
            } else {
                AcquireStage::StillUngranted
            }
        },
        AcquireStage::StillUngranted => {
            &&& token_taken(&pre.sem, &post.sem)
            &&& post.poll == if pre.sem.count > 0 {
                AcquireStage::Caught
            } else {
                AcquireStage::Pending
            }
        },
        AcquireStage::Caught => struck(&pre.sem, &post.sem, id) && post.poll is Ready,
        AcquireStage::Ready | AcquireStage::Pending => false,
    }
}

/// Release `j` makes its next step.
pub open spec fn release_steps<const MAX: u8>(pre: &Race<MAX>, post: &Race<MAX>, j: int) -> bool {
    &&& 0 <= j < pre.releases.len()
    &&& post.poll == pre.poll
    &&& post.releases == pre.releases.update(j, post.releases[j])
    &&& post.woken == (match pre.releases[j] {
        ReleaseStage::Granted(id) => pre.woken.insert((id.prio(), id.idx())),
        _ => pre.woken,
    })
    &&& match pre.releases[j] {
        ReleaseStage::Scanning(k) => if k <= 0 {
            &&& counted(&pre.sem, &post.sem)
            &&& post.releases[j] is Counted
        } else if pre.sem.none_at(k - 1) {
            &&& post.sem == pre.sem
            &&& post.releases[j] == ReleaseStage::Scanning(k - 1)
        } else {
            &&& post.releases[j] matches ReleaseStage::Claimed(id) && first_at(
                &pre.sem,
                k - 1,
                id,
            ) && struck(&pre.sem, &post.sem, id)
        },
        ReleaseStage::Claimed(id) => {
            &&& granted_to(&pre.sem, &post.sem, id)
            &&& post.releases[j] == ReleaseStage::Granted(id)
        },
        ReleaseStage::Granted(id) => {
            &&& post.sem == pre.sem
            &&& post.releases[j] == ReleaseStage::Served(id)
        },
        ReleaseStage::Served(_) | ReleaseStage::Counted => false,
    }
}

/// What holds at every moment of a race between one poll and one release.
spec fn race_sound<const MAX: u8>(r: &Race<MAX>, id: TaskId) -> bool {
    let release = r.releases[0];
    &&& r.releases.len() == 1
    &&& release matches ReleaseStage::Served(x) ==> r.woken.contains((x.prio(), x.idx()))
    &&& r.poll.early() ==> {
        &&& r.sem.unwanted()
        &&& release.claims() is None
        &&& release is Counted ==> r.sem.count > 0
    }
    &&& r.poll is Placed || r.poll is StillUngranted || r.poll is Pending ==> {
        &&& forall|p: int, i: int| #[trigger]
            r.sem.waiting(p, i) ==> p == id.prio() && i == id.idx()
        &&& release.claims() matches Some(x) ==> x.prio() == id.prio() && x.idx() == id.idx()
        &&& release is Granted || release is Served ==> r.sem.holds_grant(id.prio(), id.idx())
        &&& release is Counted ==> r.sem.count > 0
    }
}

/// Looking for a token again after registering is enough: however the steps of
/// a poll and of a release come to lie, a poll that ends without a token has
/// its task woken with the token handed to it, or the token can still be taken.
pub proof fn law_no_interleaving_loses_the_token<const MAX: u8>(rs: Seq<Race<MAX>>, id: TaskId)
    requires
        MAX >= 1,
        rs.len() > 0,
        rs[0].poll is Fresh,
        rs[0].releases == seq![ReleaseStage::Scanning(PRIORITY_LEVELS as int)],
        rs[0].sem.unwanted(),
        forall|j: int|
            0 <= j < rs.len() - 1 ==> poll_steps(#[trigger] &rs[j], &rs[j + 1], id)
                || release_steps(&rs[j], &rs[j + 1], 0),
        rs.last().poll.over(),
        rs.last().releases[0].over(),
    ensures
        rs.last().poll is Pending ==> (rs.last().woken.contains((id.prio(), id.idx()))
            && rs.last().sem.holds_grant(id.prio(), id.idx())) || rs.last().sem.count > 0,
{
    lemma_race_sound(rs, id, (rs.len() - 1) as nat);
}

proof fn lemma_race_sound<const MAX: u8>(rs: Seq<Race<MAX>>, id: TaskId, n: nat)
    requires
        MAX >= 1,
        n < rs.len(),
        rs[0].poll is Fresh,
        rs[0].releases == seq![ReleaseStage::Scanning(PRIORITY_LEVELS as int)],
        rs[0].sem.unwanted(),
        forall|j: int|
            0 <= j < rs.len() - 1 ==> poll_steps(#[trigger] &rs[j], &rs[j + 1], id)
                || release_steps(&rs[j], &rs[j + 1], 0),
    ensures
        race_sound(&rs[n as int], id),
    decreases n,
{
    if n > 0 {
        lemma_race_sound(rs, id, (n - 1) as nat);
        let pre = rs[n - 1];
        let post = rs[n as int];
        assert(poll_steps(&rs[n - 1], &rs[n - 1 + 1], id) || release_steps(
            &rs[n - 1],
            &rs[n - 1 + 1],
            0,
        ));
        if poll_steps(&pre, &post, id) {
            if !(pre.poll is Missed) && !(pre.poll is Caught) {
                assert(forall|p: int, i: int|
                    #[trigger] post.sem.waiting(p, i) == pre.sem.waiting(p, i));
            }
            if pre.poll is StillUngranted {
                assert(forall|p: int, i: int|
                    #[trigger] post.sem.holds_grant(p, i) == pre.sem.holds_grant(p, i));
            }
        } else {
            match pre.releases[0] {
                ReleaseStage::Scanning(k) if k > 0 && !pre.sem.none_at(k - 1) => {},
                _ => {
                    assert(forall|p: int, i: int|
                        #[trigger] post.sem.waiting(p, i) == pre.sem.waiting(p, i));
                },
            }
        }
    }
}

impl ReleaseStage {
    /// The release has struck task `i` of level `p` off the list.
    pub open spec fn took(&self, p: int, i: int) -> bool {
        self.claims() matches Some(id) && id.prio() == p && id.idx() == i
    }
}

/// How many of the first `n` releases have struck a task off the list.
spec fn claimants(releases: Seq<ReleaseStage>, n: nat) -> nat
    decreases n,
{
    if n == 0 {
        0
    } else {
        claimants(releases, (n - 1) as nat) + if releases[n - 1].claims() is Some {
            1nat
        } else {
            0nat
        }
    }
}

proof fn lemma_claimants_updated(releases: Seq<ReleaseStage>, j: int, s: ReleaseStage, n: nat)
    requires
        0 <= j < releases.len(),
        n <= releases.len(),
    ensures
        claimants(releases.update(j, s), n) == claimants(releases, n) + (if j < n {
            (if s.claims() is Some {
                1int
            } else {
                0
            }) - (if releases[j].claims() is Some {
                1int
            } else {
                0
            })
        } else {
            0
        }),
    decreases n,
{
    if n > 0 {
        lemma_claimants_updated(releases, j, s, (n - 1) as nat);
    }
}

proof fn lemma_all_or_none_claim(releases: Seq<ReleaseStage>, n: nat)
    requires
        n <= releases.len(),
    ensures
        (forall|j: int| 0 <= j < n ==> (#[trigger] releases[j]).claims() is Some) ==> claimants(
            releases,
            n,
        ) == n,
        (forall|j: int| 0 <= j < n ==> (#[trigger] releases[j]).claims() is None) ==> claimants(
            releases,
            n,
        ) == 0,
    decreases n,
{
    if n > 0 {
        lemma_all_or_none_claim(releases, (n - 1) as nat);
    }
}

/// What holds at every moment while releases serve the tasks that waited at
/// `first`.
spec fn serving<const MAX: u8>(first: &Semaphore<MAX>, r: &Race<MAX>) -> bool {
    &&& forall|p: int, i: int| #[trigger] r.sem.waiting(p, i) ==> first.waiting(p, i)
    &&& forall|p: int, i: int| #[trigger]
        first.waiting(p, i) ==> r.sem.waiting(p, i) || exists|j: int|
            0 <= j < r.releases.len() && (#[trigger] r.releases[j]).took(p, i)
    &&& forall|j: int|
        0 <= j < r.releases.len() ==> match #[trigger] r.releases[j] {
            ReleaseStage::Granted(x) => r.sem.holds_grant(x.prio(), x.idx()),
            ReleaseStage::Served(x) => r.woken.contains((x.prio(), x.idx())) && r.sem.holds_grant(
                x.prio(),
                x.idx(),
            ),
            ReleaseStage::Scanning(k) => forall|p: int, i: int|
                p >= k ==> !#[trigger] r.sem.waiting(p, i),
            ReleaseStage::Counted => r.sem.unwanted(),
            _ => true,
        }
    &&& r.sem.who().len() + claimants(r.releases, r.releases.len()) == first.who().len()
}

proof fn lemma_serving_step<const MAX: u8>(
    first: &Semaphore<MAX>,
    pre: &Race<MAX>,
    post: &Race<MAX>,
    j: int,
)
    requires
        serving(first, pre),
        release_steps(pre, post, j),
    ensures
        serving(first, post),
{
    let n = pre.releases.len();
    lemma_claimants_updated(pre.releases, j, post.releases[j], n);
    assert forall|x: int| 0 <= x < n && x != j implies #[trigger] post.releases[x]
        == pre.releases[x] by {}
    match pre.releases[j] {
        ReleaseStage::Scanning(k) if k > 0 && !pre.sem.none_at(k - 1) => {
            let id = post.releases[j]->Claimed_0;
            lemma_who_struck(&pre.sem, &post.sem, id);
            assert(forall|p: int, i: int|
                #[trigger] pre.sem.holds_grant(p, i) ==> post.sem.holds_grant(p, i));
            assert forall|p: int, i: int| #[trigger] first.waiting(p, i) implies post.sem.waiting(
                p,
                i,
            ) || exists|x: int|
                0 <= x < post.releases.len() && (#[trigger] post.releases[x]).took(p, i) by {
                if !post.sem.waiting(p, i) {
                    if pre.sem.waiting(p, i) {
                        assert(post.releases[j].took(p, i));
                    } else {
                        let x = choose|x: int|
                            0 <= x < n && (#[trigger] pre.releases[x]).took(p, i);
                        assert(post.releases[x].took(p, i));
                    }
                }
            }
        },
        _ => {
            assert(forall|p: int, i: int|
                #[trigger] post.sem.waiting(p, i) == pre.sem.waiting(p, i));
            assert(post.sem.who() =~= pre.sem.who());
            assert(forall|p: int, i: int|
                #[trigger] pre.sem.holds_grant(p, i) ==> post.sem.holds_grant(p, i));
            assert forall|p: int, i: int| #[trigger] first.waiting(p, i) implies post.sem.waiting(
                p,
                i,
            ) || exists|x: int|
                0 <= x < post.releases.len() && (#[trigger] post.releases[x]).took(p, i) by {
                if !pre.sem.waiting(p, i) {
                    let x = choose|x: int| 0 <= x < n && (#[trigger] pre.releases[x]).took(p, i);
                    assert(post.releases[x].took(p, i));
                }
            }
        },
    }
}

proof fn lemma_serving<const MAX: u8>(rs: Seq<Race<MAX>>, by: Seq<int>, n: nat)
    requires
        n < rs.len(),
        by.len() == rs.len() - 1,
        forall|j: int|
            0 <= j < rs[0].releases.len() ==> #[trigger] rs[0].releases[j]
                == ReleaseStage::Scanning(PRIORITY_LEVELS as int),
        forall|m: int|
            0 <= m < by.len() ==> release_steps(&rs[m], &rs[m + 1], #[trigger] by[m]),
    ensures
        serving(&rs[0].sem, &rs[n as int]),
        rs[n as int].releases.len() == rs[0].releases.len(),
    decreases n,
{
    if n == 0 {
        lemma_all_or_none_claim(rs[0].releases, rs[0].releases.len());
    } else {
        lemma_serving(rs, by, (n - 1) as nat);
        assert(release_steps(&rs[n - 1], &rs[n - 1 + 1], by[n - 1]));
        lemma_serving_step(&rs[0].sem, &rs[n - 1], &rs[n as int], by[n - 1]);
    }
}

/// Releases that run at the same time do not get in each other's way: however
/// their steps come to lie, if there are at least as many of them as waiting
/// tasks, every waiting task is woken with a token of its own. Step `m` is made by release `by[m]`.
pub proof fn law_concurrent_releases_serve_everyone<const MAX: u8>(
    rs: Seq<Race<MAX>>,
    by: Seq<int>,
    p: int,
    i: int,
)
    requires
        rs.len() > 0,
        by.len() == rs.len() - 1,
        forall|j: int|
            0 <= j < rs[0].releases.len() ==> #[trigger] rs[0].releases[j]
                == ReleaseStage::Scanning(PRIORITY_LEVELS as int),
        forall|m: int|
            0 <= m < by.len() ==> release_steps(&rs[m], &rs[m + 1], #[trigger] by[m]),
        forall|j: int|
            0 <= j < rs.last().releases.len() ==> (#[trigger] rs.last().releases[j]).over(),
        rs[0].sem.who().len() <= rs[0].releases.len(),
        rs[0].sem.waiting(p, i),
    ensures
        rs.last().woken.contains((p, i)),
        rs.last().sem.holds_grant(p, i),
{
    let last = rs.last();
    lemma_serving(rs, by, (rs.len() - 1) as nat);
    last.sem.lemma_who();
    if exists|j: int| 0 <= j < last.releases.len() && last.releases[j] is Counted {
        let j = choose|j: int| 0 <= j < last.releases.len() && last.releases[j] is Counted;
        assert(last.sem.unwanted());
    } else {
        assert forall|j: int| 0 <= j < last.releases.len() implies (
        #[trigger] last.releases[j]).claims() is Some by {
            assert(last.releases[j].over());
        }
        lemma_all_or_none_claim(last.releases, last.releases.len());
    }
    assert(!last.sem.waiting(p, i));
    let j = choose|j: int|
        0 <= j < last.releases.len() && (#[trigger] last.releases[j]).took(p, i);
    assert(last.releases[j].over());
}

/// A semaphore has the tokens that it was made with: one can be taken while
/// there is one left, each taking leaves one less, and nothing is taken once
/// there is none.
pub proof fn law_tokens_are_counted<const MAX: u8>(
    initial: u8,
    made: Semaphore<MAX>,
    t: &mut Semaphore<MAX>,
    took: bool,
)
    requires
        call_ensures(Semaphore::<MAX>::new, (initial,), made),
        call_ensures(Semaphore::<MAX>::try_acquire, (t,), took),
    ensures
        made.count == initial,
        took == (old(t).count != 0),
        took ==> final(t).count + 1 == old(t).count,
        !took ==> final(t).count == 0,
        final(t).waiters == old(t).waiters,
        final(t).granted == old(t).granted,
{
}

/// A token that is given back while nobody waits can be taken again, up to the
/// highest count; beyond that it is gone.
pub proof fn law_released_token_can_be_taken<const MAX: u8>(
    s: &mut Semaphore<MAX>,
    t: &mut Semaphore<MAX>,
    w: &mut WakerState,
    took: bool,
)
    requires
        forall|p: int, i: int| !#[trigger] old(s).waiting(p, i),
        MAX > 0,
        call_ensures(Semaphore::<MAX>::release, (s, w), ()),
        *old(t) == *final(s),
        call_ensures(Semaphore::<MAX>::try_acquire, (t,), took),
    ensures
        *final(w) == *old(w),
        old(s).count < MAX ==> final(s).count == old(s).count + 1,
        old(s).count >= MAX ==> final(s).count == old(s).count,
        took,
        old(s).count < MAX ==> final(t).count == old(s).count,
{
    assert(old(s).unwanted());
}

/// Without a token an attempt is pending. The next token goes to the waiting
/// task of the highest priority, which is made ready: only its poll is ready,
/// and the count does not change.
#[verifier::spinoff_prover]
#[verifier::rlimit(60)]
pub proof fn law_token_goes_to_the_first_waiter<const MAX: u8>(
    a0: &mut Acquire,
    a1: &mut Acquire,
    s0: &mut Semaphore<MAX>,
    s1: &mut Semaphore<MAX>,
    s2: &mut Semaphore<MAX>,
    s3: &mut Semaphore<MAX>,
    w: &mut WakerState,
    id: TaskId,
    r0: Poll<()>,
    stolen: bool,
    r1: Poll<()>,
)
    requires
        has_place(id),
        0 <= id.prio(),
        old(s0).wf(),
        old(s0).count == 0,
        !old(s0).holds_grant(id.prio(), id.idx()),
        forall|p: int, i: int|
            #[trigger] old(s0).waiting(p, i) ==> p < id.prio() || (p == id.prio() && id.idx() <= i),
        call_ensures(Acquire::poll::<MAX>, (a0, s0, Some(id)), r0),
        *old(s1) == *final(s0),
        call_ensures(Semaphore::<MAX>::release, (s1, w), ()),
        *old(s2) == *final(s1),
        call_ensures(Semaphore::<MAX>::try_acquire, (s2,), stolen),
        *old(a1) == *final(a0),
        *old(s3) == *final(s2),
        call_ensures(Acquire::poll::<MAX>, (a1, s3, Some(id)), r1),
    ensures
        r0 is Pending,
        final(w).ready(id.prio(), id.idx()),
        forall|p: int, i: int|
            !(p == id.prio() && i == id.idx()) ==> #[trigger] final(w).ready(p, i) == old(w).ready(
                p,
                i,
            ),
        !stolen,
        r1 == Poll::Ready(()),
        final(s3).count == 0,
        !final(s3).waiting(id.prio(), id.idx()),
        !final(s3).holds_grant(id.prio(), id.idx()),
        forall|p: int, i: int|
            #[trigger] old(s0).waiting(p, i) && !(p == id.prio() && i == id.idx())
                ==> final(s3).waiting(p, i),
{
    assert(final(s0).waiting(id.prio(), id.idx()));
    assert(!old(s1).unwanted());
    let got = choose|t: TaskId|
        {
            &&& #[trigger] old(s1).first_waiter(t)
            &&& 0 <= t.prio() < PRIORITY_LEVELS
            &&& t.idx() < 32
            &&& served(old(s1), final(s1), t)
            &&& waker::marked(*old(w), *final(w), t)
        };
    assert(old(s1).waiting(got.prio(), got.idx()));
    assert(final(s0).waiting(got.prio(), got.idx()));
    assert(old(s1).waiting(id.prio(), id.idx()));
    assert(got.prio() == id.prio() && got.idx() == id.idx());
    assert(old(s3).waiters == final(s1).waiters);
    assert(old(s3).granted == final(s1).granted);
    assert(final(s1).holds_grant(id.prio(), id.idx()));
    assert(old(s3).holds_grant(id.prio(), id.idx()));
    assert(!final(s1).waiting(id.prio(), id.idx()));
    assert forall|p: int, i: int|
        #[trigger] old(s0).waiting(p, i) && !(p == id.prio() && i == id.idx())
            implies final(s3).waiting(p, i) by {
        assert(final(s0).waiting(p, i));
        assert(old(s1).waiting(p, i));
        assert(final(s1).waiting(p, i));
    }
}

/// An attempt that is given up while it waits leaves the semaphore as if it
/// had not been made; one that was handed a token gives it back, and with
/// nobody else waiting the token can be taken.
#[verifier::spinoff_prover]
#[verifier::rlimit(60)]
pub proof fn law_cancelled_attempt_leaves_nothing<const MAX: u8>(
    a: &mut Acquire,
    s: &mut Semaphore<MAX>,
    w: &mut WakerState,
    id: TaskId,
)
    requires
        has_place(id),
        0 <= id.prio(),
        old(a).registered == Some(id),
        call_ensures(Acquire::cancel::<MAX>, (a, s, w), ()),
    ensures
        final(a).registered is None,
        !old(s).holds_grant(id.prio(), id.idx()) ==> {
            &&& final(s).count == old(s).count
            &&& *final(w) == *old(w)
            &&& final(s).granted == old(s).granted
            &&& !final(s).waiting(id.prio(), id.idx())
            &&& forall|p: int, i: int|
                !(p == id.prio() && i == id.idx()) ==> #[trigger] final(s).waiting(p, i) == old(
                    s,
                ).waiting(p, i)
        },
        old(s).holds_grant(id.prio(), id.idx()) && old(s).count < MAX && (forall|p: int, i: int|
            #[trigger] old(s).waiting(p, i) ==> p == id.prio() && i == id.idx()) ==> {
            &&& final(s).count == old(s).count + 1
            &&& *final(w) == *old(w)
            &&& !final(s).holds_grant(id.prio(), id.idx())
        },
{
    if old(s).holds_grant(id.prio(), id.idx()) && old(s).count < MAX && (forall|p: int, i: int|
        #[trigger] old(s).waiting(p, i) ==> p == id.prio() && i == id.idx()) {
        let (struck_s, mid_s) = choose|struck_s: Semaphore<MAX>, mid_s: Semaphore<MAX>| #[trigger]
            struck(old(s), &struck_s, id) && #[trigger] grant_taken(&struck_s, &mid_s, id)
                && Semaphore::<MAX>::released(&mid_s, final(s), old(w), final(w));
        assert forall|p: int, i: int| !mid_s.waiting(p, i) by {
            assert(mid_s.waiting(p, i) == struck_s.waiting(p, i));
        }
        assert(mid_s.unwanted());
        assert(!mid_s.holds_grant(id.prio(), id.idx()));
        assert(final(s).holds_grant(id.prio(), id.idx()) == mid_s.holds_grant(
            id.prio(),
            id.idx(),
        ));
    }
}

/// A task is on the list of waiting tasks once it was put there, and not once
/// it was struck off; nobody else's place changes, nor does the count.
pub proof fn law_list_holds_who_waits<const MAX: u8>(
    a: &mut Semaphore<MAX>,
    b: &mut Semaphore<MAX>,
    id: TaskId,
    p: int,
    i: int,
)
    requires
        has_place(id),
        0 <= id.prio(),
        call_ensures(Semaphore::<MAX>::register_waiter, (a, id), ()),
        *old(b) == *final(a),
        call_ensures(Semaphore::<MAX>::remove_waiter, (b, id), ()),
    ensures
        final(a).waiting(id.prio(), id.idx()),
        !final(b).waiting(id.prio(), id.idx()),
        !(p == id.prio() && i == id.idx()) ==> final(a).waiting(p, i) == old(a).waiting(p, i)
            && final(b).waiting(p, i) == old(a).waiting(p, i),
        final(b).count == old(a).count,
        final(b).granted == old(a).granted,
{
}

/// An attempt begins unregistered, and with a token there it is ready at once
/// without being listed.
pub proof fn law_token_is_taken_at_once<const MAX: u8>(
    s0: &Semaphore<MAX>,
    begun: Acquire,
    a: &mut Acquire,
    s: &mut Semaphore<MAX>,
    id: TaskId,
    r: Poll<()>,
)
    requires
        call_ensures(Semaphore::<MAX>::acquire, (s0,), begun),
        *old(a) == begun,
        old(s).count > 0,
        has_place(id),
        0 <= id.prio(),
        !old(s).holds_grant(id.prio(), id.idx()),
        call_ensures(Acquire::poll::<MAX>, (a, s, Some(id)), r),
    ensures
        r == Poll::Ready(()),
        final(s).count + 1 == old(s).count,
        final(s).waiters == old(s).waiters,
        final(a).registered is None,
{
}

} // verus!
