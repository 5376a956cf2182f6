//! Stacks of the preemptive tasks, carved from one contiguous pool.
//!
//! A stack is aligned to its size, which is a power of two, and has a guard
//! band below it. Released stacks are handed out again, the last one first.
use vstd::arithmetic::power2::pow2;
use vstd::prelude::*;

verus! {

/// Released stacks that can be remembered.
pub const FREE_LIST_CAP: usize = 16;

/// A stack that was released: its offset into the pool and its size.
#[derive(Clone, Copy, PartialEq, Eq, Structural, Debug)]
pub struct FreeStack {
    /// Offset of the lowest byte.
    pub offset: usize,
    /// Bytes.
    pub size: usize,
}

/// Released stacks, the last one on top.
pub struct FreeList {
    /// Stacks in the list.
    pub count: usize,
    /// The stacks.
    pub entries: [FreeStack; FREE_LIST_CAP],
}

impl FreeList {
    /// The list does not overflow.
    pub open spec fn wf(&self) -> bool {
        self.count <= FREE_LIST_CAP
    }

    /// The released stacks, the last one last.
    pub open spec fn stacks(&self) -> Seq<FreeStack> {
        self.entries@.take(self.count as int)
    }

    /// No stack.
    pub fn new() -> (r: Self)
        ensures
            r.wf(),
            r.stacks() == Seq::<FreeStack>::empty(),
    {
        let r = FreeList {
            count: 0,
            entries: [FreeStack { offset: 0, size: 0 }; FREE_LIST_CAP],
        };
        assert(r.stacks() =~= Seq::<FreeStack>::empty());
        r
    }

    /// Put a stack on top; a full list forgets it.
    pub fn push(&mut self, offset: usize, size: usize)
        requires
            old(self).wf(),
        ensures
            final(self).wf(),
            final(self).stacks() == (if old(self).count < FREE_LIST_CAP {
                old(self).stacks().push(FreeStack { offset, size })
            } else {
                old(self).stacks()
            }),
    {
        let n: usize = self.count;
        if n < FREE_LIST_CAP {
            self.entries[n] = FreeStack { offset, size };
            self.count = n + 1;
            assert(self.stacks() =~= old(self).stacks().push(FreeStack { offset, size }));
        }
    }

    /// Take the stack on top.
    pub fn pop(&mut self) -> (r: Option<FreeStack>)
        requires
            old(self).wf(),
        ensures
            final(self).wf(),
            match r {
                None => old(self).stacks().len() == 0 && *final(self) == *old(self),
                Some(s) => {
                    &&& old(self).stacks().len() > 0
                    &&& s == old(self).stacks().last()
                    &&& final(self).stacks() == old(self).stacks().drop_last()
                },
            },
    {
        if self.count == 0 {
            return None;
        }
        let i: usize = self.count - 1;
        let s = self.entries[i];
        self.count = i;
        assert(self.stacks() =~= old(self).stacks().drop_last());
        Some(s)
    }
}

/// The pool.
pub struct StackPool {
    /// Lowest address.
    pub base: usize,
    /// Bytes.
    pub len: usize,
    /// Offset up to which stacks have been carved.
    pub next: usize,
    /// Stacks carved so far.
    pub count: usize,
    /// Released stacks.
    pub free: FreeList,
}

/// The guard band below a stack.
#[derive(Clone, Copy, PartialEq, Eq, Structural, Debug)]
pub struct GuardBand {
    /// Lowest address.
    pub base: usize,
    /// The number under which it is to be registered.
    pub entry: usize,
}

/// A stack that was handed out.
#[derive(Clone, Copy, PartialEq, Eq, Structural, Debug)]
pub struct StackAlloc {
    /// Lowest address.
    pub base: usize,
    /// Bytes.
    pub size: usize,
    /// The guard band of a stack that was carved now. A stack that was handed
    /// out before is guarded already.
    pub guard: Option<GuardBand>,
}

impl StackPool {
    /// The pool lies in the address space, no more was carved than there is,
    /// and what was released lies in the pool.
    pub open spec fn wf(&self) -> bool {
        &&& self.base + self.len <= usize::MAX
        &&& self.next <= self.len
        &&& self.count <= self.next
        &&& self.free.wf()
        &&& forall|i: int|
            0 <= i < self.free.stacks().len() ==> (#[trigger] self.free.stacks()[i]).offset
                + self.free.stacks()[i].size <= self.len
    }

    /// The `size` bytes at `stack` lie in the pool.
    pub open spec fn holds(&self, stack: usize, size: usize) -> bool {
        self.base <= stack && stack + size <= self.base + self.len
    }

    /// A pool of `len` bytes at `base`, all of it free.
    pub fn new(base: usize, len: usize) -> (r: Self)
        requires
            base + len <= usize::MAX,
        ensures
            r.wf(),
            r.base == base,
            r.len == len,
            r.next == 0,
            r.count == 0,
            r.free.stacks() == Seq::<FreeStack>::empty(),
    {
        StackPool { base, len, next: 0, count: 0, free: FreeList::new() }
    }
}

/// `r` is the least multiple of `size` that is not below `x`.
pub open spec fn aligned_up(x: int, size: int, r: int) -> bool {
    &&& r % size == 0
    &&& x <= r < x + size
}

/// `n` is a power of two.
pub open spec fn is_pow2(n: int) -> bool {
    exists|k: nat| #[trigger] pow2(k) == n
}

/// What allocating `size` bytes with a guard band of `guard` bytes does.
pub open spec fn allocated(
    pre: &StackPool,
    post: &StackPool,
    size: usize,
    guard: usize,
    r: Option<StackAlloc>,
) -> bool {
    &&& post.base == pre.base
    &&& post.len == pre.len
    &&& if pre.free.stacks().len() > 0 && pre.free.stacks().last().size == size {
        // The stack that was released last has the right size.
        &&& r == Some(
            StackAlloc {
                base: (pre.base + pre.free.stacks().last().offset) as usize,
                size,
                guard: None,
            },
        )
        &&& post.free.stacks() == pre.free.stacks().drop_last()
        &&& post.next == pre.next
        &&& post.count == pre.count
    } else {
        &&& post.free.stacks() == pre.free.stacks()
        &&& exists|at: int|
            {
                &&& #[trigger] aligned_up(pre.base + pre.next + guard, size as int, at)
                &&& if at - pre.base + size > pre.len {
                    &&& r is None
                    &&& post.next == pre.next
                    &&& post.count == pre.count
                } else {
                    &&& r == Some(
                        StackAlloc {
                            base: at as usize,
                            size,
                            guard: Some(GuardBand { base: (at - guard) as usize, entry: pre.count }),
                        },
                    )
                    &&& post.next == at - pre.base + size
                    &&& post.count == pre.count + 1
                }
            }
    }
}

/// Hand out a stack of `size` bytes: the one that was released last if it has
/// that size, or else a new one above a guard band of `guard` bytes. None if
/// the pool is used up.
pub fn alloc_stack(pool: &mut StackPool, size: usize, guard: usize) -> (r: Option<StackAlloc>)
    requires
        old(pool).wf(),
        is_pow2(size as int),
        guard <= size,
    ensures
        final(pool).wf(),
        allocated(old(pool), final(pool), size, guard, r),
{
    let ghost pre = *pool;
    proof {
        let k = choose|k: nat| #[trigger] pow2(k) == size as int;
        vstd::arithmetic::power2::lemma_pow2_pos(k);
    }
    let top = pool.free.pop();
    match top {
        Some(s) => {
            if s.size == size {
                assert(pre.free.stacks()[pre.free.stacks().len() - 1] == s);
                assert forall|i: int| 0 <= i < pool.free.stacks().len() implies (
                #[trigger] pool.free.stacks()[i]).offset + pool.free.stacks()[i].size
                    <= pool.len by {
                    assert(pool.free.stacks()[i] == pre.free.stacks()[i]);
                }
                return Some(StackAlloc { base: pool.base + s.offset, size, guard: None });
            }
            // It has another size: put it back.
            pool.free.push(s.offset, s.size);
            assert(pool.free.stacks() =~= pre.free.stacks());
        },
        None => {},
    }
    let ghost x0 = pool.base + pool.next + guard;
    proof {
        lemma_align(x0, size as int);
        let at = if x0 % size as int == 0 {
            x0
        } else {
            x0 + (size - x0 % size as int)
        };
        assert(aligned_up(x0, size as int, at));
    }
    let left: usize = pool.len - pool.next;
    if guard > left {
        return None;
    }
    let room: usize = left - guard;
    let x: usize = pool.base + pool.next + guard;
    let m: usize = x % size;
    let pad: usize = if m == 0 {
        0
    } else {
        size - m
    };
    if pad > room || size > room - pad {
        return None;
    }
    let at: usize = x + pad;
    let entry: usize = pool.count;
    pool.next = at - pool.base + size;
    pool.count = entry + 1;
    Some(StackAlloc { base: at, size, guard: Some(GuardBand { base: at - guard, entry }) })
}

/// Rounding up by the remainder reaches a multiple.
proof fn lemma_align(x: int, size: int)
    requires
        size > 0,
        x >= 0,
    ensures
        x % size == 0 ==> aligned_up(x, size, x),
        x % size != 0 ==> aligned_up(x, size, x + (size - x % size)),
        0 <= x % size < size,
{
    let m = x % size;
    vstd::arithmetic::div_mod::lemma_fundamental_div_mod(x, size);
    vstd::arithmetic::div_mod::lemma_mod_bound(x, size);
    let q = x / size;
    assert(x + (size - m) == (q + 1) * size) by (nonlinear_arith)
        requires
            x == size * q + m,
    ;
    vstd::arithmetic::div_mod::lemma_mod_multiples_basic(q + 1, size);
}

/// The `size` bytes at `stack` were given back: `r` says whether they came from
/// the pool. A full list forgets them, and what lies elsewhere is left alone.
pub open spec fn released(
    pre: &StackPool,
    post: &StackPool,
    stack: usize,
    size: usize,
    r: bool,
) -> bool {
    &&& *post == (StackPool { free: post.free, ..*pre })
    &&& r == pre.holds(stack, size)
    &&& post.free.stacks() == (if r && pre.free.count < FREE_LIST_CAP {
        pre.free.stacks().push(FreeStack { offset: (stack - pre.base) as usize, size })
    } else {
        pre.free.stacks()
    })
}

/// Take back the stack of `size` bytes at `stack`. Returns whether it came
/// from the pool; its bytes are then to be filled with the watermark pattern
/// again. Nothing happens to a stack that did not.
pub fn release_stack(pool: &mut StackPool, stack: usize, size: usize) -> (r: bool)
    requires
        old(pool).wf(),
    ensures
        final(pool).wf(),
        released(old(pool), final(pool), stack, size, r),
{
    if stack < pool.base || stack - pool.base > pool.len || size > pool.len - (stack
        - pool.base) {
        return false;
    }
    let ghost pre = *pool;
    pool.free.push(stack - pool.base, size);
    assert forall|i: int| 0 <= i < pool.free.stacks().len() implies (
    #[trigger] pool.free.stacks()[i]).offset + pool.free.stacks()[i].size <= pool.len by {
        if i < pre.free.stacks().len() {
            assert(pool.free.stacks()[i] == pre.free.stacks()[i]);
        }
    }
    true
}

/// Lowest address and length of the pool.
pub fn pool_bounds(pool: &StackPool) -> (r: (usize, usize))
    ensures
        r == (pool.base, pool.len),
{
    (pool.base, pool.len)
}

/// Whether an address lies in the pool.
pub fn contains(pool: &StackPool, addr: usize) -> (r: bool)
    requires
        pool.wf(),
    ensures
        r == (pool.base <= addr < pool.base + pool.len),
{
    addr >= pool.base && addr < pool.base + pool.len
}

/// A stack that is carved lies in the pool with its guard band, is aligned to
/// its size, and shares no byte with anything carved before or after it: it
/// begins, guard band included, where the carved part ended, and the carved
/// part ends with it.
pub proof fn law_carved_stack_is_fresh(
    pre: StackPool,
    post: StackPool,
    size: usize,
    guard: usize,
    a: StackAlloc,
)
    requires
        pre.wf(),
        post.wf(),
        size > 0,
        guard <= size,
        allocated(&pre, &post, size, guard, Some(a)),
        a.guard is Some,
    ensures
        a.base as int % size as int == 0,
        a.guard->0.base + guard == a.base,
        pre.base + pre.next <= a.guard->0.base,
        a.base + size == post.base + post.next,
        post.next <= post.len,
{
}

/// A stack that was released is the next one of its size that is handed out,
/// at the address that it had.
pub proof fn law_released_stack_returns(
    pre: StackPool,
    mid: StackPool,
    post: StackPool,
    stack: usize,
    size: usize,
    guard: usize,
    r: Option<StackAlloc>,
)
    requires
        pre.wf(),
        pre.holds(stack, size),
        pre.free.count < FREE_LIST_CAP,
        released(&pre, &mid, stack, size, true),
        allocated(&mid, &post, size, guard, r),
    ensures
        r == Some(StackAlloc { base: stack, size, guard: None }),
        post.free.stacks() == pre.free.stacks(),
{
    assert(mid.free.stacks().last() == FreeStack { offset: (stack - pre.base) as usize, size });
    assert(mid.free.stacks().drop_last() =~= pre.free.stacks());
}

/// Two stacks, each with the guard band of `guard` bytes below it, share no
/// byte.
pub open spec fn disjoint(a: FreeStack, b: FreeStack, guard: usize) -> bool {
    a.offset + a.size + guard <= b.offset || b.offset + b.size + guard <= a.offset
}

/// The stacks in `live`, which are handed out, and the released ones lie in the
/// carved part of the pool together with their guard bands of `guard` bytes,
/// each is aligned to its size, and no two of them share a byte of stack or
/// band.
pub open spec fn apart(pool: &StackPool, live: Seq<FreeStack>, guard: usize) -> bool {
    let all = live + pool.free.stacks();
    &&& forall|i: int|
        0 <= i < all.len() ==> {
            &&& guard <= (#[trigger] all[i]).offset
            &&& all[i].offset + all[i].size <= pool.next
            &&& (pool.base + all[i].offset) % all[i].size as int == 0
        }
    &&& forall|i: int, j: int|
        0 <= i < all.len() && 0 <= j < all.len() && i != j ==> disjoint(
            #[trigger] all[i],
            #[trigger] all[j],
            guard,
        )
}

/// Nothing is handed out of a new pool, so nothing in it overlaps.
pub proof fn law_new_pool_is_apart(pool: StackPool, guard: usize)
    requires
        pool.free.stacks() == Seq::<FreeStack>::empty(),
    ensures
        apart(&pool, Seq::empty(), guard),
{
}

/// A stack that is handed out shares no byte with one that is in use, nor does
/// the guard band below either, whether it is carved or was released before:
/// `live` are the stacks in use. Stack and band lie in the pool, and the stack
/// is as large as was asked for and aligned to its size.
pub proof fn law_no_stack_is_shared(
    pre: StackPool,
    post: StackPool,
    size: usize,
    guard: usize,
    a: StackAlloc,
    live: Seq<FreeStack>,
)
    requires
        pre.wf(),
        size > 0,
        apart(&pre, live, guard),
        allocated(&pre, &post, size, guard, Some(a)),
    ensures
        a.size == size,
        a.base as int % size as int == 0,
        pre.base + guard <= a.base,
        a.base + size <= pre.base + pre.len,
        apart(&post, live.push(FreeStack { offset: (a.base - pre.base) as usize, size }), guard),
        forall|i: int|
            0 <= i < live.len() ==> disjoint(
                #[trigger] live[i],
                FreeStack { offset: (a.base - pre.base) as usize, size },
                guard,
            ),
{
    let new = FreeStack { offset: (a.base - pre.base) as usize, size };
    let before = live + pre.free.stacks();
    let after = live.push(new) + post.free.stacks();
    let n = live.len() as int;
    if a.guard is None {
        let last = pre.free.stacks().last();
        assert(before[before.len() - 1] == last);
        assert(pre.free.stacks()[pre.free.stacks().len() - 1] == last);
        assert(new == last);
        // The stacks are the same; the last released one is in use now.
        assert forall|i: int| 0 <= i < after.len() implies #[trigger] after[i] == before[if i < n {
            i
        } else if i == n {
            before.len() - 1
        } else {
            i - 1
        }] by {}
    } else {
        assert(new.offset >= pre.next + guard);
        assert forall|i: int| 0 <= i < after.len() && i != n implies #[trigger] after[i]
            == before[if i < n {
            i
        } else {
            i - 1
        }] by {}
        assert(after[n] == new);
    }
    assert(after[n] == new);
    assert forall|i: int| 0 <= i < n implies disjoint(#[trigger] live[i], new, guard) by {
        assert(after[i] == live[i]);
        assert(before[i] == live[i]);
    }
}

/// An allocation that fails hands nothing out and leaves the pool as it was.
pub proof fn law_failed_allocation_changes_nothing(
    pre: StackPool,
    post: StackPool,
    size: usize,
    guard: usize,
    live: Seq<FreeStack>,
)
    requires
        apart(&pre, live, guard),
        allocated(&pre, &post, size, guard, None),
    ensures
        post.base == pre.base,
        post.len == pre.len,
        post.next == pre.next,
        post.count == pre.count,
        post.free.stacks() == pre.free.stacks(),
        apart(&post, live, guard),
{
}

/// Giving back a stack that is in use leaves the others apart.
pub proof fn law_release_keeps_stacks_apart(
    pre: StackPool,
    post: StackPool,
    live: Seq<FreeStack>,
    guard: usize,
    i: int,
)
    requires
        pre.wf(),
        apart(&pre, live, guard),
        0 <= i < live.len(),
        released(&pre, &post, (pre.base + live[i].offset) as usize, live[i].size, true),
    ensures
        apart(&post, live.remove(i), guard),
{
    let before = live + pre.free.stacks();
    let after = live.remove(i) + post.free.stacks();
    assert(before[i] == live[i]);
    assert forall|j: int| 0 <= j < after.len() implies #[trigger] after[j] == before[if j < i {
        j
    } else if j < before.len() - 1 {
        j + 1
    } else {
        i
    }] by {}
}

/// A stack that is handed out lies in the pool, is as large as was asked for,
/// and one that is carved is aligned to its size and stands above a guard band
/// that begins at or above everything carved before.
pub proof fn law_stack_is_what_was_asked(
    pool: &mut StackPool,
    size: usize,
    guard: usize,
    r: Option<StackAlloc>,
)
    requires
        call_ensures(alloc_stack, (pool, size, guard), r),
        old(pool).wf(),
        r is Some,
        size > 0,
    ensures
        r->0.size == size,
        old(pool).base <= r->0.base,
        r->0.base + size <= old(pool).base + old(pool).len,
        r->0.guard matches Some(g) ==> {
            &&& r->0.base % size == 0
            &&& g.base + guard == r->0.base
            &&& g.base >= old(pool).base + old(pool).next
            &&& final(pool).base + final(pool).next == r->0.base + size
            &&& g.entry == old(pool).count
            &&& final(pool).count == old(pool).count + 1
        },
        r->0.guard is None ==> final(pool).next == old(pool).next && final(pool).count == old(
            pool,
        ).count,
{
    let pre = *old(pool);
    if pre.free.stacks().len() > 0 && pre.free.stacks().last().size == size {
        let n = pre.free.stacks().len() - 1;
        assert(pre.free.stacks()[n] == pre.free.stacks().last());
    }
}

/// A stack that is given back is the next one of its size to be handed out.
pub proof fn law_returned_stack_is_used_again(
    a: &mut StackPool,
    b: &mut StackPool,
    stack: usize,
    size: usize,
    guard: usize,
    r: bool,
    s: Option<StackAlloc>,
)
    requires
        call_ensures(release_stack, (a, stack, size), r),
        old(a).wf(),
        *old(b) == *final(a),
        call_ensures(alloc_stack, (b, size, guard), s),
        old(a).free.count < FREE_LIST_CAP,
    ensures
        r <==> old(a).base <= stack && stack + size <= old(a).base + old(a).len,
        r ==> s == Some(StackAlloc { base: stack, size, guard: None }),
        r ==> final(b).free.stacks() == old(a).free.stacks(),
        !r ==> final(a).free.stacks() == old(a).free.stacks(),
{
    if r {
        let f = final(a).free.stacks();
        assert(f.last() == FreeStack { offset: (stack - old(a).base) as usize, size });
        assert(final(b).free.stacks() =~= old(a).free.stacks());
    }
}

/// An address lies in the pool exactly if it lies between its bounds.
pub proof fn law_pool_holds_its_addresses(
    base: usize,
    len: usize,
    pool: StackPool,
    bounds: (usize, usize),
    addr: usize,
    r: bool,
)
    requires
        call_ensures(StackPool::new, (base, len), pool),
        call_ensures(pool_bounds, (&pool,), bounds),
        call_ensures(contains, (&pool, addr), r),
    ensures
        bounds == (base, len),
        r <==> base <= addr && addr < base + len,
{
}

/// The stack that was put on the list last is the one that is taken first, and
/// an empty list has none.
pub proof fn law_last_stack_comes_first(
    fresh: FreeList,
    f: &mut FreeList,
    a: &mut FreeList,
    b: &mut FreeList,
    offset: usize,
    size: usize,
    none: Option<FreeStack>,
    r: Option<FreeStack>,
)
    requires
        call_ensures(FreeList::new, (), fresh),
        *old(f) == fresh,
        call_ensures(FreeList::pop, (f,), none),
        old(a).wf(),
        old(a).count < FREE_LIST_CAP,
        call_ensures(FreeList::push, (a, offset, size), ()),
        *old(b) == *final(a),
        call_ensures(FreeList::pop, (b,), r),
    ensures
        none is None,
        r == Some(FreeStack { offset, size }),
        final(b).stacks() == old(a).stacks(),
{
    assert(old(a).stacks().push(FreeStack { offset, size }).drop_last() =~= old(a).stacks());
}

/// Without a returned stack of the right size a stack is carved at the first
/// aligned place behind the guard band, and refused only if none fits.
pub proof fn law_stack_is_carved_where_it_fits(
    pool: &mut StackPool,
    size: usize,
    guard: usize,
    r: Option<StackAlloc>,
    at: int,
)
    requires
        call_ensures(alloc_stack, (pool, size, guard), r),
        old(pool).wf(),
        size > 0,
        old(pool).free.stacks().len() == 0 || old(pool).free.stacks().last().size != size,
        at % (size as int) == 0,
        at >= old(pool).base + old(pool).next + guard,
    ensures
        r is None ==> at + size > old(pool).base + old(pool).len,
        r matches Some(a) ==> a.base <= at,
        r is None ==> final(pool).next == old(pool).next,
{
    let pre = *old(pool);
    let first = choose|first: int|
        {
            &&& #[trigger] aligned_up(pre.base + pre.next + guard, size as int, first)
            &&& if first - pre.base + size > pre.len {
                &&& r is None
                &&& final(pool).next == pre.next
                &&& final(pool).count == pre.count
            } else {
                &&& r == Some(
                    StackAlloc {
                        base: first as usize,
                        size,
                        guard: Some(
                            GuardBand { base: (first - guard) as usize, entry: pre.count },
                        ),
                    },
                )
                &&& final(pool).next == first - pre.base + size
                &&& final(pool).count == pre.count + 1
            }
        };
    let s = size as int;
    assert(first <= at) by {
        if first > at {
            vstd::arithmetic::div_mod::lemma_fundamental_div_mod(first, s);
            vstd::arithmetic::div_mod::lemma_fundamental_div_mod(at, s);
            let x = first / s;
            let y = at / s;
            assert(first - at >= s) by (nonlinear_arith)
                requires
                    first == s * x,
                    at == s * y,
                    first > at,
                    s > 0,
            ;
        }
    }
}

} // verus!
