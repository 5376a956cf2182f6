//! Latency histograms with logarithmic buckets.
use vstd::arithmetic::power2::pow2;
use vstd::prelude::*;

verus! {

/// Buckets of a histogram.
pub const BUCKETS: usize = 16;

/// What is measured.
#[derive(Clone, Copy, PartialEq, Eq, Structural, Debug)]
pub enum Kind {
    /// From an interrupt to its handler.
    IrqEntry,
    /// One scheduling decision.
    DispatchDecision,
    /// One critical section.
    CriticalSection,
    /// From ready to running.
    SchedulingWake,
}

/// Number of kinds.
pub const KINDS: usize = 4;

/// All kinds, in the order in which they are reported.
pub const ALL_KINDS: [Kind; KINDS] = [
    Kind::IrqEntry,
    Kind::DispatchDecision,
    Kind::CriticalSection,
    Kind::SchedulingWake,
];

/// The histograms.
pub struct Histograms {
    /// Samples per kind and bucket; the count wraps.
    pub counts: [[u32; BUCKETS]; KINDS],
    /// Greatest sample of each kind, as far as it fits.
    pub max: [u32; KINDS],
}

impl Histograms {
    /// No sample.
    pub fn new() -> (r: Self)
        ensures
            forall|k: int, b: int|
                0 <= k < KINDS && 0 <= b < BUCKETS ==> #[trigger] r.counts[k][b] == 0,
            forall|k: int| 0 <= k < KINDS ==> #[trigger] r.max[k] == 0,
    {
        Histograms { counts: [[0; BUCKETS]; KINDS], max: [0; KINDS] }
    }
}

/// Place of a kind in the tables.
pub open spec fn place(kind: Kind) -> int {
    match kind {
        Kind::IrqEntry => 0,
        Kind::DispatchDecision => 1,
        Kind::CriticalSection => 2,
        Kind::SchedulingWake => 3,
    }
}

fn index(kind: Kind) -> (r: usize)
    ensures
        r == place(kind),
        r < KINDS,
{
    match kind {
        Kind::IrqEntry => 0,
        Kind::DispatchDecision => 1,
        Kind::CriticalSection => 2,
        Kind::SchedulingWake => 3,
    }
}

/// Bucket `b` takes the samples from 2^b up to 2^(b+1); the first takes 0 as
/// well, and the last everything above.
pub open spec fn falls_in(cycles: u64, b: int) -> bool {
    &&& 0 <= b < BUCKETS
    &&& b > 0 ==> pow2(b as nat) <= cycles
    &&& b < BUCKETS - 1 ==> cycles < pow2((b + 1) as nat)
}

/// The bucket of a sample.
pub fn bucket_of(cycles: u64) -> (r: usize)
    ensures
        falls_in(cycles, r as int),
{
    let mut b: usize = 0;
    let mut rest: u64 = cycles;
    proof {
        vstd::arithmetic::power2::lemma2_to64();
        assert(cycles / 1 == cycles);
    }
    while rest > 1 && b < BUCKETS - 1
        invariant
            b <= BUCKETS - 1,
            pow2(b as nat) > 0,
            rest as int == cycles as int / pow2(b as nat) as int,
            b > 0 ==> pow2(b as nat) <= cycles,
        decreases rest,
    {
        proof {
            let m = pow2(b as nat) as int;
            vstd::arithmetic::power2::lemma_pow2_unfold((b + 1) as nat);
            vstd::arithmetic::div_mod::lemma_div_denominator(cycles as int, m, 2);
            assert(m * 2 == 2 * m);
            vstd::arithmetic::div_mod::lemma_fundamental_div_mod(cycles as int, m);
            assert(m * rest >= m * 2) by (nonlinear_arith)
                requires
                    rest >= 2,
                    m > 0,
            ;
            vstd::arithmetic::div_mod::lemma_mod_bound(cycles as int, m);
        }
        rest = rest / 2;
        b = b + 1;
    }
    proof {
        let m = pow2(b as nat) as int;
        vstd::arithmetic::power2::lemma_pow2_unfold((b + 1) as nat);
        vstd::arithmetic::div_mod::lemma_fundamental_div_mod(cycles as int, m);
        vstd::arithmetic::div_mod::lemma_mod_bound(cycles as int, m);
        assert(rest <= 1 ==> m * rest <= m) by (nonlinear_arith)
            requires
                m > 0,
                rest >= 0,
        ;
    }
    b
}

/// What recording a sample does.
pub open spec fn recorded(pre: &Histograms, post: &Histograms, kind: Kind, cycles: u64) -> bool {
    let k = place(kind);
    &&& forall|j: int, b: int|
        0 <= j < KINDS && 0 <= b < BUCKETS ==> #[trigger] post.counts[j][b] == (if j == k
            && falls_in(cycles, b) {
            if pre.counts[j][b] == u32::MAX {
                0
            } else {
                (pre.counts[j][b] + 1) as u32
            }
        } else {
            pre.counts[j][b]
        })
    &&& forall|j: int|
        0 <= j < KINDS ==> #[trigger] post.max[j] == (if j == k && cycles > pre.max[j] {
            if cycles > u32::MAX {
                u32::MAX
            } else {
                cycles as u32
            }
        } else {
            pre.max[j]
        })
}

/// A sample falls into one bucket only.
pub proof fn law_one_bucket(cycles: u64, a: int, b: int)
    requires
        falls_in(cycles, a),
        falls_in(cycles, b),
    ensures
        a == b,
{
    if a < b {
        if a + 1 < b {
            vstd::arithmetic::power2::lemma_pow2_strictly_increases((a + 1) as nat, b as nat);
        }
    }
    if b < a {
        if b + 1 < a {
            vstd::arithmetic::power2::lemma_pow2_strictly_increases((b + 1) as nat, a as nat);
        }
    }
}

/// Record a sample.
pub fn record(h: &mut Histograms, kind: Kind, cycles: u64)
    ensures
        recorded(old(h), final(h), kind, cycles),
{
    let k: usize = index(kind);
    let b: usize = bucket_of(cycles);
    let mut row = h.counts[k];
    row[b] = row[b].wrapping_add(1);
    h.counts[k] = row;
    let capped: u32 = if cycles > 0xFFFF_FFFF {
        0xFFFF_FFFF
    } else {
        cycles as u32
    };
    if capped > h.max[k] {
        h.max[k] = capped;
    }
    proof {
        assert forall|x: int| falls_in(cycles, x) implies x == b by {
            law_one_bucket(cycles, x, b as int);
        }
    }
}

/// The counts of one histogram.
pub fn snapshot(h: &Histograms, kind: Kind) -> (r: [u32; BUCKETS])
    ensures
        r == h.counts[place(kind)],
{
    h.counts[index(kind)]
}

/// The greatest sample of a kind, 0 without one.
pub fn max_cycles(h: &Histograms, kind: Kind) -> (r: u32)
    ensures
        r == h.max[place(kind)],
{
    h.max[index(kind)]
}

/// The name of a kind.
pub open spec fn name_of(kind: Kind) -> Seq<char> {
    match kind {
        Kind::IrqEntry => "irq_entry"@,
        Kind::DispatchDecision => "dispatch"@,
        Kind::CriticalSection => "critsec"@,
        Kind::SchedulingWake => "sched_wake"@,
    }
}

/// The name of a kind.
pub fn name(kind: Kind) -> (r: &'static str)
    ensures
        r@ == name_of(kind),
{
    match kind {
        Kind::IrqEntry => "irq_entry",
        Kind::DispatchDecision => "dispatch",
        Kind::CriticalSection => "critsec",
        Kind::SchedulingWake => "sched_wake",
    }
}

/// A sample counts once, in the bucket of the powers of two around it, and only
/// for its kind; the greatest sample is remembered as far as it fits.
pub proof fn law_sample_counts_once(
    h: &mut Histograms,
    kind: Kind,
    other: Kind,
    cycles: u64,
    b: usize,
    before: [u32; BUCKETS],
    after: [u32; BUCKETS],
    others_before: [u32; BUCKETS],
    others_after: [u32; BUCKETS],
    max_before: u32,
    max_after: u32,
)
    requires
        call_ensures(bucket_of, (cycles,), b),
        call_ensures(snapshot, (&*old(h), kind), before),
        call_ensures(max_cycles, (&*old(h), kind), max_before),
        call_ensures(snapshot, (&*old(h), other), others_before),
        call_ensures(record, (h, kind, cycles), ()),
        call_ensures(snapshot, (&*final(h), kind), after),
        call_ensures(max_cycles, (&*final(h), kind), max_after),
        call_ensures(snapshot, (&*final(h), other), others_after),
        other != kind,
    ensures
        b < 16,
        cycles >= 2 ==> pow2(b as nat) <= cycles,
        cycles < 2 ==> b == 0,
        b < 15 ==> cycles < pow2((b + 1) as nat),
        before[b as int] < u32::MAX ==> after[b as int] == before[b as int] + 1,
        before[b as int] == u32::MAX ==> after[b as int] == 0,
        forall|j: int| 0 <= j < 16 && j != b ==> #[trigger] after[j] == before[j],
        forall|j: int| 0 <= j < 16 ==> #[trigger] others_after[j] == others_before[j],
        max_after >= max_before,
        cycles <= u32::MAX ==> max_after >= cycles,
        cycles > u32::MAX ==> max_after == u32::MAX,
        max_after == max_before || max_after == cycles || max_after == u32::MAX && cycles
            > u32::MAX,
{
    vstd::arithmetic::power2::lemma2_to64();
    let k = place(kind);
    let o = place(other);
    if cycles < 2 && b > 0 {
        if b > 1 {
            vstd::arithmetic::power2::lemma_pow2_strictly_increases(1, b as nat);
        }
    }
    if b == 0 {
        assert(cycles < pow2(1));
    }
    assert(falls_in(cycles, b as int));
    assert(final(h).counts[k][b as int] == after[b as int]);
    assert(old(h).counts[k][b as int] == before[b as int]);
    assert forall|j: int| 0 <= j < 16 && j != b implies #[trigger] after[j] == before[j] by {
        if falls_in(cycles, j) {
            law_one_bucket(cycles, j, b as int);
        }
        assert(final(h).counts[k][j] == old(h).counts[k][j]);
    }
    assert forall|j: int| 0 <= j < 16 implies #[trigger] others_after[j] == others_before[j] by {
        assert(final(h).counts[o][j] == old(h).counts[o][j]);
    }
    assert(final(h).max[k] == max_after);
}

/// The kinds have different names.
pub proof fn law_names_differ(a: Kind, b: Kind, x: &'static str, y: &'static str)
    requires
        call_ensures(name, (a,), x),
        call_ensures(name, (b,), y),
        a != b,
    ensures
        x@ != y@,
{
    reveal_strlit("irq_entry");
    reveal_strlit("dispatch");
    reveal_strlit("critsec");
    reveal_strlit("sched_wake");
    assert("irq_entry"@.len() == 9 && "dispatch"@.len() == 8 && "critsec"@.len() == 7
        && "sched_wake"@.len() == 10);
}

} // verus!
