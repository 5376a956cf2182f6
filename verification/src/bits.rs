//! Machine words read as sets of small integers.
use vstd::prelude::*;

verus! {

/// Whether `i` is a member of the set that `w` encodes.
pub open spec fn bit(w: u32, i: int) -> bool {
    0 <= i < 32 && (w >> (i as u32)) & 1 == 1
}

/// Setting bit `i` inserts `i`.
pub proof fn lemma_set(w: u32, i: u32)
    requires
        i < 32,
    ensures
        forall|j: int| #[trigger] bit(w | (1u32 << i), j) == (j == i || bit(w, j)),
{
    assert forall|j: int| #[trigger] bit(w | (1u32 << i), j) == (j == i || bit(w, j)) by {
        if 0 <= j < 32 {
            let k = j as u32;
            assert(((w | (1u32 << i)) >> k) & 1 == 1 <==> (k == i || (w >> k) & 1 == 1))
                by (bit_vector)
                requires
                    k < 32,
                    i < 32,
            ;
        }
    }
}

/// Clearing bit `i` removes `i`.
pub proof fn lemma_clear(w: u32, i: u32)
    requires
        i < 32,
    ensures
        forall|j: int| #[trigger] bit(w & !(1u32 << i), j) == (j != i && bit(w, j)),
{
    assert forall|j: int| #[trigger] bit(w & !(1u32 << i), j) == (j != i && bit(w, j)) by {
        if 0 <= j < 32 {
            let k = j as u32;
            assert(((w & !(1u32 << i)) >> k) & 1 == 1 <==> (k != i && (w >> k) & 1 == 1))
                by (bit_vector)
                requires
                    k < 32,
                    i < 32,
            ;
        }
    }
}

/// Removing a member makes the word smaller.
pub proof fn lemma_clear_less(w: u32, i: u32)
    requires
        bit(w, i as int),
    ensures
        w & !(1u32 << i) < w,
{
    assert(w & !(1u32 << i) < w) by (bit_vector)
        requires
            i < 32,
            (w >> i) & 1 == 1,
    ;
}

/// The word zero is the empty set, and no other word is.
pub proof fn lemma_zero(w: u32)
    ensures
        (w == 0) == (forall|j: int| !bit(w, j)),
{
    if w == 0 {
        assert forall|j: int| !bit(w, j) by {
            if 0 <= j < 32 {
                let k = j as u32;
                assert((0u32 >> k) & 1 == 0) by (bit_vector);
            }
        }
    } else {
        vstd::std_specs::bits::axiom_u32_trailing_zeros(w);
        assert(bit(w, vstd::std_specs::bits::u32_trailing_zeros(w) as int));
    }
}

/// Two words with the same members are the same word.
pub proof fn lemma_ext(a: u32, b: u32)
    requires
        forall|j: int| bit(a, j) == bit(b, j),
    ensures
        a == b,
{
    if a != b {
        let x = a ^ b;
        assert(a != b ==> (a ^ b) != 0) by (bit_vector);
        lemma_zero(x);
        let j = choose|j: int| bit(x, j);
        let k = j as u32;
        assert(((a ^ b) >> k) & 1 == 1 ==> ((a >> k) & 1 == 1) != ((b >> k) & 1 == 1))
            by (bit_vector);
        assert(bit(a, j) != bit(b, j));
    }
}

/// The word `1 << i` is the set `{i}`.
pub proof fn lemma_single(i: u32)
    requires
        i < 32,
    ensures
        forall|j: int| #[trigger] bit(1u32 << i, j) == (j == i),
{
    lemma_set(0, i);
    lemma_zero(0);
    assert(0u32 | (1u32 << i) == 1u32 << i) by (bit_vector);
}

/// A word equals `1 << i` exactly when its only member is `i`.
pub proof fn lemma_is_single(w: u32, i: u32)
    requires
        i < 32,
    ensures
        (w == 1u32 << i) == (forall|j: int| bit(w, j) == (j == i)),
{
    lemma_single(i);
    if forall|j: int| bit(w, j) == (j == i) {
        assert forall|j: int| bit(w, j) == bit(1u32 << i, j) by {}
        lemma_ext(w, 1u32 << i);
    }
}

/// Clearing the lowest set bit removes the least member.
pub proof fn lemma_clear_lowest(w: u32, low: u32)
    requires
        low < 32,
        bit(w, low as int),
        forall|j: int| 0 <= j < low ==> !bit(w, j),
    ensures
        w != 0,
        w & ((w - 1) as u32) == w & !(1u32 << low),
        w & !(1u32 << low) < w,
{
    lemma_zero(w);
    vstd::std_specs::bits::axiom_u32_trailing_zeros(w);
    let t = vstd::std_specs::bits::u32_trailing_zeros(w);
    assert(bit(w, t as int));
    assert(t == low) by {
        if low < t {
            assert((w >> low) & 1 == 0);
        }
    }
    let s = (32 - low) as u32;
    assert(w << s == 0);
    let v = (w - 1) as u32;
    assert(w & v == w & !(1u32 << low) && w & !(1u32 << low) < w) by (bit_vector)
        requires
            low < 32,
            w != 0,
            v == w - 1,
            s == 32 - low,
            (w >> low) & 1 == 1,
            w << s == 0,
    ;
}

/// The greatest member of a non-empty word.
pub fn highest(w: u32) -> (r: u32)
    requires
        w != 0,
    ensures
        r < 32,
        bit(w, r as int),
        forall|j: int| j > r ==> !bit(w, j),
{
    proof {
        vstd::std_specs::bits::axiom_u32_leading_zeros(w);
    }
    let lz: u32 = w.leading_zeros();
    let r: u32 = 31 - lz;
    proof {
        assert((w >> r) & 1u32 != 0u32);
        assert((w >> r) & 1u32 != 0u32 ==> (w >> r) & 1u32 == 1u32) by (bit_vector);
        assert forall|j: int| j > r implies !bit(w, j) by {
            if 0 <= j < 32 {
                let k = j as u32;
                assert((w >> k) & 1u32 == 0u32);
            }
        }
    }
    r
}

/// The least member of a non-empty word.
pub fn lowest(w: u32) -> (r: u32)
    requires
        w != 0,
    ensures
        r < 32,
        bit(w, r as int),
        forall|j: int| 0 <= j < r ==> !bit(w, j),
{
    proof {
        vstd::std_specs::bits::axiom_u32_trailing_zeros(w);
    }
    let r: u32 = w.trailing_zeros();
    proof {
        assert forall|j: int| 0 <= j < r implies !bit(w, j) by {
            let k = j as u32;
            assert((w >> k) & 1u32 == 0u32);
        }
    }
    r
}

/// What is left of a word above its greatest member is one, and what is left
/// above its least member is odd, with nothing below it.
pub proof fn law_ends_of_a_word(w: u32, high: u32, low: u32)
    requires
        w != 0,
        call_ensures(highest, (w,), high),
        call_ensures(lowest, (w,), low),
    ensures
        low <= high < 32,
        w >> high == 1,
        (w >> low) % 2 == 1,
        (w >> low) << low == w,
{
    let h = w >> high;
    let l = (w >> low) << low;
    assert(bit(w, high as int));
    assert forall|j: int| 0 <= j < 32 implies bit(h, j) == #[trigger] bit(1u32, j) by {
        let k = j as u32;
        assert(((w >> high) >> k) & 1 == (if high + k < 32 {
            (w >> ((high + k) as u32)) & 1
        } else {
            0
        }) && ((1u32 >> k) & 1 == (if k == 0 {
            1u32
        } else {
            0
        }))) by (bit_vector)
            requires
                high < 32,
                k < 32,
        ;
        if j > 0 {
            assert(!bit(w, high + j));
        }
    }
    lemma_ext(h, 1);
    assert forall|j: int| 0 <= j < 32 implies bit(l, j) == #[trigger] bit(w, j) by {
        let k = j as u32;
        assert((((w >> low) << low) >> k) & 1 == (if k >= low {
            (w >> k) & 1
        } else {
            0
        })) by (bit_vector)
            requires
                low < 32,
                k < 32,
        ;
    }
    lemma_ext(l, w);
    let a = w >> low;
    assert(a % 2 == a & 1) by (bit_vector);
    assert(bit(w, low as int));
    if low > high {
        assert(!bit(w, low as int));
    }
}

} // verus!
