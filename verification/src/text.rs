//! Text for the console: literals, decimal and hexadecimal numbers.
use vstd::prelude::*;
use vstd::utf8::encode_utf8;

verus! {

/// The bytes of a string.
pub open spec fn lit(s: &str) -> Seq<u8> {
    encode_utf8(s@)
}

/// The digit `d` in ASCII.
pub open spec fn digit(d: int) -> u8 {
    if d < 10 {
        (48 + d) as u8
    } else {
        (87 + d) as u8
    }
}

/// `n` in decimal, without leading zeros.
pub open spec fn dec(n: nat) -> Seq<u8>
    decreases n,
{
    if n < 10 {
        seq![digit(n as int)]
    } else {
        dec(n / 10).push(digit((n % 10) as int))
    }
}

/// The lowest `k` hexadecimal digits of `n`, with leading zeros.
pub open spec fn hex(n: nat, k: nat) -> Seq<u8>
    decreases k,
{
    if k == 0 {
        Seq::empty()
    } else {
        hex(n / 16, (k - 1) as nat).push(digit((n % 16) as int))
    }
}

/// Appending twice is appending both.
pub proof fn lemma_cat(a: Seq<u8>, b: Seq<u8>, c: Seq<u8>)
    ensures
        (a + b) + c == a + (b + c),
{
    assert((a + b) + c =~= a + (b + c));
}

/// Appending nothing.
pub proof fn lemma_cat_empty(a: Seq<u8>)
    ensures
        a + Seq::<u8>::empty() == a,
{
    assert(a + Seq::<u8>::empty() =~= a);
}

/// Append bytes.
pub fn put_bytes(out: &mut Vec<u8>, b: &[u8])
    ensures
        final(out)@ == old(out)@ + b@,
{
    let n: usize = b.len();
    let mut i: usize = 0;
    while i < n
        invariant
            i <= n,
            n == b@.len(),
            out@ == old(out)@ + b@.take(i as int),
        decreases n - i,
    {
        out.push(b[i]);
        assert(b@.take(i + 1) =~= b@.take(i as int).push(b@[i as int]));
        i = i + 1;
    }
    assert(b@.take(n as int) =~= b@);
}

/// Append a string.
pub fn put_str(out: &mut Vec<u8>, s: &str)
    ensures
        final(out)@ == old(out)@ + lit(s),
{
    put_bytes(out, s.as_bytes());
}

/// Append `n` in decimal.
pub fn put_dec(out: &mut Vec<u8>, n: u64)
    ensures
        final(out)@ == old(out)@ + dec(n as nat),
{
    let mut digits: Vec<u8> = Vec::new();
    let mut rest: u64 = n;
    while rest >= 10
        invariant
            dec(n as nat) == dec(rest as nat) + digits@.reverse(),
        decreases rest,
    {
        let d: u8 = (rest % 10) as u8 + 48;
        let ghost before = digits@;
        digits.push(d);
        assert(digits@.reverse() =~= seq![d] + before.reverse());
        assert(dec(rest as nat) == dec((rest / 10) as nat).push(d));
        assert(dec(rest as nat) + before.reverse() =~= dec((rest / 10) as nat)
            + digits@.reverse());
        rest = rest / 10;
    }
    let ghost before = digits@;
    let top: u8 = rest as u8 + 48;
    digits.push(top);
    assert(digits@.reverse() =~= seq![top] + before.reverse());
    assert(dec(n as nat) =~= digits@.reverse());
    let total: usize = digits.len();
    let mut i: usize = 0;
    while i < total
        invariant
            i <= total,
            total == digits@.len(),
            out@ == old(out)@ + digits@.reverse().take(i as int),
        decreases total - i,
    {
        let b: u8 = digits[total - 1 - i];
        assert(digits@.reverse().take(i + 1) =~= digits@.reverse().take(i as int).push(b));
        out.push(b);
        i = i + 1;
    }
    assert(digits@.reverse().take(total as int) =~= digits@.reverse());
}

/// Append the lowest eight hexadecimal digits of `n`, in lower case.
pub fn put_hex(out: &mut Vec<u8>, n: u64)
    ensures
        final(out)@ == old(out)@ + hex(n as nat, 8),
{
    let mut buf: Vec<u8> = Vec::new();
    let mut rest: u64 = n;
    let mut k: usize = 0;
    while k < 8
        invariant
            k <= 8,
            hex(n as nat, 8) == hex(rest as nat, (8 - k) as nat) + buf@.reverse(),
            buf@.len() == k,
        decreases 8 - k,
    {
        let d: u8 = (rest % 16) as u8;
        let b: u8 = if d < 10 {
            48 + d
        } else {
            87 + d
        };
        let ghost before = buf@;
        buf.push(b);
        assert(buf@.reverse() =~= seq![b] + before.reverse());
        assert(hex(rest as nat, (8 - k) as nat) == hex(
            (rest / 16) as nat,
            (8 - k - 1) as nat,
        ).push(b));
        assert(hex(rest as nat, (8 - k) as nat) + before.reverse() =~= hex(
            (rest / 16) as nat,
            (8 - k - 1) as nat,
        ) + buf@.reverse());
        rest = rest / 16;
        k = k + 1;
    }
    assert(hex(n as nat, 8) =~= buf@.reverse());
    let mut i: usize = 0;
    while i < 8
        invariant
            i <= 8,
            buf@.len() == 8,
            out@ == old(out)@ + buf@.reverse().take(i as int),
        decreases 8 - i,
    {
        let b: u8 = buf[7 - i];
        assert(buf@.reverse().take(i + 1) =~= buf@.reverse().take(i as int).push(b));
        out.push(b);
        i = i + 1;
    }
    assert(buf@.reverse().take(8) =~= buf@.reverse());
}

/// What a digit stands for; -1 if it is none.
pub open spec fn digit_value(b: u8) -> int {
    if 48 <= b <= 57 {
        b - 48
    } else if 97 <= b <= 102 {
        b - 97 + 10
    } else {
        -1
    }
}

/// The number that a reader makes of digits in base `base`.
pub open spec fn number_of(s: Seq<u8>, base: int) -> int
    decreases s.len(),
{
    if s.len() == 0 {
        0
    } else {
        number_of(s.drop_last(), base) * base + digit_value(s.last())
    }
}

/// A number in decimal is made of digits, has no leading zero, and can be read
/// back.
pub proof fn lemma_dec_read(n: nat)
    ensures
        dec(n).len() > 0,
        forall|i: int| 0 <= i < dec(n).len() ==> 48 <= #[trigger] dec(n)[i] <= 57,
        number_of(dec(n), 10) == n,
        dec(n).len() > 1 ==> dec(n)[0] != 48,
    decreases n,
{
    if n >= 10 {
        lemma_dec_read(n / 10);
        assert(dec(n).drop_last() =~= dec(n / 10));
        assert(dec(n)[0] == dec(n / 10)[0]);
        if dec(n / 10).len() == 1 {
            assert(n / 10 > 0);
            if dec(n / 10)[0] == 48 {
                assert(number_of(dec(n / 10).drop_last(), 10) == 0);
                assert(number_of(dec(n / 10), 10) == 0);
            }
        }
    } else {
        assert(dec(n).drop_last() =~= Seq::<u8>::empty());
        assert(number_of(dec(n).drop_last(), 10) == 0);
    }
}

proof fn lemma_hex_read(n: nat, k: nat)
    ensures
        hex(n, k).len() == k,
        forall|i: int| 0 <= i < k ==> 0 <= digit_value(#[trigger] hex(n, k)[i]) < 16,
        number_of(hex(n, k), 16) == n as int % vstd::arithmetic::power::pow(16, k),
    decreases k,
{
    let all = vstd::arithmetic::power::pow(16, k);
    vstd::arithmetic::power::lemma_pow_positive(16, k);
    if k == 0 {
        vstd::arithmetic::power::lemma_pow0(16);
    } else {
        lemma_hex_read(n / 16, (k - 1) as nat);
        let rest = vstd::arithmetic::power::pow(16, (k - 1) as nat);
        vstd::arithmetic::power::lemma_pow_positive(16, (k - 1) as nat);
        assert(all == 16 * rest) by {
            reveal(vstd::arithmetic::power::pow);
        }
        assert(hex(n, k).drop_last() =~= hex(n / 16, (k - 1) as nat));
        assert(digit_value(hex(n, k).last()) == n % 16);
        vstd::arithmetic::div_mod::lemma_mod_breakdown(n as int, 16, rest);
        assert(16 * ((n as int / 16) % rest) + n as int % 16 == n as int % all);
    }
}

/// A number in decimal can be read back: it is made of decimal digits alone,
/// has no leading zero, and stands behind what was there.
pub proof fn law_decimal_can_be_read(out: &mut Vec<u8>, n: u64)
    requires
        call_ensures(put_dec, (out, n), ()),
    ensures
        ({
            let old_len = old(out)@.len() as int;
            let s = final(out)@.skip(old_len);
            &&& final(out)@.take(old_len) == old(out)@
            &&& s.len() > 0
            &&& forall|i: int| 0 <= i < s.len() ==> 48 <= #[trigger] s[i] <= 57
            &&& number_of(s, 10) == n
            &&& s.len() > 1 ==> s[0] != 48
        }),
{
    let old_len = old(out)@.len() as int;
    assert(final(out)@.take(old_len) =~= old(out)@);
    assert(final(out)@.skip(old_len) =~= dec(n as nat));
    lemma_dec_read(n as nat);
}

/// Eight hexadecimal digits can be read back as the low word of the number.
pub proof fn law_hexadecimal_can_be_read(out: &mut Vec<u8>, n: u64)
    requires
        call_ensures(put_hex, (out, n), ()),
    ensures
        ({
            let old_len = old(out)@.len() as int;
            let s = final(out)@.skip(old_len);
            &&& final(out)@.take(old_len) == old(out)@
            &&& s.len() == 8
            &&& forall|i: int| 0 <= i < s.len() ==> 0 <= digit_value(#[trigger] s[i]) < 16
            &&& number_of(s, 16) == n % 0x1_0000_0000
        }),
{
    let old_len = old(out)@.len() as int;
    assert(final(out)@.take(old_len) =~= old(out)@);
    assert(final(out)@.skip(old_len) =~= hex(n as nat, 8));
    lemma_hex_read(n as nat, 8);
    assert(vstd::arithmetic::power::pow(16, 8) == 0x1_0000_0000) by {
        reveal_with_fuel(vstd::arithmetic::power::pow, 9);
    }
}

/// Text and bytes are appended as they are.
pub proof fn law_bytes_are_appended(a: &mut Vec<u8>, b: &mut Vec<u8>, bytes: &[u8], s: &str)
    requires
        call_ensures(put_bytes, (a, bytes), ()),
        call_ensures(put_str, (b, s), ()),
    ensures
        final(a)@ == old(a)@ + bytes@,
        final(b)@ == old(b)@ + encode_utf8(s@),
{
}

} // verus!
