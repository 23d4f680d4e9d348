//! Bit strings: the mathematical model behind every bit reader.
//!
//! A byte string is read most significant bit first and is followed by an
//! endless run of zero bits, which is what a zero-padded peek sees.

use vstd::arithmetic::div_mod::*;
use vstd::arithmetic::mul::*;
use vstd::arithmetic::power2::*;
use vstd::prelude::*;

verus! {

/// Bit `i` of `s`, counted from the most significant bit of the first byte;
/// zero outside the string.
pub open spec fn bit(s: Seq<u8>, i: int) -> nat {
    if 0 <= i < 8 * s.len() {
        (s[i / 8] as nat / pow2((7 - i % 8) as nat)) % 2
    } else {
        0
    }
}

/// The number written by the `n` bits of `s` from bit `p` on.
pub open spec fn bits(s: Seq<u8>, p: int, n: nat) -> nat
    decreases n,
{
    if n == 0 {
        0
    } else {
        2 * bits(s, p, (n - 1) as nat) + bit(s, p + n - 1)
    }
}

/// `n` bits spell a number below `2^n`.
pub proof fn lemma_bits_bound(s: Seq<u8>, p: int, n: nat)
    ensures
        bits(s, p, n) < pow2(n),
    decreases n,
{
    lemma2_to64();
    if n > 0 {
        lemma_bits_bound(s, p, (n - 1) as nat);
        lemma_pow2_unfold(n);
    }
}

/// Reading `a + b` bits is reading `a` bits and then `b` bits.
pub proof fn lemma_bits_split(s: Seq<u8>, p: int, a: nat, b: nat)
    ensures
        bits(s, p, a + b) == bits(s, p, a) * pow2(b) + bits(s, p + a, b),
    decreases b,
{
    lemma2_to64();
    if b == 0 {
        assert(bits(s, p, a) * 1 == bits(s, p, a));
    } else {
        lemma_bits_split(s, p, a, (b - 1) as nat);
        lemma_pow2_unfold(b);
        let x = bits(s, p, a) as int;
        let h = pow2((b - 1) as nat) as int;
        assert(2 * (x * h) == x * (2 * h)) by (nonlinear_arith);
        assert(a + b - 1 == a + (b - 1) as nat);
        assert((a + b - 1) as nat == a + (b - 1) as nat);
        assert(p + (a + b) - 1 == (p + a) + b - 1);
    }
}

/// Past the end of the string every bit is zero.
pub proof fn lemma_bits_past_end(s: Seq<u8>, p: int, n: nat)
    requires
        p >= 8 * s.len(),
    ensures
        bits(s, p, n) == 0,
    decreases n,
{
    if n > 0 {
        lemma_bits_past_end(s, p, (n - 1) as nat);
    }
}

/// Two strings with the same bits in a window spell the same number there.
pub proof fn lemma_bits_agree(s: Seq<u8>, t: Seq<u8>, p: int, q: int, n: nat)
    requires
        forall|i: int| 0 <= i < n ==> #[trigger] bit(s, p + i) == bit(t, q + i),
    ensures
        bits(s, p, n) == bits(t, q, n),
    decreases n,
{
    if n > 0 {
        lemma_bits_agree(s, t, p, q, (n - 1) as nat);
        assert(bit(s, p + (n - 1)) == bit(t, q + (n - 1)));
        assert(p + n - 1 == p + (n - 1));
        assert(q + n - 1 == q + (n - 1));
    }
}

/// A prefix of the string holds the same bits, as far as it reaches.
pub proof fn lemma_bits_prefix(s: Seq<u8>, k: int, p: int, n: nat)
    requires
        0 <= k <= s.len(),
        p + n <= 8 * k,
        p >= 0,
    ensures
        bits(s.take(k), p, n) == bits(s, p, n),
{
    assert forall|i: int| 0 <= i < n implies #[trigger] bit(s.take(k), p + i) == bit(s, p + i) by {
        assert((p + i) / 8 < k);
    }
    lemma_bits_agree(s.take(k), s, p, p, n);
}

/// The leading `n` bits of an 8-bit value are its quotient by the rest.
proof fn lemma_byte_lead(s: Seq<u8>, k: int, n: nat)
    requires
        0 <= k < s.len(),
        n <= 8,
    ensures
        bits(s, 8 * k, n) == s[k] as nat / pow2((8 - n) as nat),
    decreases n,
{
    lemma2_to64();
    let x = s[k] as nat;
    if n == 0 {
        assert(x / 256 == 0);
    } else {
        lemma_byte_lead(s, k, (n - 1) as nat);
        let d = pow2((8 - n) as nat);
        lemma_pow2_pos((8 - n) as nat);
        lemma_pow2_unfold((9 - n) as nat);
        assert(pow2((8 - (n - 1)) as nat) == 2 * d);
        let i = 8 * k + n - 1;
        assert(i / 8 == k && i % 8 == n - 1);
        assert(bit(s, i) == (x / d) % 2);
        lemma_div_denominator(x as int, d as int, 2);
        assert(x as int / (d as int * 2) == x as int / d as int / 2);
        assert(d * 2 == 2 * d);
        lemma_fundamental_div_mod((x / d) as int, 2);
    }
}

/// Eight bits on a byte boundary are that byte.
pub proof fn lemma_bits_byte(s: Seq<u8>, k: int)
    requires
        0 <= k < s.len(),
    ensures
        bits(s, 8 * k, 8) == s[k],
{
    lemma2_to64();
    lemma_byte_lead(s, k, 8);
    assert(s[k] as nat / 1 == s[k] as nat);
}

} // verus!
