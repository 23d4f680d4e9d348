//! MSB-first bit reader over an unstuffed JPEG entropy-coded segment.
//!
//! Shared between the DC-chain walker and the scan walker: both read the same
//! wire format.  The first bit of every byte is its most significant one, and
//! codewords pack left to right.

use crate::bits::{
    bits, lemma_bits_bound, lemma_bits_byte, lemma_bits_past_end, lemma_bits_prefix,
    lemma_bits_split,
};
use vstd::arithmetic::div_mod::*;
use vstd::arithmetic::mul::*;
use vstd::arithmetic::power2::*;
use vstd::bits::*;
use vstd::prelude::*;

verus! {

/// Bit reader over an unstuffed JPEG entropy-coded stream.  MSB-first.
pub struct BitReader<'a> {
    src: &'a [u8],
    /// Byte position of the next byte to load into the buffer.
    byte_pos: usize,
    /// Buffered bits, MSB-aligned.  `cap` bits are valid in the high end;
    /// the low `64 - cap` bits are zero.
    buf: u64,
    /// Number of valid bits in `buf` (0..=64).
    cap: u32,
}

impl<'a> BitReader<'a> {
    /// The bytes being read.
    pub closed spec fn source(&self) -> Seq<u8> {
        self.src@
    }

    /// Number of bits consumed so far.
    pub closed spec fn pos(&self) -> int {
        8 * self.byte_pos - self.cap
    }

    /// The buffer holds the next bits of the loaded prefix, zero-extended.
    pub closed spec fn wf(&self) -> bool {
        &&& self.cap <= 64
        &&& self.byte_pos <= self.src@.len()
        &&& self.cap <= 8 * self.byte_pos
        &&& self.buf == bits(self.src@.take(self.byte_pos as int), self.pos(), 64)
    }

    /// Number of bits that have not been consumed yet.
    pub open spec fn remaining(&self) -> int {
        8 * self.source().len() - self.pos()
    }

    /// The next 16 bits, zero-extended past the end of the stream.
    pub open spec fn window(&self) -> u16 {
        bits(self.source(), self.pos(), 16) as u16
    }

    /// A reader in bounds: what `wf` tells a caller.
    pub proof fn lemma_wf(&self)
        requires
            self.wf(),
        ensures
            0 <= self.pos() <= 8 * self.source().len(),
            bits(self.source(), self.pos(), 16) == self.window(),
    {
        lemma_bits_bound(self.source(), self.pos(), 16);
        lemma2_to64();
    }

    /// A reader in front of the first bit.
    pub fn new(src: &'a [u8]) -> (reader: Self)
        ensures
            reader.wf(),
            reader.source() == src@,
            reader.pos() == 0,
    {
        proof {
            lemma_bits_past_end(src@.take(0), 0, 64);
        }
        BitReader { src, byte_pos: 0, buf: 0, cap: 0 }
    }

    /// Refill `buf` with as many full bytes as fit, or until input runs out.
    fn refill(&mut self)
        requires
            old(self).wf(),
        ensures
            final(self).wf(),
            final(self).source() == old(self).source(),
            final(self).pos() == old(self).pos(),
            final(self).cap > 56 || final(self).byte_pos == final(self).src@.len(),
    {
        let ghost start = self.pos();
        let ghost all = self.src@;
        while self.cap <= 56 && self.byte_pos < self.src.len()
            invariant
                self.wf(),
                self.pos() == start,
                self.src@ == all,
            decreases self.src@.len() - self.byte_pos,
        {
            let byte: u64 = self.src[self.byte_pos] as u64;
            let shift: u32 = 56 - self.cap;
            proof {
                lemma_append_byte(all, self.byte_pos as int, self.cap as nat, self.buf, byte);
            }
            self.byte_pos = self.byte_pos + 1;
            self.buf = self.buf | (byte << shift);
            self.cap = self.cap + 8;
        }
    }

    /// Peek the next 16 bits MSB-first; pads with zeros if fewer remain.
    /// Returns `None` only if the stream is exhausted.
    pub fn peek_u16(&mut self) -> (prefix: Option<u16>)
        requires
            old(self).wf(),
        ensures
            final(self).wf(),
            final(self).source() == old(self).source(),
            final(self).pos() == old(self).pos(),
            prefix == (if old(self).remaining() == 0 {
                None
            } else {
                Some(old(self).window())
            }),
    {
        self.refill();
        if self.cap == 0 {
            return None;
        }
        proof {
            self.lemma_buffer_window(16);
            self.lemma_wf();
            lemma_u64_shr_is_div(self.buf, 48);
            let x: u64 = self.buf >> 48;
            assert(x == bits(self.source(), self.pos(), 16));
        }
        Some((self.buf >> 48) as u16)
    }

    /// Consume `n` bits if at least `n` remain in the stream.  Returns
    /// `false` — leaving the position untouched — when the stream is too
    /// short.
    ///
    /// This is the truncation-safe form of the peek/lookup/consume pattern:
    /// [`Self::peek_u16`] zero-pads past the stream end, so a padded prefix
    /// can match a codeword longer than the bits that actually remain.
    #[must_use]
    pub fn try_consume(&mut self, n: usize) -> (taken: bool)
        requires
            old(self).wf(),
        ensures
            final(self).wf(),
            final(self).source() == old(self).source(),
            taken == (n <= old(self).remaining()),
            final(self).pos() == old(self).pos() + (if taken {
                n as int
            } else {
                0
            }),
    {
        let unread: u128 = 8 * ((self.src.len() - self.byte_pos) as u128) + self.cap as u128;
        if unread < n as u128 {
            return false;
        }
        let ghost start = self.pos();
        let ghost all = self.src@;
        let mut left: usize = n;
        while left > 0
            invariant
                self.wf(),
                self.src@ == all,
                left <= n,
                self.pos() == start + n - left,
                left <= self.remaining(),
            decreases left,
        {
            self.refill();
            let step: u32 = if left < 32 {
                left as u32
            } else {
                32
            };
            proof {
                self.lemma_shift(step as nat);
            }
            self.buf = self.buf << step;
            self.cap = self.cap - step;
            left = left - step as usize;
        }
        true
    }

    /// Read `n` bits MSB-first as an unsigned integer.  Returns `None` if
    /// fewer than `n` bits remain in the stream.
    pub fn read_bits(&mut self, n: usize) -> (value: Option<u32>)
        requires
            old(self).wf(),
            n <= 16,
        ensures
            final(self).wf(),
            final(self).source() == old(self).source(),
            match value {
                Some(v) => n <= old(self).remaining() && v == bits(
                    old(self).source(),
                    old(self).pos(),
                    n as nat,
                ) && final(self).pos() == old(self).pos() + n,
                None => n > old(self).remaining() && final(self).pos() == old(self).pos(),
            },
    {
        if n == 0 {
            proof {
                self.lemma_wf();
            }
            return Some(0);
        }
        self.refill();
        if (self.cap as usize) < n {
            return None;
        }
        let n_u32: u32 = n as u32;
        proof {
            self.lemma_buffer_window(n as nat);
            let k: u64 = (64 - n_u32) as u64;
            lemma_u64_shr_is_div(self.buf, k);
            lemma_bits_bound(self.source(), self.pos(), n as nat);
            lemma2_to64();
            if n < 16 {
                lemma_pow2_strictly_increases(n as nat, 16);
            }
            assert(self.buf >> (64 - n_u32) as u64 == bits(self.source(), self.pos(), n as nat));
            self.lemma_shift(n_u32 as nat);
        }
        let value: u32 = (self.buf >> (64 - n_u32)) as u32;
        self.buf = self.buf << n_u32;
        self.cap = self.cap - n_u32;
        Some(value)
    }

    /// Discard the buffer and seek to `byte_offset` on a byte boundary.
    /// Used when crossing an RST marker: the entropy stream is byte-aligned
    /// there, so any in-flight bits are dropped.  Clamps to the end of the
    /// input.
    pub fn realign_to_byte_at(&mut self, byte_offset: usize)
        requires
            old(self).wf(),
        ensures
            final(self).wf(),
            final(self).source() == old(self).source(),
            final(self).pos() == 8 * (if byte_offset <= old(self).source().len() {
                byte_offset as int
            } else {
                old(self).source().len() as int
            }),
    {
        self.buf = 0;
        self.cap = 0;
        self.byte_pos = if byte_offset <= self.src.len() {
            byte_offset
        } else {
            self.src.len()
        };
        proof {
            lemma_bits_past_end(self.src@.take(self.byte_pos as int), self.pos(), 64);
        }
    }

    /// Byte the reader is currently inside, or about to read next when it
    /// stands on a byte boundary.
    pub fn byte_position(&self) -> (position: usize)
        requires
            self.wf(),
        ensures
            position == self.pos() / 8,
    {
        let bytes_unconsumed: usize = (self.cap as usize + 7) / 8;
        self.byte_pos - bytes_unconsumed
    }

    /// The leading `n` bits of a filled buffer are those of the stream.
    proof fn lemma_buffer_window(&self, n: nat)
        requires
            self.wf(),
            1 <= n <= 16,
            self.cap > 56 || self.byte_pos == self.src@.len(),
        ensures
            self.buf as nat / pow2((64 - n) as nat) == bits(self.source(), self.pos(), n),
    {
        let loaded = self.src@.take(self.byte_pos as int);
        let d = pow2((64 - n) as nat);
        lemma_bits_split(loaded, self.pos(), n, (64 - n) as nat);
        lemma_bits_bound(loaded, self.pos() + n, (64 - n) as nat);
        let hi = bits(loaded, self.pos(), n);
        let lo = bits(loaded, self.pos() + n, (64 - n) as nat);
        assert(n + (64 - n) as nat == 64);
        assert(self.buf == hi * d + lo);
        lemma_div_multiples_vanish_fancy(hi as int, lo as int, d as int);
        assert(hi * d == d * hi) by (nonlinear_arith);
        if self.cap > 56 {
            lemma_bits_prefix(self.src@, self.byte_pos as int, self.pos(), n);
        } else {
            assert(loaded =~= self.src@);
        }
    }

    /// Shifting the buffer left by `n` moves the position on by `n`.
    proof fn lemma_shift(&self, n: nat)
        requires
            self.wf(),
            n <= self.cap,
            n < 64,
        ensures
            self.buf << (n as u32) == bits(
                self.src@.take(self.byte_pos as int),
                self.pos() + n,
                64,
            ),
    {
        let loaded = self.src@.take(self.byte_pos as int);
        let rest = (64 - n) as nat;
        let p = self.pos();
        lemma_bits_split(loaded, p, n, rest);
        let hi = bits(loaded, p, n);
        let lo = bits(loaded, p + n, rest);
        assert(n + rest == 64);
        lemma_bits_bound(loaded, p + n, rest);
        lemma_bits_split(loaded, p + n, rest, n);
        lemma_bits_past_end(loaded, p + 64, n);
        assert(bits(loaded, p + n, 64) == lo * pow2(n)) by {
            assert(rest + n == 64);
            assert(p + n + rest == p + 64);
        }
        lemma_shl_drops_high(self.buf, n, hi, lo);
    }
}

/// A left shift of a 64-bit value drops the leading bits.
proof fn lemma_shl_drops_high(x: u64, n: nat, hi: nat, lo: nat)
    requires
        n < 64,
        lo < pow2((64 - n) as nat),
        x == hi * pow2((64 - n) as nat) + lo,
    ensures
        x << (n as u32) == lo * pow2(n),
{
    let k = n as u64;
    let keep = (64 - n) as nat;
    lemma2_to64();
    lemma2_to64_rest();
    lemma_pow2_pos(keep);
    lemma_pow2_pos(n);
    lemma_pow2_adds(keep, n);
    if n == 0 {
        assert(x << 0u64 == x) by (bit_vector);
        assert(hi * pow2(64) + lo < pow2(64));
        assert(hi == 0) by (nonlinear_arith)
            requires
                hi * pow2(64) + lo < pow2(64),
                pow2(64) > 0,
        ;
        assert(lo * 1 == lo);
    } else {
        let mask: u64 = (u64::MAX >> k);
        lemma_u64_shr_is_div(u64::MAX, k);
        assert(mask == pow2(keep) - 1) by {
            let a = pow2(keep) as int;
            let b = pow2(n) as int;
            assert(a * b == 0x1_0000_0000_0000_0000);
            assert(u64::MAX as int == b * (a - 1) + (b - 1)) by (nonlinear_arith)
                requires
                    a * b == 0x1_0000_0000_0000_0000,
            ;
            lemma_div_multiples_vanish_fancy(a - 1, b - 1, b);
        }
        let low: u64 = x & mask;
        lemma_u64_low_bits_mask_is_mod(x, keep);
        assert(low == x as nat % pow2(keep));
        assert(low == lo) by {
            let d = pow2(keep) as int;
            assert(hi as int * d == d * hi as int) by (nonlinear_arith);
            lemma_mod_multiples_vanish(hi as int, lo as int, d);
            lemma_small_mod(lo, pow2(keep));
        }
        assert(x << k == (x & (u64::MAX >> k)) << k) by (bit_vector)
            requires
                0 < k < 64,
        ;
        assert(lo * pow2(n) <= u64::MAX) by (nonlinear_arith)
            requires
                lo < pow2(keep),
                pow2(keep) * pow2(n) == 0x1_0000_0000_0000_0000,
                pow2(n) > 0,
        ;
        lemma_u64_shl_is_mul(low, k);
    }
    assert(x << k == x << (n as u32));
}

/// Loading one more byte behind `cap` buffered bits extends the prefix.
proof fn lemma_append_byte(src: Seq<u8>, k: int, cap: nat, buf: u64, byte: u64)
    requires
        0 <= k < src.len(),
        cap <= 56,
        cap <= 8 * k,
        byte == src[k],
        buf == bits(src.take(k), 8 * k - cap, 64),
    ensures
        buf | (byte << (56 - cap) as u32) == bits(src.take(k + 1), 8 * k - cap, 64),
{
    let before = src.take(k);
    let after = src.take(k + 1);
    let p = 8 * k - cap;
    let tail = (56 - cap) as nat;
    let room = (64 - cap) as nat;
    assert(after.take(k) =~= before);
    lemma2_to64();
    lemma2_to64_rest();
    lemma_pow2_pos(room);
    lemma_pow2_pos(tail);
    // Before: `cap` loaded bits, then zeros.
    lemma_bits_split(before, p, cap, room);
    lemma_bits_past_end(before, 8 * k, room);
    assert(cap + room == 64);
    let hi = bits(before, p, cap);
    assert(buf == hi * pow2(room));
    // After: the same bits, the byte, then zeros.
    lemma_bits_split(after, p, cap, room);
    lemma_bits_prefix(after, k, p, cap);
    lemma_bits_split(after, 8 * k, 8, tail);
    lemma_bits_byte(after, k);
    lemma_bits_past_end(after, 8 * k + 8, tail);
    assert(8 + tail == room);
    assert(bits(after, p, 64) == hi * pow2(room) + byte * pow2(tail));
    // The shifted byte lies in the zero part of the buffer.
    let shift = tail as u64;
    lemma_pow2_adds(8, tail);
    assert(byte * pow2(tail) < pow2(room)) by (nonlinear_arith)
        requires
            byte < 256,
            pow2(8) == 256,
            pow2(room) == pow2(8) * pow2(tail),
            pow2(tail) > 0,
    ;
    assert(pow2(room) <= pow2(64)) by {
        if room < 64 {
            lemma_pow2_strictly_increases(room, 64);
        }
    }
    lemma_u64_shl_is_mul(byte, shift);
    let low: u64 = byte << shift;
    if cap == 0 {
        assert(hi == 0);
        assert(hi * pow2(room) == 0) by (nonlinear_arith)
            requires
                hi == 0,
        ;
        assert(0u64 | low == low) by (bit_vector);
    } else {
        let mask: u64 = (pow2(room) - 1) as u64;
        lemma_u64_low_bits_mask_is_mod(buf, room);
        lemma_u64_low_bits_mask_is_mod(low, room);
        assert(pow2(room) < pow2(64)) by {
            lemma_pow2_strictly_increases(room, 64);
        }
        assert(mask == low_bits_mask(room));
        lemma_mod_multiples_basic(hi as int, pow2(room) as int);
        lemma_small_mod(low as nat, pow2(room));
        assert(buf & mask == 0);
        assert(low & mask == low);
        assert(buf | low == buf + low) by (bit_vector)
            requires
                buf & mask == 0,
                low & mask == low,
        ;
    }
    assert(byte << shift == byte << (56 - cap) as u32);
}

} // verus!
