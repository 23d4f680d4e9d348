//! 32-bit big-endian word packing for the GPU bitstream input.
//!
//! The kernels read the entropy-coded segment as a buffer of `u32` words in
//! big-endian bit order: bit 31 of word 0 is the first bit of the stream.
//! `length_bits` carries the exact bit count, so that the tail word's
//! remaining bits are never decoded.

use crate::bits::{
    bit, bits, lemma_bits_bound, lemma_bits_byte, lemma_bits_past_end, lemma_bits_split,
};
use vstd::arithmetic::div_mod::*;
use vstd::arithmetic::power2::*;
use vstd::bits::*;
use vstd::prelude::*;

verus! {

/// Packed bitstream ready for upload to the GPU.
#[derive(Debug, Clone, PartialEq, Eq)]
pub struct PackedBitstream {
    /// Big-endian 32-bit words. The first bit of the stream is bit 31
    /// of `words[0]`.
    pub words: Vec<u32>,
    /// Exact bit count of the stream. Always `<= words.len() * 32` in a
    /// stream that [`pack_be_words`] made.
    pub length_bits: u32,
}

/// Byte `k` of a word, counted from the most significant one.
pub open spec fn word_byte(w: u32, k: int) -> u8 {
    if k == 0 {
        (w / 0x100_0000) as u8
    } else if k == 1 {
        ((w / 0x1_0000) % 0x100) as u8
    } else if k == 2 {
        ((w / 0x100) % 0x100) as u8
    } else {
        (w % 0x100) as u8
    }
}

/// The bytes of the words, each word most significant byte first.
pub open spec fn words_bytes(words: Seq<u32>) -> Seq<u8> {
    Seq::new(4 * words.len(), |i: int| word_byte(words[i / 4], i % 4))
}

/// The word of four big-endian bytes at `start`; absent bytes are zero.
pub open spec fn be_word(bytes: Seq<u8>, start: int) -> u32 {
    (byte_or_zero(bytes, start) * 0x100_0000 + byte_or_zero(bytes, start + 1) * 0x1_0000
        + byte_or_zero(bytes, start + 2) * 0x100 + byte_or_zero(bytes, start + 3)) as u32
}

/// Byte `i`, or zero where there is none.
pub open spec fn byte_or_zero(bytes: Seq<u8>, i: int) -> u8 {
    if 0 <= i < bytes.len() {
        bytes[i]
    } else {
        0
    }
}

/// The words that carry `length_bits` bits of `bytes`.
pub open spec fn packed_words(bytes: Seq<u8>, length_bits: nat) -> Seq<u32> {
    Seq::new((length_bits + 31) / 32, |i: int| be_word(bytes, 4 * i))
}

impl PackedBitstream {
    /// All bits the words hold, as a byte string.
    pub open spec fn bytes(&self) -> Seq<u8> {
        words_bytes(self.words@)
    }

    /// The whole bytes that `length_bits` covers.
    pub open spec fn stream_bytes(&self) -> Seq<u8> {
        let whole = (self.length_bits / 8) as int;
        if whole <= self.bytes().len() {
            self.bytes().take(whole)
        } else {
            self.bytes()
        }
    }

    /// Unpack back to the byte stream the words were built from,
    /// truncated to the whole bytes `length_bits` covers — the final
    /// word's padding is not part of the stream and must not be
    /// readable (it can mask genuine truncation).
    #[must_use]
    pub fn unpack_bytes(&self) -> (bytes: Vec<u8>)
        ensures
            bytes@ == self.stream_bytes(),
    {
        let byte_len: u32 = self.length_bits / 8;
        let mut bytes: Vec<u8> = Vec::new();
        let mut done: u32 = 0;
        let mut i: usize = 0;
        while i < self.words.len() && done < byte_len
            invariant
                i <= self.words@.len(),
                byte_len == self.length_bits / 8,
                done <= byte_len,
                bytes@.len() == done,
                done <= 4 * i,
                done < byte_len ==> done == 4 * i,
                forall|j: int| 0 <= j < done ==> bytes@[j] == self.bytes()[j],
            decreases self.words@.len() - i,
        {
            let word: u32 = self.words[i];
            let mut k: u32 = 0;
            while k < 4 && done < byte_len
                invariant
                    k <= 4,
                    i < self.words@.len(),
                    word == self.words@[i as int],
                    byte_len == self.length_bits / 8,
                    done <= byte_len,
                    bytes@.len() == done,
                    done == 4 * i + k,
                    forall|j: int| 0 <= j < done ==> bytes@[j] == self.bytes()[j],
                decreases 4 - k,
            {
                bytes.push(byte_of(word, k));
                assert((4 * i + k) / 4 == i && (4 * i + k) % 4 == k);
                done = done + 1;
                k = k + 1;
            }
            i = i + 1;
        }
        assert(bytes@ =~= self.stream_bytes());
        bytes
    }
}

fn byte_of(word: u32, k: u32) -> (b: u8)
    requires
        k < 4,
    ensures
        b == word_byte(word, k as int),
{
    match k {
        0 => (word / 0x100_0000) as u8,
        1 => ((word / 0x1_0000) % 0x100) as u8,
        2 => ((word / 0x100) % 0x100) as u8,
        _ => (word % 0x100) as u8,
    }
}

fn byte_at(bytes: &[u8], i: usize) -> (b: u8)
    ensures
        b == byte_or_zero(bytes@, i as int),
{
    if i < bytes.len() {
        bytes[i]
    } else {
        0
    }
}

/// Pack `bits` into big-endian 32-bit words (MSB-first within bytes).
///
/// `length_bits` is the meaningful prefix length the GPU kernel will honour.
/// The final word carries whatever bytes of `bits` it reaches and zeros past
/// the end of `bits`; bits past `length_bits` are not part of the stream.
#[must_use]
pub fn pack_be_words(bits: &[u8], length_bits: u32) -> (stream: PackedBitstream)
    requires
        length_bits <= 8 * bits@.len(),
    ensures
        stream.length_bits == length_bits,
        stream.words@ == packed_words(bits@, length_bits as nat),
{
    let word_count: usize = length_bits as usize / 32 + (if length_bits % 32 == 0 {
        0
    } else {
        1
    });
    let mut words: Vec<u32> = Vec::with_capacity(word_count);
    let mut i: usize = 0;
    while i < word_count
        invariant
            i <= word_count <= 0x800_0000,
            words@.len() == i,
            forall|j: int| 0 <= j < i ==> words@[j] == be_word(bits@, 4 * j),
        decreases word_count - i,
    {
        let start: usize = 4 * i;
        let word: u32 = byte_at(bits, start) as u32 * 0x100_0000 + byte_at(bits, start + 1) as u32
            * 0x1_0000 + byte_at(bits, start + 2) as u32 * 0x100 + byte_at(
            bits,
            start + 3,
        ) as u32;
        words.push(word);
        i = i + 1;
    }
    assert(word_count == (length_bits + 31) / 32);
    assert(words@ =~= packed_words(bits@, length_bits as nat));
    PackedBitstream { words, length_bits }
}

/// Peek 16 bits starting at absolute `bit_pos`, MSB-first, padding
/// with zeros past the end of the buffer.
///
/// The result is right-aligned, so that a codebook look-up can index it
/// directly.  Bits past `length_bits` are returned as the words hold them;
/// the caller keeps to the length.
#[must_use]
pub fn peek16(stream: &PackedBitstream, bit_pos: u64) -> (prefix: u16)
    ensures
        prefix == bits(stream.bytes(), bit_pos as int, 16),
{
    let word_idx: u64 = bit_pos / 32;
    let bit_in_word: u64 = bit_pos % 32;
    let count: u64 = stream.words.len() as u64;
    let hi: u64 = if word_idx < count {
        stream.words[word_idx as usize] as u64
    } else {
        0
    };
    let lo: u64 = if word_idx + 1 < count {
        stream.words[(word_idx + 1) as usize] as u64
    } else {
        0
    };
    let combined: u64 = hi * 0x1_0000_0000 + lo;
    let shift: u64 = 48 - bit_in_word;
    proof {
        lemma_peek(stream.words@, word_idx as int, bit_in_word as nat, hi, lo);
        lemma_u64_shr_is_div(combined, shift);
    }
    ((combined >> shift) % 0x1_0000) as u16
}

proof fn lemma_word_is_its_bytes(w: u32)
    ensures
        w == word_byte(w, 0) * 0x100_0000 + word_byte(w, 1) * 0x1_0000 + word_byte(w, 2) * 0x100
            + word_byte(w, 3),
{
    assert(w / 0x100_0000 < 0x100);
    assert(w == (w / 0x100_0000) * 0x100_0000 + ((w / 0x1_0000) % 0x100) * 0x1_0000 + ((w / 0x100)
        % 0x100) * 0x100 + w % 0x100) by (bit_vector);
}

proof fn lemma_be_word_byte(bytes: Seq<u8>, start: int, k: int)
    requires
        0 <= k < 4,
    ensures
        word_byte(be_word(bytes, start), k) == byte_or_zero(bytes, start + k),
{
    let b0 = byte_or_zero(bytes, start) as u32;
    let b1 = byte_or_zero(bytes, start + 1) as u32;
    let b2 = byte_or_zero(bytes, start + 2) as u32;
    let b3 = byte_or_zero(bytes, start + 3) as u32;
    let x = (b0 * 0x100_0000 + b1 * 0x1_0000 + b2 * 0x100 + b3) as u32;
    assert(x == be_word(bytes, start));
    assert(x / 0x100_0000 == b0 && (x / 0x1_0000) % 0x100 == b1 && (x / 0x100) % 0x100 == b2 && x
        % 0x100 == b3) by (bit_vector)
        requires
            b0 < 0x100,
            b1 < 0x100,
            b2 < 0x100,
            b3 < 0x100,
            x == (b0 * 0x100_0000 + b1 * 0x1_0000 + b2 * 0x100 + b3) as u32,
    ;
}

/// 32 bits on a word boundary are that word.
pub proof fn lemma_bits_word(words: Seq<u32>, i: int)
    requires
        0 <= i,
    ensures
        bits(words_bytes(words), 32 * i, 32) == (if i < words.len() {
            words[i]
        } else {
            0
        }),
{
    let s = words_bytes(words);
    if i < words.len() {
        let w = words[i];
        lemma2_to64();
        lemma_bits_split(s, 32 * i, 8, 24);
        lemma_bits_split(s, 32 * i + 8, 8, 16);
        lemma_bits_split(s, 32 * i + 16, 8, 8);
        assert((4 * i + 0) / 4 == i && (4 * i + 0) % 4 == 0);
        assert((4 * i + 1) / 4 == i && (4 * i + 1) % 4 == 1);
        assert((4 * i + 2) / 4 == i && (4 * i + 2) % 4 == 2);
        assert((4 * i + 3) / 4 == i && (4 * i + 3) % 4 == 3);
        lemma_bits_byte(s, 4 * i);
        lemma_bits_byte(s, 4 * i + 1);
        lemma_bits_byte(s, 4 * i + 2);
        lemma_bits_byte(s, 4 * i + 3);
        assert(8 * (4 * i) == 32 * i);
        assert(8 * (4 * i + 1) == 32 * i + 8);
        assert(8 * (4 * i + 2) == 32 * i + 16);
        assert(8 * (4 * i + 3) == 32 * i + 24);
        lemma_word_is_its_bytes(w);
    } else {
        lemma_bits_past_end(s, 32 * i, 32);
    }
}

proof fn lemma_peek(words: Seq<u32>, i: int, k: nat, hi: u64, lo: u64)
    requires
        0 <= i,
        k < 32,
        hi == (if i < words.len() {
            words[i]
        } else {
            0
        }),
        lo == (if i + 1 < words.len() {
            words[i + 1]
        } else {
            0
        }),
    ensures
        ((hi * 0x1_0000_0000 + lo) as nat / pow2((48 - k) as nat)) % 0x1_0000 == bits(
            words_bytes(words),
            32 * i + k,
            16,
        ),
{
    let s = words_bytes(words);
    let p = 32 * i;
    let v = bits(s, p, 64);
    lemma2_to64();
    lemma_bits_word(words, i);
    lemma_bits_word(words, i + 1);
    lemma_bits_split(s, p, 32, 32);
    assert(32 * (i + 1) == p + 32);
    assert(v == hi * 0x1_0000_0000 + lo);
    // Cut the 64 bits into k, 16 and the rest.
    let rest = (48 - k) as nat;
    lemma_bits_split(s, p, k + 16, rest);
    assert(k + 16 + rest == 64);
    let head = bits(s, p, k + 16);
    let tail = bits(s, p + (k + 16), rest);
    lemma_bits_bound(s, p + (k + 16), rest);
    lemma_div_multiples_vanish_fancy(head as int, tail as int, pow2(rest) as int);
    assert(head * pow2(rest) == pow2(rest) * head) by (nonlinear_arith);
    assert(v / pow2(rest) == head);
    lemma_bits_split(s, p, k, 16);
    let lead = bits(s, p, k);
    let window = bits(s, p + k, 16);
    lemma_bits_bound(s, p + k, 16);
    assert(head == lead * 0x1_0000 + window);
    assert(head % 0x1_0000 == window);
}

/// Byte `k` of packed words is byte `k` of the source, or zero behind it.
pub proof fn lemma_packed_byte(bytes: Seq<u8>, length_bits: nat, k: int)
    requires
        0 <= k < words_bytes(packed_words(bytes, length_bits)).len(),
    ensures
        words_bytes(packed_words(bytes, length_bits))[k] == byte_or_zero(bytes, k),
{
    let w = k / 4;
    assert(packed_words(bytes, length_bits)[w] == be_word(bytes, 4 * w));
    lemma_be_word_byte(bytes, 4 * w, k % 4);
}

/// Packing whole bytes and unpacking them gives the bytes back.
pub proof fn law_unpack_inverts_pack(bytes: Seq<u8>, stream: PackedBitstream)
    requires
        stream.length_bits <= 8 * bytes.len(),
        stream.words@ == packed_words(bytes, stream.length_bits as nat),
    ensures
        stream.stream_bytes() == bytes.take((stream.length_bits / 8) as int),
{
    let n = (stream.length_bits / 8) as int;
    assert forall|i: int| 0 <= i < n implies stream.bytes()[i] == bytes[i] by {
        let w = i / 4;
        assert(0 <= w < stream.words@.len());
        assert(stream.words@[w] == be_word(bytes, 4 * w));
        lemma_be_word_byte(bytes, 4 * w, i % 4);
    }
    assert(stream.stream_bytes() =~= bytes.take(n));
}

/// A packed stream holds the same bits as the bytes it was packed from: a
/// peek into the words sees what a peek into the bytes sees.
pub proof fn law_packed_bits_are_the_bytes_bits(
    bytes: Seq<u8>,
    stream: PackedBitstream,
    p: int,
    n: nat,
)
    requires
        stream.length_bits <= 8 * bytes.len(),
        stream.words@ == packed_words(bytes, stream.length_bits as nat),
        0 <= p,
        p + n <= stream.length_bits,
    ensures
        bits(stream.bytes(), p, n) == bits(bytes, p, n),
{
    assert forall|i: int| 0 <= i < n implies #[trigger] bit(stream.bytes(), p + i) == bit(
        bytes,
        p + i,
    ) by {
        let k = (p + i) / 8;
        let w = k / 4;
        assert(0 <= w < stream.words@.len());
        assert(stream.words@[w] == be_word(bytes, 4 * w));
        lemma_be_word_byte(bytes, 4 * w, k % 4);
        assert(stream.bytes()[k] == bytes[k]);
    }
    crate::bits::lemma_bits_agree(stream.bytes(), bytes, p, p, n);
}

proof fn lemma_bits_of_byte(bytes: Seq<u8>, k: int)
    requires
        0 <= k,
    ensures
        bits(bytes, 8 * k, 8) == byte_or_zero(bytes, k),
{
    if k < bytes.len() {
        crate::bits::lemma_bits_byte(bytes, k);
    } else {
        crate::bits::lemma_bits_past_end(bytes, 8 * k, 8);
    }
}

/// Word `w` of a packed stream is the number that the stream's bits from bit
/// `32 w` on spell, its first bit the most significant; there are words for
/// all bits and none too many.
pub proof fn law_words_spell_the_bits(bytes: Seq<u8>, length_bits: nat, w: int)
    requires
        0 <= w < packed_words(bytes, length_bits).len(),
    ensures
        packed_words(bytes, length_bits)[w] == bits(bytes, 32 * w, 32),
        length_bits <= 32 * packed_words(bytes, length_bits).len() < length_bits + 32,
{
    vstd::arithmetic::power2::lemma2_to64();
    let p = 32 * w;
    crate::bits::lemma_bits_split(bytes, p, 24, 8);
    crate::bits::lemma_bits_split(bytes, p, 16, 8);
    crate::bits::lemma_bits_split(bytes, p, 8, 8);
    lemma_bits_of_byte(bytes, 4 * w);
    lemma_bits_of_byte(bytes, 4 * w + 1);
    lemma_bits_of_byte(bytes, 4 * w + 2);
    lemma_bits_of_byte(bytes, 4 * w + 3);
    assert(8 * (4 * w) == p && 8 * (4 * w + 1) == p + 8 && 8 * (4 * w + 2) == p + 16 && 8 * (4 * w
        + 3) == p + 24);
}

} // verus!
