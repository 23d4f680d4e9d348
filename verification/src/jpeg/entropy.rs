//! Entropy-coded symbols: the decoding step that every scan walker shares.

use super::bitreader::BitReader;
use super::canonical::{CanonicalCodebook, CanonicalEntry};
use crate::bits::bits;
use vstd::arithmetic::power2::*;
use vstd::bits::*;
use vstd::prelude::*;

verus! {

/// What the bits at a position decode to.
pub enum CodeRead {
    /// The stream ends before the codeword does.
    End,
    /// No codeword begins like this.
    Miss,
    /// A codeword of the table.
    Code(CanonicalEntry),
}

/// The codeword of `table` at bit `pos` of `src`.  The look-up sees zeros
/// past the end of the stream, so a match may be longer than what remains.
pub open spec fn code_at(src: Seq<u8>, pos: int, table: Seq<CanonicalEntry>) -> CodeRead {
    if pos >= 8 * src.len() {
        CodeRead::End
    } else {
        let entry = table[bits(src, pos, 16) as int];
        if entry.num_bits == 0 {
            CodeRead::Miss
        } else if pos + entry.num_bits > 8 * src.len() {
            CodeRead::End
        } else {
            CodeRead::Code(entry)
        }
    }
}

/// The signed value of an `nbits`-wide magnitude: its lower half stands for
/// the negative numbers.
pub open spec fn extended(value: int, nbits: nat) -> int {
    if nbits == 0 {
        0
    } else if value < pow2((nbits - 1) as nat) {
        value - pow2(nbits) + 1
    } else {
        value
    }
}

/// JPEG `EXTEND` operation: sign-extends an `nbits`-wide unsigned magnitude
/// into a signed integer.  Zero bits give zero.
pub fn extend(value: i32, nbits: u8) -> (v: i32)
    requires
        0 <= value,
        nbits <= 31,
    ensures
        v == extended(value as int, nbits as nat),
{
    if nbits == 0 {
        return 0;
    }
    let below: u32 = (nbits - 1) as u32;
    proof {
        lemma2_to64();
        lemma_u32_pow2_no_overflow(below as nat);
        if below < 31 {
            lemma_pow2_strictly_increases(below as nat, 31);
        }
        lemma_u32_shl_is_mul(1, below);
        assert(1 * pow2(below as nat) == pow2(below as nat));
        lemma_pow2_unfold(nbits as nat);
    }
    let half: u32 = 1u32 << below;
    if (value as u32) < half {
        (value as i64 - 2 * (half as i64) + 1) as i32
    } else {
        value
    }
}

/// Decode the next codeword, or say why there is none.  Only a decoded
/// codeword advances the reader.
pub fn read_code(reader: &mut BitReader<'_>, book: &CanonicalCodebook) -> (read: CodeRead)
    requires
        old(reader).wf(),
        book.wf(),
    ensures
        final(reader).wf(),
        final(reader).source() == old(reader).source(),
        read == code_at(old(reader).source(), old(reader).pos(), book@),
        final(reader).pos() == old(reader).pos() + match read {
            CodeRead::Code(entry) => entry.num_bits as int,
            _ => 0,
        },
        read matches CodeRead::Code(entry) ==> 1 <= entry.num_bits <= 16,
{
    proof {
        reader.lemma_wf();
    }
    match reader.peek_u16() {
        None => CodeRead::End,
        Some(prefix) => {
            let entry = book.lookup(prefix);
            if entry.num_bits == 0 {
                CodeRead::Miss
            } else if reader.try_consume(entry.num_bits as usize) {
                CodeRead::Code(entry)
            } else {
                CodeRead::End
            }
        },
    }
}

/// Magnitudes of `n` bits, extended, are exactly the numbers whose absolute
/// value needs `n` bits.
pub proof fn law_extend_range(value: int, nbits: nat)
    requires
        nbits > 0,
        0 <= value < pow2(nbits),
    ensures
        ({
            let v = extended(value, nbits);
            let a = if v < 0 {
                -v
            } else {
                v
            };
            pow2((nbits - 1) as nat) <= a < pow2(nbits)
        }),
{
    lemma_pow2_unfold(nbits);
}

/// Distinct magnitudes of one width stand for distinct values.
pub proof fn law_extend_is_injective(a: int, b: int, nbits: nat)
    requires
        nbits > 0,
        0 <= a < pow2(nbits),
        0 <= b < pow2(nbits),
        extended(a, nbits) == extended(b, nbits),
    ensures
        a == b,
{
    lemma_pow2_unfold(nbits);
}

} // verus!
