//! Blocks as they are coded into a scan, and that they are decoded.
//!
//! A block is its 64 coefficients in zigzag order.  Its first is coded as a
//! difference, the others as runs of zeros that end in a value.

use super::canonical::{
    built_table, canonical_code, code_lengths, law_lookup_finds_the_code, lemma_code_lengths_wf,
    span, CanonicalEntry,
};
use super::dc_chain::{ac_skipped, dc_delta, DcChainError};
use super::entropy::{code_at, extended, CodeRead};
use crate::bits::{bits, lemma_bits_bound, lemma_bits_split};
use vstd::arithmetic::div_mod::*;
use vstd::arithmetic::power2::*;
use vstd::prelude::*;

verus! {

/// A Huffman table in wire form: codes of each length, and the symbols.
pub struct CodeDef {
    pub num_codes: Seq<u8>,
    pub values: Seq<u8>,
}

impl CodeDef {
    /// A table that can be built.
    pub open spec fn sound(self) -> bool {
        self.num_codes.len() == 16 && built_table(self.num_codes, self.values) is Ok
    }

    /// The codebook that decodes it.
    pub open spec fn table(self) -> Seq<CanonicalEntry> {
        built_table(self.num_codes, self.values)->Ok_0
    }

    /// Lengths of its codes.
    pub open spec fn lengths(self) -> Seq<u8> {
        code_lengths(self.num_codes, 16)
    }
}

/// Code `k` of the table stands at bit `p`.
pub open spec fn code_stands(src: Seq<u8>, p: int, d: CodeDef, k: nat) -> bool {
    &&& k < d.lengths().len()
    &&& bits(src, p, d.lengths()[k as int] as nat) == canonical_code(d.lengths(), k)
    &&& p + d.lengths()[k as int] <= 8 * src.len()
}

/// A code of `symbol` stands at bit `p` and ends at `q`.
pub open spec fn symbol_stands(src: Seq<u8>, p: int, d: CodeDef, symbol: int, q: int) -> bool {
    exists|k: nat| #[trigger]
        code_stands(src, p, d, k) && d.values[k as int] == symbol && q == p + d.lengths()[k as int]
}

/// Bits it takes to write `n`.
pub open spec fn bit_length(n: nat) -> nat
    decreases n,
{
    if n == 0 {
        0
    } else {
        1 + bit_length(n / 2)
    }
}

/// Size category of a value: the bits of its absolute value.
pub open spec fn category(v: int) -> nat {
    bit_length(
        if v < 0 {
            (-v) as nat
        } else {
            v as nat
        },
    )
}

/// The bits that tell a value from the others of its category: a positive
/// value is written as it is, a negative one as the ones' complement of its
/// absolute value.
pub open spec fn value_bits(v: int) -> int {
    if v < 0 {
        pow2(category(v)) - 1 - (-v)
    } else {
        v
    }
}

/// The bits of `v` stand at bit `p`.
pub open spec fn value_stands(src: Seq<u8>, p: int, v: int) -> bool {
    &&& bits(src, p, category(v)) == value_bits(v)
    &&& p + category(v) <= 8 * src.len()
}

/// Zeros of `block` from `zz` on up to the next other coefficient.
pub open spec fn zero_run(block: Seq<i32>, zz: nat) -> nat
    decreases 64 - zz,
{
    if zz >= 64 || block[zz as int] != 0 {
        0
    } else {
        1 + zero_run(block, zz + 1)
    }
}

/// The coefficients of `block` from `zz` on stand at bit `p` and end at `q`:
/// for each that is not zero a code of the zeros before it and its category,
/// then its bits; a code of its own for sixteen zeros; and another for a
/// block that ends in zeros.
pub open spec fn ac_stands(
    src: Seq<u8>,
    p: int,
    d: CodeDef,
    block: Seq<i32>,
    zz: nat,
    q: int,
) -> bool
    decreases 64 - zz,
{
    let run = zero_run(block, zz);
    if zz >= 64 {
        p == q
    } else if zz + run >= 64 {
        symbol_stands(src, p, d, 0, q)
    } else if run >= 16 {
        exists|m: int| #[trigger]
            symbol_stands(src, p, d, 0xF0, m) && ac_stands(src, m, d, block, zz + 16, q)
    } else {
        let v = block[(zz + run) as int] as int;
        exists|m: int| #[trigger]
            symbol_stands(src, p, d, 16 * run as int + category(v), m) && value_stands(src, m, v)
                && ac_stands(src, m + category(v), d, block, zz + run + 1, q)
    }
}

/// The difference `diff` stands at bit `p` and ends at `q`: a code of its
/// category, then its bits.
pub open spec fn dc_stands(src: Seq<u8>, p: int, d: CodeDef, diff: int, q: int) -> bool {
    exists|m: int| #[trigger]
        symbol_stands(src, p, d, category(diff) as int, m) && value_stands(src, m, diff) && q == m
            + category(diff)
}

/// A block within the baseline limits.
pub open spec fn block_codable(block: Seq<i32>) -> bool {
    &&& block.len() == 64
    &&& forall|z: int| 1 <= z < 64 ==> category(#[trigger] block[z] as int) <= 15
}

pub proof fn lemma_bit_length(n: nat)
    ensures
        n < pow2(bit_length(n)),
        n > 0 ==> bit_length(n) > 0 && pow2((bit_length(n) - 1) as nat) <= n,
    decreases n,
{
    lemma2_to64();
    if n > 0 {
        lemma_bit_length(n / 2);
        lemma_pow2_unfold(bit_length(n));
        if n / 2 > 0 {
            lemma_pow2_unfold((bit_length(n) - 1) as nat);
        }
    }
}

/// The bits of a value, sign-extended, are the value again: what is written
/// of a coefficient is read back.
pub proof fn law_value_bits_extend_to_the_value(v: int)
    ensures
        0 <= value_bits(v) < pow2(category(v)),
        extended(value_bits(v), category(v)) == v,
{
    let n = if v < 0 {
        (-v) as nat
    } else {
        v as nat
    };
    lemma2_to64();
    lemma_bit_length(n);
    if n > 0 {
        lemma_pow2_unfold(category(v));
    }
}

/// A symbol that stands is read.
pub proof fn lemma_symbol_read(src: Seq<u8>, p: int, d: CodeDef, symbol: int, q: int)
    requires
        d.sound(),
        symbol_stands(src, p, d, symbol, q),
    ensures
        ({
            let e = d.table()[bits(src, p, 16) as int];
            &&& e.symbol == symbol
            &&& 1 <= e.num_bits <= 16
            &&& q == p + e.num_bits
            &&& q <= 8 * src.len()
            &&& code_at(src, p, d.table()) == CodeRead::Code(e)
        }),
{
    let lens = d.lengths();
    let k = choose|k: nat| #[trigger]
        code_stands(src, p, d, k) && d.values[k as int] == symbol && q == p + d.lengths()[k as int];
    lemma_code_lengths_wf(d.num_codes, 16);
    let len = lens[k as int] as nat;
    let x = bits(src, p, 16);
    lemma2_to64();
    lemma_bits_bound(src, p, 16);
    lemma_bits_split(src, p, len, (16 - len) as nat);
    lemma_bits_bound(src, p + len, (16 - len) as nat);
    lemma_pow2_pos((16 - len) as nat);
    lemma_fundamental_div_mod_converse(
        x as int,
        span(lens[k as int]) as int,
        bits(src, p, len) as int,
        bits(src, p + len, (16 - len) as nat) as int,
    );
    law_lookup_finds_the_code(d.num_codes, d.values, k, x);
}

/// A run of zeros ends at another coefficient or at the end of the block.
pub proof fn lemma_zero_run(block: Seq<i32>, zz: nat)
    requires
        zz <= 64,
    ensures
        zz + zero_run(block, zz) <= 64,
        zz + zero_run(block, zz) < 64 ==> block[(zz + zero_run(block, zz)) as int] != 0,
        forall|z: int| zz <= z < zz + zero_run(block, zz) ==> #[trigger] block[z] == 0,
    decreases 64 - zz,
{
    if zz < 64 && block[zz as int] == 0 {
        lemma_zero_run(block, zz + 1);
    }
}

/// The coded coefficients are skipped over to their end.
pub proof fn lemma_ac_skipped(
    src: Seq<u8>,
    p: int,
    d: CodeDef,
    block: Seq<i32>,
    zz: nat,
    q: int,
    mcu: u32,
    comp: u8,
)
    requires
        d.sound(),
        block_codable(block),
        1 <= zz <= 64,
        ac_stands(src, p, d, block, zz, q),
    ensures
        ac_skipped(src, p, d.table(), zz, mcu, comp) == Ok::<int, DcChainError>(q),
    decreases 64 - zz,
{
    let run = zero_run(block, zz);
    lemma_zero_run(block, zz);
    if zz < 64 {
        if zz + run >= 64 {
            lemma_symbol_read(src, p, d, 0, q);
        } else if run >= 16 {
            let m = choose|m: int| #[trigger]
                symbol_stands(src, p, d, 0xF0, m) && ac_stands(src, m, d, block, zz + 16, q);
            lemma_symbol_read(src, p, d, 0xF0, m);
            lemma_ac_skipped(src, m, d, block, zz + 16, q, mcu, comp);
        } else {
            let v = block[(zz + run) as int] as int;
            let n = category(v);
            let m = choose|m: int| #[trigger]
                symbol_stands(src, p, d, 16 * run as int + n, m) && value_stands(src, m, v)
                    && ac_stands(src, m + n, d, block, zz + run + 1, q);
            assert(n <= 15 && n > 0) by {
                lemma_bit_length(
                    if v < 0 {
                        (-v) as nat
                    } else {
                        v as nat
                    },
                );
            }
            lemma_symbol_read(src, p, d, 16 * run as int + n, m);
            lemma_ac_skipped(src, m + n, d, block, zz + run + 1, q, mcu, comp);
        }
    }
}

/// A coded difference is decoded, whatever stands around it.
pub proof fn law_coded_difference_is_decoded(
    src: Seq<u8>,
    p: int,
    d: CodeDef,
    diff: int,
    q: int,
    mcu: u32,
    comp: u8,
)
    requires
        d.sound(),
        -2047 <= diff <= 2047,
        dc_stands(src, p, d, diff, q),
    ensures
        dc_delta(src, p, d.table(), mcu, comp) == Ok::<(i32, int), DcChainError>(
            (diff as i32, q),
        ),
{
    let n = category(diff);
    let m = choose|m: int| #[trigger]
        symbol_stands(src, p, d, n as int, m) && value_stands(src, m, diff) && q == m + n;
    lemma_symbol_read(src, p, d, n as int, m);
    law_value_bits_extend_to_the_value(diff);
    let a = if diff < 0 {
        (-diff) as nat
    } else {
        diff as nat
    };
    lemma_bit_length(a);
    if n > 11 {
        lemma2_to64();
        if n > 12 {
            lemma_pow2_strictly_increases(11, (n - 1) as nat);
        }
    }
}

/// A coded block is decoded: its difference comes out, and the walk stands
/// behind its last coefficient.
pub proof fn lemma_block_walked(
    src: Seq<u8>,
    p: int,
    dc: CodeDef,
    ac: CodeDef,
    diff: int,
    block: Seq<i32>,
    q: int,
    mcu: u32,
    comp: u8,
) -> (m: int)
    requires
        dc.sound(),
        ac.sound(),
        -2047 <= diff <= 2047,
        block_codable(block),
        block_stands(src, p, dc, ac, diff, block, q),
    ensures
        dc_stands(src, p, dc, diff, m),
        ac_stands(src, m, ac, block, 1, q),
        dc_delta(src, p, dc.table(), mcu, comp) == Ok::<(i32, int), DcChainError>(
            (diff as i32, m),
        ),
        ac_skipped(src, m, ac.table(), 1, mcu, comp) == Ok::<int, DcChainError>(q),
{
    let m = choose|m: int| #[trigger]
        dc_stands(src, p, dc, diff, m) && ac_stands(src, m, ac, block, 1, q);
    law_coded_difference_is_decoded(src, p, dc, diff, m, mcu, comp);
    lemma_ac_skipped(src, m, ac, block, 1, q, mcu, comp);
    m
}

/// A block stands at bit `p` and ends at `q`: its difference, then its other
/// coefficients.
pub open spec fn block_stands(
    src: Seq<u8>,
    p: int,
    dc: CodeDef,
    ac: CodeDef,
    diff: int,
    block: Seq<i32>,
    q: int,
) -> bool {
    exists|m: int| #[trigger]
        dc_stands(src, p, dc, diff, m) && ac_stands(src, m, ac, block, 1, q)
}

/// A difference whose code names a category above 11 is refused, whatever
/// follows it.
pub proof fn law_wide_differences_are_refused(
    src: Seq<u8>,
    p: int,
    d: CodeDef,
    symbol: u8,
    q: int,
    mcu: u32,
    comp: u8,
)
    requires
        d.sound(),
        symbol > 11,
        symbol_stands(src, p, d, symbol as int, q),
    ensures
        dc_delta(src, p, d.table(), mcu, comp) == Err::<(i32, int), DcChainError>(
            DcChainError::BadDcCategory { category: symbol },
        ),
{
    lemma_symbol_read(src, p, d, symbol as int, q);
}

/// A run that leads behind the last coefficient of the block is refused.
pub proof fn law_long_runs_are_refused(
    src: Seq<u8>,
    p: int,
    d: CodeDef,
    zz: nat,
    run: nat,
    size: nat,
    q: int,
    mcu: u32,
    comp: u8,
)
    requires
        d.sound(),
        1 <= zz < 64,
        run < 16,
        0 < size < 16,
        zz + run >= 64,
        symbol_stands(src, p, d, 16 * run as int + size, q),
    ensures
        ac_skipped(src, p, d.table(), zz, mcu, comp) == Err::<int, DcChainError>(
            DcChainError::AcOverflow { mcu_index: mcu },
        ),
{
    lemma_symbol_read(src, p, d, 16 * run as int + size, q);
}

/// Where the stream ends, there is neither a difference nor a coefficient;
/// and bits that spell no code are none of either.
pub proof fn law_nothing_is_read_without_a_code(
    src: Seq<u8>,
    p: int,
    table: Seq<CanonicalEntry>,
    zz: nat,
    mcu: u32,
    comp: u8,
)
    requires
        1 <= zz < 64,
    ensures
        p >= 8 * src.len() ==> {
            let e = DcChainError::UnexpectedEnd { mcu_index: mcu, component_index: comp };
            &&& dc_delta(src, p, table, mcu, comp) == Err::<(i32, int), DcChainError>(e)
            &&& ac_skipped(src, p, table, zz, mcu, comp) == Err::<int, DcChainError>(e)
        },
        p < 8 * src.len() && table[bits(src, p, 16) as int].num_bits == 0 ==> {
            let e = DcChainError::InvalidCode { mcu_index: mcu, component_index: comp };
            &&& dc_delta(src, p, table, mcu, comp) == Err::<(i32, int), DcChainError>(e)
            &&& ac_skipped(src, p, table, zz, mcu, comp) == Err::<int, DcChainError>(e)
        },
{
}

} // verus!
