//! That a walk over a coded block ends at the next block.

use super::bitstream::PackedBitstream;
use super::jpeg_walk::{ac_index, dc_index, jpeg_step, jpeg_walked, ScanTables};
use super::phase1_oracle::{JpegStep, Phase1Stop, SubsequenceState};
use crate::jpeg::written_blocks::{
    ac_stands, block_codable, block_stands, category, dc_stands, lemma_bit_length,
    lemma_symbol_read, lemma_zero_run, symbol_stands, value_stands, zero_run, CodeDef,
};
use vstd::arithmetic::power2::*;
use vstd::prelude::*;

verus! {

/// Symbols that code the coefficients of `block` from `zz` on.
pub open spec fn ac_symbol_count(block: Seq<i32>, zz: nat) -> nat
    decreases 64 - zz,
{
    let run = zero_run(block, zz);
    if zz >= 64 {
        0
    } else if zz + run >= 64 {
        1
    } else if run >= 16 {
        1 + ac_symbol_count(block, zz + 16)
    } else {
        1 + ac_symbol_count(block, zz + run + 1)
    }
}

/// A block whose values are within the baseline limits of the walk.
pub open spec fn block_walkable(block: Seq<i32>) -> bool {
    &&& block_codable(block)
    &&& forall|z: int| 1 <= z < 64 ==> category(#[trigger] block[z] as int) <= 10
}

proof fn lemma_symbol_moves(src: Seq<u8>, p: int, d: CodeDef, symbol: int, q: int)
    requires
        d.sound(),
        symbol_stands(src, p, d, symbol, q),
    ensures
        p < q,
{
    lemma_symbol_read(src, p, d, symbol, q);
}

proof fn lemma_ac_moves(src: Seq<u8>, p: int, d: CodeDef, block: Seq<i32>, zz: nat, q: int)
    requires
        d.sound(),
        1 <= zz <= 64,
        ac_stands(src, p, d, block, zz, q),
    ensures
        p <= q,
        zz < 64 ==> p < q,
    decreases 64 - zz,
{
    let run = zero_run(block, zz);
    lemma_zero_run(block, zz);
    if zz < 64 {
        if zz + run >= 64 {
            lemma_symbol_moves(src, p, d, 0, q);
        } else if run >= 16 {
            let m = choose|m: int| #[trigger]
                symbol_stands(src, p, d, 0xF0, m) && ac_stands(src, m, d, block, zz + 16, q);
            lemma_symbol_moves(src, p, d, 0xF0, m);
            lemma_ac_moves(src, m, d, block, zz + 16, q);
        } else {
            let v = block[(zz + run) as int] as int;
            let n = category(v);
            let m = choose|m: int| #[trigger]
                symbol_stands(src, p, d, 16 * run as int + n, m) && value_stands(src, m, v)
                    && ac_stands(src, m + n, d, block, zz + run + 1, q);
            lemma_symbol_moves(src, p, d, 16 * run as int + n, m);
            lemma_ac_moves(src, m + n, d, block, zz + run + 1, q);
        }
    }
}

/// Where a walk stands behind a block.
pub open spec fn behind_block(
    s: SubsequenceState,
    t: ScanTables,
    q: int,
    symbols: nat,
) -> SubsequenceState {
    SubsequenceState {
        p: q as u32,
        n: (s.n + symbols) as u32,
        c: if s.c + 1 == t.schedule.len() {
            0
        } else {
            (s.c + 1) as u32
        },
        z: 0,
    }
}

proof fn lemma_ac_walked(
    s: SubsequenceState,
    stream: PackedBitstream,
    t: ScanTables,
    d: CodeDef,
    block: Seq<i32>,
    q: int,
)
    requires
        d.sound(),
        block_walkable(block),
        t.wf(),
        s.c < t.schedule.len(),
        t.schedule.len() <= u32::MAX,
        1 <= s.z < 64,
        t.ac[ac_index(t.schedule[s.c as int])] == d.table(),
        ac_stands(stream.bytes(), s.p as int, d, block, s.z as nat, q),
        q <= stream.length_bits,
        s.n + ac_symbol_count(block, s.z as nat) <= u32::MAX,
    ensures
        jpeg_walked(s, stream, t, q as u32, q as u32) == (
            behind_block(s, t, q, ac_symbol_count(block, s.z as nat)),
            Phase1Stop::HardLimit,
        ),
    decreases 64 - s.z,
{
    let src = stream.bytes();
    let zz = s.z as nat;
    let p = s.p as int;
    let run = zero_run(block, zz);
    lemma_zero_run(block, zz);
    lemma_ac_moves(src, p, d, block, zz, q);
    if zz + run >= 64 {
        lemma_symbol_read(src, p, d, 0, q);
        let next = behind_block(s, t, q, 1);
        assert(jpeg_step(s, stream, t, q as u32) == JpegStep::Advanced(next)) by {
            lemma_rotation(s.c as int, t.schedule.len() as int);
        }
        assert(jpeg_walked(next, stream, t, q as u32, q as u32) == (next, Phase1Stop::HardLimit));
    } else if run >= 16 {
        let m = choose|m: int| #[trigger]
            symbol_stands(src, p, d, 0xF0, m) && ac_stands(src, m, d, block, zz + 16, q);
        lemma_symbol_read(src, p, d, 0xF0, m);
        lemma_ac_moves(src, m, d, block, zz + 16, q);
        let next = SubsequenceState {
            p: m as u32,
            n: (s.n + 1) as u32,
            c: s.c,
            z: (s.z + 16) as u32,
        };
        assert(jpeg_step(s, stream, t, q as u32) == JpegStep::Advanced(next));
        lemma_ac_walked(next, stream, t, d, block, q);
    } else {
        let v = block[(zz + run) as int] as int;
        let n = category(v);
        let m = choose|m: int| #[trigger]
            symbol_stands(src, p, d, 16 * run as int + n, m) && value_stands(src, m, v)
                && ac_stands(src, m + n, d, block, zz + run + 1, q);
        assert(0 < n <= 10) by {
            lemma_bit_length(
                if v < 0 {
                    (-v) as nat
                } else {
                    v as nat
                },
            );
        }
        lemma_symbol_read(src, p, d, 16 * run as int + n, m);
        lemma_ac_moves(src, m + n, d, block, zz + run + 1, q);
        if zz + run + 1 == 64 {
            let next = behind_block(s, t, q, 1);
            assert(jpeg_step(s, stream, t, q as u32) == JpegStep::Advanced(next)) by {
                lemma_rotation(s.c as int, t.schedule.len() as int);
            }
            assert(ac_symbol_count(block, 64) == 0);
            assert(jpeg_walked(next, stream, t, q as u32, q as u32) == (
                next,
                Phase1Stop::HardLimit,
            ));
        } else {
            let next = SubsequenceState {
                p: (m + n) as u32,
                n: (s.n + 1) as u32,
                c: s.c,
                z: (zz + run + 1) as u32,
            };
            assert(jpeg_step(s, stream, t, q as u32) == JpegStep::Advanced(next));
            lemma_ac_walked(next, stream, t, d, block, q);
        }
    }
}

proof fn lemma_rotation(c: int, len: int)
    requires
        0 <= c < len,
    ensures
        (c + 1) % len == if c + 1 == len {
            0
        } else {
            c + 1
        },
{
    if c + 1 == len {
        vstd::arithmetic::div_mod::lemma_mod_self_0(len);
    } else {
        vstd::arithmetic::div_mod::lemma_small_mod((c + 1) as nat, len as nat);
    }
}

/// A walk over a coded block ends at the start of the next block of the
/// schedule, or at the first one behind the last, right behind the block's
/// bits, and has counted each of its symbols.
pub proof fn law_coded_blocks_are_walked(
    s: SubsequenceState,
    stream: PackedBitstream,
    t: ScanTables,
    dc: CodeDef,
    ac: CodeDef,
    diff: int,
    block: Seq<i32>,
    q: int,
)
    requires
        dc.sound(),
        ac.sound(),
        block_walkable(block),
        -2047 <= diff <= 2047,
        t.wf(),
        s.c < t.schedule.len(),
        t.schedule.len() <= u32::MAX,
        s.z == 0,
        t.dc[dc_index(t.schedule[s.c as int])] == dc.table(),
        t.ac[ac_index(t.schedule[s.c as int])] == ac.table(),
        block_stands(stream.bytes(), s.p as int, dc, ac, diff, block, q),
        q <= stream.length_bits,
        s.n + 1 + ac_symbol_count(block, 1) <= u32::MAX,
    ensures
        jpeg_walked(s, stream, t, q as u32, q as u32) == (
            behind_block(s, t, q, 1 + ac_symbol_count(block, 1)),
            Phase1Stop::HardLimit,
        ),
{
    let src = stream.bytes();
    let p = s.p as int;
    let m = choose|m: int| #[trigger]
        dc_stands(src, p, dc, diff, m) && ac_stands(src, m, ac, block, 1, q);
    let n = category(diff);
    let k = choose|k: int| #[trigger]
        symbol_stands(src, p, dc, n as int, k) && value_stands(src, k, diff) && m == k + n;
    lemma_symbol_read(src, p, dc, n as int, k);
    assert(n <= 11) by {
        lemma_bit_length(
            if diff < 0 {
                (-diff) as nat
            } else {
                diff as nat
            },
        );
        if n > 11 {
            lemma2_to64();
            if n > 12 {
                lemma_pow2_strictly_increases(11, (n - 1) as nat);
            }
        }
    }
    lemma_ac_moves(src, m, ac, block, 1, q);
    let next = SubsequenceState { p: m as u32, n: (s.n + 1) as u32, c: s.c, z: 1 };
    assert(jpeg_step(s, stream, t, q as u32) == JpegStep::Advanced(next));
    lemma_ac_walked(next, stream, t, ac, block, q);
}

} // verus!
