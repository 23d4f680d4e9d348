//! The JPEG-framed subsequence walk.
//!
//! In a JPEG-framed state, `c` is the block within the MCU and `z` the slot
//! within the block: 0 is the DC slot, 1 to 63 are AC slots.  A schedule
//! gives, for each block of an MCU, the DC and AC tables it uses.

use super::bitstream::{peek16, PackedBitstream};
use super::phase1_oracle::{
    bumped, fresh, tables_of_refs, JpegStep, Phase1Stop, SubsequenceState,
};
use crate::bits::bits;
use crate::jpeg::canonical::{CanonicalCodebook, CanonicalEntry};
use vstd::prelude::*;

verus! {

/// The code tables of a scan and the order in which its blocks use them.
pub struct ScanTables {
    pub dc: Seq<Seq<CanonicalEntry>>,
    pub ac: Seq<Seq<CanonicalEntry>>,
    /// One entry per block of an MCU: `(ac << 16) | (dc << 8) | component`.
    pub schedule: Seq<u32>,
}

/// DC table index of a schedule entry.
pub open spec fn dc_index(entry: u32) -> int {
    ((entry / 0x100) % 0x100) as int
}

/// AC table index of a schedule entry.
pub open spec fn ac_index(entry: u32) -> int {
    ((entry / 0x1_0000) % 0x100) as int
}

impl ScanTables {
    /// A nonempty schedule whose entries name tables that are there.
    pub open spec fn wf(&self) -> bool {
        &&& 1 <= self.schedule.len() <= u32::MAX
        &&& forall|k: int|
            0 <= k < self.schedule.len() ==> dc_index(#[trigger] self.schedule[k]) < self.dc.len()
                && ac_index(self.schedule[k]) < self.ac.len()
    }
}

/// Slot behind an AC symbol at slot `z`; more than 64 is an overflow.
pub open spec fn next_slot(z: u32, symbol: u8) -> int {
    if symbol == 0x00 {
        64
    } else if symbol == 0xF0 {
        z + 16
    } else {
        z + symbol / 16 + 1
    }
}

/// The code table entry that the bits at state `s` look up.
pub open spec fn entry_at(
    s: SubsequenceState,
    stream: PackedBitstream,
    t: ScanTables,
) -> CanonicalEntry {
    let entry = t.schedule[s.c as int];
    let table = if s.z == 0 {
        t.dc[dc_index(entry)]
    } else {
        t.ac[ac_index(entry)]
    };
    table[bits(stream.bytes(), s.p as int, 16) as int]
}

/// One JPEG-framed symbol from state `s`.
pub open spec fn jpeg_step(
    s: SubsequenceState,
    stream: PackedBitstream,
    t: ScanTables,
    count_to: u32,
) -> JpegStep {
    let is_dc = s.z == 0;
    let e = entry_at(s, stream, t);
    let value_bits = if is_dc {
        e.symbol as int
    } else {
        (e.symbol % 16) as int
    };
    if e.num_bits == 0 {
        JpegStep::Failed(s, Phase1Stop::PrefixMiss)
    } else if is_dc && e.symbol > 11 {
        JpegStep::Failed(s, Phase1Stop::BadDcCategory)
    } else if !is_dc && value_bits > 10 {
        JpegStep::Failed(s, Phase1Stop::BadAcSize)
    } else if s.p + e.num_bits + value_bits > stream.length_bits {
        JpegStep::Failed(s, Phase1Stop::LengthBits)
    } else {
        let moved = SubsequenceState {
            p: (s.p + e.num_bits + value_bits) as u32,
            n: if s.p < count_to {
                bumped(s.n)
            } else {
                s.n
            },
            ..s
        };
        let z = if is_dc {
            1
        } else {
            next_slot(s.z, e.symbol)
        };
        if z > 64 {
            JpegStep::Failed(moved, Phase1Stop::AcOverflow)
        } else if z == 64 {
            JpegStep::Advanced(
                SubsequenceState {
                    c: ((s.c + 1) % (t.schedule.len() as int)) as u32,
                    z: 0,
                    ..moved
                },
            )
        } else {
            JpegStep::Advanced(SubsequenceState { z: z as u32, ..moved })
        }
    }
}

/// A state a walk over these tables can be in.
pub open spec fn state_ok(s: SubsequenceState, t: ScanTables) -> bool {
    s.c < t.schedule.len() && s.z <= u32::MAX - 17
}

/// The tables that the arguments of a walk describe.
pub open spec fn scan_tables(
    dc_codebooks: Seq<&CanonicalCodebook>,
    ac_codebooks: Seq<&CanonicalCodebook>,
    mcu_schedule: Seq<u32>,
) -> ScanTables {
    ScanTables {
        dc: tables_of_refs(dc_codebooks),
        ac: tables_of_refs(ac_codebooks),
        schedule: mcu_schedule,
    }
}

/// All codebooks are well-formed.
pub open spec fn refs_wf(books: Seq<&CanonicalCodebook>) -> bool {
    forall|k: int| 0 <= k < books.len() ==> (#[trigger] books[k]).wf()
}

/// Decode one JPEG-framed symbol.
///
/// A DC slot consumes the code and its category's bits; an AC slot moves on
/// by its run, an EOB ends the block and a ZRL skips 16 slots.  The end of a
/// block moves to the next block of the MCU.
pub fn try_decode_one_jpeg_symbol(
    state: SubsequenceState,
    bitstream: &PackedBitstream,
    dc_codebooks: &[&CanonicalCodebook],
    ac_codebooks: &[&CanonicalCodebook],
    mcu_schedule: &[u32],
    blocks_per_mcu: u32,
    count_to: u32,
) -> (step: JpegStep)
    requires
        scan_tables(dc_codebooks@, ac_codebooks@, mcu_schedule@).wf(),
        refs_wf(dc_codebooks@),
        refs_wf(ac_codebooks@),
        mcu_schedule@.len() == blocks_per_mcu,
        state_ok(state, scan_tables(dc_codebooks@, ac_codebooks@, mcu_schedule@)),
    ensures
        step == jpeg_step(
            state,
            *bitstream,
            scan_tables(dc_codebooks@, ac_codebooks@, mcu_schedule@),
            count_to,
        ),
        step matches JpegStep::Advanced(next) ==> state.p < next.p <= bitstream.length_bits
            && next.z < 64 && next.c < blocks_per_mcu,
        step matches JpegStep::Failed(at, _) ==> at.z == state.z && at.c == state.c,
{
    let entry: u32 = mcu_schedule[state.c as usize];
    let dc_sel: usize = ((entry / 0x100) % 0x100) as usize;
    let ac_sel: usize = ((entry / 0x1_0000) % 0x100) as usize;
    let is_dc: bool = state.z == 0;
    let prefix: u16 = peek16(bitstream, state.p as u64);
    let lut = if is_dc {
        dc_codebooks[dc_sel].lookup(prefix)
    } else {
        ac_codebooks[ac_sel].lookup(prefix)
    };
    if lut.num_bits == 0 {
        return JpegStep::Failed(state, Phase1Stop::PrefixMiss);
    }
    let symbol: u8 = lut.symbol;
    let value_bits: u64 = if is_dc {
        if symbol > 11 {
            return JpegStep::Failed(state, Phase1Stop::BadDcCategory);
        }
        symbol as u64
    } else {
        let size: u8 = symbol % 16;
        if size > 10 {
            return JpegStep::Failed(state, Phase1Stop::BadAcSize);
        }
        size as u64
    };
    let after: u64 = state.p as u64 + lut.num_bits as u64 + value_bits;
    if after > bitstream.length_bits as u64 {
        return JpegStep::Failed(state, Phase1Stop::LengthBits);
    }
    let mut next = state;
    next.p = after as u32;
    if state.p < count_to && state.n < u32::MAX {
        next.n = state.n + 1;
    }
    let slot: u32 = if is_dc {
        1
    } else if symbol == 0x00 {
        64
    } else if symbol == 0xF0 {
        state.z + 16
    } else {
        state.z + (symbol / 16) as u32 + 1
    };
    if slot > 64 {
        return JpegStep::Failed(next, Phase1Stop::AcOverflow);
    }
    if slot == 64 {
        next.c = ((state.c as u64 + 1) % (blocks_per_mcu as u64)) as u32;
        next.z = 0;
    } else {
        next.z = slot;
    }
    JpegStep::Advanced(next)
}

/// Decode from `s` up to `hard_limit`.
pub open spec fn jpeg_walked(
    s: SubsequenceState,
    stream: PackedBitstream,
    t: ScanTables,
    hard_limit: u32,
    count_to: u32,
) -> (SubsequenceState, Phase1Stop)
    decreases u32::MAX - s.p,
{
    if s.p >= hard_limit {
        (s, Phase1Stop::HardLimit)
    } else {
        match jpeg_step(s, stream, t, count_to) {
            JpegStep::Failed(at, stop) => (at, stop),
            JpegStep::Advanced(next) => jpeg_walked(next, stream, t, hard_limit, count_to),
        }
    }
}

/// The state behind the first symbol of a walk that reaches `count_to`.
pub open spec fn jpeg_crossing(
    s: SubsequenceState,
    stream: PackedBitstream,
    t: ScanTables,
    hard_limit: u32,
    count_to: u32,
) -> Option<SubsequenceState>
    decreases u32::MAX - s.p,
{
    if s.p >= hard_limit {
        None
    } else {
        match jpeg_step(s, stream, t, count_to) {
            JpegStep::Failed(_, _) => None,
            JpegStep::Advanced(next) => if s.p < count_to && next.p >= count_to {
                Some(next)
            } else {
                jpeg_crossing(next, stream, t, hard_limit, count_to)
            },
        }
    }
}

/// The JPEG-framed Phase 1 walk of one subsequence, reporting its boundary
/// snapshot.
///
/// The snapshot fires on the first symbol whose advance crosses `count_to`,
/// after the end-of-block rotation.  On a decode error the walk stops; a
/// snapshot already taken is reported, otherwise the error-point state.
pub fn phase1_jpeg_walk_snapshot(
    bitstream: &PackedBitstream,
    dc_codebooks: &[&CanonicalCodebook],
    ac_codebooks: &[&CanonicalCodebook],
    mcu_schedule: &[u32],
    blocks_per_mcu: u32,
    start_bit: u32,
    hard_limit: u32,
    count_to: u32,
) -> (end: (SubsequenceState, Phase1Stop))
    requires
        scan_tables(dc_codebooks@, ac_codebooks@, mcu_schedule@).wf(),
        refs_wf(dc_codebooks@),
        refs_wf(ac_codebooks@),
        mcu_schedule@.len() == blocks_per_mcu,
    ensures
        ({
            let t = scan_tables(dc_codebooks@, ac_codebooks@, mcu_schedule@);
            let s = fresh(start_bit);
            let (last, stop) = jpeg_walked(s, *bitstream, t, hard_limit, count_to);
            end == (match jpeg_crossing(s, *bitstream, t, hard_limit, count_to) {
                Some(snapshot) => (snapshot, stop),
                None => (last, stop),
            })
        }),
        state_ok(end.0, scan_tables(dc_codebooks@, ac_codebooks@, mcu_schedule@)),
{
    let mut state = SubsequenceState { p: start_bit, n: 0, c: 0, z: 0 };
    let mut snapshot: Option<SubsequenceState> = None;
    let ghost t = scan_tables(dc_codebooks@, ac_codebooks@, mcu_schedule@);
    let ghost s = fresh(start_bit);
    loop
        invariant
            t == scan_tables(dc_codebooks@, ac_codebooks@, mcu_schedule@),
            s == fresh(start_bit),
            t.wf(),
            refs_wf(dc_codebooks@),
            refs_wf(ac_codebooks@),
            mcu_schedule@.len() == blocks_per_mcu,
            state.c < blocks_per_mcu,
            state.z < 64,
            jpeg_walked(s, *bitstream, t, hard_limit, count_to) == jpeg_walked(
                state,
                *bitstream,
                t,
                hard_limit,
                count_to,
            ),
            snapshot is None ==> jpeg_crossing(s, *bitstream, t, hard_limit, count_to)
                == jpeg_crossing(state, *bitstream, t, hard_limit, count_to),
            snapshot is Some ==> jpeg_crossing(s, *bitstream, t, hard_limit, count_to)
                == snapshot,
            snapshot matches Some(taken) ==> state_ok(taken, t),
        decreases u32::MAX - state.p,
    {
        if state.p >= hard_limit {
            return (snapshot.unwrap_or(state), Phase1Stop::HardLimit);
        }
        let p_before: u32 = state.p;
        match try_decode_one_jpeg_symbol(
            state,
            bitstream,
            dc_codebooks,
            ac_codebooks,
            mcu_schedule,
            blocks_per_mcu,
            count_to,
        ) {
            JpegStep::Advanced(next) => {
                state = next;
                if snapshot.is_none() && p_before < count_to && state.p >= count_to {
                    snapshot = Some(state);
                }
            },
            JpegStep::Failed(at, stop) => {
                return (snapshot.unwrap_or(at), stop);
            },
        }
    }
}

/// Two states that differ at most in their symbol counts.
pub open spec fn same_place(a: SubsequenceState, b: SubsequenceState) -> bool {
    a.p == b.p && a.c == b.c && a.z == b.z
}

/// The symbol count does not influence where a walk goes.
pub proof fn lemma_walk_ignores_count(
    a: SubsequenceState,
    b: SubsequenceState,
    stream: PackedBitstream,
    t: ScanTables,
    hard_limit: u32,
    count_a: u32,
    count_b: u32,
)
    requires
        same_place(a, b),
    ensures
        same_place(
            jpeg_walked(a, stream, t, hard_limit, count_a).0,
            jpeg_walked(b, stream, t, hard_limit, count_b).0,
        ),
        jpeg_walked(a, stream, t, hard_limit, count_a).1 == jpeg_walked(
            b,
            stream,
            t,
            hard_limit,
            count_b,
        ).1,
    decreases u32::MAX - a.p,
{
    if a.p < hard_limit {
        if let JpegStep::Advanced(x) = jpeg_step(a, stream, t, count_a) {
            if let JpegStep::Advanced(y) = jpeg_step(b, stream, t, count_b) {
                lemma_walk_ignores_count(x, y, stream, t, hard_limit, count_a, count_b);
            }
        }
    }
}

/// A JPEG-framed walk that stops at an earlier limit and goes on from there
/// ends where an uninterrupted walk ends.  An AC overflow is the one failure
/// that consumes its codeword, so a walk does not go on behind it.
pub proof fn law_split_jpeg_walk_is_continued_walk(
    s: SubsequenceState,
    stream: PackedBitstream,
    t: ScanTables,
    first_limit: u32,
    hard_limit: u32,
    count_to: u32,
)
    requires
        first_limit <= hard_limit,
        jpeg_walked(s, stream, t, first_limit, count_to).1 != Phase1Stop::AcOverflow,
    ensures
        jpeg_walked(s, stream, t, hard_limit, count_to) == jpeg_walked(
            jpeg_walked(s, stream, t, first_limit, count_to).0,
            stream,
            t,
            hard_limit,
            count_to,
        ),
    decreases u32::MAX - s.p,
{
    if s.p < first_limit {
        match jpeg_step(s, stream, t, count_to) {
            JpegStep::Advanced(next) => {
                law_split_jpeg_walk_is_continued_walk(
                    next,
                    stream,
                    t,
                    first_limit,
                    hard_limit,
                    count_to,
                );
            },
            JpegStep::Failed(at, stop) => {
                assert(at == s);
            },
        }
    }
}

} // verus!
