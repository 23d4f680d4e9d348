//! CPU oracle for the Phase 1 intra-sequence-sync kernels.
//!
//! Walks a single subsequence on the CPU, producing the same `(p, n, c, z)`
//! end-state that the kernel produces for that thread.  A subsequence is a
//! fixed-length slice of the entropy-coded stream; its thread starts at its
//! first bit and decodes past its end up to a hard limit.
//!
//! [`phase1_jpeg_walk_snapshot`] decodes with real JPEG framing;
//! [`phase1_walk`] and [`phase1_walk_snapshot`] are the synthetic-stream
//! equivalents.

use super::bitstream::{peek16, PackedBitstream};
use crate::bits::bits;
use crate::jpeg::canonical::{CanonicalCodebook, CanonicalEntry};
use vstd::arithmetic::power2::*;
use vstd::prelude::*;

verus! {

/// Per-subsequence decoder state, laid out as the kernel's four words.
#[derive(Debug, Clone, Copy, PartialEq, Eq, Structural)]
pub struct SubsequenceState {
    /// Absolute bit position in the stream.
    pub p: u32,
    /// Symbols decoded since the start bit.
    pub n: u32,
    /// Current component, or current block within the MCU.
    pub c: u32,
    /// Current zig-zag index within the 64-coefficient block.
    pub z: u32,
}

/// Reason a Phase 1 walk ended.
#[derive(Debug, Clone, Copy, PartialEq, Eq, Structural)]
pub enum Phase1Stop {
    /// Reached `hard_limit` cleanly (the normal exit).
    HardLimit,
    /// A codeword would run past `length_bits`.
    LengthBits,
    /// 16-bit peek matched no codeword in the active table.
    PrefixMiss,
    /// DC category byte exceeded 11.
    BadDcCategory,
    /// AC size nibble exceeded 10.
    BadAcSize,
    /// AC run/ZRL advance pushed past slot 64.
    AcOverflow,
}

/// Outcome of a single decode-and-advance step.
#[derive(Debug, Clone, Copy, PartialEq, Eq, Structural)]
pub enum StepOutcome {
    /// One symbol decoded; the post-advance state.
    Advanced(SubsequenceState),
    /// 16-bit peek matched no codeword.
    PrefixMiss,
    /// Decoded codeword would run past the stream.
    LengthBits,
}

/// Outcome of a single JPEG-framed step.
#[derive(Debug, Clone, Copy, PartialEq, Eq, Structural)]
pub enum JpegStep {
    /// One symbol decoded; the post-advance state.
    Advanced(SubsequenceState),
    /// No symbol; the state at the point of failure and its cause.
    Failed(SubsequenceState, Phase1Stop),
}

/// `n + 1`, clamped to the largest `u32`.
pub open spec fn bumped(n: u32) -> u32 {
    if n == u32::MAX {
        n
    } else {
        (n + 1) as u32
    }
}

/// The tables of a slice of codebooks.
pub open spec fn tables_of(books: Seq<CanonicalCodebook>) -> Seq<Seq<CanonicalEntry>> {
    Seq::new(books.len(), |i: int| books[i]@)
}

/// The tables of a slice of codebook references.
pub open spec fn tables_of_refs(books: Seq<&CanonicalCodebook>) -> Seq<Seq<CanonicalEntry>> {
    Seq::new(books.len(), |i: int| books[i]@)
}

/// Code length plus value bits of a synthetic-stream symbol.
pub open spec fn symbol_width(e: CanonicalEntry) -> int {
    e.num_bits + e.symbol % 16
}

/// One synthetic-stream symbol from state `s`.  It counts only if its first
/// bit lies before `count_to`.
pub open spec fn symbol_step(
    s: SubsequenceState,
    stream: PackedBitstream,
    tables: Seq<Seq<CanonicalEntry>>,
    count_to: u32,
) -> StepOutcome {
    let e = tables[s.c as int][bits(stream.bytes(), s.p as int, 16) as int];
    if e.num_bits == 0 {
        StepOutcome::PrefixMiss
    } else if s.p + symbol_width(e) > stream.length_bits {
        StepOutcome::LengthBits
    } else {
        let z = ((s.z + 1) % 64) as u32;
        StepOutcome::Advanced(
            SubsequenceState {
                p: (s.p + symbol_width(e)) as u32,
                n: if s.p < count_to {
                    bumped(s.n)
                } else {
                    s.n
                },
                c: if z == 0 {
                    ((s.c + 1) % (tables.len() as int)) as u32
                } else {
                    s.c
                },
                z,
            },
        )
    }
}

/// Decode exactly one Huffman symbol starting at `state.p`.
///
/// `n` increments only if the symbol starts before `count_to`; a symbol that
/// straddles the boundary belongs to the next subsequence.
pub fn try_decode_one_symbol(
    state: SubsequenceState,
    bitstream: &PackedBitstream,
    tables: &[CanonicalCodebook],
    count_to: u32,
) -> (outcome: StepOutcome)
    requires
        state.c < tables@.len() <= u32::MAX,
        state.z < u32::MAX,
        forall|k: int| 0 <= k < tables@.len() ==> (#[trigger] tables@[k]).wf(),
    ensures
        outcome == symbol_step(state, *bitstream, tables_of(tables@), count_to),
        outcome matches StepOutcome::Advanced(next) ==> state.p < next.p <= bitstream.length_bits
            && next.c < tables@.len() && next.z < 64,
{
    let prefix: u16 = peek16(bitstream, state.p as u64);
    let entry = tables[state.c as usize].lookup(prefix);
    if entry.num_bits == 0 {
        return StepOutcome::PrefixMiss;
    }
    let advance: u64 = entry.num_bits as u64 + (entry.symbol % 16) as u64;
    if state.p as u64 + advance > bitstream.length_bits as u64 {
        return StepOutcome::LengthBits;
    }
    let num_components: u64 = tables.len() as u64;
    let mut next = state;
    next.p = (state.p as u64 + advance) as u32;
    if state.p < count_to && state.n < u32::MAX {
        next.n = state.n + 1;
    }
    next.z = (state.z + 1) % 64;
    if next.z == 0 {
        next.c = ((state.c as u64 + 1) % num_components) as u32;
    }
    StepOutcome::Advanced(next)
}

/// Decode from `s` up to `hard_limit`.
pub open spec fn walked(
    s: SubsequenceState,
    stream: PackedBitstream,
    tables: Seq<Seq<CanonicalEntry>>,
    hard_limit: u32,
    count_to: u32,
) -> (SubsequenceState, Phase1Stop)
    decreases u32::MAX - s.p,
{
    if s.p >= hard_limit {
        (s, Phase1Stop::HardLimit)
    } else {
        match symbol_step(s, stream, tables, count_to) {
            StepOutcome::PrefixMiss => (s, Phase1Stop::PrefixMiss),
            StepOutcome::LengthBits => (s, Phase1Stop::LengthBits),
            StepOutcome::Advanced(next) => walked(next, stream, tables, hard_limit, count_to),
        }
    }
}

/// The first boundary crossing of a walk from `s`: the state behind the
/// symbol that reaches `count_to`, if the walk gets there.
pub open spec fn crossing(
    s: SubsequenceState,
    stream: PackedBitstream,
    tables: Seq<Seq<CanonicalEntry>>,
    hard_limit: u32,
    count_to: u32,
) -> Option<SubsequenceState>
    decreases u32::MAX - s.p,
{
    if s.p >= hard_limit {
        None
    } else {
        match symbol_step(s, stream, tables, count_to) {
            StepOutcome::Advanced(next) => if s.p < count_to && next.p >= count_to {
                Some(next)
            } else {
                crossing(next, stream, tables, hard_limit, count_to)
            },
            _ => None,
        }
    }
}

/// The state of a walk that starts at `start_bit`.
pub open spec fn fresh(start_bit: u32) -> SubsequenceState {
    SubsequenceState { p: start_bit, n: 0, c: 0, z: 0 }
}

/// Run the Phase 1 intra-sync decode for one subsequence.
///
/// Returns the final state plus the reason the loop terminated.
pub fn phase1_walk(
    bitstream: &PackedBitstream,
    tables: &[CanonicalCodebook],
    start_bit: u32,
    hard_limit: u32,
    count_to: u32,
) -> (end: (SubsequenceState, Phase1Stop))
    requires
        1 <= tables@.len() <= u32::MAX,
        forall|k: int| 0 <= k < tables@.len() ==> (#[trigger] tables@[k]).wf(),
    ensures
        end == walked(fresh(start_bit), *bitstream, tables_of(tables@), hard_limit, count_to),
        end.0.c < tables@.len(),
        end.0.z < 64,
{
    let mut state = SubsequenceState { p: start_bit, n: 0, c: 0, z: 0 };
    loop
        invariant
            state.c < tables@.len() <= u32::MAX,
            state.z < 64,
            forall|k: int| 0 <= k < tables@.len() ==> (#[trigger] tables@[k]).wf(),
            walked(fresh(start_bit), *bitstream, tables_of(tables@), hard_limit, count_to)
                == walked(state, *bitstream, tables_of(tables@), hard_limit, count_to),
        decreases u32::MAX - state.p,
    {
        if state.p >= hard_limit {
            return (state, Phase1Stop::HardLimit);
        }
        match try_decode_one_symbol(state, bitstream, tables, count_to) {
            StepOutcome::Advanced(next) => {
                state = next;
            },
            StepOutcome::PrefixMiss => return (state, Phase1Stop::PrefixMiss),
            StepOutcome::LengthBits => return (state, Phase1Stop::LengthBits),
        }
    }
}

/// Run the walk and report the **boundary snapshot**: the state behind the
/// first symbol that crosses `count_to`.  A walk that never crosses it
/// reports its terminal state, and a snapshot already taken survives a
/// decode error.
pub fn phase1_walk_snapshot(
    bitstream: &PackedBitstream,
    tables: &[CanonicalCodebook],
    start_bit: u32,
    hard_limit: u32,
    count_to: u32,
) -> (end: (SubsequenceState, Phase1Stop))
    requires
        1 <= tables@.len() <= u32::MAX,
        forall|k: int| 0 <= k < tables@.len() ==> (#[trigger] tables@[k]).wf(),
    ensures
        ({
            let t = tables_of(tables@);
            let s = fresh(start_bit);
            let (last, stop) = walked(s, *bitstream, t, hard_limit, count_to);
            end == (match crossing(s, *bitstream, t, hard_limit, count_to) {
                Some(snapshot) => (snapshot, stop),
                None => (last, stop),
            })
        }),
        end.0.c < tables@.len(),
        end.0.z < 64,
{
    let mut state = SubsequenceState { p: start_bit, n: 0, c: 0, z: 0 };
    let mut snapshot: Option<SubsequenceState> = None;
    let ghost t = tables_of(tables@);
    let ghost s = fresh(start_bit);
    loop
        invariant
            state.c < tables@.len() <= u32::MAX,
            state.z < 64,
            forall|k: int| 0 <= k < tables@.len() ==> (#[trigger] tables@[k]).wf(),
            t == tables_of(tables@),
            s == fresh(start_bit),
            walked(s, *bitstream, t, hard_limit, count_to) == walked(
                state,
                *bitstream,
                t,
                hard_limit,
                count_to,
            ),
            snapshot is None ==> crossing(s, *bitstream, t, hard_limit, count_to) == crossing(
                state,
                *bitstream,
                t,
                hard_limit,
                count_to,
            ),
            snapshot is Some ==> crossing(s, *bitstream, t, hard_limit, count_to) == snapshot,
            snapshot matches Some(taken) ==> taken.c < tables@.len() && taken.z < 64,
        decreases u32::MAX - state.p,
    {
        if state.p >= hard_limit {
            return (snapshot.unwrap_or(state), Phase1Stop::HardLimit);
        }
        let p_before: u32 = state.p;
        match try_decode_one_symbol(state, bitstream, tables, count_to) {
            StepOutcome::Advanced(next) => {
                state = next;
                if snapshot.is_none() && p_before < count_to && state.p >= count_to {
                    snapshot = Some(state);
                }
            },
            StepOutcome::PrefixMiss => {
                return (snapshot.unwrap_or(state), Phase1Stop::PrefixMiss);
            },
            StepOutcome::LengthBits => {
                return (snapshot.unwrap_or(state), Phase1Stop::LengthBits);
            },
        }
    }
}

/// A walk that stops at an earlier limit and goes on from there ends where
/// an uninterrupted walk ends.
pub proof fn law_split_walk_is_continued_walk(
    s: SubsequenceState,
    stream: PackedBitstream,
    tables: Seq<Seq<CanonicalEntry>>,
    first_limit: u32,
    hard_limit: u32,
    count_to: u32,
)
    requires
        first_limit <= hard_limit,
        walked(s, stream, tables, first_limit, count_to).1 == Phase1Stop::HardLimit,
    ensures
        walked(s, stream, tables, hard_limit, count_to) == walked(
            walked(s, stream, tables, first_limit, count_to).0,
            stream,
            tables,
            hard_limit,
            count_to,
        ),
    decreases u32::MAX - s.p,
{
    if s.p < first_limit {
        if let StepOutcome::Advanced(next) = symbol_step(s, stream, tables, count_to) {
            law_split_walk_is_continued_walk(
                next,
                stream,
                tables,
                first_limit,
                hard_limit,
                count_to,
            );
        }
    }
}

/// With a single code table the bits alone decide where a walk ends: walks
/// from one position end at one position and for one reason, whatever else
/// their states hold.
pub proof fn law_single_table_walk_depends_on_position(
    a: SubsequenceState,
    b: SubsequenceState,
    stream: PackedBitstream,
    tables: Seq<Seq<CanonicalEntry>>,
    hard_limit: u32,
    count_to: u32,
)
    requires
        tables.len() == 1,
        a.c == 0,
        b.c == 0,
        a.p == b.p,
    ensures
        walked(a, stream, tables, hard_limit, count_to).0.p == walked(
            b,
            stream,
            tables,
            hard_limit,
            count_to,
        ).0.p,
        walked(a, stream, tables, hard_limit, count_to).1 == walked(
            b,
            stream,
            tables,
            hard_limit,
            count_to,
        ).1,
    decreases u32::MAX - a.p,
{
    if a.p < hard_limit {
        if let StepOutcome::Advanced(x) = symbol_step(a, stream, tables, count_to) {
            if let StepOutcome::Advanced(y) = symbol_step(b, stream, tables, count_to) {
                law_single_table_walk_depends_on_position(
                    x,
                    y,
                    stream,
                    tables,
                    hard_limit,
                    count_to,
                );
            }
        }
    }
}

/// A walk never moves back and never passes the end of the stream.
pub proof fn law_walk_stays_in_stream(
    s: SubsequenceState,
    stream: PackedBitstream,
    tables: Seq<Seq<CanonicalEntry>>,
    hard_limit: u32,
    count_to: u32,
)
    ensures
        s.p <= walked(s, stream, tables, hard_limit, count_to).0.p,
        s.p <= stream.length_bits ==> walked(s, stream, tables, hard_limit, count_to).0.p
            <= stream.length_bits,
    decreases u32::MAX - s.p,
{
    if s.p < hard_limit {
        if let StepOutcome::Advanced(next) = symbol_step(s, stream, tables, count_to) {
            law_walk_stays_in_stream(next, stream, tables, hard_limit, count_to);
        }
    }
}

} // verus!
