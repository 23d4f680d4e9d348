//! CPU oracles for the Phase 2 inter-sequence-sync kernels.
//!
//! On synthetic streams a subsequence is synced with its right neighbour
//! when its walk has reached the neighbour's start and both agree on
//! `(c, z)`; an unsynced one advances by one symbol per pass, up to a bound.
//!
//! JPEG-framed streams carry no mark of the component phase, so agreement
//! proves nothing there.  Instead truth propagates rightward: in each pass
//! every subsequence re-decodes its region from the previous pass's state of
//! its left neighbour.  The first state is true from the start, so after `k`
//! passes the first `k + 1` states are, and a pass without a change has
//! reached the truth.

use super::bitstream::PackedBitstream;
use super::jpeg_walk::{
    jpeg_walked, law_split_jpeg_walk_is_continued_walk, lemma_walk_ignores_count, refs_wf,
    same_place, scan_tables, state_ok, try_decode_one_jpeg_symbol, ScanTables,
};
use super::phase1_oracle::{
    symbol_step, tables_of, try_decode_one_symbol, JpegStep, Phase1Stop, StepOutcome,
    SubsequenceState,
};
use crate::jpeg::canonical::{CanonicalCodebook, CanonicalEntry};
use vstd::arithmetic::power2::*;
use vstd::prelude::*;

verus! {

/// Outcome of the Phase 2 retry loop.
#[derive(Debug, Clone, Copy, PartialEq, Eq, Structural)]
pub enum Phase2Outcome {
    /// Every subsequence is synced.  `iterations` is the 0-based index of
    /// the pass that found it so.
    Converged {
        /// Index of the converged pass.
        iterations: u32,
    },
    /// Retry bound exhausted without convergence, after `bound + 1` passes.
    SyncBoundExceeded {
        /// The bound.
        bound: u32,
    },
}

/// The least `e` with `2^e >= n`.
pub open spec fn ceil_log2(n: nat) -> nat
    decreases n,
{
    if n <= 1 {
        0
    } else {
        1 + ceil_log2((n + 1) / 2)
    }
}

/// What `ceil_log2` is: the least exponent whose power of two reaches `n`.
pub proof fn lemma_ceil_log2(n: nat)
    ensures
        pow2(ceil_log2(n)) >= n,
        n > 1 ==> ceil_log2(n) > 0 && pow2((ceil_log2(n) - 1) as nat) < n,
    decreases n,
{
    lemma2_to64();
    if n > 1 {
        let h = (n + 1) / 2;
        lemma_ceil_log2(h);
        lemma_pow2_unfold(ceil_log2(n));
        if h > 1 {
            lemma_pow2_unfold((ceil_log2(n) - 1) as nat);
        }
    }
}

/// Maximum number of sync-and-advance passes before giving up:
/// `2 * ceil(log2(n))`.
#[must_use]
pub fn retry_bound(num_subsequences: usize) -> (bound: u32)
    ensures
        bound == 2 * ceil_log2(num_subsequences as nat),
{
    let mut left: usize = num_subsequences;
    let mut exp: u32 = 0;
    proof {
        lemma2_to64();
        lemma2_to64_rest();
    }
    while left > 1
        invariant
            ceil_log2(num_subsequences as nat) == exp + ceil_log2(left as nat),
            exp <= 64,
            left > 1 ==> left <= pow2((64 - exp) as nat),
        decreases left,
    {
        proof {
            lemma2_to64();
            if exp == 64 {
                assert(false);
            }
            lemma_pow2_unfold((64 - exp) as nat);
        }
        left = left / 2 + left % 2;
        exp = exp + 1;
    }
    2 * exp
}

/// Start bit of subsequence `i`, clamped to the largest `u32`.
pub open spec fn region_start(i: int, subsequence_bits: u32) -> u32 {
    if i * subsequence_bits > u32::MAX {
        u32::MAX
    } else {
        (i * subsequence_bits) as u32
    }
}

fn clamped_product(i: u32, subsequence_bits: u32) -> (p: u32)
    ensures
        p == region_start(i as int, subsequence_bits),
{
    proof {
        assert(i * subsequence_bits <= u64::MAX) by (nonlinear_arith)
            requires
                0 <= i <= u32::MAX,
                0 <= subsequence_bits <= u32::MAX,
        ;
        assert(i * subsequence_bits >= 0) by (nonlinear_arith)
            requires
                0 <= i,
                0 <= subsequence_bits,
        ;
    }
    let wide: u64 = i as u64 * subsequence_bits as u64;
    if wide > 0xFFFF_FFFF {
        u32::MAX
    } else {
        wide as u32
    }
}

/// Whether subsequence `i` agrees with its right neighbour.
pub open spec fn synced(s: Seq<SubsequenceState>, i: int, subsequence_bits: u32) -> bool {
    &&& s[i].p >= region_start(i + 1, subsequence_bits)
    &&& s[i].c == s[i + 1].c
    &&& s[i].z == s[i + 1].z
}

/// A state, advanced by one symbol where one can be decoded.
pub open spec fn nudged(
    s: SubsequenceState,
    stream: PackedBitstream,
    tables: Seq<Seq<CanonicalEntry>>,
    count_to: u32,
) -> SubsequenceState {
    match symbol_step(s, stream, tables, count_to) {
        StepOutcome::Advanced(next) => next,
        _ => s,
    }
}

/// The states after one sync-and-advance pass.
pub open spec fn synced_pass(
    s: Seq<SubsequenceState>,
    stream: PackedBitstream,
    tables: Seq<Seq<CanonicalEntry>>,
    subsequence_bits: u32,
) -> Seq<SubsequenceState> {
    Seq::new(
        s.len(),
        |i: int|
            if i + 1 >= s.len() || synced(s, i, subsequence_bits) {
                s[i]
            } else {
                nudged(s[i], stream, tables, region_start(i + 1, subsequence_bits))
            },
    )
}

/// Unsynced subsequences among the first `k`.
pub open spec fn unsynced_count(s: Seq<SubsequenceState>, subsequence_bits: u32, k: nat) -> nat
    decreases k,
{
    if k == 0 {
        0
    } else {
        unsynced_count(s, subsequence_bits, (k - 1) as nat) + if synced(
            s,
            k - 1,
            subsequence_bits,
        ) {
            0nat
        } else {
            1nat
        }
    }
}

/// Unsynced subsequences; the last one is synced by definition.
pub open spec fn unsynced(s: Seq<SubsequenceState>, subsequence_bits: u32) -> nat {
    if s.len() <= 1 {
        0
    } else {
        unsynced_count(s, subsequence_bits, (s.len() - 1) as nat)
    }
}

/// States a synthetic walk over `n` tables can be in.
pub open spec fn states_ok(s: Seq<SubsequenceState>, n: nat) -> bool {
    forall|i: int| 0 <= i < s.len() ==> (#[trigger] s[i]).c < n && s[i].z < u32::MAX
}

/// One sync-and-advance pass; returns the number of subsequences that were
/// unsynced.
fn phase2_sync_pass(
    s_info: &mut Vec<SubsequenceState>,
    bitstream: &PackedBitstream,
    tables: &[CanonicalCodebook],
    subsequence_bits: u32,
) -> (count: u32)
    requires
        tables@.len() <= u32::MAX,
        forall|k: int| 0 <= k < tables@.len() ==> (#[trigger] tables@[k]).wf(),
        states_ok(old(s_info)@, tables@.len()),
        old(s_info)@.len() <= u32::MAX,
    ensures
        final(s_info)@ == synced_pass(
            old(s_info)@,
            *bitstream,
            tables_of(tables@),
            subsequence_bits,
        ),
        count == unsynced(old(s_info)@, subsequence_bits),
        states_ok(final(s_info)@, tables@.len()),
{
    let n: usize = s_info.len();
    let ghost before = s_info@;
    let ghost after = synced_pass(before, *bitstream, tables_of(tables@), subsequence_bits);
    if n <= 1 {
        assert(s_info@ =~= after);
        return 0;
    }
    let mut count: u32 = 0;
    let mut i: usize = 0;
    while i < n - 1
        invariant
            1 < n == s_info@.len() == before.len(),
            n <= u32::MAX,
            i <= n - 1,
            before == old(s_info)@,
            after == synced_pass(before, *bitstream, tables_of(tables@), subsequence_bits),
            tables@.len() <= u32::MAX,
            forall|k: int| 0 <= k < tables@.len() ==> (#[trigger] tables@[k]).wf(),
            states_ok(s_info@, tables@.len()),
            forall|k: int| 0 <= k < i ==> s_info@[k] == after[k],
            forall|k: int| i <= k < n ==> s_info@[k] == before[k],
            count == unsynced_count(before, subsequence_bits, i as nat),
            count <= i,
        decreases n - i,
    {
        let me = s_info[i];
        let nxt = s_info[i + 1];
        let nxt_start_p: u32 = clamped_product((i + 1) as u32, subsequence_bits);
        if !(me.p >= nxt_start_p && me.c == nxt.c && me.z == nxt.z) {
            match try_decode_one_symbol(me, bitstream, tables, nxt_start_p) {
                StepOutcome::Advanced(next) => {
                    s_info[i] = next;
                },
                _ => {},
            }
            count = count + 1;
        }
        i = i + 1;
    }
    assert(s_info@ =~= after);
    count
}

/// `k` passes from `s`.
pub open spec fn synced_passes(
    s: Seq<SubsequenceState>,
    stream: PackedBitstream,
    tables: Seq<Seq<CanonicalEntry>>,
    subsequence_bits: u32,
    k: nat,
) -> Seq<SubsequenceState>
    decreases k,
{
    if k == 0 {
        s
    } else {
        synced_pass(
            synced_passes(s, stream, tables, subsequence_bits, (k - 1) as nat),
            stream,
            tables,
            subsequence_bits,
        )
    }
}

/// Drive the Phase 2 sync loop to convergence.
///
/// Returns the first pass in which every pair agrees, or gives up after the
/// bound's passes.
pub fn phase2_run_to_sync(
    s_info: &mut Vec<SubsequenceState>,
    bitstream: &PackedBitstream,
    tables: &[CanonicalCodebook],
    subsequence_bits: u32,
) -> (outcome: Phase2Outcome)
    requires
        1 <= tables@.len() <= u32::MAX,
        forall|k: int| 0 <= k < tables@.len() ==> (#[trigger] tables@[k]).wf(),
        states_ok(old(s_info)@, tables@.len()),
        old(s_info)@.len() <= u32::MAX,
    ensures
        states_ok(final(s_info)@, tables@.len()),
        ({
            let s = old(s_info)@;
            let t = tables_of(tables@);
            let bound = 2 * ceil_log2(s.len());
            match outcome {
                Phase2Outcome::Converged { iterations } => {
                    &&& iterations <= bound
                    &&& final(s_info)@ == synced_passes(
                        s,
                        *bitstream,
                        t,
                        subsequence_bits,
                        iterations as nat,
                    )
                    &&& unsynced(final(s_info)@, subsequence_bits) == 0
                    &&& forall|k: nat|
                        k < iterations ==> unsynced(
                            #[trigger] synced_passes(s, *bitstream, t, subsequence_bits, k),
                            subsequence_bits,
                        ) > 0
                },
                Phase2Outcome::SyncBoundExceeded { bound: b } => {
                    &&& b == bound
                    &&& final(s_info)@ == synced_passes(
                        s,
                        *bitstream,
                        t,
                        subsequence_bits,
                        bound + 1,
                    )
                    &&& forall|k: nat|
                        k <= bound ==> unsynced(
                            #[trigger] synced_passes(s, *bitstream, t, subsequence_bits, k),
                            subsequence_bits,
                        ) > 0
                },
            }
        }),
{
    let bound: u32 = retry_bound(s_info.len());
    proof {
        lemma_log_bound(s_info@.len());
    }
    let ghost s = s_info@;
    let ghost t = tables_of(tables@);
    let mut iter: u32 = 0;
    while iter <= bound
        invariant
            iter <= bound + 1,
            bound <= 64,
            bound == 2 * ceil_log2(s.len()),
            s == old(s_info)@,
            t == tables_of(tables@),
            tables@.len() <= u32::MAX,
            forall|k: int| 0 <= k < tables@.len() ==> (#[trigger] tables@[k]).wf(),
            states_ok(s_info@, tables@.len()),
            s_info@.len() <= u32::MAX,
            s_info@ == synced_passes(s, *bitstream, t, subsequence_bits, iter as nat),
            forall|k: nat|
                k < iter ==> unsynced(
                    #[trigger] synced_passes(s, *bitstream, t, subsequence_bits, k),
                    subsequence_bits,
                ) > 0,
        decreases bound + 1 - iter,
    {
        let ghost before = s_info@;
        let count: u32 = phase2_sync_pass(s_info, bitstream, tables, subsequence_bits);
        if count == 0 {
            proof {
                lemma_synced_pass_is_identity(before, *bitstream, t, subsequence_bits);
            }
            return Phase2Outcome::Converged { iterations: iter };
        }
        iter = iter + 1;
    }
    Phase2Outcome::SyncBoundExceeded { bound }
}

proof fn lemma_log_bound(n: nat)
    requires
        n <= u32::MAX,
    ensures
        2 * ceil_log2(n) <= 64,
{
    lemma2_to64();
    lemma_ceil_log2(n);
    if ceil_log2(n) > 32 {
        lemma_pow2_strictly_increases(31, (ceil_log2(n) - 1) as nat);
        if ceil_log2(n) > 33 {
            lemma_pow2_strictly_increases(32, (ceil_log2(n) - 1) as nat);
        }
    }
}

proof fn lemma_all_synced(s: Seq<SubsequenceState>, subsequence_bits: u32, k: nat, i: int)
    requires
        unsynced_count(s, subsequence_bits, k) == 0,
        0 <= i < k,
    ensures
        synced(s, i, subsequence_bits),
    decreases k,
{
    if i < k - 1 {
        lemma_all_synced(s, subsequence_bits, (k - 1) as nat, i);
    }
}

/// A pass over synced states changes nothing.
proof fn lemma_synced_pass_is_identity(
    s: Seq<SubsequenceState>,
    stream: PackedBitstream,
    tables: Seq<Seq<CanonicalEntry>>,
    subsequence_bits: u32,
)
    requires
        unsynced(s, subsequence_bits) == 0,
    ensures
        synced_pass(s, stream, tables, subsequence_bits) == s,
{
    assert forall|i: int| 0 <= i < s.len() implies synced_pass(
        s,
        stream,
        tables,
        subsequence_bits,
    )[i] == s[i] by {
        if i + 1 < s.len() {
            lemma_all_synced(s, subsequence_bits, (s.len() - 1) as nat, i);
        }
    }
    assert(synced_pass(s, stream, tables, subsequence_bits) =~= s);
}

/// Pass bound for the JPEG-framed propagation loop: all `n` states are final
/// after `n - 1` passes, and the next pass observes it.
#[must_use]
pub fn jpeg_phase2_retry_bound(num_subsequences: usize) -> (bound: u32)
    ensures
        bound == (if num_subsequences == 0 {
            0
        } else if num_subsequences - 1 > u32::MAX {
            u32::MAX as int
        } else {
            num_subsequences - 1
        }),
{
    if num_subsequences == 0 {
        return 0;
    }
    let less: u64 = (num_subsequences - 1) as u64;
    if less > 0xFFFF_FFFF {
        u32::MAX
    } else {
        less as u32
    }
}

/// End of region `i`: the start of the next, or the end of the stream.
pub open spec fn region_end(i: int, length_bits: u32, subsequence_bits: u32) -> u32 {
    let next = region_start(i + 1, subsequence_bits);
    if next < length_bits {
        next
    } else {
        length_bits
    }
}

/// The state at the end of a region that is decoded from `inherited`, with
/// a fresh symbol count.
pub open spec fn redecoded(
    inherited: SubsequenceState,
    end: u32,
    stream: PackedBitstream,
    t: ScanTables,
) -> SubsequenceState {
    jpeg_walked(SubsequenceState { n: 0, ..inherited }, stream, t, end, end).0
}

/// Re-decode one subsequence's region from its predecessor's boundary
/// snapshot.
///
/// The walk stops at the first symbol whose advance reaches `region_end`, or
/// at a decode error, whose state is then the result.  A snapshot that has
/// already passed the region stands, with no symbol counted.
fn jpeg_phase2_redecode(
    inherited: SubsequenceState,
    end: u32,
    bitstream: &PackedBitstream,
    dc_codebooks: &[&CanonicalCodebook],
    ac_codebooks: &[&CanonicalCodebook],
    mcu_schedule: &[u32],
    blocks_per_mcu: u32,
) -> (out: SubsequenceState)
    requires
        scan_tables(dc_codebooks@, ac_codebooks@, mcu_schedule@).wf(),
        refs_wf(dc_codebooks@),
        refs_wf(ac_codebooks@),
        mcu_schedule@.len() == blocks_per_mcu,
        state_ok(inherited, scan_tables(dc_codebooks@, ac_codebooks@, mcu_schedule@)),
    ensures
        out == redecoded(
            inherited,
            end,
            *bitstream,
            scan_tables(dc_codebooks@, ac_codebooks@, mcu_schedule@),
        ),
        state_ok(out, scan_tables(dc_codebooks@, ac_codebooks@, mcu_schedule@)),
{
    let mut state = SubsequenceState { p: inherited.p, n: 0, c: inherited.c, z: inherited.z };
    let ghost t = scan_tables(dc_codebooks@, ac_codebooks@, mcu_schedule@);
    let ghost start = SubsequenceState { n: 0, ..inherited };
    loop
        invariant
            t == scan_tables(dc_codebooks@, ac_codebooks@, mcu_schedule@),
            t.wf(),
            refs_wf(dc_codebooks@),
            refs_wf(ac_codebooks@),
            mcu_schedule@.len() == blocks_per_mcu,
            state_ok(state, t),
            start == (SubsequenceState { n: 0, ..inherited }),
            jpeg_walked(start, *bitstream, t, end, end) == jpeg_walked(
                state,
                *bitstream,
                t,
                end,
                end,
            ),
        decreases u32::MAX - state.p,
    {
        if state.p >= end {
            return state;
        }
        match try_decode_one_jpeg_symbol(
            state,
            bitstream,
            dc_codebooks,
            ac_codebooks,
            mcu_schedule,
            blocks_per_mcu,
            end,
        ) {
            JpegStep::Advanced(next) => {
                state = next;
            },
            JpegStep::Failed(at, _) => {
                return at;
            },
        }
    }
}

/// One propagation pass: every state but the first is decoded anew from its
/// left neighbour.
pub open spec fn propagated(
    s: Seq<SubsequenceState>,
    stream: PackedBitstream,
    t: ScanTables,
    subsequence_bits: u32,
) -> Seq<SubsequenceState> {
    Seq::new(
        s.len(),
        |i: int|
            if i == 0 {
                s[0]
            } else {
                redecoded(
                    s[i - 1],
                    region_end(i, stream.length_bits, subsequence_bits),
                    stream,
                    t,
                )
            },
    )
}

/// `k` propagation passes from `s`.
pub open spec fn propagations(
    s: Seq<SubsequenceState>,
    stream: PackedBitstream,
    t: ScanTables,
    subsequence_bits: u32,
    k: nat,
) -> Seq<SubsequenceState>
    decreases k,
{
    if k == 0 {
        s
    } else {
        propagated(
            propagations(s, stream, t, subsequence_bits, (k - 1) as nat),
            stream,
            t,
            subsequence_bits,
        )
    }
}

/// The true state of subsequence `i`, when the first one's is `first`: each
/// region decoded from the true state before it.
pub open spec fn true_state(
    first: SubsequenceState,
    stream: PackedBitstream,
    t: ScanTables,
    subsequence_bits: u32,
    i: nat,
) -> SubsequenceState
    decreases i,
{
    if i == 0 {
        first
    } else {
        redecoded(
            true_state(first, stream, t, subsequence_bits, (i - 1) as nat),
            region_end(i as int, stream.length_bits, subsequence_bits),
            stream,
            t,
        )
    }
}

/// The true states of `n` subsequences.
pub open spec fn true_states(
    first: SubsequenceState,
    stream: PackedBitstream,
    t: ScanTables,
    subsequence_bits: u32,
    n: nat,
) -> Seq<SubsequenceState> {
    Seq::new(n, |i: int| true_state(first, stream, t, subsequence_bits, i as nat))
}

/// After `k` passes the first `k + 1` states are true.
pub proof fn law_truth_propagates_one_state_per_pass(
    s: Seq<SubsequenceState>,
    stream: PackedBitstream,
    t: ScanTables,
    subsequence_bits: u32,
    k: nat,
    i: nat,
)
    requires
        i < s.len(),
        i <= k,
    ensures
        propagations(s, stream, t, subsequence_bits, k).len() == s.len(),
        propagations(s, stream, t, subsequence_bits, k)[i as int] == true_state(
            s[0],
            stream,
            t,
            subsequence_bits,
            i,
        ),
    decreases k,
{
    lemma_propagations_len(s, stream, t, subsequence_bits, k);
    if k > 0 {
        lemma_propagations_len(s, stream, t, subsequence_bits, (k - 1) as nat);
        if i == 0 {
            law_truth_propagates_one_state_per_pass(
                s,
                stream,
                t,
                subsequence_bits,
                (k - 1) as nat,
                0,
            );
        } else {
            law_truth_propagates_one_state_per_pass(
                s,
                stream,
                t,
                subsequence_bits,
                (k - 1) as nat,
                (i - 1) as nat,
            );
        }
    }
}

proof fn lemma_propagations_len(
    s: Seq<SubsequenceState>,
    stream: PackedBitstream,
    t: ScanTables,
    subsequence_bits: u32,
    k: nat,
)
    ensures
        propagations(s, stream, t, subsequence_bits, k).len() == s.len(),
    decreases k,
{
    if k > 0 {
        lemma_propagations_len(s, stream, t, subsequence_bits, (k - 1) as nat);
    }
}

/// A pass without a change has reached the truth: a fixpoint of propagation
/// is the chain of true states of its first state.
pub proof fn law_fixpoint_is_truth(
    s: Seq<SubsequenceState>,
    stream: PackedBitstream,
    t: ScanTables,
    subsequence_bits: u32,
)
    requires
        propagated(s, stream, t, subsequence_bits) == s,
        s.len() > 0,
    ensures
        s == true_states(s[0], stream, t, subsequence_bits, s.len()),
{
    assert forall|i: int| 0 <= i < s.len() implies #[trigger] s[i] == true_state(
        s[0],
        stream,
        t,
        subsequence_bits,
        i as nat,
    ) by {
        lemma_fixpoint_state(s, stream, t, subsequence_bits, i as nat);
    }
    assert(s =~= true_states(s[0], stream, t, subsequence_bits, s.len()));
}

proof fn lemma_fixpoint_state(
    s: Seq<SubsequenceState>,
    stream: PackedBitstream,
    t: ScanTables,
    subsequence_bits: u32,
    i: nat,
)
    requires
        propagated(s, stream, t, subsequence_bits) == s,
        i < s.len(),
    ensures
        s[i as int] == true_state(s[0], stream, t, subsequence_bits, i),
    decreases i,
{
    if i > 0 {
        lemma_fixpoint_state(s, stream, t, subsequence_bits, (i - 1) as nat);
        assert(propagated(s, stream, t, subsequence_bits)[i as int] == s[i as int]);
    }
}

/// The true states are a fixpoint that begins with the first state: from any
/// states that a synchronisation leaves, a further one finds nothing to
/// change in its first pass.
pub proof fn law_synced_states_stay(
    s: Seq<SubsequenceState>,
    stream: PackedBitstream,
    t: ScanTables,
    subsequence_bits: u32,
)
    requires
        s.len() > 0,
    ensures
        ({
            let synced = true_states(s[0], stream, t, subsequence_bits, s.len());
            &&& synced[0] == s[0]
            &&& propagated(synced, stream, t, subsequence_bits) == synced
            &&& true_states(synced[0], stream, t, subsequence_bits, s.len()) == synced
        }),
{
    let synced = true_states(s[0], stream, t, subsequence_bits, s.len());
    assert forall|i: int| 0 <= i < s.len() implies propagated(
        synced,
        stream,
        t,
        subsequence_bits,
    )[i] == synced[i] by {
        if i > 0 {
            assert(synced[i - 1] == true_state(
                s[0],
                stream,
                t,
                subsequence_bits,
                (i as nat - 1) as nat,
            ));
        }
    }
    assert(propagated(synced, stream, t, subsequence_bits) =~= synced);
}

/// Drive the JPEG-framed propagation loop to convergence.
///
/// Every input converges within the bound: the result holds the true state
/// of every subsequence, and `iterations` is the first pass that changes
/// nothing.
pub fn jpeg_phase2_run_to_sync(
    s_info: &mut Vec<SubsequenceState>,
    bitstream: &PackedBitstream,
    dc_codebooks: &[&CanonicalCodebook],
    ac_codebooks: &[&CanonicalCodebook],
    mcu_schedule: &[u32],
    blocks_per_mcu: u32,
    subsequence_bits: u32,
) -> (outcome: Phase2Outcome)
    requires
        old(s_info)@.len() <= u32::MAX,
        old(s_info)@.len() > 1 ==> {
            let t = scan_tables(dc_codebooks@, ac_codebooks@, mcu_schedule@);
            &&& t.wf()
            &&& refs_wf(dc_codebooks@)
            &&& refs_wf(ac_codebooks@)
            &&& mcu_schedule@.len() == blocks_per_mcu
            &&& forall|i: int|
                0 <= i < old(s_info)@.len() ==> state_ok(#[trigger] old(s_info)@[i], t)
        },
    ensures
        ({
            let s = old(s_info)@;
            let t = scan_tables(dc_codebooks@, ac_codebooks@, mcu_schedule@);
            let stream = *bitstream;
            if s.len() <= 1 {
                outcome == (Phase2Outcome::Converged { iterations: 0 }) && final(s_info)@ == s
            } else {
                outcome matches Phase2Outcome::Converged { iterations } && {
                    &&& iterations < s.len()
                    &&& forall|i: int|
                        0 <= i < final(s_info)@.len() ==> state_ok(
                            #[trigger] final(s_info)@[i],
                            t,
                        )
                    &&& final(s_info)@ == true_states(
                        s[0],
                        stream,
                        t,
                        subsequence_bits,
                        s.len(),
                    )
                    &&& final(s_info)@ == propagations(
                        s,
                        stream,
                        t,
                        subsequence_bits,
                        iterations as nat,
                    )
                    &&& forall|k: nat|
                        k < iterations ==> propagated(
                            #[trigger] propagations(s, stream, t, subsequence_bits, k),
                            stream,
                            t,
                            subsequence_bits,
                        ) != propagations(s, stream, t, subsequence_bits, k)
                }
            }
        }),
{
    let n: usize = s_info.len();
    if n <= 1 {
        return Phase2Outcome::Converged { iterations: 0 };
    }
    let bound: u32 = jpeg_phase2_retry_bound(n);
    let ghost s = s_info@;
    let ghost t = scan_tables(dc_codebooks@, ac_codebooks@, mcu_schedule@);
    let length_bits: u32 = bitstream.length_bits;
    let mut iter: u32 = 0;
    while iter <= bound
        invariant
            1 < n == s.len(),
            n <= u32::MAX,
            bound == n - 1,
            iter <= bound + 1,
            s == old(s_info)@,
            length_bits == bitstream.length_bits,
            t == scan_tables(dc_codebooks@, ac_codebooks@, mcu_schedule@),
            t.wf(),
            refs_wf(dc_codebooks@),
            refs_wf(ac_codebooks@),
            mcu_schedule@.len() == blocks_per_mcu,
            s_info@ == propagations(s, *bitstream, t, subsequence_bits, iter as nat),
            s_info@.len() == n,
            forall|i: int| 0 <= i < n ==> state_ok(#[trigger] s_info@[i], t),
            forall|k: nat|
                k < iter ==> propagated(
                    #[trigger] propagations(s, *bitstream, t, subsequence_bits, k),
                    *bitstream,
                    t,
                    subsequence_bits,
                ) != propagations(s, *bitstream, t, subsequence_bits, k),
        decreases bound + 1 - iter,
    {
        let ghost before = s_info@;
        let ghost after = propagated(before, *bitstream, t, subsequence_bits);
        let mut all_fixed: bool = true;
        // From the right, so that each state still reads its neighbour's
        // previous value.
        let mut i: usize = n - 1;
        while i > 0
            invariant
                0 <= i < n == before.len(),
                1 < n <= u32::MAX,
                length_bits == bitstream.length_bits,
                t == scan_tables(dc_codebooks@, ac_codebooks@, mcu_schedule@),
                t.wf(),
                refs_wf(dc_codebooks@),
                refs_wf(ac_codebooks@),
                mcu_schedule@.len() == blocks_per_mcu,
                after == propagated(before, *bitstream, t, subsequence_bits),
                s_info@.len() == n,
                forall|k: int| 0 <= k <= i ==> s_info@[k] == before[k],
                forall|k: int| i < k < n ==> s_info@[k] == after[k],
                forall|k: int| 0 <= k < n ==> state_ok(#[trigger] s_info@[k], t),
                all_fixed <==> (forall|k: int| i < k < n ==> after[k] == before[k]),
            decreases i,
        {
            let next_start: u32 = clamped_product((i + 1) as u32, subsequence_bits);
            let end: u32 = if next_start < length_bits {
                next_start
            } else {
                length_bits
            };
            let out = jpeg_phase2_redecode(
                s_info[i - 1],
                end,
                bitstream,
                dc_codebooks,
                ac_codebooks,
                mcu_schedule,
                blocks_per_mcu,
            );
            assert(out == after[i as int]);
            let held = s_info[i];
            if !(out.p == held.p && out.n == held.n && out.c == held.c && out.z == held.z) {
                all_fixed = false;
            }
            s_info[i] = out;
            i = i - 1;
        }
        assert(s_info@ =~= after);
        if all_fixed {
            proof {
                assert(after =~= before);
                law_fixpoint_is_truth(before, *bitstream, t, subsequence_bits);
                law_truth_propagates_one_state_per_pass(
                    s,
                    *bitstream,
                    t,
                    subsequence_bits,
                    iter as nat,
                    0,
                );
            }
            return Phase2Outcome::Converged { iterations: iter };
        }
        proof {
            assert(after != before) by {
                if after == before {
                    assert(forall|k: int| 0 < k < n ==> after[k] == before[k]);
                }
            }
            if iter == bound {
                // After `n - 1` passes every state is true, and a further
                // pass changes nothing.
                assert forall|k: int| 0 <= k < n implies after[k] == before[k] by {
                    law_truth_propagates_one_state_per_pass(
                        s,
                        *bitstream,
                        t,
                        subsequence_bits,
                        iter as nat,
                        k as nat,
                    );
                    law_truth_propagates_one_state_per_pass(
                        s,
                        *bitstream,
                        t,
                        subsequence_bits,
                        (iter + 1) as nat,
                        k as nat,
                    );
                }
                assert(after =~= before);
            }
        }
        iter = iter + 1;
    }
    proof {
        // The pass at the bound has returned.
        let last = propagations(s, *bitstream, t, subsequence_bits, bound as nat);
        let more = propagated(last, *bitstream, t, subsequence_bits);
        assert forall|k: int| 0 <= k < n implies more[k] == last[k] by {
            law_truth_propagates_one_state_per_pass(
                s,
                *bitstream,
                t,
                subsequence_bits,
                bound as nat,
                k as nat,
            );
            law_truth_propagates_one_state_per_pass(
                s,
                *bitstream,
                t,
                subsequence_bits,
                (bound + 1) as nat,
                k as nat,
            );
        }
        lemma_propagations_len(s, *bitstream, t, subsequence_bits, bound as nat);
        assert(more =~= last);
        assert(false);
    }
    Phase2Outcome::SyncBoundExceeded { bound }
}

/// The true states are those of one straight walk: from a first state that
/// walks to the end of its region, the true state of region `i` stands where
/// a single walk to the end of region `i` stands, as long as that walk meets
/// no AC overflow.
pub proof fn law_true_states_are_the_straight_walk(
    start: SubsequenceState,
    stream: PackedBitstream,
    t: ScanTables,
    subsequence_bits: u32,
    i: nat,
)
    requires
        forall|k: nat|
            k <= i ==> jpeg_walked(
                start,
                stream,
                t,
                #[trigger] region_end(k as int, stream.length_bits, subsequence_bits),
                0,
            ).1 != Phase1Stop::AcOverflow,
    ensures
        ({
            let end0 = region_end(0, stream.length_bits, subsequence_bits);
            let first = jpeg_walked(start, stream, t, end0, end0).0;
            let end = region_end(i as int, stream.length_bits, subsequence_bits);
            same_place(
                true_state(first, stream, t, subsequence_bits, i),
                jpeg_walked(start, stream, t, end, 0).0,
            )
        }),
    decreases i,
{
    let end0 = region_end(0, stream.length_bits, subsequence_bits);
    let first = jpeg_walked(start, stream, t, end0, end0).0;
    let end = region_end(i as int, stream.length_bits, subsequence_bits);
    if i == 0 {
        lemma_walk_ignores_count(start, start, stream, t, end0, end0, 0);
    } else {
        let prev_end = region_end(i - 1, stream.length_bits, subsequence_bits);
        law_true_states_are_the_straight_walk(
            start,
            stream,
            t,
            subsequence_bits,
            (i - 1) as nat,
        );
        assert(prev_end <= end) by {
            assert((i - 1 + 1) * subsequence_bits <= (i + 1) * subsequence_bits)
                by (nonlinear_arith)
                requires
                    i >= 1,
                    subsequence_bits >= 0,
            ;
        }
        assert(region_end((i - 1) as nat as int, stream.length_bits, subsequence_bits)
            == prev_end);
        law_split_jpeg_walk_is_continued_walk(start, stream, t, prev_end, end, 0);
        let prev = true_state(first, stream, t, subsequence_bits, (i - 1) as nat);
        let straight = jpeg_walked(start, stream, t, prev_end, 0).0;
        lemma_walk_ignores_count(
            SubsequenceState { n: 0, ..prev },
            straight,
            stream,
            t,
            end,
            end,
            0,
        );
    }
}

} // verus!
