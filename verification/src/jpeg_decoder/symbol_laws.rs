//! The parallel decode yields the scan's symbols.
//!
//! Every region of a stream is decoded from the true state before it, and
//! its symbols go where the prefix sums of the symbol counts say.  What is
//! written there is the symbol stream of one straight walk, whatever the
//! size of the regions, and the straight walk emits what the sequential
//! walker over the scan's blocks emits.

use super::bitstream::PackedBitstream;
use super::jpeg_walk::{
    entry_at, jpeg_crossing, jpeg_step, jpeg_walked, law_split_jpeg_walk_is_continued_walk,
    lemma_walk_ignores_count, same_place, ScanTables,
};
use super::offsets::{counts_of, running};
use super::phase1_oracle::{JpegStep, Phase1Stop, SubsequenceState};
use super::phase2_oracle::{
    law_true_states_are_the_straight_walk, region_end, true_state, true_states,
};
use vstd::prelude::*;

verus! {

/// The symbols that a walk from `s` up to `hard_limit` decodes.
pub open spec fn jpeg_symbols(
    s: SubsequenceState,
    stream: PackedBitstream,
    t: ScanTables,
    hard_limit: u32,
) -> Seq<u32>
    decreases u32::MAX - s.p,
{
    if s.p >= hard_limit {
        Seq::empty()
    } else {
        match jpeg_step(s, stream, t, hard_limit) {
            JpegStep::Failed(_, _) => Seq::empty(),
            JpegStep::Advanced(next) => seq![entry_at(s, stream, t).symbol as u32]
                + jpeg_symbols(next, stream, t, hard_limit),
        }
    }
}

/// The symbol count does not influence which symbols a walk decodes.
pub proof fn lemma_symbols_ignore_count(
    a: SubsequenceState,
    b: SubsequenceState,
    stream: PackedBitstream,
    t: ScanTables,
    hard_limit: u32,
)
    requires
        same_place(a, b),
    ensures
        jpeg_symbols(a, stream, t, hard_limit) == jpeg_symbols(b, stream, t, hard_limit),
    decreases u32::MAX - a.p,
{
    if a.p < hard_limit {
        if let JpegStep::Advanced(x) = jpeg_step(a, stream, t, hard_limit) {
            if let JpegStep::Advanced(y) = jpeg_step(b, stream, t, hard_limit) {
                lemma_symbols_ignore_count(x, y, stream, t, hard_limit);
            }
        }
    }
}

/// A walk counts the symbols it decodes.
pub proof fn law_walk_counts_its_symbols(
    s: SubsequenceState,
    stream: PackedBitstream,
    t: ScanTables,
    hard_limit: u32,
)
    requires
        s.n <= s.p,
        jpeg_walked(s, stream, t, hard_limit, hard_limit).1 != Phase1Stop::AcOverflow,
    ensures
        jpeg_walked(s, stream, t, hard_limit, hard_limit).0.n == s.n + jpeg_symbols(
            s,
            stream,
            t,
            hard_limit,
        ).len(),
    decreases u32::MAX - s.p,
{
    if s.p < hard_limit {
        if let JpegStep::Advanced(next) = jpeg_step(s, stream, t, hard_limit) {
            law_walk_counts_its_symbols(next, stream, t, hard_limit);
        }
    }
}

/// The symbols up to a limit are those up to an earlier one and those that
/// follow from there.
pub proof fn law_symbols_of_a_split_walk(
    s: SubsequenceState,
    stream: PackedBitstream,
    t: ScanTables,
    first_limit: u32,
    hard_limit: u32,
    count_to: u32,
)
    requires
        first_limit <= hard_limit,
        jpeg_walked(s, stream, t, first_limit, count_to).1 != Phase1Stop::AcOverflow,
    ensures
        jpeg_symbols(s, stream, t, hard_limit) == jpeg_symbols(s, stream, t, first_limit)
            + jpeg_symbols(
            jpeg_walked(s, stream, t, first_limit, count_to).0,
            stream,
            t,
            hard_limit,
        ),
    decreases u32::MAX - s.p,
{
    let rest = jpeg_symbols(
        jpeg_walked(s, stream, t, first_limit, count_to).0,
        stream,
        t,
        hard_limit,
    );
    if s.p < first_limit {
        match jpeg_step(s, stream, t, count_to) {
            JpegStep::Advanced(next) => {
                let e = seq![entry_at(s, stream, t).symbol as u32];
                let a = jpeg_step(s, stream, t, first_limit)->Advanced_0;
                let b = jpeg_step(s, stream, t, hard_limit)->Advanced_0;
                law_symbols_of_a_split_walk(next, stream, t, first_limit, hard_limit, count_to);
                lemma_symbols_ignore_count(a, next, stream, t, first_limit);
                lemma_symbols_ignore_count(b, next, stream, t, hard_limit);
                assert(e + (jpeg_symbols(next, stream, t, first_limit) + rest) =~= e
                    + jpeg_symbols(next, stream, t, first_limit) + rest);
            },
            JpegStep::Failed(at, stop) => {
                assert(at == s);
                assert(Seq::<u32>::empty() + rest =~= rest);
            },
        }
    } else {
        assert(Seq::<u32>::empty() + rest =~= rest);
    }
}

/// The snapshot that a walk takes where it crosses `count_to` is the state
/// of a walk that stops there, however far the walk goes on.
pub proof fn law_snapshot_is_the_state_at_the_boundary(
    s: SubsequenceState,
    stream: PackedBitstream,
    t: ScanTables,
    hard_limit: u32,
    count_to: u32,
)
    requires
        s.p < count_to <= hard_limit,
    ensures
        (match jpeg_crossing(s, stream, t, hard_limit, count_to) {
            Some(snapshot) => snapshot,
            None => jpeg_walked(s, stream, t, hard_limit, count_to).0,
        }) == jpeg_walked(s, stream, t, count_to, count_to).0,
    decreases u32::MAX - s.p,
{
    if let JpegStep::Advanced(next) = jpeg_step(s, stream, t, count_to) {
        if next.p < count_to {
            law_snapshot_is_the_state_at_the_boundary(next, stream, t, hard_limit, count_to);
        } else {
            assert(jpeg_walked(next, stream, t, count_to, count_to).0 == next);
        }
    }
}

/// The first region's state, when the stream is entered at `start`.
pub open spec fn first_state(
    start: SubsequenceState,
    stream: PackedBitstream,
    t: ScanTables,
    subsequence_bits: u32,
) -> SubsequenceState {
    let end = region_end(0, stream.length_bits, subsequence_bits);
    jpeg_walked(start, stream, t, end, end).0
}

/// The symbols of region `i`, decoded from the true state before it.
pub open spec fn region_symbols(
    start: SubsequenceState,
    stream: PackedBitstream,
    t: ScanTables,
    subsequence_bits: u32,
    i: nat,
) -> Seq<u32> {
    let entered = if i == 0 {
        start
    } else {
        true_state(
            first_state(start, stream, t, subsequence_bits),
            stream,
            t,
            subsequence_bits,
            (i - 1) as nat,
        )
    };
    jpeg_symbols(
        entered,
        stream,
        t,
        region_end(i as int, stream.length_bits, subsequence_bits),
    )
}

/// No walk to the end of one of the first `n` regions meets an AC overflow.
pub open spec fn overflow_free(
    start: SubsequenceState,
    stream: PackedBitstream,
    t: ScanTables,
    subsequence_bits: u32,
    n: nat,
) -> bool {
    forall|k: nat|
        k < n ==> jpeg_walked(
            start,
            stream,
            t,
            #[trigger] region_end(k as int, stream.length_bits, subsequence_bits),
            0,
        ).1 != Phase1Stop::AcOverflow
}

/// No region ends before the one in front of it.
pub proof fn lemma_region_ends_rise(i: int, length_bits: u32, subsequence_bits: u32)
    requires
        i >= 1,
    ensures
        region_end(i - 1, length_bits, subsequence_bits) <= region_end(
            i,
            length_bits,
            subsequence_bits,
        ),
{
    assert((i - 1 + 1) * subsequence_bits <= (i + 1) * subsequence_bits) by (nonlinear_arith)
        requires
            i >= 1,
            subsequence_bits >= 0,
    ;
}

/// A region's symbols continue those of the regions before it, and its true
/// state counts them.
pub proof fn law_regions_continue_the_walk(
    start: SubsequenceState,
    stream: PackedBitstream,
    t: ScanTables,
    subsequence_bits: u32,
    i: nat,
)
    requires
        start.n == 0,
        overflow_free(start, stream, t, subsequence_bits, i + 1),
    ensures
        ({
            let end = region_end(i as int, stream.length_bits, subsequence_bits);
            let first = first_state(start, stream, t, subsequence_bits);
            let here = region_symbols(start, stream, t, subsequence_bits, i);
            let before = if i == 0 {
                Seq::empty()
            } else {
                jpeg_symbols(
                    start,
                    stream,
                    t,
                    region_end(i - 1, stream.length_bits, subsequence_bits),
                )
            };
            &&& jpeg_symbols(start, stream, t, end) == before + here
            &&& true_state(first, stream, t, subsequence_bits, i).n == here.len()
        }),
{
    let end = region_end(i as int, stream.length_bits, subsequence_bits);
    let first = first_state(start, stream, t, subsequence_bits);
    let here = region_symbols(start, stream, t, subsequence_bits, i);
    if i == 0 {
        assert(Seq::<u32>::empty() + here =~= here);
        lemma_walk_ignores_count(start, start, stream, t, end, end, 0);
        law_walk_counts_its_symbols(start, stream, t, end);
    } else {
        let prev_end = region_end(i - 1, stream.length_bits, subsequence_bits);
        let straight = jpeg_walked(start, stream, t, prev_end, 0).0;
        let prev = true_state(first, stream, t, subsequence_bits, (i - 1) as nat);
        let entered = SubsequenceState { n: 0, ..prev };
        lemma_region_ends_rise(i as int, stream.length_bits, subsequence_bits);
        assert(region_end((i - 1) as nat as int, stream.length_bits, subsequence_bits)
            == prev_end);
        law_true_states_are_the_straight_walk(
            start,
            stream,
            t,
            subsequence_bits,
            (i - 1) as nat,
        );
        law_symbols_of_a_split_walk(start, stream, t, prev_end, end, 0);
        lemma_symbols_ignore_count(prev, straight, stream, t, end);
        lemma_symbols_ignore_count(entered, straight, stream, t, end);
        law_split_jpeg_walk_is_continued_walk(start, stream, t, prev_end, end, 0);
        lemma_walk_ignores_count(entered, straight, stream, t, end, end, 0);
        law_walk_counts_its_symbols(entered, stream, t, end);
    }
}

/// The symbols of the first `n` regions, one region behind the other.
pub open spec fn gathered(
    start: SubsequenceState,
    stream: PackedBitstream,
    t: ScanTables,
    subsequence_bits: u32,
    n: nat,
) -> Seq<u32>
    decreases n,
{
    if n == 0 {
        Seq::empty()
    } else {
        gathered(start, stream, t, subsequence_bits, (n - 1) as nat) + region_symbols(
            start,
            stream,
            t,
            subsequence_bits,
            (n - 1) as nat,
        )
    }
}

/// Gathered, the regions' symbols are those of one straight walk, whatever
/// the size of the regions.
pub proof fn law_gathered_symbols_are_the_straight_walk(
    start: SubsequenceState,
    stream: PackedBitstream,
    t: ScanTables,
    subsequence_bits: u32,
    n: nat,
)
    requires
        start.n == 0,
        n >= 1,
        overflow_free(start, stream, t, subsequence_bits, n),
    ensures
        gathered(start, stream, t, subsequence_bits, n) == jpeg_symbols(
            start,
            stream,
            t,
            region_end(n - 1, stream.length_bits, subsequence_bits),
        ),
    decreases n,
{
    law_regions_continue_the_walk(start, stream, t, subsequence_bits, (n - 1) as nat);
    if n > 1 {
        law_gathered_symbols_are_the_straight_walk(
            start,
            stream,
            t,
            subsequence_bits,
            (n - 1) as nat,
        );
    } else {
        assert(gathered(start, stream, t, subsequence_bits, 0) =~= Seq::empty());
    }
}

/// The regions' symbols, each put where the prefix sum of the counts before
/// it says, are the symbols of one straight walk: they fill the output
/// without gap or overlap.
pub proof fn law_offsets_place_the_symbols(
    start: SubsequenceState,
    stream: PackedBitstream,
    t: ScanTables,
    subsequence_bits: u32,
    n: nat,
    i: nat,
)
    requires
        start.n == 0,
        i < n,
        overflow_free(start, stream, t, subsequence_bits, n),
    ensures
        ({
            let states = true_states(
                first_state(start, stream, t, subsequence_bits),
                stream,
                t,
                subsequence_bits,
                n,
            );
            let counts = counts_of(states);
            let out = jpeg_symbols(
                start,
                stream,
                t,
                region_end(n - 1, stream.length_bits, subsequence_bits),
            );
            let offset = running(counts, i) as int;
            &&& running(counts, n) == out.len()
            &&& 0 <= offset <= offset + counts[i as int] <= out.len()
            &&& out.subrange(offset, offset + counts[i as int]) == region_symbols(
                start,
                stream,
                t,
                subsequence_bits,
                i,
            )
        }),
    decreases n,
{
    let first = first_state(start, stream, t, subsequence_bits);
    let states = true_states(first, stream, t, subsequence_bits, n);
    let counts = counts_of(states);
    let end = region_end(n - 1, stream.length_bits, subsequence_bits);
    let out = jpeg_symbols(start, stream, t, end);
    let last = (n - 1) as nat;
    let here = region_symbols(start, stream, t, subsequence_bits, last);
    law_regions_continue_the_walk(start, stream, t, subsequence_bits, last);
    assert(counts[n - 1] == here.len());
    if n == 1 {
        assert(running(counts, 0) == 0);
        assert(running(counts, 1) == counts[0]);
        assert(out.subrange(0, counts[0] as int) =~= here);
    } else {
        let fewer = counts_of(true_states(first, stream, t, subsequence_bits, last));
        let before = jpeg_symbols(
            start,
            stream,
            t,
            region_end(n - 2, stream.length_bits, subsequence_bits),
        );
        law_offsets_place_the_symbols(start, stream, t, subsequence_bits, last, 0);
        lemma_running_of_prefix(fewer, counts, last);
        lemma_running_of_prefix(fewer, counts, if i < last {
            i
        } else {
            last
        });
        if i < last {
            law_offsets_place_the_symbols(start, stream, t, subsequence_bits, last, i);
            let offset = running(counts, i) as int;
            assert(fewer[i as int] == counts[i as int]);
            assert(out.subrange(offset, offset + counts[i as int]) =~= before.subrange(
                offset,
                offset + counts[i as int],
            ));
        } else {
            let offset = running(counts, i) as int;
            assert(out.subrange(offset, offset + counts[i as int]) =~= here);
        }
    }
}

proof fn lemma_running_of_prefix(a: Seq<u32>, b: Seq<u32>, i: nat)
    requires
        i <= a.len() <= b.len(),
        forall|k: int| 0 <= k < a.len() ==> a[k] == b[k],
    ensures
        running(a, i) == running(b, i),
    decreases i,
{
    if i > 0 {
        lemma_running_of_prefix(a, b, (i - 1) as nat);
    }
}

} // verus!
