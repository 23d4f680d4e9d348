//! Synthetic streams: what was encoded comes back.
//!
//! Phase 2 of a synthetic stream only compares neighbouring states, so the
//! decode is right where the regions are in step: where each region's state
//! is what its left neighbour's state leads to.  Then the symbols that
//! phase 4 decodes again, put where the prefix sums of the counts say, are
//! those that the stream was encoded from.

use super::bitstream::PackedBitstream;
use super::jpeg_walk::same_place;
use super::offsets::{counts_of, running};
use super::phase1_oracle::{
    crossing, fresh, symbol_step, walked, Phase1Stop, StepOutcome, SubsequenceState,
};
use super::phase2_oracle::{region_end, region_start};
use super::symbol_laws::lemma_region_ends_rise;
use crate::bits::{bits, lemma_bits_bound, lemma_bits_split};
use crate::jpeg::canonical::{
    built_table, canonical_code, code_lengths, law_lookup_finds_the_code, lemma_code_lengths_wf,
    span, CanonicalEntry,
};
use vstd::arithmetic::div_mod::*;
use vstd::arithmetic::power2::*;
use vstd::prelude::*;

verus! {

/// The code table entry that the bits at state `s` look up.
pub open spec fn plain_entry(
    s: SubsequenceState,
    stream: PackedBitstream,
    tables: Seq<Seq<CanonicalEntry>>,
) -> CanonicalEntry {
    tables[s.c as int][bits(stream.bytes(), s.p as int, 16) as int]
}

/// The symbols that a walk from `s` up to `hard_limit` decodes.
pub open spec fn plain_symbols(
    s: SubsequenceState,
    stream: PackedBitstream,
    tables: Seq<Seq<CanonicalEntry>>,
    hard_limit: u32,
) -> Seq<u32>
    decreases u32::MAX - s.p,
{
    if s.p >= hard_limit {
        Seq::empty()
    } else {
        match symbol_step(s, stream, tables, hard_limit) {
            StepOutcome::Advanced(next) => seq![plain_entry(s, stream, tables).symbol as u32]
                + plain_symbols(next, stream, tables, hard_limit),
            _ => Seq::empty(),
        }
    }
}

/// The symbol count influences neither where a walk goes nor what it decodes.
proof fn lemma_ignores_count(
    a: SubsequenceState,
    b: SubsequenceState,
    stream: PackedBitstream,
    tables: Seq<Seq<CanonicalEntry>>,
    hard_limit: u32,
    count_a: u32,
    count_b: u32,
)
    requires
        same_place(a, b),
    ensures
        same_place(
            walked(a, stream, tables, hard_limit, count_a).0,
            walked(b, stream, tables, hard_limit, count_b).0,
        ),
        plain_symbols(a, stream, tables, hard_limit) == plain_symbols(
            b,
            stream,
            tables,
            hard_limit,
        ),
    decreases u32::MAX - a.p,
{
    if a.p < hard_limit {
        if let StepOutcome::Advanced(x) = symbol_step(a, stream, tables, count_a) {
            let y = symbol_step(b, stream, tables, count_b)->Advanced_0;
            let u = symbol_step(a, stream, tables, hard_limit)->Advanced_0;
            let v = symbol_step(b, stream, tables, hard_limit)->Advanced_0;
            lemma_ignores_count(x, y, stream, tables, hard_limit, count_a, count_b);
            lemma_ignores_count(u, x, stream, tables, hard_limit, count_a, count_b);
            lemma_ignores_count(v, y, stream, tables, hard_limit, count_a, count_b);
        }
    }
}

/// A walk counts the symbols it decodes.
pub proof fn law_plain_walk_counts_its_symbols(
    s: SubsequenceState,
    stream: PackedBitstream,
    tables: Seq<Seq<CanonicalEntry>>,
    hard_limit: u32,
)
    requires
        s.n <= s.p,
    ensures
        walked(s, stream, tables, hard_limit, hard_limit).0.n == s.n + plain_symbols(
            s,
            stream,
            tables,
            hard_limit,
        ).len(),
    decreases u32::MAX - s.p,
{
    if s.p < hard_limit {
        if let StepOutcome::Advanced(next) = symbol_step(s, stream, tables, hard_limit) {
            law_plain_walk_counts_its_symbols(next, stream, tables, hard_limit);
        }
    }
}

/// The symbols up to a limit are those up to an earlier one and those that
/// follow from there, and the walk ends where the continued walk ends.
pub proof fn law_plain_symbols_of_a_split_walk(
    s: SubsequenceState,
    stream: PackedBitstream,
    tables: Seq<Seq<CanonicalEntry>>,
    first_limit: u32,
    hard_limit: u32,
    count_to: u32,
)
    requires
        first_limit <= hard_limit,
    ensures
        ({
            let middle = walked(s, stream, tables, first_limit, count_to).0;
            &&& plain_symbols(s, stream, tables, hard_limit) == plain_symbols(
                s,
                stream,
                tables,
                first_limit,
            ) + plain_symbols(middle, stream, tables, hard_limit)
            &&& walked(s, stream, tables, hard_limit, count_to) == walked(
                middle,
                stream,
                tables,
                hard_limit,
                count_to,
            )
        }),
    decreases u32::MAX - s.p,
{
    let middle = walked(s, stream, tables, first_limit, count_to).0;
    let rest = plain_symbols(middle, stream, tables, hard_limit);
    assert(Seq::<u32>::empty() + rest =~= rest);
    if s.p < first_limit {
        if let StepOutcome::Advanced(next) = symbol_step(s, stream, tables, count_to) {
            let e = seq![plain_entry(s, stream, tables).symbol as u32];
            let a = symbol_step(s, stream, tables, first_limit)->Advanced_0;
            let b = symbol_step(s, stream, tables, hard_limit)->Advanced_0;
            law_plain_symbols_of_a_split_walk(
                next,
                stream,
                tables,
                first_limit,
                hard_limit,
                count_to,
            );
            lemma_ignores_count(a, next, stream, tables, first_limit, 0, 0);
            lemma_ignores_count(b, next, stream, tables, hard_limit, 0, 0);
            assert(e + (plain_symbols(next, stream, tables, first_limit) + rest) =~= e
                + plain_symbols(next, stream, tables, first_limit) + rest);
        }
    }
}

/// The snapshot that a walk takes where it crosses `count_to` is the state
/// of a walk that stops there, however far the walk goes on.
pub proof fn law_plain_snapshot_is_the_state_at_the_boundary(
    s: SubsequenceState,
    stream: PackedBitstream,
    tables: Seq<Seq<CanonicalEntry>>,
    hard_limit: u32,
    count_to: u32,
)
    requires
        s.p < count_to <= hard_limit,
    ensures
        (match crossing(s, stream, tables, hard_limit, count_to) {
            Some(snapshot) => snapshot,
            None => walked(s, stream, tables, hard_limit, count_to).0,
        }) == walked(s, stream, tables, count_to, count_to).0,
    decreases u32::MAX - s.p,
{
    if let StepOutcome::Advanced(next) = symbol_step(s, stream, tables, count_to) {
        if next.p < count_to {
            law_plain_snapshot_is_the_state_at_the_boundary(
                next,
                stream,
                tables,
                hard_limit,
                count_to,
            );
        } else {
            assert(walked(next, stream, tables, count_to, count_to).0 == next);
        }
    }
}

/// The state in front of region `i`.
pub open spec fn entered(states: Seq<SubsequenceState>, i: int) -> SubsequenceState {
    if i == 0 {
        fresh(0)
    } else {
        SubsequenceState { n: 0, ..states[i - 1] }
    }
}

/// The regions are in step: each state is what the one before it leads to.
pub open spec fn in_step(
    states: Seq<SubsequenceState>,
    stream: PackedBitstream,
    tables: Seq<Seq<CanonicalEntry>>,
    subsequence_bits: u32,
) -> bool {
    forall|i: int|
        0 <= i < states.len() ==> #[trigger] states[i] == walked(
            entered(states, i),
            stream,
            tables,
            region_end(i, stream.length_bits, subsequence_bits),
            region_end(i, stream.length_bits, subsequence_bits),
        ).0
}

/// The symbols that phase 4 decodes again for region `i`: from where the
/// region before it ended to where it ended itself.
pub open spec fn redecoded_symbols(
    states: Seq<SubsequenceState>,
    stream: PackedBitstream,
    tables: Seq<Seq<CanonicalEntry>>,
    i: int,
) -> Seq<u32> {
    plain_symbols(entered(states, i), stream, tables, states[i].p)
}

/// A walk decodes no further than to where it ends.
proof fn lemma_symbols_to_the_end(
    s: SubsequenceState,
    stream: PackedBitstream,
    tables: Seq<Seq<CanonicalEntry>>,
    hard_limit: u32,
    count_to: u32,
)
    ensures
        s.p <= walked(s, stream, tables, hard_limit, count_to).0.p,
        plain_symbols(
            s,
            stream,
            tables,
            walked(s, stream, tables, hard_limit, count_to).0.p,
        ) == plain_symbols(s, stream, tables, hard_limit),
    decreases u32::MAX - s.p,
{
    if s.p < hard_limit {
        if let StepOutcome::Advanced(next) = symbol_step(s, stream, tables, count_to) {
            lemma_symbols_to_the_end(next, stream, tables, hard_limit, count_to);
            let end = walked(s, stream, tables, hard_limit, count_to).0.p;
            let a = symbol_step(s, stream, tables, end)->Advanced_0;
            let b = symbol_step(s, stream, tables, hard_limit)->Advanced_0;
            lemma_ignores_count(a, next, stream, tables, end, 0, 0);
            lemma_ignores_count(b, next, stream, tables, hard_limit, 0, 0);
        }
    }
}

/// Regions in step stand where one straight walk stands, and continue its
/// symbols.
proof fn lemma_in_step(
    states: Seq<SubsequenceState>,
    stream: PackedBitstream,
    tables: Seq<Seq<CanonicalEntry>>,
    subsequence_bits: u32,
    i: nat,
)
    requires
        in_step(states, stream, tables, subsequence_bits),
        i < states.len(),
    ensures
        ({
            let end = region_end(i as int, stream.length_bits, subsequence_bits);
            let before = if i == 0 {
                Seq::empty()
            } else {
                plain_symbols(
                    fresh(0),
                    stream,
                    tables,
                    region_end(i - 1, stream.length_bits, subsequence_bits),
                )
            };
            let here = redecoded_symbols(states, stream, tables, i as int);
            &&& same_place(states[i as int], walked(fresh(0), stream, tables, end, 0).0)
            &&& plain_symbols(fresh(0), stream, tables, end) == before + here
            &&& states[i as int].n == here.len()
        }),
    decreases i,
{
    let end = region_end(i as int, stream.length_bits, subsequence_bits);
    let from = entered(states, i as int);
    let here = redecoded_symbols(states, stream, tables, i as int);
    assert(states[i as int] == walked(from, stream, tables, end, end).0);
    lemma_symbols_to_the_end(from, stream, tables, end, end);
    law_plain_walk_counts_its_symbols(from, stream, tables, end);
    if i == 0 {
        lemma_ignores_count(from, from, stream, tables, end, end, 0);
        assert(Seq::<u32>::empty() + here =~= here);
    } else {
        let prev_end = region_end(i - 1, stream.length_bits, subsequence_bits);
        let straight = walked(fresh(0), stream, tables, prev_end, 0).0;
        lemma_in_step(states, stream, tables, subsequence_bits, (i - 1) as nat);
        lemma_region_ends_rise(i as int, stream.length_bits, subsequence_bits);
        law_plain_symbols_of_a_split_walk(fresh(0), stream, tables, prev_end, end, 0);
        lemma_ignores_count(from, straight, stream, tables, end, end, 0);
    }
}

/// The symbols that phase 4 decodes for regions in step, each region's put
/// where the prefix sum of the counts says, are those of one straight walk:
/// they fill the output without gap or overlap.
pub proof fn law_regions_in_step_hold_the_walk(
    states: Seq<SubsequenceState>,
    stream: PackedBitstream,
    tables: Seq<Seq<CanonicalEntry>>,
    subsequence_bits: u32,
    i: nat,
)
    requires
        in_step(states, stream, tables, subsequence_bits),
        i < states.len(),
    ensures
        ({
            let n = states.len();
            let counts = counts_of(states);
            let out = plain_symbols(
                fresh(0),
                stream,
                tables,
                region_end(n - 1, stream.length_bits, subsequence_bits),
            );
            let offset = running(counts, i) as int;
            &&& running(counts, n) == out.len()
            &&& 0 <= offset <= offset + counts[i as int] <= out.len()
            &&& out.subrange(offset, offset + counts[i as int]) == redecoded_symbols(
                states,
                stream,
                tables,
                i as int,
            )
        }),
{
    let n = states.len();
    let counts = counts_of(states);
    let outs = Seq::new(
        n,
        |k: int|
            plain_symbols(
                fresh(0),
                stream,
                tables,
                region_end(k, stream.length_bits, subsequence_bits),
            ),
    );
    let parts = Seq::new(n, |k: int| redecoded_symbols(states, stream, tables, k));
    assert forall|k: int| 0 <= k < n implies {
        &&& outs[k] == (if k == 0 {
            Seq::empty()
        } else {
            outs[k - 1]
        }) + #[trigger] parts[k]
        &&& parts[k].len() == counts[k]
    } by {
        lemma_in_step(states, stream, tables, subsequence_bits, k as nat);
        assert(counts[k] == states[k].n);
    }
    lemma_parts_tile(outs, parts, counts, n, i);
}

/// Parts that continue one another stand where the running sums of their
/// lengths say.
proof fn lemma_parts_tile(
    outs: Seq<Seq<u32>>,
    parts: Seq<Seq<u32>>,
    counts: Seq<u32>,
    n: nat,
    i: nat,
)
    requires
        i < n <= outs.len(),
        outs.len() == parts.len() == counts.len(),
        forall|k: int|
            0 <= k < outs.len() ==> {
                &&& outs[k] == (if k == 0 {
                    Seq::empty()
                } else {
                    outs[k - 1]
                }) + #[trigger] parts[k]
                &&& parts[k].len() == counts[k]
            },
    ensures
        ({
            let out = outs[n - 1];
            let offset = running(counts, i) as int;
            &&& running(counts, n) == out.len()
            &&& 0 <= offset <= offset + counts[i as int] <= out.len()
            &&& out.subrange(offset, offset + counts[i as int]) == parts[i as int]
        }),
    decreases n,
{
    let last = (n - 1) as nat;
    let out = outs[n - 1];
    let offset = running(counts, i) as int;
    assert(parts[n - 1].len() == counts[n - 1]);
    assert(running(counts, n) == running(counts, last) + counts[n - 1]);
    if n == 1 {
        assert(running(counts, 0) == 0);
        assert(out.subrange(0, counts[0] as int) =~= parts[0]);
    } else {
        let before = outs[n - 2];
        lemma_parts_tile(outs, parts, counts, last, 0);
        if i < last {
            lemma_parts_tile(outs, parts, counts, last, i);
            assert(out.subrange(offset, offset + counts[i as int]) =~= before.subrange(
                offset,
                offset + counts[i as int],
            ));
        } else {
            assert(out.subrange(offset, offset + counts[i as int]) =~= parts[n - 1]);
        }
    }
}

/// The states of phase 1: every region decoded from its own first bit.
pub open spec fn phase1_states(
    stream: PackedBitstream,
    tables: Seq<Seq<CanonicalEntry>>,
    subsequence_bits: u32,
    n: nat,
) -> Seq<SubsequenceState> {
    Seq::new(
        n,
        |i: int|
            {
                let end = region_end(i, stream.length_bits, subsequence_bits);
                walked(fresh(region_start(i, subsequence_bits)), stream, tables, end, end).0
            },
    )
}

/// Where a straight walk stands at the front of every region with nothing
/// carried over, phase 1 leaves the regions in step.
pub proof fn law_clean_boundaries_leave_the_regions_in_step(
    stream: PackedBitstream,
    tables: Seq<Seq<CanonicalEntry>>,
    subsequence_bits: u32,
    n: nat,
)
    requires
        forall|i: int|
            0 < i < n ==> {
                let start = #[trigger] region_start(i, subsequence_bits);
                &&& start <= stream.length_bits
                &&& same_place(walked(fresh(0), stream, tables, start, 0).0, fresh(start))
            },
    ensures
        in_step(
            phase1_states(stream, tables, subsequence_bits, n),
            stream,
            tables,
            subsequence_bits,
        ),
{
    let states = phase1_states(stream, tables, subsequence_bits, n);
    assert forall|i: int| 0 <= i < n implies #[trigger] entered(states, i) == fresh(
        region_start(i, subsequence_bits),
    ) by {
        if i == 0 {
            assert(0 * subsequence_bits == 0) by (nonlinear_arith);
        } else {
            let start = region_start(i, subsequence_bits);
            let prev = region_start(i - 1, subsequence_bits);
            assert(region_end(i - 1, stream.length_bits, subsequence_bits) == start);
            assert(prev <= start) by {
                assert((i - 1) * subsequence_bits <= i * subsequence_bits) by (nonlinear_arith)
                    requires
                        subsequence_bits >= 0,
                ;
            }
            if i > 1 {
                law_plain_symbols_of_a_split_walk(fresh(0), stream, tables, prev, start, 0);
                lemma_ignores_count(
                    fresh(prev),
                    walked(fresh(0), stream, tables, prev, 0).0,
                    stream,
                    tables,
                    start,
                    start,
                    0,
                );
            } else {
                lemma_ignores_count(fresh(0), fresh(0), stream, tables, start, start, 0);
            }
        }
    }
}

/// The bits of `b` from `p` to `end` are the codes `ks`, each with the value
/// bits that its symbol asks for.
pub open spec fn spells(
    b: Seq<u8>,
    lens: Seq<u8>,
    values: Seq<u8>,
    ks: Seq<nat>,
    p: int,
    end: int,
) -> bool
    decreases ks.len(),
{
    if ks.len() == 0 {
        p == end
    } else {
        let k = ks[0];
        &&& k < lens.len()
        &&& bits(b, p, lens[k as int] as nat) == canonical_code(lens, k)
        &&& spells(
            b,
            lens,
            values,
            ks.skip(1),
            p + lens[k as int] + values[k as int] % 16,
            end,
        )
    }
}

/// The symbols of the codes `ks`.
pub open spec fn spelled(values: Seq<u8>, ks: Seq<nat>) -> Seq<u32> {
    ks.map_values(|k: nat| values[k as int] as u32)
}

/// A stream that was encoded with a table decodes to what was encoded.
pub proof fn law_encoded_symbols_come_back(
    s: SubsequenceState,
    stream: PackedBitstream,
    tables: Seq<Seq<CanonicalEntry>>,
    num_codes: Seq<u8>,
    values: Seq<u8>,
    ks: Seq<nat>,
)
    requires
        num_codes.len() == 16,
        built_table(num_codes, values) is Ok,
        1 <= tables.len() <= u32::MAX,
        forall|c: int|
            0 <= c < tables.len() ==> #[trigger] tables[c] == built_table(num_codes, values)->Ok_0,
        s.c < tables.len(),
        spells(
            stream.bytes(),
            code_lengths(num_codes, 16),
            values,
            ks,
            s.p as int,
            stream.length_bits as int,
        ),
    ensures
        plain_symbols(s, stream, tables, stream.length_bits) == spelled(values, ks),
        walked(s, stream, tables, stream.length_bits, stream.length_bits).0.p
            == stream.length_bits,
        walked(s, stream, tables, stream.length_bits, stream.length_bits).1
            == Phase1Stop::HardLimit,
    decreases ks.len(),
{
    let lens = code_lengths(num_codes, 16);
    let limit = stream.length_bits;
    if ks.len() == 0 {
        assert(spelled(values, ks) =~= Seq::empty());
    } else {
        let k = ks[0];
        let len = lens[k as int] as nat;
        let next_p = s.p + len + values[k as int] % 16;
        lemma_code_lengths_wf(num_codes, 16);
        lemma_spells_forward(stream.bytes(), lens, values, ks.skip(1), next_p, limit as int);
        let x = bits(stream.bytes(), s.p as int, 16);
        lemma2_to64();
        lemma_bits_bound(stream.bytes(), s.p as int, 16);
        lemma_bits_split(stream.bytes(), s.p as int, len, (16 - len) as nat);
        lemma_bits_bound(stream.bytes(), s.p + len, (16 - len) as nat);
        lemma_pow2_pos((16 - len) as nat);
        lemma_fundamental_div_mod_converse(
            x as int,
            span(lens[k as int]) as int,
            bits(stream.bytes(), s.p as int, len) as int,
            bits(stream.bytes(), s.p + len, (16 - len) as nat) as int,
        );
        law_lookup_finds_the_code(num_codes, values, k, x);
        let next = symbol_step(s, stream, tables, limit)->Advanced_0;
        assert(symbol_step(s, stream, tables, limit) is Advanced);
        assert(next.p == next_p);
        law_encoded_symbols_come_back(next, stream, tables, num_codes, values, ks.skip(1));
        assert(spelled(values, ks) =~= seq![values[k as int] as u32] + spelled(
            values,
            ks.skip(1),
        ));
    }
}

proof fn lemma_spells_forward(
    b: Seq<u8>,
    lens: Seq<u8>,
    values: Seq<u8>,
    ks: Seq<nat>,
    p: int,
    end: int,
)
    requires
        spells(b, lens, values, ks, p, end),
    ensures
        p <= end,
    decreases ks.len(),
{
    if ks.len() > 0 {
        let k = ks[0];
        lemma_spells_forward(
            b,
            lens,
            values,
            ks.skip(1),
            p + lens[k as int] + values[k as int] % 16,
            end,
        );
    }
}

/// Through all four phases, what was encoded comes back, where the regions
/// are in step: the counts add up to the number of the symbols, and each
/// region's symbols stand where its offset says.
pub proof fn law_encoded_symbols_survive_the_phases(
    states: Seq<SubsequenceState>,
    stream: PackedBitstream,
    tables: Seq<Seq<CanonicalEntry>>,
    subsequence_bits: u32,
    num_codes: Seq<u8>,
    values: Seq<u8>,
    ks: Seq<nat>,
)
    requires
        num_codes.len() == 16,
        built_table(num_codes, values) is Ok,
        1 <= tables.len() <= u32::MAX,
        forall|c: int|
            0 <= c < tables.len() ==> #[trigger] tables[c] == built_table(num_codes, values)->Ok_0,
        spells(
            stream.bytes(),
            code_lengths(num_codes, 16),
            values,
            ks,
            0,
            stream.length_bits as int,
        ),
        states.len() >= 1,
        region_end(states.len() - 1, stream.length_bits, subsequence_bits) == stream.length_bits,
        in_step(states, stream, tables, subsequence_bits),
    ensures
        ({
            let symbols = spelled(values, ks);
            let counts = counts_of(states);
            &&& running(counts, states.len()) == symbols.len()
            &&& forall|i: int|
                0 <= i < states.len() ==> #[trigger] redecoded_symbols(states, stream, tables, i)
                    == symbols.subrange(
                    running(counts, i as nat) as int,
                    running(counts, i as nat) + counts[i],
                )
        }),
{
    let symbols = spelled(values, ks);
    let counts = counts_of(states);
    law_encoded_symbols_come_back(fresh(0), stream, tables, num_codes, values, ks);
    law_regions_in_step_hold_the_walk(states, stream, tables, subsequence_bits, 0);
    assert forall|i: int| 0 <= i < states.len() implies #[trigger] redecoded_symbols(
        states,
        stream,
        tables,
        i,
    ) == symbols.subrange(
        running(counts, i as nat) as int,
        running(counts, i as nat) + counts[i],
    ) by {
        law_regions_in_step_hold_the_walk(states, stream, tables, subsequence_bits, i as nat);
    }
}

} // verus!
