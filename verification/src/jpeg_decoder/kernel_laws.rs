//! Runs on a device whose kernels do what their documentation says.
//!
//! The device keeps what the kernels write: the states of phases 1 and 2, the
//! sync flags, and the symbols and exit conditions of phase 4.  It decodes the
//! stream, the tables and the schedule that the run's job uploads.  A run on
//! such a device ends with the decoded symbols.

use super::bitstream::PackedBitstream;
use super::device::{ActionModel, HuffmanLaunch, ReplyModel, Slot};
use super::huffman_dispatch::{jpeg_job, plain_job};
use super::huffman_run::{
    action_of, advanced, all_ones, download_len, first_nonzero, flags_seen, launch_of, other_states,
    started, Goal, JobModel, OutputModel, RunModel, Step,
};
use super::jpeg_walk::{
    jpeg_crossing, jpeg_step, jpeg_walked, law_split_jpeg_walk_is_continued_walk,
    lemma_walk_ignores_count, ScanTables,
};
use super::offsets::{counts_of, lemma_running_grows, running, states_in};
use super::phase1_oracle::{fresh, tables_of, JpegStep, Phase1Stop, SubsequenceState};
use super::phase2_oracle::{
    ceil_log2, law_fixpoint_is_truth, law_true_states_are_the_straight_walk,
    law_truth_propagates_one_state_per_pass, propagated, propagations, region_end, region_start,
    synced, synced_pass, synced_passes, true_state, true_states,
};
use super::plain_laws::{
    entered, in_step, law_encoded_symbols_come_back, law_encoded_symbols_survive_the_phases,
    law_plain_walk_counts_its_symbols, phase1_states, redecoded_symbols, spelled, spells,
};
use super::prepared::JpegPreparedInput;
use super::scan_walk_laws::{byte_stream, filled_with_ones, law_parallel_decode_is_the_scan};
use super::symbol_laws::{
    first_state, jpeg_symbols, law_snapshot_is_the_state_at_the_boundary, lemma_region_ends_rise,
    lemma_symbols_ignore_count, overflow_free, region_symbols,
};
use crate::backend::error::ErrorModel;
use crate::backend::huffman_params::{subsequences, HuffmanPhase};
use crate::jpeg::canonical::{
    built_table, code_lengths, ones_uncoded, CanonicalCodebook, CanonicalEntry,
};
use vstd::prelude::*;

verus! {

/// What the uploaded buffers hold, decoded.
pub struct Input {
    pub stream: PackedBitstream,
    /// Tables and schedule of a JPEG-framed stream.
    pub scan: ScanTables,
    /// Tables of a synthetic stream.
    pub tables: Seq<Seq<CanonicalEntry>>,
    pub subsequence_bits: u32,
    /// Number of subsequences.
    pub count: nat,
}

/// What the kernels wrote.
#[verifier::ext_equal]
pub struct Memory {
    pub states: Seq<SubsequenceState>,
    pub scratch: Seq<SubsequenceState>,
    pub flags: Seq<u32>,
    pub offsets: Seq<u32>,
    pub symbols: Seq<u32>,
    pub status: Seq<u32>,
}

impl Memory {
    /// The states in one of the two state buffers.
    pub open spec fn held(self, slot: Slot) -> Seq<SubsequenceState> {
        if slot == Slot::States {
            self.states
        } else {
            self.scratch
        }
    }

    /// Memory with these states in one of the two state buffers.
    pub open spec fn with(self, slot: Slot, s: Seq<SubsequenceState>) -> Memory {
        if slot == Slot::States {
            Memory { states: s, ..self }
        } else {
            Memory { scratch: s, ..self }
        }
    }
}

/// Memory that nothing was written to.
pub open spec fn blank() -> Memory {
    Memory {
        states: Seq::empty(),
        scratch: Seq::empty(),
        flags: Seq::empty(),
        offsets: Seq::empty(),
        symbols: Seq::empty(),
        status: Seq::empty(),
    }
}

/// States as words, four words each.
pub open spec fn words_of(s: Seq<SubsequenceState>) -> Seq<u32> {
    Seq::new(
        4 * s.len(),
        |i: int|
            if i % 4 == 0 {
                s[i / 4].p
            } else if i % 4 == 1 {
                s[i / 4].n
            } else if i % 4 == 2 {
                s[i / 4].c
            } else {
                s[i / 4].z
            },
    )
}

impl Input {
    /// The end of region `i`.
    pub open spec fn end(self, i: int) -> u32 {
        region_end(i, self.stream.length_bits, self.subsequence_bits)
    }

    /// What phase 1 of a JPEG-framed stream leaves for region `i`: the
    /// snapshot at the region's end of a walk to the end of the next region.
    pub open spec fn snapshot(self, i: int) -> SubsequenceState {
        let s = fresh(region_start(i, self.subsequence_bits));
        match jpeg_crossing(s, self.stream, self.scan, self.end(i + 1), self.end(i)) {
            Some(taken) => taken,
            None => jpeg_walked(s, self.stream, self.scan, self.end(i + 1), self.end(i)).0,
        }
    }

    /// The symbols that phase 4 decodes for region `i`: from where the region
    /// before it ended to where it ended itself.
    pub open spec fn part(self, phase: HuffmanPhase, s: Seq<SubsequenceState>, i: int) -> Seq<u32> {
        if phase == HuffmanPhase::JpegPhase4Redecode {
            jpeg_symbols(entered(s, i), self.stream, self.scan, s[i].p)
        } else {
            redecoded_symbols(s, self.stream, self.tables, i)
        }
    }

    /// The symbol buffer behind the first `n` regions, each written at its
    /// offset.
    pub open spec fn written(
        self,
        phase: HuffmanPhase,
        s: Seq<SubsequenceState>,
        offsets: Seq<u32>,
        total: u32,
        n: nat,
    ) -> Seq<u32>
        decreases n,
    {
        if n == 0 {
            Seq::new(total as nat, |i: int| 0u32)
        } else {
            let before = self.written(phase, s, offsets, total, (n - 1) as nat);
            let part = self.part(phase, s, n - 1);
            let at = offsets[n - 1] as int;
            before.take(at) + part + before.skip(at + part.len())
        }
    }

    /// Memory behind a launch.
    pub open spec fn launched(self, mem: Memory, l: HuffmanLaunch) -> Memory {
        match l.phase {
            HuffmanPhase::Phase1IntraSync => mem.with(
                l.s_info,
                phase1_states(self.stream, self.tables, self.subsequence_bits, self.count),
            ),
            HuffmanPhase::JpegPhase1IntraSync => mem.with(
                l.s_info,
                Seq::new(self.count, |i: int| self.snapshot(i)),
            ),
            HuffmanPhase::Phase2InterSync => {
                let s = mem.held(l.s_info);
                Memory {
                    flags: Seq::new(
                        s.len(),
                        |i: int|
                            if i + 1 == s.len() || synced(s, i, self.subsequence_bits) {
                                1u32
                            } else {
                                0u32
                            },
                    ),
                    ..mem.with(
                        l.s_info,
                        synced_pass(s, self.stream, self.tables, self.subsequence_bits),
                    )
                }
            },
            HuffmanPhase::JpegPhase2InterSync => {
                let s = mem.held(l.s_info_prev->0);
                let next = propagated(s, self.stream, self.scan, self.subsequence_bits);
                Memory {
                    flags: Seq::new(
                        s.len(),
                        |i: int|
                            if next[i] == s[i] {
                                1u32
                            } else {
                                0u32
                            },
                    ),
                    ..mem.with(l.s_info, next)
                }
            },
            HuffmanPhase::Phase4Redecode | HuffmanPhase::JpegPhase4Redecode => {
                let s = mem.held(l.s_info);
                Memory {
                    symbols: self.written(l.phase, s, mem.offsets, l.total_symbols, s.len()),
                    status: Seq::new(
                        s.len(),
                        |i: int|
                            if self.part(l.phase, s, i).len() == s[i].n {
                                0u32
                            } else {
                                1u32
                            },
                    ),
                    ..mem
                }
            },
        }
    }

    /// Memory behind an action.
    pub open spec fn remembered(self, mem: Memory, action: ActionModel) -> Memory {
        match action {
            ActionModel::RecordHuffman(l) => self.launched(mem, l),
            ActionModel::Upload { slot, words } => if slot == Slot::Offsets {
                Memory { offsets: words, ..mem }
            } else {
                mem
            },
            _ => mem,
        }
    }
}

/// The device's reply to an action.
pub open spec fn replied(mem: Memory, action: ActionModel) -> ReplyModel {
    match action {
        ActionModel::Download { slot, words } => ReplyModel::Words(
            match slot {
                Slot::SyncFlags => mem.flags,
                Slot::DecodeStatus => mem.status,
                Slot::Symbols => mem.symbols,
                _ => words_of(mem.held(slot)),
            },
        ),
        _ => ReplyModel::Done,
    }
}

/// A run and its device after `k` actions.
pub open spec fn driven(input: Input, job: JobModel, m: RunModel, mem: Memory, k: nat) -> (
    RunModel,
    Memory,
)
    decreases k,
{
    if k == 0 {
        (m, mem)
    } else {
        let action = action_of(job, m);
        driven(
            input,
            job,
            advanced(job, m, replied(mem, action)),
            input.remembered(mem, action),
            (k - 1) as nat,
        )
    }
}

/// The run comes to an end with this result.
pub open spec fn ends_with(
    input: Input,
    job: JobModel,
    m: RunModel,
    mem: Memory,
    result: Result<OutputModel, ErrorModel>,
) -> bool {
    exists|k: nat|
        {
            let end = (#[trigger] driven(input, job, m, mem, k)).0;
            end.steps.len() == 0 && end.outcome == Some(result)
        }
}

/// What happens behind some actions happens behind all of them.
proof fn lemma_ends_later(
    input: Input,
    job: JobModel,
    m: RunModel,
    mem: Memory,
    k: nat,
    result: Result<OutputModel, ErrorModel>,
)
    requires
        ends_with(
            input,
            job,
            driven(input, job, m, mem, k).0,
            driven(input, job, m, mem, k).1,
            result,
        ),
    ensures
        ends_with(input, job, m, mem, result),
    decreases k,
{
    if k > 0 {
        let action = action_of(job, m);
        let m2 = advanced(job, m, replied(mem, action));
        let mem2 = input.remembered(mem, action);
        lemma_ends_later(input, job, m2, mem2, (k - 1) as nat, result);
        let j = choose|j: nat|
            {
                let end = (#[trigger] driven(input, job, m2, mem2, j)).0;
                end.steps.len() == 0 && end.outcome == Some(result)
            };
        assert(driven(input, job, m, mem, j + 1) == driven(input, job, m2, mem2, j));
    }
}

/// Freeing is all that is left, and ends the run.
proof fn lemma_frees_end(
    input: Input,
    job: JobModel,
    m: RunModel,
    mem: Memory,
    result: Result<OutputModel, ErrorModel>,
)
    requires
        m.outcome == Some(result),
        forall|i: int| 0 <= i < m.steps.len() ==> (#[trigger] m.steps[i]) is Free,
    ensures
        ends_with(input, job, m, mem, result),
    decreases m.steps.len(),
{
    if m.steps.len() == 0 {
        assert(driven(input, job, m, mem, 0).0 == m);
    } else {
        let action = action_of(job, m);
        let m2 = advanced(job, m, replied(mem, action));
        assert(m.steps[0] is Free);
        assert forall|i: int| 0 <= i < m2.steps.len() implies (#[trigger] m2.steps[i]) is Free by {
            assert(m2.steps[i] == m.steps[i + 1]);
        }
        lemma_frees_end(input, job, m2, mem, result);
        lemma_one_action(input, job, m, mem);
        lemma_ends_later(input, job, m, mem, 1, result);
    }
}

proof fn lemma_one_action(input: Input, job: JobModel, m: RunModel, mem: Memory)
    ensures
        driven(input, job, m, mem, 1) == (
            advanced(job, m, replied(mem, action_of(job, m))),
            input.remembered(mem, action_of(job, m)),
        ),
{
    let action = action_of(job, m);
    let m2 = advanced(job, m, replied(mem, action));
    let mem2 = input.remembered(mem, action);
    assert(driven(input, job, m2, mem2, 0) == (m2, mem2));
}

/// A step that the device only acknowledges.
spec fn quiet(step: Step) -> bool {
    match step {
        Step::Allocate(_) | Step::BeginPage | Step::SubmitPage | Step::WaitPage => true,
        Step::Upload(slot) => slot != Slot::Offsets,
        _ => false,
    }
}

/// Quiet steps change nothing but the buffers that are allocated.
proof fn lemma_quiet(input: Input, job: JobModel, m: RunModel, mem: Memory, k: nat) -> (live: Seq<
    Slot,
>)
    requires
        k <= m.steps.len(),
        forall|i: int| 0 <= i < k ==> quiet(#[trigger] m.steps[i]),
    ensures
        driven(input, job, m, mem, k) == (
            RunModel { steps: m.steps.skip(k as int), live, ..m },
            mem,
        ),
    decreases k,
{
    if k == 0 {
        assert(m.steps.skip(0) =~= m.steps);
        m.live
    } else {
        let action = action_of(job, m);
        let m2 = advanced(job, m, replied(mem, action));
        assert(quiet(m.steps[0]));
        assert forall|i: int| 0 <= i < k - 1 implies quiet(#[trigger] m2.steps[i]) by {
            assert(m2.steps[i] == m.steps[i + 1]);
        }
        let live = lemma_quiet(input, job, m2, mem, (k - 1) as nat);
        assert(m2.steps.skip(k - 1) =~= m.steps.skip(k as int));
        live
    }
}

proof fn lemma_states_in_words(s: Seq<SubsequenceState>)
    ensures
        states_in(words_of(s)) == s,
{
    let words = words_of(s);
    assert forall|i: int| 0 <= i < s.len() implies #[trigger] states_in(words)[i] == s[i] by {
        assert((4 * i) % 4 == 0 && (4 * i) / 4 == i);
        assert((4 * i + 1) % 4 == 1 && (4 * i + 1) / 4 == i);
        assert((4 * i + 2) % 4 == 2 && (4 * i + 2) / 4 == i);
        assert((4 * i + 3) % 4 == 3 && (4 * i + 3) / 4 == i);
    }
    assert(states_in(words) =~= s);
}

/// The regions hold `symbols`, in order and each with its count.
spec fn holds_in_parts(
    input: Input,
    phase: HuffmanPhase,
    s: Seq<SubsequenceState>,
    symbols: Seq<u32>,
) -> bool {
    let counts = counts_of(s);
    &&& running(counts, s.len()) == symbols.len()
    &&& symbols.len() <= u32::MAX
    &&& forall|i: int|
        0 <= i < s.len() ==> {
            let part = #[trigger] input.part(phase, s, i);
            let at = running(counts, i as nat) as int;
            &&& part.len() == s[i].n
            &&& part == symbols.subrange(at, at + s[i].n)
        }
}

/// The first regions fill the front of the symbol buffer.
proof fn lemma_written(
    input: Input,
    phase: HuffmanPhase,
    s: Seq<SubsequenceState>,
    offsets: Seq<u32>,
    symbols: Seq<u32>,
    n: nat,
)
    requires
        holds_in_parts(input, phase, s, symbols),
        offsets.len() == s.len(),
        forall|i: int|
            0 <= i < s.len() ==> #[trigger] offsets[i] == running(counts_of(s), i as nat),
        n <= s.len(),
    ensures
        ({
            let buffer = input.written(phase, s, offsets, symbols.len() as u32, n);
            let done = running(counts_of(s), n) as int;
            &&& buffer.len() == symbols.len()
            &&& done <= symbols.len()
            &&& buffer.take(done) == symbols.take(done)
        }),
    decreases n,
{
    let counts = counts_of(s);
    lemma_running_grows(counts, n, s.len());
    let buffer = input.written(phase, s, offsets, symbols.len() as u32, n);
    let done = running(counts, n) as int;
    if n == 0 {
        assert(buffer.take(0) =~= symbols.take(0));
    } else {
        let last = (n - 1) as nat;
        lemma_written(input, phase, s, offsets, symbols, last);
        let before = input.written(phase, s, offsets, symbols.len() as u32, last);
        let part = input.part(phase, s, n - 1);
        let at = running(counts, last) as int;
        assert(counts[n - 1] == s[n - 1].n);
        assert(offsets[n - 1] == at);
        assert(done == at + part.len());
        assert(buffer == before.take(at) + part + before.skip(at + part.len()));
        assert(buffer.take(done) =~= symbols.take(at) + part);
        assert(symbols.take(done) =~= symbols.take(at) + part);
    }
}

/// Behind phase 4, clean exit conditions lead to the symbols.
proof fn lemma_from_redecoded(
    input: Input,
    job: JobModel,
    m: RunModel,
    mem: Memory,
    symbols: Seq<u32>,
)
    requires
        m.steps == seq![
            Step::SubmitPage,
            Step::WaitPage,
            Step::Download(Slot::DecodeStatus),
        ],
        m.total == symbols.len(),
        mem.symbols == symbols,
        mem.status == Seq::new(job.count(), |i: int| 0u32),
    ensures
        ends_with(
            input,
            job,
            m,
            mem,
            Ok::<OutputModel, ErrorModel>(OutputModel::Symbols(symbols)),
        ),
{
    let result = Ok::<OutputModel, ErrorModel>(OutputModel::Symbols(symbols));
    let live = lemma_quiet(input, job, m, mem, 2);
    let m1 = driven(input, job, m, mem, 2).0;
    assert(m1.steps =~= seq![Step::Download(Slot::DecodeStatus)]);
    lemma_one_action(input, job, m1, mem);
    let m2 = driven(input, job, m1, mem, 1).0;
    lemma_no_nonzero(mem.status, 0);
    assert(m2.steps =~= seq![Step::Download(Slot::Symbols)]);
    lemma_one_action(input, job, m2, mem);
    let m3 = driven(input, job, m2, mem, 1).0;
    assert(m3.outcome == Some(result));
    lemma_frees_end(input, job, m3, mem, result);
    lemma_ends_later(input, job, m2, mem, 1, result);
    lemma_ends_later(input, job, m1, mem, 1, result);
    lemma_ends_later(input, job, m, mem, 2, result);
}

/// Phase 4, on the offsets that the counts give.
proof fn lemma_from_offsets(
    input: Input,
    job: JobModel,
    m: RunModel,
    mem: Memory,
    symbols: Seq<u32>,
)
    requires
        m.newest == Slot::States || m.newest == Slot::StatesScratch,
        m.steps == job.redecode_steps(),
        mem.held(m.newest).len() == job.count(),
        holds_in_parts(input, job.phase4(), mem.held(m.newest), symbols),
        m.total == symbols.len(),
        m.offsets == Seq::new(
            job.count(),
            |i: int| running(counts_of(mem.held(m.newest)), i as nat) as u32,
        ),
    ensures
        ends_with(
            input,
            job,
            m,
            mem,
            Ok::<OutputModel, ErrorModel>(OutputModel::Symbols(symbols)),
        ),
{
    let result = Ok::<OutputModel, ErrorModel>(OutputModel::Symbols(symbols));
    let s = mem.held(m.newest);
    let counts = counts_of(s);
    let phase = job.phase4();
    let offsets = m.offsets;
    assert forall|i: int| 0 <= i < s.len() implies #[trigger] offsets[i] == running(
        counts,
        i as nat,
    ) by {
        lemma_running_grows(counts, i as nat, s.len());
    }
    lemma_one_action(input, job, m, mem);
    let m2 = driven(input, job, m, mem, 1).0;
    let mem2 = driven(input, job, m, mem, 1).1;
    assert(m.steps[0] == Step::Upload(Slot::Offsets));
    assert(mem2 == Memory { offsets, ..mem });
    assert(m2.steps =~= seq![
        Step::Allocate(Slot::Symbols),
        Step::Allocate(Slot::DecodeStatus),
        Step::BeginPage,
        Step::Record(phase),
        Step::SubmitPage,
        Step::WaitPage,
        Step::Download(Slot::DecodeStatus),
    ]);
    let live = lemma_quiet(input, job, m2, mem2, 3);
    let m3 = driven(input, job, m2, mem2, 3).0;
    assert(m3.steps =~= seq![
        Step::Record(phase),
        Step::SubmitPage,
        Step::WaitPage,
        Step::Download(Slot::DecodeStatus),
    ]);
    lemma_one_action(input, job, m3, mem2);
    let m4 = driven(input, job, m3, mem2, 1).0;
    let mem4 = driven(input, job, m3, mem2, 1).1;
    lemma_written(input, phase, s, offsets, symbols, s.len());
    assert(mem2.held(m.newest) == s);
    assert(mem4.symbols =~= symbols) by {
        let buffer = input.written(phase, s, offsets, symbols.len() as u32, s.len());
        assert(mem4.symbols == buffer);
        assert(buffer.take(symbols.len() as int) =~= buffer);
        assert(symbols.take(symbols.len() as int) =~= symbols);
    }
    assert(mem4.status =~= Seq::new(s.len(), |i: int| 0u32)) by {
        assert forall|i: int| 0 <= i < s.len() implies mem4.status[i] == 0 by {
            assert(input.part(phase, s, i).len() == s[i].n);
        }
    }
    assert(m4.steps =~= seq![
        Step::SubmitPage,
        Step::WaitPage,
        Step::Download(Slot::DecodeStatus),
    ]);
    lemma_from_redecoded(input, job, m4, mem4, symbols);
    lemma_ends_later(input, job, m3, mem2, 1, result);
    lemma_ends_later(input, job, m2, mem2, 3, result);
    lemma_ends_later(input, job, m, mem, 1, result);
}

/// From the download of the states on, the run hands over the symbols that
/// the regions hold.
proof fn lemma_from_states(
    input: Input,
    job: JobModel,
    m: RunModel,
    mem: Memory,
    symbols: Seq<u32>,
)
    requires
        job.goal == Goal::Symbols,
        m.newest == Slot::States || m.newest == Slot::StatesScratch,
        m.steps == seq![Step::Download(m.newest)],
        mem.held(m.newest).len() == job.count(),
        holds_in_parts(input, job.phase4(), mem.held(m.newest), symbols),
    ensures
        ends_with(
            input,
            job,
            m,
            mem,
            Ok::<OutputModel, ErrorModel>(OutputModel::Symbols(symbols)),
        ),
{
    let s = mem.held(m.newest);
    let result = Ok::<OutputModel, ErrorModel>(OutputModel::Symbols(symbols));
    lemma_states_in_words(s);
    lemma_one_action(input, job, m, mem);
    let m1 = driven(input, job, m, mem, 1).0;
    assert(driven(input, job, m, mem, 1).1 == mem);
    assert(words_of(s).len() == download_len(job, m, m.newest));
    if symbols.len() == 0 {
        assert(symbols =~= Seq::empty());
        assert(m1.outcome == Some(result));
        lemma_frees_end(input, job, m1, mem, result);
    } else {
        assert(m1.steps == job.redecode_steps());
        lemma_from_offsets(input, job, m1, mem, symbols);
    }
    lemma_ends_later(input, job, m, mem, 1, result);
}

proof fn lemma_no_nonzero(words: Seq<u32>, i: nat)
    requires
        forall|k: int| 0 <= k < words.len() ==> words[k] == 0,
    ensures
        first_nonzero(words, i) is None,
    decreases words.len() - i,
{
    if i < words.len() {
        lemma_no_nonzero(words, i + 1);
    }
}

/// One launch of phase 2 and the download of its flags.
proof fn lemma_pass(input: Input, job: JobModel, m: RunModel, mem: Memory) -> (live: Seq<Slot>)
    requires
        m.steps == job.pass_steps(),
        input.launched(
            mem,
            launch_of(job, m, job.phase2()),
        ).flags.len() == job.count(),
    ensures
        ({
            let mem2 = input.launched(mem, launch_of(job, m, job.phase2()));
            driven(input, job, m, mem, 5) == (
                flags_seen(job, RunModel { steps: Seq::empty(), live, ..m }, mem2.flags),
                mem2,
            )
        }),
{
    let phase = job.phase2();
    assert(m.steps =~= seq![
        Step::BeginPage,
        Step::Record(phase),
        Step::SubmitPage,
        Step::WaitPage,
        Step::Download(Slot::SyncFlags),
    ]);
    let live1 = lemma_quiet(input, job, m, mem, 1);
    let m1 = driven(input, job, m, mem, 1).0;
    assert(m1.steps =~= seq![
        Step::Record(phase),
        Step::SubmitPage,
        Step::WaitPage,
        Step::Download(Slot::SyncFlags),
    ]);
    lemma_one_action(input, job, m1, mem);
    let m2 = driven(input, job, m1, mem, 1).0;
    let mem2 = driven(input, job, m1, mem, 1).1;
    assert(launch_of(job, m1, phase) == launch_of(
        job,
        m,
        phase,
    ));
    assert(m2.steps =~= seq![
        Step::SubmitPage,
        Step::WaitPage,
        Step::Download(Slot::SyncFlags),
    ]);
    let live = lemma_quiet(input, job, m2, mem2, 2);
    let m3 = driven(input, job, m2, mem2, 2).0;
    assert(m3.steps =~= seq![Step::Download(Slot::SyncFlags)]);
    lemma_one_action(input, job, m3, mem2);
    assert(m3.steps.skip(1) =~= Seq::empty());
    lemma_driven_adds(input, job, m, mem, 1, 1);
    lemma_driven_adds(input, job, m, mem, 2, 2);
    lemma_driven_adds(input, job, m, mem, 4, 1);
    live
}

proof fn lemma_driven_adds(
    input: Input,
    job: JobModel,
    m: RunModel,
    mem: Memory,
    a: nat,
    b: nat,
)
    ensures
        driven(input, job, m, mem, a + b) == driven(
            input,
            job,
            driven(input, job, m, mem, a).0,
            driven(input, job, m, mem, a).1,
            b,
        ),
    decreases a,
{
    if a > 0 {
        let action = action_of(job, m);
        lemma_driven_adds(
            input,
            job,
            advanced(job, m, replied(mem, action)),
            input.remembered(mem, action),
            (a - 1) as nat,
            b,
        );
    }
}

/// The passes of a JPEG-framed run reach the true states.
proof fn lemma_jpeg_passes(
    input: Input,
    job: JobModel,
    m: RunModel,
    mem: Memory,
    s0: Seq<SubsequenceState>,
    symbols: Seq<u32>,
)
    requires
        job.jpeg,
        job.goal == Goal::Symbols,
        m.newest == Slot::States || m.newest == Slot::StatesScratch,
        m.steps == job.pass_steps(),
        m.passes <= job.bound(),
        s0.len() == job.count() >= 1,
        mem.held(m.newest) == propagations(
            s0,
            input.stream,
            input.scan,
            input.subsequence_bits,
            m.passes,
        ),
        holds_in_parts(
            input,
            job.phase4(),
            true_states(s0[0], input.stream, input.scan, input.subsequence_bits, s0.len()),
            symbols,
        ),
    ensures
        ends_with(
            input,
            job,
            m,
            mem,
            Ok::<OutputModel, ErrorModel>(OutputModel::Symbols(symbols)),
        ),
    decreases job.bound() - m.passes,
{
    let result = Ok::<OutputModel, ErrorModel>(OutputModel::Symbols(symbols));
    let Input { stream, scan: t, subsequence_bits: bits, .. } = input;
    let n = s0.len();
    let before = propagations(s0, stream, t, bits, m.passes);
    let after = propagations(s0, stream, t, bits, m.passes + 1);
    law_truth_propagates_one_state_per_pass(s0, stream, t, bits, m.passes, 0);
    assert(after == propagated(before, stream, t, bits));
    let mem2 = input.launched(mem, launch_of(job, m, job.phase2()));
    assert(mem2.flags.len() == n);
    let live = lemma_pass(input, job, m, mem);
    let m2 = driven(input, job, m, mem, 5).0;
    assert(m2.newest == other_states(m.newest));
    assert(mem2.held(m2.newest) == after);
    if all_ones(mem2.flags) {
        assert forall|i: int| 0 <= i < n implies after[i] == before[i] by {
            assert(mem2.flags[i] == 1);
        }
        assert(after =~= before);
        law_fixpoint_is_truth(before, stream, t, bits);
        assert(m2.steps =~= seq![Step::Download(m2.newest)]);
        lemma_from_states(input, job, m2, mem2, symbols);
    } else {
        if m.passes == job.bound() {
            assert forall|i: int| 0 <= i < n implies mem2.flags[i] == 1 by {
                law_truth_propagates_one_state_per_pass(s0, stream, t, bits, m.passes, i as nat);
                law_truth_propagates_one_state_per_pass(
                    s0,
                    stream,
                    t,
                    bits,
                    m.passes + 1,
                    i as nat,
                );
            }
            assert(false);
        }
        lemma_jpeg_passes(input, job, m2, mem2, s0, symbols);
    }
    lemma_ends_later(input, job, m, mem, 5, result);
}

/// Set-up and phase 1 lead to the first pass.
proof fn lemma_setup(input: Input, job: JobModel) -> (r: (Seq<Slot>, nat))
    requires
        job.goal == Goal::Symbols,
    ensures
        driven(input, job, started(job), blank(), r.1) == (
            first_pass(job, r.0),
            input.launched(blank(), launch_of(job, started(job), job.phase1())),
        ),
{
    let m = started(job);
    let phase = job.phase1();
    let k: nat = if job.jpeg {
        13
    } else {
        8
    };
    let tail = seq![Step::Record(phase), Step::SubmitPage, Step::WaitPage] + job.pass_steps();
    if job.jpeg {
        assert(m.steps =~= seq![
            Step::Allocate(Slot::Bitstream),
            Step::Allocate(Slot::Codebook),
            Step::Allocate(Slot::DcCodebook),
            Step::Allocate(Slot::McuSchedule),
            Step::Allocate(Slot::States),
            Step::Allocate(Slot::StatesScratch),
            Step::Allocate(Slot::SyncFlags),
            Step::Allocate(Slot::Offsets),
            Step::Upload(Slot::Bitstream),
            Step::Upload(Slot::Codebook),
            Step::Upload(Slot::DcCodebook),
            Step::Upload(Slot::McuSchedule),
            Step::BeginPage,
        ] + tail);
    } else {
        assert(m.steps =~= seq![
            Step::Allocate(Slot::Bitstream),
            Step::Allocate(Slot::Codebook),
            Step::Allocate(Slot::States),
            Step::Allocate(Slot::SyncFlags),
            Step::Allocate(Slot::Offsets),
            Step::Upload(Slot::Bitstream),
            Step::Upload(Slot::Codebook),
            Step::BeginPage,
        ] + tail);
    }
    let live1 = lemma_quiet(input, job, m, blank(), k);
    let m1 = driven(input, job, m, blank(), k).0;
    assert(m1.steps =~= tail);
    lemma_one_action(input, job, m1, blank());
    let m2 = driven(input, job, m1, blank(), 1).0;
    let mem2 = driven(input, job, m1, blank(), 1).1;
    assert(launch_of(job, m1, phase) == launch_of(
        job,
        m,
        phase,
    ));
    assert(m2.steps =~= seq![Step::SubmitPage, Step::WaitPage] + job.pass_steps());
    let live = lemma_quiet(input, job, m2, mem2, 2);
    let m3 = driven(input, job, m2, mem2, 2).0;
    assert(m3.steps =~= job.pass_steps());
    assert(m3 == first_pass(job, live));
    lemma_driven_adds(input, job, m, blank(), k, 1);
    lemma_driven_adds(input, job, m, blank(), k + 1, 2);
    (live, k + 3)
}

/// A run in front of its first phase 2 pass.
spec fn first_pass(job: JobModel, live: Seq<Slot>) -> RunModel {
    RunModel { steps: job.pass_steps(), live, ..started(job) }
}

/// The regions of a job cover the stream.
proof fn lemma_regions_cover(length_bits: u32, subsequence_bits: u32)
    requires
        length_bits > 0,
        subsequence_bits > 0,
    ensures
        subsequences(length_bits, subsequence_bits) >= 1,
        region_end(
            subsequences(length_bits, subsequence_bits) - 1,
            length_bits,
            subsequence_bits,
        ) == length_bits,
        0 < region_end(0, length_bits, subsequence_bits),
{
    let len = length_bits as int;
    let b = subsequence_bits as int;
    let n = subsequences(length_bits, subsequence_bits);
    assert(n >= 1 && n * b >= len) by (nonlinear_arith)
        requires
            n == (len + b - 1) / b,
            len > 0,
            b > 0,
    ;
    assert(n - 1 + 1 == n);
    assert(1 * b == b);
}

/// A JPEG-framed walk decodes no further than to where it ends.
proof fn lemma_jpeg_symbols_to_the_end(
    s: SubsequenceState,
    stream: PackedBitstream,
    t: ScanTables,
    hard_limit: u32,
    count_to: u32,
)
    requires
        jpeg_walked(s, stream, t, hard_limit, count_to).1 != Phase1Stop::AcOverflow,
    ensures
        s.p <= jpeg_walked(s, stream, t, hard_limit, count_to).0.p,
        jpeg_symbols(s, stream, t, jpeg_walked(s, stream, t, hard_limit, count_to).0.p)
            == jpeg_symbols(s, stream, t, hard_limit),
    decreases u32::MAX - s.p,
{
    if s.p < hard_limit {
        if let JpegStep::Advanced(next) = jpeg_step(s, stream, t, count_to) {
            lemma_jpeg_symbols_to_the_end(next, stream, t, hard_limit, count_to);
            let end = jpeg_walked(s, stream, t, hard_limit, count_to).0.p;
            let a = jpeg_step(s, stream, t, end)->Advanced_0;
            let b = jpeg_step(s, stream, t, hard_limit)->Advanced_0;
            lemma_symbols_ignore_count(a, next, stream, t, end);
            lemma_symbols_ignore_count(b, next, stream, t, hard_limit);
        }
    }
}

/// What phase 4 decodes for a region from true states are the region's
/// symbols.
proof fn lemma_true_part(input: Input, n: nat, i: nat)
    requires
        i < n,
        overflow_free(fresh(0), input.stream, input.scan, input.subsequence_bits, n),
    ensures
        ({
            let first = first_state(fresh(0), input.stream, input.scan, input.subsequence_bits);
            input.part(
                HuffmanPhase::JpegPhase4Redecode,
                true_states(first, input.stream, input.scan, input.subsequence_bits, n),
                i as int,
            ) == region_symbols(fresh(0), input.stream, input.scan, input.subsequence_bits, i)
        }),
{
    let Input { stream, scan: t, subsequence_bits: b, .. } = input;
    let first = first_state(fresh(0), stream, t, b);
    let s = true_states(first, stream, t, b, n);
    let end = region_end(i as int, stream.length_bits, b);
    let from = entered(s, i as int);
    if i == 0 {
        lemma_walk_ignores_count(from, from, stream, t, end, end, 0);
    } else {
        let prev = true_state(first, stream, t, b, (i - 1) as nat);
        let prev_end = region_end(i - 1, stream.length_bits, b);
        let straight = jpeg_walked(fresh(0), stream, t, prev_end, 0).0;
        assert(s[i - 1] == prev);
        assert(region_end((i - 1) as nat as int, stream.length_bits, b) == prev_end);
        law_true_states_are_the_straight_walk(fresh(0), stream, t, b, (i - 1) as nat);
        lemma_region_ends_rise(i as int, stream.length_bits, b);
        law_split_jpeg_walk_is_continued_walk(fresh(0), stream, t, prev_end, end, 0);
        lemma_walk_ignores_count(from, straight, stream, t, end, end, 0);
        lemma_symbols_ignore_count(from, prev, stream, t, end);
    }
    assert(s[i as int] == jpeg_walked(from, stream, t, end, end).0);
    lemma_jpeg_symbols_to_the_end(from, stream, t, end, end);
}

/// The whole decode on documented kernels: for a prepared JPEG whose scan
/// decodes and whose last byte is filled with ones, all four phases end with
/// the scan's symbols, whatever the size of the subsequences.
pub proof fn law_jpeg_run_yields_the_scan(
    prep: JpegPreparedInput,
    src: Seq<u8>,
    subsequence_bits: u32,
    name: Seq<char>,
)
    requires
        1 <= prep.components@.len() <= 4,
        prep.tables_present(),
        byte_stream(prep.bitstream, src),
        prep.scan_symbols() is Ok,
        filled_with_ones(src, prep.scan_end()),
        ones_uncoded(prep.dc_table(0)),
        prep.bitstream.length_bits > 0,
        subsequence_bits > 0,
    ensures
        ({
            let job = jpeg_job(prep, subsequence_bits, name, Goal::Symbols);
            ends_with(
                jpeg_input(prep, subsequence_bits),
                job,
                started(job),
                blank(),
                Ok::<OutputModel, ErrorModel>(OutputModel::Symbols(prep.scan_symbols()->Ok_0)),
            )
        }),
{
    let job = jpeg_job(prep, subsequence_bits, name, Goal::Symbols);
    let input = jpeg_input(prep, subsequence_bits);
    let symbols = prep.scan_symbols()->Ok_0;
    let result = Ok::<OutputModel, ErrorModel>(OutputModel::Symbols(symbols));
    let Input { stream, scan: t, count: n, .. } = input;
    lemma_regions_cover(stream.length_bits, subsequence_bits);
    law_parallel_decode_is_the_scan(prep, src, subsequence_bits, n);
    let first = first_state(fresh(0), stream, t, subsequence_bits);
    let truth = true_states(first, stream, t, subsequence_bits, n);
    let counts = counts_of(truth);
    let s0 = Seq::new(n, |i: int| input.snapshot(i));
    assert(s0[0] == first) by {
        assert(0 * subsequence_bits == 0) by (nonlinear_arith);
        lemma_region_ends_rise(1, stream.length_bits, subsequence_bits);
        law_snapshot_is_the_state_at_the_boundary(
            fresh(0),
            stream,
            t,
            input.end(1),
            input.end(0),
        );
    }
    assert(holds_in_parts(input, job.phase4(), truth, symbols)) by {
        assert forall|i: int| 0 <= i < n implies {
            let part = #[trigger] input.part(job.phase4(), truth, i);
            let at = running(counts, i as nat) as int;
            &&& part.len() == truth[i].n
            &&& part == symbols.subrange(at, at + truth[i].n)
        } by {
            lemma_true_part(input, n, i as nat);
            let part = region_symbols(fresh(0), stream, t, subsequence_bits, i as nat);
            assert(counts[i] == truth[i].n);
            lemma_running_grows(counts, (i + 1) as nat, n);
            assert(running(counts, (i + 1) as nat) == running(counts, i as nat) + counts[i]);
        }
    }
    let mem = input.launched(blank(), launch_of(job, started(job), job.phase1()));
    assert(mem.held(Slot::States) == s0);
    let (live, k) = lemma_setup(input, job);
    lemma_jpeg_passes(input, job, first_pass(job, live), mem, s0, symbols);
    lemma_ends_later(input, job, started(job), blank(), k, result);
}

/// What the buffers of a prepared JPEG's run hold.
pub open spec fn jpeg_input(prep: JpegPreparedInput, subsequence_bits: u32) -> Input {
    Input {
        stream: prep.bitstream,
        scan: prep.walk_tables(),
        tables: Seq::empty(),
        subsequence_bits,
        count: subsequences(prep.bitstream.length_bits, subsequence_bits) as nat,
    }
}

/// What the buffers of a synthetic stream's run hold.
pub open spec fn plain_input(
    stream: PackedBitstream,
    books: Seq<CanonicalCodebook>,
    subsequence_bits: u32,
) -> Input {
    Input {
        stream,
        scan: ScanTables { dc: Seq::empty(), ac: Seq::empty(), schedule: Seq::empty() },
        tables: tables_of(books),
        subsequence_bits,
        count: subsequences(stream.length_bits, subsequence_bits) as nat,
    }
}

/// Every state agrees with its right neighbour.
pub open spec fn all_synced(s: Seq<SubsequenceState>, subsequence_bits: u32) -> bool {
    forall|i: int| 0 <= i < s.len() - 1 ==> #[trigger] synced(s, i, subsequence_bits)
}

/// A run that gives up on phase 2.
pub open spec fn not_converged(job: JobModel) -> ErrorModel {
    ErrorModel::Message(job.name + ": Phase 2 did not converge within retry bound"@)
}

/// The passes of a synthetic run end with the symbols, or with the run
/// giving up.
proof fn lemma_plain_passes(
    input: Input,
    job: JobModel,
    m: RunModel,
    mem: Memory,
    s0: Seq<SubsequenceState>,
    symbols: Seq<u32>,
)
    requires
        !job.jpeg,
        job.goal == Goal::Symbols,
        m.newest == Slot::States,
        m.steps == job.pass_steps(),
        m.passes <= job.bound(),
        s0.len() == job.count() >= 1,
        mem.states == synced_passes(
            s0,
            input.stream,
            input.tables,
            input.subsequence_bits,
            m.passes,
        ),
        mem.states.len() == s0.len(),
        forall|k: nat|
            k <= job.bound() && all_synced(
                #[trigger] synced_passes(
                    s0,
                    input.stream,
                    input.tables,
                    input.subsequence_bits,
                    k,
                ),
                input.subsequence_bits,
            ) ==> holds_in_parts(
                input,
                job.phase4(),
                synced_passes(s0, input.stream, input.tables, input.subsequence_bits, k),
                symbols,
            ),
    ensures
        ends_with(
            input,
            job,
            m,
            mem,
            Ok::<OutputModel, ErrorModel>(OutputModel::Symbols(symbols)),
        ) || (!all_synced(mem.states, input.subsequence_bits) && ends_with(
            input,
            job,
            m,
            mem,
            Err::<OutputModel, ErrorModel>(not_converged(job)),
        )),
    decreases job.bound() - m.passes,
{
    let good = Ok::<OutputModel, ErrorModel>(OutputModel::Symbols(symbols));
    let bad = Err::<OutputModel, ErrorModel>(not_converged(job));
    let b = input.subsequence_bits;
    let before = mem.states;
    let after = synced_pass(before, input.stream, input.tables, b);
    assert(after == synced_passes(s0, input.stream, input.tables, b, m.passes + 1));
    let mem2 = input.launched(mem, launch_of(job, m, job.phase2()));
    let live = lemma_pass(input, job, m, mem);
    let m2 = driven(input, job, m, mem, 5).0;
    assert(mem2.states == after);
    if all_ones(mem2.flags) {
        assert forall|i: int| 0 <= i < before.len() - 1 implies #[trigger] synced(before, i, b) by {
            assert(mem2.flags[i] == 1);
        }
        assert(after =~= before);
        assert(m2.steps =~= seq![Step::Download(m2.newest)]);
        lemma_from_states(input, job, m2, mem2, symbols);
        lemma_ends_later(input, job, m, mem, 5, good);
    } else if all_synced(before, b) {
        assert forall|i: int| 0 <= i < mem2.flags.len() implies mem2.flags[i] == 1 by {
            if i + 1 < before.len() {
                assert(synced(before, i, b));
            }
        }
        assert(false);
    } else if m.passes < job.bound() {
        lemma_plain_passes(input, job, m2, mem2, s0, symbols);
        if ends_with(input, job, m2, mem2, good) {
            lemma_ends_later(input, job, m, mem, 5, good);
        } else {
            lemma_ends_later(input, job, m, mem, 5, bad);
        }
    } else {
        assert(m2.outcome == Some(bad));
        lemma_frees_end(input, job, m2, mem2, bad);
        lemma_ends_later(input, job, m, mem, 5, bad);
    }
}

/// A synthetic run on documented kernels: symbols that were encoded with a
/// table come back through all four phases, or the run gives up on phase 2.
/// It gives up only where phase 1 leaves neighbours that disagree.  Phase 2
/// compares neighbouring states only, so this takes that regions which agree
/// are in step.
pub proof fn law_plain_run_returns_what_was_encoded(
    stream: PackedBitstream,
    books: Seq<CanonicalCodebook>,
    subsequence_bits: u32,
    name: Seq<char>,
    num_codes: Seq<u8>,
    values: Seq<u8>,
    ks: Seq<nat>,
)
    requires
        num_codes.len() == 16,
        built_table(num_codes, values) is Ok,
        1 <= books.len() <= u32::MAX,
        forall|c: int|
            0 <= c < books.len() ==> (#[trigger] books[c])@ == built_table(
                num_codes,
                values,
            )->Ok_0,
        spells(
            stream.bytes(),
            code_lengths(num_codes, 16),
            values,
            ks,
            0,
            stream.length_bits as int,
        ),
        stream.length_bits > 0,
        subsequence_bits > 0,
        ({
            let n = subsequences(stream.length_bits, subsequence_bits) as nat;
            let tables = tables_of(books);
            let s0 = phase1_states(stream, tables, subsequence_bits, n);
            forall|k: nat|
                k <= 2 * ceil_log2(n) && all_synced(
                    #[trigger] synced_passes(s0, stream, tables, subsequence_bits, k),
                    subsequence_bits,
                ) ==> in_step(
                    synced_passes(s0, stream, tables, subsequence_bits, k),
                    stream,
                    tables,
                    subsequence_bits,
                )
        }),
    ensures
        ({
            let job = plain_job(stream, books, subsequence_bits, name, Goal::Symbols);
            let input = plain_input(stream, books, subsequence_bits);
            ends_with(
                input,
                job,
                started(job),
                blank(),
                Ok::<OutputModel, ErrorModel>(OutputModel::Symbols(spelled(values, ks))),
            ) || (!all_synced(
                phase1_states(stream, tables_of(books), subsequence_bits, job.count()),
                subsequence_bits,
            ) && ends_with(
                input,
                job,
                started(job),
                blank(),
                Err::<OutputModel, ErrorModel>(not_converged(job)),
            ))
        }),
{
    let job = plain_job(stream, books, subsequence_bits, name, Goal::Symbols);
    let input = plain_input(stream, books, subsequence_bits);
    let symbols = spelled(values, ks);
    let good = Ok::<OutputModel, ErrorModel>(OutputModel::Symbols(symbols));
    let bad = Err::<OutputModel, ErrorModel>(not_converged(job));
    let tables = tables_of(books);
    let n = job.count();
    let s0 = phase1_states(stream, tables, subsequence_bits, n);
    lemma_regions_cover(stream.length_bits, subsequence_bits);
    assert forall|k: nat|
        #![trigger synced_passes(s0, stream, tables, subsequence_bits, k)]
        k <= job.bound() && all_synced(
            synced_passes(s0, stream, tables, subsequence_bits, k),
            subsequence_bits,
        ) implies holds_in_parts(
        input,
        job.phase4(),
        synced_passes(s0, stream, tables, subsequence_bits, k),
        symbols,
    ) by {
        let s = synced_passes(s0, stream, tables, subsequence_bits, k);
        lemma_passes_len(s0, stream, tables, subsequence_bits, k);
        let counts = counts_of(s);
        law_encoded_symbols_survive_the_phases(
            s,
            stream,
            tables,
            subsequence_bits,
            num_codes,
            values,
            ks,
        );
        law_encoded_symbols_come_back(fresh(0), stream, tables, num_codes, values, ks);
        law_plain_walk_counts_its_symbols(fresh(0), stream, tables, stream.length_bits);
        assert forall|i: int| 0 <= i < n implies {
            let part = #[trigger] input.part(job.phase4(), s, i);
            let at = running(counts, i as nat) as int;
            &&& part.len() == s[i].n
            &&& part == symbols.subrange(at, at + s[i].n)
        } by {
            let part = redecoded_symbols(s, stream, tables, i);
            assert(counts[i] == s[i].n);
            lemma_running_grows(counts, (i + 1) as nat, n);
            assert(running(counts, (i + 1) as nat) == running(counts, i as nat) + counts[i]);
        }
    }
    let mem = input.launched(blank(), launch_of(job, started(job), job.phase1()));
    assert(mem.states == s0);
    let (live, k) = lemma_setup(input, job);
    lemma_plain_passes(input, job, first_pass(job, live), mem, s0, symbols);
    if ends_with(input, job, first_pass(job, live), mem, good) {
        lemma_ends_later(input, job, started(job), blank(), k, good);
    } else {
        lemma_ends_later(input, job, started(job), blank(), k, bad);
    }
}

proof fn lemma_passes_len(
    s: Seq<SubsequenceState>,
    stream: PackedBitstream,
    tables: Seq<Seq<CanonicalEntry>>,
    subsequence_bits: u32,
    k: nat,
)
    ensures
        synced_passes(s, stream, tables, subsequence_bits, k).len() == s.len(),
    decreases k,
{
    if k > 0 {
        lemma_passes_len(s, stream, tables, subsequence_bits, (k - 1) as nat);
    }
}

} // verus!
