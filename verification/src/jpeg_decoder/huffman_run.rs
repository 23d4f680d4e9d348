//! The host side of the parallel Huffman decoder as a run of device actions.
//!
//! A run allocates and fills its buffers, launches phase 1, repeats phase 2
//! until every subsequence is synced or the retry bound is reached, computes
//! the output offsets (phase 3) and launches phase 4.  Some runs stop after
//! phase 1 or phase 2.  Whatever happens, it frees what it allocated.

use super::device::{ActionModel, HuffmanLaunch, ReplyModel, Slot};
use super::offsets::{counts_of, exclusive_scan, states_in};
use super::phase1_oracle::SubsequenceState;
use super::phase2_oracle::{ceil_log2, Phase2Outcome};
use crate::backend::error::ErrorModel;
use crate::backend::huffman_params::{subsequences, HuffmanPhase, Phase4FailureKind};
use crate::text::decimal;
use vstd::prelude::*;
use vstd::string::*;

verus! {

/// How far a run goes.
#[derive(Debug, Clone, Copy, PartialEq, Eq, Structural)]
pub enum Goal {
    /// Phase 1: the subsequence states.
    States,
    /// Phases 1 and 2: the states and whether they are synced.
    Sync,
    /// Phases 1 to 4: the decoded symbols.
    Symbols,
}

/// What a run decodes, in host memory.
#[derive(Debug)]
pub struct HuffmanJob {
    /// Name of the operation, for error messages.
    pub name: &'static str,
    /// Whether the stream has JPEG framing.
    pub jpeg: bool,
    /// How far to go.
    pub goal: Goal,
    /// The packed stream.
    pub words: Vec<u32>,
    /// Flat code tables; the AC tables of a JPEG-framed stream.
    pub codebook: Vec<u32>,
    /// Flat DC tables of a JPEG-framed stream.
    pub dc_codebook: Vec<u32>,
    /// Block order of an MCU of a JPEG-framed stream.
    pub mcu_schedule: Vec<u32>,
    /// Exact bit count of the stream.
    pub length_bits: u32,
    /// Subsequence size in bits.
    pub subsequence_bits: u32,
    /// Number of code tables of each class.
    pub num_components: u32,
    /// Blocks per MCU of a JPEG-framed stream.
    pub blocks_per_mcu: u32,
}

/// A job, its buffers as sequences.
pub struct JobModel {
    pub name: Seq<char>,
    pub jpeg: bool,
    pub goal: Goal,
    pub words: Seq<u32>,
    pub codebook: Seq<u32>,
    pub dc_codebook: Seq<u32>,
    pub mcu_schedule: Seq<u32>,
    pub length_bits: u32,
    pub subsequence_bits: u32,
    pub num_components: u32,
    pub blocks_per_mcu: u32,
}

impl View for HuffmanJob {
    type V = JobModel;

    open spec fn view(&self) -> JobModel {
        JobModel {
            name: self.name@,
            jpeg: self.jpeg,
            goal: self.goal,
            words: self.words@,
            codebook: self.codebook@,
            dc_codebook: self.dc_codebook@,
            mcu_schedule: self.mcu_schedule@,
            length_bits: self.length_bits,
            subsequence_bits: self.subsequence_bits,
            num_components: self.num_components,
            blocks_per_mcu: self.blocks_per_mcu,
        }
    }
}

/// One step of a run; its data are in the job and the run's state.
#[derive(Debug, Clone, Copy, PartialEq, Eq, Structural)]
pub enum Step {
    Allocate(Slot),
    Upload(Slot),
    BeginPage,
    Record(HuffmanPhase),
    SubmitPage,
    WaitPage,
    Download(Slot),
    Free(Slot),
}

impl JobModel {
    /// A stream to decode, and subsequences to cut it into.
    pub open spec fn wf(self) -> bool {
        self.length_bits > 0 && self.subsequence_bits > 0
    }

    /// Number of subsequences.
    pub open spec fn count(self) -> nat {
        subsequences(self.length_bits, self.subsequence_bits) as nat
    }

    /// Last phase 2 pass that may still be unsynced without giving up.
    pub open spec fn bound(self) -> nat {
        if self.jpeg {
            (self.count() - 1) as nat
        } else {
            2 * ceil_log2(self.count())
        }
    }

    /// Size of a buffer, for a run that decodes `total` symbols.
    pub open spec fn bytes(self, slot: Slot, total: u32) -> nat {
        match slot {
            Slot::Bitstream => (((self.length_bits + 31) / 32 + 1) * 4) as nat,
            Slot::Codebook | Slot::DcCodebook => self.num_components as nat * 65536 * 4,
            Slot::McuSchedule => self.blocks_per_mcu as nat * 4,
            Slot::States | Slot::StatesScratch => self.count() * 16,
            Slot::SyncFlags | Slot::Offsets | Slot::DecodeStatus => self.count() * 4,
            Slot::Symbols => total as nat * 4,
            _ => 0,
        }
    }

    /// Buffers that are allocated at the start, in order.
    pub open spec fn allocations(self) -> Seq<Slot> {
        let base = if self.jpeg {
            seq![
                Slot::Bitstream,
                Slot::Codebook,
                Slot::DcCodebook,
                Slot::McuSchedule,
                Slot::States,
            ]
        } else {
            seq![Slot::Bitstream, Slot::Codebook, Slot::States]
        };
        let with_sync = if self.goal == Goal::States {
            base
        } else if self.jpeg {
            base + seq![Slot::StatesScratch, Slot::SyncFlags]
        } else {
            base + seq![Slot::SyncFlags]
        };
        if self.goal == Goal::Symbols {
            with_sync + seq![Slot::Offsets]
        } else {
            with_sync
        }
    }

    /// Buffers that are filled at the start, in order.
    pub open spec fn uploads(self) -> Seq<Slot> {
        if self.jpeg {
            seq![Slot::Bitstream, Slot::Codebook, Slot::DcCodebook, Slot::McuSchedule]
        } else {
            seq![Slot::Bitstream, Slot::Codebook]
        }
    }

    pub open spec fn phase1(self) -> HuffmanPhase {
        if self.jpeg {
            HuffmanPhase::JpegPhase1IntraSync
        } else {
            HuffmanPhase::Phase1IntraSync
        }
    }

    pub open spec fn phase2(self) -> HuffmanPhase {
        if self.jpeg {
            HuffmanPhase::JpegPhase2InterSync
        } else {
            HuffmanPhase::Phase2InterSync
        }
    }

    pub open spec fn phase4(self) -> HuffmanPhase {
        if self.jpeg {
            HuffmanPhase::JpegPhase4Redecode
        } else {
            HuffmanPhase::Phase4Redecode
        }
    }

    /// A phase 2 pass and the download of its flags.
    pub open spec fn pass_steps(self) -> Seq<Step> {
        page(self.phase2()).push(Step::Download(Slot::SyncFlags))
    }

    /// Set-up and phase 1, up to the first decision.
    pub open spec fn first_steps(self) -> Seq<Step> {
        let setup = self.allocations().map_values(|s: Slot| Step::Allocate(s))
            + self.uploads().map_values(|s: Slot| Step::Upload(s)) + page(self.phase1());
        if self.goal == Goal::States {
            setup.push(Step::Download(Slot::States))
        } else {
            setup + self.pass_steps()
        }
    }

    /// Phase 4, up to the download of the exit conditions.
    pub open spec fn redecode_steps(self) -> Seq<Step> {
        seq![
            Step::Upload(Slot::Offsets),
            Step::Allocate(Slot::Symbols),
            Step::Allocate(Slot::DecodeStatus),
        ] + page(self.phase4()).push(Step::Download(Slot::DecodeStatus))
    }
}

/// One page with one launch.
pub open spec fn page(phase: HuffmanPhase) -> Seq<Step> {
    seq![Step::BeginPage, Step::Record(phase), Step::SubmitPage, Step::WaitPage]
}

/// Free buffers in the order in which they were allocated.
pub open spec fn releasing(live: Seq<Slot>) -> Seq<Step> {
    live.map_values(|s: Slot| Step::Free(s))
}

/// Free buffers in the reverse order.
pub open spec fn unwinding(live: Seq<Slot>) -> Seq<Step> {
    Seq::new(live.len(), |i: int| Step::Free(live[live.len() - 1 - i]))
}

/// What a finished run hands over.
#[derive(Debug, Clone, PartialEq, Eq)]
pub enum HuffmanOutput {
    States(Vec<SubsequenceState>),
    Synced(Vec<SubsequenceState>, Phase2Outcome),
    Symbols(Vec<u32>),
}

/// An output, its vectors as sequences.
pub enum OutputModel {
    States(Seq<SubsequenceState>),
    Synced(Seq<SubsequenceState>, Phase2Outcome),
    Symbols(Seq<u32>),
}

impl View for HuffmanOutput {
    type V = OutputModel;

    open spec fn view(&self) -> OutputModel {
        match *self {
            HuffmanOutput::States(s) => OutputModel::States(s@),
            HuffmanOutput::Synced(s, o) => OutputModel::Synced(s@, o),
            HuffmanOutput::Symbols(s) => OutputModel::Symbols(s@),
        }
    }
}

/// The state of a run: what is left to do up to the next decision, the
/// buffers that are allocated, and what has been learnt.
#[verifier::ext_equal]
pub struct RunModel {
    pub steps: Seq<Step>,
    pub live: Seq<Slot>,
    /// Phase 2 passes behind the current one.
    pub passes: nat,
    /// The buffer with the newest states.
    pub newest: Slot,
    /// How phase 2 ended.
    pub sync: Phase2Outcome,
    pub offsets: Seq<u32>,
    pub total: u32,
    pub outcome: Option<Result<OutputModel, ErrorModel>>,
}

/// A run that has not begun.
pub open spec fn started(job: JobModel) -> RunModel {
    RunModel {
        steps: job.first_steps(),
        live: Seq::empty(),
        passes: 0,
        newest: Slot::States,
        sync: Phase2Outcome::Converged { iterations: 0 },
        offsets: Seq::empty(),
        total: 0,
        outcome: None,
    }
}

/// The other of the two state buffers.
pub open spec fn other_states(slot: Slot) -> Slot {
    if slot == Slot::States {
        Slot::StatesScratch
    } else {
        Slot::States
    }
}

/// Buffers that start out zero.
pub open spec fn zero_filled(slot: Slot) -> bool {
    slot == Slot::Bitstream || slot == Slot::Symbols || slot == Slot::DecodeStatus
}

/// The words that go into a buffer.
pub open spec fn upload_of(job: JobModel, m: RunModel, slot: Slot) -> Seq<u32> {
    match slot {
        Slot::Bitstream => job.words,
        Slot::Codebook => job.codebook,
        Slot::DcCodebook => job.dc_codebook,
        Slot::McuSchedule => job.mcu_schedule,
        Slot::Offsets => m.offsets,
        _ => Seq::empty(),
    }
}

/// How many words a download brings.
pub open spec fn download_len(job: JobModel, m: RunModel, slot: Slot) -> nat {
    job.bytes(slot, m.total) / 4
}

/// The launch of a phase.
pub open spec fn launch_of(job: JobModel, m: RunModel, phase: HuffmanPhase) -> HuffmanLaunch {
    HuffmanLaunch {
        bitstream: Slot::Bitstream,
        codebook: Slot::Codebook,
        s_info: if phase == HuffmanPhase::JpegPhase2InterSync {
            other_states(m.newest)
        } else {
            m.newest
        },
        sync_flags: if phase.syncs() {
            Some(Slot::SyncFlags)
        } else {
            None
        },
        s_info_prev: if phase == HuffmanPhase::JpegPhase2InterSync {
            Some(m.newest)
        } else {
            None
        },
        offsets: if phase.redecodes() {
            Some(Slot::Offsets)
        } else {
            None
        },
        symbols_out: if phase.redecodes() {
            Some(Slot::Symbols)
        } else {
            None
        },
        decode_status: if phase.redecodes() {
            Some(Slot::DecodeStatus)
        } else {
            None
        },
        dc_codebook: if phase.jpeg_framed() {
            Some(Slot::DcCodebook)
        } else {
            None
        },
        mcu_schedule: if phase.jpeg_framed() {
            Some(Slot::McuSchedule)
        } else {
            None
        },
        length_bits: job.length_bits,
        subsequence_bits: job.subsequence_bits,
        num_components: job.num_components,
        blocks_per_mcu: job.blocks_per_mcu,
        total_symbols: if phase.redecodes() {
            m.total
        } else {
            0
        },
        phase,
    }
}

/// The action of a step.
pub open spec fn action_of(job: JobModel, m: RunModel) -> ActionModel {
    if m.steps.len() == 0 {
        ActionModel::Finish
    } else {
        match m.steps[0] {
            Step::Allocate(slot) => ActionModel::Allocate {
                slot,
                bytes: job.bytes(slot, m.total),
                zeroed: zero_filled(slot),
            },
            Step::Upload(slot) => ActionModel::Upload { slot, words: upload_of(job, m, slot) },
            Step::BeginPage => ActionModel::BeginPage,
            Step::Record(phase) => ActionModel::RecordHuffman(launch_of(job, m, phase)),
            Step::SubmitPage => ActionModel::SubmitPage,
            Step::WaitPage => ActionModel::WaitPage,
            Step::Download(slot) => ActionModel::Download {
                slot,
                words: download_len(job, m, slot),
            },
            Step::Free(slot) => ActionModel::Free { slot },
        }
    }
}

/// The run fails: what is allocated is freed, last first.
pub open spec fn failed(m: RunModel, e: ErrorModel) -> RunModel {
    RunModel { steps: unwinding(m.live), outcome: Some(Err(e)), ..m }
}

/// The run fails with a message of its own.
pub open spec fn failed_saying(job: JobModel, m: RunModel, detail: Seq<char>) -> RunModel {
    failed(m, ErrorModel::Message(job.name + detail))
}

/// The run succeeds: what is allocated is freed, first first.
pub open spec fn succeeded(m: RunModel, out: OutputModel) -> RunModel {
    RunModel { steps: releasing(m.live), outcome: Some(Ok(out)), ..m }
}

/// Every flag is raised.
pub open spec fn all_ones(words: Seq<u32>) -> bool {
    forall|i: int| 0 <= i < words.len() ==> words[i] == 1
}

/// Index of the first word at or behind `i` that is not zero.
pub open spec fn first_nonzero(words: Seq<u32>, i: nat) -> Option<nat>
    decreases words.len() - i,
{
    if i >= words.len() {
        None
    } else if words[i as int] != 0 {
        Some(i)
    } else {
        first_nonzero(words, i + 1)
    }
}

/// Sync flags have come.
pub open spec fn flags_seen(job: JobModel, m: RunModel, flags: Seq<u32>) -> RunModel {
    let newest = if job.jpeg {
        other_states(m.newest)
    } else {
        m.newest
    };
    let fetch = seq![Step::Download(newest)];
    if all_ones(flags) {
        RunModel {
            newest,
            sync: Phase2Outcome::Converged { iterations: m.passes as u32 },
            steps: fetch,
            ..m
        }
    } else if m.passes < job.bound() {
        RunModel { newest, passes: m.passes + 1, steps: job.pass_steps(), ..m }
    } else if job.goal == Goal::Symbols {
        failed_saying(
            job,
            RunModel { newest, ..m },
            ": Phase 2 did not converge within retry bound"@,
        )
    } else {
        RunModel {
            newest,
            sync: Phase2Outcome::SyncBoundExceeded { bound: job.bound() as u32 },
            steps: fetch,
            ..m
        }
    }
}

/// States have come.
pub open spec fn states_seen(job: JobModel, m: RunModel, words: Seq<u32>) -> RunModel {
    let states = states_in(words);
    match job.goal {
        Goal::States => succeeded(m, OutputModel::States(states)),
        Goal::Sync => succeeded(m, OutputModel::Synced(states, m.sync)),
        Goal::Symbols => match exclusive_scan(counts_of(states)) {
            None => failed_saying(job, m, ": total symbol count overflows u32"@),
            Some((offsets, total)) => if total == 0 {
                RunModel {
                    steps: unwinding(m.live),
                    outcome: Some(Ok(OutputModel::Symbols(Seq::empty()))),
                    offsets,
                    total,
                    ..m
                }
            } else {
                RunModel { steps: job.redecode_steps(), offsets, total, ..m }
            },
        },
    }
}

/// Exit conditions have come.
pub open spec fn status_seen(job: JobModel, m: RunModel, status: Seq<u32>) -> RunModel {
    match first_nonzero(status, 0) {
        Some(i) => failed_saying(
            job,
            m,
            ": Phase 4 decode failed on subseq "@ + decimal(i) + ": "@
                + Phase4FailureKind::decoded(status[i as int]).text() + " (status code "@
                + decimal(status[i as int] as nat) + ")"@,
        ),
        None => RunModel { steps: seq![Step::Download(Slot::Symbols)], ..m },
    }
}

/// The run behind a step that is done, up to its effect on the buffers.
pub open spec fn past(m: RunModel) -> RunModel {
    RunModel { steps: m.steps.skip(1), ..m }
}

/// The run after the reply to its next action.
pub open spec fn advanced(job: JobModel, m: RunModel, reply: ReplyModel) -> RunModel {
    if m.steps.len() == 0 {
        m
    } else if let Step::Free(slot) = m.steps[0] {
        // Freeing cannot fail.
        RunModel { live: without(m.live, slot), ..past(m) }
    } else {
        match reply {
            ReplyModel::Failed(e) => failed(m, e),
            ReplyModel::Done => match m.steps[0] {
                Step::Allocate(slot) => RunModel { live: m.live.push(slot), ..past(m) },
                Step::Download(_) => failed_saying(job, m, bad_reply()),
                _ => past(m),
            },
            ReplyModel::Words(words) => match m.steps[0] {
                Step::Download(slot) => if words.len() != download_len(job, m, slot) {
                    failed_saying(job, m, bad_reply())
                } else {
                    match slot {
                        Slot::SyncFlags => flags_seen(job, past(m), words),
                        Slot::DecodeStatus => status_seen(job, past(m), words),
                        Slot::Symbols => succeeded(past(m), OutputModel::Symbols(words)),
                        _ => states_seen(job, past(m), words),
                    }
                },
                _ => failed_saying(job, m, bad_reply()),
            },
        }
    }
}

/// The text of a reply that does not fit its action.
pub open spec fn bad_reply() -> Seq<char> {
    ": device reply does not fit the action"@
}

/// The buffers but for the first entry of `slot`.
pub open spec fn without(live: Seq<Slot>, slot: Slot) -> Seq<Slot>
    decreases live.len(),
{
    if live.len() == 0 {
        live
    } else if live[0] == slot {
        live.skip(1)
    } else {
        seq![live[0]] + without(live.skip(1), slot)
    }
}

} // verus!
