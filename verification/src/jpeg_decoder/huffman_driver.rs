//! Runs of the parallel Huffman decoder, step by step.

use super::device::{DeviceAction, DeviceReply, HuffmanLaunch, Slot};
use super::huffman_run::{
    action_of, advanced, all_ones, failed, failed_saying, first_nonzero, flags_seen, launch_of,
    other_states, page, past, releasing, started, states_seen, status_seen, succeeded, unwinding,
    upload_of, without, Goal, HuffmanJob, HuffmanOutput, JobModel, OutputModel, RunModel, Step,
};
use super::offsets::{phase3_offsets, states_from_words};
use super::phase2_oracle::{
    ceil_log2, jpeg_phase2_retry_bound, lemma_ceil_log2, retry_bound, Phase2Outcome,
};
use crate::backend::error::{BackendError, ErrorModel};
use crate::backend::huffman_params::{
    lemma_subsequences_fit, subsequences, HuffmanPhase, Phase4FailureKind,
};
use crate::text::push_decimal;
use vstd::arithmetic::power2::*;
use vstd::prelude::*;
use vstd::slice::*;
use vstd::string::*;

verus! {

/// A run of the decoder.  [`HuffmanRun::next_action`] tells what the device
/// has to do; [`HuffmanRun::advance`] takes the device's reply.
#[derive(Debug)]
pub struct HuffmanRun {
    job: HuffmanJob,
    steps: Vec<Step>,
    at: usize,
    live: Vec<Slot>,
    passes: u32,
    newest: Slot,
    sync: Phase2Outcome,
    offsets: Vec<u32>,
    total: u32,
    outcome: Option<Result<HuffmanOutput, BackendError>>,
}

/// An outcome, its vectors as sequences.
pub open spec fn outcome_view(outcome: Option<Result<HuffmanOutput, BackendError>>) -> Option<
    Result<OutputModel, ErrorModel>,
> {
    match outcome {
        None => None,
        Some(Ok(out)) => Some(Ok(out@)),
        Some(Err(e)) => Some(Err(e@)),
    }
}

impl View for HuffmanRun {
    type V = RunModel;

    closed spec fn view(&self) -> RunModel {
        RunModel {
            steps: self.steps@.skip(self.at as int),
            live: self.live@,
            passes: self.passes as nat,
            newest: self.newest,
            sync: self.sync,
            offsets: self.offsets@,
            total: self.total,
            outcome: outcome_view(self.outcome),
        }
    }
}

proof fn lemma_count(job: JobModel)
    requires
        job.wf(),
    ensures
        1 <= job.count() <= u32::MAX,
        job.count() == subsequences(job.length_bits, job.subsequence_bits),
        job.bound() <= u32::MAX,
{
    lemma_subsequences_fit(job.length_bits, job.subsequence_bits);
    let c = subsequences(job.length_bits, job.subsequence_bits);
    let s = job.subsequence_bits as int;
    assert(c >= 1) by (nonlinear_arith)
        requires
            c * s >= job.length_bits,
            job.length_bits > 0,
            s > 0,
    ;
    lemma_log_small(c as nat);
}

proof fn lemma_log_small(n: nat)
    requires
        n <= u32::MAX,
    ensures
        ceil_log2(n) <= 32,
{
    lemma_ceil_log2(n);
    lemma2_to64();
    if ceil_log2(n) > 33 {
        lemma_pow2_strictly_increases(32, (ceil_log2(n) - 1) as nat);
    }
}

fn push_page(steps: &mut Vec<Step>, phase: HuffmanPhase)
    ensures
        final(steps)@ == old(steps)@ + page(phase),
{
    let ghost before = steps@;
    steps.push(Step::BeginPage);
    steps.push(Step::Record(phase));
    steps.push(Step::SubmitPage);
    steps.push(Step::WaitPage);
    assert(steps@ =~= before + page(phase));
}

fn push_slots(steps: &mut Vec<Step>, slots: &Vec<Slot>, upload: bool)
    ensures
        final(steps)@ == old(steps)@ + slots@.map_values(
            |s: Slot|
                if upload {
                    Step::Upload(s)
                } else {
                    Step::Allocate(s)
                },
        ),
{
    let ghost before = steps@;
    let ghost f = |s: Slot|
        if upload {
            Step::Upload(s)
        } else {
            Step::Allocate(s)
        };
    let mut i: usize = 0;
    while i < slots.len()
        invariant
            i <= slots@.len(),
            f == (|s: Slot|
                if upload {
                    Step::Upload(s)
                } else {
                    Step::Allocate(s)
                }),
            steps@ == before + slots@.map_values(f).take(i as int),
        decreases slots@.len() - i,
    {
        let slot: Slot = slots[i];
        steps.push(
            if upload {
                Step::Upload(slot)
            } else {
                Step::Allocate(slot)
            },
        );
        assert(steps@ =~= before + slots@.map_values(f).take(i + 1));
        i = i + 1;
    }
    assert(slots@.map_values(f).take(slots@.len() as int) =~= slots@.map_values(f));
}

fn releasing_steps(live: &Vec<Slot>) -> (steps: Vec<Step>)
    ensures
        steps@ == releasing(live@),
{
    let mut steps: Vec<Step> = Vec::new();
    let mut i: usize = 0;
    while i < live.len()
        invariant
            i <= live@.len(),
            steps@ == releasing(live@).take(i as int),
        decreases live@.len() - i,
    {
        steps.push(Step::Free(live[i]));
        assert(steps@ =~= releasing(live@).take(i + 1));
        i = i + 1;
    }
    assert(steps@ =~= releasing(live@));
    steps
}

fn unwinding_steps(live: &Vec<Slot>) -> (steps: Vec<Step>)
    ensures
        steps@ == unwinding(live@),
{
    let mut steps: Vec<Step> = Vec::new();
    let mut i: usize = live.len();
    while i > 0
        invariant
            i <= live@.len(),
            steps@ == unwinding(live@).take(live@.len() - i),
        decreases i,
    {
        i = i - 1;
        steps.push(Step::Free(live[i]));
        assert(steps@ =~= unwinding(live@).take(live@.len() - i));
    }
    assert(steps@ =~= unwinding(live@));
    steps
}

fn copy_words(words: &Vec<u32>) -> (copy: Vec<u32>)
    ensures
        copy@ == words@,
{
    slice_to_vec(words.as_slice())
}

fn are_all_ones(words: &Vec<u32>) -> (b: bool)
    ensures
        b == all_ones(words@),
{
    let mut i: usize = 0;
    while i < words.len()
        invariant
            i <= words@.len(),
            forall|j: int| 0 <= j < i ==> words@[j] == 1,
        decreases words@.len() - i,
    {
        if words[i] != 1 {
            return false;
        }
        i = i + 1;
    }
    true
}

fn find_nonzero(words: &Vec<u32>) -> (found: Option<usize>)
    ensures
        match first_nonzero(words@, 0) {
            Some(k) => found matches Some(i) && i == k && i < words@.len(),
            None => found is None,
        },
{
    let mut i: usize = 0;
    while i < words.len()
        invariant
            i <= words@.len(),
            first_nonzero(words@, 0) == first_nonzero(words@, i as nat),
        decreases words@.len() - i,
    {
        if words[i] != 0 {
            return Some(i);
        }
        i = i + 1;
    }
    None
}

impl HuffmanJob {
    fn phase1(&self) -> (phase: HuffmanPhase)
        ensures
            phase == self@.phase1(),
    {
        if self.jpeg {
            HuffmanPhase::JpegPhase1IntraSync
        } else {
            HuffmanPhase::Phase1IntraSync
        }
    }

    fn phase2(&self) -> (phase: HuffmanPhase)
        ensures
            phase == self@.phase2(),
    {
        if self.jpeg {
            HuffmanPhase::JpegPhase2InterSync
        } else {
            HuffmanPhase::Phase2InterSync
        }
    }

    fn phase4(&self) -> (phase: HuffmanPhase)
        ensures
            phase == self@.phase4(),
    {
        if self.jpeg {
            HuffmanPhase::JpegPhase4Redecode
        } else {
            HuffmanPhase::Phase4Redecode
        }
    }

    /// Number of subsequences.
    pub fn num_subsequences(&self) -> (n: u32)
        requires
            self@.wf(),
        ensures
            n == self@.count(),
            n > 0,
    {
        proof {
            lemma_count(self@);
        }
        ((self.length_bits as u64 + self.subsequence_bits as u64 - 1)
            / self.subsequence_bits as u64) as u32
    }

    fn bound(&self) -> (bound: u32)
        requires
            self@.wf(),
        ensures
            bound == self@.bound(),
    {
        let n: u32 = self.num_subsequences();
        if self.jpeg {
            jpeg_phase2_retry_bound(n as usize)
        } else {
            retry_bound(n as usize)
        }
    }

    fn bytes(&self, slot: Slot, total: u32) -> (n: u64)
        requires
            self@.wf(),
        ensures
            n == self@.bytes(slot, total),
    {
        match slot {
            Slot::Bitstream => ((self.length_bits as u64 + 31) / 32 + 1) * 4,
            Slot::Codebook | Slot::DcCodebook => self.num_components as u64 * 65536 * 4,
            Slot::McuSchedule => self.blocks_per_mcu as u64 * 4,
            Slot::States | Slot::StatesScratch => self.num_subsequences() as u64 * 16,
            Slot::SyncFlags | Slot::Offsets | Slot::DecodeStatus => self.num_subsequences() as u64
                * 4,
            Slot::Symbols => total as u64 * 4,
            _ => 0,
        }
    }

    fn allocations(&self) -> (slots: Vec<Slot>)
        ensures
            slots@ == self@.allocations(),
    {
        let mut slots: Vec<Slot> = Vec::new();
        slots.push(Slot::Bitstream);
        slots.push(Slot::Codebook);
        if self.jpeg {
            slots.push(Slot::DcCodebook);
            slots.push(Slot::McuSchedule);
        }
        slots.push(Slot::States);
        match self.goal {
            Goal::States => {},
            _ => {
                if self.jpeg {
                    slots.push(Slot::StatesScratch);
                }
                slots.push(Slot::SyncFlags);
            },
        }
        match self.goal {
            Goal::Symbols => {
                slots.push(Slot::Offsets);
            },
            _ => {},
        }
        assert(slots@ =~= self@.allocations());
        slots
    }

    fn uploads(&self) -> (slots: Vec<Slot>)
        ensures
            slots@ == self@.uploads(),
    {
        let mut slots: Vec<Slot> = Vec::new();
        slots.push(Slot::Bitstream);
        slots.push(Slot::Codebook);
        if self.jpeg {
            slots.push(Slot::DcCodebook);
            slots.push(Slot::McuSchedule);
        }
        assert(slots@ =~= self@.uploads());
        slots
    }

    fn pass_steps(&self) -> (steps: Vec<Step>)
        ensures
            steps@ == self@.pass_steps(),
    {
        let mut steps: Vec<Step> = Vec::new();
        push_page(&mut steps, self.phase2());
        steps.push(Step::Download(Slot::SyncFlags));
        assert(steps@ =~= self@.pass_steps());
        steps
    }

    fn first_steps(&self) -> (steps: Vec<Step>)
        ensures
            steps@ == self@.first_steps(),
    {
        let mut steps: Vec<Step> = Vec::new();
        let allocations = self.allocations();
        push_slots(&mut steps, &allocations, false);
        let uploads = self.uploads();
        push_slots(&mut steps, &uploads, true);
        push_page(&mut steps, self.phase1());
        proof {
            assert(self@.allocations().map_values(
                |s: Slot|
                    if false {
                        Step::Upload(s)
                    } else {
                        Step::Allocate(s)
                    },
            ) =~= self@.allocations().map_values(|s: Slot| Step::Allocate(s)));
            assert(self@.uploads().map_values(
                |s: Slot|
                    if true {
                        Step::Upload(s)
                    } else {
                        Step::Allocate(s)
                    },
            ) =~= self@.uploads().map_values(|s: Slot| Step::Upload(s)));
        }
        match self.goal {
            Goal::States => {
                steps.push(Step::Download(Slot::States));
            },
            _ => {
                push_page(&mut steps, self.phase2());
                steps.push(Step::Download(Slot::SyncFlags));
            },
        }
        assert(steps@ =~= self@.first_steps());
        steps
    }

    fn redecode_steps(&self) -> (steps: Vec<Step>)
        ensures
            steps@ == self@.redecode_steps(),
    {
        let mut steps: Vec<Step> = Vec::new();
        steps.push(Step::Upload(Slot::Offsets));
        steps.push(Step::Allocate(Slot::Symbols));
        steps.push(Step::Allocate(Slot::DecodeStatus));
        push_page(&mut steps, self.phase4());
        steps.push(Step::Download(Slot::DecodeStatus));
        assert(steps@ =~= self@.redecode_steps());
        steps
    }
}

impl HuffmanRun {
    /// What the run decodes.
    pub closed spec fn job(&self) -> JobModel {
        self.job@
    }

    pub closed spec fn wf(&self) -> bool {
        &&& self.job@.wf()
        &&& self.at <= self.steps@.len()
        &&& self.passes <= self.job@.bound()
    }

    /// Begin a run.
    pub fn start(job: HuffmanJob) -> (run: Self)
        requires
            job@.wf(),
        ensures
            run.wf(),
            run.job() == job@,
            run@ == started(job@),
    {
        let steps = job.first_steps();
        let run = HuffmanRun {
            job,
            steps,
            at: 0,
            live: Vec::new(),
            passes: 0,
            newest: Slot::States,
            sync: Phase2Outcome::Converged { iterations: 0 },
            offsets: Vec::new(),
            total: 0,
            outcome: None,
        };
        assert(run@ =~= started(run.job@));
        run
    }

    fn launch(&self, phase: HuffmanPhase) -> (launch: HuffmanLaunch)
        ensures
            launch == launch_of(self.job@, self@, phase),
    {
        let propagates: bool = matches!(phase, HuffmanPhase::JpegPhase2InterSync);
        let syncs: bool = propagates || matches!(phase, HuffmanPhase::Phase2InterSync);
        let redecodes: bool = matches!(
            phase,
            HuffmanPhase::Phase4Redecode | HuffmanPhase::JpegPhase4Redecode
        );
        let framed: bool = phase.is_jpeg_framed();
        HuffmanLaunch {
            bitstream: Slot::Bitstream,
            codebook: Slot::Codebook,
            s_info: if propagates {
                other(self.newest)
            } else {
                self.newest
            },
            sync_flags: when(syncs, Slot::SyncFlags),
            s_info_prev: when(propagates, self.newest),
            offsets: when(redecodes, Slot::Offsets),
            symbols_out: when(redecodes, Slot::Symbols),
            decode_status: when(redecodes, Slot::DecodeStatus),
            dc_codebook: when(framed, Slot::DcCodebook),
            mcu_schedule: when(framed, Slot::McuSchedule),
            length_bits: self.job.length_bits,
            subsequence_bits: self.job.subsequence_bits,
            num_components: self.job.num_components,
            blocks_per_mcu: self.job.blocks_per_mcu,
            total_symbols: if redecodes {
                self.total
            } else {
                0
            },
            phase,
        }
    }

    /// What the device has to do next.
    pub fn next_action(&self) -> (action: DeviceAction)
        requires
            self.wf(),
        ensures
            action@ == action_of(self.job(), self@),
    {
        if self.at >= self.steps.len() {
            return DeviceAction::Finish;
        }
        assert(self@.steps[0] == self.steps@[self.at as int]);
        match self.steps[self.at] {
            Step::Allocate(slot) => DeviceAction::Allocate {
                slot,
                bytes: self.job.bytes(slot, self.total),
                zeroed: matches!(slot, Slot::Bitstream | Slot::Symbols | Slot::DecodeStatus),
            },
            Step::Upload(slot) => {
                let words: Vec<u32> = match slot {
                    Slot::Bitstream => copy_words(&self.job.words),
                    Slot::Codebook => copy_words(&self.job.codebook),
                    Slot::DcCodebook => copy_words(&self.job.dc_codebook),
                    Slot::McuSchedule => copy_words(&self.job.mcu_schedule),
                    Slot::Offsets => copy_words(&self.offsets),
                    _ => Vec::new(),
                };
                assert(words@ =~= upload_of(self.job@, self@, slot));
                DeviceAction::Upload { slot, words }
            },
            Step::BeginPage => DeviceAction::BeginPage,
            Step::Record(phase) => DeviceAction::RecordHuffman(self.launch(phase)),
            Step::SubmitPage => DeviceAction::SubmitPage,
            Step::WaitPage => DeviceAction::WaitPage,
            Step::Download(slot) => DeviceAction::Download {
                slot,
                words: self.job.bytes(slot, self.total) / 4,
            },
            Step::Free(slot) => DeviceAction::Free { slot },
        }
    }

    fn fail(&mut self, e: BackendError)
        requires
            old(self).wf(),
        ensures
            final(self).wf(),
            final(self).job@ == old(self).job@,
            final(self)@ == failed(old(self)@, e@),
    {
        self.steps = unwinding_steps(&self.live);
        self.at = 0;
        self.outcome = Some(Err(e));
        assert(self@ =~= failed(old(self)@, e@));
    }

    fn fail_saying(&mut self, detail: &str)
        requires
            old(self).wf(),
        ensures
            final(self).wf(),
            final(self).job@ == old(self).job@,
            final(self)@ == failed_saying(old(self).job@, old(self)@, detail@),
    {
        let mut s = String::from_str(self.job.name);
        s.append(detail);
        self.fail(BackendError::Message(s));
    }

    fn succeed(&mut self, out: HuffmanOutput)
        requires
            old(self).wf(),
        ensures
            final(self).wf(),
            final(self).job@ == old(self).job@,
            final(self)@ == succeeded(old(self)@, out@),
    {
        self.steps = releasing_steps(&self.live);
        self.at = 0;
        self.outcome = Some(Ok(out));
        assert(self@ =~= succeeded(old(self)@, out@));
    }

    fn take_flags(&mut self, flags: Vec<u32>)
        requires
            old(self).wf(),
        ensures
            final(self).wf(),
            final(self).job@ == old(self).job@,
            final(self)@ == flags_seen(old(self).job@, old(self)@, flags@),
    {
        proof {
            lemma_count(self.job@);
        }
        if self.job.jpeg {
            self.newest = other(self.newest);
        }
        let bound: u32 = self.job.bound();
        if are_all_ones(&flags) {
            self.sync = Phase2Outcome::Converged { iterations: self.passes };
            self.steps = vec![Step::Download(self.newest)];
            self.at = 0;
        } else if self.passes < bound {
            self.passes = self.passes + 1;
            self.steps = self.job.pass_steps();
            self.at = 0;
        } else {
            match self.job.goal {
                Goal::Symbols => {
                    self.fail_saying(": Phase 2 did not converge within retry bound");
                },
                _ => {
                    self.sync = Phase2Outcome::SyncBoundExceeded { bound };
                    self.steps = vec![Step::Download(self.newest)];
                    self.at = 0;
                },
            }
        }
        assert(self@ =~= flags_seen(old(self).job@, old(self)@, flags@));
    }

    fn take_states(&mut self, words: Vec<u32>)
        requires
            old(self).wf(),
        ensures
            final(self).wf(),
            final(self).job@ == old(self).job@,
            final(self)@ == states_seen(old(self).job@, old(self)@, words@),
    {
        let states = states_from_words(words.as_slice());
        match self.job.goal {
            Goal::States => {
                self.succeed(HuffmanOutput::States(states));
            },
            Goal::Sync => {
                self.succeed(HuffmanOutput::Synced(states, self.sync));
            },
            Goal::Symbols => {
                match phase3_offsets(states.as_slice()) {
                    None => {
                        self.fail_saying(": total symbol count overflows u32");
                    },
                    Some((offsets, total)) => {
                        self.offsets = offsets;
                        self.total = total;
                        if total == 0 {
                            self.steps = unwinding_steps(&self.live);
                            self.at = 0;
                            let out = HuffmanOutput::Symbols(Vec::new());
                            assert(out@->Symbols_0 =~= Seq::<u32>::empty());
                            self.outcome = Some(Ok(out));
                        } else {
                            self.steps = self.job.redecode_steps();
                            self.at = 0;
                        }
                    },
                }
            },
        }
        assert(self@ =~= states_seen(old(self).job@, old(self)@, words@));
    }

    fn take_status(&mut self, status: Vec<u32>)
        requires
            old(self).wf(),
        ensures
            final(self).wf(),
            final(self).job@ == old(self).job@,
            final(self)@ == status_seen(old(self).job@, old(self)@, status@),
    {
        match find_nonzero(&status) {
            Some(i) => {
                let raw: u32 = status[i];
                let mut s = String::from_str(": Phase 4 decode failed on subseq ");
                push_decimal(&mut s, i as u64);
                s.append(": ");
                s.append(Phase4FailureKind::from_u32(raw).label());
                s.append(" (status code ");
                push_decimal(&mut s, raw as u64);
                s.append(")");
                self.fail_saying(s.as_str());
            },
            None => {
                self.steps = vec![Step::Download(Slot::Symbols)];
                self.at = 0;
            },
        }
        assert(self@ =~= status_seen(old(self).job@, old(self)@, status@));
    }

    fn forget(&mut self, slot: Slot)
        requires
            old(self).wf(),
        ensures
            final(self).wf(),
            final(self).job@ == old(self).job@,
            final(self)@ == (RunModel { live: without(old(self)@.live, slot), ..old(self)@ }),
    {
        let ghost all = self.live@;
        let mut kept: Vec<Slot> = Vec::new();
        let mut i: usize = 0;
        proof {
            assert(all.skip(0) =~= all);
            assert(kept@ + without(all, slot) =~= without(all, slot));
        }
        while i < self.live.len() && self.live[i] != slot
            invariant
                i <= self.live@.len(),
                self.live@ == all,
                kept@ == all.take(i as int),
                kept@ + without(all.skip(i as int), slot) == without(all, slot),
            decreases self.live@.len() - i,
        {
            let ghost rest = all.skip(i as int);
            kept.push(self.live[i]);
            proof {
                assert(rest.skip(1) =~= all.skip(i + 1));
                assert(kept@ =~= all.take(i + 1));
                assert(kept@ + without(all.skip(i + 1), slot) =~= all.take(i as int) + without(
                    rest,
                    slot,
                ));
            }
            i = i + 1;
        }
        let ghost rest = all.skip(i as int);
        assert(i < all.len() ==> rest.skip(1) =~= all.skip(i + 1));
        let ghost from = if i < all.len() {
            i + 1
        } else {
            i as int
        };
        assert(without(all, slot) =~= kept@ + all.skip(from));
        if i < self.live.len() {
            i = i + 1;
        }
        let ghost head = kept@;
        while i < self.live.len()
            invariant
                0 <= from <= i <= self.live@.len(),
                self.live@ == all,
                kept@ == head + all.subrange(from, i as int),
            decreases self.live@.len() - i,
        {
            kept.push(self.live[i]);
            assert(kept@ =~= head + all.subrange(from, i + 1));
            i = i + 1;
        }
        assert(kept@ =~= without(all, slot));
        self.live = kept;
        assert(self@ =~= (RunModel { live: without(old(self)@.live, slot), ..old(self)@ }));
    }

    /// Take the device's reply to the action that was given last.
    pub fn advance(&mut self, reply: DeviceReply)
        requires
            old(self).wf(),
        ensures
            final(self).wf(),
            final(self).job() == old(self).job(),
            final(self)@ == advanced(old(self).job(), old(self)@, reply@),
    {
        if self.at >= self.steps.len() {
            return;
        }
        let step: Step = self.steps[self.at];
        let ghost start = self@;
        assert(start.steps[0] == step);
        if let Step::Free(slot) = step {
            self.at = self.at + 1;
            assert(self@ =~= past(start));
            self.forget(slot);
            return;
        }
        match reply {
            DeviceReply::Failed(e) => {
                self.fail(e);
            },
            DeviceReply::Done => {
                match step {
                    Step::Allocate(slot) => {
                        self.at = self.at + 1;
                        self.live.push(slot);
                        assert(self@ =~= (RunModel { live: start.live.push(slot), ..past(start) }));
                    },
                    Step::Download(_) => {
                        self.fail_saying(": device reply does not fit the action");
                    },
                    _ => {
                        self.at = self.at + 1;
                        assert(self@ =~= past(start));
                    },
                }
            },
            DeviceReply::Words(words) => {
                match step {
                    Step::Download(slot) => {
                        if words.len() as u64 != self.job.bytes(slot, self.total) / 4 {
                            self.fail_saying(": device reply does not fit the action");
                        } else {
                            self.at = self.at + 1;
                            assert(self@ =~= past(start));
                            match slot {
                                Slot::SyncFlags => {
                                    self.take_flags(words);
                                },
                                Slot::DecodeStatus => {
                                    self.take_status(words);
                                },
                                Slot::Symbols => {
                                    self.succeed(HuffmanOutput::Symbols(words));
                                },
                                _ => {
                                    self.take_states(words);
                                },
                            }
                        }
                    },
                    _ => {
                        self.fail_saying(": device reply does not fit the action");
                    },
                }
            },
        }
    }

    /// The result of a run; nothing as long as it has none.
    pub fn into_outcome(self) -> (outcome: Option<Result<HuffmanOutput, BackendError>>)
        ensures
            outcome_view(outcome) == self@.outcome,
    {
        self.outcome
    }
}

fn other(slot: Slot) -> (r: Slot)
    ensures
        r == other_states(slot),
{
    match slot {
        Slot::States => Slot::StatesScratch,
        _ => Slot::States,
    }
}

fn when(cond: bool, slot: Slot) -> (r: Option<Slot>)
    ensures
        r == (if cond {
            Some(slot)
        } else {
            None
        }),
{
    if cond {
        Some(slot)
    } else {
        None
    }
}

} // verus!
