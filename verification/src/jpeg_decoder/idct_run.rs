//! Phase 5 as a run of device actions: upload the coefficients, launch the
//! IDCT, keep the image.

use super::device::{ActionModel, DeviceAction, DeviceReply, IdctLaunch, ReplyModel, Slot};
use super::error::{GpuErrorModel, JpegGpuError};
use crate::backend::error::{BackendError, ErrorModel, GpuBackend};
use crate::backend::idct_params::{eighths, IdctParams};
use vstd::prelude::*;
use vstd::string::*;

verus! {

/// What the IDCT transforms, in host memory.
#[derive(Debug)]
pub struct IdctJob {
    /// Zigzag-ordered coefficients by component and block.
    pub coefficients: Vec<i32>,
    /// Quantisation tables in zigzag order.
    pub qtables: Vec<i32>,
    /// Absolute DC values by component and block.
    pub dc_values: Vec<i32>,
    /// Image width in pixels.
    pub width: u32,
    /// Image height in pixels.
    pub height: u32,
    /// Number of components.
    pub num_components: u32,
    /// Blocks in a row.
    pub blocks_wide: u32,
    /// Rows of blocks.
    pub blocks_high: u32,
    /// Number of quantisation tables.
    pub num_qtables: u32,
}

/// A job, its buffers as sequences.
#[verifier::ext_equal]
pub struct IdctJobModel {
    pub coefficients: Seq<i32>,
    pub qtables: Seq<i32>,
    pub dc_values: Seq<i32>,
    pub width: u32,
    pub height: u32,
    pub num_components: u32,
    pub blocks_wide: u32,
    pub blocks_high: u32,
    pub num_qtables: u32,
}

impl View for IdctJob {
    type V = IdctJobModel;

    open spec fn view(&self) -> IdctJobModel {
        IdctJobModel {
            coefficients: self.coefficients@,
            qtables: self.qtables@,
            dc_values: self.dc_values@,
            width: self.width,
            height: self.height,
            num_components: self.num_components,
            blocks_wide: self.blocks_wide,
            blocks_high: self.blocks_high,
            num_qtables: self.num_qtables,
        }
    }
}

/// The image in device memory: the contents of [`Slot::Pixels`], RGBA8, row
/// by row.
#[derive(Debug, Clone, Copy, PartialEq, Eq, Structural)]
pub struct DeviceImage {
    /// Width in pixels.
    pub width: u32,
    /// Height in pixels.
    pub height: u32,
}

/// A value's bit pattern.
pub open spec fn word_of(v: i32) -> u32 {
    v as u32
}

/// The buffers of the run, in the order in which they are allocated.
pub open spec fn idct_buffers() -> Seq<Slot> {
    seq![Slot::Coefficients, Slot::QuantTables, Slot::DcValues, Slot::Pixels]
}

/// Where a run stands: behind its first `at` actions, or freeing the first
/// `left` of its buffers after a failure.
pub enum IdctProgress {
    Working { at: nat },
    Failing { left: nat, error: ErrorModel },
}

impl IdctJobModel {
    /// Sizes that can be counted in bytes.
    pub open spec fn wf(self) -> bool {
        &&& self.coefficients.len() <= 0x1_0000_0000
        &&& self.qtables.len() <= 0x1_0000_0000
        &&& self.dc_values.len() <= 0x1_0000_0000
        &&& self.width <= 0xFFFF
        &&& self.height <= 0xFFFF
    }

    pub open spec fn bytes(self, slot: Slot) -> nat {
        match slot {
            Slot::Coefficients => 4 * self.coefficients.len(),
            Slot::QuantTables => 4 * self.qtables.len(),
            Slot::DcValues => 4 * self.dc_values.len(),
            _ => (self.width * self.height) as nat * 4,
        }
    }

    pub open spec fn launch(self) -> IdctLaunch {
        IdctLaunch {
            coefficients: Slot::Coefficients,
            qtables: Slot::QuantTables,
            dc_values: Slot::DcValues,
            pixels_rgba: Slot::Pixels,
            width: self.width,
            height: self.height,
            num_components: self.num_components,
            blocks_wide: self.blocks_wide,
            blocks_high: self.blocks_high,
            num_qtables: self.num_qtables,
        }
    }

    pub open spec fn upload(self, slot: Slot) -> Seq<u32> {
        match slot {
            Slot::Coefficients => self.coefficients.map_values(|v: i32| word_of(v)),
            Slot::QuantTables => self.qtables.map_values(|v: i32| word_of(v)),
            _ => self.dc_values.map_values(|v: i32| word_of(v)),
        }
    }
}

/// The next action.
pub open spec fn idct_action(job: IdctJobModel, p: IdctProgress) -> ActionModel {
    match p {
        IdctProgress::Failing { left, .. } => if left == 0 {
            ActionModel::Finish
        } else {
            ActionModel::Free { slot: idct_buffers()[left - 1] }
        },
        IdctProgress::Working { at } => if at < 4 {
            let slot = idct_buffers()[at as int];
            ActionModel::Allocate { slot, bytes: job.bytes(slot), zeroed: slot == Slot::Pixels }
        } else if at < 7 {
            let slot = idct_buffers()[at - 4];
            ActionModel::Upload { slot, words: job.upload(slot) }
        } else if at == 7 {
            ActionModel::BeginPage
        } else if at == 8 {
            ActionModel::RecordIdct(job.launch())
        } else if at == 9 {
            ActionModel::SubmitPage
        } else if at == 10 {
            ActionModel::WaitPage
        } else if at < 14 {
            ActionModel::Free { slot: idct_buffers()[at - 11] }
        } else {
            ActionModel::Finish
        },
    }
}

/// Progress after a reply.
pub open spec fn idct_advanced(p: IdctProgress, reply: ReplyModel) -> IdctProgress {
    match p {
        IdctProgress::Failing { left, error } => IdctProgress::Failing {
            left: if left == 0 {
                0
            } else {
                (left - 1) as nat
            },
            error,
        },
        IdctProgress::Working { at } => if at >= 14 {
            p
        } else if at >= 11 {
            // Freeing cannot fail.
            IdctProgress::Working { at: at + 1 }
        } else {
            let left = if at < 4 {
                at
            } else {
                4
            };
            match reply {
                ReplyModel::Done => IdctProgress::Working { at: at + 1 },
                ReplyModel::Failed(error) => IdctProgress::Failing { left, error },
                ReplyModel::Words(_) => IdctProgress::Failing {
                    left,
                    error: ErrorModel::Message("device reply does not fit the action"@),
                },
            }
        },
    }
}

/// The buffers that are allocated.
pub open spec fn idct_live(p: IdctProgress) -> Seq<Slot> {
    match p {
        IdctProgress::Failing { left, .. } => idct_buffers().take(left as int),
        IdctProgress::Working { at } => if at < 4 {
            idct_buffers().take(at as int)
        } else if at < 11 {
            idct_buffers()
        } else {
            idct_buffers().skip(at - 11)
        },
    }
}

/// A progress that a run can be in.
pub open spec fn idct_reachable(p: IdctProgress) -> bool {
    match p {
        IdctProgress::Failing { left, .. } => left <= 4,
        IdctProgress::Working { at } => at <= 14,
    }
}

/// A run of the IDCT.  [`IdctRun::next_action`] tells what the device has to
/// do; [`IdctRun::advance`] takes the device's reply.
#[derive(Debug)]
pub struct IdctRun {
    job: IdctJob,
    at: u8,
    left: u8,
    failure: Option<BackendError>,
}

impl View for IdctRun {
    type V = IdctProgress;

    closed spec fn view(&self) -> IdctProgress {
        match self.failure {
            None => IdctProgress::Working { at: self.at as nat },
            Some(e) => IdctProgress::Failing { left: self.left as nat, error: e@ },
        }
    }
}

fn bits_of(values: &Vec<i32>) -> (words: Vec<u32>)
    ensures
        words@ == values@.map_values(|v: i32| word_of(v)),
{
    let mut words: Vec<u32> = Vec::with_capacity(values.len());
    let mut i: usize = 0;
    while i < values.len()
        invariant
            i <= values@.len(),
            words@ == values@.map_values(|v: i32| word_of(v)).take(i as int),
        decreases values@.len() - i,
    {
        words.push(values[i] as u32);
        assert(words@ =~= values@.map_values(|v: i32| word_of(v)).take(i + 1));
        i = i + 1;
    }
    assert(words@ =~= values@.map_values(|v: i32| word_of(v)));
    words
}

fn buffer(i: u8) -> (slot: Slot)
    requires
        i < 4,
    ensures
        slot == idct_buffers()[i as int],
{
    match i {
        0 => Slot::Coefficients,
        1 => Slot::QuantTables,
        2 => Slot::DcValues,
        _ => Slot::Pixels,
    }
}

impl IdctRun {
    /// What the run transforms.
    pub closed spec fn job(&self) -> IdctJobModel {
        self.job@
    }

    pub closed spec fn wf(&self) -> bool {
        self.job@.wf() && idct_reachable(self@)
    }

    /// Begin a run.
    pub fn start(job: IdctJob) -> (run: Self)
        requires
            job@.wf(),
        ensures
            run.wf(),
            run.job() == job@,
            run@ == (IdctProgress::Working { at: 0 }),
    {
        IdctRun { job, at: 0, left: 0, failure: None }
    }

    fn bytes(&self, slot: Slot) -> (n: u64)
        requires
            self.job@.wf(),
        ensures
            n == self.job@.bytes(slot),
    {
        match slot {
            Slot::Coefficients => 4 * self.job.coefficients.len() as u64,
            Slot::QuantTables => 4 * self.job.qtables.len() as u64,
            Slot::DcValues => 4 * self.job.dc_values.len() as u64,
            _ => {
                proof {
                    let w = self.job.width as int;
                    let h = self.job.height as int;
                    assert(0 <= w * h <= 0xFFFF * 0xFFFF) by (nonlinear_arith)
                        requires
                            0 <= w <= 0xFFFF,
                            0 <= h <= 0xFFFF,
                    ;
                }
                self.job.width as u64 * self.job.height as u64 * 4
            },
        }
    }

    /// What the device has to do next.
    pub fn next_action(&self) -> (action: DeviceAction)
        requires
            self.wf(),
        ensures
            action@ == idct_action(self.job(), self@),
    {
        if self.failure.is_some() {
            if self.left == 0 {
                return DeviceAction::Finish;
            }
            return DeviceAction::Free { slot: buffer(self.left - 1) };
        }
        let at: u8 = self.at;
        if at < 4 {
            let slot: Slot = buffer(at);
            DeviceAction::Allocate { slot, bytes: self.bytes(slot), zeroed: at == 3 }
        } else if at < 7 {
            let words: Vec<u32> = if at == 4 {
                bits_of(&self.job.coefficients)
            } else if at == 5 {
                bits_of(&self.job.qtables)
            } else {
                bits_of(&self.job.dc_values)
            };
            DeviceAction::Upload { slot: buffer(at - 4), words }
        } else if at == 7 {
            DeviceAction::BeginPage
        } else if at == 8 {
            DeviceAction::RecordIdct(
                IdctLaunch {
                    coefficients: Slot::Coefficients,
                    qtables: Slot::QuantTables,
                    dc_values: Slot::DcValues,
                    pixels_rgba: Slot::Pixels,
                    width: self.job.width,
                    height: self.job.height,
                    num_components: self.job.num_components,
                    blocks_wide: self.job.blocks_wide,
                    blocks_high: self.job.blocks_high,
                    num_qtables: self.job.num_qtables,
                },
            )
        } else if at == 9 {
            DeviceAction::SubmitPage
        } else if at == 10 {
            DeviceAction::WaitPage
        } else if at < 14 {
            DeviceAction::Free { slot: buffer(at - 11) }
        } else {
            DeviceAction::Finish
        }
    }

    /// Take the device's reply to the action that was given last.
    pub fn advance(&mut self, reply: DeviceReply)
        requires
            old(self).wf(),
        ensures
            final(self).wf(),
            final(self).job() == old(self).job(),
            final(self)@ == idct_advanced(old(self)@, reply@),
    {
        if self.failure.is_some() {
            if self.left > 0 {
                self.left = self.left - 1;
            }
            return;
        }
        if self.at >= 14 {
            return;
        }
        if self.at >= 11 {
            self.at = self.at + 1;
            return;
        }
        let held: u8 = if self.at < 4 {
            self.at
        } else {
            4
        };
        match reply {
            DeviceReply::Done => {
                self.at = self.at + 1;
            },
            DeviceReply::Failed(e) => {
                self.left = held;
                self.failure = Some(e);
            },
            DeviceReply::Words(_) => {
                self.left = held;
                self.failure = Some(
                    BackendError::Message(String::from_str("device reply does not fit the action")),
                );
            },
        }
    }

    /// The result of a run: the image, or the error; nothing as long as
    /// actions are left.
    pub fn outcome(&self) -> (outcome: Option<Result<DeviceImage, JpegGpuError>>)
        requires
            self.wf(),
        ensures
            match self@ {
                IdctProgress::Working { at } => if at == 14 {
                    outcome == Some(
                        Ok::<DeviceImage, JpegGpuError>(
                            DeviceImage { width: self.job().width, height: self.job().height },
                        ),
                    )
                } else {
                    outcome is None
                },
                IdctProgress::Failing { left, error } => if left == 0 {
                    outcome matches Some(Err(e)) && e@ == GpuErrorModel::Dispatch(error.text())
                } else {
                    outcome is None
                },
            },
    {
        match &self.failure {
            None => if self.at == 14 {
                Some(Ok(DeviceImage { width: self.job.width, height: self.job.height }))
            } else {
                None
            },
            Some(e) => if self.left == 0 {
                Some(Err(JpegGpuError::Dispatch(e.message())))
            } else {
                None
            },
        }
    }
}

/// Every action finds its buffers, a run ends with exactly the image
/// allocated, and a failed run with nothing.
pub proof fn law_idct_actions_find_their_buffers(job: IdctJobModel, p: IdctProgress)
    requires
        idct_reachable(p),
    ensures
        match idct_action(job, p) {
            ActionModel::Allocate { slot, .. } => !idct_live(p).contains(slot),
            ActionModel::Upload { slot, .. } => idct_live(p).contains(slot),
            ActionModel::Free { slot } => idct_live(p).contains(slot),
            ActionModel::RecordIdct(_) => idct_live(p) == idct_buffers(),
            ActionModel::Finish => idct_live(p) == (if p is Working {
                seq![Slot::Pixels]
            } else {
                Seq::empty()
            }),
            _ => true,
        },
{
    let b = idct_buffers();
    let live = idct_live(p);
    match p {
        IdctProgress::Working { at } => {
            if 4 <= at < 7 {
                assert(live[at - 4] == b[at - 4]);
            } else if 11 <= at < 14 {
                assert(live[0] == b[at - 11]);
            } else if at == 14 {
                assert(live =~= seq![Slot::Pixels]);
            }
        },
        IdctProgress::Failing { left, .. } => {
            if left > 0 {
                assert(live[left - 1] == b[left - 1]);
            } else {
                assert(live =~= Seq::empty());
            }
        },
    }
}

/// Each reply moves the buffers as its action says, and brings the end
/// nearer: after at most 14 replies, or 4 behind a failure, the run is over.
pub proof fn law_idct_run_ends(job: IdctJobModel, p: IdctProgress, reply: ReplyModel)
    requires
        idct_reachable(p),
        !(idct_action(job, p) is Finish),
    ensures
        idct_reachable(idct_advanced(p, reply)),
        idct_left(idct_advanced(p, reply)) < idct_left(p) <= 18,
{
}

/// Replies that a run can still take.
pub open spec fn idct_left(p: IdctProgress) -> nat {
    match p {
        IdctProgress::Working { at } => if at >= 14 {
            0
        } else {
            (18 - at) as nat
        },
        IdctProgress::Failing { left, .. } => left,
    }
}

/// A job with the arrays its dimensions call for.
pub open spec fn idct_consistent(job: IdctJobModel) -> bool {
    let blocks = job.num_components * (job.blocks_wide * job.blocks_high);
    &&& job.width > 0
    &&& job.height > 0
    &&& job.num_components == 1 || job.num_components == 3
    &&& job.blocks_wide == eighths(job.width)
    &&& job.blocks_high == eighths(job.height)
    &&& 1 <= job.num_qtables <= 4
    &&& job.coefficients.len() == blocks * 64
    &&& job.dc_values.len() == blocks
    &&& job.qtables.len() == job.num_qtables * 64
}

/// The launch of a consistent job meets its documented invariants on every
/// back end whose buffers hold what the run asked for.
pub proof fn law_idct_launch_is_valid<B: GpuBackend>(
    job: IdctJobModel,
    p: IdctParams<B>,
    backend: &B,
)
    requires
        idct_consistent(job),
        p.width == job.width,
        p.height == job.height,
        p.num_components == job.num_components,
        p.blocks_wide == job.blocks_wide,
        p.blocks_high == job.blocks_high,
        p.num_qtables == job.num_qtables,
        backend.capacity(p.coefficients) >= job.bytes(Slot::Coefficients),
        backend.capacity(p.qtables) >= job.bytes(Slot::QuantTables),
        backend.capacity(p.dc_values) >= job.bytes(Slot::DcValues),
        backend.capacity(p.pixels_rgba) >= job.bytes(Slot::Pixels),
    ensures
        p.well_formed(backend),
{
    assert(job.width * job.height >= 0) by (nonlinear_arith)
        requires
            job.width >= 0,
            job.height >= 0,
    ;
}

/// The words are the values, as 32-bit patterns.
pub open spec fn patterns_of(words: Seq<u32>, values: Seq<i32>) -> bool {
    &&& words.len() == values.len()
    &&& forall|i: int|
        0 <= i < values.len() ==> #[trigger] words[i] == if values[i] >= 0 {
            values[i] as int
        } else {
            values[i] + 0x1_0000_0000
        }
}

/// What the buffer that the kernel reads as its coefficients, tables or DC
/// values is to hold.
pub open spec fn wanted(job: IdctJobModel, launch: IdctLaunch, slot: Slot) -> Option<Seq<i32>> {
    if slot == launch.coefficients {
        Some(job.coefficients)
    } else if slot == launch.qtables {
        Some(job.qtables)
    } else if slot == launch.dc_values {
        Some(job.dc_values)
    } else {
        None
    }
}

/// The kernel finds in each of its buffers what the job has for it: the
/// buffers of a launch are four, each is allocated in its size before it is
/// filled, those that the kernel reads are filled once, with the job's own
/// coefficients, tables and DC values, before the launch, and the image is
/// zeroed, never filled and never freed.  The launch has the job's sizes.
pub proof fn law_idct_kernel_finds_its_data(job: IdctJobModel, at: nat)
    requires
        at <= 14,
    ensures
        ({
            let l = job.launch();
            &&& l.coefficients != l.qtables && l.coefficients != l.dc_values && l.coefficients
                != l.pixels_rgba && l.qtables != l.dc_values && l.qtables != l.pixels_rgba
                && l.dc_values != l.pixels_rgba
            &&& l.width == job.width && l.height == job.height && l.num_components
                == job.num_components && l.blocks_wide == job.blocks_wide && l.blocks_high
                == job.blocks_high && l.num_qtables == job.num_qtables
            &&& match idct_action(job, IdctProgress::Working { at }) {
                ActionModel::Allocate { slot, bytes, zeroed } => {
                    &&& slot == l.pixels_rgba ==> zeroed && bytes == 4 * (job.width * job.height)
                    &&& wanted(job, l, slot) matches Some(v) ==> bytes == 4 * v.len()
                },
                ActionModel::Upload { slot, words } => wanted(job, l, slot) matches Some(v)
                    && patterns_of(words, v),
                ActionModel::RecordIdct(r) => r == l && at > 7,
                ActionModel::Free { slot } => slot != l.pixels_rgba && at > 10,
                _ => true,
            }
            &&& idct_action(job, IdctProgress::Working { at: 4 }) is Upload && idct_action(
                job,
                IdctProgress::Working { at: 4 },
            )->Upload_slot == l.coefficients
            &&& idct_action(job, IdctProgress::Working { at: 5 }) is Upload && idct_action(
                job,
                IdctProgress::Working { at: 5 },
            )->Upload_slot == l.qtables
            &&& idct_action(job, IdctProgress::Working { at: 6 }) is Upload && idct_action(
                job,
                IdctProgress::Working { at: 6 },
            )->Upload_slot == l.dc_values
            &&& idct_action(job, IdctProgress::Working { at: 8 }) is RecordIdct
            &&& idct_action(job, IdctProgress::Working { at: 9 }) is SubmitPage
            &&& idct_action(job, IdctProgress::Working { at: 10 }) is WaitPage
        }),
{
    lemma_patterns(job.coefficients);
    lemma_patterns(job.qtables);
    lemma_patterns(job.dc_values);
}

proof fn lemma_patterns(values: Seq<i32>)
    ensures
        patterns_of(values.map_values(|v: i32| word_of(v)), values),
{
    let words = values.map_values(|v: i32| word_of(v));
    assert forall|i: int| 0 <= i < values.len() implies #[trigger] words[i] == if values[i] >= 0 {
        values[i] as int
    } else {
        values[i] + 0x1_0000_0000
    } by {
        let v = values[i];
        assert(v >= 0 ==> v as u32 == v) by (bit_vector);
        assert(v < 0 ==> v as u32 == v + 0x1_0000_0000) by (bit_vector);
    }
}

/// The first failure is the result: it ends the work, frees what is
/// allocated, and no later reply replaces it.
pub proof fn law_first_idct_failure_is_the_result(
    p: IdctProgress,
    error: ErrorModel,
    reply: ReplyModel,
)
    requires
        idct_reachable(p),
    ensures
        p matches IdctProgress::Working { at } ==> at < 11 ==> {
            &&& idct_advanced(p, ReplyModel::Failed(error)) matches IdctProgress::Failing {
                left,
                error: e,
            } && e == error && left == idct_live(p).len()
            &&& idct_advanced(p, ReplyModel::Done) == (IdctProgress::Working { at: at + 1 })
        },
        p matches IdctProgress::Failing { left, error: e } ==> idct_advanced(p, reply) matches
            IdctProgress::Failing { left: l, error: f } && f == e && (left > 0 ==> l == left - 1),
{
}

} // verus!
