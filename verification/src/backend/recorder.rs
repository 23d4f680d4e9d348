//! The page cycle of the Vulkan recorder.
//!
//! A page is begun, recorded, submitted and waited for, in that order, and at
//! most one page is in flight.  The recorder decides what is allowed; the
//! driver performs the Vulkan calls and reports what it has done.

use super::error::{BackendError, ErrorModel};
use super::kernels::KernelId;
use crate::text::{decimal, push_decimal};
use vstd::prelude::*;
use vstd::string::*;

verus! {

/// Synchronisation token for a queue submission: the timeline value to wait
/// for, or nothing where the work was done inline.  No submission signals
/// zero, so zero is the value of nothing, and a fence takes eight bytes.
#[derive(Debug, Clone, Copy, PartialEq, Eq, Structural)]
pub struct PageFence {
    value: u64,
}

impl PageFence {
    /// The timeline value to wait for.
    pub closed spec fn wait_value(self) -> Option<u64> {
        if self.value == 0 {
            None
        } else {
            Some(self.value)
        }
    }

    /// A fence that has already signalled.
    #[must_use]
    pub fn immediate() -> (fence: Self)
        ensures
            fence.wait_value() is None,
    {
        PageFence { value: 0 }
    }

    /// The timeline value to wait for; nothing where there is nothing to wait
    /// for.
    #[must_use]
    pub fn timeline_value(self) -> (value: Option<u64>)
        ensures
            value == self.wait_value(),
    {
        if self.value == 0 {
            None
        } else {
            Some(self.value)
        }
    }
}

/// Where the page cycle stands.
#[derive(Debug, Clone, Copy, PartialEq, Eq, Structural)]
pub enum PageState {
    /// No page in flight.
    Idle,
    /// A page is being recorded.
    Recording,
    /// A page is submitted and has to be waited for.
    Submitted,
}

impl PageState {
    pub open spec fn text(self) -> Seq<char> {
        match self {
            PageState::Idle => "Idle"@,
            PageState::Recording => "Recording"@,
            PageState::Submitted => "Submitted"@,
        }
    }

    fn name(self) -> (s: &'static str)
        ensures
            s@ == self.text(),
    {
        match self {
            PageState::Idle => "Idle",
            PageState::Recording => "Recording",
            PageState::Submitted => "Submitted",
        }
    }
}

/// Descriptor sets per page; each dispatch takes one.
pub const MAX_DESC_SETS_PER_PAGE: u32 = 64;

/// First timeline value.  It is not zero, so that a fence never is.
pub const INITIAL_TIMELINE_VALUE: u64 = 1;

/// The recorder's state.
pub struct RecorderModel {
    pub state: PageState,
    /// Timeline value of the next submission.
    pub next_value: u64,
    /// Descriptor sets in use.
    pub desc_sets: u32,
    /// The device's largest dispatch, per axis.
    pub limits: (u32, u32, u32),
}

impl RecorderModel {
    pub open spec fn wf(self) -> bool {
        self.next_value >= INITIAL_TIMELINE_VALUE && self.desc_sets <= MAX_DESC_SETS_PER_PAGE
    }
}

/// What the driver has done.
pub enum PageEvent {
    /// The command pool and the descriptor pool are reset.
    PoolsReset,
    /// The command buffer is begun.
    Begun,
    /// A dispatch is recorded, with a descriptor set of its own.
    Dispatched,
    /// A timeline value is taken for a submission.
    SignalTaken,
    /// The command buffer is submitted.
    Submitted,
    /// The submission is waited for.
    Waited,
}

/// The recorder after an event.
pub open spec fn recorded(m: RecorderModel, event: PageEvent) -> RecorderModel {
    match event {
        PageEvent::PoolsReset => RecorderModel { desc_sets: 0, ..m },
        PageEvent::Begun => RecorderModel { state: PageState::Recording, ..m },
        PageEvent::Dispatched => RecorderModel { desc_sets: (m.desc_sets + 1) as u32, ..m },
        PageEvent::SignalTaken => RecorderModel { next_value: (m.next_value + 1) as u64, ..m },
        PageEvent::Submitted => RecorderModel { state: PageState::Submitted, ..m },
        PageEvent::Waited => RecorderModel { state: PageState::Idle, ..m },
    }
}

/// The events that a checked driver brings about.
pub open spec fn allowed(m: RecorderModel, event: PageEvent) -> bool {
    match event {
        PageEvent::PoolsReset => m.state == PageState::Idle,
        PageEvent::Begun => m.state == PageState::Idle,
        PageEvent::Dispatched => m.state == PageState::Recording && m.desc_sets
            < MAX_DESC_SETS_PER_PAGE,
        PageEvent::SignalTaken => m.state == PageState::Recording && m.next_value < u64::MAX,
        PageEvent::Submitted => m.state == PageState::Recording,
        PageEvent::Waited => m.state == PageState::Submitted,
    }
}

/// The refusal of an operation in the wrong state.
pub open spec fn wrong_state(
    operation: Seq<char>,
    state: PageState,
    expected: PageState,
) -> ErrorModel {
    ErrorModel::Message(
        operation + " called from "@ + state.text() + " state; expected "@ + expected.text(),
    )
}

/// The refusal of a dispatch that is too large.
pub open spec fn too_large(kernel: KernelId, g: (u32, u32, u32), l: (u32, u32, u32)) -> ErrorModel {
    ErrorModel::Message(
        kernel.label_text() + ": dispatch ("@ + decimal(g.0 as nat) + ","@ + decimal(g.1 as nat)
            + ","@ + decimal(g.2 as nat) + ") exceeds device maxComputeWorkGroupCount ("@
            + decimal(l.0 as nat) + ","@ + decimal(l.1 as nat) + ","@ + decimal(l.2 as nat) + ")"@,
    )
}

/// No dimension of `g` exceeds that of `l`.
pub open spec fn within(g: (u32, u32, u32), l: (u32, u32, u32)) -> bool {
    g.0 <= l.0 && g.1 <= l.1 && g.2 <= l.2
}

/// Why a dispatch is refused, if it is.
pub open spec fn dispatch_refusal(
    m: RecorderModel,
    kernel: KernelId,
    groups: (u32, u32, u32),
) -> Option<ErrorModel> {
    if !within(groups, m.limits) {
        Some(too_large(kernel, groups, m.limits))
    } else if m.state != PageState::Recording {
        Some(wrong_state("dispatch_kernel"@, m.state, PageState::Recording))
    } else if m.desc_sets >= MAX_DESC_SETS_PER_PAGE {
        Some(
            ErrorModel::DescriptorPoolExhausted {
                allocated: m.desc_sets,
                max: MAX_DESC_SETS_PER_PAGE,
            },
        )
    } else {
        None
    }
}

/// What a zero-fill of a buffer comes to.
#[derive(Debug, Clone, Copy, PartialEq, Eq, Structural)]
pub enum FillAction {
    /// The buffer is empty.
    Skip,
    /// Fill this many bytes.
    Fill(u64),
}

/// `r` refuses with `e`, or accepts where there is none.
pub open spec fn answers(r: Result<(), BackendError>, e: Option<ErrorModel>) -> bool {
    match e {
        Some(e) => r matches Err(x) && x@ == e,
        None => r is Ok,
    }
}

/// Fill commands take whole words only.
pub fn validate_fill_size(size: u64) -> (r: Result<FillAction, BackendError>)
    ensures
        if size == 0 {
            r == Ok::<FillAction, BackendError>(FillAction::Skip)
        } else if size % 4 == 0 {
            r == Ok::<FillAction, BackendError>(FillAction::Fill(size))
        } else {
            r matches Err(e) && e@ == ErrorModel::Message(
                "fill size "@ + decimal(size as nat) + " is not a multiple of 4"@,
            )
        },
{
    if size == 0 {
        return Ok(FillAction::Skip);
    }
    if size % 4 != 0 {
        let mut s = String::from_str("fill size ");
        push_decimal(&mut s, size);
        s.append(" is not a multiple of 4");
        return Err(BackendError::Message(s));
    }
    Ok(FillAction::Fill(size))
}

/// The page cycle.
#[derive(Debug)]
pub struct PageRecorder {
    state: PageState,
    next_value: u64,
    desc_sets: u32,
    limits: (u32, u32, u32),
}

impl View for PageRecorder {
    type V = RecorderModel;

    closed spec fn view(&self) -> RecorderModel {
        RecorderModel {
            state: self.state,
            next_value: self.next_value,
            desc_sets: self.desc_sets,
            limits: self.limits,
        }
    }
}

fn state_error(operation: &str, state: PageState, expected: PageState) -> (e: BackendError)
    ensures
        e@ == wrong_state(operation@, state, expected),
{
    let mut s = String::from_str(operation);
    s.append(" called from ");
    s.append(state.name());
    s.append(" state; expected ");
    s.append(expected.name());
    BackendError::Message(s)
}

impl PageRecorder {
    /// A recorder without a page, for a device with these dispatch limits.
    #[must_use]
    pub fn new(limits: (u32, u32, u32)) -> (recorder: Self)
        ensures
            recorder@ == (RecorderModel {
                state: PageState::Idle,
                next_value: INITIAL_TIMELINE_VALUE,
                desc_sets: 0,
                limits,
            }),
            recorder@.wf(),
    {
        PageRecorder {
            state: PageState::Idle,
            next_value: INITIAL_TIMELINE_VALUE,
            desc_sets: 0,
            limits,
        }
    }

    /// Whether a page may be begun: none is in flight.
    pub fn begin_page(&self) -> (r: Result<(), BackendError>)
        ensures
            answers(
                r,
                if self@.state != PageState::Idle {
                    Some(wrong_state("begin_page"@, self@.state, PageState::Idle))
                } else {
                    None
                },
            ),
            r is Ok ==> allowed(self@, PageEvent::PoolsReset) && allowed(self@, PageEvent::Begun),
    {
        if self.state != PageState::Idle {
            return Err(state_error("begin_page", self.state, PageState::Idle));
        }
        Ok(())
    }

    /// The pools are reset: no descriptor set is in use.
    pub fn pools_reset(&mut self)
        requires
            allowed(old(self)@, PageEvent::PoolsReset),
        ensures
            final(self)@ == recorded(old(self)@, PageEvent::PoolsReset),
    {
        self.desc_sets = 0;
    }

    /// The command buffer is begun.
    pub fn page_begun(&mut self)
        requires
            allowed(old(self)@, PageEvent::Begun),
        ensures
            final(self)@ == recorded(old(self)@, PageEvent::Begun),
    {
        self.state = PageState::Recording;
    }

    /// Whether the page may be submitted: it is being recorded.
    pub fn submit_page(&self) -> (r: Result<(), BackendError>)
        ensures
            answers(
                r,
                if self@.state != PageState::Recording {
                    Some(wrong_state("submit_page"@, self@.state, PageState::Recording))
                } else {
                    None
                },
            ),
            r is Ok ==> allowed(self@, PageEvent::Submitted),
    {
        if self.state != PageState::Recording {
            return Err(state_error("submit_page", self.state, PageState::Recording));
        }
        Ok(())
    }

    /// Take the timeline value that the submission will signal.
    pub fn take_signal(&mut self) -> (r: Result<u64, BackendError>)
        requires
            old(self)@.state == PageState::Recording,
        ensures
            if old(self)@.next_value == u64::MAX {
                &&& r matches Err(e) && e@ == ErrorModel::Message(
                    "timeline semaphore overflowed u64"@,
                )
                &&& final(self)@ == old(self)@
            } else {
                &&& r == Ok::<u64, BackendError>(old(self)@.next_value)
                &&& final(self)@ == recorded(old(self)@, PageEvent::SignalTaken)
            },
    {
        let value: u64 = self.next_value;
        if value == u64::MAX {
            return Err(
                BackendError::Message(String::from_str("timeline semaphore overflowed u64")),
            );
        }
        self.next_value = value + 1;
        Ok(value)
    }

    /// The page is submitted and will signal `value`, which is one that
    /// [`Self::take_signal`] gave.
    pub fn page_submitted(&mut self, value: u64) -> (fence: PageFence)
        requires
            allowed(old(self)@, PageEvent::Submitted),
            value >= INITIAL_TIMELINE_VALUE,
        ensures
            final(self)@ == recorded(old(self)@, PageEvent::Submitted),
            fence.wait_value() == Some(value),
    {
        self.state = PageState::Submitted;
        PageFence { value }
    }

    /// Whether the page may be waited for: it is submitted.
    pub fn wait_page(&self) -> (r: Result<(), BackendError>)
        ensures
            answers(
                r,
                if self@.state != PageState::Submitted {
                    Some(wrong_state("wait_page"@, self@.state, PageState::Submitted))
                } else {
                    None
                },
            ),
            r is Ok ==> allowed(self@, PageEvent::Waited),
    {
        if self.state != PageState::Submitted {
            return Err(state_error("wait_page", self.state, PageState::Submitted));
        }
        Ok(())
    }

    /// The page is done.
    pub fn page_done(&mut self)
        requires
            allowed(old(self)@, PageEvent::Waited),
        ensures
            final(self)@ == recorded(old(self)@, PageEvent::Waited),
    {
        self.state = PageState::Idle;
    }

    /// Refuse a dispatch beyond the device's limits on any axis.
    pub fn check_dispatch_size(&self, groups: (u32, u32, u32), kernel: KernelId) -> (r: Result<
        (),
        BackendError,
    >)
        ensures
            answers(
                r,
                if within(groups, self@.limits) {
                    None
                } else {
                    Some(too_large(kernel, groups, self@.limits))
                },
            ),
    {
        let l: (u32, u32, u32) = self.limits;
        if groups.0 > l.0 || groups.1 > l.1 || groups.2 > l.2 {
            let mut s = String::from_str(kernel.label());
            s.append(": dispatch (");
            push_decimal(&mut s, groups.0 as u64);
            s.append(",");
            push_decimal(&mut s, groups.1 as u64);
            s.append(",");
            push_decimal(&mut s, groups.2 as u64);
            s.append(") exceeds device maxComputeWorkGroupCount (");
            push_decimal(&mut s, l.0 as u64);
            s.append(",");
            push_decimal(&mut s, l.1 as u64);
            s.append(",");
            push_decimal(&mut s, l.2 as u64);
            s.append(")");
            return Err(BackendError::Message(s));
        }
        Ok(())
    }

    /// Whether a kernel may be dispatched: the grid fits the device, a page is
    /// being recorded, and it has a descriptor set left.
    pub fn dispatch_kernel(&self, kernel: KernelId, groups: (u32, u32, u32)) -> (r: Result<
        (),
        BackendError,
    >)
        ensures
            answers(r, dispatch_refusal(self@, kernel, groups)),
            r is Ok ==> allowed(self@, PageEvent::Dispatched),
    {
        match self.check_dispatch_size(groups, kernel) {
            Err(e) => {
                return Err(e);
            },
            Ok(_) => {},
        }
        if self.state != PageState::Recording {
            return Err(state_error("dispatch_kernel", self.state, PageState::Recording));
        }
        if self.desc_sets >= MAX_DESC_SETS_PER_PAGE {
            return Err(
                BackendError::DescriptorPoolExhausted {
                    allocated: self.desc_sets,
                    max: MAX_DESC_SETS_PER_PAGE,
                },
            );
        }
        Ok(())
    }

    /// A dispatch is recorded.
    pub fn dispatched(&mut self)
        requires
            allowed(old(self)@, PageEvent::Dispatched),
        ensures
            final(self)@ == recorded(old(self)@, PageEvent::Dispatched),
    {
        self.desc_sets = self.desc_sets + 1;
    }

    /// Whether, and how far, a buffer of `size` bytes is to be filled with
    /// zeros.  The state is checked before the size.
    pub fn record_zero_buffer(&self, size: u64) -> (r: Result<FillAction, BackendError>)
        ensures
            if self@.state != PageState::Recording {
                r matches Err(e) && e@ == wrong_state(
                    "record_zero_buffer"@,
                    self@.state,
                    PageState::Recording,
                )
            } else if size == 0 {
                r == Ok::<FillAction, BackendError>(FillAction::Skip)
            } else if size % 4 == 0 {
                r == Ok::<FillAction, BackendError>(FillAction::Fill(size))
            } else {
                r matches Err(e) && e@ == ErrorModel::Message(
                    "fill size "@ + decimal(size as nat) + " is not a multiple of 4"@,
                )
            },
    {
        if self.state != PageState::Recording {
            return Err(state_error("record_zero_buffer", self.state, PageState::Recording));
        }
        validate_fill_size(size)
    }
}

/// The page cycle: an idle recorder can only begin a page, a recording one
/// only submit it, a submitted one only finish it.  A page's dispatches stay
/// within its descriptor sets.
pub proof fn law_one_page_in_flight(m: RecorderModel, event: PageEvent)
    requires
        m.wf(),
        allowed(m, event),
    ensures
        recorded(m, event).wf(),
        recorded(m, event).state != m.state ==> match m.state {
            PageState::Idle => event is Begun,
            PageState::Recording => event is Submitted,
            PageState::Submitted => event is Waited,
        },
        event is Dispatched ==> m.state == PageState::Recording,
{
}

/// Timeline values are never zero, and each is larger than all before it.
pub proof fn law_timeline_values_rise(m: RecorderModel, event: PageEvent)
    requires
        m.wf(),
        allowed(m, event),
    ensures
        m.next_value >= 1,
        recorded(m, event).next_value >= m.next_value,
        event is SignalTaken ==> recorded(m, event).next_value > m.next_value,
{
}

/// Descriptor sets are counted: a dispatch takes one, a reset gives all back,
/// and nothing else changes their number; the device's limits stay.
pub proof fn law_descriptor_sets_are_counted(m: RecorderModel, event: PageEvent)
    requires
        m.wf(),
        allowed(m, event),
    ensures
        recorded(m, event).desc_sets == match event {
            PageEvent::PoolsReset => 0,
            PageEvent::Dispatched => m.desc_sets + 1,
            _ => m.desc_sets as int,
        },
        recorded(m, event).limits == m.limits,
{
}

/// A dispatch is taken exactly while a page is being recorded, has a
/// descriptor set left and is within the device's limits on every axis.
pub proof fn law_dispatches_fit_the_device(
    m: RecorderModel,
    kernel: KernelId,
    groups: (u32, u32, u32),
)
    ensures
        dispatch_refusal(m, kernel, groups) is None <==> {
            &&& m.state == PageState::Recording
            &&& m.desc_sets < MAX_DESC_SETS_PER_PAGE
            &&& groups.0 <= m.limits.0
            &&& groups.1 <= m.limits.1
            &&& groups.2 <= m.limits.2
        },
        dispatch_refusal(m, kernel, groups) is None ==> allowed(m, PageEvent::Dispatched),
{
}

} // verus!
