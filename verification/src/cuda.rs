//! Initialisation of the CUDA primary context.
//!
//! Five driver calls in order.  Where one fails behind the retaining of the
//! context, the context is released and the thread's binding is cleared, so
//! that nothing dangling is left on the thread.

use vstd::prelude::*;

verus! {

/// A driver call.
#[derive(Debug, Clone, Copy, PartialEq, Eq, Structural)]
pub enum DriverCall {
    /// Load and initialise the driver.
    Init,
    /// Resolve the ordinal to a device.
    DeviceGet { ordinal: i32 },
    /// Retain the device's primary context.
    PrimaryCtxRetain,
    /// Bind the context to the calling thread.
    CtxSetCurrent,
    /// Create a stream in the context.
    StreamCreate,
    /// Release the primary context; the result is ignored.
    PrimaryCtxRelease,
    /// Clear the thread's binding; the result is ignored.
    CtxClear,
}

/// Which step failed, and the driver's error code.
#[derive(Debug, Clone, Copy, PartialEq, Eq)]
pub struct CudaInitError {
    /// Name of the driver call that failed.
    pub step: &'static str,
    /// The driver's error code; not zero.
    pub code: i32,
}

/// Where an initialisation stands.
pub enum InitProgress {
    /// So many of the five calls have succeeded.
    Working { done: nat },
    /// Call `step` failed with `code`; so many clean-up calls are left.
    Failing { step: nat, code: i32, left: nat },
}

/// The name of a step of the set-up.
pub open spec fn step_name(step: nat) -> Seq<char> {
    if step == 0 {
        "cuInit"@
    } else if step == 1 {
        "cuDeviceGet"@
    } else if step == 2 {
        "cuDevicePrimaryCtxRetain"@
    } else if step == 3 {
        "cuCtxSetCurrent"@
    } else {
        "cuStreamCreate"@
    }
}

/// The next driver call; none when the initialisation is over.
pub open spec fn next_call(p: InitProgress, ordinal: i32) -> Option<DriverCall> {
    match p {
        InitProgress::Working { done } => if done == 0 {
            Some(DriverCall::Init)
        } else if done == 1 {
            Some(DriverCall::DeviceGet { ordinal })
        } else if done == 2 {
            Some(DriverCall::PrimaryCtxRetain)
        } else if done == 3 {
            Some(DriverCall::CtxSetCurrent)
        } else if done == 4 {
            Some(DriverCall::StreamCreate)
        } else {
            None
        },
        InitProgress::Failing { left, .. } => if left == 2 {
            Some(DriverCall::PrimaryCtxRelease)
        } else if left == 1 {
            Some(DriverCall::CtxClear)
        } else {
            None
        },
    }
}

/// Progress after a call returned `code`.
pub open spec fn after_call(p: InitProgress, code: i32) -> InitProgress {
    match p {
        InitProgress::Working { done } => if done >= 5 {
            p
        } else if code == 0 {
            InitProgress::Working { done: done + 1 }
        } else {
            InitProgress::Failing {
                step: done,
                code,
                left: if done >= 3 {
                    2
                } else {
                    0
                },
            }
        },
        InitProgress::Failing { step, code: first, left } => InitProgress::Failing {
            step,
            code: first,
            left: if left == 0 {
                0
            } else {
                (left - 1) as nat
            },
        },
    }
}

/// The progress that a set-up can have made.
pub open spec fn init_reachable(p: InitProgress) -> bool {
    match p {
        InitProgress::Working { done } => done <= 5,
        InitProgress::Failing { step, code, left } => step < 5 && code != 0 && left <= 2 && (left
            > 0 ==> step >= 3),
    }
}

/// Whether the primary context is retained.
pub open spec fn context_retained(p: InitProgress) -> bool {
    match p {
        InitProgress::Working { done } => done >= 3,
        InitProgress::Failing { left, .. } => left == 2,
    }
}

/// Initialisation of a device's primary context and of a stream in it.
#[derive(Debug)]
pub struct CudaInit {
    ordinal: i32,
    done: u8,
    left: u8,
    code: i32,
}

impl View for CudaInit {
    type V = InitProgress;

    closed spec fn view(&self) -> InitProgress {
        if self.code == 0 {
            InitProgress::Working { done: self.done as nat }
        } else {
            InitProgress::Failing {
                step: self.done as nat,
                code: self.code,
                left: self.left as nat,
            }
        }
    }
}

impl CudaInit {
    /// The device ordinal.
    pub closed spec fn device_ordinal(&self) -> i32 {
        self.ordinal
    }

    pub closed spec fn wf(&self) -> bool {
        init_reachable(self@)
    }

    /// Begin the initialisation of a device.
    #[must_use]
    pub fn init_primary_ctx_and_stream(device_ordinal: i32) -> (init: Self)
        ensures
            init.wf(),
            init.device_ordinal() == device_ordinal,
            init@ == (InitProgress::Working { done: 0 }),
    {
        CudaInit { ordinal: device_ordinal, done: 0, left: 0, code: 0 }
    }

    /// The next driver call; nothing when the initialisation is over.
    #[must_use]
    pub fn next(&self) -> (call: Option<DriverCall>)
        requires
            self.wf(),
        ensures
            call == next_call(self@, self.device_ordinal()),
    {
        if self.code != 0 {
            return match self.left {
                2 => Some(DriverCall::PrimaryCtxRelease),
                1 => Some(DriverCall::CtxClear),
                _ => None,
            };
        }
        match self.done {
            0 => Some(DriverCall::Init),
            1 => Some(DriverCall::DeviceGet { ordinal: self.ordinal }),
            2 => Some(DriverCall::PrimaryCtxRetain),
            3 => Some(DriverCall::CtxSetCurrent),
            4 => Some(DriverCall::StreamCreate),
            _ => None,
        }
    }

    /// The call returned `code`; zero is success.
    pub fn returned(&mut self, code: i32)
        requires
            old(self).wf(),
        ensures
            final(self).wf(),
            final(self).device_ordinal() == old(self).device_ordinal(),
            final(self)@ == after_call(old(self)@, code),
    {
        if self.code != 0 {
            if self.left > 0 {
                self.left = self.left - 1;
            }
        } else if self.done < 5 {
            if code == 0 {
                self.done = self.done + 1;
            } else {
                self.code = code;
                self.left = if self.done >= 3 {
                    2
                } else {
                    0
                };
            }
        }
    }

    /// How the initialisation ended; nothing as long as calls are left.
    #[must_use]
    pub fn outcome(&self) -> (outcome: Option<Result<(), CudaInitError>>)
        requires
            self.wf(),
        ensures
            match self@ {
                InitProgress::Working { done } => if done == 5 {
                    outcome == Some(Ok::<(), CudaInitError>(()))
                } else {
                    outcome is None
                },
                InitProgress::Failing { step, code, left } => if left == 0 {
                    outcome matches Some(Err(e)) && e.step@ == step_name(step) && e.code == code
                } else {
                    outcome is None
                },
            },
    {
        if self.code == 0 {
            return if self.done == 5 {
                Some(Ok(()))
            } else {
                None
            };
        }
        if self.left > 0 {
            return None;
        }
        let step: &'static str = match self.done {
            0 => "cuInit",
            1 => "cuDeviceGet",
            2 => "cuDevicePrimaryCtxRetain",
            3 => "cuCtxSetCurrent",
            _ => "cuStreamCreate",
        };
        Some(Err(CudaInitError { step, code: self.code }))
    }
}

/// The context is retained by a success of the retaining call and given back
/// by the clean-up, and by nothing else.  A failed initialisation ends with
/// no context retained, a successful one with the context and a stream.
pub proof fn law_failed_init_retains_nothing(p: InitProgress, ordinal: i32, code: i32)
    requires
        init_reachable(p),
    ensures
        init_reachable(after_call(p, code)),
        context_retained(after_call(p, code)) && !context_retained(p) ==> next_call(p, ordinal)
            == Some(DriverCall::PrimaryCtxRetain) && code == 0,
        !context_retained(after_call(p, code)) && context_retained(p) ==> next_call(p, ordinal)
            == Some(DriverCall::PrimaryCtxRelease),
        next_call(p, ordinal) is None ==> (context_retained(p) <==> p is Working),
{
}

} // verus!
