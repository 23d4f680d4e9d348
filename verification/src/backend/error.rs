//! The back-end seam: what the library needs to know of a device, and the
//! errors of device work.

use crate::text::{decimal, push_decimal};
use vstd::prelude::*;
use vstd::string::*;

verus! {

/// A device back end, as far as launch contracts are concerned: it knows the
/// size of its buffers.
pub trait GpuBackend {
    /// Handle of a device buffer.
    type DeviceBuffer;

    /// Capacity of a buffer in bytes.
    spec fn capacity(&self, buf: &Self::DeviceBuffer) -> usize;

    /// Capacity of a buffer in bytes.
    fn device_buffer_len(&self, buf: &Self::DeviceBuffer) -> (len: usize)
        ensures
            len == self.capacity(buf),
    ;
}

/// A back end without a device: a buffer is its own capacity.  Launch
/// parameters can be planned and validated against it before anything is
/// allocated.
pub struct SizedBuffers;

impl GpuBackend for SizedBuffers {
    type DeviceBuffer = usize;

    open spec fn capacity(&self, buf: &usize) -> usize {
        *buf
    }

    fn device_buffer_len(&self, buf: &usize) -> (len: usize) {
        *buf
    }
}

/// Errors of the back ends.
#[derive(Debug, Clone, PartialEq, Eq)]
pub enum BackendError {
    /// A launch parameter breaks a documented invariant.
    InvariantViolation {
        /// Which parameter set.
        kind: &'static str,
        /// Which invariant.
        detail: &'static str,
    },
    /// All descriptor sets of the page are in use.
    DescriptorPoolExhausted {
        /// Sets in use.
        allocated: u32,
        /// Sets the pool holds.
        max: u32,
    },
    /// Anything else, in words.
    Message(String),
}

/// A back-end error, its words as character strings.
pub enum ErrorModel {
    InvariantViolation { kind: Seq<char>, detail: Seq<char> },
    DescriptorPoolExhausted { allocated: u32, max: u32 },
    Message(Seq<char>),
}

impl ErrorModel {
    pub open spec fn text(self) -> Seq<char> {
        match self {
            ErrorModel::InvariantViolation { kind, detail } => kind + ": "@ + detail,
            ErrorModel::DescriptorPoolExhausted { allocated, max } =>
            "descriptor pool exhausted: "@ + decimal(allocated as nat) + " of "@ + decimal(
                max as nat,
            ) + " sets in flight"@,
            ErrorModel::Message(s) => s,
        }
    }
}

impl View for BackendError {
    type V = ErrorModel;

    open spec fn view(&self) -> ErrorModel {
        match *self {
            BackendError::InvariantViolation { kind, detail } => ErrorModel::InvariantViolation {
                kind: kind@,
                detail: detail@,
            },
            BackendError::DescriptorPoolExhausted { allocated, max } =>
            ErrorModel::DescriptorPoolExhausted { allocated, max },
            BackendError::Message(s) => ErrorModel::Message(s@),
        }
    }
}

impl BackendError {
    pub open spec fn text(self) -> Seq<char> {
        self@.text()
    }

    /// The error as a sentence.
    pub fn message(&self) -> (s: String)
        ensures
            s@ == self.text(),
    {
        match self {
            BackendError::InvariantViolation { kind, detail } => {
                let mut s = String::from_str(kind);
                s.append(": ");
                s.append(detail);
                s
            },
            BackendError::DescriptorPoolExhausted { allocated, max } => {
                let mut s = String::from_str("descriptor pool exhausted: ");
                push_decimal(&mut s, *allocated as u64);
                s.append(" of ");
                push_decimal(&mut s, *max as u64);
                s.append(" sets in flight");
                s
            },
            BackendError::Message(detail) => detail.clone(),
        }
    }
}

} // verus!
