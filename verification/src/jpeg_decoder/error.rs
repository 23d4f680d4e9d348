//! Errors of the JPEG decoder.

use crate::text::{decimal, push_decimal};
use vstd::prelude::*;
use vstd::string::*;

verus! {

/// Why a JPEG could not be decoded on the device.
#[derive(Debug, Clone, PartialEq, Eq)]
pub enum JpegGpuError {
    /// The file is not a baseline JPEG this decoder can prepare.
    HeaderParse(String),
    /// The scan has a component count other than 1 or 3.
    UnsupportedComponents(u8),
    /// A component is subsampled; the kernel takes 4:4:4 only.
    UnsupportedSubsampling {
        /// Component identifier.
        component: u8,
        /// Horizontal sampling factor.
        h: u8,
        /// Vertical sampling factor.
        v: u8,
    },
    /// A device operation failed or the stream is inconsistent.
    Dispatch(String),
}

/// An error, its words as character strings.
pub enum GpuErrorModel {
    HeaderParse(Seq<char>),
    UnsupportedComponents(u8),
    UnsupportedSubsampling { component: u8, h: u8, v: u8 },
    Dispatch(Seq<char>),
}

impl View for JpegGpuError {
    type V = GpuErrorModel;

    open spec fn view(&self) -> GpuErrorModel {
        match *self {
            JpegGpuError::HeaderParse(s) => GpuErrorModel::HeaderParse(s@),
            JpegGpuError::UnsupportedComponents(n) => GpuErrorModel::UnsupportedComponents(n),
            JpegGpuError::UnsupportedSubsampling { component, h, v } =>
            GpuErrorModel::UnsupportedSubsampling { component, h, v },
            JpegGpuError::Dispatch(s) => GpuErrorModel::Dispatch(s@),
        }
    }
}

impl JpegGpuError {
    pub open spec fn text(self) -> Seq<char> {
        match self {
            JpegGpuError::HeaderParse(s) => "JPEG header: "@ + s@,
            JpegGpuError::UnsupportedComponents(n) => "unsupported component count "@ + decimal(
                n as nat,
            ),
            JpegGpuError::UnsupportedSubsampling { component, h, v } =>
            "unsupported subsampling of component "@ + decimal(component as nat) + ": "@
                + decimal(h as nat) + "x"@ + decimal(v as nat),
            JpegGpuError::Dispatch(s) => "JPEG dispatch: "@ + s@,
        }
    }

    /// The error as a sentence.
    pub fn message(&self) -> (s: String)
        ensures
            s@ == self.text(),
    {
        match self {
            JpegGpuError::HeaderParse(detail) => {
                let mut s = String::from_str("JPEG header: ");
                s.append(detail.as_str());
                s
            },
            JpegGpuError::UnsupportedComponents(n) => {
                let mut s = String::from_str("unsupported component count ");
                push_decimal(&mut s, *n as u64);
                s
            },
            JpegGpuError::UnsupportedSubsampling { component, h, v } => {
                let mut s = String::from_str("unsupported subsampling of component ");
                push_decimal(&mut s, *component as u64);
                s.append(": ");
                push_decimal(&mut s, *h as u64);
                s.append("x");
                push_decimal(&mut s, *v as u64);
                s
            },
            JpegGpuError::Dispatch(detail) => {
                let mut s = String::from_str("JPEG dispatch: ");
                s.append(detail.as_str());
                s
            },
        }
    }
}

} // verus!
