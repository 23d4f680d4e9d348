//! Device-resident images and pages: the host tier of the image cache, and
//! the geometry of page buffers.

use vstd::prelude::*;

pub mod host_map;
pub mod host_tier;
pub mod page_buffer;

verus! {

/// Pixel layout of a cached image.
#[derive(Debug, Clone, Copy, PartialEq, Eq, Structural)]
pub enum ImageLayout {
    /// Three bytes per pixel.
    Rgb,
    /// One byte per pixel.
    Gray,
    /// One byte per pixel, a coverage mask.
    Mask,
}

impl ImageLayout {
    /// Bytes of one pixel.
    pub open spec fn pixel_bytes(self) -> nat {
        match self {
            ImageLayout::Rgb => 3,
            _ => 1,
        }
    }

    /// Bytes per pixel.
    #[must_use]
    pub fn bytes_per_pixel(self) -> (n: usize)
        ensures
            n == self.pixel_bytes(),
    {
        match self {
            ImageLayout::Rgb => 3,
            _ => 1,
        }
    }
}

} // verus!
