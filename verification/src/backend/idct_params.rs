//! Launch parameters of the IDCT + dequantisation + colour kernel.

use super::error::{BackendError, GpuBackend};
use super::params::reports;
use vstd::prelude::*;
use vstd::string::*;

verus! {

/// Parameters for the IDCT + dequant + colour-conversion kernel.
///
/// # Invariants enforced by [`IdctParams::validate`]
/// - `width > 0`, `height > 0`, `num_components ∈ {1, 3}`
/// - `blocks_wide == ceil(width / 8)`, `blocks_high == ceil(height / 8)`
/// - `num_qtables ∈ {1..=4}`
/// - `coefficients` capacity ≥ `num_components × blocks × 64 × 4` bytes
/// - `qtables` capacity ≥ `num_qtables × 64 × 4` bytes
/// - `dc_values` capacity ≥ `num_components × blocks × 4` bytes
/// - `pixels_rgba` capacity ≥ `width × height × 4` bytes
pub struct IdctParams<'a, B: GpuBackend> {
    /// Zigzag-ordered DCT coefficients, `[comp][block_y][block_x][64]`.
    pub coefficients: &'a B::DeviceBuffer,
    /// Quantisation tables, `[qt_index][64]` as i32.
    pub qtables: &'a B::DeviceBuffer,
    /// Absolute DC value per block, `[comp][block_y][block_x]` as i32.
    pub dc_values: &'a B::DeviceBuffer,
    /// RGBA8 output buffer, row-major.
    pub pixels_rgba: &'a B::DeviceBuffer,
    /// Image width in pixels (> 0).
    pub width: u32,
    /// Image height in pixels (> 0).
    pub height: u32,
    /// Number of components: 1 (grayscale) or 3 (YCbCr).
    pub num_components: u32,
    /// `ceil(width / 8)`.
    pub blocks_wide: u32,
    /// `ceil(height / 8)`.
    pub blocks_high: u32,
    /// Number of quantisation tables present (1–4).
    pub num_qtables: u32,
}

/// `n / 8`, rounded up.
pub open spec fn eighths(n: u32) -> int {
    (n + 7) / 8
}

impl<'a, B: GpuBackend> IdctParams<'a, B> {
    /// Blocks over all components.
    pub open spec fn num_blocks(&self) -> int {
        self.num_components * (self.blocks_wide * self.blocks_high)
    }

    /// The documented invariants.
    pub open spec fn well_formed(&self, backend: &B) -> bool {
        &&& self.width > 0
        &&& self.height > 0
        &&& self.num_components == 1 || self.num_components == 3
        &&& self.blocks_wide == eighths(self.width)
        &&& self.blocks_high == eighths(self.height)
        &&& 1 <= self.num_qtables <= 4
        &&& backend.capacity(self.coefficients) >= self.num_blocks() * 256
        &&& backend.capacity(self.qtables) >= self.num_qtables * 256
        &&& backend.capacity(self.dc_values) >= self.num_blocks() * 4
        &&& backend.capacity(self.pixels_rgba) >= (self.width * self.height) * 4
    }

    /// The first invariant that does not hold.
    pub open spec fn violation(&self, backend: &B) -> Option<Seq<char>> {
        if self.width == 0 {
            Some("width must be > 0"@)
        } else if self.height == 0 {
            Some("height must be > 0"@)
        } else if self.num_components != 1 && self.num_components != 3 {
            Some("num_components must be 1 (grayscale) or 3 (YCbCr)"@)
        } else if self.blocks_wide != eighths(self.width) {
            Some("blocks_wide must equal ceil(width / 8)"@)
        } else if self.blocks_high != eighths(self.height) {
            Some("blocks_high must equal ceil(height / 8)"@)
        } else if self.num_qtables == 0 || self.num_qtables > 4 {
            Some("num_qtables must be in 1..=4"@)
        } else if backend.capacity(self.coefficients) < self.num_blocks() * 256 {
            Some("coefficients buffer too small for num_components × blocks × 64 × 4"@)
        } else if backend.capacity(self.qtables) < self.num_qtables * 256 {
            Some("qtables buffer too small for num_qtables × 64 × 4"@)
        } else if backend.capacity(self.dc_values) < self.num_blocks() * 4 {
            Some("dc_values buffer too small for num_components × blocks × 4"@)
        } else if backend.capacity(self.pixels_rgba) < (self.width * self.height) * 4 {
            Some("pixels_rgba buffer too small for width × height × 4"@)
        } else {
            None
        }
    }

    /// Total blocks per component (`blocks_wide × blocks_high`).
    #[must_use]
    pub fn blocks_per_component(&self) -> (n: u32)
        requires
            self.blocks_wide * self.blocks_high <= u32::MAX,
        ensures
            n == self.blocks_wide * self.blocks_high,
    {
        self.blocks_wide * self.blocks_high
    }

    /// Validate the documented invariants; an error names the first one that
    /// does not hold.
    pub fn validate(&self, backend: &B) -> (r: Result<(), BackendError>)
        ensures
            reports(r, "IdctInvariantViolation"@, self.violation(backend)),
            r is Ok <==> self.well_formed(backend),
    {
        let kind: &'static str = "IdctInvariantViolation";
        if self.width == 0 {
            return Err(BackendError::InvariantViolation { kind, detail: "width must be > 0" });
        }
        if self.height == 0 {
            return Err(BackendError::InvariantViolation { kind, detail: "height must be > 0" });
        }
        if self.num_components != 1 && self.num_components != 3 {
            return Err(
                BackendError::InvariantViolation {
                    kind,
                    detail: "num_components must be 1 (grayscale) or 3 (YCbCr)",
                },
            );
        }
        if self.blocks_wide as u64 != (self.width as u64 + 7) / 8 {
            return Err(
                BackendError::InvariantViolation {
                    kind,
                    detail: "blocks_wide must equal ceil(width / 8)",
                },
            );
        }
        if self.blocks_high as u64 != (self.height as u64 + 7) / 8 {
            return Err(
                BackendError::InvariantViolation {
                    kind,
                    detail: "blocks_high must equal ceil(height / 8)",
                },
            );
        }
        if self.num_qtables == 0 || self.num_qtables > 4 {
            return Err(
                BackendError::InvariantViolation { kind, detail: "num_qtables must be in 1..=4" },
            );
        }
        proof {
            let bw = self.blocks_wide as int;
            let bh = self.blocks_high as int;
            assert(0 <= bw * bh <= 0x2000_0000 * 0x2000_0000) by (nonlinear_arith)
                requires
                    0 <= bw <= 0x2000_0000,
                    0 <= bh <= 0x2000_0000,
            ;
            let w = self.width as int;
            let h = self.height as int;
            assert(0 <= w * h <= 0xFFFF_FFFF * 0xFFFF_FFFF) by (nonlinear_arith)
                requires
                    0 <= w <= 0xFFFF_FFFF,
                    0 <= h <= 0xFFFF_FFFF,
            ;
        }
        let per_component: u128 = self.blocks_wide as u128 * self.blocks_high as u128;
        let num_blocks: u128 = if self.num_components == 1 {
            per_component
        } else {
            3 * per_component
        };
        assert(num_blocks == self.num_blocks()) by {
            if self.num_components == 1 {
                assert(1 * (self.blocks_wide * self.blocks_high) == self.blocks_wide
                    * self.blocks_high);
            }
        }
        if (backend.device_buffer_len(self.coefficients) as u128) < num_blocks * 256 {
            return Err(
                BackendError::InvariantViolation {
                    kind,
                    detail: "coefficients buffer too small for num_components × blocks × 64 × 4",
                },
            );
        }
        if (backend.device_buffer_len(self.qtables) as u128) < self.num_qtables as u128 * 256 {
            return Err(
                BackendError::InvariantViolation {
                    kind,
                    detail: "qtables buffer too small for num_qtables × 64 × 4",
                },
            );
        }
        if (backend.device_buffer_len(self.dc_values) as u128) < num_blocks * 4 {
            return Err(
                BackendError::InvariantViolation {
                    kind,
                    detail: "dc_values buffer too small for num_components × blocks × 4",
                },
            );
        }
        if (backend.device_buffer_len(self.pixels_rgba) as u128) < self.width as u128
            * self.height as u128 * 4 {
            return Err(
                BackendError::InvariantViolation {
                    kind,
                    detail: "pixels_rgba buffer too small for width × height × 4",
                },
            );
        }
        Ok(())
    }
}

/// A validated transform stays inside its buffers: every coefficient of every
/// block, every table entry, every DC value and every pixel has its four
/// bytes, and the blocks cover the image.
pub proof fn law_idct_stays_inside_its_buffers<B: GpuBackend>(
    p: IdctParams<B>,
    backend: &B,
    block: int,
    table: int,
    j: int,
    x: int,
    y: int,
)
    requires
        p.well_formed(backend),
        0 <= block < p.num_components * (p.blocks_wide * p.blocks_high),
        0 <= table < p.num_qtables,
        0 <= j < 64,
        0 <= x < p.width,
        0 <= y < p.height,
    ensures
        4 * (64 * block + j) + 4 <= backend.capacity(p.coefficients),
        4 * (64 * table + j) + 4 <= backend.capacity(p.qtables),
        4 * block + 4 <= backend.capacity(p.dc_values),
        4 * (y * p.width + x) + 4 <= backend.capacity(p.pixels_rgba),
        x < 8 * p.blocks_wide,
        y < 8 * p.blocks_high,
{
    assert(y * p.width + x + 1 <= p.width * p.height) by (nonlinear_arith)
        requires
            0 <= x < p.width,
            0 <= y,
            y + 1 <= p.height,
    ;
}

} // verus!
