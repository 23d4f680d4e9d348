//! Launch parameters of the Blelloch exclusive-scan kernel.

use super::error::{BackendError, GpuBackend};
use super::params::reports;
use vstd::prelude::*;
use vstd::string::*;

verus! {

/// Workgroup size used by every phase of the Blelloch scan kernel.  Each
/// thread handles 2 elements, so a workgroup's tile is 1024 elements.
pub const SCAN_WORKGROUP_SIZE: u32 = 512;

/// Maximum number of workgroups the single-tier `BlockSums` phase can handle.
pub const SCAN_MAX_BLOCKS: u32 = 1024;

/// Phase selector of the multi-workgroup Blelloch exclusive scan.
#[derive(Debug, Clone, Copy, PartialEq, Eq, Structural)]
pub enum ScanPhase {
    /// Per-workgroup local scan; the tile sum goes to `block_sums`.
    PerWorkgroup,
    /// Single-workgroup scan over `block_sums`.
    BlockSums,
    /// Adds the scanned `block_sums` back into every tile.
    ScatterBlockSums,
}

impl ScanPhase {
    /// Kernel argument encoding.
    pub open spec fn code(self) -> u32 {
        match self {
            ScanPhase::PerWorkgroup => 0,
            ScanPhase::BlockSums => 1,
            ScanPhase::ScatterBlockSums => 2,
        }
    }

    /// Kernel argument encoding.  Stable across back ends.
    #[must_use]
    pub fn as_kernel_arg(self) -> (arg: u32)
        ensures
            arg == self.code(),
    {
        match self {
            ScanPhase::PerWorkgroup => 0,
            ScanPhase::BlockSums => 1,
            ScanPhase::ScatterBlockSums => 2,
        }
    }

    /// Workgroups of this phase on each axis.
    pub open spec fn grid(self, len_elems: u32) -> (u32, u32, u32) {
        if self == ScanPhase::BlockSums {
            (1, 1, 1)
        } else {
            (scan_blocks(len_elems) as u32, 1, 1)
        }
    }

    /// Workgroup grid dimensions for this phase given `len_elems`.
    ///
    /// `PerWorkgroup` and `ScatterBlockSums` dispatch one workgroup per tile
    /// (rounded up); `BlockSums` dispatches exactly one.
    #[must_use]
    pub fn dispatch_grid(self, len_elems: u32) -> (grid: (u32, u32, u32))
        ensures
            grid == self.grid(len_elems),
    {
        match self {
            ScanPhase::PerWorkgroup => (scan_block_count(len_elems), 1, 1),
            ScanPhase::ScatterBlockSums => (scan_block_count(len_elems), 1, 1),
            ScanPhase::BlockSums => (1, 1, 1),
        }
    }
}

/// Tiles of 1024 elements that cover `len_elems`.
pub open spec fn scan_blocks(len_elems: u32) -> int {
    (len_elems + 1023) / 1024
}

/// Number of per-workgroup tiles required to cover `len_elems` elements of
/// the Blelloch scan.
#[must_use]
pub fn scan_block_count(len_elems: u32) -> (n: u32)
    ensures
        n == scan_blocks(len_elems),
{
    len_elems / 1024 + (if len_elems % 1024 == 0 {
        0
    } else {
        1
    })
}

/// Parameters for one phase of the Blelloch exclusive scan kernel.
///
/// # Invariants enforced by [`ScanParams::validate`]
/// - `len_elems > 0`.
/// - `data` capacity ≥ `len_elems * 4` bytes.
/// - `block_count = ceil(len_elems / 1024)` is at most [`SCAN_MAX_BLOCKS`].
/// - `block_sums` capacity ≥ `block_count * 4` bytes.
pub struct ScanParams<'a, B: GpuBackend> {
    /// Input/output u32 buffer scanned in place.
    pub data: &'a B::DeviceBuffer,
    /// Per-workgroup scratch holding tile sums between phases.
    pub block_sums: &'a B::DeviceBuffer,
    /// Number of u32 elements to scan.
    pub len_elems: u32,
    /// Which of the three Blelloch phases this dispatch executes.
    pub phase: ScanPhase,
}

impl<'a, B: GpuBackend> ScanParams<'a, B> {
    /// The documented invariants.
    pub open spec fn well_formed(&self, backend: &B) -> bool {
        &&& self.len_elems > 0
        &&& backend.capacity(self.data) >= self.len_elems * 4
        &&& scan_blocks(self.len_elems) <= SCAN_MAX_BLOCKS
        &&& backend.capacity(self.block_sums) >= scan_blocks(self.len_elems) * 4
    }

    /// The first invariant that does not hold.
    pub open spec fn violation(&self, backend: &B) -> Option<Seq<char>> {
        if self.len_elems == 0 {
            Some("len_elems must be > 0"@)
        } else if self.len_elems * 4 > usize::MAX {
            Some("len_elems * 4 overflows usize"@)
        } else if backend.capacity(self.data) < self.len_elems * 4 {
            Some("data buffer is smaller than len_elems * 4 bytes"@)
        } else if scan_blocks(self.len_elems) > SCAN_MAX_BLOCKS {
            Some(
                "block_count exceeds SCAN_MAX_BLOCKS (1024); recursive scan not implemented"@,
            )
        } else if backend.capacity(self.block_sums) < scan_blocks(self.len_elems) * 4 {
            Some("block_sums buffer is smaller than ceil(len_elems / 1024) * 4 bytes"@)
        } else {
            None
        }
    }

    /// Validate the documented invariants; an error names the first one that
    /// does not hold.
    pub fn validate(&self, backend: &B) -> (r: Result<(), BackendError>)
        ensures
            reports(r, "ScanInvariantViolation"@, self.violation(backend)),
            r is Ok <==> self.well_formed(backend),
    {
        let kind: &'static str = "ScanInvariantViolation";
        if self.len_elems == 0 {
            return Err(BackendError::InvariantViolation { kind, detail: "len_elems must be > 0" });
        }
        let data_bytes: u64 = self.len_elems as u64 * 4;
        if data_bytes > usize::MAX as u64 {
            return Err(
                BackendError::InvariantViolation { kind, detail: "len_elems * 4 overflows usize" },
            );
        }
        if (backend.device_buffer_len(self.data) as u64) < data_bytes {
            return Err(
                BackendError::InvariantViolation {
                    kind,
                    detail: "data buffer is smaller than len_elems * 4 bytes",
                },
            );
        }
        let block_count: u32 = scan_block_count(self.len_elems);
        if block_count > SCAN_MAX_BLOCKS {
            return Err(
                BackendError::InvariantViolation {
                    kind,
                    detail: "block_count exceeds SCAN_MAX_BLOCKS (1024); recursive scan not implemented",
                },
            );
        }
        if (backend.device_buffer_len(self.block_sums) as u64) < block_count as u64 * 4 {
            return Err(
                BackendError::InvariantViolation {
                    kind,
                    detail: "block_sums buffer is smaller than ceil(len_elems / 1024) * 4 bytes",
                },
            );
        }
        Ok(())
    }
}

/// The tiles cover every element, and none lies wholly outside.
pub proof fn law_scan_tiles_cover(len_elems: u32)
    requires
        len_elems > 0,
    ensures
        scan_blocks(len_elems) * 1024 >= len_elems,
        (scan_blocks(len_elems) - 1) * 1024 < len_elems,
{
}

/// A validated scan stays inside its buffers: every element and the sum of
/// every tile has its four bytes, and the tiles' sums fit one tile.
pub proof fn law_scan_stays_inside_its_buffers<B: GpuBackend>(
    p: ScanParams<B>,
    backend: &B,
    i: int,
)
    requires
        p.well_formed(backend),
        0 <= i < p.len_elems,
    ensures
        4 * i + 4 <= backend.capacity(p.data),
        4 * (i / 1024) + 4 <= backend.capacity(p.block_sums),
        i / 1024 < 1024,
{
}

} // verus!
