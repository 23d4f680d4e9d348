//! Parameter structs for the `record_*` calls of the back ends.
//!
//! Each struct holds references to caller-owned device buffers and small
//! scalar arguments.  The `validate` methods check the documented invariants
//! before anything reaches a kernel, which does no bounds checks of its own.

use super::error::{BackendError, GpuBackend};
use vstd::prelude::*;
use vstd::string::*;

verus! {

/// Bytes per sampling-table entry: four `u32` words.
pub const TABLE_ENTRY_BYTES: usize = 16;

/// Whether `r` reports the violated invariant `v`, or success if there is
/// none.
pub open spec fn reports(
    r: Result<(), BackendError>,
    kind: Seq<char>,
    v: Option<Seq<char>>,
) -> bool {
    match v {
        None => r is Ok,
        Some(d) => r matches Err(BackendError::InvariantViolation { kind: k, detail }) && k@ == kind
            && detail@ == d,
    }
}

/// Parameters for a GPU image blit (table-driven copy onto the page buffer).
///
/// The kernel reads source pixel `cols[dx] + rows[dy]` for every page pixel
/// inside `bbox`; see [`crate::blit`] for the table layout.
///
/// # Invariants enforced by [`BlitParams::validate`]
/// - `src_w > 0`, `src_h > 0`, `dst_w > 0`, `dst_h > 0`
/// - `src_layout` is `0` (RGB) or `1` (Gray); Mask images are CPU-only
/// - `bbox` is `[x0, y0, x1, y1]` with `x0 <= x1` and `y0 <= y1`
/// - `cols` holds at least `x1 - x0` entries and `rows` at least `y1 - y0`
///   entries of 16 bytes each
pub struct BlitParams<'a, B: GpuBackend> {
    /// Source image in device memory.
    pub src: &'a B::DeviceBuffer,
    /// Destination page buffer in device memory.
    pub dst: &'a B::DeviceBuffer,
    /// Per-column sampling table in device memory.
    pub cols: &'a B::DeviceBuffer,
    /// Per-row sampling table in device memory.
    pub rows: &'a B::DeviceBuffer,
    /// Source image width in pixels.
    pub src_w: u32,
    /// Source image height in pixels.
    pub src_h: u32,
    /// Source image channel layout: `0` = RGB, `1` = Gray.
    pub src_layout: u32,
    /// Destination buffer width in pixels.
    pub dst_w: u32,
    /// Destination buffer height in pixels.
    pub dst_h: u32,
    /// Destination bounding box `[x0, y0, x1, y1]` in page-space pixels.
    pub bbox: [i32; 4],
}

impl<'a, B: GpuBackend> BlitParams<'a, B> {
    /// The documented invariants.
    pub open spec fn well_formed(&self, backend: &B) -> bool {
        &&& self.src_w > 0 && self.src_h > 0
        &&& self.dst_w > 0 && self.dst_h > 0
        &&& self.bbox@[0] <= self.bbox@[2] && self.bbox@[1] <= self.bbox@[3]
        &&& backend.capacity(self.cols) >= (self.bbox@[2] - self.bbox@[0]) * TABLE_ENTRY_BYTES
        &&& backend.capacity(self.rows) >= (self.bbox@[3] - self.bbox@[1]) * TABLE_ENTRY_BYTES
        &&& self.src_layout <= 1
    }

    /// The first invariant that does not hold.
    pub open spec fn violation(&self, backend: &B) -> Option<Seq<char>> {
        if self.src_w == 0 || self.src_h == 0 {
            Some("src dimensions must be > 0"@)
        } else if self.dst_w == 0 || self.dst_h == 0 {
            Some("dst dimensions must be > 0"@)
        } else if self.bbox@[0] > self.bbox@[2] || self.bbox@[1] > self.bbox@[3] {
            Some("bbox must satisfy x0 <= x1 and y0 <= y1"@)
        } else if backend.capacity(self.cols) < (self.bbox@[2] - self.bbox@[0])
            * TABLE_ENTRY_BYTES {
            Some("cols table shorter than bbox width × 16 bytes"@)
        } else if backend.capacity(self.rows) < (self.bbox@[3] - self.bbox@[1])
            * TABLE_ENTRY_BYTES {
            Some("rows table shorter than bbox height × 16 bytes"@)
        } else if self.src_layout > 1 {
            Some("src_layout must be 0 (RGB) or 1 (Gray); Mask layout is CPU-only"@)
        } else {
            None
        }
    }

    /// Validate the documented invariants; an error names the first one that
    /// does not hold.
    pub fn validate(&self, backend: &B) -> (r: Result<(), BackendError>)
        ensures
            reports(r, "BlitInvariantViolation"@, self.violation(backend)),
            r is Ok <==> self.well_formed(backend),
    {
        let kind: &'static str = "BlitInvariantViolation";
        if self.src_w == 0 || self.src_h == 0 {
            return Err(
                BackendError::InvariantViolation { kind, detail: "src dimensions must be > 0" },
            );
        }
        if self.dst_w == 0 || self.dst_h == 0 {
            return Err(
                BackendError::InvariantViolation { kind, detail: "dst dimensions must be > 0" },
            );
        }
        let x0: i64 = self.bbox[0] as i64;
        let y0: i64 = self.bbox[1] as i64;
        let x1: i64 = self.bbox[2] as i64;
        let y1: i64 = self.bbox[3] as i64;
        if x0 > x1 || y0 > y1 {
            return Err(
                BackendError::InvariantViolation {
                    kind,
                    detail: "bbox must satisfy x0 <= x1 and y0 <= y1",
                },
            );
        }
        // The kernel indexes `cols` by `dx - x0` and `rows` by `dy - y0`
        // without a bounds check of its own.
        let width: u64 = (x1 - x0) as u64;
        let height: u64 = (y1 - y0) as u64;
        if (backend.device_buffer_len(self.cols) as u64) < width * 16 {
            return Err(
                BackendError::InvariantViolation {
                    kind,
                    detail: "cols table shorter than bbox width × 16 bytes",
                },
            );
        }
        if (backend.device_buffer_len(self.rows) as u64) < height * 16 {
            return Err(
                BackendError::InvariantViolation {
                    kind,
                    detail: "rows table shorter than bbox height × 16 bytes",
                },
            );
        }
        if self.src_layout > 1 {
            return Err(
                BackendError::InvariantViolation {
                    kind,
                    detail: "src_layout must be 0 (RGB) or 1 (Gray); Mask layout is CPU-only",
                },
            );
        }
        Ok(())
    }
}

/// Parameters for a GPU antialiased fill pass.
pub struct AaFillParams<'a, B: GpuBackend> {
    /// Packed edge segments in device memory.
    pub segs: &'a B::DeviceBuffer,
    /// Number of segments in `segs`.
    pub n_segs: u32,
    /// Output coverage buffer in device memory.
    pub coverage: &'a B::DeviceBuffer,
    /// Coverage buffer width in pixels.
    pub width: u32,
    /// Coverage buffer height in pixels.
    pub height: u32,
    /// Fill rule: 0 = non-zero winding, 1 = even-odd.
    pub fill_rule: u8,
}

/// Parameters for a GPU ICC CMYK→RGB CLUT lookup.
pub struct IccClutParams<'a, B: GpuBackend> {
    /// Input CMYK pixels in device memory.
    pub cmyk: &'a B::DeviceBuffer,
    /// Output RGB pixels in device memory.
    pub rgb: &'a B::DeviceBuffer,
    /// CLUT table in device memory.
    pub clut: &'a B::DeviceBuffer,
    /// Number of pixels to transform.
    pub n_pixels: u32,
}

/// Parameters for a GPU tile-parallel analytical fill.
pub struct TileFillParams<'a, B: GpuBackend> {
    /// Packed tile-fill records in device memory.
    pub records: &'a B::DeviceBuffer,
    /// Per-tile start offsets into `records`.
    pub tile_starts: &'a B::DeviceBuffer,
    /// Per-tile record counts.
    pub tile_counts: &'a B::DeviceBuffer,
    /// Output coverage buffer in device memory.
    pub coverage: &'a B::DeviceBuffer,
    /// Coverage buffer width in pixels.
    pub width: u32,
    /// Coverage buffer height in pixels.
    pub height: u32,
    /// Fill rule: 0 = non-zero winding, 1 = even-odd.
    pub fill_rule: u8,
}

/// Parameters for a GPU Porter-Duff source-over composite.
pub struct CompositeParams<'a, B: GpuBackend> {
    /// Source RGBA pixels in device memory.
    pub src: &'a B::DeviceBuffer,
    /// Destination RGBA pixels in device memory (read-modify-write).
    pub dst: &'a B::DeviceBuffer,
    /// Number of pixels to composite.
    pub n_pixels: u32,
}

/// Parameters for a GPU soft-mask application.
pub struct SoftMaskParams<'a, B: GpuBackend> {
    /// RGBA pixel buffer to mask in device memory (read-modify-write).
    pub pixels: &'a B::DeviceBuffer,
    /// Greyscale mask buffer in device memory.
    pub mask: &'a B::DeviceBuffer,
    /// Number of pixels to process.
    pub n_pixels: u32,
}

/// Bytes of a CLUT with `grid_n` nodes on each of its four axes, three bytes
/// to a node.
pub open spec fn clut_len(grid_n: nat) -> nat {
    grid_n * grid_n * grid_n * grid_n * 3
}

/// Recover `grid_n` such that `clut_byte_len == grid_n^4 * 3`, or `None`
/// if the length is not a valid CLUT layout.
///
/// The CLUT layout is `(k * G^3 + c * G^2 + m * G + y) * 3` bytes; 2 to 255
/// nodes per axis are recognised.
#[must_use]
pub fn grid_n_from_clut_len(len: usize) -> (grid: Option<u32>)
    ensures
        match grid {
            Some(g) => 2 <= g <= 255 && len == clut_len(g as nat),
            None => forall|g: nat| 2 <= g <= 255 ==> len != #[trigger] clut_len(g),
        },
{
    if len % 3 != 0 {
        assert forall|g: nat| 2 <= g <= 255 implies len != #[trigger] clut_len(g) by {
            let n = g * g * g * g;
            assert((n * 3) % 3 == 0);
        }
        return None;
    }
    let nodes: u64 = len as u64 / 3;
    let mut grid: u32 = 2;
    while grid <= 255
        invariant
            2 <= grid <= 256,
            len == nodes * 3,
            forall|g: nat| 2 <= g < grid ==> len != #[trigger] clut_len(g),
        decreases 256 - grid,
    {
        let g: u64 = grid as u64;
        proof {
            lemma_fourth_power(g as nat, 255);
        }
        let pow4: u64 = g * g * g * g;
        if pow4 == nodes {
            return Some(grid);
        }
        if pow4 > nodes {
            assert forall|h: nat| 2 <= h <= 255 implies len != #[trigger] clut_len(h) by {
                if h >= g {
                    lemma_fourth_power(g as nat, h);
                }
            }
            return None;
        }
        grid = grid + 1;
    }
    None
}

/// Fourth powers grow with their base, and fit below the largest base used.
proof fn lemma_fourth_power(g: nat, h: nat)
    requires
        g <= h <= 255,
    ensures
        g * g <= 65025,
        g * g * g <= 16581375,
        g * g * g * g <= 4228250625,
        g * g * g * g <= h * h * h * h,
{
    assert(g * g <= h * h && h * h <= 65025) by (nonlinear_arith)
        requires
            g <= h <= 255,
    ;
    assert(g * g * g <= h * h * h && h * h * h <= 16581375) by (nonlinear_arith)
        requires
            g <= h <= 255,
            g * g <= h * h <= 65025,
    ;
    assert(g * g * g * g <= h * h * h * h && h * h * h * h <= 4228250625) by (nonlinear_arith)
        requires
            g <= h <= 255,
            g * g * g <= h * h * h <= 16581375,
    ;
}

/// Every grid size is recovered from the length of its CLUT.
pub proof fn law_grid_size_round_trips(a: nat, b: nat)
    requires
        2 <= a <= 255,
        2 <= b <= 255,
        clut_len(a) == clut_len(b),
    ensures
        a == b,
{
    if a < b {
        lemma_fourth_power_strict(a, b);
    } else if b < a {
        lemma_fourth_power_strict(b, a);
    }
}

proof fn lemma_fourth_power_strict(g: nat, h: nat)
    requires
        1 <= g < h,
    ensures
        g * g * g * g < h * h * h * h,
{
    assert(g * g < h * h) by (nonlinear_arith)
        requires
            1 <= g < h,
    ;
    assert(g * g * g < h * h * h) by (nonlinear_arith)
        requires
            1 <= g < h,
            g * g < h * h,
    ;
    assert(g * g * g * g < h * h * h * h) by (nonlinear_arith)
        requires
            1 <= g < h,
            g * g * g < h * h * h,
    ;
}

/// A validated blit stays inside its tables: the kernel reads a whole entry
/// for every column and every row of its box.
pub proof fn law_blit_stays_inside_its_tables<B: GpuBackend>(
    p: BlitParams<B>,
    backend: &B,
    x: int,
    y: int,
)
    requires
        p.well_formed(backend),
    ensures
        p.bbox@[0] <= x < p.bbox@[2] ==> 16 * (x - p.bbox@[0]) + 16 <= backend.capacity(p.cols),
        p.bbox@[1] <= y < p.bbox@[3] ==> 16 * (y - p.bbox@[1]) + 16 <= backend.capacity(p.rows),
        p.src_w > 0 && p.src_h > 0 && p.dst_w > 0 && p.dst_h > 0,
{
}

/// A table of `n` nodes on each of its four axes has three bytes for each of
/// its nodes.
pub proof fn law_table_lengths_count_the_nodes(n: nat)
    ensures
        clut_len(n) == crate::clut::clut_bytes(n),
        clut_len(1) == 3,
        clut_len(2 * n) == 16 * clut_len(n),
{
    assert((2 * n) * (2 * n) * (2 * n) * (2 * n) * 3 == 16 * (n * n * n * n * 3))
        by (nonlinear_arith);
}

} // verus!
