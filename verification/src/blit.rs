//! Image blit: which blits are refused, and how the others are launched.
//!
//! A blit copies a cached image into a page buffer through sampling tables.
//! The tables have one entry for each column and each row of the bounding
//! box, each of [`SAMPLE_ENTRY_WORDS`] words.

use crate::backend::launch::{groups_for, law_no_group_is_idle, lemma_groups_cover, BLIT_TILE};
use crate::backend::error::GpuBackend;
use crate::backend::params::BlitParams;
use crate::cache::ImageLayout;
use vstd::prelude::*;
use vstd::string::*;

verus! {

/// Words of a sampling-table entry: `[x_hi, x_lo, y_hi, y_lo]`.
pub const SAMPLE_ENTRY_WORDS: usize = 4;

/// Output bounding box of a blit, in page pixels.
#[derive(Debug, Clone, Copy, PartialEq, Eq, Structural)]
pub struct BlitBbox {
    /// Inclusive left edge.
    pub x0: i32,
    /// Inclusive top edge.
    pub y0: i32,
    /// Exclusive right edge.
    pub x1: i32,
    /// Exclusive bottom edge.
    pub y1: i32,
}

/// Extent from `lo` to `hi`: nothing where they are inverted, and at most
/// `i32::MAX`.
pub open spec fn clamped_extent(lo: i32, hi: i32) -> u32 {
    if hi <= lo {
        0
    } else if hi - lo > i32::MAX {
        i32::MAX as u32
    } else {
        (hi - lo) as u32
    }
}

fn saturated(lo: i32, hi: i32) -> (n: u32)
    ensures
        n == clamped_extent(lo, hi),
{
    let d: i64 = hi as i64 - lo as i64;
    if d <= 0 {
        0
    } else if d > 0x7FFF_FFFF {
        0x7FFF_FFFF
    } else {
        d as u32
    }
}

impl BlitBbox {
    pub open spec fn columns(self) -> u32 {
        clamped_extent(self.x0, self.x1)
    }

    pub open spec fn lines(self) -> u32 {
        clamped_extent(self.y0, self.y1)
    }

    /// Width in pixels; 0 for an inverted or zero-area box.
    #[must_use]
    pub fn width(self) -> (n: u32)
        ensures
            n == self.columns(),
    {
        saturated(self.x0, self.x1)
    }

    /// Height in pixels; same rule as [`Self::width`].
    #[must_use]
    pub fn height(self) -> (n: u32)
        ensures
            n == self.lines(),
    {
        saturated(self.y0, self.y1)
    }

    /// Byte lengths that the column and row tables have for this box.
    #[must_use]
    pub fn table_bytes(self) -> (bytes: (usize, usize))
        requires
            16 * self.columns() <= usize::MAX,
            16 * self.lines() <= usize::MAX,
        ensures
            bytes.0 == 16 * self.columns(),
            bytes.1 == 16 * self.lines(),
    {
        (self.width() as usize * 16, self.height() as usize * 16)
    }
}

/// Why a blit is refused.
#[derive(Debug, Clone, PartialEq, Eq)]
pub enum BlitError {
    /// Mask images take the CPU path.
    UnsupportedLayout,
    /// A sampling table does not match the box.
    TableSize,
    /// A dimension of the image or the page does not fit `i32`.
    DimensionsTooLarge,
    /// The driver failed.
    Cuda(String),
}

impl BlitError {
    pub open spec fn text(self) -> Seq<char> {
        match self {
            BlitError::UnsupportedLayout => "blit kernel does not handle Mask layout"@,
            BlitError::TableSize => "blit sampling tables do not match the bbox"@,
            BlitError::DimensionsTooLarge => "image or page dimensions exceed i32::MAX"@,
            BlitError::Cuda(e) => "cuda: "@ + e@,
        }
    }

    /// The error as a sentence.
    pub fn message(&self) -> (s: String)
        ensures
            s@ == self.text(),
    {
        match self {
            BlitError::UnsupportedLayout => String::from_str(
                "blit kernel does not handle Mask layout",
            ),
            BlitError::TableSize => String::from_str("blit sampling tables do not match the bbox"),
            BlitError::DimensionsTooLarge => String::from_str(
                "image or page dimensions exceed i32::MAX",
            ),
            BlitError::Cuda(e) => {
                let mut s = String::from_str("cuda: ");
                s.append(e.as_str());
                s
            },
        }
    }
}

/// The kernel's code of a layout it handles.
pub open spec fn layout_code(layout: ImageLayout) -> Option<i32> {
    match layout {
        ImageLayout::Rgb => Some(0),
        ImageLayout::Gray => Some(1),
        ImageLayout::Mask => None,
    }
}

/// Check a blit before its tables are uploaded.  `cols_words` and
/// `rows_words` are the lengths of the sampling tables.
///
/// Returns the kernel's layout code, or nothing where the box is empty.
pub fn blit_image_to_buffer(
    layout: ImageLayout,
    bbox: BlitBbox,
    cols_words: usize,
    rows_words: usize,
) -> (r: Result<Option<i32>, BlitError>)
    requires
        bbox.x0 <= bbox.x1,
        bbox.y0 <= bbox.y1,
    ensures
        match layout_code(layout) {
            None => r == Err::<Option<i32>, BlitError>(BlitError::UnsupportedLayout),
            Some(code) => if bbox.columns() == 0 || bbox.lines() == 0 {
                r == Ok::<Option<i32>, BlitError>(None)
            } else if cols_words != bbox.columns() * SAMPLE_ENTRY_WORDS || rows_words
                != bbox.lines() * SAMPLE_ENTRY_WORDS {
                r == Err::<Option<i32>, BlitError>(BlitError::TableSize)
            } else {
                r == Ok::<Option<i32>, BlitError>(Some(code))
            },
        },
{
    let code: i32 = match layout {
        ImageLayout::Rgb => 0,
        ImageLayout::Gray => 1,
        ImageLayout::Mask => {
            return Err(BlitError::UnsupportedLayout);
        },
    };
    let w: u32 = bbox.width();
    let h: u32 = bbox.height();
    if w == 0 || h == 0 {
        return Ok(None);
    }
    if cols_words as u64 != w as u64 * 4 || rows_words as u64 != h as u64 * 4 {
        return Err(BlitError::TableSize);
    }
    Ok(Some(code))
}

/// Scalars and grid of a blit launch.
#[derive(Debug, Clone, Copy, PartialEq, Eq)]
pub struct BlitLaunch {
    pub src_w: i32,
    pub src_h: i32,
    pub layout_code: i32,
    pub dst_w: i32,
    pub dst_h: i32,
    pub bbox: BlitBbox,
    /// Workgroups on each axis.
    pub grid: (u32, u32, u32),
    /// Threads of a workgroup on each axis.
    pub block: (u32, u32, u32),
}

/// Both dimensions can be sent as signed numbers.
pub open spec fn fits_i32(dims: (u32, u32)) -> bool {
    dims.0 <= i32::MAX && dims.1 <= i32::MAX
}

/// The launch on device tables of these sizes: nothing where the box is
/// empty, else the refusal of a short table or of a dimension that does not
/// fit, else one thread for each pixel of the box.
pub open spec fn planned_blit(
    src_dims: (u32, u32),
    layout_code: i32,
    dst_dims: (u32, u32),
    bbox: BlitBbox,
    cols_bytes: usize,
    rows_bytes: usize,
) -> Result<Option<BlitLaunch>, BlitError> {
    if bbox.columns() == 0 || bbox.lines() == 0 {
        Ok(None)
    } else if cols_bytes < 16 * bbox.columns() || rows_bytes < 16 * bbox.lines() {
        Err(BlitError::TableSize)
    } else if !fits_i32(src_dims) || !fits_i32(dst_dims) {
        Err(BlitError::DimensionsTooLarge)
    } else {
        Ok(
            Some(
                BlitLaunch {
                    src_w: src_dims.0 as i32,
                    src_h: src_dims.1 as i32,
                    layout_code,
                    dst_w: dst_dims.0 as i32,
                    dst_h: dst_dims.1 as i32,
                    bbox,
                    grid: (
                        groups_for(bbox.columns(), BLIT_TILE),
                        groups_for(bbox.lines(), BLIT_TILE),
                        1,
                    ),
                    block: (BLIT_TILE, BLIT_TILE, 1),
                },
            ),
        )
    }
}

/// Launch of the blit kernel on tables that are resident on the device;
/// nothing where the box is empty.
pub fn launch_blit_image_async(
    src_dims: (u32, u32),
    layout_code: i32,
    dst_dims: (u32, u32),
    bbox: BlitBbox,
    cols_bytes: usize,
    rows_bytes: usize,
) -> (r: Result<Option<BlitLaunch>, BlitError>)
    ensures
        r == planned_blit(src_dims, layout_code, dst_dims, bbox, cols_bytes, rows_bytes),
{
    let w: u32 = bbox.width();
    let h: u32 = bbox.height();
    if w == 0 || h == 0 {
        return Ok(None);
    }
    if (cols_bytes as u64) < w as u64 * 16 || (rows_bytes as u64) < h as u64 * 16 {
        return Err(BlitError::TableSize);
    }
    if src_dims.0 > 0x7FFF_FFFF || src_dims.1 > 0x7FFF_FFFF || dst_dims.0 > 0x7FFF_FFFF
        || dst_dims.1 > 0x7FFF_FFFF {
        return Err(BlitError::DimensionsTooLarge);
    }
    proof {
        lemma_groups_cover(w, BLIT_TILE);
        lemma_groups_cover(h, BLIT_TILE);
    }
    let grid_x: u32 = (w + 15) / 16;
    let grid_y: u32 = (h + 15) / 16;
    Ok(
        Some(
            BlitLaunch {
                src_w: src_dims.0 as i32,
                src_h: src_dims.1 as i32,
                layout_code,
                dst_w: dst_dims.0 as i32,
                dst_h: dst_dims.1 as i32,
                bbox,
                grid: (grid_x, grid_y, 1),
                block: (BLIT_TILE, BLIT_TILE, 1),
            },
        ),
    )
}

/// A launch reaches every pixel of its box: the grid times the block covers
/// it on both axes.
pub proof fn law_blit_grid_covers_the_box(bbox: BlitBbox, x: int, y: int)
    requires
        0 <= x < bbox.columns(),
        0 <= y < bbox.lines(),
    ensures
        x < groups_for(bbox.columns(), BLIT_TILE) * BLIT_TILE,
        y < groups_for(bbox.lines(), BLIT_TILE) * BLIT_TILE,
{
    lemma_groups_cover(bbox.columns(), BLIT_TILE);
    lemma_groups_cover(bbox.lines(), BLIT_TILE);
}

/// Tables of the sizes that the box announces pass the launch validation.
pub proof fn law_announced_tables_are_large_enough<B: GpuBackend>(
    p: BlitParams<B>,
    backend: &B,
    bbox: BlitBbox,
)
    requires
        p.bbox@ == seq![bbox.x0, bbox.y0, bbox.x1, bbox.y1],
        bbox.x0 <= bbox.x1,
        bbox.y0 <= bbox.y1,
        bbox.x1 - bbox.x0 <= i32::MAX,
        bbox.y1 - bbox.y0 <= i32::MAX,
        backend.capacity(p.cols) >= 16 * bbox.columns(),
        backend.capacity(p.rows) >= 16 * bbox.lines(),
        p.src_w > 0,
        p.src_h > 0,
        p.dst_w > 0,
        p.dst_h > 0,
        p.src_layout <= 1,
    ensures
        p.well_formed(backend),
{
    assert(p.bbox@[0] == bbox.x0 && p.bbox@[1] == bbox.y0 && p.bbox@[2] == bbox.x1 && p.bbox@[3]
        == bbox.y1);
}

/// A box is as wide and as high as the pixels that lie in it, as far as a
/// signed number can tell, and an inverted one is empty.
pub proof fn law_boxes_count_their_pixels(bbox: BlitBbox)
    ensures
        bbox.x0 <= bbox.x1 && bbox.x1 - bbox.x0 <= i32::MAX ==> bbox.x0 + bbox.columns()
            == bbox.x1,
        bbox.y0 <= bbox.y1 && bbox.y1 - bbox.y0 <= i32::MAX ==> bbox.y0 + bbox.lines() == bbox.y1,
        bbox.x1 <= bbox.x0 ==> bbox.columns() == 0,
        bbox.y1 <= bbox.y0 ==> bbox.lines() == 0,
        bbox.columns() <= i32::MAX,
        bbox.lines() <= i32::MAX,
{
}

/// A launch carries its images' own sizes and box, its tables hold an entry
/// of sixteen bytes for each column and each row of the box, and its last
/// groups have pixels to do.
pub proof fn law_launches_carry_their_images(
    src_dims: (u32, u32),
    layout_code: i32,
    dst_dims: (u32, u32),
    bbox: BlitBbox,
    cols_bytes: usize,
    rows_bytes: usize,
    x: int,
    y: int,
)
    ensures
        planned_blit(src_dims, layout_code, dst_dims, bbox, cols_bytes, rows_bytes) matches Ok(
            Some(l),
        ) ==> {
            &&& l.src_w == src_dims.0 && l.src_h == src_dims.1
            &&& l.dst_w == dst_dims.0 && l.dst_h == dst_dims.1
            &&& l.layout_code == layout_code && l.bbox == bbox
            &&& 0 <= x < bbox.columns() ==> 16 * x + 16 <= cols_bytes
            &&& 0 <= y < bbox.lines() ==> 16 * y + 16 <= rows_bytes
            &&& (l.grid.0 - 1) * l.block.0 < bbox.columns() <= l.grid.0 * l.block.0
            &&& (l.grid.1 - 1) * l.block.1 < bbox.lines() <= l.grid.1 * l.block.1
            &&& l.grid.2 == 1 && l.block.2 == 1
        },
        bbox.columns() == 0 || bbox.lines() == 0 ==> planned_blit(
            src_dims,
            layout_code,
            dst_dims,
            bbox,
            cols_bytes,
            rows_bytes,
        ) == Ok::<Option<BlitLaunch>, BlitError>(None),
{
    if bbox.columns() > 0 && bbox.lines() > 0 {
        law_no_group_is_idle(bbox.columns(), BLIT_TILE);
        law_no_group_is_idle(bbox.lines(), BLIT_TILE);
    }
}

} // verus!
