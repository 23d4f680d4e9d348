//! Kernel launches: which buffers a kernel binds, which scalars it is given
//! and how many workgroups run.
//!
//! Scalars are 32-bit words.  A signed value or a float zero travels as its
//! bit pattern.

use super::error::{BackendError, ErrorModel, GpuBackend};
use super::huffman_params::{
    lemma_subsequences_fit, HuffmanParams, HuffmanPhase, HUFFMAN_PHASE1_THREADS,
};
use super::idct_params::IdctParams;
use super::kernels::KernelId;
use super::params::{
    clut_len, grid_n_from_clut_len, AaFillParams, BlitParams, CompositeParams, IccClutParams,
    SoftMaskParams, TileFillParams,
};
use super::scan_params::{ScanParams, ScanPhase};
use crate::text::{decimal, push_decimal};
use vstd::prelude::*;
use vstd::string::*;

verus! {

/// Tile width of the tile-parallel fill.
pub const TILE_W: u32 = 16;

/// Tile height of the tile-parallel fill.
pub const TILE_H: u32 = 16;

/// Threads of a workgroup of the per-pixel kernels.
pub const PIXEL_THREADS: u32 = 256;

/// Side of a blit workgroup, in pixels.
pub const BLIT_TILE: u32 = 16;

/// Bytes of scalars a launch can carry.
pub const MAX_PUSH_BYTES: usize = 128;

/// One launch: buffers in the order of the kernel's bindings, scalars, and
/// the number of workgroups on each axis.
#[derive(Debug)]
pub struct KernelDispatch<'a, D> {
    pub kernel: KernelId,
    pub buffers: Vec<&'a D>,
    pub push: Vec<u32>,
    pub groups: (u32, u32, u32),
}

impl<'a, D> KernelDispatch<'a, D> {
    /// A buffer for each of the kernel's bindings, and scalars that fit.
    pub open spec fn fits(&self) -> bool {
        &&& self.buffers@.len() == self.kernel.bindings().len()
        &&& 4 * self.push@.len() <= MAX_PUSH_BYTES
    }

    /// The launch, part by part.
    pub open spec fn is(
        &self,
        kernel: KernelId,
        buffers: Seq<&'a D>,
        push: Seq<u32>,
        groups: (u32, u32, u32),
    ) -> bool {
        &&& self.kernel == kernel
        &&& self.buffers@ == buffers
        &&& self.push@ == push
        &&& self.groups == groups
    }
}

/// Workgroups of `size` that cover `n`.
pub open spec fn groups_for(n: u32, size: u32) -> u32 {
    ((n + size - 1) / (size as int)) as u32
}

fn group_count(n: u32, size: u32) -> (g: u32)
    requires
        size > 0,
    ensures
        g == groups_for(n, size),
{
    proof {
        lemma_groups_cover(n, size);
    }
    ((n as u64 + size as u64 - 1) / size as u64) as u32
}

/// Workgroups cover all items, and no group is empty.
pub proof fn lemma_groups_cover(n: u32, size: u32)
    requires
        size > 0,
    ensures
        groups_for(n, size) == (n + size - 1) / (size as int),
        groups_for(n, size) * size >= n,
        n > 0 ==> (groups_for(n, size) - 1) * size < n,
{
    lemma_subsequences_fit(n, size);
}

/// The scalar of a fill rule: 1 for even-odd, 0 for non-zero winding.
pub open spec fn rule_word(fill_rule: u8) -> u32 {
    if fill_rule != 0 {
        1
    } else {
        0
    }
}

fn rule(fill_rule: u8) -> (w: u32)
    ensures
        w == rule_word(fill_rule),
{
    if fill_rule != 0 {
        1
    } else {
        0
    }
}

/// Launch of the compositing kernel.
pub fn record_composite<'a, B: GpuBackend>(p: &CompositeParams<'a, B>) -> (d: KernelDispatch<
    'a,
    B::DeviceBuffer,
>)
    ensures
        d.fits(),
        d.is(
            KernelId::Composite,
            seq![p.src, p.dst],
            seq![p.n_pixels],
            (groups_for(p.n_pixels, PIXEL_THREADS), 1, 1),
        ),
{
    let d = KernelDispatch {
        kernel: KernelId::Composite,
        buffers: vec![p.src, p.dst],
        push: vec![p.n_pixels],
        groups: (group_count(p.n_pixels, PIXEL_THREADS), 1, 1),
    };
    assert(d.buffers@ =~= seq![p.src, p.dst]);
    assert(d.push@ =~= seq![p.n_pixels]);
    d
}

/// Launch of the soft-mask kernel.
pub fn record_apply_soft_mask<'a, B: GpuBackend>(p: &SoftMaskParams<'a, B>) -> (d: KernelDispatch<
    'a,
    B::DeviceBuffer,
>)
    ensures
        d.fits(),
        d.is(
            KernelId::ApplySoftMask,
            seq![p.pixels, p.mask],
            seq![p.n_pixels],
            (groups_for(p.n_pixels, PIXEL_THREADS), 1, 1),
        ),
{
    let d = KernelDispatch {
        kernel: KernelId::ApplySoftMask,
        buffers: vec![p.pixels, p.mask],
        push: vec![p.n_pixels],
        groups: (group_count(p.n_pixels, PIXEL_THREADS), 1, 1),
    };
    assert(d.buffers@ =~= seq![p.pixels, p.mask]);
    assert(d.push@ =~= seq![p.n_pixels]);
    d
}

/// Launch of the anti-aliased fill: one workgroup for each pixel.  Segments
/// are relative to the raster, so its origin is (0.0, 0.0).
pub fn record_aa_fill<'a, B: GpuBackend>(p: &AaFillParams<'a, B>) -> (d: KernelDispatch<
    'a,
    B::DeviceBuffer,
>)
    ensures
        d.fits(),
        d.is(
            KernelId::AaFill,
            seq![p.segs, p.coverage],
            seq![p.n_segs, 0u32, 0u32, p.width, p.height, rule_word(p.fill_rule)],
            (p.width, p.height, 1),
        ),
{
    let d = KernelDispatch {
        kernel: KernelId::AaFill,
        buffers: vec![p.segs, p.coverage],
        push: vec![p.n_segs, 0, 0, p.width, p.height, rule(p.fill_rule)],
        groups: (p.width, p.height, 1),
    };
    assert(d.buffers@ =~= seq![p.segs, p.coverage]);
    assert(d.push@ =~= seq![p.n_segs, 0u32, 0u32, p.width, p.height, rule_word(p.fill_rule)]);
    d
}

/// Launch of the tile-parallel fill: one workgroup for each tile.
pub fn record_tile_fill<'a, B: GpuBackend>(p: &TileFillParams<'a, B>) -> (d: KernelDispatch<
    'a,
    B::DeviceBuffer,
>)
    ensures
        d.fits(),
        d.is(
            KernelId::TileFill,
            seq![p.records, p.tile_starts, p.tile_counts, p.coverage],
            seq![groups_for(p.width, TILE_W), p.width, p.height, rule_word(p.fill_rule)],
            (groups_for(p.width, TILE_W), groups_for(p.height, TILE_H), 1),
        ),
{
    let grid_w: u32 = group_count(p.width, TILE_W);
    let grid_h: u32 = group_count(p.height, TILE_H);
    let d = KernelDispatch {
        kernel: KernelId::TileFill,
        buffers: vec![p.records, p.tile_starts, p.tile_counts, p.coverage],
        push: vec![grid_w, p.width, p.height, rule(p.fill_rule)],
        groups: (grid_w, grid_h, 1),
    };
    assert(d.buffers@ =~= seq![p.records, p.tile_starts, p.tile_counts, p.coverage]);
    assert(d.push@ =~= seq![grid_w, p.width, p.height, rule_word(p.fill_rule)]);
    d
}

/// A table length that belongs to no grid.
pub open spec fn bad_clut(len: nat) -> ErrorModel {
    ErrorModel::Message("ICC CLUT length "@ + decimal(len) + " is not a valid grid_n^4 * 3"@)
}

/// Launch of the CMYK table kernel.  The grid size is recovered from the
/// table's length.
pub fn record_icc_clut<'a, B: GpuBackend>(p: &IccClutParams<'a, B>, backend: &B) -> (r: Result<
    KernelDispatch<'a, B::DeviceBuffer>,
    BackendError,
>)
    ensures
        match r {
            Ok(d) => d.fits() && exists|g: u32|
                2 <= g <= 255 && backend.capacity(p.clut) == #[trigger] clut_len(g as nat) && d.is(
                    KernelId::IccClut,
                    seq![p.cmyk, p.rgb, p.clut],
                    seq![g, p.n_pixels],
                    (groups_for(p.n_pixels, PIXEL_THREADS), 1, 1),
                ),
            Err(e) => e@ == bad_clut(backend.capacity(p.clut) as nat) && forall|g: nat|
                2 <= g <= 255 ==> backend.capacity(p.clut) != #[trigger] clut_len(g),
        },
{
    let len: usize = backend.device_buffer_len(p.clut);
    let grid_n: u32 = match grid_n_from_clut_len(len) {
        Some(g) => g,
        None => {
            let mut s = String::from_str("ICC CLUT length ");
            push_decimal(&mut s, len as u64);
            s.append(" is not a valid grid_n^4 * 3");
            return Err(BackendError::Message(s));
        },
    };
    let d = KernelDispatch {
        kernel: KernelId::IccClut,
        buffers: vec![p.cmyk, p.rgb, p.clut],
        push: vec![grid_n, p.n_pixels],
        groups: (group_count(p.n_pixels, PIXEL_THREADS), 1, 1),
    };
    assert(d.buffers@ =~= seq![p.cmyk, p.rgb, p.clut]);
    assert(d.push@ =~= seq![grid_n, p.n_pixels]);
    assert(backend.capacity(p.clut) == clut_len(grid_n as nat));
    Ok(d)
}

/// The kernel of a scan phase.
pub open spec fn scan_kernel(phase: ScanPhase) -> KernelId {
    match phase {
        ScanPhase::PerWorkgroup => KernelId::ScanPerWorkgroup,
        ScanPhase::BlockSums => KernelId::ScanBlockSums,
        ScanPhase::ScatterBlockSums => KernelId::ScanScatter,
    }
}

/// Launch of one scan phase.
pub fn record_scan<'a, B: GpuBackend>(p: &ScanParams<'a, B>) -> (d: KernelDispatch<
    'a,
    B::DeviceBuffer,
>)
    ensures
        d.fits(),
        d.is(
            scan_kernel(p.phase),
            seq![p.data, p.block_sums],
            seq![p.len_elems],
            p.phase.grid(p.len_elems),
        ),
{
    let kernel: KernelId = match p.phase {
        ScanPhase::PerWorkgroup => KernelId::ScanPerWorkgroup,
        ScanPhase::BlockSums => KernelId::ScanBlockSums,
        ScanPhase::ScatterBlockSums => KernelId::ScanScatter,
    };
    let d = KernelDispatch {
        kernel,
        buffers: vec![p.data, p.block_sums],
        push: vec![p.len_elems],
        groups: p.phase.dispatch_grid(p.len_elems),
    };
    assert(d.buffers@ =~= seq![p.data, p.block_sums]);
    assert(d.push@ =~= seq![p.len_elems]);
    d
}

/// Launch of the IDCT: one workgroup for each block position.
pub fn record_idct<'a, B: GpuBackend>(p: &IdctParams<'a, B>) -> (d: KernelDispatch<
    'a,
    B::DeviceBuffer,
>)
    ensures
        d.fits(),
        d.is(
            KernelId::IdctColor,
            seq![p.coefficients, p.qtables, p.dc_values, p.pixels_rgba],
            seq![
                p.width,
                p.height,
                p.num_components,
                p.blocks_wide,
                p.blocks_high,
                p.num_qtables,
            ],
            (p.blocks_wide, p.blocks_high, 1),
        ),
{
    let d = KernelDispatch {
        kernel: KernelId::IdctColor,
        buffers: vec![p.coefficients, p.qtables, p.dc_values, p.pixels_rgba],
        push: vec![
            p.width,
            p.height,
            p.num_components,
            p.blocks_wide,
            p.blocks_high,
            p.num_qtables,
        ],
        groups: (p.blocks_wide, p.blocks_high, 1),
    };
    assert(d.buffers@ =~= seq![p.coefficients, p.qtables, p.dc_values, p.pixels_rgba]);
    assert(d.push@ =~= seq![
        p.width,
        p.height,
        p.num_components,
        p.blocks_wide,
        p.blocks_high,
        p.num_qtables,
    ]);
    d
}

/// A dimension as the kernels take it: a signed word, at most `i32::MAX`.
pub open spec fn dim_word(v: u32) -> u32 {
    if v > i32::MAX {
        i32::MAX as u32
    } else {
        v
    }
}

fn dim(v: u32) -> (w: u32)
    ensures
        w == dim_word(v),
{
    if v > 0x7FFF_FFFF {
        0x7FFF_FFFF
    } else {
        v
    }
}

/// Extent from `lo` to `hi`; nothing where they are inverted.
pub open spec fn extent(lo: i32, hi: i32) -> u32 {
    if hi <= lo {
        0
    } else {
        (hi - lo) as u32
    }
}

fn span(lo: i32, hi: i32) -> (n: u32)
    ensures
        n == extent(lo, hi),
{
    if hi <= lo {
        0
    } else {
        (hi as i64 - lo as i64) as u32
    }
}

/// Launch of the blit: workgroups cover the bounding box only.
pub fn record_blit_image<'a, B: GpuBackend>(p: &BlitParams<'a, B>) -> (d: KernelDispatch<
    'a,
    B::DeviceBuffer,
>)
    ensures
        d.fits(),
        d.is(
            KernelId::BlitImage,
            seq![p.src, p.dst, p.cols, p.rows],
            seq![
                dim_word(p.src_w),
                dim_word(p.src_h),
                p.src_layout,
                dim_word(p.dst_w),
                dim_word(p.dst_h),
                p.bbox@[0] as u32,
                p.bbox@[1] as u32,
                p.bbox@[2] as u32,
                p.bbox@[3] as u32,
            ],
            (
                groups_for(extent(p.bbox@[0], p.bbox@[2]), BLIT_TILE),
                groups_for(extent(p.bbox@[1], p.bbox@[3]), BLIT_TILE),
                1,
            ),
        ),
{
    let (x0, y0, x1, y1): (i32, i32, i32, i32) = (p.bbox[0], p.bbox[1], p.bbox[2], p.bbox[3]);
    let d = KernelDispatch {
        kernel: KernelId::BlitImage,
        buffers: vec![p.src, p.dst, p.cols, p.rows],
        push: vec![
            dim(p.src_w),
            dim(p.src_h),
            p.src_layout,
            dim(p.dst_w),
            dim(p.dst_h),
            x0 as u32,
            y0 as u32,
            x1 as u32,
            y1 as u32,
        ],
        groups: (group_count(span(x0, x1), BLIT_TILE), group_count(span(y0, y1), BLIT_TILE), 1),
    };
    assert(d.buffers@ =~= seq![p.src, p.dst, p.cols, p.rows]);
    assert(d.push@ =~= seq![
        dim_word(p.src_w),
        dim_word(p.src_h),
        p.src_layout,
        dim_word(p.dst_w),
        dim_word(p.dst_h),
        p.bbox@[0] as u32,
        p.bbox@[1] as u32,
        p.bbox@[2] as u32,
        p.bbox@[3] as u32,
    ]);
    d
}

/// The optional buffers that a phase needs are there.
pub open spec fn phase_buffers_present<B: GpuBackend>(p: HuffmanParams<B>) -> bool {
    &&& p.phase.syncs() ==> p.sync_flags is Some
    &&& p.phase == HuffmanPhase::JpegPhase2InterSync ==> p.s_info_prev is Some
    &&& p.phase.redecodes() ==> p.offsets is Some && p.symbols_out is Some && p.decode_status
        is Some
    &&& p.phase.jpeg_framed() ==> p.dc_codebook is Some && p.mcu_schedule is Some
}

/// The kernel of a Huffman phase.
pub open spec fn huffman_kernel(phase: HuffmanPhase) -> KernelId {
    match phase {
        HuffmanPhase::Phase1IntraSync => KernelId::Phase1IntraSync,
        HuffmanPhase::Phase2InterSync => KernelId::Phase2InterSync,
        HuffmanPhase::Phase4Redecode => KernelId::Phase4Redecode,
        HuffmanPhase::JpegPhase1IntraSync => KernelId::JpegPhase1IntraSync,
        HuffmanPhase::JpegPhase2InterSync => KernelId::JpegPhase2InterSync,
        HuffmanPhase::JpegPhase4Redecode => KernelId::JpegPhase4Redecode,
    }
}

/// The buffers of a Huffman phase, in the order of the kernel's bindings.
pub open spec fn huffman_buffers<'a, B: GpuBackend>(p: HuffmanParams<'a, B>) -> Seq<
    &'a B::DeviceBuffer,
> {
    match p.phase {
        HuffmanPhase::Phase1IntraSync => seq![p.bitstream, p.codebook, p.s_info],
        HuffmanPhase::Phase2InterSync => seq![p.bitstream, p.codebook, p.s_info, p.sync_flags->0],
        HuffmanPhase::Phase4Redecode => seq![
            p.bitstream,
            p.codebook,
            p.s_info,
            p.offsets->0,
            p.symbols_out->0,
            p.decode_status->0,
        ],
        HuffmanPhase::JpegPhase1IntraSync => seq![
            p.bitstream,
            p.codebook,
            p.s_info,
            p.dc_codebook->0,
            p.mcu_schedule->0,
        ],
        HuffmanPhase::JpegPhase2InterSync => seq![
            p.bitstream,
            p.codebook,
            p.s_info,
            p.sync_flags->0,
            p.dc_codebook->0,
            p.mcu_schedule->0,
            p.s_info_prev->0,
        ],
        HuffmanPhase::JpegPhase4Redecode => seq![
            p.bitstream,
            p.codebook,
            p.s_info,
            p.offsets->0,
            p.symbols_out->0,
            p.decode_status->0,
            p.dc_codebook->0,
            p.mcu_schedule->0,
        ],
    }
}

/// Launch of one Huffman phase.  All phases share one scalar layout.
pub fn record_huffman<'a, B: GpuBackend>(p: &HuffmanParams<'a, B>) -> (d: KernelDispatch<
    'a,
    B::DeviceBuffer,
>)
    requires
        p.subsequence_bits > 0,
        phase_buffers_present(*p),
    ensures
        d.fits(),
        d.is(
            huffman_kernel(p.phase),
            huffman_buffers(*p),
            seq![
                p.length_bits,
                p.subsequence_bits,
                p.count() as u32,
                p.num_components,
                p.total_symbols,
                p.blocks_per_mcu,
            ],
            (groups_for(p.count() as u32, HUFFMAN_PHASE1_THREADS), 1, 1),
        ),
{
    let n: u32 = p.num_subsequences();
    let push: Vec<u32> = vec![
        p.length_bits,
        p.subsequence_bits,
        n,
        p.num_components,
        p.total_symbols,
        p.blocks_per_mcu,
    ];
    assert(push@ =~= seq![
        p.length_bits,
        p.subsequence_bits,
        p.count() as u32,
        p.num_components,
        p.total_symbols,
        p.blocks_per_mcu,
    ]);
    let (kernel, buffers) = match p.phase {
        HuffmanPhase::Phase1IntraSync => (
            KernelId::Phase1IntraSync,
            vec![p.bitstream, p.codebook, p.s_info],
        ),
        HuffmanPhase::Phase2InterSync => (
            KernelId::Phase2InterSync,
            vec![p.bitstream, p.codebook, p.s_info, p.sync_flags.unwrap()],
        ),
        HuffmanPhase::Phase4Redecode => (
            KernelId::Phase4Redecode,
            vec![
                p.bitstream,
                p.codebook,
                p.s_info,
                p.offsets.unwrap(),
                p.symbols_out.unwrap(),
                p.decode_status.unwrap(),
            ],
        ),
        HuffmanPhase::JpegPhase1IntraSync => (
            KernelId::JpegPhase1IntraSync,
            vec![
                p.bitstream,
                p.codebook,
                p.s_info,
                p.dc_codebook.unwrap(),
                p.mcu_schedule.unwrap(),
            ],
        ),
        HuffmanPhase::JpegPhase2InterSync => (
            KernelId::JpegPhase2InterSync,
            vec![
                p.bitstream,
                p.codebook,
                p.s_info,
                p.sync_flags.unwrap(),
                p.dc_codebook.unwrap(),
                p.mcu_schedule.unwrap(),
                p.s_info_prev.unwrap(),
            ],
        ),
        HuffmanPhase::JpegPhase4Redecode => (
            KernelId::JpegPhase4Redecode,
            vec![
                p.bitstream,
                p.codebook,
                p.s_info,
                p.offsets.unwrap(),
                p.symbols_out.unwrap(),
                p.decode_status.unwrap(),
                p.dc_codebook.unwrap(),
                p.mcu_schedule.unwrap(),
            ],
        ),
    };
    assert(buffers@ =~= huffman_buffers(*p));
    KernelDispatch { kernel, buffers, push, groups: (group_count(n, HUFFMAN_PHASE1_THREADS), 1, 1) }
}

/// Parameters that pass validation can be launched.
pub proof fn law_validated_phases_can_be_launched<B: GpuBackend>(
    p: HuffmanParams<B>,
    backend: &B,
)
    requires
        p.well_formed(backend),
    ensures
        p.subsequence_bits > 0,
        phase_buffers_present(p),
{
}

/// A launch has as many groups as its items take, and none too many.
pub proof fn law_no_group_is_idle(n: u32, size: u32)
    requires
        n > 0,
        size > 0,
    ensures
        (groups_for(n, size) - 1) * size < n <= groups_for(n, size) * size,
{
    let q = (n + size - 1) / (size as int);
    vstd::arithmetic::div_mod::lemma_fundamental_div_mod(n + size - 1, size as int);
    vstd::arithmetic::div_mod::lemma_mod_bound(n + size - 1, size as int);
    assert(size * q == q * size) by (nonlinear_arith);
    assert((q - 1) * size == q * size - size) by (nonlinear_arith);
    assert(0 <= q <= n) by (nonlinear_arith)
        requires
            q * size <= n + size - 1,
            q * size > n - 1,
            size > 0,
            n > 0,
    ;
}

} // verus!
