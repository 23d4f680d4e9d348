//! Launches on the CUDA stream: buffers and scalars in the order of each
//! kernel's signature.
//!
//! The kernels are the Vulkan back end's, but their arguments are ordered
//! otherwise, and each Huffman phase takes only the scalars it reads.

use super::error::{BackendError, GpuBackend};
use super::huffman_params::{HuffmanParams, HuffmanPhase};
use super::idct_params::IdctParams;
use super::kernels::KernelId;
use super::launch::{
    bad_clut, groups_for, huffman_kernel, lemma_groups_cover, phase_buffers_present, rule_word,
    scan_kernel, TILE_W,
};
use super::params::{
    clut_len, grid_n_from_clut_len, AaFillParams, BlitParams, CompositeParams, IccClutParams,
    SoftMaskParams, TileFillParams,
};
use super::scan_params::{ScanParams, ScanPhase};
use crate::blit::{launch_blit_image_async, planned_blit, BlitBbox, BlitError, BlitLaunch};
use crate::text::push_decimal;
use vstd::prelude::*;
use vstd::string::*;

verus! {

/// One launch: the kernel's buffers, and behind them its scalars.
#[derive(Debug)]
pub struct CudaLaunch<'a, D> {
    pub kernel: KernelId,
    pub buffers: Vec<&'a D>,
    pub scalars: Vec<u32>,
}

impl<'a, D> CudaLaunch<'a, D> {
    /// The launch, part by part.
    pub open spec fn is(&self, kernel: KernelId, buffers: Seq<&'a D>, scalars: Seq<u32>) -> bool {
        &&& self.kernel == kernel
        &&& self.buffers@ == buffers
        &&& self.scalars@ == scalars
    }
}

fn rule(fill_rule: u8) -> (w: u32)
    ensures
        w == rule_word(fill_rule),
{
    if fill_rule != 0 {
        1
    } else {
        0
    }
}

/// Launch of the compositing kernel.
pub fn record_composite<'a, B: GpuBackend>(p: &CompositeParams<'a, B>) -> (l: CudaLaunch<
    'a,
    B::DeviceBuffer,
>)
    ensures
        l.is(KernelId::Composite, seq![p.src, p.dst], seq![p.n_pixels]),
{
    let l = CudaLaunch {
        kernel: KernelId::Composite,
        buffers: vec![p.src, p.dst],
        scalars: vec![p.n_pixels],
    };
    assert(l.buffers@ =~= seq![p.src, p.dst]);
    assert(l.scalars@ =~= seq![p.n_pixels]);
    l
}

/// Launch of the soft-mask kernel.
pub fn record_apply_soft_mask<'a, B: GpuBackend>(p: &SoftMaskParams<'a, B>) -> (l: CudaLaunch<
    'a,
    B::DeviceBuffer,
>)
    ensures
        l.is(KernelId::ApplySoftMask, seq![p.pixels, p.mask], seq![p.n_pixels]),
{
    let l = CudaLaunch {
        kernel: KernelId::ApplySoftMask,
        buffers: vec![p.pixels, p.mask],
        scalars: vec![p.n_pixels],
    };
    assert(l.buffers@ =~= seq![p.pixels, p.mask]);
    assert(l.scalars@ =~= seq![p.n_pixels]);
    l
}

/// Launch of the image blit: its buffers are the image, the page and the two
/// sampling tables.
pub fn record_blit_image<'a, B: GpuBackend>(p: &BlitParams<'a, B>, backend: &B) -> (r: Result<
    Option<BlitLaunch>,
    BlitError,
>)
    requires
        p.src_layout <= 1,
    ensures
        r == planned_blit(
            (p.src_w, p.src_h),
            p.src_layout as i32,
            (p.dst_w, p.dst_h),
            BlitBbox { x0: p.bbox@[0], y0: p.bbox@[1], x1: p.bbox@[2], y1: p.bbox@[3] },
            backend.capacity(p.cols),
            backend.capacity(p.rows),
        ),
{
    let bbox = BlitBbox { x0: p.bbox[0], y0: p.bbox[1], x1: p.bbox[2], y1: p.bbox[3] };
    launch_blit_image_async(
        (p.src_w, p.src_h),
        p.src_layout as i32,
        (p.dst_w, p.dst_h),
        bbox,
        backend.device_buffer_len(p.cols),
        backend.device_buffer_len(p.rows),
    )
}

/// Launch of the anti-aliased fill, with the raster's origin at (0.0, 0.0).
pub fn record_aa_fill<'a, B: GpuBackend>(p: &AaFillParams<'a, B>) -> (l: CudaLaunch<
    'a,
    B::DeviceBuffer,
>)
    ensures
        l.is(
            KernelId::AaFill,
            seq![p.segs, p.coverage],
            seq![p.n_segs, 0u32, 0u32, p.width, p.height, rule_word(p.fill_rule)],
        ),
{
    let l = CudaLaunch {
        kernel: KernelId::AaFill,
        buffers: vec![p.segs, p.coverage],
        scalars: vec![p.n_segs, 0, 0, p.width, p.height, rule(p.fill_rule)],
    };
    assert(l.buffers@ =~= seq![p.segs, p.coverage]);
    assert(l.scalars@ =~= seq![p.n_segs, 0u32, 0u32, p.width, p.height, rule_word(p.fill_rule)]);
    l
}

/// Launch of the tile-parallel fill.
pub fn record_tile_fill<'a, B: GpuBackend>(p: &TileFillParams<'a, B>) -> (l: CudaLaunch<
    'a,
    B::DeviceBuffer,
>)
    ensures
        l.is(
            KernelId::TileFill,
            seq![p.records, p.tile_starts, p.tile_counts, p.coverage],
            seq![groups_for(p.width, TILE_W), p.width, p.height, rule_word(p.fill_rule)],
        ),
{
    proof {
        lemma_groups_cover(p.width, TILE_W);
    }
    let grid_w: u32 = ((p.width as u64 + TILE_W as u64 - 1) / TILE_W as u64) as u32;
    let l = CudaLaunch {
        kernel: KernelId::TileFill,
        buffers: vec![p.records, p.tile_starts, p.tile_counts, p.coverage],
        scalars: vec![grid_w, p.width, p.height, rule(p.fill_rule)],
    };
    assert(l.buffers@ =~= seq![p.records, p.tile_starts, p.tile_counts, p.coverage]);
    assert(l.scalars@ =~= seq![grid_w, p.width, p.height, rule_word(p.fill_rule)]);
    l
}

/// Launch of the CMYK table kernel.  The grid size is recovered from the
/// table's length.
pub fn record_icc_clut<'a, B: GpuBackend>(p: &IccClutParams<'a, B>, backend: &B) -> (r: Result<
    CudaLaunch<'a, B::DeviceBuffer>,
    BackendError,
>)
    ensures
        match r {
            Ok(l) => exists|g: u32|
                2 <= g <= 255 && backend.capacity(p.clut) == #[trigger] clut_len(g as nat) && l.is(
                    KernelId::IccClut,
                    seq![p.cmyk, p.rgb, p.clut],
                    seq![g, p.n_pixels],
                ),
            Err(e) => e@ == bad_clut(backend.capacity(p.clut) as nat) && forall|g: nat|
                2 <= g <= 255 ==> backend.capacity(p.clut) != #[trigger] clut_len(g),
        },
{
    let len: usize = backend.device_buffer_len(p.clut);
    let grid_n: u32 = match grid_n_from_clut_len(len) {
        Some(g) => g,
        None => {
            let mut s = String::from_str("ICC CLUT length ");
            push_decimal(&mut s, len as u64);
            s.append(" is not a valid grid_n^4 * 3");
            return Err(BackendError::Message(s));
        },
    };
    let l = CudaLaunch {
        kernel: KernelId::IccClut,
        buffers: vec![p.cmyk, p.rgb, p.clut],
        scalars: vec![grid_n, p.n_pixels],
    };
    assert(l.buffers@ =~= seq![p.cmyk, p.rgb, p.clut]);
    assert(l.scalars@ =~= seq![grid_n, p.n_pixels]);
    assert(backend.capacity(p.clut) == clut_len(grid_n as nat));
    Ok(l)
}

/// Launch of one scan phase.
pub fn record_scan<'a, B: GpuBackend>(p: &ScanParams<'a, B>) -> (l: CudaLaunch<
    'a,
    B::DeviceBuffer,
>)
    ensures
        l.is(scan_kernel(p.phase), seq![p.data, p.block_sums], seq![p.len_elems]),
{
    let kernel: KernelId = match p.phase {
        ScanPhase::PerWorkgroup => KernelId::ScanPerWorkgroup,
        ScanPhase::BlockSums => KernelId::ScanBlockSums,
        ScanPhase::ScatterBlockSums => KernelId::ScanScatter,
    };
    let l = CudaLaunch {
        kernel,
        buffers: vec![p.data, p.block_sums],
        scalars: vec![p.len_elems],
    };
    assert(l.buffers@ =~= seq![p.data, p.block_sums]);
    assert(l.scalars@ =~= seq![p.len_elems]);
    l
}

/// Launch of the IDCT.
pub fn record_idct<'a, B: GpuBackend>(p: &IdctParams<'a, B>) -> (l: CudaLaunch<
    'a,
    B::DeviceBuffer,
>)
    ensures
        l.is(
            KernelId::IdctColor,
            seq![p.coefficients, p.qtables, p.dc_values, p.pixels_rgba],
            seq![
                p.width,
                p.height,
                p.num_components,
                p.blocks_wide,
                p.blocks_high,
                p.num_qtables,
            ],
        ),
{
    let l = CudaLaunch {
        kernel: KernelId::IdctColor,
        buffers: vec![p.coefficients, p.qtables, p.dc_values, p.pixels_rgba],
        scalars: vec![
            p.width,
            p.height,
            p.num_components,
            p.blocks_wide,
            p.blocks_high,
            p.num_qtables,
        ],
    };
    assert(l.buffers@ =~= seq![p.coefficients, p.qtables, p.dc_values, p.pixels_rgba]);
    assert(l.scalars@ =~= seq![
        p.width,
        p.height,
        p.num_components,
        p.blocks_wide,
        p.blocks_high,
        p.num_qtables,
    ]);
    l
}

/// The buffers of a Huffman phase in the order of its signature.
pub open spec fn huffman_arguments<'a, B: GpuBackend>(p: HuffmanParams<'a, B>) -> Seq<
    &'a B::DeviceBuffer,
> {
    match p.phase {
        HuffmanPhase::Phase1IntraSync => seq![
            p.bitstream,
            p.codebook,
            p.s_info,
        ],
        HuffmanPhase::Phase2InterSync => seq![
            p.bitstream,
            p.codebook,
            p.s_info,
            p.sync_flags->0,
        ],
        HuffmanPhase::Phase4Redecode => seq![
            p.bitstream,
            p.codebook,
            p.s_info,
            p.offsets->0,
            p.symbols_out->0,
            p.decode_status->0,
        ],
        HuffmanPhase::JpegPhase1IntraSync => seq![
            p.bitstream,
            p.codebook,
            p.dc_codebook->0,
            p.mcu_schedule->0,
            p.s_info,
        ],
        HuffmanPhase::JpegPhase2InterSync => seq![
            p.bitstream,
            p.codebook,
            p.dc_codebook->0,
            p.mcu_schedule->0,
            p.s_info_prev->0,
            p.s_info,
            p.sync_flags->0,
        ],
        HuffmanPhase::JpegPhase4Redecode => seq![
            p.bitstream,
            p.codebook,
            p.dc_codebook->0,
            p.mcu_schedule->0,
            p.s_info,
            p.offsets->0,
            p.symbols_out->0,
            p.decode_status->0,
        ],
    }
}

/// The scalars of a Huffman phase in the order of its signature: the stream's
/// length, the size of a subsequence or of the output, the number of
/// subsequences, and the components or the blocks of an MCU.
pub open spec fn huffman_scalars<'a, B: GpuBackend>(p: HuffmanParams<'a, B>) -> Seq<u32> {
    let n = p.count() as u32;
    let size = match p.phase {
        HuffmanPhase::Phase4Redecode | HuffmanPhase::JpegPhase4Redecode => p.total_symbols,
        _ => p.subsequence_bits,
    };
    let parts = if p.phase.jpeg_framed() {
        p.blocks_per_mcu
    } else {
        p.num_components
    };
    seq![p.length_bits, size, n, parts]
}

/// Launch of one Huffman phase.
pub fn record_huffman<'a, B: GpuBackend>(p: &HuffmanParams<'a, B>) -> (l: CudaLaunch<
    'a,
    B::DeviceBuffer,
>)
    requires
        p.subsequence_bits > 0,
        phase_buffers_present(*p),
    ensures
        l.is(huffman_kernel(p.phase), huffman_arguments(*p), huffman_scalars(*p)),
{
    let n: u32 = p.num_subsequences();
    let (kernel, buffers, scalars) = match p.phase {
        HuffmanPhase::Phase1IntraSync => (
            KernelId::Phase1IntraSync,
            vec![
                p.bitstream,
                p.codebook,
                p.s_info,
            ],
            vec![p.length_bits, p.subsequence_bits, n, p.num_components],
        ),
        HuffmanPhase::Phase2InterSync => (
            KernelId::Phase2InterSync,
            vec![
                p.bitstream,
                p.codebook,
                p.s_info,
                p.sync_flags.unwrap(),
            ],
            vec![p.length_bits, p.subsequence_bits, n, p.num_components],
        ),
        HuffmanPhase::Phase4Redecode => (
            KernelId::Phase4Redecode,
            vec![
                p.bitstream,
                p.codebook,
                p.s_info,
                p.offsets.unwrap(),
                p.symbols_out.unwrap(),
                p.decode_status.unwrap(),
            ],
            vec![p.length_bits, p.total_symbols, n, p.num_components],
        ),
        HuffmanPhase::JpegPhase1IntraSync => (
            KernelId::JpegPhase1IntraSync,
            vec![
                p.bitstream,
                p.codebook,
                p.dc_codebook.unwrap(),
                p.mcu_schedule.unwrap(),
                p.s_info,
            ],
            vec![p.length_bits, p.subsequence_bits, n, p.blocks_per_mcu],
        ),
        HuffmanPhase::JpegPhase2InterSync => (
            KernelId::JpegPhase2InterSync,
            vec![
                p.bitstream,
                p.codebook,
                p.dc_codebook.unwrap(),
                p.mcu_schedule.unwrap(),
                p.s_info_prev.unwrap(),
                p.s_info,
                p.sync_flags.unwrap(),
            ],
            vec![p.length_bits, p.subsequence_bits, n, p.blocks_per_mcu],
        ),
        HuffmanPhase::JpegPhase4Redecode => (
            KernelId::JpegPhase4Redecode,
            vec![
                p.bitstream,
                p.codebook,
                p.dc_codebook.unwrap(),
                p.mcu_schedule.unwrap(),
                p.s_info,
                p.offsets.unwrap(),
                p.symbols_out.unwrap(),
                p.decode_status.unwrap(),
            ],
            vec![p.length_bits, p.total_symbols, n, p.blocks_per_mcu],
        ),
    };
    assert(buffers@ =~= huffman_arguments(*p));
    assert(scalars@ =~= huffman_scalars(*p));
    CudaLaunch { kernel, buffers, scalars }
}

/// Both back ends give a phase the same buffers, each in its own order.
pub proof fn law_back_ends_launch_the_same_buffers<'a, B: GpuBackend>(
    p: HuffmanParams<'a, B>,
    b: &'a B::DeviceBuffer,
)
    ensures
        huffman_arguments(p).contains(b) <==> super::launch::huffman_buffers(p).contains(b),
        huffman_arguments(p).len() == super::launch::huffman_buffers(p).len(),
{
    let c = huffman_arguments(p);
    let v = super::launch::huffman_buffers(p);
    if p.phase == HuffmanPhase::JpegPhase1IntraSync {
        assert(c[0] == v[0] && c[1] == v[1] && c[2] == v[3] && c[3] == v[4] && c[4] == v[2]);
        assert(v[2] == c[4] && v[3] == c[2] && v[4] == c[3]);
    } else if p.phase == HuffmanPhase::JpegPhase2InterSync {
        assert(c[0] == v[0] && c[1] == v[1] && c[2] == v[4] && c[3] == v[5] && c[4] == v[6] && c[5]
            == v[2] && c[6] == v[3]);
    } else if p.phase == HuffmanPhase::JpegPhase4Redecode {
        assert(c[0] == v[0] && c[1] == v[1] && c[2] == v[6] && c[3] == v[7] && c[4] == v[2] && c[5]
            == v[3] && c[6] == v[4] && c[7] == v[5]);
    } else {
        assert(c =~= v);
    }
    if c.contains(b) {
        let i = choose|i: int| 0 <= i < c.len() && c[i] == b;
        assert(exists|j: int| 0 <= j < v.len() && v[j] == b);
    }
    if v.contains(b) {
        let i = choose|i: int| 0 <= i < v.len() && v[i] == b;
        assert(exists|j: int| 0 <= j < c.len() && c[j] == b);
    }
}

} // verus!
