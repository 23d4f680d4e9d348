//! The compute kernels: their names, their shader blobs and the descriptor
//! bindings of their buffers.

use vstd::prelude::*;

verus! {

/// Identifier for one of the compute kernels.
#[derive(Debug, Clone, Copy, PartialEq, Eq, Structural)]
pub enum KernelId {
    /// Porter-Duff source-over of RGBA8 pixels.
    Composite,
    /// Scale alpha by a mask.
    ApplySoftMask,
    /// Jittered anti-aliased fill.
    AaFill,
    /// Tile-parallel analytical fill.
    TileFill,
    /// CMYK to RGB through a 4D table.
    IccClut,
    /// Copy an image through sampling tables.
    BlitImage,
    /// Blelloch scan, per-workgroup phase.
    ScanPerWorkgroup,
    /// Blelloch scan, single-workgroup block-sums phase.
    ScanBlockSums,
    /// Blelloch scan, scatter phase.
    ScanScatter,
    /// Parallel-Huffman phase 1.
    Phase1IntraSync,
    /// Parallel-Huffman phase 2.
    Phase2InterSync,
    /// Parallel-Huffman phase 4.
    Phase4Redecode,
    /// JPEG-framed phase 1.
    JpegPhase1IntraSync,
    /// JPEG-framed phase 2.
    JpegPhase2InterSync,
    /// JPEG-framed phase 4.
    JpegPhase4Redecode,
    /// IDCT, dequantisation and colour conversion.
    IdctColor,
}

/// Number of kernels.
pub const NUM_KERNELS: usize = 16;

/// Storage buffers of the largest kernel.
pub const MAX_STORAGE_BUFFERS: u32 = 8;

impl KernelId {
    pub open spec fn slot(self) -> int {
        match self {
            KernelId::Composite => 0,
            KernelId::ApplySoftMask => 1,
            KernelId::AaFill => 2,
            KernelId::TileFill => 3,
            KernelId::IccClut => 4,
            KernelId::BlitImage => 5,
            KernelId::ScanPerWorkgroup => 6,
            KernelId::ScanBlockSums => 7,
            KernelId::ScanScatter => 8,
            KernelId::Phase1IntraSync => 9,
            KernelId::Phase2InterSync => 10,
            KernelId::Phase4Redecode => 11,
            KernelId::JpegPhase1IntraSync => 12,
            KernelId::JpegPhase2InterSync => 13,
            KernelId::JpegPhase4Redecode => 14,
            KernelId::IdctColor => 15,
        }
    }

    /// Index into a table of compiled kernels, unique per kernel.
    #[must_use]
    pub fn slot_index(self) -> (i: usize)
        ensures
            i == self.slot(),
            i < NUM_KERNELS,
    {
        match self {
            KernelId::Composite => 0,
            KernelId::ApplySoftMask => 1,
            KernelId::AaFill => 2,
            KernelId::TileFill => 3,
            KernelId::IccClut => 4,
            KernelId::BlitImage => 5,
            KernelId::ScanPerWorkgroup => 6,
            KernelId::ScanBlockSums => 7,
            KernelId::ScanScatter => 8,
            KernelId::Phase1IntraSync => 9,
            KernelId::Phase2InterSync => 10,
            KernelId::Phase4Redecode => 11,
            KernelId::JpegPhase1IntraSync => 12,
            KernelId::JpegPhase2InterSync => 13,
            KernelId::JpegPhase4Redecode => 14,
            KernelId::IdctColor => 15,
        }
    }

    pub open spec fn label_text(self) -> Seq<char> {
        match self {
            KernelId::Composite => "composite_rgba8"@,
            KernelId::ApplySoftMask => "apply_soft_mask"@,
            KernelId::AaFill => "aa_fill"@,
            KernelId::TileFill => "tile_fill"@,
            KernelId::IccClut => "icc_cmyk_clut"@,
            KernelId::BlitImage => "blit_image"@,
            KernelId::ScanPerWorkgroup => "scan_per_workgroup"@,
            KernelId::ScanBlockSums => "scan_block_sums"@,
            KernelId::ScanScatter => "scan_scatter"@,
            KernelId::Phase1IntraSync => "phase1_intra_sync"@,
            KernelId::Phase2InterSync => "phase2_inter_sync"@,
            KernelId::Phase4Redecode => "phase4_redecode"@,
            KernelId::JpegPhase1IntraSync => "jpeg_phase1_intra_sync"@,
            KernelId::JpegPhase2InterSync => "jpeg_phase2_inter_sync"@,
            KernelId::JpegPhase4Redecode => "jpeg_phase4_redecode"@,
            KernelId::IdctColor => "idct_dequant_colour"@,
        }
    }

    /// Kernel name for diagnostics.
    #[must_use]
    pub fn label(self) -> (s: &'static str)
        ensures
            s@ == self.label_text(),
    {
        match self {
            KernelId::Composite => "composite_rgba8",
            KernelId::ApplySoftMask => "apply_soft_mask",
            KernelId::AaFill => "aa_fill",
            KernelId::TileFill => "tile_fill",
            KernelId::IccClut => "icc_cmyk_clut",
            KernelId::BlitImage => "blit_image",
            KernelId::ScanPerWorkgroup => "scan_per_workgroup",
            KernelId::ScanBlockSums => "scan_block_sums",
            KernelId::ScanScatter => "scan_scatter",
            KernelId::Phase1IntraSync => "phase1_intra_sync",
            KernelId::Phase2InterSync => "phase2_inter_sync",
            KernelId::Phase4Redecode => "phase4_redecode",
            KernelId::JpegPhase1IntraSync => "jpeg_phase1_intra_sync",
            KernelId::JpegPhase2InterSync => "jpeg_phase2_inter_sync",
            KernelId::JpegPhase4Redecode => "jpeg_phase4_redecode",
            KernelId::IdctColor => "idct_dequant_colour",
        }
    }

    pub open spec fn shader_text(self) -> Seq<char> {
        match self {
            KernelId::Composite => "composite_rgba8.spv"@,
            KernelId::ApplySoftMask => "apply_soft_mask.spv"@,
            KernelId::AaFill => "aa_fill.spv"@,
            KernelId::TileFill => "tile_fill.spv"@,
            KernelId::IccClut => "icc_clut.spv"@,
            KernelId::BlitImage => "blit_image.spv"@,
            KernelId::ScanPerWorkgroup => "blelloch_scan.spv"@,
            KernelId::ScanBlockSums => "blelloch_scan.spv"@,
            KernelId::ScanScatter => "blelloch_scan.spv"@,
            KernelId::Phase1IntraSync => "parallel_huffman.spv"@,
            KernelId::Phase2InterSync => "parallel_huffman.spv"@,
            KernelId::Phase4Redecode => "parallel_huffman.spv"@,
            KernelId::JpegPhase1IntraSync => "parallel_huffman.spv"@,
            KernelId::JpegPhase2InterSync => "parallel_huffman.spv"@,
            KernelId::JpegPhase4Redecode => "parallel_huffman.spv"@,
            KernelId::IdctColor => "idct_color.spv"@,
        }
    }

    /// File name of the kernel's SPIR-V blob.  The scan phases share one
    /// blob, and so do the Huffman phases.
    #[must_use]
    pub fn spirv(self) -> (s: &'static str)
        ensures
            s@ == self.shader_text(),
    {
        match self {
            KernelId::Composite => "composite_rgba8.spv",
            KernelId::ApplySoftMask => "apply_soft_mask.spv",
            KernelId::AaFill => "aa_fill.spv",
            KernelId::TileFill => "tile_fill.spv",
            KernelId::IccClut => "icc_clut.spv",
            KernelId::BlitImage => "blit_image.spv",
            KernelId::ScanPerWorkgroup => "blelloch_scan.spv",
            KernelId::ScanBlockSums => "blelloch_scan.spv",
            KernelId::ScanScatter => "blelloch_scan.spv",
            KernelId::Phase1IntraSync => "parallel_huffman.spv",
            KernelId::Phase2InterSync => "parallel_huffman.spv",
            KernelId::Phase4Redecode => "parallel_huffman.spv",
            KernelId::JpegPhase1IntraSync => "parallel_huffman.spv",
            KernelId::JpegPhase2InterSync => "parallel_huffman.spv",
            KernelId::JpegPhase4Redecode => "parallel_huffman.spv",
            KernelId::IdctColor => "idct_color.spv",
        }
    }

    pub open spec fn entry_text(self) -> Seq<char> {
        match self {
            KernelId::Composite => "main"@,
            KernelId::ApplySoftMask => "main"@,
            KernelId::AaFill => "main"@,
            KernelId::TileFill => "main"@,
            KernelId::IccClut => "main"@,
            KernelId::BlitImage => "main"@,
            KernelId::ScanPerWorkgroup => "scan_per_workgroup"@,
            KernelId::ScanBlockSums => "scan_block_sums"@,
            KernelId::ScanScatter => "scan_scatter"@,
            KernelId::Phase1IntraSync => "phase1_intra_sync"@,
            KernelId::Phase2InterSync => "phase2_inter_sync"@,
            KernelId::Phase4Redecode => "phase4_redecode"@,
            KernelId::JpegPhase1IntraSync => "jpeg_phase1_intra_sync"@,
            KernelId::JpegPhase2InterSync => "jpeg_phase2_inter_sync"@,
            KernelId::JpegPhase4Redecode => "jpeg_phase4_redecode"@,
            KernelId::IdctColor => "main"@,
        }
    }

    /// Entry-point name within the blob: the source name where a blob has
    /// several entry points, else `main`.
    #[must_use]
    pub fn entry_point(self) -> (s: &'static str)
        ensures
            s@ == self.entry_text(),
    {
        match self {
            KernelId::Composite => "main",
            KernelId::ApplySoftMask => "main",
            KernelId::AaFill => "main",
            KernelId::TileFill => "main",
            KernelId::IccClut => "main",
            KernelId::BlitImage => "main",
            KernelId::ScanPerWorkgroup => "scan_per_workgroup",
            KernelId::ScanBlockSums => "scan_block_sums",
            KernelId::ScanScatter => "scan_scatter",
            KernelId::Phase1IntraSync => "phase1_intra_sync",
            KernelId::Phase2InterSync => "phase2_inter_sync",
            KernelId::Phase4Redecode => "phase4_redecode",
            KernelId::JpegPhase1IntraSync => "jpeg_phase1_intra_sync",
            KernelId::JpegPhase2InterSync => "jpeg_phase2_inter_sync",
            KernelId::JpegPhase4Redecode => "jpeg_phase4_redecode",
            KernelId::IdctColor => "main",
        }
    }

    /// The binding numbers of the kernel's buffers.
    pub open spec fn bindings(self) -> Seq<u32> {
        match self {
            KernelId::Composite => seq![0u32, 1u32],
            KernelId::ApplySoftMask => seq![0u32, 1u32],
            KernelId::AaFill => seq![0u32, 1u32],
            KernelId::TileFill => seq![0u32, 1u32, 2u32, 3u32],
            KernelId::IccClut => seq![0u32, 1u32, 2u32],
            KernelId::BlitImage => seq![0u32, 1u32, 2u32, 3u32],
            KernelId::ScanPerWorkgroup => seq![0u32, 1u32],
            KernelId::ScanBlockSums => seq![0u32, 1u32],
            KernelId::ScanScatter => seq![0u32, 1u32],
            KernelId::Phase1IntraSync => seq![0u32, 1u32, 2u32],
            KernelId::Phase2InterSync => seq![0u32, 1u32, 2u32, 3u32],
            KernelId::Phase4Redecode => seq![0u32, 1u32, 2u32, 4u32, 5u32, 6u32],
            KernelId::JpegPhase1IntraSync => seq![0u32, 1u32, 2u32, 7u32, 8u32],
            KernelId::JpegPhase2InterSync => seq![0u32, 1u32, 2u32, 3u32, 7u32, 8u32, 9u32],
            KernelId::JpegPhase4Redecode => seq![0u32, 1u32, 2u32, 4u32, 5u32, 6u32, 7u32, 8u32],
            KernelId::IdctColor => seq![0u32, 1u32, 2u32, 3u32],
        }
    }

    /// Descriptor-set binding of each storage buffer, in the order in which
    /// buffers are supplied.  Kernels that share a blob skip the bindings
    /// that only their siblings use.
    #[must_use]
    pub fn binding_slots(self) -> (slots: Vec<u32>)
        ensures
            slots@ == self.bindings(),
    {
        let slots: Vec<u32> = match self {
            KernelId::Composite => vec![0, 1],
            KernelId::ApplySoftMask => vec![0, 1],
            KernelId::AaFill => vec![0, 1],
            KernelId::TileFill => vec![0, 1, 2, 3],
            KernelId::IccClut => vec![0, 1, 2],
            KernelId::BlitImage => vec![0, 1, 2, 3],
            KernelId::ScanPerWorkgroup => vec![0, 1],
            KernelId::ScanBlockSums => vec![0, 1],
            KernelId::ScanScatter => vec![0, 1],
            KernelId::Phase1IntraSync => vec![0, 1, 2],
            KernelId::Phase2InterSync => vec![0, 1, 2, 3],
            KernelId::Phase4Redecode => vec![0, 1, 2, 4, 5, 6],
            KernelId::JpegPhase1IntraSync => vec![0, 1, 2, 7, 8],
            KernelId::JpegPhase2InterSync => vec![0, 1, 2, 3, 7, 8, 9],
            KernelId::JpegPhase4Redecode => vec![0, 1, 2, 4, 5, 6, 7, 8],
            KernelId::IdctColor => vec![0, 1, 2, 3],
        };
        assert(slots@ =~= self.bindings());
        slots
    }

    /// Number of storage buffers.
    #[must_use]
    pub fn n_storage_buffers(self) -> (n: u32)
        ensures
            n == self.bindings().len(),
            n <= MAX_STORAGE_BUFFERS,
    {
        match self {
            KernelId::Composite => 2,
            KernelId::ApplySoftMask => 2,
            KernelId::AaFill => 2,
            KernelId::TileFill => 4,
            KernelId::IccClut => 3,
            KernelId::BlitImage => 4,
            KernelId::ScanPerWorkgroup => 2,
            KernelId::ScanBlockSums => 2,
            KernelId::ScanScatter => 2,
            KernelId::Phase1IntraSync => 3,
            KernelId::Phase2InterSync => 4,
            KernelId::Phase4Redecode => 6,
            KernelId::JpegPhase1IntraSync => 5,
            KernelId::JpegPhase2InterSync => 7,
            KernelId::JpegPhase4Redecode => 8,
            KernelId::IdctColor => 4,
        }
    }
}

/// Every kernel has a slot of its own.
pub proof fn law_slot_indices_are_unique(a: KernelId, b: KernelId)
    requires
        a.slot() == b.slot(),
    ensures
        a == b,
        0 <= a.slot() < NUM_KERNELS,
{
}

/// No two buffers of a kernel share a binding, and none goes beyond the ten
/// bindings that the shaders declare.
pub proof fn law_bindings_are_distinct(k: KernelId, i: int, j: int)
    requires
        0 <= i < j < k.bindings().len(),
    ensures
        k.bindings()[i] < k.bindings()[j] < 10,
{
}

} // verus!
