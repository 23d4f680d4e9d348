use gpu::backend::error::{BackendError, SizedBuffers};
use gpu::backend::huffman_params::{HuffmanParams, HuffmanPhase, Phase4FailureKind};
use gpu::backend::params::{grid_n_from_clut_len, BlitParams};
use gpu::backend::scan_params::{ScanParams, ScanPhase, SCAN_MAX_BLOCKS, SCAN_WORKGROUP_SIZE};

#[test]
fn round_trips_typical_grids() {
    assert_eq!(grid_n_from_clut_len(17 * 17 * 17 * 17 * 3), Some(17));
    assert_eq!(grid_n_from_clut_len(33 * 33 * 33 * 33 * 3), Some(33));
}

#[test]
fn rejects_non_multiple_of_3() {
    assert_eq!(grid_n_from_clut_len(83_521 * 3 + 1), None);
}

#[test]
fn rejects_non_4th_power() {
    assert_eq!(grid_n_from_clut_len(100 * 3), None);
}

/// Large buffers, and sampling tables sized exactly for a 100 x 100 box.
fn ok_blit() -> BlitParams<'static, SizedBuffers> {
    BlitParams {
        src: &usize::MAX,
        dst: &usize::MAX,
        cols: &1600,
        rows: &1600,
        src_w: 100,
        src_h: 100,
        src_layout: 0,
        dst_w: 200,
        dst_h: 200,
        bbox: [0, 0, 100, 100],
    }
}

#[test]
fn validate_accepts_valid_blit_params() {
    ok_blit()
        .validate(&SizedBuffers)
        .expect("valid params should pass");
}

#[test]
fn validate_rejects_zero_src_dim() {
    let mut p = ok_blit();
    p.src_w = 0;
    let err = p.validate(&SizedBuffers).unwrap_err().message();
    assert!(err.contains("src dimensions"), "{err}");
}

#[test]
fn validate_rejects_zero_dst_dim() {
    let mut p = ok_blit();
    p.dst_h = 0;
    let err = p.validate(&SizedBuffers).unwrap_err().message();
    assert!(err.contains("dst dimensions"), "{err}");
}

#[test]
fn validate_rejects_inverted_bbox() {
    let mut p = ok_blit();
    p.bbox = [50, 0, 10, 100]; // x0 > x1
    let err = p.validate(&SizedBuffers).unwrap_err().message();
    assert!(err.contains("bbox"), "{err}");
}

#[test]
fn validate_rejects_short_cols_table() {
    let mut p = ok_blit();
    p.bbox = [0, 0, 101, 100];
    let err = p.validate(&SizedBuffers).unwrap_err().message();
    assert!(err.contains("cols table"), "{err}");
}

#[test]
fn validate_rejects_short_rows_table() {
    let mut p = ok_blit();
    p.bbox = [0, 0, 100, 101];
    let err = p.validate(&SizedBuffers).unwrap_err().message();
    assert!(err.contains("rows table"), "{err}");
}

#[test]
fn validate_accepts_empty_bbox_with_empty_tables() {
    let empty: usize = 0;
    let mut p = ok_blit();
    p.bbox = [10, 10, 10, 10];
    p.cols = &empty;
    p.rows = &empty;
    p.validate(&SizedBuffers)
        .expect("an empty bbox needs no table entries");
}

#[test]
fn validate_accepts_layout_0_rgb() {
    let mut p = ok_blit();
    p.src_layout = 0;
    p.validate(&SizedBuffers).expect("layout 0 (RGB) is valid");
}

#[test]
fn validate_accepts_layout_1_gray() {
    let mut p = ok_blit();
    p.src_layout = 1;
    p.validate(&SizedBuffers).expect("layout 1 (Gray) is valid");
}

#[test]
fn validate_rejects_layout_2_mask() {
    let mut p = ok_blit();
    p.src_layout = 2;
    let err = p.validate(&SizedBuffers).unwrap_err().message();
    assert!(err.contains("Mask"), "{err}");
    assert!(err.contains("CPU-only"), "{err}");
}

#[test]
fn validate_rejects_unknown_layout() {
    let mut p = ok_blit();
    p.src_layout = 999;
    let err = p.validate(&SizedBuffers).unwrap_err().message();
    assert!(err.contains("src_layout"), "{err}");
}

// --- ScanParams ---

/// Build a `ScanParams` with both buffers sized to `data_bytes` /
/// `block_sums_bytes` respectively (the test consults
/// `device_buffer_len`, which for `SizedBuffers` is identity over
/// the `usize` buffer).
fn scan_params<'a>(
    data_bytes: &'a usize,
    block_sums_bytes: &'a usize,
    len_elems: u32,
    phase: ScanPhase,
) -> ScanParams<'a, SizedBuffers> {
    ScanParams {
        data: data_bytes,
        block_sums: block_sums_bytes,
        len_elems,
        phase,
    }
}

#[test]
fn scan_phase_kernel_arg_is_stable() {
    // The kernel reads this; the encoding must not drift.
    assert_eq!(ScanPhase::PerWorkgroup.as_kernel_arg(), 0);
    assert_eq!(ScanPhase::BlockSums.as_kernel_arg(), 1);
    assert_eq!(ScanPhase::ScatterBlockSums.as_kernel_arg(), 2);
}

#[test]
fn scan_validate_accepts_minimal_valid() {
    let data = 4096usize;
    let block_sums = 16usize;
    let p = scan_params(&data, &block_sums, 1024, ScanPhase::PerWorkgroup);
    p.validate(&SizedBuffers)
        .expect("4 KiB data + 1024 elems is valid");
}

#[test]
fn scan_validate_rejects_zero_len() {
    let data = 4096usize;
    let block_sums = 16usize;
    let p = scan_params(&data, &block_sums, 0, ScanPhase::PerWorkgroup);
    let err = p.validate(&SizedBuffers).unwrap_err().message();
    assert!(err.contains("len_elems"), "{err}");
}

#[test]
fn scan_validate_rejects_undersized_data_buffer() {
    // 1024 elems * 4 bytes = 4096 bytes needed; provide 4095.
    let data = 4095usize;
    let block_sums = 16usize;
    let p = scan_params(&data, &block_sums, 1024, ScanPhase::PerWorkgroup);
    let err = p.validate(&SizedBuffers).unwrap_err().message();
    assert!(err.contains("data buffer"), "{err}");
}

#[test]
fn scan_validate_rejects_undersized_block_sums() {
    // 2049 elems → block_count = ceil(2049/1024) = 3 → 12 bytes needed.
    let data = 2049 * 4usize;
    let block_sums = 4usize; // only room for 1 block
    let p = scan_params(&data, &block_sums, 2049, ScanPhase::PerWorkgroup);
    let err = p.validate(&SizedBuffers).unwrap_err().message();
    assert!(err.contains("block_sums buffer"), "{err}");
}

#[test]
fn scan_validate_rejects_too_many_blocks() {
    // len_elems = 1024 * 1024 + 1 → block_count = 1025 > SCAN_MAX_BLOCKS.
    let data = (1024 * 1024 + 1) * 4usize;
    let block_sums = 1025 * 4usize;
    let p = scan_params(&data, &block_sums, 1024 * 1024 + 1, ScanPhase::PerWorkgroup);
    let err = p.validate(&SizedBuffers).unwrap_err().message();
    assert!(err.contains("block_count"), "{err}");
    assert!(err.contains("recursive scan"), "{err}");
}

#[test]
fn scan_validate_accepts_at_max_blocks() {
    // Exactly SCAN_MAX_BLOCKS blocks (the upper limit).
    let max_elems = SCAN_MAX_BLOCKS * 2 * SCAN_WORKGROUP_SIZE;
    let data = (max_elems as usize) * 4;
    let block_sums = (SCAN_MAX_BLOCKS as usize) * 4;
    let p = scan_params(&data, &block_sums, max_elems, ScanPhase::PerWorkgroup);
    p.validate(&SizedBuffers)
        .expect("exactly SCAN_MAX_BLOCKS is valid");
}

/// Discriminants must match the kernel-side DECODE_* constants
/// exactly; the host downloads a `u32[num_subseq]` buffer from
/// the device and round-trips each entry through `from_u32`. Any
/// drift here would silently misclassify failures.
#[test]
fn phase4_failure_kind_from_u32_round_trips_known_codes() {
    assert_eq!(Phase4FailureKind::from_u32(0), Phase4FailureKind::Clean);
    assert_eq!(
        Phase4FailureKind::from_u32(1),
        Phase4FailureKind::PrefixMiss
    );
    assert_eq!(
        Phase4FailureKind::from_u32(2),
        Phase4FailureKind::LengthBits
    );
    assert_eq!(
        Phase4FailureKind::from_u32(3),
        Phase4FailureKind::Incomplete
    );
    assert_eq!(
        Phase4FailureKind::from_u32(4),
        Phase4FailureKind::BadDcCategory,
    );
    assert_eq!(Phase4FailureKind::from_u32(5), Phase4FailureKind::BadAcSize);
    assert_eq!(
        Phase4FailureKind::from_u32(6),
        Phase4FailureKind::AcOverflow,
    );
}

#[test]
fn phase4_failure_kind_from_u32_maps_unknown_to_incomplete() {
    // Unknown values are most safely treated as a degenerate
    // failure rather than silently mapping to Ok or panicking.
    // Smallest unknown is one past the last defined variant.
    assert_eq!(
        Phase4FailureKind::from_u32(7),
        Phase4FailureKind::Incomplete
    );
    assert_eq!(
        Phase4FailureKind::from_u32(42),
        Phase4FailureKind::Incomplete
    );
    assert_eq!(
        Phase4FailureKind::from_u32(u32::MAX),
        Phase4FailureKind::Incomplete,
    );
}

#[test]
fn phase4_failure_kind_labels_are_distinct() {
    let mut labels = vec![
        Phase4FailureKind::Clean.label(),
        Phase4FailureKind::PrefixMiss.label(),
        Phase4FailureKind::LengthBits.label(),
        Phase4FailureKind::Incomplete.label(),
        Phase4FailureKind::BadDcCategory.label(),
        Phase4FailureKind::BadAcSize.label(),
        Phase4FailureKind::AcOverflow.label(),
    ];
    let total = labels.len();
    labels.sort_unstable();
    labels.dedup();
    assert_eq!(
        labels.len(),
        total,
        "labels must be unique for error formatting",
    );
}

// --- HuffmanPhase + HuffmanParams validation tests ---------------

#[test]
fn huffman_phase_is_jpeg_framed_only_for_jpeg_variants() {
    assert!(!HuffmanPhase::Phase1IntraSync.is_jpeg_framed());
    assert!(!HuffmanPhase::Phase2InterSync.is_jpeg_framed());
    assert!(!HuffmanPhase::Phase4Redecode.is_jpeg_framed());
    assert!(HuffmanPhase::JpegPhase1IntraSync.is_jpeg_framed());
    assert!(HuffmanPhase::JpegPhase2InterSync.is_jpeg_framed());
    assert!(HuffmanPhase::JpegPhase4Redecode.is_jpeg_framed());
}

/// Minimal `HuffmanParams` suitable for synthetic-stream phases.
/// Caller fills phase + per-phase Options.  Buffers are sized to
/// the documented invariants for `length_bits = 256`,
/// `subsequence_bits = 128`, `num_components = 1`.
fn ok_huffman_synthetic<'a>(
    bitstream: &'a usize,
    codebook: &'a usize,
    s_info: &'a usize,
) -> HuffmanParams<'a, SizedBuffers> {
    HuffmanParams {
        bitstream,
        codebook,
        s_info,
        sync_flags: None,
        s_info_prev: None,
        offsets: None,
        symbols_out: None,
        decode_status: None,
        dc_codebook: None,
        mcu_schedule: None,
        length_bits: 256,
        subsequence_bits: 128,
        num_components: 1,
        total_symbols: 0,
        blocks_per_mcu: 0,
        phase: HuffmanPhase::Phase1IntraSync,
    }
}

#[test]
fn huffman_validate_accepts_synthetic_phase1_with_no_jpeg_fields() {
    // 256 bits = 8 words, +1 trailing = 9 * 4 = 36 bytes.
    let bitstream = 36;
    // codebook: 1 component × 65536 × 4 = 262144 bytes.
    let codebook = 1 << 18;
    // s_info: ceil(256/128) = 2 subsequences × 16 bytes = 32.
    let s_info = 32;
    let params = ok_huffman_synthetic(&bitstream, &codebook, &s_info);
    params
        .validate(&SizedBuffers)
        .expect("synthetic phase1 with sized buffers must validate");
}

#[test]
fn huffman_validate_rejects_jpeg_phase_without_dc_codebook() {
    let bitstream = 36;
    let codebook = 1 << 18;
    let s_info = 32;
    let mut params = ok_huffman_synthetic(&bitstream, &codebook, &s_info);
    params.phase = HuffmanPhase::JpegPhase1IntraSync;
    params.blocks_per_mcu = 1;
    let mcu_schedule = 4;
    params.mcu_schedule = Some(&mcu_schedule);
    // dc_codebook intentionally None.
    let err = params
        .validate(&SizedBuffers)
        .expect_err("JPEG-framed phase without dc_codebook must be rejected");
    match err {
        BackendError::InvariantViolation { detail, .. } => {
            assert!(
                detail.contains("dc_codebook"),
                "expected dc_codebook-related detail, got: {detail}"
            );
        }
        other => panic!("expected InvariantViolation, got: {other:?}"),
    }
}

#[test]
fn huffman_validate_rejects_jpeg_phase_without_mcu_schedule() {
    let bitstream = 36;
    let codebook = 1 << 18;
    let s_info = 32;
    let dc_codebook = 1 << 18;
    let mut params = ok_huffman_synthetic(&bitstream, &codebook, &s_info);
    params.phase = HuffmanPhase::JpegPhase1IntraSync;
    params.blocks_per_mcu = 1;
    params.dc_codebook = Some(&dc_codebook);
    // mcu_schedule intentionally None.
    let err = params
        .validate(&SizedBuffers)
        .expect_err("JPEG-framed phase without mcu_schedule must be rejected");
    match err {
        BackendError::InvariantViolation { detail, .. } => {
            assert!(
                detail.contains("mcu_schedule"),
                "expected mcu_schedule-related detail, got: {detail}"
            );
        }
        other => panic!("expected InvariantViolation, got: {other:?}"),
    }
}

#[test]
fn huffman_validate_rejects_jpeg_phase2_without_s_info_prev() {
    let bitstream = 36;
    let codebook = 1 << 18;
    let s_info = 32;
    let dc_codebook = 1 << 18;
    let mcu_schedule = 4;
    let sync_flags = 8;
    let mut params = ok_huffman_synthetic(&bitstream, &codebook, &s_info);
    params.phase = HuffmanPhase::JpegPhase2InterSync;
    params.blocks_per_mcu = 1;
    params.dc_codebook = Some(&dc_codebook);
    params.mcu_schedule = Some(&mcu_schedule);
    params.sync_flags = Some(&sync_flags);
    // s_info_prev intentionally None.
    let err = params
        .validate(&SizedBuffers)
        .expect_err("JpegPhase2InterSync without s_info_prev must be rejected");
    match err {
        BackendError::InvariantViolation { detail, .. } => {
            assert!(
                detail.contains("s_info_prev"),
                "expected s_info_prev-related detail, got: {detail}"
            );
        }
        other => panic!("expected InvariantViolation, got: {other:?}"),
    }
}

#[test]
fn huffman_validate_rejects_undersized_s_info_prev() {
    let bitstream = 36;
    let codebook = 1 << 18;
    let s_info = 32;
    let dc_codebook = 1 << 18;
    let mcu_schedule = 4;
    let sync_flags = 8;
    // 2 subsequences need 32 bytes; provide 16.
    let s_info_prev = 16;
    let mut params = ok_huffman_synthetic(&bitstream, &codebook, &s_info);
    params.phase = HuffmanPhase::JpegPhase2InterSync;
    params.blocks_per_mcu = 1;
    params.dc_codebook = Some(&dc_codebook);
    params.mcu_schedule = Some(&mcu_schedule);
    params.sync_flags = Some(&sync_flags);
    params.s_info_prev = Some(&s_info_prev);
    let err = params
        .validate(&SizedBuffers)
        .expect_err("under-sized s_info_prev must be rejected");
    match err {
        BackendError::InvariantViolation { detail, .. } => {
            assert!(
                detail.contains("s_info_prev") && detail.contains("smaller"),
                "expected s_info_prev size-check detail, got: {detail}"
            );
        }
        other => panic!("expected InvariantViolation, got: {other:?}"),
    }
}

#[test]
fn huffman_validate_rejects_jpeg_phase_with_zero_blocks_per_mcu() {
    let bitstream = 36;
    let codebook = 1 << 18;
    let s_info = 32;
    let dc_codebook = 1 << 18;
    let mcu_schedule = 4;
    let mut params = ok_huffman_synthetic(&bitstream, &codebook, &s_info);
    params.phase = HuffmanPhase::JpegPhase1IntraSync;
    params.dc_codebook = Some(&dc_codebook);
    params.mcu_schedule = Some(&mcu_schedule);
    // blocks_per_mcu intentionally 0.
    let err = params
        .validate(&SizedBuffers)
        .expect_err("blocks_per_mcu = 0 must be rejected on JPEG-framed phases");
    match err {
        BackendError::InvariantViolation { detail, .. } => {
            assert!(
                detail.contains("blocks_per_mcu"),
                "expected blocks_per_mcu-related detail, got: {detail}"
            );
        }
        other => panic!("expected InvariantViolation, got: {other:?}"),
    }
}

#[test]
fn huffman_validate_accepts_jpeg_phase1_with_all_jpeg_fields() {
    let bitstream = 36;
    let codebook = 1 << 18;
    let s_info = 32;
    let dc_codebook = 1 << 18;
    // blocks_per_mcu = 1 × 4 = 4 bytes.
    let mcu_schedule = 4;
    let mut params = ok_huffman_synthetic(&bitstream, &codebook, &s_info);
    params.phase = HuffmanPhase::JpegPhase1IntraSync;
    params.dc_codebook = Some(&dc_codebook);
    params.mcu_schedule = Some(&mcu_schedule);
    params.blocks_per_mcu = 1;
    params
        .validate(&SizedBuffers)
        .expect("JPEG-framed phase1 with all required fields must validate");
}

#[test]
fn huffman_validate_rejects_undersized_dc_codebook() {
    let bitstream = 36;
    let codebook = 1 << 18;
    let s_info = 32;
    // dc_codebook one byte too small.
    let dc_codebook = (1 << 18) - 1;
    let mcu_schedule = 4;
    let mut params = ok_huffman_synthetic(&bitstream, &codebook, &s_info);
    params.phase = HuffmanPhase::JpegPhase1IntraSync;
    params.dc_codebook = Some(&dc_codebook);
    params.mcu_schedule = Some(&mcu_schedule);
    params.blocks_per_mcu = 1;
    let err = params
        .validate(&SizedBuffers)
        .expect_err("under-sized dc_codebook must be rejected");
    match err {
        BackendError::InvariantViolation { detail, .. } => {
            assert!(
                detail.contains("dc_codebook") && detail.contains("smaller"),
                "expected dc_codebook size-check detail, got: {detail}"
            );
        }
        other => panic!("expected InvariantViolation, got: {other:?}"),
    }
}

#[test]
fn huffman_validate_rejects_undersized_mcu_schedule() {
    let bitstream = 36;
    let codebook = 1 << 18;
    let s_info = 32;
    let dc_codebook = 1 << 18;
    // blocks_per_mcu = 4 needs 16 bytes; provide 12.
    let mcu_schedule = 12;
    let mut params = ok_huffman_synthetic(&bitstream, &codebook, &s_info);
    params.phase = HuffmanPhase::JpegPhase1IntraSync;
    params.dc_codebook = Some(&dc_codebook);
    params.mcu_schedule = Some(&mcu_schedule);
    params.blocks_per_mcu = 4;
    let err = params
        .validate(&SizedBuffers)
        .expect_err("under-sized mcu_schedule must be rejected");
    match err {
        BackendError::InvariantViolation { detail, .. } => {
            assert!(
                detail.contains("mcu_schedule") && detail.contains("smaller"),
                "expected mcu_schedule size-check detail, got: {detail}"
            );
        }
        other => panic!("expected InvariantViolation, got: {other:?}"),
    }
}
