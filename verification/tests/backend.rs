use gpu::backend::budget::{check_transfer, reject_zero_size, VramBudget};
use gpu::backend::cuda_launch;
use gpu::backend::error::{BackendError, SizedBuffers};
use gpu::backend::huffman_params::{HuffmanParams, HuffmanPhase};
use gpu::backend::idct_params::IdctParams;
use gpu::backend::kernels::{KernelId, NUM_KERNELS};
use gpu::backend::launch;
use gpu::backend::params::{
    AaFillParams, BlitParams, CompositeParams, IccClutParams, SoftMaskParams, TileFillParams,
};
use gpu::backend::pipeline_slots::PipelineSlots;
use gpu::backend::recorder::{
    validate_fill_size, FillAction, PageFence, PageRecorder, MAX_DESC_SETS_PER_PAGE,
};
use gpu::backend::scan_params::{ScanParams, ScanPhase};
use gpu::backend::setup::{pool_descriptors, Resource, Setup, SetupAction};
use gpu::backend::spirv::shader_words;
use gpu::cuda::{CudaInit, DriverCall};

fn kernels() -> [KernelId; 16] {
    [
        KernelId::Composite,
        KernelId::ApplySoftMask,
        KernelId::AaFill,
        KernelId::TileFill,
        KernelId::IccClut,
        KernelId::BlitImage,
        KernelId::ScanPerWorkgroup,
        KernelId::ScanBlockSums,
        KernelId::ScanScatter,
        KernelId::Phase1IntraSync,
        KernelId::Phase2InterSync,
        KernelId::Phase4Redecode,
        KernelId::JpegPhase1IntraSync,
        KernelId::JpegPhase2InterSync,
        KernelId::JpegPhase4Redecode,
        KernelId::IdctColor,
    ]
}

#[test]
fn binding_slots_len_matches_n_storage_buffers_for_every_kernel() {
    for id in kernels() {
        let slots = id.binding_slots();
        let n = id.n_storage_buffers();
        assert_eq!(
            slots.len(),
            n as usize,
            "{} binding_slots ({:?}) disagrees with n_storage_buffers ({n})",
            id.label(),
            slots,
        );
    }
}

#[test]
fn slot_indices_are_unique_across_kernels() {
    let mut indices: Vec<usize> = kernels().iter().map(|k| k.slot_index()).collect();
    indices.sort_unstable();
    let unique_count = indices.windows(2).filter(|w| w[0] != w[1]).count() + 1;
    assert_eq!(
        unique_count,
        kernels().len(),
        "slot_index() must be unique across kernels; got {indices:?}",
    );
    assert_eq!(indices[15] + 1, NUM_KERNELS);
}

#[test]
fn shared_blobs_have_named_entry_points() {
    assert_eq!(KernelId::Composite.spirv(), "composite_rgba8.spv");
    assert_eq!(KernelId::Composite.entry_point(), "main");
    assert_eq!(KernelId::ScanScatter.spirv(), KernelId::ScanBlockSums.spirv());
    assert_eq!(KernelId::ScanScatter.entry_point(), "scan_scatter");
    assert_eq!(KernelId::JpegPhase4Redecode.entry_point(), "jpeg_phase4_redecode");
    assert_eq!(KernelId::Phase4Redecode.binding_slots(), vec![0, 1, 2, 4, 5, 6]);
}

#[test]
fn a_page_goes_round() {
    let mut r = PageRecorder::new((8, 8, 8));
    for turn in 1..4u64 {
        assert!(r.begin_page().is_ok());
        r.pools_reset();
        r.page_begun();
        assert!(r.dispatch_kernel(KernelId::Composite, (8, 1, 1)).is_ok());
        r.dispatched();
        assert!(r.submit_page().is_ok());
        let value = r.take_signal().unwrap();
        assert_eq!(value, turn);
        let fence = r.page_submitted(value);
        assert_eq!(fence.timeline_value(), Some(turn));
        assert!(r.wait_page().is_ok());
        r.page_done();
    }
    assert_eq!(PageFence::immediate().timeline_value(), None);
}

#[test]
fn page_fence_niche_packs_to_eight_bytes() {
    assert_eq!(std::mem::size_of::<PageFence>(), 8);
}

#[test]
fn a_page_is_refused_out_of_turn() {
    let mut r = PageRecorder::new((8, 8, 8));
    assert_eq!(
        r.submit_page().unwrap_err().message(),
        BackendError::Message(
            "submit_page called from Idle state; expected Recording".to_string()
        )
        .message()
    );
    assert!(r.wait_page().is_err());
    assert!(r.dispatch_kernel(KernelId::AaFill, (1, 1, 1)).is_err());
    r.page_begun();
    assert!(r.begin_page().is_err());
    assert!(r.wait_page().is_err());
    let e = r.check_dispatch_size((9, 1, 1), KernelId::AaFill).unwrap_err();
    assert!(
        e.message().contains(
            "aa_fill: dispatch (9,1,1) exceeds device maxComputeWorkGroupCount (8,8,8)"
        ),
        "{}",
        e.message()
    );
}

#[test]
fn a_page_runs_out_of_descriptor_sets() {
    let mut r = PageRecorder::new((8, 8, 8));
    r.page_begun();
    for _ in 0..MAX_DESC_SETS_PER_PAGE {
        assert!(r.dispatch_kernel(KernelId::Composite, (1, 1, 1)).is_ok());
        r.dispatched();
    }
    assert_eq!(
        r.dispatch_kernel(KernelId::Composite, (1, 1, 1)),
        Err(BackendError::DescriptorPoolExhausted { allocated: 64, max: 64 })
    );
}

#[test]
fn fills_take_whole_words() {
    assert_eq!(validate_fill_size(0), Ok(FillAction::Skip));
    assert_eq!(validate_fill_size(8), Ok(FillAction::Fill(8)));
    assert!(validate_fill_size(6).unwrap_err().message().contains("fill size 6"));
    let mut r = PageRecorder::new((8, 8, 8));
    assert!(r.record_zero_buffer(8).is_err());
    r.page_begun();
    assert_eq!(r.record_zero_buffer(8), Ok(FillAction::Fill(8)));
}

#[test]
fn setups_are_unwound() {
    let mut s = Setup::recorder();
    assert_eq!(s.next_action(), SetupAction::Create(Resource::Semaphore));
    s.advance(true);
    s.advance(true);
    s.advance(true);
    assert_eq!(s.next_action(), SetupAction::Create(Resource::DescriptorPool));
    s.advance(false);
    assert_eq!(s.next_action(), SetupAction::Destroy(Resource::CommandPool));
    s.advance(true);
    assert_eq!(s.next_action(), SetupAction::Destroy(Resource::Semaphore));
    s.advance(true);
    assert_eq!(s.next_action(), SetupAction::Abandoned);
    let mut p = Setup::pipeline();
    for _ in 0..5 {
        p.advance(true);
    }
    assert_eq!(p.next_action(), SetupAction::Complete);
    assert_eq!(pool_descriptors(), 64 * 8);
}

#[test]
fn the_first_pipeline_stays() {
    let mut slots: PipelineSlots<u32> = PipelineSlots::new();
    assert!(slots.get(KernelId::IdctColor).is_none());
    assert_eq!(slots.install(KernelId::IdctColor, 7), None);
    assert_eq!(slots.install(KernelId::IdctColor, 8), Some(8));
    assert_eq!(slots.install(KernelId::Composite, 9), None);
    assert_eq!(slots.get(KernelId::IdctColor), Some(&7));
    assert_eq!(slots.into_built(), vec![9, 7]);
}

#[test]
fn budgets_leave_room() {
    assert_eq!(VramBudget::from_free(1000, 2000).usable_bytes, 750);
    assert_eq!(VramBudget::from_free(u64::MAX, u64::MAX).usable_bytes, u64::MAX / 4);
    assert_eq!(VramBudget::from_heap(100, 500, 2000).usable_bytes, 300);
    assert_eq!(VramBudget::from_heap(500, 100, 2000).usable_bytes, 0);
    assert_eq!(VramBudget::from_heap(0, 4000, 2000).usable_bytes, 2000);
    assert_eq!(VramBudget::new(9, 4).total_bytes, 9);
    assert!(reject_zero_size(1, "alloc_device").is_ok());
    assert!(reject_zero_size(0, "alloc_device").unwrap_err().message().contains("alloc_device"));
    assert!(check_transfer("upload", 4, 4).is_ok());
    assert!(check_transfer("upload", 5, 4).is_err());
}

#[test]
fn shaders_come_in_either_byte_order() {
    let little = [0x03, 0x02, 0x23, 0x07, 1, 0, 0, 0];
    assert_eq!(shader_words(KernelId::AaFill, &little), Ok(vec![0x0723_0203, 1]));
    let big = [0x07, 0x23, 0x02, 0x03, 0, 0, 0, 1];
    assert_eq!(shader_words(KernelId::AaFill, &big), Ok(vec![0x0723_0203, 1]));
    let e = shader_words(KernelId::AaFill, &little[..7]).unwrap_err();
    assert!(e.message().contains("read_spv(aa_fill): input length not divisible by 4"));
    let e = shader_words(KernelId::AaFill, &[]).unwrap_err();
    assert!(e.message().contains("input missing SPIR-V magic number"));
    assert!(shader_words(KernelId::AaFill, &[1, 2, 3, 4]).is_err());
}

#[test]
fn a_context_is_given_back_when_its_stream_fails() {
    let mut init = CudaInit::init_primary_ctx_and_stream(3);
    let mut calls = Vec::new();
    while let Some(call) = init.next() {
        calls.push(call);
        init.returned(if call == DriverCall::StreamCreate { 2 } else { 0 });
    }
    assert_eq!(
        calls,
        vec![
            DriverCall::Init,
            DriverCall::DeviceGet { ordinal: 3 },
            DriverCall::PrimaryCtxRetain,
            DriverCall::CtxSetCurrent,
            DriverCall::StreamCreate,
            DriverCall::PrimaryCtxRelease,
            DriverCall::CtxClear,
        ]
    );
    let e = init.outcome().unwrap().unwrap_err();
    assert_eq!((e.step, e.code), ("cuStreamCreate", 2));
}

#[test]
fn an_early_failure_has_nothing_to_give_back() {
    let mut init = CudaInit::init_primary_ctx_and_stream(0);
    init.returned(0);
    init.returned(101);
    assert_eq!(init.next(), None);
    assert_eq!(init.outcome().unwrap().unwrap_err().step, "cuDeviceGet");
    let mut good = CudaInit::init_primary_ctx_and_stream(0);
    for _ in 0..5 {
        assert!(good.outcome().is_none());
        good.returned(0);
    }
    assert_eq!(good.outcome(), Some(Ok(())));
}

#[test]
fn launches_name_their_buffers() {
    let b: Vec<usize> = (1..20).collect();
    let composite: CompositeParams<'_, SizedBuffers> =
        CompositeParams { src: &b[0], dst: &b[1], n_pixels: 257 };
    let d = launch::record_composite(&composite);
    assert_eq!((d.kernel, d.groups), (KernelId::Composite, (2, 1, 1)));
    assert_eq!(d.buffers, vec![&1, &2]);
    assert_eq!(d.push, vec![257]);
    assert_eq!(cuda_launch::record_composite(&composite).scalars, vec![257]);

    let mask: SoftMaskParams<'_, SizedBuffers> =
        SoftMaskParams { pixels: &b[0], mask: &b[1], n_pixels: 5 };
    assert_eq!(launch::record_apply_soft_mask(&mask).groups, (1, 1, 1));
    assert_eq!(cuda_launch::record_apply_soft_mask(&mask).kernel, KernelId::ApplySoftMask);

    let aa: AaFillParams<'_, SizedBuffers> = AaFillParams {
        segs: &b[0],
        n_segs: 3,
        coverage: &b[1],
        width: 17,
        height: 5,
        fill_rule: 1,
    };
    assert_eq!(launch::record_aa_fill(&aa).kernel, KernelId::AaFill);
    assert_eq!(cuda_launch::record_aa_fill(&aa).scalars, vec![3, 0, 0, 17, 5, 1]);

    let tile: TileFillParams<'_, SizedBuffers> = TileFillParams {
        records: &b[0],
        tile_starts: &b[1],
        tile_counts: &b[2],
        coverage: &b[3],
        width: 17,
        height: 5,
        fill_rule: 0,
    };
    assert_eq!(launch::record_tile_fill(&tile).groups, (2, 1, 1));
    assert_eq!(cuda_launch::record_tile_fill(&tile).scalars, vec![2, 17, 5, 0]);

    let scan: ScanParams<'_, SizedBuffers> = ScanParams {
        data: &b[0],
        block_sums: &b[1],
        len_elems: 1025,
        phase: ScanPhase::PerWorkgroup,
    };
    assert_eq!(launch::record_scan(&scan).groups, (2, 1, 1));
    assert_eq!(cuda_launch::record_scan(&scan).buffers.len(), 2);

    let idct: IdctParams<'_, SizedBuffers> = IdctParams {
        coefficients: &b[0],
        qtables: &b[1],
        dc_values: &b[2],
        pixels_rgba: &b[3],
        width: 16,
        height: 16,
        num_components: 1,
        blocks_wide: 2,
        blocks_high: 2,
        num_qtables: 1,
    };
    assert_eq!(idct.blocks_per_component(), 4);
    assert_eq!(launch::record_idct(&idct).buffers.len(), 4);
    assert_eq!(cuda_launch::record_idct(&idct).kernel, KernelId::IdctColor);
}

#[test]
fn clut_launches_need_a_grid() {
    let (cmyk, rgb, clut) = (400usize, 300usize, 48usize);
    let p: IccClutParams<'_, SizedBuffers> =
        IccClutParams { cmyk: &cmyk, rgb: &rgb, clut: &clut, n_pixels: 100 };
    let d = launch::record_icc_clut(&p, &SizedBuffers).unwrap();
    assert_eq!(d.buffers.len(), 3);
    assert!(d.push.contains(&2));
    assert!(cuda_launch::record_icc_clut(&p, &SizedBuffers).is_ok());
    let bad = 50usize;
    let p: IccClutParams<'_, SizedBuffers> =
        IccClutParams { cmyk: &cmyk, rgb: &rgb, clut: &bad, n_pixels: 100 };
    assert!(launch::record_icc_clut(&p, &SizedBuffers).is_err());
    assert!(cuda_launch::record_icc_clut(&p, &SizedBuffers).is_err());
}

#[test]
fn blits_are_launched_on_both_back_ends() {
    let (src, dst, cols, rows) = (64usize, 256usize, 64usize, 32usize);
    let p: BlitParams<'_, SizedBuffers> = BlitParams {
        src: &src,
        dst: &dst,
        cols: &cols,
        rows: &rows,
        src_w: 4,
        src_h: 4,
        src_layout: 1,
        dst_w: 8,
        dst_h: 8,
        bbox: [1, 2, 5, 4],
    };
    let d = launch::record_blit_image(&p);
    assert_eq!(d.kernel, KernelId::BlitImage);
    assert_eq!(d.groups, (1, 1, 1));
    let l = cuda_launch::record_blit_image(&p, &SizedBuffers).unwrap().unwrap();
    assert_eq!((l.layout_code, l.grid), (1, (1, 1, 1)));
    assert_eq!((l.bbox.x0, l.bbox.y1), (1, 4));
}

#[test]
fn huffman_phases_take_their_buffers() {
    let b: Vec<usize> = (1..20).collect();
    let p: HuffmanParams<'_, SizedBuffers> = HuffmanParams {
        bitstream: &b[0],
        codebook: &b[1],
        s_info: &b[2],
        sync_flags: Some(&b[3]),
        s_info_prev: Some(&b[4]),
        offsets: None,
        symbols_out: None,
        decode_status: None,
        dc_codebook: Some(&b[5]),
        mcu_schedule: Some(&b[6]),
        length_bits: 100,
        subsequence_bits: 32,
        num_components: 3,
        blocks_per_mcu: 3,
        total_symbols: 0,
        phase: HuffmanPhase::JpegPhase2InterSync,
    };
    let d = launch::record_huffman(&p);
    assert_eq!(d.kernel, KernelId::JpegPhase2InterSync);
    assert_eq!(d.buffers, vec![&1, &2, &3, &4, &6, &7, &5]);
    assert_eq!(d.push, vec![100, 32, 4, 3, 0, 3]);
    let l = cuda_launch::record_huffman(&p);
    assert_eq!(l.kernel, d.kernel);
    assert_eq!(l.buffers.len(), d.buffers.len());
}
