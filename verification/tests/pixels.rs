use gpu::blit::{
    blit_image_to_buffer, launch_blit_image_async, BlitBbox, BlitError, SAMPLE_ENTRY_WORDS,
};
use gpu::cache::host_tier::{HostBudget, HostEntry, HostTier};
use gpu::cache::page_buffer::{DevicePageBuffer, RGBA_BPP};
use gpu::cache::ImageLayout;
use gpu::clut::{Clut, ClutError};
use gpu::cmyk::{
    cmyk_to_rgb_reflectance, cmyk_to_rgb_x16, cmyk_to_rgb_x8, dispatch_cmyk_matrix,
    icc_cmyk_to_rgb_cpu, LaneTier,
};
use gpu::composite::{apply_soft_mask_cpu, composite_rgba8_cpu};
use gpu::coverage::{aa_fill_cpu_pixel, aa_fill_cpu_sample};
use gpu::fill::{build_tile_records, RowCrossing, TileError, TileGrid, TileIndex};

#[test]
fn bbox_width_height_clamped_to_u32() {
    let b = BlitBbox { x0: 5, y0: 5, x1: 3, y1: 3 };
    assert_eq!(b.width(), 0);
    assert_eq!(b.height(), 0);
    assert_eq!(b.table_bytes(), (0, 0));
}

#[test]
fn bbox_extent_saturates() {
    let b = BlitBbox { x0: i32::MIN, y0: -2, x1: i32::MAX, y1: 3 };
    assert_eq!(b.width(), 0x7FFF_FFFF);
    assert_eq!(b.height(), 5);
}

#[test]
fn table_bytes_follow_bbox_extent() {
    let b = BlitBbox { x0: 2, y0: 1, x1: 7, y1: 4 };
    assert_eq!(b.table_bytes(), (5 * 16, 3 * 16));
}

#[test]
fn blit_rejects_mismatched_tables() {
    let bbox = BlitBbox { x0: 0, y0: 0, x1: 4, y1: 4 };
    let err = blit_image_to_buffer(ImageLayout::Rgb, bbox, 8, 16).unwrap_err();
    assert!(matches!(err, BlitError::TableSize), "{}", err.message());
    assert_eq!(err.message(), "blit sampling tables do not match the bbox");
}

#[test]
fn blit_checks_come_in_order() {
    let bbox = BlitBbox { x0: 0, y0: 0, x1: 4, y1: 2 };
    let empty = BlitBbox { x0: 3, y0: 0, x1: 3, y1: 2 };
    let words = SAMPLE_ENTRY_WORDS;
    assert_eq!(blit_image_to_buffer(ImageLayout::Rgb, bbox, 4 * words, 2 * words), Ok(Some(0)));
    assert_eq!(blit_image_to_buffer(ImageLayout::Gray, bbox, 4 * words, 2 * words), Ok(Some(1)));
    assert_eq!(blit_image_to_buffer(ImageLayout::Gray, empty, 1, 1), Ok(None));
    let err = blit_image_to_buffer(ImageLayout::Mask, empty, 0, 0).unwrap_err();
    assert_eq!(err.message(), "blit kernel does not handle Mask layout");
    assert_eq!(BlitError::Cuda("lost".to_string()).message(), "cuda: lost");
}

#[test]
fn blit_launch_covers_the_box() {
    let bbox = BlitBbox { x0: -1, y0: 0, x1: 32, y1: 16 };
    let l = launch_blit_image_async((20, 30), 1, (40, 50), bbox, 33 * 16, 16 * 16)
        .unwrap()
        .unwrap();
    assert_eq!(l.grid, (3, 1, 1));
    assert_eq!(l.block, (16, 16, 1));
    assert_eq!((l.src_w, l.src_h, l.dst_w, l.dst_h, l.layout_code), (20, 30, 40, 50, 1));
    assert_eq!(l.bbox, bbox);
    assert_eq!(
        launch_blit_image_async((20, 30), 1, (40, 50), bbox, 33 * 16 - 1, 16 * 16),
        Err(BlitError::TableSize)
    );
    let err = launch_blit_image_async((20, 30), 1, (0x8000_0000, 50), bbox, 33 * 16, 16 * 16)
        .unwrap_err();
    assert_eq!(err.message(), "image or page dimensions exceed i32::MAX");
}

#[test]
fn host_budget_default_is_two_gib() {
    assert_eq!(HostBudget::default().host_bytes, 2 * 1024 * 1024 * 1024);
}

#[test]
fn empty_host_tier_reports_zero() {
    let tier = HostTier::new(HostBudget { host_bytes: 1 << 20 });
    assert_eq!(tier.len(), 0);
    assert!(tier.is_empty());
    assert_eq!(tier.used_bytes(), 0);
    assert_eq!(tier.budget_bytes(), 1 << 20);
}

#[test]
fn pinned_round_trip_through_host_tier() {
    let mut tier = HostTier::new(HostBudget { host_bytes: 1 << 20 });
    let hash = [0x11; 32];
    let entry = HostEntry::new(256, 16, 16, ImageLayout::Gray);
    let _ = tier.insert(hash, entry, 0, &[]);

    let hit = tier.lookup(&hash, 1).expect("hit");
    assert_eq!(hit.width, 16);
    assert_eq!(hit.height, 16);
    assert_eq!(hit.layout, ImageLayout::Gray);
    assert_eq!(hit.host_bytes(), 256);
    assert_eq!(tier.used_bytes(), 256);
    assert!(!tier.is_empty());
}

#[test]
fn host_tier_evicts_oldest_on_overflow() {
    let mut tier = HostTier::new(HostBudget { host_bytes: 600 });
    let mk_entry = || HostEntry::new(256, 16, 16, ImageLayout::Gray);

    let h_a = [0xAA; 32];
    let h_b = [0xBB; 32];
    let h_c = [0xCC; 32];
    let _ = tier.insert(h_a, mk_entry(), 1, &[]);
    let _ = tier.insert(h_b, mk_entry(), 2, &[]);
    let _ = tier.lookup(&h_b, 3);
    let gone = tier.insert(h_c, mk_entry(), 4, &[]).gone;

    assert_eq!(gone, vec![h_a]);
    assert!(tier.lookup(&h_a, 5).is_none(), "A should have been evicted");
    assert!(tier.lookup(&h_b, 6).is_some(), "B should remain");
    assert!(tier.lookup(&h_c, 7).is_some(), "C just inserted");
    assert_eq!(tier.used_bytes(), 512);
    assert_eq!(tier.len(), 2);
}

#[test]
fn host_tier_lookup_saves_an_entry() {
    let mut tier = HostTier::new(HostBudget { host_bytes: 600 });
    let entry = HostEntry::new(256, 16, 16, ImageLayout::Rgb);
    let _ = tier.insert([1; 32], entry, 1, &[]);
    let _ = tier.insert([2; 32], entry, 2, &[]);
    let _ = tier.lookup(&[1; 32], 3);
    assert_eq!(tier.insert([3; 32], entry, 4, &[]).gone, vec![[2; 32]]);
}

#[test]
fn host_tier_replaces_an_entry_of_the_same_hash() {
    let mut tier = HostTier::new(HostBudget { host_bytes: 1000 });
    let _ = tier.insert([7; 32], HostEntry::new(300, 10, 10, ImageLayout::Rgb), 1, &[]);
    let done = tier.insert([7; 32], HostEntry::new(900, 15, 20, ImageLayout::Mask), 2, &[]);
    assert!(done.kept && done.gone.is_empty());
    assert_eq!(tier.len(), 1);
    assert_eq!(tier.used_bytes(), 900);
    assert_eq!(
        tier.lookup(&[7; 32], 3),
        Some(HostEntry::new(900, 15, 20, ImageLayout::Mask))
    );
}

#[test]
fn host_tier_keeps_entries_in_use() {
    let mut tier = HostTier::new(HostBudget { host_bytes: 512 });
    let entry = HostEntry::new(256, 16, 16, ImageLayout::Gray);
    let _ = tier.insert([1; 32], entry, 1, &[]);
    let _ = tier.insert([2; 32], entry, 2, &[]);
    assert_eq!(tier.insert([3; 32], entry, 3, &[[1; 32]]).gone, vec![[2; 32]]);
    let done = tier.insert([4; 32], entry, 4, &[[1; 32], [3; 32]]);
    assert!(done.kept && done.gone.is_empty());
    assert_eq!(tier.used_bytes(), 768);
}

#[test]
fn zero_budget_disables_the_host_tier() {
    let mut tier = HostTier::new(HostBudget { host_bytes: 0 });
    let done = tier.insert([1; 32], HostEntry::new(256, 16, 16, ImageLayout::Gray), 1, &[]);
    assert!(!done.kept && done.gone.is_empty());
    assert!(tier.lookup(&[1; 32], 2).is_none());
    assert_eq!(tier.used_bytes(), 0);
    assert!(tier.is_empty());
}

#[test]
fn entries_larger_than_the_budget_are_dropped() {
    let mut tier = HostTier::new(HostBudget { host_bytes: 600 });
    let entry = HostEntry::new(256, 16, 16, ImageLayout::Gray);
    let _ = tier.insert([1; 32], entry, 1, &[]);
    let _ = tier.insert([2; 32], entry, 2, &[]);
    // The one in use stays; the other made room in vain.
    let done = tier.insert([3; 32], HostEntry::new(601, 601, 1, ImageLayout::Gray), 3, &[[2; 32]]);
    assert!(!done.kept);
    assert_eq!(done.gone, vec![[1; 32]]);
    assert!(tier.lookup(&[3; 32], 4).is_none());
    assert!(tier.lookup(&[2; 32], 5).is_some());
    assert_eq!(tier.used_bytes(), 256);
    let done = tier.insert([4; 32], HostEntry::new(u64::MAX, 1, 1, ImageLayout::Gray), 6, &[]);
    assert!(!done.kept);
    assert_eq!(tier.used_bytes(), 0);
    assert!(tier.insert([5; 32], HostEntry::new(600, 600, 1, ImageLayout::Gray), 7, &[]).kept);
    assert_eq!(tier.used_bytes(), 600);
}

#[test]
fn image_bytes_count_the_layout() {
    assert_eq!(HostEntry::image_bytes(5, 7, ImageLayout::Rgb), Some(105));
    assert_eq!(HostEntry::image_bytes(5, 7, ImageLayout::Mask), Some(35));
    assert_eq!(ImageLayout::Gray.bytes_per_pixel(), 1);
}

#[test]
fn rgba_bpp_is_four() {
    assert_eq!(RGBA_BPP, 4);
}

#[test]
fn alloc_and_download_zero_buffer() {
    let buf = DevicePageBuffer::new(32, 16).expect("alloc");
    assert_eq!(buf.width(), 32);
    assert_eq!(buf.height(), 16);
    assert_eq!(buf.byte_len(), 32 * 16 * 4);
    let all = buf.download().expect("download").unwrap();
    assert_eq!((all.start, all.end), (0, 32 * 16 * 4));
}

#[test]
fn row_ranges_are_validated_and_sized() {
    let buf = DevicePageBuffer::new(8, 4).expect("alloc");
    let rows = buf.download_rows(1, 3).expect("rows").unwrap();
    assert_eq!(rows.start, 8 * 4);
    assert_eq!(rows.end - rows.start, 2 * 8 * 4);
    assert!(buf.download_rows(2, 2).expect("empty").is_none());
    assert!(buf.download_rows(3, 2).is_err(), "inverted range");
    assert!(buf.download_rows(0, 5).is_err(), "past the buffer");
    assert!(buf.zero_rows(0, 5).is_err(), "past the buffer");
    assert_eq!(buf.zero_rows(0, 4).expect("zero").unwrap().end, 8 * 4 * 4);
    assert_eq!(buf.row_bytes(), 32);
}

#[test]
fn alloc_rejects_overflow_dimensions() {
    assert!(DevicePageBuffer::new(u32::MAX, u32::MAX).is_err());
}

fn tiers() -> [LaneTier; 3] {
    [LaneTier::Sixteen, LaneTier::Eight, LaneTier::Scalar]
}

fn scalar_line(cmyk: &[u8]) -> Vec<u8> {
    let mut out = Vec::new();
    for p in cmyk.chunks_exact(4) {
        let (r, g, b) = cmyk_to_rgb_reflectance(p[0], p[1], p[2], p[3]);
        out.extend_from_slice(&[r, g, b]);
    }
    out
}

#[test]
fn icc_cmyk_matrix_white() {
    for tier in tiers() {
        let cmyk = [0u8, 0, 0, 0];
        let rgb = icc_cmyk_to_rgb_cpu(&cmyk, tier);
        assert_eq!(rgb, [255, 255, 255]);
    }
}

#[test]
fn icc_cmyk_matrix_black() {
    for tier in tiers() {
        let cmyk = [0u8, 0, 0, 255];
        let rgb = icc_cmyk_to_rgb_cpu(&cmyk, tier);
        assert_eq!(rgb, [0, 0, 0]);
    }
}

#[test]
fn icc_cmyk_matrix_pure_cyan() {
    for tier in tiers() {
        let cmyk = [255u8, 0, 0, 0];
        let rgb = icc_cmyk_to_rgb_cpu(&cmyk, tier);
        assert_eq!(rgb, [0, 255, 255]);
    }
}

#[test]
fn icc_cmyk_matrix_multi_pixel() {
    for tier in tiers() {
        let cmyk = [0u8, 0, 0, 0, 0, 0, 0, 255];
        let rgb = icc_cmyk_to_rgb_cpu(&cmyk, tier);
        assert_eq!(&rgb[0..3], &[255, 255, 255]);
        assert_eq!(&rgb[3..6], &[0, 0, 0]);
    }
}

#[test]
fn reflectance_rounds() {
    assert_eq!(cmyk_to_rgb_reflectance(64, 32, 16, 8), (185, 216, 232));
    assert_eq!(cmyk_to_rgb_reflectance(128, 128, 128, 128), (63, 63, 63));
}

#[test]
fn icc_cmyk_matrix_simd_vs_scalar() {
    let cmyk: Vec<u8> = vec![
        0, 0, 0, 0, 0, 0, 0, 255, 255, 0, 0, 0, 0, 255, 0, 0, 0, 0, 255, 0, 0, 0, 0, 128, 255, 255,
        255, 255, 128, 128, 128, 128, 64, 32, 16, 8, 200, 100, 50, 25, 10, 20, 30, 40, 50, 60, 70,
        80, 90, 100, 110, 120, 130, 140, 150, 160, 170, 180, 190, 200, 210, 220, 230, 240,
    ];
    assert_eq!(cmyk.len(), 64, "test vector must be exactly 16 pixels");
    let scalar_rgb = scalar_line(&cmyk);
    for tier in tiers() {
        assert_eq!(icc_cmyk_to_rgb_cpu(&cmyk, tier), scalar_rgb);
    }
}

#[test]
fn icc_cmyk_matrix_tail_pixels() {
    let cmyk: Vec<u8> = (0u8..5)
        .flat_map(|i| {
            let v = i.wrapping_mul(50);
            [v, v.wrapping_add(10), v.wrapping_add(20), v.wrapping_add(30)]
        })
        .collect();
    for tier in tiers() {
        assert_eq!(icc_cmyk_to_rgb_cpu(&cmyk, tier), scalar_line(&cmyk));
    }
}

fn eight_pixels() -> Vec<u8> {
    (0u8..8)
        .flat_map(|i| {
            [i.wrapping_mul(30), i.wrapping_mul(20), i.wrapping_mul(10), i.wrapping_mul(5)]
        })
        .collect()
}

#[test]
fn pixels_are_converted_apart() {
    let cmyk: Vec<u8> = (0..37 * 4u32).map(|i| (i * 37 % 256) as u8).collect();
    for tier in tiers() {
        for cut in [0, 4, 60, 64, 68, 148] {
            let mut apart = icc_cmyk_to_rgb_cpu(&cmyk[..cut], tier);
            apart.extend(icc_cmyk_to_rgb_cpu(&cmyk[cut..], tier));
            assert_eq!(apart, icc_cmyk_to_rgb_cpu(&cmyk, tier));
        }
    }
}

#[test]
fn icc_cmyk_matrix_eight_pixels() {
    let cmyk = eight_pixels();
    assert_eq!(cmyk.len(), 32);
    for tier in tiers() {
        assert_eq!(icc_cmyk_to_rgb_cpu(&cmyk, tier), scalar_line(&cmyk));
    }
}

#[test]
fn icc_cmyk_avx2_matches_scalar() {
    let cmyk = eight_pixels();
    assert_eq!(cmyk.len(), 32);
    let mut got = vec![0u8; 24];
    cmyk_to_rgb_x8(cmyk.as_slice().try_into().expect("exactly 32 bytes"), &mut got);
    assert_eq!(got, scalar_line(&cmyk), "AVX2 CMYK→RGB mismatch");
}

#[test]
fn icc_cmyk_avx512_matches_scalar() {
    let mut rng = 0x1357_9bdf_u32;
    let mut next = move || {
        rng = rng.wrapping_mul(1_664_525).wrapping_add(1_013_904_223);
        (rng >> 24) as u8
    };
    for chunk_i in 0..200 {
        let cmyk: Vec<u8> = (0..64).map(|_| next()).collect();
        let mut got = vec![0u8; 48];
        cmyk_to_rgb_x16(cmyk.as_slice().try_into().expect("exactly 64 bytes"), &mut got);
        assert_eq!(got, scalar_line(&cmyk), "AVX-512 CMYK→RGB mismatch on chunk {chunk_i}");
    }
}

#[test]
fn lanes_leave_the_rest_alone() {
    let mut rgb = vec![9u8; 50];
    cmyk_to_rgb_x16(&[0; 64], &mut rgb);
    assert_eq!(&rgb[..48], &[255; 48]);
    assert_eq!(&rgb[48..], &[9, 9]);
    let mut line = vec![0u8; 27];
    dispatch_cmyk_matrix(&[0; 38], &mut line, LaneTier::Eight);
    assert_eq!(line, vec![255; 27]);
}

#[test]
#[should_panic(expected = "CLUT table length")]
fn icc_cmyk_clut_rejects_mismatched_table_length() {
    let table = vec![0u8; 17usize.pow(4) * 3];
    if let Err(e) = Clut::new(&table, 33) {
        panic!("{}", e.message());
    }
}

#[test]
fn clut_errors_name_the_grid() {
    let e = Clut::new(&[], 1).err().unwrap();
    assert_eq!(e, ClutError::Degenerate { grid_n: 1 });
    assert_eq!(e.message(), "icc_cmyk_to_rgb_cpu: grid_n must be ≥ 2, got 1");
    let e = Clut::new(&[0; 47], 2).err().unwrap();
    assert_eq!(e.message(), "CLUT table length 47 ≠ grid_n(2)^4*3=48");
    let e = Clut::new(&[], u32::MAX).err().unwrap();
    assert_eq!(
        e.message(),
        "grid_n(4294967295)^4*3 overflows usize — grid_n must be ≤ 255"
    );
}

#[test]
fn icc_cmyk_clut_identity_corners() {
    const G: u8 = 2;
    let g_usize = G as usize;
    let mut table = vec![0u8; g_usize * g_usize * g_usize * g_usize * 3];
    for ki in 0..G {
        for ci in 0..G {
            for mi in 0..G {
                for yi in 0..G {
                    let idx = (usize::from(ki) * g_usize * g_usize * g_usize
                        + usize::from(ci) * g_usize * g_usize
                        + usize::from(mi) * g_usize
                        + usize::from(yi))
                        * 3;
                    let c = ci * 255;
                    let m = mi * 255;
                    let y = yi * 255;
                    let k = ki * 255;
                    let inv_k = u32::from(255 - k);
                    table[idx] = u8::try_from((u32::from(255 - c) * inv_k) / 255)
                        .expect("by construction <=255");
                    table[idx + 1] = u8::try_from((u32::from(255 - m) * inv_k) / 255)
                        .expect("by construction <=255");
                    table[idx + 2] = u8::try_from((u32::from(255 - y) * inv_k) / 255)
                        .expect("by construction <=255");
                }
            }
        }
    }
    let clut = Clut::new(&table, 2).ok().unwrap();
    assert_eq!(clut.node(0, 0, 0, 0), (255, 255, 255), "white corner");
    assert_eq!(clut.node(0, 0, 0, 1), (0, 0, 0), "black corner");
    assert_eq!(clut.node(1, 0, 0, 0), (0, 255, 255));
    assert_eq!(clut.neighbour(0), 1);
    assert_eq!(clut.neighbour(1), 1);
    assert_eq!(clut.grid_n(), 2);
}

#[test]
fn composite_cpu_opaque_src() {
    let src = [200u8, 100, 50, 255];
    let mut dst = [10u8, 20, 30, 128];
    composite_rgba8_cpu(&src, &mut dst);
    assert_eq!(dst, [200, 100, 50, 255]);
}

#[test]
fn composite_cpu_transparent_src() {
    let src = [200u8, 100, 50, 0];
    let mut dst = [10u8, 20, 30, 128];
    let expected = dst;
    composite_rgba8_cpu(&src, &mut dst);
    assert_eq!(dst, expected);
}

#[test]
fn composite_cpu_half_alpha() {
    let src = [255u8, 255, 255, 128];
    let mut dst = [0u8, 0, 0, 255];
    composite_rgba8_cpu(&src, &mut dst);
    assert!(dst[0] >= 126 && dst[0] <= 130, "r={}", dst[0]);
    assert!(dst[1] >= 126 && dst[1] <= 130, "g={}", dst[1]);
    assert!(dst[2] >= 126 && dst[2] <= 130, "b={}", dst[2]);
    assert_eq!(dst[3], 255);
    assert_eq!(dst, [128, 128, 128, 255]);
}

#[test]
fn composite_handles_partial_pixels() {
    let src = [200u8, 100, 50, 64, 1, 2, 3];
    let mut dst = [10u8, 20, 30, 128, 9, 9, 9, 9, 9];
    composite_rgba8_cpu(&src, &mut dst);
    assert_eq!(dst, [86, 52, 38, 160, 9, 9, 9, 9, 9]);
}

#[test]
fn soft_mask_cpu_full() {
    let mut pixels = [100u8, 150, 200, 240];
    let mask = [255u8];
    apply_soft_mask_cpu(&mut pixels, &mask);
    assert_eq!(pixels[3], 240);
}

#[test]
fn soft_mask_cpu_half() {
    let mut pixels = [100u8, 150, 200, 200];
    let mask = [128u8];
    apply_soft_mask_cpu(&mut pixels, &mask);
    assert_eq!(pixels[3], 100);
}

#[test]
fn soft_mask_cpu_zero() {
    let mut pixels = [100u8, 150, 200, 255, 10, 20, 30, 128];
    let mask = [0u8, 0];
    apply_soft_mask_cpu(&mut pixels, &mask);
    assert_eq!(pixels[3], 0);
    assert_eq!(pixels[7], 0);
}

#[test]
fn soft_mask_stops_with_the_mask() {
    let mut pixels = [1u8, 2, 3, 255, 4, 5, 6, 255];
    apply_soft_mask_cpu(&mut pixels, &[7]);
    assert_eq!(pixels, [1, 2, 3, 7, 4, 5, 6, 255]);
}

/// The index of these row crossings, each a tile row and the column that the
/// segment reaches in it.
fn index_of(width: u32, height: u32, rows: &[(u32, i32)]) -> TileIndex {
    let grid = TileGrid::new(width, height).unwrap();
    let crossings: Vec<RowCrossing> =
        rows.iter().map(|&(ty, tx1)| RowCrossing { ty, tx1 }).collect();
    build_tile_records(&crossings, grid).ok().unwrap()
}

#[test]
fn tile_records_empty_segs() {
    let index = index_of(32, 32, &[]);
    assert!(index.records.is_empty());
    assert_eq!(index.grid_w, 2);
    assert!(index.tile_starts.iter().all(|&s| s == 0));
    assert!(index.tile_counts.iter().all(|&c| c == 0));
    assert_eq!(index.tile_counts.len(), 4);
}

#[test]
fn tile_records_single_vertical_segment() {
    // (8,0) to (8,17): tile rows 0 and 1, in tile column 0.
    let index = index_of(64, 64, &[(0, 0), (1, 0)]);
    assert_eq!(index.records.len(), 2, "one record per tile row crossed");
}

#[test]
fn tile_records_diagonal_segment() {
    // (0,0) to (32,32).
    let index = index_of(128, 128, &[(0, 1), (1, 2)]);
    assert!(index.records.len() >= 2, "diagonal must produce at least 2 records");
}

#[test]
fn tile_records_reach_columns_left_of_the_segment() {
    // One vertical edge at x=200, i.e. tile column 12.
    let index = index_of(320, 32, &[(0, 12)]);
    for tx in 0..=12u32 {
        assert!(
            index.tile_counts[tx as usize] > 0,
            "tile column {tx} has no record for a segment at its right"
        );
    }
}

#[test]
fn tile_records_sort_order() {
    // (24,0) to (24,8), and (8,16) to (8,24).
    let index = index_of(80, 80, &[(0, 1), (1, 0)]);
    assert_eq!(index.grid_w, 5);
    for w in index.records.windows(2) {
        assert!(w[0].0 <= w[1].0, "records must be sorted by key");
    }
    let tile_01 = 1; // (tile_y=0, tile_x=1)
    let tile_10 = index.grid_w as usize; // (tile_y=1, tile_x=0)
    assert_eq!(index.tile_counts[tile_01], 1);
    assert_eq!(index.tile_counts[tile_10], 1);
}

#[test]
fn tile_records_prefix_sum_consistent() {
    // (4,0) to (60,63).
    let index = index_of(64, 64, &[(0, 1), (1, 2), (2, 2), (3, 3)]);
    let counts = &index.tile_counts;
    let starts = &index.tile_starts;
    let total: u32 = counts.iter().sum();
    assert_eq!(total as usize, index.records.len(), "sum of counts == total records");
    for i in 0..counts.len() - 1 {
        assert_eq!(starts[i] + counts[i], starts[i + 1], "prefix sum broken at {i}");
    }
}

#[test]
fn tile_records_come_sorted_with_their_index() {
    let grid = TileGrid::new(80, 80).unwrap();
    let crossings = [
        RowCrossing { ty: 2, tx1: 1 },
        RowCrossing { ty: 0, tx1: 1 },
        RowCrossing { ty: 1, tx1: -1 },
        RowCrossing { ty: 1, tx1: 99 },
    ];
    let index = build_tile_records(&crossings, grid).ok().unwrap();
    assert_eq!(grid.grid_w(), 5);
    assert_eq!(grid.grid_h(), 5);
    for w in index.records.windows(2) {
        assert!(w[0].0 <= w[1].0, "records must be sorted by key");
    }
    let keys: Vec<u32> = index.records.iter().map(|r| r.0).collect();
    assert_eq!(
        keys,
        vec![0, 1, 0x1_0000, 0x1_0001, 0x1_0002, 0x1_0003, 0x1_0004, 0x2_0000, 0x2_0001]
    );
    assert_eq!(index.records[0].1, 1);
    assert_eq!(index.records[4].1, 3);
    assert_eq!(index.records[8].1, 0);
    assert_eq!(&index.tile_counts[..11], &[1, 1, 0, 0, 0, 1, 1, 1, 1, 1, 1]);
    for i in 0..24 {
        assert_eq!(index.tile_starts[i] + index.tile_counts[i], index.tile_starts[i + 1]);
    }
    let total: u32 = index.tile_counts.iter().sum();
    assert_eq!(total as usize, index.records.len());
}

#[test]
fn tile_errors_are_told() {
    assert!(TileGrid::new(65535 * 16, 16).is_ok());
    let e = TileGrid::new(65535 * 16 + 1, 16).unwrap_err();
    assert_eq!(e, TileError::RasterTooLarge { grid_w: 65536, grid_h: 1 });
    assert_eq!(
        e.message(),
        "raster too large: grid 65536×1 tiles exceeds 16-bit tile key range"
    );
    let grid = TileGrid::new(65535 * 16, 16).unwrap();
    let crossings = vec![RowCrossing { ty: 0, tx1: 70_000 }; 65_538];
    let e = build_tile_records(&crossings, grid).err().unwrap();
    assert_eq!(e.message(), "tile record count overflows u32");
}

#[test]
fn order_of_crossings_does_not_matter() {
    for eo in [false, true] {
        let inside = aa_fill_cpu_sample(&[1, 1, -1], eo);
        assert!(inside);
        assert_eq!(aa_fill_cpu_sample(&[1, -1, 1], eo), inside);
        assert_eq!(aa_fill_cpu_sample(&[-1, 1, 1], eo), inside);
    }
}

#[test]
fn samples_follow_the_fill_rule() {
    assert!(aa_fill_cpu_sample(&[1], false));
    assert!(aa_fill_cpu_sample(&[-1], true));
    assert!(!aa_fill_cpu_sample(&[1, -1], false));
    assert!(aa_fill_cpu_sample(&[1, 1], false));
    assert!(!aa_fill_cpu_sample(&[1, 1], true));
    assert!(!aa_fill_cpu_sample(&[], false));
}

#[test]
fn coverage_of_samples() {
    assert_eq!(aa_fill_cpu_pixel(&[true; 64]), 255);
    assert_eq!(aa_fill_cpu_pixel(&[false; 64]), 0);
    let mut half = [false; 64];
    for s in half.iter_mut().take(32) {
        *s = true;
    }
    assert_eq!(aa_fill_cpu_pixel(&half), 128);
}
