use gpu::jpeg::bitreader::BitReader;
use gpu::jpeg::dc_chain::blocks_per_mcu;
use gpu::jpeg::entropy::extend;
use gpu::jpeg::headers::{DhtClass, JpegHeaderError, JpegHeaders};
use gpu::jpeg::unstuff::{unstuff_into, RstPosition, UnstuffError};
use gpu::jpeg_decoder::bitstream::pack_be_words;

/// Bytes of the bit string `bits`, padded with ones, each 0xFF stuffed.
fn entropy_bytes(bits: &str) -> Vec<u8> {
    let mut out = Vec::new();
    let digits: Vec<u8> = bits.bytes().filter(|b| *b != b' ').collect();
    for chunk in digits.chunks(8) {
        let mut byte = 0u8;
        for k in 0..8 {
            byte = (byte << 1) | chunk.get(k).map_or(1, |b| b - b'0');
        }
        out.push(byte);
        if byte == 0xFF {
            out.push(0x00);
        }
    }
    out
}

/// Quantisation values of the fixtures: 6, 4, 5, then 7 throughout.
fn quant_values() -> [u8; 64] {
    let mut q = [7u8; 64];
    q[0] = 6;
    q[1] = 4;
    q[2] = 5;
    q
}

/// DC codes: `00` is category 0, `010` is category 3.
/// AC codes: `00` EOB, `01` 0/1, `100` 1/2, `101` 0/2, `1100` ZRL, `1101` 1/1.
fn huffman_segments() -> Vec<u8> {
    let mut s = vec![0xFF, 0xC4, 0x00, 21, 0x00];
    s.extend_from_slice(&[0, 1, 1, 0, 0, 0, 0, 0, 0, 0, 0, 0, 0, 0, 0, 0]);
    s.extend_from_slice(&[0x00, 0x03]);
    s.extend_from_slice(&[0xFF, 0xC4, 0x00, 25, 0x10]);
    s.extend_from_slice(&[0, 2, 2, 2, 0, 0, 0, 0, 0, 0, 0, 0, 0, 0, 0, 0]);
    s.extend_from_slice(&[0x00, 0x01, 0x12, 0x02, 0xF0, 0x11]);
    s
}

/// A 16 x 16 gray image of four blocks with DC values 5, 5, -1, -1.
fn gray_16x16() -> Vec<u8> {
    let mut d = vec![0xFF, 0xD8, 0xFF, 0xDB, 0x00, 67, 0x00];
    d.extend_from_slice(&quant_values());
    d.extend_from_slice(&[0xFF, 0xC0, 0x00, 11, 8, 0, 16, 0, 16, 1, 1, 0x11, 0]);
    d.extend_from_slice(&huffman_segments());
    d.extend_from_slice(&[0xFF, 0xDA, 0x00, 8, 1, 1, 0x00, 0, 63, 0]);
    d.extend_from_slice(&entropy_bytes(
        "010 101 101 11 100 01 00  00 1100 01 0 00  010 001 00  00 1101 1 01 1 00",
    ));
    d.extend_from_slice(&[0xFF, 0xD9]);
    d
}

#[test]
fn reads_bytes_msb_first() {
    let src = [0b1010_1100, 0b1111_0000];
    let mut br = BitReader::new(&src);
    assert_eq!(br.read_bits(4), Some(0b1010));
    assert_eq!(br.read_bits(4), Some(0b1100));
    assert_eq!(br.read_bits(4), Some(0b1111));
    assert_eq!(br.read_bits(4), Some(0b0000));
    assert_eq!(br.read_bits(1), None);
}

#[test]
fn handles_mixed_widths() {
    let src = [0b1110_0101, 0b1100_0011];
    let mut br = BitReader::new(&src);
    assert_eq!(br.read_bits(3), Some(0b111));
    assert_eq!(br.read_bits(5), Some(0b00101));
    assert_eq!(br.read_bits(8), Some(0b1100_0011));
}

#[test]
fn peek_does_not_consume() {
    let src = [0xAB, 0xCD];
    let mut br = BitReader::new(&src);
    let p1 = br.peek_u16().unwrap();
    let p2 = br.peek_u16().unwrap();
    assert_eq!(p1, p2);
    assert_eq!(p1, 0xABCD);
}

#[test]
fn pads_short_input_with_zeros_in_peek() {
    let src = [0xAB];
    let mut br = BitReader::new(&src);
    assert_eq!(br.peek_u16(), Some(0xAB00));
}

#[test]
fn realign_clears_buffer_and_seeks() {
    let src = [0xAA, 0xBB, 0xCC, 0xDD];
    let mut br = BitReader::new(&src);
    // Consume part of one byte.
    let _ = br.read_bits(4);
    br.realign_to_byte_at(2);
    // Next read should now come from src[2] = 0xCC.
    assert_eq!(br.read_bits(8), Some(0xCC));
}

#[test]
fn realign_clamps_past_end() {
    let src = [0xAA];
    let mut br = BitReader::new(&src);
    br.realign_to_byte_at(99);
    assert_eq!(br.peek_u16(), None);
}

#[test]
fn byte_position_tracks_mid_byte() {
    // Pin down the byte_position contract: it must report the byte
    // the reader is currently *inside*, not the next one.  This is
    // the load-bearing invariant for RST-boundary detection.
    let src = [0xAA, 0xBB, 0xCC, 0xDD, 0xEE, 0xFF, 0x00, 0x11, 0x22];
    let mut br = BitReader::new(&src);
    // Force a refill to a known state.
    let _ = br.peek_u16();
    assert_eq!(br.byte_position(), 0);
    // Consume one full byte: position advances to byte 1.
    let _ = br.read_bits(8);
    assert_eq!(br.byte_position(), 1);
    // Mid-byte: still inside byte 1.
    let _ = br.read_bits(4);
    assert_eq!(br.byte_position(), 1);
    // Cross into byte 2.
    let _ = br.read_bits(4);
    assert_eq!(br.byte_position(), 2);
}

#[test]
fn empty_input_yields_no_peek() {
    let src: [u8; 0] = [];
    let mut br = BitReader::new(&src);
    assert_eq!(br.peek_u16(), None);
    assert_eq!(br.read_bits(1), None);
}

#[test]
fn read_zero_bits_succeeds_without_consuming() {
    let src = [0xFF, 0xFF];
    let mut br = BitReader::new(&src);
    assert_eq!(br.read_bits(0), Some(0));
    assert_eq!(br.peek_u16(), Some(0xFFFF));
}

#[test]
fn read_exactly_16_bits_is_allowed() {
    // The 16-bit cap is inclusive — pin it down so a future
    // tightening to `< 16` (off-by-one) trips this test.
    let src = [0xAB, 0xCD];
    let mut br = BitReader::new(&src);
    assert_eq!(br.read_bits(16), Some(0xABCD));
}

#[test]
fn try_consume_refuses_past_stream_end_without_mutating() {
    // A zero-padded peek can match a codeword longer than the bits
    // that remain; try_consume must refuse and leave the reader
    // usable rather than panicking (wire data, not a caller bug).
    let mut br = BitReader::new(&[0b1000_0000]);
    assert!(br.try_consume(7));
    assert!(!br.try_consume(2), "only 1 bit remains");
    assert_eq!(br.read_bits(1), Some(0), "refusal must not consume");
    assert!(!br.try_consume(1), "stream exhausted");
}

#[test]
fn try_consume_full_buffer_is_well_defined() {
    // n == 64 exercises the checked shift (a plain `<<= 64` would
    // overflow).
    let mut br = BitReader::new(&[0xAA; 8]);
    let _ = br.peek_u16(); // force a full 64-bit refill
    assert!(br.try_consume(64));
    assert_eq!(br.peek_u16(), None);
}

#[test]
fn extend_zero_returns_zero() {
    assert_eq!(extend(0, 0), 0);
}

#[test]
fn extend_positive_one_bit() {
    assert_eq!(extend(1, 1), 1);
}

#[test]
fn extend_negative_one_bit() {
    assert_eq!(extend(0, 1), -1);
}

#[test]
fn extend_three_bits_examples() {
    // ITU-T T.81 Table F.1: nbits=3 maps to range -7..=-4 ∪ 4..=7.
    assert_eq!(extend(4, 3), 4);
    assert_eq!(extend(7, 3), 7);
    assert_eq!(extend(0, 3), -7);
    assert_eq!(extend(3, 3), -4);
}

#[test]
fn extend_max_baseline_dc_category() {
    // Baseline DC category ≤ 11.  Confirm endpoints don't overflow.
    // For nbits=11: range = -2047..=-1024 ∪ 1024..=2047.
    assert_eq!(extend(0, 11), -2047);
    assert_eq!(extend(1023, 11), -1024);
    assert_eq!(extend(1024, 11), 1024);
    assert_eq!(extend(2047, 11), 2047);
}

#[test]
fn blocks_per_mcu_non_interleaved_is_one() {
    // Single-component scan: always 1 block per MCU regardless of
    // sampling factors (JPEG § A.2.3).
    assert_eq!(blocks_per_mcu(1, 2, 2), 1);
    assert_eq!(blocks_per_mcu(1, 4, 4), 1);
}

#[test]
fn blocks_per_mcu_interleaved_is_h_times_v() {
    assert_eq!(blocks_per_mcu(3, 1, 1), 1);
    assert_eq!(blocks_per_mcu(3, 2, 2), 4);
    assert_eq!(blocks_per_mcu(3, 2, 1), 2);
}

#[test]
fn parse_gray_16x16_basic() {
    let data = gray_16x16();
    let h = JpegHeaders::parse(&data).expect("parse failed");
    assert_eq!(h.width, 16);
    assert_eq!(h.height, 16);
    assert_eq!(h.components, 1);
    assert!(h.quant_tables[0].is_some());
    assert_eq!(h.scan.component_count, 1);
    assert_eq!(h.scan.components[0].id, 1);
    assert!(!h.scan_data.is_empty());
    assert_eq!(h.restart_interval, 0);
}

#[test]
fn parse_extracts_huffman_tables() {
    let data = gray_16x16();
    let h = JpegHeaders::parse(&data).expect("parse failed");
    let dc = h.huffman(DhtClass::Dc, 0).expect("DC luma table missing");
    let ac = h.huffman(DhtClass::Ac, 0).expect("AC luma table missing");
    // Each table holds as many values as its code counts add up to.
    let dc_total: usize = dc.num_codes.iter().map(|&n| n as usize).sum();
    let ac_total: usize = ac.num_codes.iter().map(|&n| n as usize).sum();
    assert_eq!(dc.values.len(), dc_total);
    assert_eq!(ac.values.len(), ac_total);
}

#[test]
fn parse_extracts_quant_table() {
    let data = gray_16x16();
    let h = JpegHeaders::parse(&data).expect("parse failed");
    let qt = h.quant_tables[0].as_ref().expect("DQT 0 missing");
    // First three zigzag values from the DQT in the fixture.
    assert_eq!(qt.values[0], 0x06);
    assert_eq!(qt.values[1], 0x04);
    assert_eq!(qt.values[2], 0x05);
}

#[test]
fn parse_empty_returns_truncated() {
    let err = JpegHeaders::parse(&[]).expect_err("must fail");
    assert_eq!(err, JpegHeaderError::Truncated);
}

#[test]
fn parse_only_soi_returns_truncated() {
    let err = JpegHeaders::parse(&[0xFF, 0xD8]).expect_err("must fail");
    assert_eq!(err, JpegHeaderError::Truncated);
}

#[test]
fn parse_missing_soi_returns_missing_soi() {
    let err = JpegHeaders::parse(&[0x00, 0x00, 0xFF, 0xD8]).expect_err("must fail");
    assert_eq!(err, JpegHeaderError::MissingSoi);
}

#[test]
fn parse_progressive_minimal_returns_not_baseline() {
    // The up-front jpeg_sof_type gate must catch progressive (SOF2) so
    // the caller routes to a different decoder rather than receiving the
    // less-actionable MissingSof0/Truncated.
    let err = JpegHeaders::parse(&[0xFF, 0xD8, 0xFF, 0xC2]).expect_err("must fail");
    assert_eq!(err, JpegHeaderError::NotBaseline);
}

#[test]
fn parse_zero_sampling_factor_returns_bad_sampling_factor() {
    // Construct a SOF0 with H=0, V=1 — the parser must catch this before
    // downstream code reads `blocks_per_mcu = 0`.
    let mut data = vec![0xFF, 0xD8];
    // DQT first (so SOF0 has a valid quantiser to point at).
    data.extend_from_slice(&[0xFF, 0xDB, 0x00, 67, 0]);
    data.extend_from_slice(&[0u8; 64]);
    // SOF0: 1 component, H=0 V=1.
    data.extend_from_slice(&[
        0xFF, 0xC0, 0x00, 11, 8, 0x00, 0x10, 0x00, 0x10, 1, 1, 0x01, 0x00,
    ]);
    data.extend_from_slice(&[0xFF, 0xD9]);
    let err = JpegHeaders::parse(&data).expect_err("H=0 must fail");
    assert!(matches!(
        err,
        JpegHeaderError::BadSamplingFactor {
            h_sampling: 0,
            v_sampling: 1,
        },
    ));
}

#[test]
fn parse_oversize_sampling_factor_returns_bad_sampling_factor() {
    let mut data = vec![0xFF, 0xD8];
    data.extend_from_slice(&[0xFF, 0xDB, 0x00, 67, 0]);
    data.extend_from_slice(&[0u8; 64]);
    // SOF0: 1 component, H=5 V=1 (5 > 4 baseline limit).
    data.extend_from_slice(&[
        0xFF, 0xC0, 0x00, 11, 8, 0x00, 0x10, 0x00, 0x10, 1, 1, 0x51, 0x00,
    ]);
    data.extend_from_slice(&[0xFF, 0xD9]);
    let err = JpegHeaders::parse(&data).expect_err("H=5 must fail");
    assert!(matches!(
        err,
        JpegHeaderError::BadSamplingFactor {
            h_sampling: 5,
            v_sampling: 1,
        },
    ));
}

#[test]
fn comment_segments_change_nothing_but_the_offset() {
    let data = gray_16x16();
    let before = JpegHeaders::parse(&data).unwrap();
    // Behind the start marker, and behind the quantisation table.
    for at in [2, 2 + 69] {
        for marker in [0xE0, 0xE1, 0xFE] {
            let mut longer = data[..at].to_vec();
            longer.extend_from_slice(&[0xFF, marker, 0x00, 6, 0xFF, 0xDA, 1, 2]);
            longer.extend_from_slice(&data[at..]);
            let after = JpegHeaders::parse(&longer).unwrap();
            assert_eq!(after.scan_data_offset, before.scan_data_offset + 8);
            assert_eq!(after.scan_data, before.scan_data);
            assert_eq!((after.width, after.height, after.components), (16, 16, 1));
            assert_eq!(after.huffman_tables.len(), before.huffman_tables.len());
            assert_eq!(after.restart_interval, before.restart_interval);
        }
    }
    let err = JpegHeaders::parse(&[0xFF, 0xD8, 0xFF, 0xFE, 0x00, 2, 0xFF, 0xC2]).unwrap_err();
    assert_eq!(err, JpegHeaderError::NotBaseline);
}

#[test]
fn num_mcus_grayscale_16x16_is_4() {
    let data = gray_16x16();
    let h = JpegHeaders::parse(&data).unwrap();
    // 16x16 with 1:1 sampling → 8x8 MCUs → 2×2 = 4 MCUs.
    assert_eq!(h.num_mcus(), 4);
}

/// Convenience: drive [`unstuff_into`] against fresh buffers and return
/// the unstuffed bytes plus any RST positions encountered.
fn run(src: &[u8]) -> Result<(Vec<u8>, Vec<RstPosition>), UnstuffError> {
    let mut dst = Vec::new();
    let mut rsts = Vec::new();
    unstuff_into(src, &mut dst, &mut rsts)?;
    Ok((dst, rsts))
}

#[test]
fn unstuff_no_ff_passes_through() {
    let (dst, rsts) = run(&[0x12, 0x34, 0x56, 0x78]).unwrap();
    assert_eq!(dst, [0x12, 0x34, 0x56, 0x78]);
    assert!(rsts.is_empty());
}

#[test]
fn unstuff_ff_00_becomes_ff() {
    let (dst, rsts) = run(&[0xFF, 0x00, 0x12, 0xFF, 0x00]).unwrap();
    assert_eq!(dst, [0xFF, 0x12, 0xFF]);
    assert!(rsts.is_empty());
}

#[test]
fn unstuff_records_rst_marker_position() {
    let (dst, rsts) = run(&[0x12, 0xFF, 0xD0, 0x34]).unwrap();
    // The marker bytes are stripped; bits before and after are concatenated.
    assert_eq!(dst, [0x12, 0x34]);
    // RST landed after one emitted byte, marker index 0.
    assert_eq!(
        rsts,
        vec![RstPosition {
            byte_offset_in_dst: 1,
            marker_index: 0,
        }],
    );
}

#[test]
fn unstuff_records_all_rst_marker_indices() {
    for rst in 0xD0..=0xD7u8 {
        let (dst, rsts) = run(&[0xAA, 0xFF, rst, 0xBB]).unwrap();
        assert_eq!(dst, [0xAA, 0xBB], "RST 0x{rst:02X} not handled");
        assert_eq!(rsts.len(), 1);
        assert_eq!(rsts[0].marker_index, rst - 0xD0);
        assert_eq!(rsts[0].byte_offset_in_dst, 1);
    }
}

#[test]
fn unstuff_records_multiple_rst_markers_in_order() {
    // Two RSTs separated by entropy data; index should cycle.
    let src = [0x11, 0xFF, 0xD0, 0x22, 0x33, 0xFF, 0xD1, 0x44];
    let (dst, rsts) = run(&src).unwrap();
    assert_eq!(dst, [0x11, 0x22, 0x33, 0x44]);
    assert_eq!(rsts.len(), 2);
    assert_eq!(rsts[0].byte_offset_in_dst, 1);
    assert_eq!(rsts[0].marker_index, 0);
    assert_eq!(rsts[1].byte_offset_in_dst, 3);
    assert_eq!(rsts[1].marker_index, 1);
}

#[test]
fn unstuff_fill_bytes_consumed() {
    let (dst, rsts) = run(&[0x11, 0xFF, 0xFF, 0x00, 0x22]).unwrap();
    // 0xFF 0xFF → fill (skip leading); next 0xFF 0x00 → literal 0xFF.
    assert_eq!(dst, [0x11, 0xFF, 0x22]);
    assert!(rsts.is_empty());
}

#[test]
fn unstuff_unexpected_marker_returns_error() {
    // 0xFF followed by 0xD9 (EOI) is unexpected mid-scan.
    let mut dst = Vec::new();
    let mut rsts = Vec::new();
    let err = unstuff_into(&[0x11, 0xFF, 0xD9, 0x22], &mut dst, &mut rsts).unwrap_err();
    assert!(matches!(
        err,
        UnstuffError::UnexpectedMarker {
            following: 0xD9,
            offset: 1
        }
    ));
}

#[test]
fn unstuff_trailing_ff_returns_error() {
    let mut dst = Vec::new();
    let mut rsts = Vec::new();
    let err = unstuff_into(&[0x11, 0x22, 0xFF], &mut dst, &mut rsts).unwrap_err();
    assert!(matches!(err, UnstuffError::TrailingFf));
}

#[test]
fn unstuff_long_runs_between_ff_bytes() {
    // Clean runs longer than any vector width, split by stuffed
    // bytes, fills, and an RST — pins the run-splice fast path
    // against the per-byte semantics.
    let mut src = Vec::new();
    let run_a: Vec<u8> = (0..300u32).map(|i| (i % 251) as u8).collect();
    let run_b: Vec<u8> = (0..77u32).map(|i| (i % 199 + 1) as u8).collect();
    src.extend_from_slice(&run_a);
    src.extend_from_slice(&[0xFF, 0x00]);
    src.extend_from_slice(&run_b);
    src.extend_from_slice(&[0xFF, 0xFF, 0xD3]);
    src.extend_from_slice(&run_a);

    let (dst, rsts) = run(&src).unwrap();
    let mut want = Vec::new();
    want.extend_from_slice(&run_a);
    want.push(0xFF);
    want.extend_from_slice(&run_b);
    want.extend_from_slice(&run_a);
    assert_eq!(dst, want);
    assert_eq!(
        rsts,
        vec![RstPosition {
            byte_offset_in_dst: run_a.len() + 1 + run_b.len(),
            marker_index: 3,
        }],
    );
}

#[test]
fn unstuff_clears_buffers_each_call() {
    let mut dst = vec![0xAA, 0xBB, 0xCC];
    let mut rsts = vec![RstPosition {
        byte_offset_in_dst: 99,
        marker_index: 7,
    }];
    unstuff_into(&[0x12, 0x34], &mut dst, &mut rsts).unwrap();
    assert_eq!(dst, [0x12, 0x34]);
    assert!(rsts.is_empty());
}

#[test]
fn pack_empty_is_empty() {
    let out = pack_be_words(&[], 0);
    assert_eq!(out.words, Vec::<u32>::new());
    assert_eq!(out.length_bits, 0);
}

#[test]
fn pack_single_byte_pads_to_word() {
    let out = pack_be_words(&[0b1011_0100], 8);
    assert_eq!(out.words, vec![0xB400_0000]);
    assert_eq!(out.length_bits, 8);
}

#[test]
fn pack_four_bytes_one_word() {
    let out = pack_be_words(&[0xDE, 0xAD, 0xBE, 0xEF], 32);
    assert_eq!(out.words, vec![0xDEAD_BEEF]);
    assert_eq!(out.length_bits, 32);
}

#[test]
fn pack_five_bytes_two_words_tail_zero_padded() {
    let out = pack_be_words(&[0xDE, 0xAD, 0xBE, 0xEF, 0x42], 40);
    assert_eq!(out.words, vec![0xDEAD_BEEF, 0x4200_0000]);
    assert_eq!(out.length_bits, 40);
}

#[test]
fn pack_length_shorter_than_byte_count_preserves_length() {
    // 9 meaningful bits; the final word still carries the full
    // byte (0x80) — bits past length_bits sit in the word but the
    // GPU kernel won't decode them.
    let out = pack_be_words(&[0xFF, 0x80], 9);
    assert_eq!(out.words, vec![0xFF80_0000]);
    assert_eq!(out.length_bits, 9);
}

#[test]
fn pack_zero_length_with_nonempty_bits_emits_no_words() {
    // length_bits == 0 is the source of truth; the bits slice is
    // ignored entirely.
    let out = pack_be_words(&[0xFF, 0xFF, 0xFF, 0xFF], 0);
    assert!(out.words.is_empty());
    assert_eq!(out.length_bits, 0);
}

#[test]
fn pack_input_bytes_past_length_bits_are_dropped() {
    // 5 bytes given but only 24 meaningful bits — packer reads
    // exactly the bytes needed for ceil(24/32) = 1 word (4 bytes).
    // Byte 4 (0x42) sits past length_bits and is silently dropped.
    let out = pack_be_words(&[0xDE, 0xAD, 0xBE, 0xEF, 0x42], 24);
    assert_eq!(out.words, vec![0xDEAD_BEEF]);
    assert_eq!(out.length_bits, 24);
}

#[test]
fn pack_one_bit_high_only() {
    let out = pack_be_words(&[0x80], 1);
    assert_eq!(out.words, vec![0x8000_0000]);
    assert_eq!(out.length_bits, 1);
}

#[test]
fn pack_33_bits_spills_to_second_word_with_one_bit_set() {
    let out = pack_be_words(&[0xFF, 0xFF, 0xFF, 0xFF, 0x80], 33);
    assert_eq!(out.words, vec![0xFFFF_FFFF, 0x8000_0000]);
    assert_eq!(out.length_bits, 33);
}
