use gpu::jpeg::canonical::CanonicalCodebook;
use gpu::jpeg::headers::{DhtClass, JpegHuffmanTable};
use gpu::jpeg_decoder::bitstream::{pack_be_words, PackedBitstream};
use gpu::jpeg_decoder::jpeg_framing::{decode_scan_symbols, JpegFramingError};
use gpu::jpeg_decoder::jpeg_walk::{phase1_jpeg_walk_snapshot, try_decode_one_jpeg_symbol};
use gpu::jpeg_decoder::phase1_oracle::{
    phase1_walk, phase1_walk_snapshot, JpegStep, Phase1Stop, SubsequenceState,
};
use gpu::jpeg_decoder::phase2_oracle::{
    jpeg_phase2_retry_bound, jpeg_phase2_run_to_sync, phase2_run_to_sync, retry_bound,
    Phase2Outcome,
};
use gpu::jpeg_decoder::prepared::{prepare_jpeg, JpegPreparedInput};
use gpu::jpeg_decoder::schedule::build_mcu_schedule;

/// Codes `00`, `01`, `100` and `101` for the symbols 0 to 3.
fn book4_codebook() -> CanonicalCodebook {
    let table = JpegHuffmanTable {
        class: DhtClass::Dc,
        table_id: 0,
        num_codes: [0, 2, 2, 0, 0, 0, 0, 0, 0, 0, 0, 0, 0, 0, 0, 0],
        values: vec![0x00, 0x01, 0x02, 0x03],
    };
    CanonicalCodebook::build(&table).unwrap()
}

/// Bytes of the bit string `bits`, padded with ones.
fn bit_bytes(bits: &str) -> Vec<u8> {
    let mut out = Vec::new();
    let digits: Vec<u8> = bits.bytes().filter(|b| *b != b' ').collect();
    for chunk in digits.chunks(8) {
        let mut byte = 0u8;
        for k in 0..8 {
            byte = (byte << 1) | chunk.get(k).map_or(1, |b| b - b'0');
        }
        out.push(byte);
    }
    out
}

fn book4_stream(symbols: &[u8]) -> PackedBitstream {
    let codes = ["00", "01", "100", "101"];
    let bits: String = symbols.iter().map(|s| codes[*s as usize]).collect();
    let length = u32::try_from(bits.len()).unwrap();
    pack_be_words(&bit_bytes(&bits), length)
}

fn entropy_bytes(bits: &str) -> Vec<u8> {
    let mut out = Vec::new();
    for byte in bit_bytes(bits) {
        out.push(byte);
        if byte == 0xFF {
            out.push(0x00);
        }
    }
    out
}

/// DC codes: `00` is category 0, `010` is category 3.
/// AC codes: `00` EOB, `01` 0/1, `100` 1/2, `101` 0/2, `1100` ZRL, `1101` 1/1.
fn luma_tables() -> Vec<u8> {
    let mut s = vec![0xFF, 0xC4, 0x00, 21, 0x00];
    s.extend_from_slice(&[0, 1, 1, 0, 0, 0, 0, 0, 0, 0, 0, 0, 0, 0, 0, 0]);
    s.extend_from_slice(&[0x00, 0x03]);
    s.extend_from_slice(&[0xFF, 0xC4, 0x00, 25, 0x10]);
    s.extend_from_slice(&[0, 2, 2, 2, 0, 0, 0, 0, 0, 0, 0, 0, 0, 0, 0, 0]);
    s.extend_from_slice(&[0x00, 0x01, 0x12, 0x02, 0xF0, 0x11]);
    s
}

/// DC codes: `0` is category 2, `10` is category 0.
/// AC codes: `0` 0/1, `10` EOB.
fn chroma_tables() -> Vec<u8> {
    let mut s = vec![0xFF, 0xC4, 0x00, 21, 0x01];
    s.extend_from_slice(&[1, 1, 0, 0, 0, 0, 0, 0, 0, 0, 0, 0, 0, 0, 0, 0]);
    s.extend_from_slice(&[0x02, 0x00]);
    s.extend_from_slice(&[0xFF, 0xC4, 0x00, 21, 0x11]);
    s.extend_from_slice(&[1, 1, 0, 0, 0, 0, 0, 0, 0, 0, 0, 0, 0, 0, 0, 0]);
    s.extend_from_slice(&[0x01, 0x00]);
    s
}

/// A 16 x 16 gray image of four blocks.
fn gray_16x16() -> Vec<u8> {
    let mut d = vec![0xFF, 0xD8, 0xFF, 0xDB, 0x00, 67, 0x00];
    d.extend_from_slice(&[7u8; 64]);
    d.extend_from_slice(&[0xFF, 0xC0, 0x00, 11, 8, 0, 16, 0, 16, 1, 1, 0x11, 0]);
    d.extend_from_slice(&luma_tables());
    d.extend_from_slice(&[0xFF, 0xDA, 0x00, 8, 1, 1, 0x00, 0, 63, 0]);
    d.extend_from_slice(&entropy_bytes(
        "010 101 101 11 100 01 00  00 1100 01 0 00  010 001 00  00 1101 1 01 1 00",
    ));
    d.extend_from_slice(&[0xFF, 0xD9]);
    d
}

/// A 32 x 32 colour image without subsampling: sixteen MCUs of three blocks.
fn colour_32x32_444() -> Vec<u8> {
    let mut d = vec![0xFF, 0xD8];
    for slot in 0..2u8 {
        d.extend_from_slice(&[0xFF, 0xDB, 0x00, 67, slot]);
        d.extend_from_slice(&[9u8; 64]);
    }
    d.extend_from_slice(&[0xFF, 0xC0, 0x00, 17, 8, 0, 32, 0, 32, 3]);
    d.extend_from_slice(&[1, 0x11, 0, 2, 0x11, 1, 3, 0x11, 1]);
    d.extend_from_slice(&luma_tables());
    d.extend_from_slice(&chroma_tables());
    d.extend_from_slice(&[0xFF, 0xDA, 0x00, 12, 3, 1, 0x00, 2, 0x11, 3, 0x11, 0, 63, 0]);
    let mut bits = String::new();
    for mcu in 0..16 {
        bits.push_str(if mcu % 3 == 0 { "010 110" } else { "00" });
        bits.push_str(if mcu % 2 == 0 { "01 1 1101 0 00" } else { "101 10 00" });
        bits.push_str(if mcu % 4 == 0 { "0 10 0 1 0 0 10" } else { "10 0 1 10" });
        bits.push_str(if mcu % 5 == 0 { "10 10" } else { "0 01 0 0 10" });
    }
    d.extend_from_slice(&entropy_bytes(&bits));
    d.extend_from_slice(&[0xFF, 0xD9]);
    d
}

#[test]
fn walks_one_symbol_advances_correctly() {
    let stream = book4_stream(&[0x00]);
    let book = [book4_codebook()];
    let (state, stop) = phase1_walk(&stream, &book, 0, 2, 2);
    assert_eq!(stop, Phase1Stop::HardLimit);
    assert_eq!(state.p, 2);
    assert_eq!(state.n, 1);
    assert_eq!(state.c, 0);
    assert_eq!(state.z, 1);
}

#[test]
fn walks_64_symbols_rolls_over_zig_zag() {
    let symbols = vec![0x00; 64];
    let stream = book4_stream(&symbols);
    let book = [book4_codebook(), book4_codebook()];
    let (state, _) = phase1_walk(&stream, &book, 0, 128, 128);
    assert_eq!(state.n, 64);
    assert_eq!(state.z, 0);
    assert_eq!(state.c, 1);
}

#[test]
fn walks_64_symbols_single_component_rolls_back_to_0() {
    let symbols = vec![0x00; 64];
    let stream = book4_stream(&symbols);
    let book = [book4_codebook()];
    let (state, _) = phase1_walk(&stream, &book, 0, 128, 128);
    assert_eq!(state.n, 64);
    assert_eq!(state.z, 0);
    assert_eq!(state.c, 0);
}

#[test]
fn stops_at_hard_limit() {
    let symbols = vec![0x00; 5];
    let stream = book4_stream(&symbols);
    let book = [book4_codebook()];
    let (state, stop) = phase1_walk(&stream, &book, 0, 6, 6);
    assert_eq!(stop, Phase1Stop::HardLimit);
    assert_eq!(state.p, 6);
    assert_eq!(state.n, 3);
}

#[test]
fn start_bit_offsets_into_stream() {
    let symbols = vec![0x00; 4];
    let stream = book4_stream(&symbols);
    let book = [book4_codebook()];
    let (state, _) = phase1_walk(&stream, &book, 2, 8, 8);
    assert_eq!(state.p, 8);
    assert_eq!(state.n, 3);
}

#[test]
fn empty_stream_returns_initial_state() {
    let stream = PackedBitstream { words: vec![], length_bits: 0 };
    let book = [book4_codebook()];
    let (state, stop) = phase1_walk(&stream, &book, 0, 0, 0);
    assert_eq!(stop, Phase1Stop::HardLimit);
    assert_eq!(state.p, 0);
    assert_eq!(state.n, 0);
}

fn one_code(class: DhtClass, symbol: u8) -> CanonicalCodebook {
    let table = JpegHuffmanTable {
        class,
        table_id: 0,
        num_codes: [1, 0, 0, 0, 0, 0, 0, 0, 0, 0, 0, 0, 0, 0, 0, 0],
        values: vec![symbol],
    };
    CanonicalCodebook::build(&table).unwrap()
}

#[test]
fn stops_on_prefix_miss() {
    let book = [one_code(DhtClass::Dc, 42)];
    let stream = PackedBitstream { words: vec![0x8000_0000], length_bits: 1 };
    let (state, stop) = phase1_walk(&stream, &book, 0, 1, 1);
    assert_eq!(stop, Phase1Stop::PrefixMiss);
    assert_eq!(state.n, 0);
    assert_eq!(state.p, 0);
}

#[test]
fn stops_on_length_bits_mid_codeword() {
    let stream = PackedBitstream { words: vec![0x0000_0000], length_bits: 1 };
    let book = [book4_codebook()];
    let (state, stop) = phase1_walk(&stream, &book, 0, 1, 1);
    assert_eq!(stop, Phase1Stop::LengthBits);
    assert_eq!(state.n, 0);
}

#[test]
fn ac_symbol_advances_by_code_plus_value_bits() {
    let book = [one_code(DhtClass::Ac, 0x52)];
    let stream = PackedBitstream { words: vec![0x0000_0000], length_bits: 12 };
    let (state, stop) = phase1_walk(&stream, &book, 0, 12, 12);
    assert_eq!(stop, Phase1Stop::HardLimit);
    assert_eq!(state.p, 12, "p should advance by 4 * (1 + 2) = 12");
    assert_eq!(state.n, 4, "4 symbols decoded");
}

#[test]
fn snapshot_survives_decode_error_after_boundary() {
    let full = book4_stream(&[0x00; 4]);
    let stream = PackedBitstream { words: full.words, length_bits: 7 };
    let book = [book4_codebook()];
    let (state, stop) = phase1_walk_snapshot(&stream, &book, 0, 7, 4);
    assert_eq!(stop, Phase1Stop::LengthBits);
    assert_eq!(
        state,
        SubsequenceState { p: 4, n: 2, c: 0, z: 2 },
        "boundary snapshot must survive the post-snapshot decode error"
    );
}

#[test]
fn jpeg_snapshot_survives_decode_error_after_boundary() {
    let dc_book = one_code(DhtClass::Dc, 0x00);
    let ac_book = one_code(DhtClass::Ac, 0x00);
    let stream = PackedBitstream { words: vec![0x0200_0000], length_bits: 7 };
    let (state, stop) =
        phase1_jpeg_walk_snapshot(&stream, &[&dc_book], &[&ac_book], &[0], 1, 0, 7, 4);
    assert_eq!(stop, Phase1Stop::PrefixMiss);
    assert_eq!(
        state,
        SubsequenceState { p: 4, n: 4, c: 0, z: 0 },
        "boundary snapshot must survive the post-snapshot decode error"
    );
}

#[test]
fn cross_subsequence_walk_matches_continued_decode() {
    let symbols = vec![0x00; 100];
    let stream = book4_stream(&symbols);
    let book = [book4_codebook()];
    let length_bits = stream.length_bits;
    assert_eq!(length_bits, 200);

    let (state_full, _) = phase1_walk(&stream, &book, 0, length_bits, length_bits);
    let (state_first, _) = phase1_walk(&stream, &book, 0, 100, 100);
    let (state_second, _) = phase1_walk(&stream, &book, state_first.p, length_bits, length_bits);

    assert_eq!(state_full.p, length_bits);
    assert_eq!(state_full.n, 100);
    assert_eq!(state_first.p, 100);
    assert_eq!(state_first.n, 50);
    assert_eq!(state_second.p, length_bits);
    assert_eq!(state_second.n, 50);
    assert_eq!(state_full.c, 0);
    assert_eq!(state_full.z, 100 % 64);
}

fn build_phase1_s_info(
    bitstream: &PackedBitstream,
    tables: &[CanonicalCodebook],
    subsequence_bits: u32,
) -> Vec<SubsequenceState> {
    let n = bitstream.length_bits.div_ceil(subsequence_bits);
    (0..n)
        .map(|i| {
            let start_bit = i * subsequence_bits;
            let hard_limit = bitstream.length_bits.min(start_bit + 2 * subsequence_bits);
            let count_to = bitstream.length_bits.min(start_bit + subsequence_bits);
            phase1_walk_snapshot(bitstream, tables, start_bit, hard_limit, count_to).0
        })
        .collect()
}

#[test]
fn retry_bound_zero_for_zero_or_one_subseqs() {
    assert_eq!(retry_bound(0), 0);
    assert_eq!(retry_bound(1), 0);
}

#[test]
fn retry_bound_matches_2_log2_ceil() {
    assert_eq!(retry_bound(2), 2);
    assert_eq!(retry_bound(3), 4);
    assert_eq!(retry_bound(4), 4);
    assert_eq!(retry_bound(1024), 20);
}

#[test]
fn empty_or_singleton_converges_in_zero_iterations() {
    let stream = book4_stream(&[0x00; 100]);
    let book = [book4_codebook()];
    let mut empty: Vec<SubsequenceState> = vec![];
    let r = phase2_run_to_sync(&mut empty, &stream, &book, 128);
    assert_eq!(r, Phase2Outcome::Converged { iterations: 0 });

    let mut one = build_phase1_s_info(&stream, &book, 256);
    assert_eq!(one.len(), 1);
    let r = phase2_run_to_sync(&mut one, &stream, &book, 256);
    assert_eq!(r, Phase2Outcome::Converged { iterations: 0 });
}

#[test]
fn well_formed_uniform_stream_converges_in_zero_iterations() {
    let stream = book4_stream(&[0x00; 1024]);
    let book = [book4_codebook()];
    assert_eq!(stream.length_bits % 128, 0, "test setup invariant");
    let mut s_info = build_phase1_s_info(&stream, &book, 128);
    let r = phase2_run_to_sync(&mut s_info, &stream, &book, 128);
    assert_eq!(r, Phase2Outcome::Converged { iterations: 0 });
}

#[test]
fn unsynced_input_advances_until_aligned() {
    let stream = book4_stream(&[0x00; 1024]);
    let book = [book4_codebook()];
    let mut s_info = build_phase1_s_info(&stream, &book, 128);
    s_info[0].z = (s_info[0].z + 63) % 64;
    let r = phase2_run_to_sync(&mut s_info, &stream, &book, 128);
    match r {
        Phase2Outcome::Converged { iterations } => {
            assert!(iterations <= 2, "expected fast convergence, got {iterations} iterations");
        }
        Phase2Outcome::SyncBoundExceeded { bound } => {
            panic!("unexpected SyncBoundExceeded with bound {bound}");
        }
    }
}

#[test]
fn adversarial_input_returns_sync_bound_exceeded() {
    let stream = book4_stream(&[0x00; 1000]);
    let book = [book4_codebook()];
    let mut s_info = build_phase1_s_info(&stream, &book, 128);
    for (i, s) in s_info.iter_mut().enumerate() {
        s.z = u32::try_from(i).expect("test fixture: 16 fits u32") & 63;
    }
    let r = phase2_run_to_sync(&mut s_info, &stream, &book, 128);
    assert!(
        matches!(r, Phase2Outcome::SyncBoundExceeded { .. }),
        "expected SyncBoundExceeded, got {r:?}"
    );
}

fn build_jpeg_phase1_s_info(
    prep: &JpegPreparedInput,
    mcu_schedule: &[u32],
    blocks_per_mcu: u32,
    subsequence_bits: u32,
) -> Vec<SubsequenceState> {
    let dc_refs = prep.dc_codebooks_for_dispatch();
    let ac_refs = prep.ac_codebooks_for_dispatch();
    let length_bits = prep.bitstream.length_bits;
    let n = length_bits.div_ceil(subsequence_bits);
    (0..n)
        .map(|i| {
            let start_bit = i * subsequence_bits;
            let hard_limit = length_bits.min(start_bit + 2 * subsequence_bits);
            let count_to = length_bits.min(start_bit + subsequence_bits);
            phase1_jpeg_walk_snapshot(
                &prep.bitstream,
                &dc_refs,
                &ac_refs,
                mcu_schedule,
                blocks_per_mcu,
                start_bit,
                hard_limit,
                count_to,
            )
            .0
        })
        .collect()
}

/// One continuous walk from bit 0, cut at the region boundaries.
fn sequential_truth(
    prep: &JpegPreparedInput,
    mcu_schedule: &[u32],
    blocks_per_mcu: u32,
    subsequence_bits: u32,
) -> Vec<SubsequenceState> {
    let dc_refs = prep.dc_codebooks_for_dispatch();
    let ac_refs = prep.ac_codebooks_for_dispatch();
    let length_bits = prep.bitstream.length_bits;
    let n_regions = length_bits.div_ceil(subsequence_bits);
    let mut snaps: Vec<Option<SubsequenceState>> = vec![None; n_regions as usize];
    let mut counts = vec![0u32; n_regions as usize];

    let mut state = SubsequenceState { p: 0, n: 0, c: 0, z: 0 };
    while state.p < length_bits {
        let p_before = state.p;
        let next = match try_decode_one_jpeg_symbol(
            state,
            &prep.bitstream,
            &dc_refs,
            &ac_refs,
            mcu_schedule,
            blocks_per_mcu,
            length_bits,
        ) {
            JpegStep::Advanced(next) => next,
            JpegStep::Failed(fail_state, _stop) => {
                if fail_state.n != state.n {
                    counts[(p_before / subsequence_bits) as usize] += 1;
                }
                state = fail_state;
                break;
            }
        };
        counts[(p_before / subsequence_bits) as usize] += 1;
        let first = p_before / subsequence_bits;
        let last = (next.p - 1) / subsequence_bits;
        for k in first..=last.min(n_regions - 1) {
            let crossed = next.p >= length_bits.min((k + 1) * subsequence_bits);
            if crossed && snaps[k as usize].is_none() {
                snaps[k as usize] = Some(next);
            }
        }
        state = next;
    }

    snaps
        .into_iter()
        .zip(counts)
        .map(|(snap, n)| {
            let mut s = snap.unwrap_or(state);
            s.n = n;
            s
        })
        .collect()
}

#[test]
fn jpeg_retry_bound_is_num_subsequences_minus_one() {
    assert_eq!(jpeg_phase2_retry_bound(0), 0);
    assert_eq!(jpeg_phase2_retry_bound(1), 0);
    assert_eq!(jpeg_phase2_retry_bound(2), 1);
    assert_eq!(jpeg_phase2_retry_bound(17), 16);
}

#[test]
fn jpeg_empty_or_singleton_converges_in_zero_iterations() {
    let prep = prepare_jpeg(&gray_16x16()).unwrap();
    let (sched, bpm) = build_mcu_schedule(&prep);
    let dc_refs = prep.dc_codebooks_for_dispatch();
    let ac_refs = prep.ac_codebooks_for_dispatch();

    let mut empty: Vec<SubsequenceState> = vec![];
    let r = jpeg_phase2_run_to_sync(
        &mut empty,
        &prep.bitstream,
        &dc_refs,
        &ac_refs,
        &sched,
        bpm,
        128,
    );
    assert_eq!(r, Phase2Outcome::Converged { iterations: 0 });

    let big = prep.bitstream.length_bits.next_power_of_two();
    let mut one = build_jpeg_phase1_s_info(&prep, &sched, bpm, big);
    assert_eq!(one.len(), 1);
    let r = jpeg_phase2_run_to_sync(
        &mut one,
        &prep.bitstream,
        &dc_refs,
        &ac_refs,
        &sched,
        bpm,
        big,
    );
    assert_eq!(r, Phase2Outcome::Converged { iterations: 0 });
}

#[test]
fn jpeg_propagation_converges_to_truth_on_grayscale() {
    let prep = prepare_jpeg(&gray_16x16()).unwrap();
    let (sched, bpm) = build_mcu_schedule(&prep);
    let dc_refs = prep.dc_codebooks_for_dispatch();
    let ac_refs = prep.ac_codebooks_for_dispatch();
    let ssb = (prep.bitstream.length_bits / 4).max(1);

    let mut s_info = build_jpeg_phase1_s_info(&prep, &sched, bpm, ssb);
    assert!(s_info.len() > 1, "fixture must span multiple subsequences");
    let r = jpeg_phase2_run_to_sync(
        &mut s_info,
        &prep.bitstream,
        &dc_refs,
        &ac_refs,
        &sched,
        bpm,
        ssb,
    );
    assert!(matches!(r, Phase2Outcome::Converged { .. }), "expected convergence, got {r:?}");
    assert_eq!(s_info, sequential_truth(&prep, &sched, bpm, ssb));
}

#[test]
fn jpeg_propagation_converges_to_truth_on_ycbcr_444() {
    for ssb in [16u32, 32] {
        let prep = prepare_jpeg(&colour_32x32_444()).unwrap();
        assert_eq!(prep.components.len(), 3, "fixture must be 3-component");
        let (sched, bpm) = build_mcu_schedule(&prep);
        let dc_refs = prep.dc_codebooks_for_dispatch();
        let ac_refs = prep.ac_codebooks_for_dispatch();

        let truth = sequential_truth(&prep, &sched, bpm, ssb);
        let mut s_info = build_jpeg_phase1_s_info(&prep, &sched, bpm, ssb);
        assert_ne!(
            s_info, truth,
            "precondition: fresh-start Phase 1 output must be wrong (otherwise this test is vacuous)"
        );

        let r = jpeg_phase2_run_to_sync(
            &mut s_info,
            &prep.bitstream,
            &dc_refs,
            &ac_refs,
            &sched,
            bpm,
            ssb,
        );
        assert!(
            matches!(r, Phase2Outcome::Converged { .. }),
            "ssb={ssb}: expected convergence, got {r:?}"
        );
        assert_eq!(s_info, truth, "ssb={ssb}: converged s_info must be true");
    }
}

#[test]
fn grayscale_walk_emits_per_block_dc_then_ac() {
    let prep = prepare_jpeg(&gray_16x16()).unwrap();
    let symbols = decode_scan_symbols(&prep).expect("clean walk");
    assert!(symbols.len() >= 8, "expected ≥ 8 symbols for 4 blocks, got {}", symbols.len());
    for s in &symbols {
        assert!(*s <= 0xFF, "symbol {s:#x} has unexpected upper bits");
    }
    assert_eq!(
        symbols,
        vec![3, 0x02, 0x12, 0x00, 0, 0xF0, 0x01, 0x00, 3, 0x00, 0, 0x11, 0x01, 0x00]
    );
}

#[test]
fn grayscale_dc_symbol_categories_match_prepass_dc_chain() {
    let prep = prepare_jpeg(&gray_16x16()).unwrap();
    let symbols = decode_scan_symbols(&prep).unwrap();
    let dc_values = &prep.dc_values.per_component[0];
    let mut cursor = 0;
    for (block_idx, &absolute_dc) in dc_values.iter().enumerate() {
        assert!(
            cursor < symbols.len(),
            "block {block_idx}: ran out of symbols at cursor {cursor}",
        );
        let dc_cat = symbols[cursor];
        assert!(
            dc_cat <= 11,
            "block {block_idx}: DC category {dc_cat} exceeds baseline cap (absolute DC = {absolute_dc})",
        );
        cursor += 1;
        let mut ac_emitted = 0;
        while ac_emitted < 63 && cursor < symbols.len() {
            let sym = symbols[cursor];
            cursor += 1;
            ac_emitted += 1;
            if sym == 0x00 {
                break;
            }
        }
    }
    assert_eq!(
        cursor,
        symbols.len(),
        "consumed {cursor} of {} symbols — emitter and consumer disagree on block count",
        symbols.len(),
    );
}

#[test]
fn empty_unstuffed_bitstream_yields_no_symbols_for_zero_mcus() {
    let mut prep = prepare_jpeg(&gray_16x16()).unwrap();
    prep.width = 0;
    prep.height = 0;
    let symbols = decode_scan_symbols(&prep).unwrap();
    assert!(symbols.is_empty(), "0×0 image must emit no symbols");
}

#[test]
fn rejects_restart_aware_input_with_typed_error() {
    let mut prep = prepare_jpeg(&gray_16x16()).unwrap();
    prep.restart_interval = 4;
    let err = decode_scan_symbols(&prep).expect_err("RST interval must be refused");
    assert!(
        matches!(err, JpegFramingError::RestartMarkersUnsupported { restart_interval: 4 }),
        "expected RestartMarkersUnsupported(4), got: {err:?}",
    );
}

#[test]
fn truncated_bitstream_surfaces_unexpected_end() {
    let mut prep = prepare_jpeg(&gray_16x16()).unwrap();
    prep.bitstream.length_bits = 4;
    let err = decode_scan_symbols(&prep).expect_err("truncated stream must fail");
    assert!(
        matches!(err, JpegFramingError::UnexpectedEnd { mcu_index: 0, .. }),
        "expected UnexpectedEnd at MCU 0, got: {err:?}",
    );
}

#[test]
fn degenerate_sampling_factor_is_refused() {
    let mut prep = prepare_jpeg(&gray_16x16()).unwrap();
    prep.components[0].h_sampling = 0;
    let err = decode_scan_symbols(&prep).expect_err("degenerate sampling must be refused");
    assert!(
        matches!(err, JpegFramingError::DegenerateSampling { scan_component: 0 }),
        "expected DegenerateSampling(0), got: {err:?}",
    );
}
