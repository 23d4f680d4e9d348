use gpu::backend::error::{BackendError, SizedBuffers};
use gpu::backend::huffman_params::{HuffmanPhase, HUFFMAN_CODEBOOK_ENTRIES};
use gpu::jpeg::canonical::CanonicalCodebook;
use gpu::jpeg::headers::{DhtClass, JpegHuffmanTable};
use gpu::jpeg_decoder::binding::SlotTable;
use gpu::jpeg_decoder::bitstream::{pack_be_words, PackedBitstream};
use gpu::jpeg_decoder::decoder::JpegGpuDecoder;
use gpu::jpeg_decoder::device::{
    downloaded_words, upload_bytes, DeviceAction, DeviceReply, HuffmanLaunch, Slot,
};
use gpu::jpeg_decoder::error::JpegGpuError;
use gpu::jpeg_decoder::extract::extract_coefficients;
use gpu::jpeg_decoder::assemble::symbols_to_coefficients;
use gpu::jpeg_decoder::huffman_dispatch::{
    dispatch_jpeg_phase1_intra_sync, dispatch_jpeg_phase1_then_phase2,
    dispatch_jpeg_phase1_through_phase4, dispatch_phase1_intra_sync, dispatch_phase1_then_phase2,
    dispatch_phase1_through_phase4, Dispatch,
};
use gpu::jpeg_decoder::huffman_driver::HuffmanRun;
use gpu::jpeg_decoder::huffman_run::HuffmanOutput;
use gpu::jpeg_decoder::idct_run::{DeviceImage, IdctRun};
use gpu::jpeg_decoder::jpeg_framing::decode_scan_symbols;
use gpu::jpeg_decoder::jpeg_walk::phase1_jpeg_walk_snapshot;
use gpu::jpeg_decoder::offsets::phase3_offsets;
use gpu::jpeg_decoder::phase1_oracle::{phase1_walk_snapshot, SubsequenceState};
use gpu::jpeg_decoder::phase2_oracle::{
    jpeg_phase2_run_to_sync, phase2_run_to_sync, Phase2Outcome,
};
use gpu::jpeg_decoder::prepared::prepare_jpeg;
use gpu::jpeg_decoder::schedule::{build_gpu_codebook, build_mcu_schedule};

/// Codes `00`, `01`, `100` and `101` for the symbols 0 to 3.
fn book4_codebook() -> CanonicalCodebook {
    let table = JpegHuffmanTable {
        class: DhtClass::Dc,
        table_id: 0,
        num_codes: [0, 2, 2, 0, 0, 0, 0, 0, 0, 0, 0, 0, 0, 0, 0, 0],
        values: vec![0x00, 0x01, 0x02, 0x03],
    };
    CanonicalCodebook::build(&table).unwrap()
}

/// Bytes of the bit string `bits`, padded with ones.
fn bit_bytes(bits: &str) -> Vec<u8> {
    let mut out = Vec::new();
    let digits: Vec<u8> = bits.bytes().filter(|b| *b != b' ').collect();
    for chunk in digits.chunks(8) {
        let mut byte = 0u8;
        for k in 0..8 {
            byte = (byte << 1) | chunk.get(k).map_or(1, |b| b - b'0');
        }
        out.push(byte);
    }
    out
}

/// Each symbol's code, with as many value bits as the symbol asks for.
fn book4_stream(symbols: &[u8]) -> PackedBitstream {
    let codes = ["00", "01 0", "100 00", "101 000"];
    let bits: String = symbols.iter().map(|s| codes[*s as usize].replace(' ', "")).collect();
    let length = u32::try_from(bits.len()).unwrap();
    pack_be_words(&bit_bytes(&bits), length)
}

fn entropy_bytes(bits: &str) -> Vec<u8> {
    let mut out = Vec::new();
    for byte in bit_bytes(bits) {
        out.push(byte);
        if byte == 0xFF {
            out.push(0x00);
        }
    }
    out
}

/// DC codes: `00` is category 0, `010` is category 3.
/// AC codes: `00` EOB, `01` 0/1, `100` 1/2, `101` 0/2, `1100` ZRL, `1101` 1/1.
fn luma_tables() -> Vec<u8> {
    let mut s = vec![0xFF, 0xC4, 0x00, 21, 0x00];
    s.extend_from_slice(&[0, 1, 1, 0, 0, 0, 0, 0, 0, 0, 0, 0, 0, 0, 0, 0]);
    s.extend_from_slice(&[0x00, 0x03]);
    s.extend_from_slice(&[0xFF, 0xC4, 0x00, 25, 0x10]);
    s.extend_from_slice(&[0, 2, 2, 2, 0, 0, 0, 0, 0, 0, 0, 0, 0, 0, 0, 0]);
    s.extend_from_slice(&[0x00, 0x01, 0x12, 0x02, 0xF0, 0x11]);
    s
}

/// DC codes: `0` is category 2, `10` is category 0.
/// AC codes: `0` 0/1, `10` EOB.
fn chroma_tables() -> Vec<u8> {
    let mut s = vec![0xFF, 0xC4, 0x00, 21, 0x01];
    s.extend_from_slice(&[1, 1, 0, 0, 0, 0, 0, 0, 0, 0, 0, 0, 0, 0, 0, 0]);
    s.extend_from_slice(&[0x02, 0x00]);
    s.extend_from_slice(&[0xFF, 0xC4, 0x00, 21, 0x11]);
    s.extend_from_slice(&[1, 1, 0, 0, 0, 0, 0, 0, 0, 0, 0, 0, 0, 0, 0, 0]);
    s.extend_from_slice(&[0x01, 0x00]);
    s
}

/// A 16 x 16 gray image of four blocks.
fn gray_16x16() -> Vec<u8> {
    let mut d = vec![0xFF, 0xD8, 0xFF, 0xDB, 0x00, 67, 0x00];
    d.extend_from_slice(&[7u8; 64]);
    d.extend_from_slice(&[0xFF, 0xC0, 0x00, 11, 8, 0, 16, 0, 16, 1, 1, 0x11, 0]);
    d.extend_from_slice(&luma_tables());
    d.extend_from_slice(&[0xFF, 0xDA, 0x00, 8, 1, 1, 0x00, 0, 63, 0]);
    d.extend_from_slice(&entropy_bytes(
        "010 101 101 11 100 01 00  00 1100 01 0 00  010 001 00  00 1101 1 01 1 00",
    ));
    d.extend_from_slice(&[0xFF, 0xD9]);
    d
}

/// A 32 x 32 colour image without subsampling: sixteen MCUs of three blocks.
fn colour_32x32_444() -> Vec<u8> {
    let mut d = vec![0xFF, 0xD8];
    for slot in 0..2u8 {
        d.extend_from_slice(&[0xFF, 0xDB, 0x00, 67, slot]);
        d.extend_from_slice(&[9u8; 64]);
    }
    d.extend_from_slice(&[0xFF, 0xC0, 0x00, 17, 8, 0, 32, 0, 32, 3]);
    d.extend_from_slice(&[1, 0x11, 0, 2, 0x11, 1, 3, 0x11, 1]);
    d.extend_from_slice(&luma_tables());
    d.extend_from_slice(&chroma_tables());
    d.extend_from_slice(&[0xFF, 0xDA, 0x00, 12, 3, 1, 0x00, 2, 0x11, 3, 0x11, 0, 63, 0]);
    let mut bits = String::new();
    for mcu in 0..16 {
        bits.push_str(if mcu % 3 == 0 { "010 110" } else { "00" });
        bits.push_str(if mcu % 2 == 0 { "01 1 1101 0 00" } else { "101 10 00" });
        bits.push_str(if mcu % 4 == 0 { "0 10 0 1 0 0 10" } else { "10 0 1 10" });
        bits.push_str(if mcu % 5 == 0 { "10 10" } else { "0 01 0 0 10" });
    }
    d.extend_from_slice(&entropy_bytes(&bits));
    d.extend_from_slice(&[0xFF, 0xD9]);
    d
}

/// A device in host memory that runs the Huffman kernels.
struct Device {
    buffers: SlotTable<Vec<u32>>,
    live: usize,
    calls: usize,
    fail_at: Option<usize>,
}

impl Device {
    fn new() -> Self {
        Device { buffers: SlotTable::new(), live: 0, calls: 0, fail_at: None }
    }

    fn words(&self, slot: Slot) -> Vec<u32> {
        self.buffers.get(slot).expect("buffer is allocated").clone()
    }

    fn store(&mut self, slot: Slot, words: Vec<u32>) {
        let old = self.buffers.take(slot).expect("buffer is allocated");
        assert_eq!(old.len(), words.len());
        self.buffers.put(slot, words);
    }

    fn perform(&mut self, action: DeviceAction) -> DeviceReply {
        if let DeviceAction::Free { slot } = action {
            self.buffers.take(slot).expect("buffer is allocated");
            self.live -= 1;
            return DeviceReply::Done;
        }
        self.calls += 1;
        if Some(self.calls) == self.fail_at {
            return DeviceReply::Failed(BackendError::Message("device lost".to_string()));
        }
        match action {
            DeviceAction::Allocate { slot, bytes, .. } => {
                assert!(self.buffers.get(slot).is_none());
                assert_eq!(bytes % 4, 0);
                self.buffers.put(slot, vec![0; (bytes / 4) as usize]);
                self.live += 1;
                DeviceReply::Done
            }
            DeviceAction::Upload { slot, words } => {
                let bytes = upload_bytes(&words);
                let mut buffer = self.words(slot);
                buffer[..words.len()].copy_from_slice(&downloaded_words(&bytes).unwrap());
                self.store(slot, buffer);
                DeviceReply::Done
            }
            DeviceAction::Download { slot, words } => {
                DeviceReply::Words(self.words(slot)[..words as usize].to_vec())
            }
            DeviceAction::RecordHuffman(launch) => {
                self.launch(&launch);
                DeviceReply::Done
            }
            _ => DeviceReply::Done,
        }
    }

    fn states(&self, slot: Slot) -> Vec<SubsequenceState> {
        self.words(slot)
            .chunks_exact(4)
            .map(|w| SubsequenceState { p: w[0], n: w[1], c: w[2], z: w[3] })
            .collect()
    }

    fn store_states(&mut self, slot: Slot, states: &[SubsequenceState]) {
        self.store(slot, states.iter().flat_map(|s| [s.p, s.n, s.c, s.z]).collect());
    }

    /// One symbol: the next state and the symbol, or nothing on an error.
    fn step(&self, l: &HuffmanLaunch, s: SubsequenceState) -> Option<(SubsequenceState, u32)> {
        let stream = self.buffers.get(l.bitstream).unwrap();
        let (w, b) = ((s.p / 32) as usize, s.p % 32);
        let two = (u64::from(stream[w]) << 32)
            | u64::from(stream.get(w + 1).copied().unwrap_or(0));
        let prefix = ((two << b) >> 48) as usize;
        let jpeg = l.phase.is_jpeg_framed();
        let (slot, table) = if jpeg {
            let entry = self.buffers.get(l.mcu_schedule.unwrap()).unwrap()[s.c as usize];
            if s.z == 0 {
                (l.dc_codebook.unwrap(), (entry >> 8) & 0xFF)
            } else {
                (l.codebook, (entry >> 16) & 0xFF)
            }
        } else {
            (l.codebook, s.c)
        };
        let book = self.buffers.get(slot).unwrap();
        let entry = book[table as usize * HUFFMAN_CODEBOOK_ENTRIES + prefix];
        let (bits, symbol) = (entry >> 8, entry & 0xFF);
        let value = if jpeg && s.z == 0 { symbol } else { symbol & 0x0F };
        if bits == 0 || s.p + bits + value > l.length_bits {
            return None;
        }
        let z = if !jpeg || s.z == 0 {
            s.z + 1
        } else if symbol == 0 {
            64
        } else if symbol == 0xF0 {
            s.z + 16
        } else {
            s.z + (symbol >> 4) + 1
        };
        if z > 64 {
            return None;
        }
        let around = if jpeg { l.blocks_per_mcu } else { l.num_components };
        let (c, z) = if z == 64 { ((s.c + 1) % around, 0) } else { (s.c, z) };
        Some((SubsequenceState { p: s.p + bits + value, n: s.n, c, z }, symbol))
    }

    /// Walk up to `end`, counting the symbols that start before `count_to`.
    fn walk(&self, l: &HuffmanLaunch, from: SubsequenceState, end: u32) -> SubsequenceState {
        let mut s = from;
        while s.p < end {
            match self.step(l, s) {
                Some((next, _)) => s = SubsequenceState { n: s.n + 1, ..next },
                None => break,
            }
        }
        s
    }

    fn launch(&mut self, l: &HuffmanLaunch) {
        let count = l.length_bits.div_ceil(l.subsequence_bits);
        let end = |i: u32| l.length_bits.min((i + 1) * l.subsequence_bits);
        match l.phase {
            HuffmanPhase::Phase1IntraSync | HuffmanPhase::JpegPhase1IntraSync => {
                let states: Vec<SubsequenceState> = (0..count)
                    .map(|i| {
                        let from =
                            SubsequenceState { p: i * l.subsequence_bits, n: 0, c: 0, z: 0 };
                        self.walk(l, from, end(i))
                    })
                    .collect();
                self.store_states(l.s_info, &states);
            }
            HuffmanPhase::Phase2InterSync => {
                let mut states = self.states(l.s_info);
                let mut flags = vec![1; count as usize];
                for i in 0..count as usize - 1 {
                    let (me, next) = (states[i], states[i + 1]);
                    let boundary = (i as u32 + 1) * l.subsequence_bits;
                    if me.p < boundary || me.c != next.c || me.z != next.z {
                        flags[i] = 0;
                        if let Some((s, _)) = self.step(l, me) {
                            let n = me.n + u32::from(me.p < boundary);
                            states[i] = SubsequenceState { n, ..s };
                        }
                    }
                }
                self.store_states(l.s_info, &states);
                self.store(l.sync_flags.unwrap(), flags);
            }
            HuffmanPhase::JpegPhase2InterSync => {
                let before = self.states(l.s_info_prev.unwrap());
                let mut after = before.clone();
                for i in 1..count as usize {
                    let from = SubsequenceState { n: 0, ..before[i - 1] };
                    after[i] = self.walk(l, from, end(i as u32));
                }
                let flags = (0..count as usize).map(|i| u32::from(before[i] == after[i])).collect();
                self.store_states(l.s_info, &after);
                self.store(l.sync_flags.unwrap(), flags);
            }
            HuffmanPhase::Phase4Redecode | HuffmanPhase::JpegPhase4Redecode => {
                let states = self.states(l.s_info);
                let offsets = self.words(l.offsets.unwrap());
                let mut out = self.words(l.symbols_out.unwrap());
                let mut status = vec![0; count as usize];
                let mut s = SubsequenceState { p: 0, n: 0, c: 0, z: 0 };
                for i in 0..count as usize {
                    let mut at = offsets[i] as usize;
                    while s.p < states[i].p {
                        match self.step(l, s) {
                            Some((next, symbol)) => {
                                out[at] = symbol;
                                at += 1;
                                s = next;
                            }
                            None => {
                                status[i] = 1;
                                break;
                            }
                        }
                    }
                }
                assert_eq!(l.total_symbols as usize, out.len());
                self.store(l.symbols_out.unwrap(), out);
                self.store(l.decode_status.unwrap(), status);
            }
        }
    }

    fn drive(&mut self, mut run: HuffmanRun) -> Result<HuffmanOutput, BackendError> {
        loop {
            let action = run.next_action();
            if action == DeviceAction::Finish {
                assert_eq!(self.live, 0, "every buffer is freed");
                return run.into_outcome().expect("a finished run has a result");
            }
            let reply = self.perform(action);
            run.advance(reply);
        }
    }

    fn carry_out(
        &mut self,
        dispatch: Result<Dispatch, BackendError>,
    ) -> Result<HuffmanOutput, BackendError> {
        match dispatch? {
            Dispatch::Ready(output) => Ok(output),
            Dispatch::Run(run) => self.drive(run),
        }
    }

    fn drive_idct(&mut self, mut run: IdctRun) -> Result<DeviceImage, JpegGpuError> {
        loop {
            let action = run.next_action();
            if action == DeviceAction::Finish {
                return run.outcome().expect("a finished run has a result");
            }
            let reply = self.perform(action);
            run.advance(reply);
        }
    }
}

fn states_of(output: HuffmanOutput) -> Vec<SubsequenceState> {
    match output {
        HuffmanOutput::States(s) => s,
        other => panic!("expected states, got {other:?}"),
    }
}

fn synced_of(output: HuffmanOutput) -> (Vec<SubsequenceState>, Phase2Outcome) {
    match output {
        HuffmanOutput::Synced(s, o) => (s, o),
        other => panic!("expected synced states, got {other:?}"),
    }
}

fn symbols_of(output: HuffmanOutput) -> Vec<u32> {
    match output {
        HuffmanOutput::Symbols(s) => s,
        other => panic!("expected symbols, got {other:?}"),
    }
}

fn assert_phase1_parity(stream: &PackedBitstream, tables: &[CanonicalCodebook], subseq_bits: u32) {
    let run = dispatch_phase1_intra_sync(stream, tables, subseq_bits);
    let gpu = states_of(Device::new().carry_out(run).expect("dispatch ok"));
    let num_subseq = stream.length_bits.div_ceil(subseq_bits);
    assert_eq!(u32::try_from(gpu.len()).expect("subseq count fits u32"), num_subseq);
    for seq_idx in 0..num_subseq {
        let start_bit = seq_idx * subseq_bits;
        let hard_limit = stream.length_bits.min(start_bit + 2 * subseq_bits);
        let count_to = stream.length_bits.min(start_bit + subseq_bits);
        let (cpu, _stop) = phase1_walk_snapshot(stream, tables, start_bit, hard_limit, count_to);
        assert_eq!(
            gpu[seq_idx as usize], cpu,
            "subsequence {seq_idx} GPU vs CPU state mismatch"
        );
    }
}

#[test]
fn phase1_single_subsequence_matches_cpu() {
    let symbols = vec![0x00; 100];
    let stream = book4_stream(&symbols);
    let book = [book4_codebook()];
    assert_phase1_parity(&stream, &book, 256);
}

#[test]
fn phase1_two_subsequences_match_cpu() {
    let symbols = vec![0x00; 128];
    let stream = book4_stream(&symbols);
    let book = [book4_codebook()];
    assert_phase1_parity(&stream, &book, 128);
}

#[test]
fn phase1_many_subsequences_match_cpu() {
    let symbols = vec![0x00; 1000];
    let stream = book4_stream(&symbols);
    let book = [book4_codebook()];
    assert_phase1_parity(&stream, &book, 128);
}

#[test]
fn phase1_mixed_symbols_match_cpu() {
    let symbols: Vec<u8> = (0..1000u32).map(|i| (i % 4) as u8).collect();
    let stream = book4_stream(&symbols);
    let book = [book4_codebook()];
    assert_phase1_parity(&stream, &book, 128);
}

#[test]
fn phase1_multi_component_match_cpu() {
    let symbols = vec![0x00; 200];
    let stream = book4_stream(&symbols);
    let book = [book4_codebook(), book4_codebook(), book4_codebook()];
    assert_phase1_parity(&stream, &book, 64);
}

#[test]
fn build_gpu_codebook_packs_entries_correctly() {
    let table = JpegHuffmanTable {
        class: DhtClass::Dc,
        table_id: 0,
        num_codes: [1, 0, 0, 0, 0, 0, 0, 0, 0, 0, 0, 0, 0, 0, 0, 0],
        values: vec![42],
    };
    let book = CanonicalCodebook::build(&table).unwrap();
    let flat = build_gpu_codebook(&[book]);
    assert_eq!(flat.len(), HUFFMAN_CODEBOOK_ENTRIES);
    assert_eq!(flat[0], 298);
    assert_eq!(flat[0x7FFF], 298);
    assert_eq!(flat[0x8000], 0);
}

#[test]
fn phase2_well_formed_stream_converges_immediately_cuda() {
    let stream = book4_stream(&[0x00; 1024]);
    let book = [book4_codebook()];
    let run = dispatch_phase1_then_phase2(&stream, &book, 128);
    let (s_info, outcome) = synced_of(Device::new().carry_out(run).expect("dispatch"));
    assert_eq!(s_info.len(), 16);
    assert_eq!(outcome, Phase2Outcome::Converged { iterations: 0 });
}

#[test]
fn phase2_matches_cpu_oracle_well_formed_cuda() {
    let stream = book4_stream(&[0x00; 1024]);
    let book = [book4_codebook()];
    let run = dispatch_phase1_then_phase2(&stream, &book, 128);
    let (gpu_s_info, _outcome) = synced_of(Device::new().carry_out(run).expect("dispatch"));
    let mut cpu_s_info: Vec<SubsequenceState> = (0u32..16)
        .map(|i| {
            let start_bit = i * 128;
            let hard_limit = stream.length_bits.min(start_bit + 2 * 128);
            let count_to = stream.length_bits.min(start_bit + 128);
            phase1_walk_snapshot(&stream, &book, start_bit, hard_limit, count_to).0
        })
        .collect();
    let cpu_outcome = phase2_run_to_sync(&mut cpu_s_info, &stream, &book, 128);
    assert!(matches!(cpu_outcome, Phase2Outcome::Converged { .. }));
    assert_eq!(gpu_s_info, cpu_s_info);
}

#[test]
fn phase3_offsets_match_exclusive_scan_cuda() {
    let stream = book4_stream(&[0x00; 1024]);
    let book = [book4_codebook()];
    let run = dispatch_phase1_then_phase2(&stream, &book, 128);
    let (s_info, _outcome) = synced_of(Device::new().carry_out(run).expect("phase1+2"));
    let (offsets, total) = phase3_offsets(&s_info).expect("phase3");
    assert_eq!(offsets.len(), s_info.len());
    assert_eq!(offsets[0], 0, "exclusive scan starts at 0");
    for i in 1..offsets.len() {
        assert_eq!(offsets[i], offsets[i - 1] + s_info[i - 1].n);
    }
    assert_eq!(total, 1024);
}

#[test]
fn phase3_single_subsequence_cuda() {
    let stream = book4_stream(&[0x00; 100]);
    let book = [book4_codebook()];
    let run = dispatch_phase1_then_phase2(&stream, &book, 256);
    let (s_info, _outcome) = synced_of(Device::new().carry_out(run).expect("phase1+2"));
    assert_eq!(s_info.len(), 1);
    let (offsets, _) = phase3_offsets(&s_info).expect("phase3");
    assert_eq!(offsets, vec![0]);
}

#[test]
fn phase3_empty_input_cuda() {
    let (offsets, total) = phase3_offsets(&[]).expect("phase3 empty");
    assert!(offsets.is_empty());
    assert_eq!(total, 0);
}

#[test]
fn phase3_matches_cpu_exclusive_scan_mixed_cuda() {
    let symbols: Vec<u8> = (0..1000u32).map(|i| (i % 4) as u8).collect();
    let stream = book4_stream(&symbols);
    let book = [book4_codebook()];
    let run = dispatch_phase1_then_phase2(&stream, &book, 128);
    let (s_info, _outcome) = synced_of(Device::new().carry_out(run).expect("phase1+2"));

    let mut sum = 0;
    let mut cpu_off = Vec::new();
    for s in &s_info {
        cpu_off.push(sum);
        sum += s.n;
    }
    let (gpu_off, total) = phase3_offsets(&s_info).expect("phase3");
    assert_eq!(gpu_off, cpu_off);
    assert_eq!(total, sum);
}

#[test]
fn phase3_refuses_an_overflow() {
    let s = SubsequenceState { p: 0, n: u32::MAX, c: 0, z: 0 };
    assert!(phase3_offsets(&[s, s]).is_none());
}

#[test]
fn end_to_end_uniform_stream_cuda() {
    let symbols: Vec<u8> = vec![0x00; 1024];
    let stream = book4_stream(&symbols);
    let book = [book4_codebook()];
    let run = dispatch_phase1_through_phase4(&stream, &book, 128);
    let decoded = symbols_of(Device::new().carry_out(run).expect("e2e"));
    assert_eq!(decoded.len(), symbols.len(), "symbol count mismatch");
    let got: Vec<u8> =
        decoded.iter().map(|&v| u8::try_from(v & 0xFF).expect("symbol fits u8")).collect();
    assert_eq!(got, symbols, "decoded stream diverges from input");
}

#[test]
fn end_to_end_mixed_codeword_lengths_cuda_documented_limitation() {
    let symbols: Vec<u8> = (0..1000u32).map(|i| (i % 4) as u8).collect();
    let stream = book4_stream(&symbols);
    let book = [book4_codebook()];
    let run = dispatch_phase1_through_phase4(&stream, &book, 128);
    match Device::new().carry_out(run) {
        Ok(output) => {
            let got: Vec<u8> = symbols_of(output)
                .iter()
                .map(|&v| u8::try_from(v & 0xFF).expect("symbol fits u8"))
                .collect();
            assert_eq!(got, symbols, "decoded stream diverges from input");
        }
        Err(e) => {
            let msg = e.message();
            assert!(msg.contains("Phase 2 did not converge"), "unexpected error: {msg}");
        }
    }
}

#[test]
fn a_single_region_needs_no_sync() {
    let symbols: Vec<u8> = (0..1000u32).map(|i| (i % 4) as u8).collect();
    let stream = book4_stream(&symbols);
    let book = [book4_codebook()];
    let run = dispatch_phase1_through_phase4(&stream, &book, stream.length_bits);
    let got: Vec<u8> =
        symbols_of(Device::new().carry_out(run).unwrap()).iter().map(|&v| v as u8).collect();
    assert_eq!(got, symbols);
}

#[test]
fn unsynced_streams_are_refused_by_the_end_to_end_run() {
    // A shorter last region: its slot never agrees with its neighbour's.
    let stream = book4_stream(&[0x00; 1000]);
    let book = [book4_codebook()];
    let run = dispatch_phase1_through_phase4(&stream, &book, 128);
    let err = Device::new().carry_out(run).unwrap_err();
    assert_eq!(
        err.message(),
        "dispatch_phase1_through_phase4: Phase 2 did not converge within retry bound"
    );
}

#[test]
fn jpeg_phase1_cuda_matches_cpu_oracle_grayscale() {
    let prep = prepare_jpeg(&gray_16x16()).expect("baseline grayscale must prepare");
    let (mcu_sched, blocks_per_mcu) = build_mcu_schedule(&prep);
    let subsequence_bits = 32u32;
    let run = dispatch_jpeg_phase1_intra_sync(&prep, subsequence_bits);
    let gpu_states = states_of(Device::new().carry_out(run).expect("JPEG Phase 1 dispatch"));

    let dc_refs = prep.dc_codebooks_for_dispatch();
    let ac_refs = prep.ac_codebooks_for_dispatch();
    let num_subseq = prep.bitstream.length_bits.div_ceil(subsequence_bits);
    assert_eq!(gpu_states.len() as u32, num_subseq);
    for seq_idx in 0..num_subseq {
        let start_bit = seq_idx * subsequence_bits;
        let hard_limit = prep.bitstream.length_bits.min(start_bit + 2 * subsequence_bits);
        let count_to = prep.bitstream.length_bits.min(start_bit + subsequence_bits);
        let (cpu, _stop) = phase1_jpeg_walk_snapshot(
            &prep.bitstream,
            &dc_refs,
            &ac_refs,
            &mcu_sched,
            blocks_per_mcu,
            start_bit,
            hard_limit,
            count_to,
        );
        assert_eq!(
            gpu_states[seq_idx as usize], cpu,
            "subsequence {seq_idx}: GPU vs CPU JPEG Phase 1 state mismatch"
        );
    }
}

#[test]
fn jpeg_phase2_cuda_converges_on_grayscale() {
    let prep = prepare_jpeg(&gray_16x16()).expect("baseline grayscale must prepare");
    let run = dispatch_jpeg_phase1_then_phase2(&prep, 32);
    let (s_info, outcome) = synced_of(Device::new().carry_out(run).expect("dispatch ok"));
    let num_subseq = prep.bitstream.length_bits.div_ceil(32);
    assert_eq!(s_info.len() as u32, num_subseq);
    assert!(
        matches!(outcome, Phase2Outcome::Converged { .. }),
        "expected convergence on grayscale, got {outcome:?}"
    );
}

#[test]
fn jpeg_phase2_cuda_snapshots_past_start_bit() {
    let prep = prepare_jpeg(&gray_16x16()).expect("baseline grayscale must prepare");
    let subseq_bits = 32u32;
    let run = dispatch_jpeg_phase1_then_phase2(&prep, subseq_bits);
    let (s_info, _) = synced_of(Device::new().carry_out(run).expect("dispatch ok"));
    for (i, s) in s_info.iter().enumerate() {
        let start_p = i as u32 * subseq_bits;
        assert!(
            s.p >= start_p,
            "subseq {i}: snapshot p={} is before start_bit={start_p}",
            s.p
        );
    }
}

#[test]
fn jpeg_phase2_cuda_matches_propagation_oracle_on_ycbcr() {
    let prep = prepare_jpeg(&colour_32x32_444()).expect("colour 4:4:4 JPEG must prepare");
    assert_eq!(prep.components.len(), 3, "fixture must be 3-component");
    let subseq_bits = 32u32;

    let run = dispatch_jpeg_phase1_then_phase2(&prep, subseq_bits);
    let (gpu_s_info, gpu_outcome) = synced_of(Device::new().carry_out(run).expect("dispatch ok"));

    // CPU: same Phase 1 (per-subseq fresh-start snapshots), then the
    // propagation oracle.
    let (mcu_sched, blocks_per_mcu) = build_mcu_schedule(&prep);
    let dc_refs = prep.dc_codebooks_for_dispatch();
    let ac_refs = prep.ac_codebooks_for_dispatch();
    let length_bits = prep.bitstream.length_bits;
    let mut cpu_s_info: Vec<SubsequenceState> = (0..length_bits.div_ceil(subseq_bits))
        .map(|i| {
            let start_bit = i * subseq_bits;
            let hard_limit = length_bits.min(start_bit + 2 * subseq_bits);
            let count_to = length_bits.min(start_bit + subseq_bits);
            let (state, _stop) = phase1_jpeg_walk_snapshot(
                &prep.bitstream,
                &dc_refs,
                &ac_refs,
                &mcu_sched,
                blocks_per_mcu,
                start_bit,
                hard_limit,
                count_to,
            );
            state
        })
        .collect();
    let cpu_outcome = jpeg_phase2_run_to_sync(
        &mut cpu_s_info,
        &prep.bitstream,
        &dc_refs,
        &ac_refs,
        &mcu_sched,
        blocks_per_mcu,
        subseq_bits,
    );

    assert_eq!(gpu_outcome, cpu_outcome, "GPU vs CPU Phase 2 outcome");
    assert_eq!(gpu_s_info, cpu_s_info, "GPU vs CPU converged s_info");

    // The result is a fixpoint: a second call changes nothing.
    let synced = cpu_s_info.clone();
    let again = jpeg_phase2_run_to_sync(
        &mut cpu_s_info,
        &prep.bitstream,
        &dc_refs,
        &ac_refs,
        &mcu_sched,
        blocks_per_mcu,
        subseq_bits,
    );
    assert_eq!(again, Phase2Outcome::Converged { iterations: 0 });
    assert_eq!(cpu_s_info, synced);
}

#[test]
fn jpeg_phase4_cuda_matches_oracle_on_grayscale() {
    let prep = prepare_jpeg(&gray_16x16()).expect("baseline grayscale must prepare");
    let run = dispatch_jpeg_phase1_through_phase4(&prep, 32);
    let gpu_syms = symbols_of(Device::new().carry_out(run).expect("CUDA phase4 dispatch"));
    let cpu_syms = decode_scan_symbols(&prep).expect("CPU oracle");
    assert_eq!(gpu_syms, cpu_syms);
}

#[test]
fn jpeg_phase4_cuda_stable_across_subseq_sizes() {
    let prep = prepare_jpeg(&gray_16x16()).expect("baseline grayscale must prepare");
    let decode = |bits: u32| {
        let run = dispatch_jpeg_phase1_through_phase4(&prep, bits);
        symbols_of(Device::new().carry_out(run).expect("dispatch"))
    };
    assert_eq!(decode(16), decode(32), "subseq 16 vs 32 symbol mismatch");
    assert_eq!(decode(32), decode(64), "subseq 32 vs 64 symbol mismatch");
}

#[test]
fn jpeg_phase4_cuda_matches_oracle_on_ycbcr_444() {
    let prep = prepare_jpeg(&colour_32x32_444()).expect("colour 4:4:4 JPEG must prepare");
    assert_eq!(prep.components.len(), 3, "fixture must be 3-component YCbCr");
    let run = dispatch_jpeg_phase1_through_phase4(&prep, 32);
    let gpu_syms = symbols_of(Device::new().carry_out(run).expect("CUDA phase4 dispatch"));
    let cpu_syms = decode_scan_symbols(&prep).expect("CPU oracle");
    assert_eq!(gpu_syms, cpu_syms);
}

#[test]
fn jpeg_phase4_cuda_ycbcr_stable_across_subseq_sizes() {
    let prep = prepare_jpeg(&colour_32x32_444()).expect("colour 4:4:4 JPEG must prepare");
    let decode = |bits: u32| {
        let run = dispatch_jpeg_phase1_through_phase4(&prep, bits);
        symbols_of(Device::new().carry_out(run).expect("dispatch"))
    };
    assert_eq!(decode(16), decode(32), "YCbCr subseq 16 vs 32 symbol mismatch");
    assert_eq!(decode(32), decode(64), "YCbCr subseq 32 vs 64 symbol mismatch");
}

#[test]
fn a_failing_device_leaves_nothing_allocated() {
    let prep = prepare_jpeg(&gray_16x16()).unwrap();
    for at in 1..60 {
        let mut device = Device::new();
        device.fail_at = Some(at);
        let run = dispatch_jpeg_phase1_through_phase4(&prep, 16);
        match device.carry_out(run) {
            Err(e) => assert_eq!(e, BackendError::Message("device lost".to_string())),
            Ok(_) => assert!(device.calls < at),
        }
    }
}

#[test]
fn nothing_is_dispatched_for_an_empty_stream() {
    let stream = PackedBitstream { words: vec![], length_bits: 0 };
    let book = [book4_codebook()];
    match dispatch_phase1_through_phase4(&stream, &book, 128) {
        Ok(Dispatch::Ready(output)) => assert_eq!(symbols_of(output), Vec::<u32>::new()),
        _ => panic!("an empty stream is ready"),
    }
}

#[test]
fn words_survive_the_device() {
    let words = vec![0x0102_0304, 0xFFEE_DDCC, 0];
    let bytes = upload_bytes(&words);
    assert_eq!(bytes.len(), 12);
    assert!(bytes[..4] == [1, 2, 3, 4] || bytes[..4] == [4, 3, 2, 1]);
    assert_eq!(downloaded_words(&bytes), Some(words));
    assert_eq!(downloaded_words(&bytes[..5]), None);
}

/// A gray image whose component references the second of two tables.
fn gray_jpeg_with_tq1() -> Vec<u8> {
    let base = gray_16x16();
    let sof = base
        .windows(2)
        .position(|w| w == [0xff, 0xc0])
        .expect("fixture must contain an SOF0 marker");
    let mut out = Vec::with_capacity(base.len() + 69);
    out.extend_from_slice(&base[..sof]);
    out.extend_from_slice(&[0xff, 0xdb, 0x00, 0x43, 0x01]);
    out.extend_from_slice(&[0x02; 64]);
    out.extend_from_slice(&base[sof..]);
    let tq = sof + 69 + 12;
    assert_eq!(out[tq], 0x00, "fixture component must reference slot 0");
    out[tq] = 0x01;
    out
}

#[test]
fn grayscale_component_gets_its_referenced_qtable() {
    let bytes = gray_jpeg_with_tq1();
    let prep = prepare_jpeg(&bytes).expect("prepare crafted grayscale JPEG");
    assert_eq!(prep.components.len(), 1);
    assert_eq!(prep.components[0].quant_selector, 1);
    let (_coef, _dc, qt_flat, num_qtables) =
        extract_coefficients(&prep).ok().expect("extract");
    assert_eq!(
        &qt_flat[..64],
        &[2i32; 64][..],
        "packed table 0 must be the component's referenced (slot 1) table"
    );
    assert_eq!(num_qtables, 1, "grayscale packs exactly one table");
}

#[test]
fn coefficients_of_the_gray_image() {
    let prep = prepare_jpeg(&gray_16x16()).unwrap();
    let (coef, dc, _, _) = extract_coefficients(&prep).ok().unwrap();
    assert_eq!(dc, vec![5, 5, -1, -1]);
    assert_eq!(coef.len(), 4 * 64);
    assert_eq!(coef[1], 3);
    assert_eq!(coef[3], -2);
    assert_eq!(coef[64 + 17], -1);
    let symbols = decode_scan_symbols(&prep).unwrap();
    let (from_symbols, dc_again) = symbols_to_coefficients(&prep, &symbols).ok().unwrap();
    assert_eq!(dc_again, dc);
    for block in 0..4 {
        assert_eq!(from_symbols[block * 64 + 1..block * 64 + 64], coef[block * 64 + 1..block * 64 + 64]);
    }
}

#[test]
fn decoder_decodes_grayscale_jpeg_on_cuda() {
    let dec = JpegGpuDecoder::new(SizedBuffers);
    let bytes = gray_16x16();
    let run = dec.decode(&bytes).ok().expect("decode");
    let mut device = Device::new();
    let img = device.drive_idct(run).ok().expect("decode");
    assert_eq!(img.width, 16);
    assert_eq!(img.height, 16);
    assert_eq!(device.words(Slot::Pixels).len(), 16 * 16);
    assert_eq!(device.live, 1);
}

#[test]
fn decoder_refuses_what_the_kernel_cannot_take() {
    let dec = JpegGpuDecoder::new(SizedBuffers);
    let mut bytes = gray_16x16();
    let sof = bytes.windows(2).position(|w| w == [0xff, 0xc0]).unwrap();
    bytes[sof + 11] = 0x22;
    let err = dec.accept(&bytes).err().unwrap();
    assert_eq!(err, JpegGpuError::UnsupportedSubsampling { component: 1, h: 2, v: 2 });
    let mut colour = colour_32x32_444();
    let sof = colour.windows(2).position(|w| w == [0xff, 0xc0]).unwrap();
    colour[sof + 15] = 0;
    let err = dec.decode(&colour).err().unwrap();
    assert_eq!(
        err.message(),
        JpegGpuError::HeaderParse(
            "component 1 uses quantisation table slot 0 but kernel expects slot 1; only \
             JFIF-standard slot assignment (0=luma, 1=chroma) is supported"
                .to_string()
        )
        .message()
    );
    assert!(matches!(dec.decode(&[0, 1, 2]), Err(JpegGpuError::HeaderParse(_))));
}

#[test]
fn a_failing_device_frees_the_idct_buffers() {
    let dec = JpegGpuDecoder::new(SizedBuffers);
    for at in 1..12 {
        let mut device = Device::new();
        device.fail_at = Some(at);
        let run = dec.decode(&colour_32x32_444()).ok().unwrap();
        let result = device.drive_idct(run);
        assert!(matches!(result, Err(JpegGpuError::Dispatch(_))));
        assert_eq!(device.live, 0);
    }
}
