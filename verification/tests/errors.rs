//! Every refusal, with an input that meets it.

use gpu::backend::error::SizedBuffers;
use gpu::jpeg::canonical::{CanonicalCodebook, CanonicalCodebookError};
use gpu::jpeg::dc_chain::{resolve_dc_chain, DcChainError};
use gpu::jpeg::headers::{DhtClass, JpegHeaderError, JpegHeaders, JpegHuffmanTable};
use gpu::jpeg::unstuff::UnstuffError;
use gpu::jpeg_decoder::assemble::symbols_to_coefficients;
use gpu::jpeg_decoder::bitstream::{pack_be_words, PackedBitstream};
use gpu::jpeg_decoder::coefficients::CoefficientError;
use gpu::jpeg_decoder::decoder::JpegGpuDecoder;
use gpu::jpeg_decoder::error::JpegGpuError;
use gpu::jpeg_decoder::extract::extract_coefficients;
use gpu::jpeg_decoder::jpeg_framing::{decode_scan_symbols, framing_error, JpegFramingError};
use gpu::jpeg_decoder::jpeg_walk::phase1_jpeg_walk_snapshot;
use gpu::jpeg_decoder::phase1_oracle::{
    try_decode_one_symbol, Phase1Stop, StepOutcome, SubsequenceState,
};
use gpu::jpeg_decoder::prepared::{prepare, prepare_jpeg, JpegPreparedInput, PrepareFailure};

/// Bytes of the bit string `bits`, padded with ones.
fn bit_bytes(bits: &str) -> Vec<u8> {
    let mut out = Vec::new();
    let digits: Vec<u8> = bits.bytes().filter(|b| *b != b' ').collect();
    for chunk in digits.chunks(8) {
        let mut byte = 0u8;
        for k in 0..8 {
            byte = (byte << 1) | chunk.get(k).map_or(1, |b| b - b'0');
        }
        out.push(byte);
    }
    out
}

/// A stream of these bits.
fn bit_stream(bits: &str) -> PackedBitstream {
    let bytes = bit_bytes(bits);
    pack_be_words(&bytes, 8 * bytes.len() as u32)
}

fn segment(marker: u8, body: &[u8]) -> Vec<u8> {
    let len = body.len() + 2;
    let mut s = vec![0xFF, marker, (len / 256) as u8, (len % 256) as u8];
    s.extend_from_slice(body);
    s
}

/// DC codes: `00` is category 0, `010` is category 3.
const DC_TABLE: [u8; 19] = [0x00, 0, 1, 1, 0, 0, 0, 0, 0, 0, 0, 0, 0, 0, 0, 0, 0, 0x00, 0x03];

/// AC codes: `00` EOB, `01` 0/1, `100` 1/2, `101` 0/2, `1100` ZRL, `1101` 1/1.
const AC_TABLE: [u8; 23] = [
    0x10, 0, 2, 2, 2, 0, 0, 0, 0, 0, 0, 0, 0, 0, 0, 0, 0, 0x00, 0x01, 0x12, 0x02, 0xF0, 0x11,
];

/// A 16 x 16 gray image with these tables, scan header and entropy bytes.
fn gray(dc: &[u8], ac: &[u8], sos: &[u8], entropy: &[u8]) -> Vec<u8> {
    let mut d = vec![0xFF, 0xD8];
    let mut quant = vec![0u8];
    quant.extend_from_slice(&[7; 64]);
    d.extend_from_slice(&segment(0xDB, &quant));
    d.extend_from_slice(&segment(0xC0, &[8, 0, 16, 0, 16, 1, 1, 0x11, 0]));
    d.extend_from_slice(&segment(0xC4, dc));
    d.extend_from_slice(&segment(0xC4, ac));
    d.extend_from_slice(&segment(0xDA, sos));
    d.extend_from_slice(entropy);
    d
}

const SOS: [u8; 6] = [1, 1, 0x00, 0, 63, 0];

/// Four blocks without coefficients.
fn flat_gray() -> Vec<u8> {
    let mut entropy = bit_bytes("00 00 00 00 00 00 00 00");
    entropy.extend_from_slice(&[0xFF, 0xD9]);
    gray(&DC_TABLE, &AC_TABLE, &SOS, &entropy)
}

fn flat_prep() -> JpegPreparedInput {
    prepare_jpeg(&flat_gray()).unwrap()
}

fn one_code(class: DhtClass, symbol: u8) -> CanonicalCodebook {
    let table = JpegHuffmanTable {
        class,
        table_id: 0,
        num_codes: [1, 0, 0, 0, 0, 0, 0, 0, 0, 0, 0, 0, 0, 0, 0, 0],
        values: vec![symbol],
    };
    CanonicalCodebook::build(&table).unwrap()
}

fn header_error(segments: &[u8]) -> JpegHeaderError {
    let mut d = vec![0xFF, 0xD8];
    d.extend_from_slice(segments);
    JpegHeaders::parse(&d).expect_err("must fail")
}

#[test]
fn headers_want_markers_and_whole_segments() {
    assert_eq!(header_error(&[0x00, 0xDB]), JpegHeaderError::ExpectedMarker);
    assert_eq!(
        header_error(&[0xFF, 0xDB, 0x00, 67, 0]),
        JpegHeaderError::SegmentOverrun { marker: 0xDB }
    );
    let e = header_error(&[0xFF, 0xE0, 0x00, 1]);
    assert_eq!(e, JpegHeaderError::SegmentTooShort { marker: 0xE0 });
    assert_eq!(e.message(), "segment 0xE0 length < 2 bytes");
    assert_eq!(header_error(&segment(0xDD, &[0, 1, 2])), JpegHeaderError::BadDriLength { length: 5 });
}

#[test]
fn frame_headers_are_checked() {
    assert_eq!(header_error(&segment(0xDA, &SOS)), JpegHeaderError::MissingSof0);
    assert_eq!(
        header_error(&segment(0xC0, &[12, 0, 16, 0, 16, 1, 1, 0x11, 0])),
        JpegHeaderError::UnsupportedPrecision { precision: 12 }
    );
    assert_eq!(
        header_error(&segment(0xC0, &[8, 0, 16, 0, 16, 5])),
        JpegHeaderError::TooManyComponents { count: 5 }
    );
    assert_eq!(
        header_error(&segment(0xC0, &[8, 0, 16, 0, 16, 1, 1, 0x11, 4])),
        JpegHeaderError::BadTableId { marker: 0xC0, table_id: 4 }
    );
}

#[test]
fn table_headers_are_checked() {
    let mut codes = [0u8; 17];
    codes[0] = 0x20;
    assert_eq!(header_error(&segment(0xC4, &codes)), JpegHeaderError::BadDhtClass { class: 2 });
    codes[0] = 0x07;
    assert_eq!(
        header_error(&segment(0xC4, &codes)),
        JpegHeaderError::BadTableId { marker: 0xC4, table_id: 7 }
    );
    codes[0] = 0x00;
    codes[16] = 13;
    assert_eq!(header_error(&segment(0xC4, &codes)), JpegHeaderError::DcTableTooLarge { total: 13 });
    codes[0] = 0x10;
    codes[16] = 163;
    assert_eq!(
        header_error(&segment(0xC4, &codes)),
        JpegHeaderError::AcTableTooLarge { total: 163 }
    );
    assert_eq!(
        header_error(&segment(0xDB, &[5])),
        JpegHeaderError::BadTableId { marker: 0xDB, table_id: 5 }
    );
}

#[test]
fn scan_headers_are_checked() {
    assert_eq!(header_error(&segment(0xDA, &[0])), JpegHeaderError::BadSosHeader);
    assert_eq!(
        header_error(&segment(0xDA, &[1, 1, 0x20, 0, 63, 0])),
        JpegHeaderError::BadSosTableSelector { class: DhtClass::Dc, selector: 2 }
    );
    assert_eq!(
        header_error(&segment(0xDA, &[1, 1, 0x03, 0, 63, 0])),
        JpegHeaderError::BadSosTableSelector { class: DhtClass::Ac, selector: 3 }
    );
}

#[test]
fn codebooks_are_checked() {
    let mut table = JpegHuffmanTable {
        class: DhtClass::Dc,
        table_id: 0,
        num_codes: [3, 0, 0, 0, 0, 0, 0, 0, 0, 0, 0, 0, 0, 0, 0, 0],
        values: vec![0, 1, 2],
    };
    assert_eq!(
        CanonicalCodebook::build(&table).err().unwrap(),
        CanonicalCodebookError::Oversubscribed { length: 1 }
    );
    table.values = vec![0, 1];
    assert_eq!(
        CanonicalCodebook::build(&table).err().unwrap(),
        CanonicalCodebookError::ValueCountMismatch { codes: 3, values: 2 }
    );
}

#[test]
fn preparation_names_the_stage() {
    assert!(matches!(
        prepare(&[0, 0]).err().unwrap(),
        PrepareFailure::Headers(JpegHeaderError::MissingSoi)
    ));
    let cut = gray(&DC_TABLE, &AC_TABLE, &SOS, &[0x00, 0xFF]);
    assert!(matches!(
        prepare(&cut).err().unwrap(),
        PrepareFailure::Stuffing(UnstuffError::TrailingFf)
    ));
    let mut full = [0u8; 20];
    full[1] = 3;
    let crowded = gray(&full, &AC_TABLE, &SOS, &[0x00]);
    assert!(matches!(
        prepare(&crowded).err().unwrap(),
        PrepareFailure::Codebook(CanonicalCodebookError::Oversubscribed { length: 1 })
    ));
    let e = prepare_jpeg(&crowded).unwrap_err();
    assert_eq!(
        e,
        JpegGpuError::HeaderParse("Huffman table is oversubscribed at code length 1".to_string())
    );
}

fn chain_error(dc: &[u8], sos: &[u8], bits: &str) -> DcChainError {
    match prepare(&gray(dc, &AC_TABLE, sos, &bit_bytes(bits))).err().unwrap() {
        PrepareFailure::DcChain(e) => e,
        other => panic!("{}", other.message()),
    }
}

#[test]
fn dc_chain_refusals() {
    assert_eq!(
        chain_error(&DC_TABLE, &SOS, "00 00 00 00"),
        DcChainError::UnexpectedEnd { mcu_index: 2, component_index: 0 }
    );
    assert_eq!(
        chain_error(&DC_TABLE, &SOS, "00 00 10 00"),
        DcChainError::InvalidCode { mcu_index: 1, component_index: 0 }
    );
    let mut high = [0u8; 18];
    high[1] = 1;
    high[17] = 12;
    assert_eq!(chain_error(&high, &SOS, "0000 0000"), DcChainError::BadDcCategory { category: 12 });
    // Three ZRL and fourteen single slots end before slot 63; a run of one
    // more does not fit.
    let mut bits = String::from("00 1100 1100 1100");
    for _ in 0..14 {
        bits.push_str(" 01 1");
    }
    bits.push_str(" 1101 1");
    assert_eq!(chain_error(&DC_TABLE, &SOS, &bits), DcChainError::AcOverflow { mcu_index: 0 });
    assert_eq!(
        chain_error(&DC_TABLE, &[1, 1, 0x10, 0, 63, 0], "00 00"),
        DcChainError::MissingHuffmanTable { class: DhtClass::Dc, selector: 1 }
    );
    assert_eq!(
        chain_error(&DC_TABLE, &[1, 1, 0x01, 0, 63, 0], "00 00"),
        DcChainError::MissingHuffmanTable { class: DhtClass::Ac, selector: 1 }
    );
    assert_eq!(
        chain_error(&DC_TABLE, &[1, 9, 0x00, 0, 63, 0], "00 00"),
        DcChainError::UnknownScanComponent { component_id: 9 }
    );
}

#[test]
fn dc_chain_wants_components() {
    let data = flat_gray();
    let mut headers = JpegHeaders::parse(&data).unwrap();
    headers.scan.component_count = 0;
    let prep = flat_prep();
    let e = resolve_dc_chain(&headers, &[], &[], &prep.dc_codebooks, &prep.ac_codebooks)
        .err()
        .unwrap();
    assert_eq!(e, DcChainError::UnsupportedScanShape);
}

#[test]
fn framing_refusals() {
    let mut prep = flat_prep();
    prep.bitstream = bit_stream("1000 0000");
    let e = decode_scan_symbols(&prep).unwrap_err();
    assert_eq!(e, JpegFramingError::InvalidCode { mcu_index: 0, scan_component: 0 });
    assert_eq!(framing_error(&e), JpegGpuError::Dispatch(e.message()));
    prep.bitstream = bit_stream("00 1100 1100 1100 1100");
    let e = decode_scan_symbols(&prep).unwrap_err();
    assert_eq!(e, JpegFramingError::AcOverflow { mcu_index: 0 });
    let mut prep = flat_prep();
    prep.ac_codebooks[0] = Some(one_code(DhtClass::Ac, 0x0B));
    let e = decode_scan_symbols(&prep).unwrap_err();
    assert_eq!(e, JpegFramingError::BadAcSize { mcu_index: 0, scan_component: 0, size: 11 });
    let mut prep = flat_prep();
    prep.dc_codebooks[0] = Some(one_code(DhtClass::Dc, 12));
    let e = decode_scan_symbols(&prep).unwrap_err();
    assert_eq!(e, JpegFramingError::BadDcCategory { mcu_index: 0, scan_component: 0, category: 12 });
}

/// The end of a walk over one-block MCUs.
fn walk(dc: &CanonicalCodebook, ac: &CanonicalCodebook, bits: &str) -> (SubsequenceState, Phase1Stop) {
    let stream = bit_stream(bits);
    let end = stream.length_bits;
    phase1_jpeg_walk_snapshot(&stream, &[dc], &[ac], &[0], 1, 0, end, end)
}

#[test]
fn walks_stop_where_the_scan_is_corrupt() {
    let zero = one_code(DhtClass::Dc, 0);
    let (s, stop) = walk(&one_code(DhtClass::Dc, 12), &zero, "0000 0000");
    assert_eq!((s.p, s.n, stop), (0, 0, Phase1Stop::BadDcCategory));
    let (s, stop) = walk(&zero, &one_code(DhtClass::Ac, 0x0B), "0000 0000");
    assert_eq!((s.p, s.n, stop), (1, 1, Phase1Stop::BadAcSize));
    // Three ZRL lead to slot 49; the fourth runs past 64, and its codeword
    // is consumed.
    let (s, stop) = walk(&zero, &one_code(DhtClass::Ac, 0xF0), "0000 0000");
    assert_eq!((s.p, s.n, s.z, stop), (5, 5, 49, Phase1Stop::AcOverflow));
}

#[test]
fn single_symbol_steps() {
    let books = [one_code(DhtClass::Dc, 1)];
    let at = |p| SubsequenceState { p, n: 0, c: 0, z: 0 };
    let stream = PackedBitstream { words: vec![0x2000_0000], length_bits: 4 };
    assert!(matches!(
        try_decode_one_symbol(at(0), &stream, &books, 1),
        StepOutcome::Advanced(s) if s == SubsequenceState { p: 2, n: 1, c: 0, z: 1 }
    ));
    assert!(matches!(try_decode_one_symbol(at(2), &stream, &books, 1), StepOutcome::PrefixMiss));
    assert!(matches!(try_decode_one_symbol(at(3), &stream, &books, 1), StepOutcome::LengthBits));
}

fn extraction_error(prep: &JpegPreparedInput) -> CoefficientError {
    extract_coefficients(prep).err().unwrap()
}

#[test]
fn extraction_wants_tables() {
    let mut prep = flat_prep();
    prep.dc_selectors.clear();
    assert_eq!(extraction_error(&prep), CoefficientError::NoDcSelector { comp: 0 });
    let mut prep = flat_prep();
    prep.ac_selectors.clear();
    assert_eq!(extraction_error(&prep), CoefficientError::NoAcSelector { comp: 0 });
    let mut prep = flat_prep();
    prep.dc_codebooks[0] = None;
    assert_eq!(extraction_error(&prep), CoefficientError::MissingDcCodebook { selector: 0 });
    let mut prep = flat_prep();
    prep.ac_codebooks[0] = None;
    assert_eq!(extraction_error(&prep), CoefficientError::MissingAcCodebook { selector: 0 });
    let mut prep = flat_prep();
    prep.quant_tables[0] = None;
    assert_eq!(extraction_error(&prep), CoefficientError::UndefinedQuantTable { slot: 0 });
}

#[test]
fn extraction_wants_the_whole_stream() {
    let mut prep = flat_prep();
    prep.bitstream = bit_stream("");
    assert_eq!(extraction_error(&prep), CoefficientError::EmptyAtDc { mcu: 0, comp: 0 });
    prep.bitstream = bit_stream("00 01 1 01 1");
    assert_eq!(extraction_error(&prep), CoefficientError::EmptyAtAc { mcu: 0, comp: 0, zz: 3 });
    prep.bitstream = bit_stream("00 01 1 101");
    assert_eq!(extraction_error(&prep), CoefficientError::AcTruncated { mcu: 0, comp: 0, zz: 2 });
    prep.dc_codebooks[0] = Some(one_code(DhtClass::Dc, 11));
    assert_eq!(
        extraction_error(&prep),
        CoefficientError::DcTruncated { mcu: 0, comp: 0, category: 11 }
    );
}

#[test]
fn extraction_stays_in_its_arrays() {
    let mut prep = flat_prep();
    prep.dc_values.per_component[0].push(1);
    assert_eq!(
        extraction_error(&prep),
        CoefficientError::DcValuesOverflow { comp: 0, block: 4, index: 4, len: 4 }
    );
    // Two components of an 8 x 8 image, the first with four blocks an MCU:
    // its third block lies behind the arrays.
    let mut prep = flat_prep();
    prep.width = 8;
    prep.height = 8;
    let mut first = prep.components[0];
    first.h_sampling = 2;
    first.v_sampling = 2;
    prep.components = vec![first, prep.components[0]];
    prep.dc_selectors = vec![0, 0];
    prep.ac_selectors = vec![0, 0];
    prep.bitstream = bit_stream("00 00 00 00 00 01 1 00 00 00 00 00");
    assert_eq!(
        extraction_error(&prep),
        CoefficientError::CoefficientOverflow { base: 128, zz: 1, len: 128, mcu: 0, comp: 0 }
    );
}

#[test]
fn assembly_wants_the_scan_symbols() {
    let prep = flat_prep();
    let err = |symbols: &[u32]| symbols_to_coefficients(&prep, symbols).err().unwrap();
    assert!(symbols_to_coefficients(&prep, &[0; 8]).is_ok());
    assert_eq!(err(&[]), CoefficientError::SymbolsEndAtDc { mcu: 0, comp: 0 });
    assert_eq!(err(&[0]), CoefficientError::SymbolsEndAtAc { mcu: 0, comp: 0, zz: 1 });
    assert_eq!(err(&[0; 9]), CoefficientError::SymbolsLeft { left: 1 });
    assert_eq!(err(&[0, 0x99]), CoefficientError::UncodedSymbol { symbol: 0x99 });
    let mut cut = flat_prep();
    cut.bitstream = bit_stream("00 01 1 101");
    assert_eq!(
        symbols_to_coefficients(&cut, &[0, 1, 2]).err().unwrap(),
        CoefficientError::SizedAcTruncated { mcu: 0, comp: 0, zz: 2, size: 2 }
    );
}

#[test]
fn decoder_takes_one_or_three_components() {
    let mut d = vec![0xFF, 0xD8];
    let mut quant = vec![0u8];
    quant.extend_from_slice(&[7; 64]);
    d.extend_from_slice(&segment(0xDB, &quant));
    d.extend_from_slice(&segment(0xC0, &[8, 0, 8, 0, 8, 2, 1, 0x11, 0, 2, 0x11, 0]));
    d.extend_from_slice(&segment(0xC4, &DC_TABLE));
    d.extend_from_slice(&segment(0xC4, &AC_TABLE));
    d.extend_from_slice(&segment(0xDA, &[2, 1, 0x00, 2, 0x00, 0, 63, 0]));
    d.extend_from_slice(&bit_bytes("00 00 00 00"));
    d.extend_from_slice(&[0xFF, 0xD9]);
    let e = JpegGpuDecoder::new(SizedBuffers).accept(&d).err().unwrap();
    assert_eq!(e, JpegGpuError::UnsupportedComponents(2));
    assert_eq!(e.message(), "unsupported component count 2");
}
