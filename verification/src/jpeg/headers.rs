//! JPEG header parser.
//!
//! Walks the marker stream and extracts every header a baseline decoder
//! needs: SOF0, DQT, DHT, DRI and SOS, plus the extent of the entropy-coded
//! segment.  Application and comment segments are skipped by their length
//! prefix; any frame header other than SOF0 is refused, so that the caller
//! can route the file to another decoder.

use crate::text::{decimal, hex2, push_decimal, push_hex2};
use vstd::prelude::*;
use vstd::string::*;

verus! {

/// Start of a baseline frame.
pub const MARKER_SOF0: u8 = 0xC0;

/// Huffman tables.
pub const MARKER_DHT: u8 = 0xC4;

/// Quantisation tables.
pub const MARKER_DQT: u8 = 0xDB;

/// Start of a scan.
pub const MARKER_SOS: u8 = 0xDA;

/// Restart interval.
pub const MARKER_DRI: u8 = 0xDD;

/// A successfully parsed set of JPEG headers.
///
/// `scan_data` borrows the entropy-coded segment of the input, byte-stuffing
/// intact.  Use [`crate::jpeg::unstuff::unstuff_into`] to materialise a flat
/// bitstream.
#[derive(Debug, Clone)]
pub struct JpegHeaders<'a> {
    /// Image width in pixels, from SOF0.
    pub width: u16,
    /// Image height in pixels, from SOF0.
    pub height: u16,
    /// Number of components in the image (1 = grayscale, 3 = YCbCr, 4 = CMYK).
    pub components: u8,
    /// Per-component metadata (only the first `components` entries are valid).
    pub frame_components: [JpegFrameComponent; 4],
    /// Quantisation tables by table ID; `None` slots were never loaded.
    pub quant_tables: [Option<JpegQuantTable>; 4],
    /// All Huffman tables seen in DHT segments, one per class and table ID.
    pub huffman_tables: Vec<JpegHuffmanTable>,
    /// SOS scan header.
    pub scan: JpegScanHeader,
    /// Restart interval in MCUs (0 = no restart markers).
    pub restart_interval: u16,
    /// Borrow of the entropy-coded segment, byte-stuffing intact.
    pub scan_data: &'a [u8],
    /// Byte offset of `scan_data` within the original input.
    pub scan_data_offset: usize,
}

/// Per-component frame metadata from SOF0.
#[derive(Debug, Clone, Copy)]
pub struct JpegFrameComponent {
    /// Component identifier (1=Y, 2=Cb, 3=Cr by JFIF convention).
    pub id: u8,
    /// Horizontal sampling factor (1..=4).
    pub h_sampling: u8,
    /// Vertical sampling factor (1..=4).
    pub v_sampling: u8,
    /// Quantiser table selector (0..=3).
    pub quant_selector: u8,
}

impl Default for JpegFrameComponent {
    fn default() -> (c: Self)
        ensures
            c == (JpegFrameComponent { id: 0, h_sampling: 0, v_sampling: 0, quant_selector: 0 }),
    {
        JpegFrameComponent { id: 0, h_sampling: 0, v_sampling: 0, quant_selector: 0 }
    }
}

/// One quantisation table: 64 entries in zigzag order.
#[derive(Debug, Clone, Copy)]
pub struct JpegQuantTable {
    /// Zigzag-ordered quantiser values; 16-bit values are clamped to `u8`.
    pub values: [u8; 64],
}

/// Class of a Huffman table — DC differentials or AC run/size pairs.
#[derive(Debug, Clone, Copy, PartialEq, Eq, Structural)]
pub enum DhtClass {
    /// DC differential codes (`values` are size categories 0..=11).
    Dc,
    /// AC run/size codes (`values` encode `(run << 4) | size`).
    Ac,
}

impl DhtClass {
    pub open spec fn text(self) -> Seq<char> {
        match self {
            DhtClass::Dc => "DC"@,
            DhtClass::Ac => "AC"@,
        }
    }

    /// Short human name used by error messages: `"DC"` or `"AC"`.
    #[must_use]
    pub fn name(self) -> (s: &'static str)
        ensures
            s@ == self.text(),
    {
        match self {
            DhtClass::Dc => "DC",
            DhtClass::Ac => "AC",
        }
    }
}

/// One Huffman table parsed from a DHT segment, in JPEG wire form.
#[derive(Debug, Clone)]
pub struct JpegHuffmanTable {
    /// DC or AC.
    pub class: DhtClass,
    /// Table identifier (0..=3).
    pub table_id: u8,
    /// `num_codes[i]` = number of `i+1`-bit codewords (i in 0..16).
    pub num_codes: [u8; 16],
    /// Symbol values in canonical order; length equals `sum(num_codes)`.
    pub values: Vec<u8>,
}

/// SOS header — the components of the scan and the tables they use.
#[derive(Debug, Clone, Copy)]
pub struct JpegScanHeader {
    /// Number of components in the scan (1..=4).
    pub component_count: u8,
    /// Per-scan-component selectors (only the first `component_count` are valid).
    pub components: [JpegScanComponent; 4],
}

/// One component within an SOS header.
#[derive(Debug, Clone, Copy)]
pub struct JpegScanComponent {
    /// Component identifier matching one of the SOF frame components.
    pub id: u8,
    /// DC Huffman table selector (0 or 1 in baseline JPEG).
    pub dc_table: u8,
    /// AC Huffman table selector (0 or 1 in baseline JPEG).
    pub ac_table: u8,
}

impl Default for JpegScanComponent {
    fn default() -> (c: Self)
        ensures
            c == (JpegScanComponent { id: 0, dc_table: 0, ac_table: 0 }),
    {
        JpegScanComponent { id: 0, dc_table: 0, ac_table: 0 }
    }
}

impl Default for JpegScanHeader {
    fn default() -> (s: Self)
        ensures
            s.component_count == 0,
            s.components@ =~= Seq::new(
                4,
                |i: int| (JpegScanComponent { id: 0, dc_table: 0, ac_table: 0 }),
            ),
    {
        let none = JpegScanComponent::default();
        JpegScanHeader { component_count: 0, components: [none, none, none, none] }
    }
}

/// Errors emitted by [`JpegHeaders::parse`].
#[allow(inconsistent_fields)]
#[derive(Debug, Clone, PartialEq, Eq)]
pub enum JpegHeaderError {
    /// Stream did not begin with `0xFF 0xD8`.
    MissingSoi,
    /// A marker prefix `0xFF` was expected but not found.
    ExpectedMarker,
    /// A length-prefixed segment claimed a length that overruns the input.
    SegmentOverrun {
        /// Marker byte (e.g. 0xC0 for SOF0).
        marker: u8,
    },
    /// A segment is shorter than its fixed part.
    SegmentTooShort {
        /// Marker byte.
        marker: u8,
    },
    /// SOF0 was not encountered before SOS, or a dimension is zero.
    MissingSof0,
    /// Stream is not baseline DCT — progressive or lossless.
    NotBaseline,
    /// SOF0 specified a sample precision other than 8 bits.
    UnsupportedPrecision {
        /// Precision in bits as declared in the SOF0 segment.
        precision: u8,
    },
    /// SOF0 declared > 4 components.
    TooManyComponents {
        /// Component count from the SOF0 segment.
        count: u8,
    },
    /// SOF0 declared a sampling factor outside 1..=4.
    BadSamplingFactor {
        /// Horizontal sampling factor as declared.
        h_sampling: u8,
        /// Vertical sampling factor as declared.
        v_sampling: u8,
    },
    /// A segment used a table ID outside the valid range.
    BadTableId {
        /// Marker byte.
        marker: u8,
        /// Out-of-range table identifier.
        table_id: u8,
    },
    /// DHT class field outside `{0, 1}`.
    BadDhtClass {
        /// Class field value.
        class: u8,
    },
    /// DHT DC table claimed > 12 entries.
    DcTableTooLarge {
        /// Total entry count.
        total: usize,
    },
    /// DHT AC table claimed > 162 entries.
    AcTableTooLarge {
        /// Total entry count.
        total: usize,
    },
    /// DRI segment was not exactly 4 bytes.
    BadDriLength {
        /// Declared segment length.
        length: usize,
    },
    /// SOS header declared a bad component count or did not fit.
    BadSosHeader,
    /// SOS specified a Huffman table selector outside `{0, 1}`.
    BadSosTableSelector {
        /// DC or AC selector.
        class: DhtClass,
        /// Out-of-range selector value.
        selector: u8,
    },
    /// Stream ended before SOS.
    Truncated,
    /// Integer arithmetic overflowed during parsing.
    Overflow,
}

impl JpegHeaderError {
    pub open spec fn text(self) -> Seq<char> {
        match self {
            JpegHeaderError::MissingSoi => "JPEG SOI (0xFF 0xD8) not found at start of stream"@,
            JpegHeaderError::ExpectedMarker => "expected JPEG marker prefix 0xFF"@,
            JpegHeaderError::SegmentOverrun { marker } => "segment 0x"@ + hex2(marker)
                + " declares length past end of input"@,
            JpegHeaderError::SegmentTooShort { marker } => "segment 0x"@ + hex2(marker)
                + " length < 2 bytes"@,
            JpegHeaderError::MissingSof0 => "SOF0 baseline frame header not found before SOS"@,
            JpegHeaderError::NotBaseline => "JPEG is not baseline DCT (progressive or lossless variants are routed to a different decoder)"@,
            JpegHeaderError::UnsupportedPrecision { precision } => "SOF0 sample precision "@
                + decimal(precision as nat) + " not supported (need 8)"@,
            JpegHeaderError::TooManyComponents { count } => "SOF0 declares "@ + decimal(
                count as nat,
            ) + " components (max 4)"@,
            JpegHeaderError::BadSamplingFactor { h_sampling, v_sampling } =>
            "SOF0 sampling factor H="@ + decimal(h_sampling as nat) + " V="@ + decimal(
                v_sampling as nat,
            ) + " outside baseline range 1..=4"@,
            JpegHeaderError::BadTableId { marker, table_id } => "segment 0x"@ + hex2(marker)
                + " table_id "@ + decimal(table_id as nat) + " out of range"@,
            JpegHeaderError::BadDhtClass { class } => "DHT class "@ + decimal(class as nat)
                + " not in {0=DC, 1=AC}"@,
            JpegHeaderError::DcTableTooLarge { total } => "DHT DC table has "@ + decimal(
                total as nat,
            ) + " entries (max 12)"@,
            JpegHeaderError::AcTableTooLarge { total } => "DHT AC table has "@ + decimal(
                total as nat,
            ) + " entries (max 162)"@,
            JpegHeaderError::BadDriLength { length } => "DRI segment length "@ + decimal(
                length as nat,
            ) + " != 4"@,
            JpegHeaderError::BadSosHeader =>
            "SOS header malformed or component table overruns segment"@,
            JpegHeaderError::BadSosTableSelector { class, selector } => "SOS "@ + class.text()
                + " table selector "@ + decimal(selector as nat) + " not in {0, 1}"@,
            JpegHeaderError::Truncated => "JPEG stream truncated before SOS"@,
            JpegHeaderError::Overflow => "integer overflow during JPEG header parse"@,
        }
    }

    /// The error as a sentence.
    pub fn message(&self) -> (s: String)
        ensures
            s@ == self.text(),
    {
        match self {
            JpegHeaderError::MissingSoi => String::from_str(
                "JPEG SOI (0xFF 0xD8) not found at start of stream",
            ),
            JpegHeaderError::ExpectedMarker => String::from_str("expected JPEG marker prefix 0xFF"),
            JpegHeaderError::SegmentOverrun { marker } => {
                let mut s = String::from_str("segment 0x");
                push_hex2(&mut s, *marker);
                s.append(" declares length past end of input");
                s
            },
            JpegHeaderError::SegmentTooShort { marker } => {
                let mut s = String::from_str("segment 0x");
                push_hex2(&mut s, *marker);
                s.append(" length < 2 bytes");
                s
            },
            JpegHeaderError::MissingSof0 => String::from_str(
                "SOF0 baseline frame header not found before SOS",
            ),
            JpegHeaderError::NotBaseline => String::from_str(
                "JPEG is not baseline DCT (progressive or lossless variants are routed to a different decoder)",
            ),
            JpegHeaderError::UnsupportedPrecision { precision } => {
                let mut s = String::from_str("SOF0 sample precision ");
                push_decimal(&mut s, *precision as u64);
                s.append(" not supported (need 8)");
                s
            },
            JpegHeaderError::TooManyComponents { count } => {
                let mut s = String::from_str("SOF0 declares ");
                push_decimal(&mut s, *count as u64);
                s.append(" components (max 4)");
                s
            },
            JpegHeaderError::BadSamplingFactor { h_sampling, v_sampling } => {
                let mut s = String::from_str("SOF0 sampling factor H=");
                push_decimal(&mut s, *h_sampling as u64);
                s.append(" V=");
                push_decimal(&mut s, *v_sampling as u64);
                s.append(" outside baseline range 1..=4");
                s
            },
            JpegHeaderError::BadTableId { marker, table_id } => {
                let mut s = String::from_str("segment 0x");
                push_hex2(&mut s, *marker);
                s.append(" table_id ");
                push_decimal(&mut s, *table_id as u64);
                s.append(" out of range");
                s
            },
            JpegHeaderError::BadDhtClass { class } => {
                let mut s = String::from_str("DHT class ");
                push_decimal(&mut s, *class as u64);
                s.append(" not in {0=DC, 1=AC}");
                s
            },
            JpegHeaderError::DcTableTooLarge { total } => {
                let mut s = String::from_str("DHT DC table has ");
                push_decimal(&mut s, *total as u64);
                s.append(" entries (max 12)");
                s
            },
            JpegHeaderError::AcTableTooLarge { total } => {
                let mut s = String::from_str("DHT AC table has ");
                push_decimal(&mut s, *total as u64);
                s.append(" entries (max 162)");
                s
            },
            JpegHeaderError::BadDriLength { length } => {
                let mut s = String::from_str("DRI segment length ");
                push_decimal(&mut s, *length as u64);
                s.append(" != 4");
                s
            },
            JpegHeaderError::BadSosHeader => String::from_str(
                "SOS header malformed or component table overruns segment",
            ),
            JpegHeaderError::BadSosTableSelector { class, selector } => {
                let mut s = String::from_str("SOS ");
                s.append(class.name());
                s.append(" table selector ");
                push_decimal(&mut s, *selector as u64);
                s.append(" not in {0, 1}");
                s
            },
            JpegHeaderError::Truncated => String::from_str("JPEG stream truncated before SOS"),
            JpegHeaderError::Overflow => String::from_str(
                "integer overflow during JPEG header parse",
            ),
        }
    }
}

} // verus!
