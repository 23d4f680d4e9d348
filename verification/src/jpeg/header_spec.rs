//! What a JPEG header stream means: the model the parser is held to.

use super::headers::{
    DhtClass, JpegFrameComponent, JpegHeaderError, JpegHeaders, JpegHuffmanTable, JpegQuantTable,
    JpegScanComponent, JpegScanHeader, MARKER_DHT, MARKER_DQT, MARKER_DRI, MARKER_SOF0, MARKER_SOS,
};
use vstd::prelude::*;

verus! {

/// A big-endian 16-bit number.
pub open spec fn be16(hi: u8, lo: u8) -> u16 {
    (hi * 256 + lo) as u16
}

/// One Huffman table in wire form.
#[verifier::ext_equal]
pub struct TableModel {
    pub class: DhtClass,
    pub table_id: u8,
    pub num_codes: Seq<u8>,
    pub values: Seq<u8>,
}

/// What the segments before SOS establish.
#[verifier::ext_equal]
pub struct FrameModel {
    pub width: u16,
    pub height: u16,
    pub components: u8,
    pub frame: Seq<JpegFrameComponent>,
    pub quant: Seq<Option<Seq<u8>>>,
    pub tables: Seq<TableModel>,
    pub restart_interval: u16,
}

/// The SOS header.
#[verifier::ext_equal]
pub struct ScanModel {
    pub component_count: u8,
    pub components: Seq<JpegScanComponent>,
}

/// A parsed header stream.
#[verifier::ext_equal]
pub struct HeadersModel {
    pub frame: FrameModel,
    pub scan: ScanModel,
    pub scan_data_offset: int,
    pub scan_data: Seq<u8>,
}

impl View for JpegHuffmanTable {
    type V = TableModel;

    open spec fn view(&self) -> TableModel {
        TableModel {
            class: self.class,
            table_id: self.table_id,
            num_codes: self.num_codes@,
            values: self.values@,
        }
    }
}

pub open spec fn tables_view(tables: Seq<JpegHuffmanTable>) -> Seq<TableModel> {
    Seq::new(tables.len(), |i: int| tables[i]@)
}

pub open spec fn quant_view(quant: Seq<Option<JpegQuantTable>>) -> Seq<Option<Seq<u8>>> {
    Seq::new(
        quant.len(),
        |i: int|
            match quant[i] {
                Some(q) => Some(q.values@),
                None => None,
            },
    )
}

impl View for JpegScanHeader {
    type V = ScanModel;

    open spec fn view(&self) -> ScanModel {
        ScanModel { component_count: self.component_count, components: self.components@ }
    }
}

impl<'a> View for JpegHeaders<'a> {
    type V = HeadersModel;

    open spec fn view(&self) -> HeadersModel {
        HeadersModel {
            frame: FrameModel {
                width: self.width,
                height: self.height,
                components: self.components,
                frame: self.frame_components@,
                quant: quant_view(self.quant_tables@),
                tables: tables_view(self.huffman_tables@),
                restart_interval: self.restart_interval,
            },
            scan: self.scan@,
            scan_data_offset: self.scan_data_offset as int,
            scan_data: self.scan_data@,
        }
    }
}

/// Nothing parsed yet.
pub open spec fn blank_frame() -> FrameModel {
    FrameModel {
        width: 0,
        height: 0,
        components: 0,
        frame: Seq::new(
            4,
            |i: int|
                (JpegFrameComponent { id: 0, h_sampling: 0, v_sampling: 0, quant_selector: 0 }),
        ),
        quant: Seq::new(4, |i: int| None),
        tables: Seq::empty(),
        restart_interval: 0,
    }
}

/// A scan before its header is read.
pub open spec fn blank_scan() -> ScanModel {
    ScanModel {
        component_count: 0,
        components: Seq::new(4, |i: int| (JpegScanComponent { id: 0, dc_table: 0, ac_table: 0 })),
    }
}

/// The body of the length-prefixed segment whose length field stands at
/// `pos`.  The length counts itself.
pub open spec fn segment_body(data: Seq<u8>, pos: int, marker: u8) -> Result<
    Seq<u8>,
    JpegHeaderError,
> {
    if pos + 2 > usize::MAX {
        Err(JpegHeaderError::Overflow)
    } else if pos + 2 > data.len() {
        Err(JpegHeaderError::Truncated)
    } else {
        let len = be16(data[pos], data[pos + 1]) as int;
        if len < 2 {
            Err(JpegHeaderError::SegmentTooShort { marker })
        } else if pos + len > usize::MAX {
            Err(JpegHeaderError::Overflow)
        } else if pos + len > data.len() {
            Err(JpegHeaderError::SegmentOverrun { marker })
        } else {
            Ok(data.subrange(pos + 2, pos + len))
        }
    }
}

/// The component record `k` of a SOF0 body.
pub open spec fn sof0_record(body: Seq<u8>, k: int) -> Result<JpegFrameComponent, JpegHeaderError> {
    let id = body[6 + 3 * k];
    let h = body[7 + 3 * k] / 16;
    let v = body[7 + 3 * k] % 16;
    let q = body[8 + 3 * k];
    if q >= 4 {
        Err(JpegHeaderError::BadTableId { marker: MARKER_SOF0, table_id: q })
    } else if !(1 <= h <= 4 && 1 <= v <= 4) {
        Err(JpegHeaderError::BadSamplingFactor { h_sampling: h, v_sampling: v })
    } else {
        Ok(JpegFrameComponent { id, h_sampling: h, v_sampling: v, quant_selector: q })
    }
}

/// Records `k` and up, written over the first slots of `frame`.
pub open spec fn sof0_records(body: Seq<u8>, k: int, frame: Seq<JpegFrameComponent>) -> Result<
    Seq<JpegFrameComponent>,
    JpegHeaderError,
>
    decreases body[5] - k,
{
    if k >= body[5] {
        Ok(frame)
    } else {
        match sof0_record(body, k) {
            Ok(c) => sof0_records(body, k + 1, frame.update(k, c)),
            Err(e) => Err(e),
        }
    }
}

/// The effect of a SOF0 segment.
pub open spec fn after_sof0(body: Seq<u8>, f: FrameModel) -> Result<FrameModel, JpegHeaderError> {
    if body.len() < 6 {
        Err(JpegHeaderError::SegmentTooShort { marker: MARKER_SOF0 })
    } else if body[0] != 8 {
        Err(JpegHeaderError::UnsupportedPrecision { precision: body[0] })
    } else if body[5] > 4 {
        Err(JpegHeaderError::TooManyComponents { count: body[5] })
    } else if body[5] * 3 + 6 > body.len() {
        Err(JpegHeaderError::SegmentOverrun { marker: MARKER_SOF0 })
    } else {
        match sof0_records(body, 0, f.frame) {
            Ok(frame) => Ok(
                FrameModel {
                    height: be16(body[1], body[2]),
                    width: be16(body[3], body[4]),
                    components: body[5],
                    frame,
                    ..f
                },
            ),
            Err(e) => Err(e),
        }
    }
}

/// The 64 quantisers at `off`; wide ones are clamped to a byte.
pub open spec fn quant_values(body: Seq<u8>, off: int, wide: bool) -> Seq<u8> {
    Seq::new(
        64,
        |k: int|
            if wide {
                let v = be16(body[off + 2 * k], body[off + 2 * k + 1]);
                if v <= 255 {
                    v as u8
                } else {
                    255
                }
            } else {
                body[off + k]
            },
    )
}

/// The effect of the DQT tables from `off` on.
pub open spec fn after_dqt(body: Seq<u8>, off: int, quant: Seq<Option<Seq<u8>>>) -> Result<
    Seq<Option<Seq<u8>>>,
    JpegHeaderError,
>
    decreases body.len() - off,
{
    if off >= body.len() {
        Ok(quant)
    } else {
        let id = body[off] % 16;
        let wide = body[off] / 16 != 0;
        let size: int = if wide {
            128
        } else {
            64
        };
        if id >= 4 {
            Err(JpegHeaderError::BadTableId { marker: MARKER_DQT, table_id: id })
        } else if off + 1 + size > body.len() {
            Err(JpegHeaderError::SegmentOverrun { marker: MARKER_DQT })
        } else {
            after_dqt(
                body,
                off + 1 + size,
                quant.update(id as int, Some(quant_values(body, off + 1, wide))),
            )
        }
    }
}

/// Sum of the bytes of `s`.
pub open spec fn byte_sum(s: Seq<u8>) -> nat
    decreases s.len(),
{
    if s.len() == 0 {
        0
    } else {
        byte_sum(s.drop_last()) + s.last() as nat
    }
}

/// Position of the first table of this class and ID, from `i` on.
pub open spec fn table_index(
    tables: Seq<TableModel>,
    class: DhtClass,
    table_id: u8,
    i: int,
) -> Option<int>
    decreases tables.len() - i,
{
    if i >= tables.len() {
        None
    } else if tables[i].class == class && tables[i].table_id == table_id {
        Some(i)
    } else {
        table_index(tables, class, table_id, i + 1)
    }
}

/// A redefined table replaces the earlier one; a new one goes last.
pub open spec fn with_table(tables: Seq<TableModel>, t: TableModel) -> Seq<TableModel> {
    match table_index(tables, t.class, t.table_id, 0) {
        Some(i) => tables.update(i, t),
        None => tables.push(t),
    }
}

/// The effect of the DHT tables from `off` on.
pub open spec fn after_dht(body: Seq<u8>, off: int, tables: Seq<TableModel>) -> Result<
    Seq<TableModel>,
    JpegHeaderError,
>
    decreases body.len() - off,
{
    if off >= body.len() {
        Ok(tables)
    } else if off + 17 > body.len() {
        Err(JpegHeaderError::SegmentOverrun { marker: MARKER_DHT })
    } else {
        let tc = body[off] / 16;
        let th = body[off] % 16;
        let num_codes = body.subrange(off + 1, off + 17);
        let total = byte_sum(num_codes);
        if tc > 1 {
            Err(JpegHeaderError::BadDhtClass { class: tc })
        } else if th >= 4 {
            Err(JpegHeaderError::BadTableId { marker: MARKER_DHT, table_id: th })
        } else if tc == 0 && total > 12 {
            Err(JpegHeaderError::DcTableTooLarge { total: total as usize })
        } else if tc == 1 && total > 162 {
            Err(JpegHeaderError::AcTableTooLarge { total: total as usize })
        } else if off + 17 + total > body.len() {
            Err(JpegHeaderError::SegmentOverrun { marker: MARKER_DHT })
        } else {
            let t = TableModel {
                class: if tc == 0 {
                    DhtClass::Dc
                } else {
                    DhtClass::Ac
                },
                table_id: th,
                num_codes,
                values: body.subrange(off + 17, off + 17 + total),
            };
            after_dht(body, off + 17 + total, with_table(tables, t))
        }
    }
}

/// The component record `k` of an SOS body.
pub open spec fn sos_record(body: Seq<u8>, k: int) -> Result<JpegScanComponent, JpegHeaderError> {
    let id = body[1 + 2 * k];
    let dc = body[2 + 2 * k] / 16;
    let ac = body[2 + 2 * k] % 16;
    if dc > 1 {
        Err(JpegHeaderError::BadSosTableSelector { class: DhtClass::Dc, selector: dc })
    } else if ac > 1 {
        Err(JpegHeaderError::BadSosTableSelector { class: DhtClass::Ac, selector: ac })
    } else {
        Ok(JpegScanComponent { id, dc_table: dc, ac_table: ac })
    }
}

/// The component records of a scan header, from record `k` on.
pub open spec fn sos_records(body: Seq<u8>, k: int, slots: Seq<JpegScanComponent>) -> Result<
    Seq<JpegScanComponent>,
    JpegHeaderError,
>
    decreases body[0] - k,
{
    if k >= body[0] {
        Ok(slots)
    } else {
        match sos_record(body, k) {
            Ok(c) => sos_records(body, k + 1, slots.update(k, c)),
            Err(e) => Err(e),
        }
    }
}

/// The effect of an SOS segment.
pub open spec fn after_sos(body: Seq<u8>, scan: ScanModel) -> Result<ScanModel, JpegHeaderError> {
    if body.len() == 0 || body[0] == 0 || body[0] > 4 || body[0] * 2 + 4 > body.len() {
        Err(JpegHeaderError::BadSosHeader)
    } else {
        match sos_records(body, 0, scan.components) {
            Ok(components) => Ok(ScanModel { component_count: body[0], components }),
            Err(e) => Err(e),
        }
    }
}

/// Whether `0xFF b` ends a scan: any marker but a restart marker.  A zero
/// byte is stuffing and a further `0xFF` is a fill byte.
pub open spec fn ends_scan(b: u8) -> bool {
    !(b == 0x00 || b == 0xFF || 0xD0 <= b <= 0xD7)
}

/// Position of the first scan-ending marker at or after `i`, or the end.
pub open spec fn scan_end(tail: Seq<u8>, i: int) -> int
    decreases tail.len() - i,
{
    if i + 1 >= tail.len() {
        tail.len() as int
    } else if tail[i] == 0xFF && ends_scan(tail[i + 1]) {
        i
    } else {
        scan_end(tail, i + 1)
    }
}

/// A frame header other than SOF0.
pub open spec fn other_frame_marker(m: u8) -> bool {
    0xC1 <= m <= 0xCF && m != 0xC4 && m != 0xC8 && m != 0xCC
}

/// The headers read from `pos` on, given what came before.
pub open spec fn headers_from(data: Seq<u8>, pos: nat, f: FrameModel) -> Result<
    HeadersModel,
    JpegHeaderError,
>
    decreases data.len() - pos,
{
    if data.len() - pos < 2 {
        Err(JpegHeaderError::Truncated)
    } else if data[pos as int] != 0xFF {
        Err(JpegHeaderError::ExpectedMarker)
    } else {
        let m = data[pos as int + 1];
        if 0xD0 <= m <= 0xD8 {
            headers_from(data, pos + 2, f)
        } else if other_frame_marker(m) {
            Err(JpegHeaderError::NotBaseline)
        } else if m == MARKER_SOF0 || m == MARKER_DQT || m == MARKER_DHT || m == MARKER_DRI || m
            == MARKER_SOS || 0xE0 <= m <= 0xFE {
            match segment_body(data, pos as int + 2, m) {
                Err(e) => Err(e),
                Ok(body) => {
                    let next = pos + 4 + body.len();
                    if m == MARKER_SOF0 {
                        match after_sof0(body, f) {
                            Ok(g) => headers_from(data, next, g),
                            Err(e) => Err(e),
                        }
                    } else if m == MARKER_DQT {
                        match after_dqt(body, 0, f.quant) {
                            Ok(quant) => headers_from(data, next, FrameModel { quant, ..f }),
                            Err(e) => Err(e),
                        }
                    } else if m == MARKER_DHT {
                        match after_dht(body, 0, f.tables) {
                            Ok(tables) => headers_from(data, next, FrameModel { tables, ..f }),
                            Err(e) => Err(e),
                        }
                    } else if m == MARKER_DRI {
                        if body.len() != 2 {
                            Err(
                                JpegHeaderError::BadDriLength { length: (body.len() + 2) as usize },
                            )
                        } else {
                            headers_from(
                                data,
                                next,
                                FrameModel { restart_interval: be16(body[0], body[1]), ..f },
                            )
                        }
                    } else if m == MARKER_SOS {
                        match after_sos(body, blank_scan()) {
                            Ok(scan) => finished_headers(data, next as int, f, scan),
                            Err(e) => Err(e),
                        }
                    } else {
                        headers_from(data, next, f)
                    }
                },
            }
        } else {
            Err(JpegHeaderError::Truncated)
        }
    }
}

/// The result once SOS has been read and the scan starts at `start`.
pub open spec fn finished_headers(
    data: Seq<u8>,
    start: int,
    f: FrameModel,
    scan: ScanModel,
) -> Result<HeadersModel, JpegHeaderError> {
    if f.width == 0 || f.height == 0 || f.components == 0 {
        Err(JpegHeaderError::MissingSof0)
    } else {
        let tail = data.skip(start);
        Ok(
            HeadersModel {
                frame: f,
                scan,
                scan_data_offset: start,
                scan_data: tail.take(scan_end(tail, 0)),
            },
        )
    }
}

/// The headers of a JPEG file.
pub open spec fn parsed_headers(data: Seq<u8>) -> Result<HeadersModel, JpegHeaderError> {
    if data.len() < 2 {
        Err(JpegHeaderError::Truncated)
    } else if data[0] != 0xFF || data[1] != 0xD8 {
        Err(JpegHeaderError::MissingSoi)
    } else {
        headers_from(data, 2, blank_frame())
    }
}

} // verus!
