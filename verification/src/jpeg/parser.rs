//! The header parser: [`JpegHeaders::parse`] and its segment readers.

use super::header_spec::{
    after_dht, after_dqt, after_sof0, after_sos, be16, blank_frame, blank_scan, byte_sum, ends_scan,
    headers_from, other_frame_marker, parsed_headers, quant_values, quant_view, scan_end,
    segment_body, sof0_records, sos_records, table_index, tables_view, FrameModel, ScanModel,
};
use super::headers::{
    DhtClass, JpegFrameComponent, JpegHeaderError, JpegHeaders, JpegHuffmanTable, JpegQuantTable,
    JpegScanComponent, JpegScanHeader, MARKER_DHT, MARKER_DQT, MARKER_DRI, MARKER_SOF0, MARKER_SOS,
};
use vstd::prelude::*;
use vstd::slice::{slice_subrange, slice_to_vec};

verus! {

fn read_be16(hi: u8, lo: u8) -> (v: u16)
    ensures
        v == be16(hi, lo),
{
    hi as u16 * 256 + lo as u16
}

/// Forward reader over the marker stream.
struct ByteCursor<'a> {
    data: &'a [u8],
    pos: usize,
}

impl<'a> ByteCursor<'a> {
    spec fn wf(&self) -> bool {
        self.pos <= self.data@.len()
    }

    fn new(data: &'a [u8]) -> (c: Self)
        ensures
            c.wf(),
            c.data@ == data@,
            c.pos == 0,
    {
        ByteCursor { data, pos: 0 }
    }

    fn remaining(&self) -> (n: usize)
        requires
            self.wf(),
        ensures
            n == self.data@.len() - self.pos,
    {
        self.data.len() - self.pos
    }

    fn position(&self) -> (n: usize)
        ensures
            n == self.pos,
    {
        self.pos
    }

    fn peek(&self, offset: usize) -> (b: u8)
        requires
            self.pos + offset < self.data@.len(),
        ensures
            b == self.data@[self.pos + offset],
    {
        assert(self.data.len() == self.data@.len());
        self.data[self.pos + offset]
    }

    fn advance(&mut self, n: usize)
        requires
            old(self).pos + n <= old(self).data@.len(),
        ensures
            final(self).wf(),
            final(self).data@ == old(self).data@,
            final(self).pos == old(self).pos + n,
    {
        assert(self.data.len() == self.data@.len());
        self.pos = self.pos + n;
    }

    fn read_bytes(&mut self, n: usize) -> (bytes: Result<&'a [u8], JpegHeaderError>)
        requires
            old(self).wf(),
        ensures
            final(self).wf(),
            final(self).data@ == old(self).data@,
            match bytes {
                Ok(b) => old(self).pos + n <= old(self).data@.len() && b@
                    == old(self).data@.subrange(old(self).pos as int, old(self).pos + n)
                    && final(self).pos == old(self).pos + n,
                Err(e) => e == (if old(self).pos + n > usize::MAX {
                    JpegHeaderError::Overflow
                } else {
                    JpegHeaderError::Truncated
                }) && old(self).pos + n > old(self).data@.len(),
            },
    {
        assert(self.data.len() == self.data@.len());
        if n > usize::MAX - self.pos {
            return Err(JpegHeaderError::Overflow);
        }
        let end: usize = self.pos + n;
        if end > self.data.len() {
            return Err(JpegHeaderError::Truncated);
        }
        let bytes = slice_subrange(self.data, self.pos, end);
        self.pos = end;
        Ok(bytes)
    }
}

/// Read a length-prefixed segment body.  The length field is part of the
/// declared length, so the body is two bytes shorter.
fn read_segment<'a>(cursor: &mut ByteCursor<'a>, marker: u8) -> (body: Result<
    &'a [u8],
    JpegHeaderError,
>)
    requires
        old(cursor).wf(),
    ensures
        final(cursor).wf(),
        final(cursor).data@ == old(cursor).data@,
        match segment_body(old(cursor).data@, old(cursor).pos as int, marker) {
            Ok(b) => body matches Ok(r) && r@ == b && final(cursor).pos == old(cursor).pos + 2
                + b.len() && b.len() <= 65533,
            Err(e) => body matches Err(f) && f == e,
        },
{
    let ghost start = cursor.pos as int;
    let ghost all = cursor.data@;
    let seg_len: usize = match cursor.read_bytes(2) {
        Ok(b) => {
            assert(b@[0] == all[start]);
            assert(b@[1] == all[start + 1]);
            read_be16(b[0], b[1]) as usize
        },
        Err(e) => {
            return Err(e);
        },
    };
    if seg_len < 2 {
        return Err(JpegHeaderError::SegmentTooShort { marker });
    }
    match cursor.read_bytes(seg_len - 2) {
        Ok(body) => Ok(body),
        Err(e) => match e {
            JpegHeaderError::Truncated => Err(JpegHeaderError::SegmentOverrun { marker }),
            other => Err(other),
        },
    }
}

fn parse_sof0(
    body: &[u8],
    width: &mut u16,
    height: &mut u16,
    components: &mut u8,
    frame_components: &mut [JpegFrameComponent; 4],
    Ghost(f): Ghost<FrameModel>,
) -> (outcome: Result<(), JpegHeaderError>)
    requires
        f.frame == old(frame_components)@,
    ensures
        match after_sof0(body@, f) {
            Ok(g) => outcome is Ok && g == (FrameModel {
                width: *final(width),
                height: *final(height),
                components: *final(components),
                frame: final(frame_components)@,
                ..f
            }),
            Err(e) => outcome matches Err(r) && r == e,
        },
{
    if body.len() < 6 {
        return Err(JpegHeaderError::SegmentTooShort { marker: MARKER_SOF0 });
    }
    if body[0] != 8 {
        return Err(JpegHeaderError::UnsupportedPrecision { precision: body[0] });
    }
    *height = read_be16(body[1], body[2]);
    *width = read_be16(body[3], body[4]);
    let nf: u8 = body[5];
    if nf > 4 {
        return Err(JpegHeaderError::TooManyComponents { count: nf });
    }
    if nf as usize * 3 + 6 > body.len() {
        return Err(JpegHeaderError::SegmentOverrun { marker: MARKER_SOF0 });
    }
    *components = nf;
    let mut k: usize = 0;
    while k < nf as usize
        invariant
            nf == body@[5],
            nf <= 4,
            nf * 3 + 6 <= body@.len(),
            k <= nf,
            sof0_records(body@, 0, f.frame) == sof0_records(
                body@,
                k as int,
                frame_components@,
            ),
            after_sof0(body@, f) == (match sof0_records(body@, 0, f.frame) {
                Ok(frame) => Ok(
                    FrameModel {
                        height: *height,
                        width: *width,
                        components: *components,
                        frame,
                        ..f
                    },
                ),
                Err(e) => Err(e),
            }),
        decreases nf - k,
    {
        let id: u8 = body[6 + 3 * k];
        let h_sampling: u8 = body[7 + 3 * k] / 16;
        let v_sampling: u8 = body[7 + 3 * k] % 16;
        let quant_selector: u8 = body[8 + 3 * k];
        if quant_selector >= 4 {
            return Err(
                JpegHeaderError::BadTableId { marker: MARKER_SOF0, table_id: quant_selector },
            );
        }
        if !(1 <= h_sampling && h_sampling <= 4) || !(1 <= v_sampling && v_sampling <= 4) {
            return Err(JpegHeaderError::BadSamplingFactor { h_sampling, v_sampling });
        }
        frame_components[k] = JpegFrameComponent { id, h_sampling, v_sampling, quant_selector };
        k = k + 1;
    }
    Ok(())
}

fn parse_dqt(body: &[u8], quant_tables: &mut [Option<JpegQuantTable>; 4]) -> (outcome: Result<
    (),
    JpegHeaderError,
>)
    ensures
        match after_dqt(body@, 0, quant_view(old(quant_tables)@)) {
            Ok(q) => outcome is Ok && q == quant_view(final(quant_tables)@),
            Err(e) => outcome matches Err(r) && r == e,
        },
{
    let mut off: usize = 0;
    while off < body.len()
        invariant
            off <= body@.len(),
            after_dqt(body@, 0, quant_view(old(quant_tables)@)) == after_dqt(
                body@,
                off as int,
                quant_view(quant_tables@),
            ),
        decreases body@.len() - off,
    {
        let id_prec: u8 = body[off];
        let table_id: u8 = id_prec % 16;
        if table_id >= 4 {
            return Err(JpegHeaderError::BadTableId { marker: MARKER_DQT, table_id });
        }
        let wide: bool = id_prec / 16 != 0;
        let size: usize = if wide {
            128
        } else {
            64
        };
        if body.len() - off < 1 + size {
            return Err(JpegHeaderError::SegmentOverrun { marker: MARKER_DQT });
        }
        let start: usize = off + 1;
        let values = read_quant_values(body, start, wide);
        let ghost before = quant_tables@;
        quant_tables[table_id as usize] = Some(JpegQuantTable { values });
        assert(quant_view(quant_tables@) =~= quant_view(before).update(
            table_id as int,
            Some(quant_values(body@, start as int, wide)),
        ));
        off = start + size;
    }
    Ok(())
}

fn read_quant_values(body: &[u8], start: usize, wide: bool) -> (values: [u8; 64])
    requires
        start + (if wide {
            128int
        } else {
            64int
        }) <= body@.len(),
    ensures
        values@ == quant_values(body@, start as int, wide),
{
    let mut values: [u8; 64] = [0; 64];
    let mut k: usize = 0;
    assert(body.len() == body@.len());
    while k < 64
        invariant
            k <= 64,
            body.len() == body@.len(),
            start + (if wide {
                128int
            } else {
                64int
            }) <= body@.len(),
            forall|j: int|
                0 <= j < k ==> values@[j] == quant_values(body@, start as int, wide)[j],
        decreases 64 - k,
    {
        values[k] = if wide {
            let v: u16 = read_be16(body[start + 2 * k], body[start + 2 * k + 1]);
            if v <= 255 {
                v as u8
            } else {
                255
            }
        } else {
            body[start + k]
        };
        k = k + 1;
    }
    values
}

/// Index of the first table of this class and ID.
fn find_table(tables: &Vec<JpegHuffmanTable>, class: DhtClass, table_id: u8) -> (index: Option<
    usize,
>)
    ensures
        match table_index(tables_view(tables@), class, table_id, 0) {
            Some(i) => index matches Some(j) && j == i && j < tables@.len(),
            None => index is None,
        },
{
    let mut i: usize = 0;
    while i < tables.len()
        invariant
            i <= tables@.len(),
            table_index(tables_view(tables@), class, table_id, 0) == table_index(
                tables_view(tables@),
                class,
                table_id,
                i as int,
            ),
        decreases tables@.len() - i,
    {
        if tables[i].class == class && tables[i].table_id == table_id {
            return Some(i);
        }
        i = i + 1;
    }
    None
}

fn parse_dht(body: &[u8], huffman_tables: &mut Vec<JpegHuffmanTable>) -> (outcome: Result<
    (),
    JpegHeaderError,
>)
    ensures
        match after_dht(body@, 0, tables_view(old(huffman_tables)@)) {
            Ok(t) => outcome is Ok && t == tables_view(final(huffman_tables)@),
            Err(e) => outcome matches Err(r) && r == e,
        },
{
    let mut off: usize = 0;
    while off < body.len()
        invariant
            off <= body@.len(),
            after_dht(body@, 0, tables_view(old(huffman_tables)@)) == after_dht(
                body@,
                off as int,
                tables_view(huffman_tables@),
            ),
        decreases body@.len() - off,
    {
        if body.len() - off < 17 {
            return Err(JpegHeaderError::SegmentOverrun { marker: MARKER_DHT });
        }
        let tc: u8 = body[off] / 16;
        let table_id: u8 = body[off] % 16;
        let class = match tc {
            0 => DhtClass::Dc,
            1 => DhtClass::Ac,
            other => return Err(JpegHeaderError::BadDhtClass { class: other }),
        };
        if table_id >= 4 {
            return Err(JpegHeaderError::BadTableId { marker: MARKER_DHT, table_id });
        }
        let codes = slice_subrange(body, off + 1, off + 17);
        let (num_codes, total) = read_code_counts(codes);
        match class {
            DhtClass::Dc => {
                if total > 12 {
                    return Err(JpegHeaderError::DcTableTooLarge { total });
                }
            },
            DhtClass::Ac => {
                if total > 162 {
                    return Err(JpegHeaderError::AcTableTooLarge { total });
                }
            },
        }
        if body.len() - off - 17 < total {
            return Err(JpegHeaderError::SegmentOverrun { marker: MARKER_DHT });
        }
        let start: usize = off + 17;
        let values: Vec<u8> = slice_to_vec(slice_subrange(body, start, start + total));
        let table = JpegHuffmanTable { class, table_id, num_codes, values };
        let ghost before = huffman_tables@;
        let ghost model = table@;
        // A JPEG may redefine a table; the last definition stands.
        match find_table(huffman_tables, class, table_id) {
            Some(i) => {
                huffman_tables[i] = table;
                assert(tables_view(huffman_tables@) =~= tables_view(before).update(
                    i as int,
                    model,
                ));
            },
            None => {
                huffman_tables.push(table);
                assert(tables_view(huffman_tables@) =~= tables_view(before).push(model));
            },
        }
        off = start + total;
    }
    Ok(())
}

fn read_code_counts(codes: &[u8]) -> (r: ([u8; 16], usize))
    requires
        codes@.len() == 16,
    ensures
        r.0@ == codes@,
        r.1 == byte_sum(codes@),
{
    let mut num_codes: [u8; 16] = [0; 16];
    let mut total: usize = 0;
    let mut k: usize = 0;
    while k < 16
        invariant
            k <= 16,
            codes@.len() == 16,
            forall|j: int| 0 <= j < k ==> num_codes@[j] == codes@[j],
            total == byte_sum(codes@.take(k as int)),
            total <= 255 * k,
        decreases 16 - k,
    {
        num_codes[k] = codes[k];
        total = total + codes[k] as usize;
        k = k + 1;
        assert(codes@.take(k as int).drop_last() =~= codes@.take(k - 1));
    }
    assert(codes@.take(16) =~= codes@);
    assert(num_codes@ =~= codes@);
    (num_codes, total)
}

fn parse_sos(body: &[u8], scan: &mut JpegScanHeader) -> (outcome: Result<(), JpegHeaderError>)
    ensures
        match after_sos(body@, old(scan)@) {
            Ok(s) => outcome is Ok && s == final(scan)@,
            Err(e) => outcome matches Err(r) && r == e,
        },
{
    if body.len() == 0 {
        return Err(JpegHeaderError::BadSosHeader);
    }
    let nc: u8 = body[0];
    if nc == 0 || nc > 4 {
        return Err(JpegHeaderError::BadSosHeader);
    }
    if nc as usize * 2 + 4 > body.len() {
        return Err(JpegHeaderError::BadSosHeader);
    }
    let mut components: [JpegScanComponent; 4] = scan.components;
    let mut k: usize = 0;
    while k < nc as usize
        invariant
            nc == body@[0],
            nc <= 4,
            nc * 2 + 4 <= body@.len(),
            k <= nc,
            sos_records(body@, 0, scan.components@) == sos_records(
                body@,
                k as int,
                components@,
            ),
            scan@ == old(scan)@,
            after_sos(body@, old(scan)@) == (match sos_records(body@, 0, scan.components@) {
                Ok(components) => Ok(ScanModel { component_count: nc, components }),
                Err(e) => Err(e),
            }),
        decreases nc - k,
    {
        let id: u8 = body[1 + 2 * k];
        let dc_table: u8 = body[2 + 2 * k] / 16;
        let ac_table: u8 = body[2 + 2 * k] % 16;
        if dc_table > 1 {
            return Err(
                JpegHeaderError::BadSosTableSelector { class: DhtClass::Dc, selector: dc_table },
            );
        }
        if ac_table > 1 {
            return Err(
                JpegHeaderError::BadSosTableSelector { class: DhtClass::Ac, selector: ac_table },
            );
        }
        components[k] = JpegScanComponent { id, dc_table, ac_table };
        k = k + 1;
    }
    scan.component_count = nc;
    scan.components = components;
    Ok(())
}

/// Length of the entropy-coded segment that begins at `start`.  The scan ends
/// at the next non-RST marker (typically EOI = `0xFF 0xD9`) or, defensively,
/// at end-of-input.
fn locate_scan_end(data: &[u8], start: usize) -> (size: usize)
    requires
        start <= data@.len(),
    ensures
        size == scan_end(data@.skip(start as int), 0),
        start + size <= data@.len(),
{
    let tail = slice_subrange(data, start, data.len());
    assert(tail@ =~= data@.skip(start as int));
    let mut i: usize = 0;
    while tail.len() - i > 1
        invariant
            start <= data@.len(),
            tail@ == data@.skip(start as int),
            i <= tail@.len(),
            scan_end(tail@, 0) == scan_end(tail@, i as int),
        decreases tail@.len() - i,
    {
        if tail[i] == 0xFF {
            let next: u8 = tail[i + 1];
            if !(next == 0x00 || next == 0xFF || (0xD0 <= next && next <= 0xD7)) {
                assert(ends_scan(next));
                return i;
            }
        }
        i = i + 1;
    }
    tail.len()
}

impl<'a> JpegHeaders<'a> {
    /// Parse a JPEG bitstream and extract every header up to and including
    /// SOS.
    ///
    /// Returns the error of the first malformed or unsupported segment; the
    /// parser does not try to recover from a bad one.
    pub fn parse(data: &'a [u8]) -> (headers: Result<Self, JpegHeaderError>)
        ensures
            match parsed_headers(data@) {
                Ok(m) => headers matches Ok(h) && h@ == m,
                Err(e) => headers matches Err(r) && r == e,
            },
    {
        let mut cursor = ByteCursor::new(data);
        match cursor.read_bytes(2) {
            Ok(soi) => {
                assert(soi@[0] == data@[0]);
                assert(soi@[1] == data@[1]);
                if soi[0] != 0xFF || soi[1] != 0xD8 {
                    return Err(JpegHeaderError::MissingSoi);
                }
            },
            Err(e) => {
                return Err(e);
            },
        }
        let mut width: u16 = 0;
        let mut height: u16 = 0;
        let mut components: u8 = 0;
        let none = JpegFrameComponent::default();
        let mut frame_components: [JpegFrameComponent; 4] = [none, none, none, none];
        let mut quant_tables: [Option<JpegQuantTable>; 4] = [None, None, None, None];
        let mut huffman_tables: Vec<JpegHuffmanTable> = Vec::new();
        let mut restart_interval: u16 = 0;
        let ghost mut f = blank_frame();
        assert(frame_components@ =~= f.frame);
        assert(quant_view(quant_tables@) =~= f.quant);
        assert(tables_view(huffman_tables@) =~= f.tables);
        loop
            invariant
                cursor.wf(),
                cursor.data@ == data@,
                parsed_headers(data@) == headers_from(data@, cursor.pos as nat, f),
                f == (FrameModel {
                    width,
                    height,
                    components,
                    frame: frame_components@,
                    quant: quant_view(quant_tables@),
                    tables: tables_view(huffman_tables@),
                    restart_interval,
                }),
            decreases data@.len() - cursor.pos,
        {
            if cursor.remaining() < 2 {
                return Err(JpegHeaderError::Truncated);
            }
            if cursor.peek(0) != 0xFF {
                return Err(JpegHeaderError::ExpectedMarker);
            }
            let marker: u8 = cursor.peek(1);
            cursor.advance(2);
            if 0xD0 <= marker && marker <= 0xD8 {
                // RST0–RST7 / SOI re-encounter: zero-payload markers.
                continue ;
            }
            if 0xC1 <= marker && marker <= 0xCF && marker != 0xC4 && marker != 0xC8 && marker
                != 0xCC {
                assert(other_frame_marker(marker));
                return Err(JpegHeaderError::NotBaseline);
            }
            if marker == MARKER_SOF0 {
                let body = match read_segment(&mut cursor, marker) {
                    Ok(body) => body,
                    Err(e) => return Err(e),
                };
                match parse_sof0(
                    body,
                    &mut width,
                    &mut height,
                    &mut components,
                    &mut frame_components,
                    Ghost(f),
                ) {
                    Ok(_) => {},
                    Err(e) => return Err(e),
                }
                proof {
                    f = FrameModel {
                        width,
                        height,
                        components,
                        frame: frame_components@,
                        ..f
                    };
                }
            } else if marker == MARKER_DQT {
                let body = match read_segment(&mut cursor, marker) {
                    Ok(body) => body,
                    Err(e) => return Err(e),
                };
                match parse_dqt(body, &mut quant_tables) {
                    Ok(_) => {},
                    Err(e) => return Err(e),
                }
                proof {
                    f = FrameModel { quant: quant_view(quant_tables@), ..f };
                }
            } else if marker == MARKER_DHT {
                let body = match read_segment(&mut cursor, marker) {
                    Ok(body) => body,
                    Err(e) => return Err(e),
                };
                match parse_dht(body, &mut huffman_tables) {
                    Ok(_) => {},
                    Err(e) => return Err(e),
                }
                proof {
                    f = FrameModel { tables: tables_view(huffman_tables@), ..f };
                }
            } else if marker == MARKER_DRI {
                let body = match read_segment(&mut cursor, marker) {
                    Ok(body) => body,
                    Err(e) => return Err(e),
                };
                if body.len() != 2 {
                    return Err(JpegHeaderError::BadDriLength { length: body.len() + 2 });
                }
                restart_interval = read_be16(body[0], body[1]);
                proof {
                    f = FrameModel { restart_interval, ..f };
                }
            } else if marker == MARKER_SOS {
                let body = match read_segment(&mut cursor, marker) {
                    Ok(body) => body,
                    Err(e) => return Err(e),
                };
                let mut scan = JpegScanHeader::default();
                assert(scan@ =~= blank_scan());
                match parse_sos(body, &mut scan) {
                    Ok(_) => {},
                    Err(e) => return Err(e),
                }
                if width == 0 || height == 0 || components == 0 {
                    return Err(JpegHeaderError::MissingSof0);
                }
                let scan_data_offset: usize = cursor.position();
                let size: usize = locate_scan_end(data, scan_data_offset);
                assert(data.len() == data@.len());
                let scan_data = slice_subrange(data, scan_data_offset, scan_data_offset + size);
                assert(scan_data@ =~= data@.skip(scan_data_offset as int).take(size as int));
                return Ok(
                    JpegHeaders {
                        width,
                        height,
                        components,
                        frame_components,
                        quant_tables,
                        huffman_tables,
                        scan,
                        restart_interval,
                        scan_data,
                        scan_data_offset,
                    },
                );
            } else if 0xE0 <= marker && marker <= 0xFE {
                // APP0–APP15, COM, etc. — length-prefixed.
                match read_segment(&mut cursor, marker) {
                    Ok(_) => {},
                    Err(e) => return Err(e),
                }
            } else {
                // EOI or any unrecognised marker before SOS.
                return Err(JpegHeaderError::Truncated);
            }
        }
    }

    /// Look up a Huffman table by class and table ID. Returns `None` if no
    /// matching table was declared in any DHT segment.
    #[must_use]
    pub fn huffman(&self, class: DhtClass, table_id: u8) -> (table: Option<&JpegHuffmanTable>)
        ensures
            match table_index(self@.frame.tables, class, table_id, 0) {
                Some(i) => table == Some(&self.huffman_tables@[i]),
                None => table is None,
            },
    {
        match find_table(&self.huffman_tables, class, table_id) {
            Some(i) => Some(&self.huffman_tables[i]),
            None => None,
        }
    }
}

} // verus!
