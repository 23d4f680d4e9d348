//! What holds of every header set the parser accepts.

use super::header_spec::{
    after_dht, after_dqt, after_sof0, after_sos, blank_frame, blank_scan, byte_sum, ends_scan,
    finished_headers, headers_from, other_frame_marker, parsed_headers, quant_values, scan_end,
    segment_body, sof0_record, sof0_records, sos_record, sos_records, table_index, with_table,
    FrameModel, HeadersModel, ScanModel, TableModel,
};
use super::headers::{
    DhtClass, JpegFrameComponent, JpegScanComponent, MARKER_DHT, MARKER_DQT, MARKER_DRI,
    MARKER_SOF0, MARKER_SOS,
};
use vstd::prelude::*;

verus! {

/// A frame component within the baseline limits.
pub open spec fn component_valid(c: JpegFrameComponent) -> bool {
    &&& 1 <= c.h_sampling <= 4
    &&& 1 <= c.v_sampling <= 4
    &&& c.quant_selector < 4
}

/// A Huffman table with as many values as codes, within the baseline limits.
pub open spec fn table_valid(t: TableModel) -> bool {
    &&& t.table_id < 4
    &&& t.num_codes.len() == 16
    &&& t.values.len() == byte_sum(t.num_codes)
    &&& t.values.len() <= if t.class == DhtClass::Dc {
        12int
    } else {
        162
    }
}

/// At most one table of each class and ID.
pub open spec fn tables_distinct(tables: Seq<TableModel>) -> bool {
    forall|i: int, j: int|
        0 <= i < j < tables.len() ==> (#[trigger] tables[i]).class != (
        #[trigger] tables[j]).class || tables[i].table_id != tables[j].table_id
}

/// What every parsed frame satisfies.
pub open spec fn frame_valid(f: FrameModel) -> bool {
    &&& f.components <= 4
    &&& f.frame.len() == 4
    &&& f.quant.len() == 4
    &&& forall|k: int| 0 <= k < f.components ==> component_valid(#[trigger] f.frame[k])
    &&& forall|k: int| 0 <= k < 4 ==> (#[trigger] f.quant[k] matches Some(q) ==> q.len() == 64)
    &&& forall|k: int| 0 <= k < f.tables.len() ==> table_valid(#[trigger] f.tables[k])
    &&& tables_distinct(f.tables)
}

/// What every parsed scan header satisfies.
pub open spec fn scan_valid(s: ScanModel) -> bool {
    &&& 1 <= s.component_count <= 4
    &&& s.components.len() == 4
    &&& forall|k: int|
        0 <= k < s.component_count ==> (#[trigger] s.components[k]).dc_table <= 1
            && s.components[k].ac_table <= 1
}

/// The entropy-coded segment holds no marker but restart markers.
pub open spec fn no_marker_inside(scan: Seq<u8>) -> bool {
    forall|i: int|
        #![trigger scan[i]]
        0 <= i < scan.len() - 1 && scan[i] == 0xFF ==> !ends_scan(scan[i + 1])
}

/// What all parsed headers satisfy.
pub open spec fn headers_valid(h: HeadersModel) -> bool {
    &&& frame_valid(h.frame)
    &&& h.frame.width > 0
    &&& h.frame.height > 0
    &&& h.frame.components > 0
    &&& scan_valid(h.scan)
    &&& no_marker_inside(h.scan_data)
}

proof fn lemma_sof0_records(body: Seq<u8>, k: int, frame: Seq<JpegFrameComponent>)
    requires
        0 <= k <= body[5] <= 4,
        frame.len() == 4,
        forall|j: int| 0 <= j < k ==> component_valid(#[trigger] frame[j]),
    ensures
        sof0_records(body, k, frame) matches Ok(r) ==> r.len() == 4 && forall|j: int|
            0 <= j < body[5] ==> component_valid(#[trigger] r[j]),
    decreases body[5] - k,
{
    if k < body[5] {
        if let Ok(c) = sof0_record(body, k) {
            assert(component_valid(c));
            lemma_sof0_records(body, k + 1, frame.update(k, c));
        }
    }
}

proof fn lemma_dqt(body: Seq<u8>, off: int, quant: Seq<Option<Seq<u8>>>)
    requires
        quant.len() == 4,
        forall|k: int| 0 <= k < 4 ==> (#[trigger] quant[k] matches Some(q) ==> q.len() == 64),
    ensures
        after_dqt(body, off, quant) matches Ok(r) ==> r.len() == 4 && forall|k: int|
            0 <= k < 4 ==> (#[trigger] r[k] matches Some(q) ==> q.len() == 64),
    decreases body.len() - off,
{
    if off < body.len() {
        let id = body[off] % 16;
        let wide = body[off] / 16 != 0;
        let size: int = if wide {
            128
        } else {
            64
        };
        if id < 4 && off + 1 + size <= body.len() {
            lemma_dqt(
                body,
                off + 1 + size,
                quant.update(id as int, Some(quant_values(body, off + 1, wide))),
            );
        }
    }
}

/// The index found is the first match; none found means there is none.
pub proof fn lemma_table_index(tables: Seq<TableModel>, class: DhtClass, table_id: u8, i: int)
    requires
        0 <= i <= tables.len(),
    ensures
        match table_index(tables, class, table_id, i) {
            Some(j) => i <= j < tables.len() && tables[j].class == class && tables[j].table_id
                == table_id && forall|k: int|
                i <= k < j ==> (#[trigger] tables[k]).class != class || tables[k].table_id
                    != table_id,
            None => forall|k: int|
                i <= k < tables.len() ==> (#[trigger] tables[k]).class != class
                    || tables[k].table_id != table_id,
        },
    decreases tables.len() - i,
{
    if i < tables.len() && !(tables[i].class == class && tables[i].table_id == table_id) {
        lemma_table_index(tables, class, table_id, i + 1);
    }
}

proof fn lemma_with_table(tables: Seq<TableModel>, t: TableModel)
    requires
        tables_distinct(tables),
        table_valid(t),
        forall|k: int| 0 <= k < tables.len() ==> table_valid(#[trigger] tables[k]),
    ensures
        tables_distinct(with_table(tables, t)),
        forall|k: int|
            0 <= k < with_table(tables, t).len() ==> table_valid(
                #[trigger] with_table(tables, t)[k],
            ),
{
    lemma_table_index(tables, t.class, t.table_id, 0);
}

proof fn lemma_dht(body: Seq<u8>, off: int, tables: Seq<TableModel>)
    requires
        0 <= off,
        tables_distinct(tables),
        forall|k: int| 0 <= k < tables.len() ==> table_valid(#[trigger] tables[k]),
    ensures
        after_dht(body, off, tables) matches Ok(r) ==> tables_distinct(r) && forall|k: int|
            0 <= k < r.len() ==> table_valid(#[trigger] r[k]),
    decreases body.len() - off,
{
    if off < body.len() && off + 17 <= body.len() {
        let tc = body[off] / 16;
        let th = body[off] % 16;
        let num_codes = body.subrange(off + 1, off + 17);
        let total = byte_sum(num_codes);
        if tc <= 1 && th < 4 && !(tc == 0 && total > 12) && !(tc == 1 && total > 162) && off + 17
            + total <= body.len() {
            let t = TableModel {
                class: if tc == 0 {
                    DhtClass::Dc
                } else {
                    DhtClass::Ac
                },
                table_id: th,
                num_codes,
                values: body.subrange(off + 17, off + 17 + total),
            };
            lemma_with_table(tables, t);
            lemma_dht(body, off + 17 + total, with_table(tables, t));
        }
    }
}

proof fn lemma_sos_records(body: Seq<u8>, k: int, slots: Seq<JpegScanComponent>)
    requires
        0 <= k <= body[0] <= 4,
        slots.len() == 4,
        forall|j: int|
            0 <= j < k ==> (#[trigger] slots[j]).dc_table <= 1 && slots[j].ac_table <= 1,
    ensures
        sos_records(body, k, slots) matches Ok(r) ==> r.len() == 4 && forall|j: int|
            0 <= j < body[0] ==> (#[trigger] r[j]).dc_table <= 1 && r[j].ac_table <= 1,
    decreases body[0] - k,
{
    if k < body[0] {
        if let Ok(c) = sos_record(body, k) {
            lemma_sos_records(body, k + 1, slots.update(k, c));
        }
    }
}

/// The scan runs to the first scan-ending marker.
proof fn lemma_scan_end(tail: Seq<u8>, i: int)
    requires
        0 <= i <= tail.len(),
    ensures
        i <= scan_end(tail, i) <= tail.len(),
        forall|j: int|
            #![trigger tail[j]]
            i <= j < scan_end(tail, i) && j + 1 < tail.len() && tail[j] == 0xFF ==> !ends_scan(
                tail[j + 1],
            ),
        scan_end(tail, i) < tail.len() ==> tail[scan_end(tail, i)] == 0xFF,
    decreases tail.len() - i,
{
    if i + 1 < tail.len() && !(tail[i] == 0xFF && ends_scan(tail[i + 1])) {
        lemma_scan_end(tail, i + 1);
    }
}

#[verifier::rlimit(40)]
proof fn lemma_headers_from(data: Seq<u8>, pos: nat, f: FrameModel)
    requires
        frame_valid(f),
    ensures
        headers_from(data, pos, f) matches Ok(h) ==> headers_valid(h) && 0 <= h.scan_data_offset
            && h.scan_data_offset + h.scan_data.len() <= data.len() && h.scan_data
            == data.subrange(h.scan_data_offset, h.scan_data_offset + h.scan_data.len()),
    decreases data.len() - pos,
{
    if data.len() - pos >= 2 && data[pos as int] == 0xFF {
        let m = data[pos as int + 1];
        if 0xD0 <= m <= 0xD8 {
            lemma_headers_from(data, pos + 2, f);
        } else if other_frame_marker(m) {
        } else if m == MARKER_SOF0 || m == MARKER_DQT || m == MARKER_DHT || m == MARKER_DRI || m
            == MARKER_SOS || 0xE0 <= m <= 0xFE {
            if let Ok(body) = segment_body(data, pos as int + 2, m) {
                let next = pos + 4 + body.len();
                if m == MARKER_SOF0 {
                    if let Ok(g) = after_sof0(body, f) {
                        lemma_sof0_records(body, 0, f.frame);
                        lemma_headers_from(data, next, g);
                    }
                } else if m == MARKER_DQT {
                    if let Ok(quant) = after_dqt(body, 0, f.quant) {
                        lemma_dqt(body, 0, f.quant);
                        lemma_headers_from(data, next, FrameModel { quant, ..f });
                    }
                } else if m == MARKER_DHT {
                    if let Ok(tables) = after_dht(body, 0, f.tables) {
                        lemma_dht(body, 0, f.tables);
                        lemma_headers_from(data, next, FrameModel { tables, ..f });
                    }
                } else if m == MARKER_DRI {
                    if body.len() == 2 {
                        lemma_headers_from(
                            data,
                            next,
                            FrameModel {
                                restart_interval: super::header_spec::be16(body[0], body[1]),
                                ..f
                            },
                        );
                    }
                } else if m == MARKER_SOS {
                    if let Ok(scan) = after_sos(body, blank_scan()) {
                        lemma_sos_records(body, 0, blank_scan().components);
                        lemma_finished(data, next as int, f, scan);
                    }
                } else {
                    lemma_headers_from(data, next, f);
                }
            }
        }
    }
}

proof fn lemma_finished(data: Seq<u8>, start: int, f: FrameModel, scan: ScanModel)
    requires
        0 <= start <= data.len(),
        frame_valid(f),
        scan_valid(scan),
    ensures
        finished_headers(data, start, f, scan) matches Ok(h) ==> headers_valid(h)
            && h.scan_data_offset == start && start + h.scan_data.len() <= data.len()
            && h.scan_data == data.subrange(start, start + h.scan_data.len()),
{
    let tail = data.skip(start);
    let n = scan_end(tail, 0);
    lemma_scan_end(tail, 0);
    assert(tail.take(n) =~= data.subrange(start, start + n));
    let inside = tail.take(n);
    assert forall|i: int|
        #![trigger inside[i]]
        0 <= i < inside.len() - 1 && inside[i] == 0xFF implies !ends_scan(inside[i + 1]) by {
        assert(tail[i] == 0xFF);
    }
}

/// Every header set the parser accepts is within the baseline limits: 1 to 4
/// components with sampling factors in 1..=4, 64-entry quantisers, Huffman
/// tables with as many values as codes and no two of one class and ID,
/// selectors in range, a nonempty image, and a scan that is a stretch of the
/// input without any marker but restart markers.
pub proof fn law_parsed_headers_are_valid(data: Seq<u8>)
    ensures
        parsed_headers(data) matches Ok(h) ==> headers_valid(h) && 0 <= h.scan_data_offset
            && h.scan_data_offset + h.scan_data.len() <= data.len() && h.scan_data
            == data.subrange(h.scan_data_offset, h.scan_data_offset + h.scan_data.len()),
{
    lemma_headers_from(data, 2, blank_frame());
}

/// A redefined Huffman table is found in its last definition, and no other
/// table is disturbed.
pub proof fn law_last_table_definition_stands(
    tables: Seq<TableModel>,
    t: TableModel,
    class: DhtClass,
    table_id: u8,
)
    ensures
        ({
            let after = with_table(tables, t);
            let found = table_index(after, class, table_id, 0);
            if class == t.class && table_id == t.table_id {
                found matches Some(i) && 0 <= i < after.len() && after[i] == t
            } else {
                match table_index(tables, class, table_id, 0) {
                    Some(i) => found == Some(i) && after[i] == tables[i],
                    None => found is None,
                }
            }
        }),
{
    let after = with_table(tables, t);
    lemma_table_index(tables, t.class, t.table_id, 0);
    lemma_table_index(tables, class, table_id, 0);
    lemma_table_index(after, class, table_id, 0);
    if class == t.class && table_id == t.table_id {
        match table_index(tables, t.class, t.table_id, 0) {
            Some(i) => assert(after[i] == t),
            None => assert(after[tables.len() as int] == t),
        }
    } else {
        assert forall|k: int| 0 <= k < tables.len() implies (after[k].class == class
            && after[k].table_id == table_id) == (#[trigger] tables[k].class == class
            && tables[k].table_id == table_id) by {}
        match table_index(tables, class, table_id, 0) {
            Some(i) => {
                assert(tables[i].class == class);
                assert(after[i].class == class && after[i].table_id == table_id);
                match table_index(after, class, table_id, 0) {
                    Some(j) => {
                        if j < i {
                            assert(tables[j].class != class || tables[j].table_id != table_id);
                        }
                    },
                    None => {},
                }
            },
            None => {
                match table_index(after, class, table_id, 0) {
                    Some(j) => {
                        if j < tables.len() {
                            assert(tables[j].class != class || tables[j].table_id != table_id);
                        }
                    },
                    None => {},
                }
            },
        }
    }
}

} // verus!
