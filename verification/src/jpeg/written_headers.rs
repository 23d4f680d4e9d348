//! Headers as they are written, and that they are read back.
//!
//! A file is written piece by piece from what it is to say; the parser is
//! held to give that back.

use super::header_laws::table_valid;
use super::header_spec::{
    after_dht, after_dqt, after_sof0, be16, blank_frame, blank_scan, headers_from, parsed_headers,
    quant_values, scan_end, segment_body, sof0_record, sof0_records, sos_record, sos_records,
    with_table, FrameModel, HeadersModel, TableModel,
};
use super::headers::{
    DhtClass, JpegFrameComponent, JpegHeaderError, JpegScanComponent, MARKER_DHT, MARKER_DQT,
    MARKER_DRI, MARKER_SOF0, MARKER_SOS,
};
use vstd::prelude::*;

verus! {

/// A quantisation table as it is written: in one byte for each quantiser, or
/// in two.
pub struct QuantDef {
    pub id: u8,
    pub wide: bool,
    pub values: Seq<u16>,
}

/// A piece of the headers before the scan header.
pub enum Piece {
    /// Size and components of the image.
    Frame { width: u16, height: u16, components: Seq<JpegFrameComponent> },
    /// Quantisation tables.
    Quants(Seq<QuantDef>),
    /// Huffman tables.
    Tables(Seq<TableModel>),
    /// MCUs between restart markers.
    Restarts(u16),
    /// A segment that is no business of a decoder.
    Other { marker: u8, body: Seq<u8> },
}

/// A 16-bit number, high byte first.
pub open spec fn two_bytes(n: int) -> Seq<u8> {
    seq![(n / 256) as u8, (n % 256) as u8]
}

/// Two numbers below 16 in one byte.
pub open spec fn nibbles(high: int, low: int) -> u8 {
    (16 * high + low) as u8
}

/// A segment: its marker, its length with the length field, its body.
pub open spec fn segment(marker: u8, body: Seq<u8>) -> Seq<u8> {
    seq![0xFFu8, marker] + two_bytes(body.len() as int + 2) + body
}

/// The frame header.
pub open spec fn frame_body(width: u16, height: u16, components: Seq<JpegFrameComponent>) -> Seq<
    u8,
> {
    seq![8u8] + two_bytes(height as int) + two_bytes(width as int) + seq![components.len() as u8]
        + Seq::new(
        3 * components.len(),
        |i: int|
            {
                let c = components[i / 3];
                if i % 3 == 0 {
                    c.id
                } else if i % 3 == 1 {
                    nibbles(c.h_sampling as int, c.v_sampling as int)
                } else {
                    c.quant_selector
                }
            },
    )
}

/// One quantisation table.
pub open spec fn quant_bytes(q: QuantDef) -> Seq<u8> {
    if q.wide {
        seq![nibbles(1, q.id as int)] + Seq::new(
            128,
            |i: int|
                if i % 2 == 0 {
                    (q.values[i / 2] / 256) as u8
                } else {
                    (q.values[i / 2] % 256) as u8
                },
        )
    } else {
        seq![nibbles(0, q.id as int)] + Seq::new(64, |i: int| q.values[i] as u8)
    }
}

/// Quantisation tables, one behind the other.
pub open spec fn quants_body(qs: Seq<QuantDef>) -> Seq<u8>
    decreases qs.len(),
{
    if qs.len() == 0 {
        Seq::empty()
    } else {
        quant_bytes(qs[0]) + quants_body(qs.skip(1))
    }
}

/// One Huffman table.
pub open spec fn table_bytes(t: TableModel) -> Seq<u8> {
    seq![
        nibbles(
            if t.class == DhtClass::Dc {
                0
            } else {
                1
            },
            t.table_id as int,
        ),
    ] + t.num_codes + t.values
}

/// Huffman tables, one behind the other.
pub open spec fn tables_body(ts: Seq<TableModel>) -> Seq<u8>
    decreases ts.len(),
{
    if ts.len() == 0 {
        Seq::empty()
    } else {
        table_bytes(ts[0]) + tables_body(ts.skip(1))
    }
}

/// The scan header of a baseline scan.
pub open spec fn scan_body(components: Seq<JpegScanComponent>) -> Seq<u8> {
    seq![components.len() as u8] + Seq::new(
        2 * components.len(),
        |i: int|
            {
                let c = components[i / 2];
                if i % 2 == 0 {
                    c.id
                } else {
                    nibbles(c.dc_table as int, c.ac_table as int)
                }
            },
    ) + seq![0u8, 63u8, 0u8]
}

/// A piece as it is written.
pub open spec fn piece_bytes(piece: Piece) -> Seq<u8> {
    match piece {
        Piece::Frame { width, height, components } => segment(
            0xC0,
            frame_body(width, height, components),
        ),
        Piece::Quants(qs) => segment(0xDB, quants_body(qs)),
        Piece::Tables(ts) => segment(0xC4, tables_body(ts)),
        Piece::Restarts(n) => segment(0xDD, two_bytes(n as int)),
        Piece::Other { marker, body } => segment(marker, body),
    }
}

/// Pieces, one behind the other.
pub open spec fn pieces_bytes(pieces: Seq<Piece>) -> Seq<u8>
    decreases pieces.len(),
{
    if pieces.len() == 0 {
        Seq::empty()
    } else {
        piece_bytes(pieces[0]) + pieces_bytes(pieces.skip(1))
    }
}

/// A quantisation table that can be written.
pub open spec fn quant_writable(q: QuantDef) -> bool {
    &&& q.id < 4
    &&& q.values.len() == 64
    &&& !q.wide ==> forall|i: int| 0 <= i < 64 ==> #[trigger] q.values[i] <= 255
}

/// A piece that a baseline file can hold.
pub open spec fn writable(piece: Piece) -> bool {
    match piece {
        Piece::Frame { width, height, components } => {
            &&& components.len() <= 4
            &&& forall|k: int|
                0 <= k < components.len() ==> {
                    &&& 1 <= (#[trigger] components[k]).h_sampling <= 4
                    &&& 1 <= components[k].v_sampling <= 4
                    &&& components[k].quant_selector < 4
                }
        },
        Piece::Quants(qs) => {
            &&& forall|k: int| 0 <= k < qs.len() ==> quant_writable(#[trigger] qs[k])
            &&& quants_body(qs).len() + 2 <= 65535
        },
        Piece::Tables(ts) => {
            &&& forall|k: int| 0 <= k < ts.len() ==> table_valid(#[trigger] ts[k])
            &&& tables_body(ts).len() + 2 <= 65535
        },
        Piece::Restarts(_) => true,
        Piece::Other { marker, body } => 0xE0 <= marker <= 0xFE && body.len() + 2 <= 65535,
    }
}

/// The quantisers that a table stands for: those above 255 count as 255.
pub open spec fn quantisers(q: QuantDef) -> Seq<u8> {
    q.values.map_values(
        |v: u16|
            if v <= 255 {
                v as u8
            } else {
                255u8
            },
    )
}

/// The tables once these are defined too: the last definition of a slot
/// counts.
pub open spec fn quants_said(quant: Seq<Option<Seq<u8>>>, qs: Seq<QuantDef>) -> Seq<
    Option<Seq<u8>>,
>
    decreases qs.len(),
{
    if qs.len() == 0 {
        quant
    } else {
        quants_said(quant.update(qs[0].id as int, Some(quantisers(qs[0]))), qs.skip(1))
    }
}

/// The Huffman tables once these are defined too.
pub open spec fn tables_said(tables: Seq<TableModel>, ts: Seq<TableModel>) -> Seq<TableModel>
    decreases ts.len(),
{
    if ts.len() == 0 {
        tables
    } else {
        tables_said(with_table(tables, ts[0]), ts.skip(1))
    }
}

/// What holds once a piece has been said.
pub open spec fn said(f: FrameModel, piece: Piece) -> FrameModel {
    match piece {
        Piece::Frame { width, height, components } => FrameModel {
            width,
            height,
            components: components.len() as u8,
            frame: Seq::new(
                f.frame.len(),
                |k: int|
                    if k < components.len() {
                        components[k]
                    } else {
                        f.frame[k]
                    },
            ),
            ..f
        },
        Piece::Quants(qs) => FrameModel { quant: quants_said(f.quant, qs), ..f },
        Piece::Tables(ts) => FrameModel { tables: tables_said(f.tables, ts), ..f },
        Piece::Restarts(n) => FrameModel { restart_interval: n, ..f },
        Piece::Other { marker, body } => f,
    }
}

/// What holds once all pieces have been said.
pub open spec fn all_said(f: FrameModel, pieces: Seq<Piece>) -> FrameModel
    decreases pieces.len(),
{
    if pieces.len() == 0 {
        f
    } else {
        all_said(said(f, pieces[0]), pieces.skip(1))
    }
}

/// A file: the pieces, the scan header, the scan, the end-of-image marker and
/// anything behind it.
pub open spec fn file(
    pieces: Seq<Piece>,
    scan_components: Seq<JpegScanComponent>,
    scan: Seq<u8>,
    trailer: Seq<u8>,
) -> Seq<u8> {
    seq![0xFFu8, 0xD8u8] + pieces_bytes(pieces) + segment(0xDA, scan_body(scan_components)) + scan
        + seq![0xFFu8, 0xD9u8] + trailer
}

/// In a scan a byte of ones is followed by a stuffed zero, by a restart
/// marker or by another byte of ones.
pub open spec fn stuffed_scan(scan: Seq<u8>) -> bool {
    forall|i: int|
        #![trigger scan[i]]
        0 <= i && i + 1 < scan.len() && scan[i] == 0xFF ==> scan[i + 1] == 0 || 0xD0 <= scan[i + 1]
            <= 0xD7 || scan[i + 1] == 0xFF
}

proof fn lemma_segment(data: Seq<u8>, p: nat, marker: u8, body: Seq<u8>)
    requires
        data.len() <= isize::MAX,
        body.len() + 2 <= 65535,
        p + 4 + body.len() <= data.len(),
        data.subrange(p as int, p as int + 4 + body.len()) == segment(marker, body),
    ensures
        data[p as int] == 0xFF,
        data[p as int + 1] == marker,
        segment_body(data, p as int + 2, marker) == Ok::<Seq<u8>, JpegHeaderError>(body),
{
    let seg = segment(marker, body);
    let len = body.len() + 2;
    assert(seg.len() == 4 + body.len());
    assert forall|i: int| 0 <= i < seg.len() implies #[trigger] seg[i] == data[p as int + i] by {
        assert(data.subrange(p as int, p as int + 4 + body.len())[i] == data[p as int + i]);
    }
    assert(seg[0] == data[p as int + 0] && seg[1] == data[p as int + 1]);
    assert(seg[2] == data[p as int + 2] && seg[3] == data[p as int + 3]);
    assert(seg[2] == (len / 256) as u8 && seg[3] == (len % 256) as u8);
    assert(be16(data[p as int + 2], data[p as int + 3]) == len);
    assert(data.subrange(p as int + 4, p as int + 4 + body.len()) =~= body) by {
        assert forall|i: int| 0 <= i < body.len() implies data[p as int + 4 + i]
            == #[trigger] body[i] by {
            assert(seg[4 + i] == data[p as int + (4 + i)]);
        }
    }
}

proof fn lemma_nibbles(high: int, low: int)
    requires
        0 <= high < 16,
        0 <= low < 16,
    ensures
        nibbles(high, low) / 16 == high,
        nibbles(high, low) % 16 == low,
{
}

proof fn lemma_frame_records(
    width: u16,
    height: u16,
    components: Seq<JpegFrameComponent>,
    k: int,
    frame: Seq<JpegFrameComponent>,
    start: Seq<JpegFrameComponent>,
)
    requires
        writable(Piece::Frame { width, height, components }),
        0 <= k <= components.len(),
        frame.len() == 4,
        start.len() == 4,
        frame == Seq::new(
            4,
            |j: int|
                if j < k {
                    components[j]
                } else {
                    start[j]
                },
        ),
    ensures
        sof0_records(frame_body(width, height, components), k, frame) == Ok::<
            Seq<JpegFrameComponent>,
            JpegHeaderError,
        >(
            Seq::new(
                4,
                |j: int|
                    if j < components.len() {
                        components[j]
                    } else {
                        start[j]
                    },
            ),
        ),
    decreases components.len() - k,
{
    let body = frame_body(width, height, components);
    assert(body[5] == components.len());
    if k < components.len() {
        let c = components[k];
        let i = 3 * k;
        assert(i / 3 == k && (i + 1) / 3 == k && (i + 2) / 3 == k);
        assert(i % 3 == 0 && (i + 1) % 3 == 1 && (i + 2) % 3 == 2);
        assert(body[6 + i] == c.id);
        assert(body[6 + (i + 1)] == nibbles(c.h_sampling as int, c.v_sampling as int));
        assert(body[6 + (i + 2)] == c.quant_selector);
        lemma_nibbles(c.h_sampling as int, c.v_sampling as int);
        assert(sof0_record(body, k) == Ok::<JpegFrameComponent, JpegHeaderError>(c));
        let next = frame.update(k, c);
        assert(next =~= Seq::new(
            4,
            |j: int|
                if j < k + 1 {
                    components[j]
                } else {
                    start[j]
                },
        ));
        lemma_frame_records(width, height, components, k + 1, next, start);
    }
}

proof fn lemma_quants(body: Seq<u8>, off: int, qs: Seq<QuantDef>, quant: Seq<Option<Seq<u8>>>)
    requires
        0 <= off <= body.len(),
        body.skip(off) == quants_body(qs),
        forall|k: int| 0 <= k < qs.len() ==> quant_writable(#[trigger] qs[k]),
    ensures
        after_dqt(body, off, quant) == Ok::<Seq<Option<Seq<u8>>>, JpegHeaderError>(
            quants_said(quant, qs),
        ),
    decreases qs.len(),
{
    let tail = body.skip(off);
    assert(tail.len() == body.len() - off);
    if qs.len() > 0 {
        let q = qs[0];
        assert(quant_writable(qs[0]));
        let one = quant_bytes(q);
        let size: int = if q.wide {
            128
        } else {
            64
        };
        assert(one.len() == 1 + size);
        assert forall|i: int| 0 <= i < one.len() implies #[trigger] one[i] == body[off + i] by {
            assert(tail[i] == body[off + i]);
        }
        assert(one[0] == body[off + 0]);
        lemma_nibbles(0, q.id as int);
        lemma_nibbles(1, q.id as int);
        let got = quant_values(body, off + 1, q.wide);
        assert(got =~= quantisers(q)) by {
            assert forall|k: int| 0 <= k < 64 implies got[k] == quantisers(q)[k] by {
                if q.wide {
                    let i = 2 * k;
                    assert(i / 2 == k && (i + 1) / 2 == k && i % 2 == 0 && (i + 1) % 2 == 1);
                    assert(one[1 + i] == body[off + (1 + i)]);
                    assert(one[1 + (i + 1)] == body[off + (1 + (i + 1))]);
                    assert(be16(body[off + 1 + 2 * k], body[off + 1 + 2 * k + 1]) == q.values[k]);
                } else {
                    assert(one[1 + k] == body[off + (1 + k)]);
                    assert(q.values[k] <= 255);
                }
            }
        }
        let rest = qs.skip(1);
        assert forall|k: int| 0 <= k < rest.len() implies quant_writable(#[trigger] rest[k]) by {
            assert(rest[k] == qs[k + 1]);
        }
        assert(body.skip(off + 1 + size) =~= quants_body(rest)) by {
            assert(tail.skip(1 + size) =~= quants_body(rest));
            assert(body.skip(off + 1 + size) =~= tail.skip(1 + size));
        }
        lemma_quants(
            body,
            off + 1 + size,
            rest,
            quant.update(q.id as int, Some(quantisers(q))),
        );
    }
}

proof fn lemma_tables(body: Seq<u8>, off: int, ts: Seq<TableModel>, tables: Seq<TableModel>)
    requires
        0 <= off <= body.len(),
        body.skip(off) == tables_body(ts),
        forall|k: int| 0 <= k < ts.len() ==> table_valid(#[trigger] ts[k]),
    ensures
        after_dht(body, off, tables) == Ok::<Seq<TableModel>, JpegHeaderError>(
            tables_said(tables, ts),
        ),
    decreases ts.len(),
{
    let tail = body.skip(off);
    assert(tail.len() == body.len() - off);
    if ts.len() > 0 {
        let t = ts[0];
        assert(table_valid(ts[0]));
        let one = table_bytes(t);
        let total = t.values.len();
        assert(one.len() == 17 + total);
        assert forall|i: int| 0 <= i < one.len() implies #[trigger] one[i] == body[off + i] by {
            assert(tail[i] == body[off + i]);
        }
        assert(one[0] == body[off + 0]);
        lemma_nibbles(0, t.table_id as int);
        lemma_nibbles(1, t.table_id as int);
        assert(body.subrange(off + 1, off + 17) =~= t.num_codes) by {
            assert forall|i: int| 0 <= i < 16 implies body[off + 1 + i]
                == #[trigger] t.num_codes[i] by {
                assert(one[1 + i] == body[off + (1 + i)]);
            }
        }
        assert(body.subrange(off + 17, off + 17 + total) =~= t.values) by {
            assert forall|i: int| 0 <= i < total implies body[off + 17 + i]
                == #[trigger] t.values[i] by {
                assert(one[17 + i] == body[off + (17 + i)]);
            }
        }
        let rest = ts.skip(1);
        assert forall|k: int| 0 <= k < rest.len() implies table_valid(#[trigger] rest[k]) by {
            assert(rest[k] == ts[k + 1]);
        }
        assert(body.skip(off + 17 + total) =~= tables_body(rest)) by {
            assert(tail.skip(17 + total as int) =~= tables_body(rest));
            assert(body.skip(off + 17 + total) =~= tail.skip(17 + total as int));
        }
        lemma_tables(body, off + 17 + total, rest, with_table(tables, t));
    }
}

/// The bytes of a piece have the effect of the piece.
#[verifier::rlimit(30)]
proof fn lemma_piece(data: Seq<u8>, p: nat, piece: Piece, f: FrameModel)
    requires
        data.len() <= isize::MAX,
        writable(piece),
        f.frame.len() == 4,
        p + piece_bytes(piece).len() <= data.len(),
        data.subrange(p as int, (p + piece_bytes(piece).len()) as int) == piece_bytes(piece),
    ensures
        headers_from(data, p, f) == headers_from(
            data,
            p + piece_bytes(piece).len(),
            said(f, piece),
        ),
{
    match piece {
        Piece::Frame { width, height, components } => {
            let body = frame_body(width, height, components);
            lemma_segment(data, p, MARKER_SOF0, body);
            assert(body.len() == 6 + 3 * components.len());
            assert(body[0] == 8 && body[5] == components.len());
            assert(body[1] == (height / 256) as u8 && body[2] == (height % 256) as u8);
            assert(body[3] == (width / 256) as u8 && body[4] == (width % 256) as u8);
            assert(be16(body[1], body[2]) == height);
            assert(be16(body[3], body[4]) == width);
            assert(f.frame =~= Seq::new(
                4,
                |j: int|
                    if j < 0 {
                        components[j]
                    } else {
                        f.frame[j]
                    },
            ));
            lemma_frame_records(width, height, components, 0, f.frame, f.frame);
            assert(after_sof0(body, f) == Ok::<FrameModel, JpegHeaderError>(said(f, piece)));
        },
        Piece::Quants(qs) => {
            let body = quants_body(qs);
            lemma_segment(data, p, MARKER_DQT, body);
            assert(body.skip(0) =~= body);
            lemma_quants(body, 0, qs, f.quant);
        },
        Piece::Tables(ts) => {
            let body = tables_body(ts);
            lemma_segment(data, p, MARKER_DHT, body);
            assert(body.skip(0) =~= body);
            lemma_tables(body, 0, ts, f.tables);
        },
        Piece::Restarts(n) => {
            let body = two_bytes(n as int);
            lemma_segment(data, p, MARKER_DRI, body);
            assert(be16(body[0], body[1]) == n);
        },
        Piece::Other { marker, body } => {
            lemma_segment(data, p, marker, body);
        },
    }
}

proof fn lemma_pieces(data: Seq<u8>, p: nat, pieces: Seq<Piece>, f: FrameModel)
    requires
        data.len() <= isize::MAX,
        forall|k: int| 0 <= k < pieces.len() ==> writable(#[trigger] pieces[k]),
        f.frame.len() == 4,
        p + pieces_bytes(pieces).len() <= data.len(),
        data.subrange(p as int, (p + pieces_bytes(pieces).len()) as int) == pieces_bytes(pieces),
    ensures
        headers_from(data, p, f) == headers_from(
            data,
            p + pieces_bytes(pieces).len(),
            all_said(f, pieces),
        ),
    decreases pieces.len(),
{
    if pieces.len() > 0 {
        let one = piece_bytes(pieces[0]);
        let rest = pieces.skip(1);
        let whole = pieces_bytes(pieces);
        let here = data.subrange(p as int, (p + whole.len()) as int);
        assert(data.subrange(p as int, (p + one.len()) as int) =~= one) by {
            assert(data.subrange(p as int, (p + one.len()) as int) =~= here.take(
                one.len() as int,
            ));
            assert(here.take(one.len() as int) =~= one);
        }
        assert(data.subrange((p + one.len()) as int, (p + whole.len()) as int) =~= pieces_bytes(
            rest,
        )) by {
            assert(data.subrange((p + one.len()) as int, (p + whole.len()) as int) =~= here.skip(
                one.len() as int,
            ));
            assert(here.skip(one.len() as int) =~= pieces_bytes(rest));
        }
        lemma_piece(data, p, pieces[0], f);
        assert forall|k: int| 0 <= k < rest.len() implies writable(#[trigger] rest[k]) by {
            assert(rest[k] == pieces[k + 1]);
        }
        lemma_pieces(data, p + one.len(), rest, said(f, pieces[0]));
    }
}

proof fn lemma_scan_records(
    components: Seq<JpegScanComponent>,
    k: int,
    slots: Seq<JpegScanComponent>,
    start: Seq<JpegScanComponent>,
)
    requires
        0 <= k <= components.len() <= 4,
        start.len() == 4,
        forall|j: int|
            0 <= j < components.len() ==> (#[trigger] components[j]).dc_table <= 1
                && components[j].ac_table <= 1,
        slots == Seq::new(
            4,
            |j: int|
                if j < k {
                    components[j]
                } else {
                    start[j]
                },
        ),
    ensures
        sos_records(scan_body(components), k, slots) == Ok::<
            Seq<JpegScanComponent>,
            JpegHeaderError,
        >(
            Seq::new(
                4,
                |j: int|
                    if j < components.len() {
                        components[j]
                    } else {
                        start[j]
                    },
            ),
        ),
    decreases components.len() - k,
{
    let body = scan_body(components);
    assert(body[0] == components.len());
    if k < components.len() {
        let c = components[k];
        let i = 2 * k;
        assert(i / 2 == k && (i + 1) / 2 == k && i % 2 == 0 && (i + 1) % 2 == 1);
        assert(body[1 + i] == c.id);
        assert(body[1 + (i + 1)] == nibbles(c.dc_table as int, c.ac_table as int));
        lemma_nibbles(c.dc_table as int, c.ac_table as int);
        assert(sos_record(body, k) == Ok::<JpegScanComponent, JpegHeaderError>(c));
        let next = slots.update(k, c);
        assert(next =~= Seq::new(
            4,
            |j: int|
                if j < k + 1 {
                    components[j]
                } else {
                    start[j]
                },
        ));
        lemma_scan_records(components, k + 1, next, start);
    }
}

proof fn lemma_scan_ends(tail: Seq<u8>, n: int, i: int)
    requires
        0 <= i <= n,
        n + 1 < tail.len(),
        tail[n] == 0xFF,
        tail[n + 1] == 0xD9,
        stuffed_scan(tail.take(n + 1)),
    ensures
        scan_end(tail, i) == n,
    decreases n - i,
{
    if i < n {
        let head = tail.take(n + 1);
        assert(head[i] == tail[i] && head[i + 1] == tail[i + 1]);
        lemma_scan_ends(tail, n, i + 1);
    }
}

proof fn lemma_all_said_slots(f: FrameModel, pieces: Seq<Piece>)
    requires
        f.frame.len() == 4,
    ensures
        all_said(f, pieces).frame.len() == 4,
    decreases pieces.len(),
{
    if pieces.len() > 0 {
        lemma_all_said_slots(said(f, pieces[0]), pieces.skip(1));
    }
}

/// A file that is written from its headers gives them back: the size, the
/// components, the tables, the restart interval and the scan's components are
/// those that the pieces say, and the scan is the stretch between its header
/// and the end of the image.
pub proof fn law_written_headers_come_back(
    pieces: Seq<Piece>,
    scan_components: Seq<JpegScanComponent>,
    scan: Seq<u8>,
    trailer: Seq<u8>,
)
    requires
        file(pieces, scan_components, scan, trailer).len() <= isize::MAX,
        forall|k: int| 0 <= k < pieces.len() ==> writable(#[trigger] pieces[k]),
        1 <= scan_components.len() <= 4,
        forall|k: int|
            0 <= k < scan_components.len() ==> (#[trigger] scan_components[k]).dc_table <= 1
                && scan_components[k].ac_table <= 1,
        stuffed_scan(scan),
        all_said(blank_frame(), pieces).width > 0,
        all_said(blank_frame(), pieces).height > 0,
        all_said(blank_frame(), pieces).components > 0,
    ensures
        parsed_headers(file(pieces, scan_components, scan, trailer)) matches Ok(h) && {
            &&& h.frame == all_said(blank_frame(), pieces)
            &&& h.scan.component_count == scan_components.len()
            &&& h.scan.components.take(scan_components.len() as int) == scan_components
            &&& h.scan_data == scan
            &&& file(pieces, scan_components, scan, trailer).skip(h.scan_data_offset) == scan
                + seq![0xFFu8, 0xD9u8] + trailer
        },
{
    let data = file(pieces, scan_components, scan, trailer);
    let head = pieces_bytes(pieces);
    let body = scan_body(scan_components);
    let sos = segment(MARKER_SOS, body);
    let at = 2 + head.len();
    let start = at + sos.len();
    let f = all_said(blank_frame(), pieces);
    assert(body.len() == 4 + 2 * scan_components.len());
    assert(sos.len() == 4 + body.len());
    assert(data[0] == 0xFF && data[1] == 0xD8);
    assert(data.subrange(2, at as int) =~= head);
    lemma_pieces(data, 2, pieces, blank_frame());
    lemma_all_said_slots(blank_frame(), pieces);
    assert(data.subrange(at as int, start as int) =~= sos);
    lemma_segment(data, at, MARKER_SOS, body);
    let slots = blank_scan().components;
    assert(slots =~= Seq::new(
        4,
        |j: int|
            if j < 0 {
                scan_components[j]
            } else {
                slots[j]
            },
    ));
    lemma_scan_records(scan_components, 0, slots, slots);
    assert(body[0] == scan_components.len());
    let tail = data.skip(start as int);
    let n = scan.len() as int;
    assert(tail =~= scan + seq![0xFFu8, 0xD9u8] + trailer);
    assert(stuffed_scan(tail.take(n + 1))) by {
        let t = tail.take(n + 1);
        assert forall|i: int|
            #![trigger t[i]]
            0 <= i && i + 1 < t.len() && t[i] == 0xFF implies t[i + 1] == 0 || 0xD0 <= t[i + 1]
            <= 0xD7 || t[i + 1] == 0xFF by {
            assert(t[i] == scan[i]);
        }
    }
    lemma_scan_ends(tail, n, 0);
    assert(tail.take(n) =~= scan);
    let r = parsed_headers(data);
    assert(r is Ok);
    assert(r->Ok_0.scan.components.take(scan_components.len() as int) =~= scan_components);
}

/// Pieces that say nothing of the size leave it alone, so that the size of a
/// file is that of its last frame header.
pub proof fn law_last_frame_header_stands(f: FrameModel, pieces: Seq<Piece>, k: int)
    requires
        0 <= k < pieces.len(),
        pieces[k] is Frame,
        forall|j: int| k < j < pieces.len() ==> !(#[trigger] pieces[j] is Frame),
    ensures
        all_said(f, pieces).width == pieces[k]->width,
        all_said(f, pieces).height == pieces[k]->height,
        all_said(f, pieces).components == pieces[k]->components.len() as u8,
    decreases pieces.len(),
{
    let rest = pieces.skip(1);
    let g = said(f, pieces[0]);
    if k > 0 {
        assert(rest[k - 1] == pieces[k]);
        assert forall|j: int| k - 1 < j < rest.len() implies !(#[trigger] rest[j] is Frame) by {
            assert(rest[j] == pieces[j + 1]);
        }
        law_last_frame_header_stands(g, rest, k - 1);
    } else {
        assert forall|j: int| 0 <= j < rest.len() implies !(#[trigger] rest[j] is Frame) by {
            assert(rest[j] == pieces[j + 1]);
        }
        lemma_other_pieces_keep_the_size(g, rest);
    }
}

proof fn lemma_other_pieces_keep_the_size(f: FrameModel, pieces: Seq<Piece>)
    requires
        forall|j: int| 0 <= j < pieces.len() ==> !(#[trigger] pieces[j] is Frame),
    ensures
        all_said(f, pieces).width == f.width,
        all_said(f, pieces).height == f.height,
        all_said(f, pieces).components == f.components,
        all_said(f, pieces).frame == f.frame,
    decreases pieces.len(),
{
    if pieces.len() > 0 {
        let rest = pieces.skip(1);
        assert(!(pieces[0] is Frame));
        assert forall|j: int| 0 <= j < rest.len() implies !(#[trigger] rest[j] is Frame) by {
            assert(rest[j] == pieces[j + 1]);
        }
        lemma_other_pieces_keep_the_size(said(f, pieces[0]), rest);
    }
}

/// Only baseline files are read: a frame header of another process is
/// refused, whatever came before it.
pub proof fn law_other_processes_are_refused(pieces: Seq<Piece>, marker: u8, rest: Seq<u8>)
    requires
        0xC1 <= marker <= 0xCF,
        marker != 0xC4,
        marker != 0xC8,
        marker != 0xCC,
        forall|k: int| 0 <= k < pieces.len() ==> writable(#[trigger] pieces[k]),
        4 + pieces_bytes(pieces).len() + rest.len() <= isize::MAX,
    ensures
        parsed_headers(
            seq![0xFFu8, 0xD8u8] + pieces_bytes(pieces) + seq![0xFFu8, marker] + rest,
        ) == Err::<HeadersModel, JpegHeaderError>(JpegHeaderError::NotBaseline),
{
    let head = pieces_bytes(pieces);
    let data = seq![0xFFu8, 0xD8u8] + head + seq![0xFFu8, marker] + rest;
    let at = 2 + head.len();
    assert(data[0] == 0xFF && data[1] == 0xD8);
    assert(data.subrange(2, at as int) =~= head);
    lemma_pieces(data, 2, pieces, blank_frame());
    assert(data[at as int] == 0xFF && data[at as int + 1] == marker);
}

/// A file without a frame header, or with an empty one, has no image.
pub proof fn law_files_without_a_frame_are_refused(
    pieces: Seq<Piece>,
    scan_components: Seq<JpegScanComponent>,
    scan: Seq<u8>,
    trailer: Seq<u8>,
)
    requires
        file(pieces, scan_components, scan, trailer).len() <= isize::MAX,
        forall|k: int| 0 <= k < pieces.len() ==> writable(#[trigger] pieces[k]),
        1 <= scan_components.len() <= 4,
        forall|k: int|
            0 <= k < scan_components.len() ==> (#[trigger] scan_components[k]).dc_table <= 1
                && scan_components[k].ac_table <= 1,
        all_said(blank_frame(), pieces).width == 0 || all_said(blank_frame(), pieces).height == 0
            || all_said(blank_frame(), pieces).components == 0,
    ensures
        parsed_headers(file(pieces, scan_components, scan, trailer)) == Err::<
            HeadersModel,
            JpegHeaderError,
        >(JpegHeaderError::MissingSof0),
{
    let data = file(pieces, scan_components, scan, trailer);
    let head = pieces_bytes(pieces);
    let body = scan_body(scan_components);
    let sos = segment(MARKER_SOS, body);
    let at = 2 + head.len();
    let start = at + sos.len();
    assert(body.len() == 4 + 2 * scan_components.len());
    assert(data[0] == 0xFF && data[1] == 0xD8);
    assert(data.subrange(2, at as int) =~= head);
    lemma_pieces(data, 2, pieces, blank_frame());
    assert(data.subrange(at as int, start as int) =~= sos);
    lemma_segment(data, at, MARKER_SOS, body);
    let slots = blank_scan().components;
    assert(slots =~= Seq::new(
        4,
        |j: int|
            if j < 0 {
                scan_components[j]
            } else {
                slots[j]
            },
    ));
    lemma_scan_records(scan_components, 0, slots, slots);
    assert(body[0] == scan_components.len());
}

/// What does not begin with a start-of-image marker is no file.
pub proof fn law_files_begin_with_their_marker(data: Seq<u8>)
    ensures
        parsed_headers(data) is Ok ==> data.len() >= 2 && data[0] == 0xFF && data[1] == 0xD8,
        data.len() >= 2 && !(data[0] == 0xFF && data[1] == 0xD8) ==> parsed_headers(data) == Err::<
            HeadersModel,
            JpegHeaderError,
        >(JpegHeaderError::MissingSoi),
        data.len() < 2 ==> parsed_headers(data) == Err::<HeadersModel, JpegHeaderError>(
            JpegHeaderError::Truncated,
        ),
{
}

} // verus!
