//! Segments that the parser steps over.

use super::header_spec::{
    after_dht, after_dqt, after_sof0, be16, blank_frame, headers_from, other_frame_marker,
    parsed_headers, segment_body, FrameModel, HeadersModel,
};
use super::headers::{
    JpegHeaderError, MARKER_DHT, MARKER_DQT, MARKER_DRI, MARKER_SOF0, MARKER_SOS,
};
use vstd::prelude::*;

verus! {

/// An APPn or COM segment.
pub open spec fn skipped_segment(marker: u8, body: Seq<u8>) -> Seq<u8> {
    let len = body.len() + 2;
    seq![0xFFu8, marker, (len / 256) as u8, (len % 256) as u8] + body
}

/// Whether a parser at `pos` comes to `at`: only restart markers and whole
/// segments other than a scan header lie between.
pub open spec fn comes_to(data: Seq<u8>, pos: nat, at: nat) -> bool
    decreases data.len() - pos,
{
    if pos == at {
        true
    } else if data.len() - pos < 2 || data[pos as int] != 0xFF {
        false
    } else {
        let m = data[pos as int + 1];
        if 0xD0 <= m <= 0xD8 {
            comes_to(data, pos + 2, at)
        } else if m == MARKER_SOF0 || m == MARKER_DQT || m == MARKER_DHT || m == MARKER_DRI || 0xE0
            <= m <= 0xFE {
            match segment_body(data, pos as int + 2, m) {
                Ok(body) => comes_to(data, pos + 4 + body.len(), at),
                Err(_) => false,
            }
        } else {
            false
        }
    }
}

/// Two results that differ at most in where the scan starts, by `shift`.
pub open spec fn same_headers(
    a: Result<HeadersModel, JpegHeaderError>,
    b: Result<HeadersModel, JpegHeaderError>,
    shift: int,
) -> bool {
    match a {
        Err(e) => b matches Err(f) && f == e,
        Ok(h) => b matches Ok(g) && g == (HeadersModel {
            scan_data_offset: h.scan_data_offset + shift,
            ..h
        }),
    }
}

proof fn lemma_comes_forward(data: Seq<u8>, pos: nat, at: nat)
    requires
        comes_to(data, pos, at),
    ensures
        pos <= at,
    decreases data.len() - pos,
{
    if pos != at {
        let m = data[pos as int + 1];
        if 0xD0 <= m <= 0xD8 {
            lemma_comes_forward(data, pos + 2, at);
        } else {
            let body = segment_body(data, pos as int + 2, m)->Ok_0;
            lemma_comes_forward(data, pos + 4 + body.len(), at);
        }
    }
}

/// A segment depends on the bytes from its length field on.
proof fn lemma_same_segment(a: Seq<u8>, p: int, b: Seq<u8>, q: int, m: u8)
    requires
        a.len() <= isize::MAX,
        b.len() <= isize::MAX,
        0 <= p <= a.len(),
        0 <= q <= b.len(),
        a.skip(p) == b.skip(q),
    ensures
        segment_body(a, p, m) == segment_body(b, q, m),
        segment_body(a, p, m) matches Ok(body) ==> {
            &&& p + 2 + body.len() <= a.len()
            &&& q + 2 + body.len() <= b.len()
            &&& a.skip(p + 2 + body.len()) == b.skip(q + 2 + body.len())
        },
{
    let x = a.skip(p);
    let y = b.skip(q);
    assert(x.len() == a.len() - p && y.len() == b.len() - q);
    if x.len() >= 2 {
        assert(x[0] == a[p] && x[1] == a[p + 1] && y[0] == b[q] && y[1] == b[q + 1]);
        let len = be16(a[p], a[p + 1]) as int;
        if 2 <= len <= x.len() {
            assert(a.subrange(p + 2, p + len) =~= x.subrange(2, len));
            assert(b.subrange(q + 2, q + len) =~= y.subrange(2, len));
            assert(a.skip(p + len) =~= x.skip(len));
            assert(b.skip(q + len) =~= y.skip(len));
        }
    }
}

/// What is parsed from a position on depends on the bytes from there on.
proof fn lemma_shifted(a: Seq<u8>, p: nat, b: Seq<u8>, q: nat, f: FrameModel)
    requires
        a.len() <= isize::MAX,
        b.len() <= isize::MAX,
        p <= a.len(),
        q <= b.len(),
        a.skip(p as int) == b.skip(q as int),
    ensures
        same_headers(headers_from(a, p, f), headers_from(b, q, f), q - p),
    decreases a.len() - p, 1int,
{
    let x = a.skip(p as int);
    let y = b.skip(q as int);
    assert(x.len() == a.len() - p && y.len() == b.len() - q);
    if x.len() >= 2 {
        assert(x[0] == a[p as int] && x[1] == a[p as int + 1]);
        assert(y[0] == b[q as int] && y[1] == b[q as int + 1]);
        assert(a.skip(p as int + 2) =~= x.skip(2));
        assert(b.skip(q as int + 2) =~= y.skip(2));
        let m = a[p as int + 1];
        if a[p as int] == 0xFF {
            if 0xD0 <= m <= 0xD8 {
                lemma_shifted(a, p + 2, b, q + 2, f);
            } else {
                lemma_same_segment(a, p as int + 2, b, q as int + 2, m);
                if let Ok(body) = segment_body(a, p as int + 2, m) {
                    lemma_shifted_segment(a, p, b, q, f, m, body);
                }
            }
        }
    }
}

proof fn lemma_shifted_segment(
    a: Seq<u8>,
    p: nat,
    b: Seq<u8>,
    q: nat,
    f: FrameModel,
    m: u8,
    body: Seq<u8>,
)
    requires
        a.len() <= isize::MAX,
        b.len() <= isize::MAX,
        p + 4 + body.len() <= a.len(),
        q + 4 + body.len() <= b.len(),
        a[p as int] == 0xFF && a[p as int + 1] == m,
        b[q as int] == 0xFF && b[q as int + 1] == m,
        !(0xD0 <= m <= 0xD8),
        segment_body(a, p as int + 2, m) == Ok::<Seq<u8>, JpegHeaderError>(body),
        segment_body(b, q as int + 2, m) == Ok::<Seq<u8>, JpegHeaderError>(body),
        a.skip(p as int + 4 + body.len()) == b.skip(q as int + 4 + body.len()),
    ensures
        same_headers(headers_from(a, p, f), headers_from(b, q, f), q - p),
    decreases a.len() - p, 0int,
{
    let next = p + 4 + body.len();
    let next_b = q + 4 + body.len();
    if other_frame_marker(m) {
    } else if m == MARKER_SOF0 {
        if let Ok(g) = after_sof0(body, f) {
            lemma_shifted(a, next, b, next_b, g);
        }
    } else if m == MARKER_DQT {
        if let Ok(quant) = after_dqt(body, 0, f.quant) {
            lemma_shifted(a, next, b, next_b, FrameModel { quant, ..f });
        }
    } else if m == MARKER_DHT {
        if let Ok(tables) = after_dht(body, 0, f.tables) {
            lemma_shifted(a, next, b, next_b, FrameModel { tables, ..f });
        }
    } else if m == MARKER_DRI {
        let g = FrameModel { restart_interval: be16(body[0], body[1]), ..f };
        lemma_shifted(a, next, b, next_b, g);
    } else if m != MARKER_SOS {
        lemma_shifted(a, next, b, next_b, f);
    }
}

/// A skipped segment is stepped over.
proof fn lemma_stepped_over(data: Seq<u8>, p: nat, marker: u8, body: Seq<u8>, f: FrameModel)
    requires
        data.len() <= isize::MAX,
        0xE0 <= marker <= 0xFE,
        body.len() + 2 <= 65535,
        p + 4 + body.len() <= data.len(),
        data.subrange(p as int, p as int + 4 + body.len()) == skipped_segment(marker, body),
    ensures
        headers_from(data, p, f) == headers_from(data, p + 4 + body.len(), f),
{
    let seg = skipped_segment(marker, body);
    let len = body.len() + 2;
    assert forall|i: int| 0 <= i < seg.len() implies #[trigger] seg[i] == data[p as int + i] by {
        assert(data.subrange(p as int, p as int + 4 + body.len())[i] == data[p as int + i]);
    }
    assert(seg[0] == data[p as int + 0] && seg[1] == data[p as int + 1]);
    assert(seg[2] == data[p as int + 2] && seg[3] == data[p as int + 3]);
    assert(be16(data[p as int + 2], data[p as int + 3]) == len);
    assert(segment_body(data, p as int + 2, marker) is Ok);
    assert(segment_body(data, p as int + 2, marker)->Ok_0.len() == body.len());
}

/// Two files that agree up to `p` are read alike up to there.
proof fn lemma_same_start(
    a: Seq<u8>,
    b: Seq<u8>,
    pos: nat,
    p: nat,
    f: FrameModel,
    shift: int,
)
    requires
        a.len() <= isize::MAX,
        b.len() <= isize::MAX,
        p <= a.len(),
        p <= b.len(),
        a.take(p as int) == b.take(p as int),
        comes_to(a, pos, p),
        forall|g: FrameModel|
            same_headers(#[trigger] headers_from(a, p, g), headers_from(b, p, g), shift),
    ensures
        same_headers(headers_from(a, pos, f), headers_from(b, pos, f), shift),
    decreases p - pos,
{
    lemma_comes_forward(a, pos, p);
    if pos != p {
        let m = a[pos as int + 1];
        let next = if 0xD0 <= m <= 0xD8 {
            pos + 2
        } else {
            pos + 4 + segment_body(a, pos as int + 2, m)->Ok_0.len()
        };
        lemma_comes_forward(a, next, p);
        assert forall|i: int| 0 <= i < p implies #[trigger] a[i] == b[i] by {
            assert(a.take(p as int)[i] == a[i]);
            assert(b.take(p as int)[i] == b[i]);
        }
        assert(a[pos as int] == b[pos as int] && a[pos as int + 1] == b[pos as int + 1]);
        if 0xD0 <= m <= 0xD8 {
            lemma_same_start(a, b, next, p, f, shift);
        } else {
            let body = segment_body(a, pos as int + 2, m)->Ok_0;
            assert(a[pos as int + 2] == b[pos as int + 2] && a[pos as int + 3] == b[pos as int
                + 3]);
            assert(segment_body(b, pos as int + 2, m) == Ok::<Seq<u8>, JpegHeaderError>(body)) by {
                assert(a.subrange(pos as int + 4, next as int) =~= b.subrange(
                    pos as int + 4,
                    next as int,
                ));
            }
            if m == MARKER_SOF0 {
                if let Ok(g) = after_sof0(body, f) {
                    lemma_same_start(a, b, next, p, g, shift);
                }
            } else if m == MARKER_DQT {
                if let Ok(quant) = after_dqt(body, 0, f.quant) {
                    lemma_same_start(a, b, next, p, FrameModel { quant, ..f }, shift);
                }
            } else if m == MARKER_DHT {
                if let Ok(tables) = after_dht(body, 0, f.tables) {
                    lemma_same_start(a, b, next, p, FrameModel { tables, ..f }, shift);
                }
            } else if m == MARKER_DRI {
                let g = FrameModel { restart_interval: be16(body[0], body[1]), ..f };
                lemma_same_start(a, b, next, p, g, shift);
            } else {
                lemma_same_start(a, b, next, p, f, shift);
            }
        }
    }
}

/// An APPn or COM segment that is put between the segments before the scan
/// changes nothing but where the scan starts: the same headers, or the same
/// error.
pub proof fn law_skipped_segments_change_nothing(
    pre: Seq<u8>,
    rest: Seq<u8>,
    marker: u8,
    body: Seq<u8>,
)
    requires
        pre.len() >= 2,
        0xE0 <= marker <= 0xFE,
        body.len() + 2 <= 65535,
        pre.len() + 4 + body.len() + rest.len() <= isize::MAX,
        comes_to(pre + rest, 2, pre.len()),
    ensures
        same_headers(
            parsed_headers(pre + rest),
            parsed_headers(pre + skipped_segment(marker, body) + rest),
            4 + body.len() as int,
        ),
{
    let a = pre + rest;
    let b = pre + skipped_segment(marker, body) + rest;
    let p = pre.len();
    let q = p + 4 + body.len();
    assert(a[0] == b[0] && a[1] == b[1]);
    assert(a.take(p as int) =~= b.take(p as int));
    assert(a.skip(p as int) =~= rest);
    assert(b.skip(q as int) =~= rest);
    assert(b.subrange(p as int, q as int) =~= skipped_segment(marker, body));
    assert forall|g: FrameModel|
        same_headers(
            #[trigger] headers_from(a, p, g),
            headers_from(b, p, g),
            4 + body.len() as int,
        ) by {
        lemma_stepped_over(b, p, marker, body, g);
        lemma_shifted(a, p, b, q, g);
    }
    lemma_same_start(a, b, 2, p, blank_frame(), 4 + body.len() as int);
}

} // verus!
