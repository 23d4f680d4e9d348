//! JPEG byte-unstuffing.
//!
//! The entropy-coded segment uses `0xFF` as a marker prefix.  Any literal
//! `0xFF` byte produced by the Huffman encoder is therefore followed by
//! `0x00`, so that a decoder can tell data from markers.  Before bit-walking
//! the stream these inserted zero bytes are stripped.
//!
//! Restart markers (`0xFF 0xD0`–`0xFF 0xD7`) are stripped too but not
//! discarded: they reset the DC predictor of every component, so each is
//! recorded as an [`RstPosition`] at the offset of the byte that follows it.

use crate::text::{decimal, hex2, push_decimal, push_hex2};
use vstd::prelude::*;
use vstd::string::*;

verus! {

/// One restart marker stripped from the entropy stream.
#[derive(Debug, Clone, Copy, PartialEq, Eq)]
pub struct RstPosition {
    /// Byte offset in the unstuffed output where the next entropy segment
    /// begins, immediately after the stripped `0xFF 0xDn` pair.
    pub byte_offset_in_dst: usize,
    /// Marker index 0..=7 (`0xD0` → 0, …, `0xD7` → 7).
    pub marker_index: u8,
}

/// Errors returned by [`unstuff_into`].
#[derive(Debug, Clone, Copy, PartialEq, Eq)]
pub enum UnstuffError {
    /// A `0xFF` followed by neither `0x00`, a fill byte nor a restart marker.
    UnexpectedMarker {
        /// The byte after the `0xFF` prefix.
        following: u8,
        /// Byte offset in the input where the `0xFF` was seen.
        offset: usize,
    },
    /// Input ended with a dangling `0xFF` and no follow-up byte.
    TrailingFf,
}

impl UnstuffError {
    pub open spec fn text(self) -> Seq<char> {
        match self {
            UnstuffError::UnexpectedMarker { following, offset } => {
                "unexpected JPEG marker 0xFF 0x"@ + hex2(following) + " at offset "@ + decimal(
                    offset as nat,
                ) + " during unstuffing"@
            },
            UnstuffError::TrailingFf => "JPEG entropy segment ends with dangling 0xFF"@,
        }
    }

    /// The error as a sentence.
    pub fn message(&self) -> (s: String)
        ensures
            s@ == self.text(),
    {
        match self {
            UnstuffError::UnexpectedMarker { following, offset } => {
                let mut s = String::from_str("unexpected JPEG marker 0xFF 0x");
                push_hex2(&mut s, *following);
                s.append(" at offset ");
                push_decimal(&mut s, *offset as u64);
                s.append(" during unstuffing");
                s
            },
            UnstuffError::TrailingFf => {
                String::from_str("JPEG entropy segment ends with dangling 0xFF")
            },
        }
    }
}

/// What unstuffing yields: the entropy bytes and the restart markers.
#[verifier::ext_equal]
pub struct Unstuffed {
    pub bytes: Seq<u8>,
    pub rsts: Seq<RstPosition>,
}

/// The rest of `src` from `i` on, unstuffed behind what `done` already holds.
pub open spec fn unstuff_from(src: Seq<u8>, i: int, done: Unstuffed) -> Result<
    Unstuffed,
    UnstuffError,
>
    decreases src.len() - i,
{
    if i >= src.len() {
        Ok(done)
    } else if src[i] != 0xFF {
        unstuff_from(src, i + 1, Unstuffed { bytes: done.bytes.push(src[i]), ..done })
    } else if i + 1 >= src.len() {
        Err(UnstuffError::TrailingFf)
    } else if src[i + 1] == 0x00 {
        unstuff_from(src, i + 2, Unstuffed { bytes: done.bytes.push(0xFF), ..done })
    } else if src[i + 1] == 0xFF {
        unstuff_from(src, i + 1, done)
    } else if 0xD0 <= src[i + 1] <= 0xD7 {
        let mark = RstPosition {
            byte_offset_in_dst: done.bytes.len() as usize,
            marker_index: (src[i + 1] - 0xD0) as u8,
        };
        unstuff_from(src, i + 2, Unstuffed { rsts: done.rsts.push(mark), ..done })
    } else {
        Err(UnstuffError::UnexpectedMarker { following: src[i + 1], offset: i as usize })
    }
}

/// `src` with its stuffing removed and its restart markers recorded.
pub open spec fn unstuff(src: Seq<u8>) -> Result<Unstuffed, UnstuffError> {
    unstuff_from(src, 0, Unstuffed { bytes: Seq::empty(), rsts: Seq::empty() })
}

/// Strip JPEG byte-stuffing (`0xFF 0x00 → 0xFF`) from `src` into `dst`,
/// recording every RST marker encountered into `rst_positions`.
///
/// Both buffers are cleared on entry.  Fill bytes (`0xFF 0xFF`) are consumed
/// without a trace.  On an error the buffers hold nothing of use.
pub fn unstuff_into(
    src: &[u8],
    dst: &mut Vec<u8>,
    rst_positions: &mut Vec<RstPosition>,
) -> (outcome: Result<(), UnstuffError>)
    ensures
        match unstuff(src@) {
            Ok(clean) => outcome is Ok && final(dst)@ == clean.bytes && final(rst_positions)@
                == clean.rsts,
            Err(e) => outcome == Err::<(), UnstuffError>(e),
        },
{
    dst.clear();
    dst.reserve(src.len());
    rst_positions.clear();
    let mut i: usize = 0;
    while i < src.len()
        invariant
            i <= src@.len(),
            dst@.len() <= i,
            unstuff(src@) == unstuff_from(
                src@,
                i as int,
                (Unstuffed { bytes: dst@, rsts: rst_positions@ }),
            ),
        decreases src@.len() - i,
    {
        let byte: u8 = src[i];
        if byte != 0xFF {
            dst.push(byte);
            i = i + 1;
            continue ;
        }
        if src.len() - i < 2 {
            return Err(UnstuffError::TrailingFf);
        }
        let next: u8 = src[i + 1];
        if next == 0x00 {
            dst.push(0xFF);
            i = i + 2;
        } else if next == 0xFF {
            i = i + 1;
        } else if 0xD0 <= next && next <= 0xD7 {
            rst_positions.push(
                RstPosition { byte_offset_in_dst: dst.len(), marker_index: next - 0xD0 },
            );
            i = i + 2;
        } else {
            return Err(UnstuffError::UnexpectedMarker { following: next, offset: i });
        }
    }
    Ok(())
}

/// The stuffing an encoder applies: a zero byte behind every `0xFF`.
pub open spec fn stuffed(data: Seq<u8>) -> Seq<u8>
    decreases data.len(),
{
    if data.len() == 0 {
        Seq::empty()
    } else if data[0] == 0xFF {
        seq![0xFFu8, 0x00u8] + stuffed(data.skip(1))
    } else {
        seq![data[0]] + stuffed(data.skip(1))
    }
}

/// A stuffed run in the middle of a stream is read back byte for byte.
proof fn lemma_unstuff_run(src: Seq<u8>, i: int, data: Seq<u8>, done: Unstuffed)
    requires
        0 <= i,
        i + stuffed(data).len() <= src.len(),
        src.subrange(i, i + stuffed(data).len()) == stuffed(data),
    ensures
        unstuff_from(src, i, done) == unstuff_from(
            src,
            i + stuffed(data).len(),
            (Unstuffed { bytes: done.bytes + data, ..done }),
        ),
    decreases data.len(),
{
    if data.len() == 0 {
        assert(done.bytes + data =~= done.bytes);
    } else {
        let rest = data.skip(1);
        let whole = src.subrange(i, i + stuffed(data).len());
        let step: int = if data[0] == 0xFF {
            2
        } else {
            1
        };
        assert(whole[0] == src[i]);
        assert(whole[0] == data[0]);
        if data[0] == 0xFF {
            assert(whole[1] == src[i + 1]);
            assert(whole[1] == 0x00);
        }
        assert(src.subrange(i + step, i + step + stuffed(rest).len()) =~= whole.skip(step));
        assert(whole.skip(step) =~= stuffed(rest));
        let next = Unstuffed { bytes: done.bytes.push(data[0]), ..done };
        lemma_unstuff_run(src, i + step, rest, next);
        assert(next.bytes + rest =~= done.bytes + data);
    }
}

/// Unstuffing undoes stuffing: whatever bytes an encoder stuffs come back
/// unchanged, without a restart marker.
pub proof fn law_unstuff_inverts_stuffing(data: Seq<u8>)
    ensures
        unstuff(stuffed(data)) == Ok::<Unstuffed, UnstuffError>(
            Unstuffed { bytes: data, rsts: Seq::empty() },
        ),
{
    let src = stuffed(data);
    let empty = Unstuffed { bytes: Seq::empty(), rsts: Seq::empty() };
    assert(src.subrange(0, src.len() as int) =~= src);
    lemma_unstuff_run(src, 0, data, empty);
    assert(empty.bytes + data =~= data);
}

/// Stuffed segments with a restart marker between neighbours, numbered from
/// `first` modulo 8.
pub open spec fn stuffed_segments(segments: Seq<Seq<u8>>, first: nat) -> Seq<u8>
    decreases segments.len(),
{
    if segments.len() == 0 {
        Seq::empty()
    } else if segments.len() == 1 {
        stuffed(segments[0])
    } else {
        stuffed(segments[0]) + seq![0xFFu8, (0xD0 + first % 8) as u8] + stuffed_segments(
            segments.skip(1),
            first + 1,
        )
    }
}

/// The segments' bytes one after the other, with a mark where each but the
/// first begins, behind what `done` already holds.
pub open spec fn joined_segments(
    segments: Seq<Seq<u8>>,
    first: nat,
    done: Unstuffed,
) -> Unstuffed
    decreases segments.len(),
{
    if segments.len() == 0 {
        done
    } else {
        let bytes = done.bytes + segments[0];
        if segments.len() == 1 {
            Unstuffed { bytes, ..done }
        } else {
            let mark = RstPosition {
                byte_offset_in_dst: bytes.len() as usize,
                marker_index: (first % 8) as u8,
            };
            joined_segments(
                segments.skip(1),
                first + 1,
                Unstuffed { bytes, rsts: done.rsts.push(mark) },
            )
        }
    }
}

proof fn lemma_unstuff_segments(
    src: Seq<u8>,
    i: int,
    segments: Seq<Seq<u8>>,
    first: nat,
    done: Unstuffed,
)
    requires
        0 <= i,
        i + stuffed_segments(segments, first).len() == src.len(),
        src.skip(i) == stuffed_segments(segments, first),
    ensures
        unstuff_from(src, i, done) == Ok::<Unstuffed, UnstuffError>(
            joined_segments(segments, first, done),
        ),
    decreases segments.len(),
{
    if segments.len() > 0 {
        let head = stuffed(segments[0]);
        let tail = src.skip(i);
        assert(src.subrange(i, i + head.len()) =~= tail.take(head.len() as int));
        assert(tail.take(head.len() as int) =~= head);
        lemma_unstuff_run(src, i, segments[0], done);
        if segments.len() > 1 {
            let j = i + head.len();
            assert(src[j] == tail[head.len() as int]);
            assert(src[j + 1] == tail[head.len() as int + 1]);
            let bytes = done.bytes + segments[0];
            let mark = RstPosition {
                byte_offset_in_dst: bytes.len() as usize,
                marker_index: (first % 8) as u8,
            };
            let next = Unstuffed { bytes, rsts: done.rsts.push(mark) };
            assert(src.skip(j + 2) =~= tail.skip(head.len() as int + 2));
            assert(tail.skip(head.len() as int + 2) =~= stuffed_segments(
                segments.skip(1),
                first + 1,
            ));
            lemma_unstuff_segments(src, j + 2, segments.skip(1), first + 1, next);
        }
    }
}

/// A scan written as stuffed segments between restart markers comes back as
/// the segments' bytes, with one mark at each segment boundary carrying the
/// marker's number.
pub proof fn law_unstuff_recovers_segments(segments: Seq<Seq<u8>>)
    ensures
        unstuff(stuffed_segments(segments, 0)) == Ok::<Unstuffed, UnstuffError>(
            joined_segments(
                segments,
                0,
                (Unstuffed { bytes: Seq::empty(), rsts: Seq::empty() }),
            ),
        ),
{
    let src = stuffed_segments(segments, 0);
    assert(src.skip(0) =~= src);
    lemma_unstuff_segments(
        src,
        0,
        segments,
        0,
        Unstuffed { bytes: Seq::empty(), rsts: Seq::empty() },
    );
}

/// Marks stand inside the bytes, in order, with a marker number below 8.
pub open spec fn marks_ordered(clean: Unstuffed) -> bool {
    &&& forall|k: int|
        0 <= k < clean.rsts.len() ==> (#[trigger] clean.rsts[k]).byte_offset_in_dst
            <= clean.bytes.len() && clean.rsts[k].marker_index <= 7
    &&& forall|j: int, k: int|
        0 <= j <= k < clean.rsts.len() ==> (#[trigger] clean.rsts[j]).byte_offset_in_dst <= (
        #[trigger] clean.rsts[k]).byte_offset_in_dst
}

proof fn lemma_marks_ordered(src: Seq<u8>, i: int, done: Unstuffed)
    requires
        0 <= i,
        src.len() <= usize::MAX,
        done.bytes.len() <= i,
        marks_ordered(done),
    ensures
        match unstuff_from(src, i, done) {
            Ok(clean) => marks_ordered(clean) && clean.bytes.len() <= if i <= src.len() {
                src.len() as int
            } else {
                i
            },
            Err(_) => true,
        },
    decreases src.len() - i,
{
    if i < src.len() {
        if src[i] != 0xFF {
            lemma_marks_ordered(
                src,
                i + 1,
                Unstuffed { bytes: done.bytes.push(src[i]), ..done },
            );
        } else if i + 1 < src.len() {
            if src[i + 1] == 0x00 {
                lemma_marks_ordered(
                    src,
                    i + 2,
                    Unstuffed { bytes: done.bytes.push(0xFF), ..done },
                );
            } else if src[i + 1] == 0xFF {
                lemma_marks_ordered(src, i + 1, done);
            } else if 0xD0 <= src[i + 1] <= 0xD7 {
                let mark = RstPosition {
                    byte_offset_in_dst: done.bytes.len() as usize,
                    marker_index: (src[i + 1] - 0xD0) as u8,
                };
                lemma_marks_ordered(
                    src,
                    i + 2,
                    Unstuffed { rsts: done.rsts.push(mark), ..done },
                );
            }
        }
    }
}

/// Unstuffing never lengthens the data, and the recorded marks stand in
/// order inside it.
pub proof fn law_unstuffed_marks_are_ordered(src: Seq<u8>)
    requires
        src.len() <= usize::MAX,
    ensures
        unstuff(src) matches Ok(clean) ==> marks_ordered(clean) && clean.bytes.len() <= src.len(),
{
    lemma_marks_ordered(src, 0, Unstuffed { bytes: Seq::empty(), rsts: Seq::empty() });
}

/// A marker inside the data, other than a restart marker, is refused where it
/// stands, and so is a last byte of ones that nothing follows.
pub proof fn law_other_markers_are_refused(data: Seq<u8>, following: u8, rest: Seq<u8>)
    requires
        following != 0x00,
        following != 0xFF,
        !(0xD0 <= following <= 0xD7),
        stuffed(data).len() <= usize::MAX,
    ensures
        unstuff(stuffed(data) + seq![0xFFu8, following] + rest) == Err::<Unstuffed, UnstuffError>(
            UnstuffError::UnexpectedMarker { following, offset: stuffed(data).len() as usize },
        ),
        unstuff(stuffed(data) + seq![0xFFu8]) == Err::<Unstuffed, UnstuffError>(
            UnstuffError::TrailingFf,
        ),
{
    let n = stuffed(data).len() as int;
    let empty = Unstuffed { bytes: Seq::empty(), rsts: Seq::empty() };
    let a = stuffed(data) + seq![0xFFu8, following] + rest;
    assert(a.subrange(0, n) =~= stuffed(data));
    lemma_unstuff_run(a, 0, data, empty);
    assert(a[n] == 0xFF && a[n + 1] == following);
    let b = stuffed(data) + seq![0xFFu8];
    assert(b.subrange(0, n) =~= stuffed(data));
    lemma_unstuff_run(b, 0, data, empty);
    assert(b[n] == 0xFF);
}

} // verus!
