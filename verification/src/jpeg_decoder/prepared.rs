//! The host-side pre-pass: from JPEG bytes to everything the decoder's
//! phases need.

use super::bitstream::{pack_be_words, packed_words, PackedBitstream};
use super::error::JpegGpuError;
use crate::jpeg::canonical::{
    books_view, books_wf, built_table, CanonicalCodebook, CanonicalCodebookError, CanonicalEntry,
};
use crate::jpeg::dc_chain::{
    component_index, dc_chain, first_unknown, resolve_dc_chain, Codebooks, DcChainError, DcValues,
};
use crate::jpeg::header_laws::{
    component_valid, headers_valid, law_parsed_headers_are_valid, table_valid,
};
use crate::jpeg::header_spec::{
    parsed_headers, quant_view, tables_view, HeadersModel, TableModel,
};
use crate::jpeg::headers::{
    DhtClass, JpegFrameComponent, JpegHeaderError, JpegHeaders, JpegHuffmanTable, JpegQuantTable,
};
use crate::jpeg::unstuff::{unstuff, unstuff_into, RstPosition, UnstuffError};
use vstd::prelude::*;
use vstd::string::*;

verus! {

/// A JPEG made ready for the decoder.  Components are in scan order.
#[derive(Debug, Clone)]
pub struct JpegPreparedInput {
    /// Image width in pixels.
    pub width: u16,
    /// Image height in pixels.
    pub height: u16,
    /// The scan's components, in scan order.
    pub components: Vec<JpegFrameComponent>,
    /// Quantisation tables by slot.
    pub quant_tables: [Option<JpegQuantTable>; 4],
    /// DC table selector of each scan component.
    pub dc_selectors: Vec<u8>,
    /// AC table selector of each scan component.
    pub ac_selectors: Vec<u8>,
    /// DC codebooks by selector.
    pub dc_codebooks: Codebooks,
    /// AC codebooks by selector.
    pub ac_codebooks: Codebooks,
    /// Absolute DC values of each scan component.
    pub dc_values: DcValues,
    /// The unstuffed entropy-coded segment.
    pub bitstream: PackedBitstream,
    /// Restart interval in MCUs (0 = none).
    pub restart_interval: u16,
}

/// The table of the codebook that component `k` references.
pub open spec fn book_of(
    books: Seq<Option<CanonicalCodebook>>,
    selectors: Seq<u8>,
    k: int,
) -> Seq<CanonicalEntry> {
    books[selectors[k] as int]->0@
}

/// Every component has a selector of a codebook that is there.
pub open spec fn books_present(
    books: Seq<Option<CanonicalCodebook>>,
    selectors: Seq<u8>,
    n: nat,
) -> bool {
    &&& books_wf(books)
    &&& selectors.len() >= n
    &&& forall|k: int|
        0 <= k < n ==> #[trigger] selectors[k] < books.len() && books[selectors[k] as int] is Some
}

impl JpegPreparedInput {
    /// Every component has its code tables.
    pub open spec fn tables_present(&self) -> bool {
        &&& books_present(self.dc_codebooks@, self.dc_selectors@, self.components@.len())
        &&& books_present(self.ac_codebooks@, self.ac_selectors@, self.components@.len())
    }

    /// The DC table of component `k`.
    pub open spec fn dc_table(&self, k: int) -> Seq<CanonicalEntry> {
        book_of(self.dc_codebooks@, self.dc_selectors@, k)
    }

    /// The AC table of component `k`.
    pub open spec fn ac_table(&self, k: int) -> Seq<CanonicalEntry> {
        book_of(self.ac_codebooks@, self.ac_selectors@, k)
    }

    /// DC codebooks, one for each component: slot `k` is the codebook that
    /// component `k` references.
    #[must_use]
    pub fn dc_codebooks_for_dispatch(&self) -> (books: Vec<&CanonicalCodebook>)
        requires
            self.tables_present(),
        ensures
            books@.len() == self.components@.len(),
            forall|k: int|
                0 <= k < books@.len() ==> (#[trigger] books@[k]).wf() && books@[k]@
                    == self.dc_table(k),
    {
        codebook_refs(&self.dc_codebooks, &self.dc_selectors, self.components.len())
    }

    /// AC codebooks, one for each component.
    #[must_use]
    pub fn ac_codebooks_for_dispatch(&self) -> (books: Vec<&CanonicalCodebook>)
        requires
            self.tables_present(),
        ensures
            books@.len() == self.components@.len(),
            forall|k: int|
                0 <= k < books@.len() ==> (#[trigger] books@[k]).wf() && books@[k]@
                    == self.ac_table(k),
    {
        codebook_refs(&self.ac_codebooks, &self.ac_selectors, self.components.len())
    }
}

fn codebook_refs<'a>(books: &'a Codebooks, selectors: &Vec<u8>, n: usize) -> (refs: Vec<
    &'a CanonicalCodebook,
>)
    requires
        books_present(books@, selectors@, n as nat),
    ensures
        refs@.len() == n,
        forall|k: int|
            0 <= k < n ==> (#[trigger] refs@[k]).wf() && refs@[k]@ == book_of(
                books@,
                selectors@,
                k,
            ),
{
    let mut refs: Vec<&'a CanonicalCodebook> = Vec::new();
    let mut k: usize = 0;
    while k < n
        invariant
            k <= n,
            books_present(books@, selectors@, n as nat),
            refs@.len() == k,
            forall|j: int|
                0 <= j < k ==> (#[trigger] refs@[j]).wf() && refs@[j]@ == book_of(
                    books@,
                    selectors@,
                    j,
                ),
        decreases n - k,
    {
        let sel: u8 = selectors[k];
        match &books[sel as usize] {
            Some(book) => {
                refs.push(book);
            },
            None => {
                assert(false);
            },
        }
        k = k + 1;
    }
    refs
}

/// The codebooks of one class, from table `i` on, over those in `books`.
pub open spec fn books_built(
    tables: Seq<TableModel>,
    class: DhtClass,
    i: int,
    books: Seq<Option<Seq<CanonicalEntry>>>,
) -> Result<Seq<Option<Seq<CanonicalEntry>>>, CanonicalCodebookError>
    decreases tables.len() - i,
{
    if i >= tables.len() {
        Ok(books)
    } else if tables[i].class != class {
        books_built(tables, class, i + 1, books)
    } else {
        match built_table(tables[i].num_codes, tables[i].values) {
            Ok(t) => books_built(
                tables,
                class,
                i + 1,
                books.update(tables[i].table_id as int, Some(t)),
            ),
            Err(e) => Err(e),
        }
    }
}

/// No codebook in any slot.
pub open spec fn no_books() -> Seq<Option<Seq<CanonicalEntry>>> {
    Seq::new(4, |i: int| None)
}

/// The scan's components, in scan order.
pub open spec fn scan_order(h: HeadersModel) -> Seq<JpegFrameComponent> {
    let frame = h.frame.frame.take(h.frame.components as int);
    Seq::new(
        h.scan.component_count as nat,
        |k: int| frame[component_index(frame, h.scan.components[k].id, 0)->0],
    )
}

/// Why preparation stops: the stage that refused the input.
pub enum PrepareFailure {
    Headers(JpegHeaderError),
    Stuffing(UnstuffError),
    TooLong,
    Codebook(CanonicalCodebookError),
    DcChain(DcChainError),
}

impl PrepareFailure {
    pub open spec fn text(self) -> Seq<char> {
        match self {
            PrepareFailure::Headers(e) => e.text(),
            PrepareFailure::Stuffing(e) => e.text(),
            PrepareFailure::TooLong => "entropy-coded segment exceeds the 32-bit bit count"@,
            PrepareFailure::Codebook(e) => e.text(),
            PrepareFailure::DcChain(e) => e.text(),
        }
    }

    /// The failure in words.
    pub fn message(&self) -> (s: String)
        ensures
            s@ == self.text(),
    {
        match self {
            PrepareFailure::Headers(e) => e.message(),
            PrepareFailure::Stuffing(e) => e.message(),
            PrepareFailure::TooLong => String::from_str(
                "entropy-coded segment exceeds the 32-bit bit count",
            ),
            PrepareFailure::Codebook(e) => e.message(),
            PrepareFailure::DcChain(e) => e.message(),
        }
    }
}

/// A prepared JPEG, as a value.
#[verifier::ext_equal]
pub struct PreparedModel {
    pub width: u16,
    pub height: u16,
    pub components: Seq<JpegFrameComponent>,
    pub quant: Seq<Option<Seq<u8>>>,
    pub dc_selectors: Seq<u8>,
    pub ac_selectors: Seq<u8>,
    pub dc_books: Seq<Option<Seq<CanonicalEntry>>>,
    pub ac_books: Seq<Option<Seq<CanonicalEntry>>>,
    pub dc_values: Seq<Seq<i32>>,
    pub words: Seq<u32>,
    pub length_bits: u32,
    pub restart_interval: u16,
}

impl View for JpegPreparedInput {
    type V = PreparedModel;

    open spec fn view(&self) -> PreparedModel {
        PreparedModel {
            width: self.width,
            height: self.height,
            components: self.components@,
            quant: quant_view(self.quant_tables@),
            dc_selectors: self.dc_selectors@,
            ac_selectors: self.ac_selectors@,
            dc_books: books_view(self.dc_codebooks@),
            ac_books: books_view(self.ac_codebooks@),
            dc_values: self.dc_values@,
            words: self.bitstream.words@,
            length_bits: self.bitstream.length_bits,
            restart_interval: self.restart_interval,
        }
    }
}

/// What preparing a JPEG gives.
pub open spec fn prepared(data: Seq<u8>) -> Result<PreparedModel, PrepareFailure> {
    match parsed_headers(data) {
        Err(e) => Err(PrepareFailure::Headers(e)),
        Ok(h) => match unstuff(h.scan_data) {
            Err(e) => Err(PrepareFailure::Stuffing(e)),
            Ok(clean) => if 8 * clean.bytes.len() > u32::MAX {
                Err(PrepareFailure::TooLong)
            } else {
                match books_built(h.frame.tables, DhtClass::Dc, 0, no_books()) {
                    Err(e) => Err(PrepareFailure::Codebook(e)),
                    Ok(dc_books) => match books_built(
                        h.frame.tables,
                        DhtClass::Ac,
                        0,
                        no_books(),
                    ) {
                        Err(e) => Err(PrepareFailure::Codebook(e)),
                        Ok(ac_books) => match dc_chain(
                            h,
                            clean.bytes,
                            clean.rsts,
                            dc_books,
                            ac_books,
                        ) {
                            Err(e) => Err(PrepareFailure::DcChain(e)),
                            Ok(dc_values) => Ok(
                                PreparedModel {
                                    width: h.frame.width,
                                    height: h.frame.height,
                                    components: scan_order(h),
                                    quant: h.frame.quant,
                                    dc_selectors: Seq::new(
                                        h.scan.component_count as nat,
                                        |k: int| h.scan.components[k].dc_table,
                                    ),
                                    ac_selectors: Seq::new(
                                        h.scan.component_count as nat,
                                        |k: int| h.scan.components[k].ac_table,
                                    ),
                                    dc_books,
                                    ac_books,
                                    dc_values,
                                    words: packed_words(clean.bytes, 8 * clean.bytes.len()),
                                    length_bits: (8 * clean.bytes.len()) as u32,
                                    restart_interval: h.frame.restart_interval,
                                },
                            ),
                        },
                    },
                }
            },
        },
    }
}

/// Build the codebooks of one class.
fn build_books(tables: &Vec<JpegHuffmanTable>, class: DhtClass) -> (books: Result<
    Codebooks,
    CanonicalCodebookError,
>)
    requires
        forall|k: int| 0 <= k < tables@.len() ==> (#[trigger] tables@[k]).table_id < 4,
    ensures
        match books_built(tables_view(tables@), class, 0, no_books()) {
            Ok(t) => books matches Ok(b) && books_view(b@) == t && books_wf(b@),
            Err(e) => books matches Err(r) && r == e,
        },
{
    let mut books: Codebooks = [None, None, None, None];
    assert(books_view(books@) =~= no_books());
    let mut i: usize = 0;
    while i < tables.len()
        invariant
            i <= tables@.len(),
            forall|k: int| 0 <= k < tables@.len() ==> (#[trigger] tables@[k]).table_id < 4,
            books_wf(books@),
            books@.len() == 4,
            books_built(tables_view(tables@), class, 0, no_books()) == books_built(
                tables_view(tables@),
                class,
                i as int,
                books_view(books@),
            ),
        decreases tables@.len() - i,
    {
        if tables[i].class == class {
            match CanonicalCodebook::build(&tables[i]) {
                Ok(book) => {
                    let ghost before = books@;
                    let ghost table = book@;
                    books[tables[i].table_id as usize] = Some(book);
                    assert(books_view(books@) =~= books_view(before).update(
                        tables@[i as int].table_id as int,
                        Some(table),
                    ));
                },
                Err(e) => return Err(e),
            }
        }
        i = i + 1;
    }
    Ok(books)
}

/// Parse, unstuff and index a baseline JPEG, and resolve its DC chain.
pub fn prepare(jpeg_bytes: &[u8]) -> (prep: Result<JpegPreparedInput, PrepareFailure>)
    ensures
        match prepared(jpeg_bytes@) {
            Ok(m) => prep matches Ok(p) && p@ == m && books_wf(p.dc_codebooks@) && books_wf(
                p.ac_codebooks@,
            ),
            Err(e) => prep matches Err(r) && r == e,
        },
{
    let headers = match JpegHeaders::parse(jpeg_bytes) {
        Ok(headers) => headers,
        Err(e) => return Err(PrepareFailure::Headers(e)),
    };
    proof {
        law_parsed_headers_are_valid(jpeg_bytes@);
        assert(headers_valid(headers@));
        assert forall|k: int| 0 <= k < headers.huffman_tables@.len() implies (
        #[trigger] headers.huffman_tables@[k]).table_id < 4 by {
            assert(table_valid(headers@.frame.tables[k]));
        }
        assert forall|k: int| 0 <= k < headers@.frame.components implies (
        #[trigger] headers@.frame.frame[k]).h_sampling * headers@.frame.frame[k].v_sampling
            <= 255 by {
            assert(component_valid(headers@.frame.frame[k]));
            let c = headers@.frame.frame[k];
            assert(c.h_sampling * c.v_sampling <= 16) by (nonlinear_arith)
                requires
                    1 <= c.h_sampling <= 4,
                    1 <= c.v_sampling <= 4,
            ;
        }
    }
    let mut unstuffed: Vec<u8> = Vec::new();
    let mut rst_positions: Vec<RstPosition> = Vec::new();
    match unstuff_into(headers.scan_data, &mut unstuffed, &mut rst_positions) {
        Ok(_) => {},
        Err(e) => return Err(PrepareFailure::Stuffing(e)),
    }
    if unstuffed.len() > 0x1FFF_FFFF {
        return Err(PrepareFailure::TooLong);
    }
    let dc_codebooks = match build_books(&headers.huffman_tables, DhtClass::Dc) {
        Ok(books) => books,
        Err(e) => return Err(PrepareFailure::Codebook(e)),
    };
    let ac_codebooks = match build_books(&headers.huffman_tables, DhtClass::Ac) {
        Ok(books) => books,
        Err(e) => return Err(PrepareFailure::Codebook(e)),
    };
    let dc_values = match resolve_dc_chain(
        &headers,
        unstuffed.as_slice(),
        rst_positions.as_slice(),
        &dc_codebooks,
        &ac_codebooks,
    ) {
        Ok(values) => values,
        Err(e) => return Err(PrepareFailure::DcChain(e)),
    };
    let bitstream = pack_be_words(unstuffed.as_slice(), unstuffed.len() as u32 * 8);
    let count: usize = headers.scan.component_count as usize;
    let frame = vstd::slice::slice_subrange(
        headers.frame_components.as_slice(),
        0,
        headers.components as usize,
    );
    assert(frame@ =~= headers@.frame.frame.take(headers@.frame.components as int));
    let ghost scan = headers@.scan.components.take(count as int);
    let mut components: Vec<JpegFrameComponent> = Vec::new();
    let mut dc_selectors: Vec<u8> = Vec::new();
    let mut ac_selectors: Vec<u8> = Vec::new();
    let mut k: usize = 0;
    while k < count
        invariant
            k <= count <= 4,
            count == headers@.scan.component_count,
            frame@ == headers@.frame.frame.take(headers@.frame.components as int),
            scan == headers@.scan.components.take(count as int),
            first_unknown(scan, frame@, k as int) is None,
            components@.len() == k,
            dc_selectors@.len() == k,
            ac_selectors@.len() == k,
            forall|j: int|
                0 <= j < k ==> components@[j] == scan_order(headers@)[j] && dc_selectors@[j]
                    == headers@.scan.components[j].dc_table && ac_selectors@[j]
                    == headers@.scan.components[j].ac_table,
        decreases count - k,
    {
        let sc = headers.scan.components[k];
        assert(scan[k as int] == sc);
        match crate::jpeg::dc_chain::find_component(frame, sc.id) {
            Some(i) => {
                components.push(frame[i]);
            },
            None => {
                assert(false);
            },
        }
        dc_selectors.push(sc.dc_table);
        ac_selectors.push(sc.ac_table);
        k = k + 1;
    }
    assert(components@ =~= scan_order(headers@));
    let prep = JpegPreparedInput {
        width: headers.width,
        height: headers.height,
        components,
        quant_tables: headers.quant_tables,
        dc_selectors,
        ac_selectors,
        dc_codebooks,
        ac_codebooks,
        dc_values,
        bitstream,
        restart_interval: headers.restart_interval,
    };
    assert(prep@ =~= prepared(jpeg_bytes@)->Ok_0);
    Ok(prep)
}

/// Prepare a JPEG for the decoder; a refusal names its cause.
pub fn prepare_jpeg(jpeg_bytes: &[u8]) -> (prep: Result<JpegPreparedInput, JpegGpuError>)
    ensures
        match prepared(jpeg_bytes@) {
            Ok(m) => prep matches Ok(p) && p@ == m && books_wf(p.dc_codebooks@) && books_wf(
                p.ac_codebooks@,
            ),
            Err(e) => prep matches Err(JpegGpuError::HeaderParse(s)) && s@ == e.text(),
        },
{
    match prepare(jpeg_bytes) {
        Ok(prep) => Ok(prep),
        Err(e) => Err(JpegGpuError::HeaderParse(e.message())),
    }
}

} // verus!
