//! What holds of every prepared JPEG.

use super::prepared::{books_built, no_books, prepared, PreparedModel};
use crate::jpeg::canonical::{built_table, CanonicalEntry};
use crate::jpeg::dc_chain::{
    component_index, first_unknown, step_of, steps_from, StepModel,
};
use crate::jpeg::dc_chain_laws::law_dc_values_fill_every_block;
use crate::jpeg::header_laws::{component_valid, law_parsed_headers_are_valid, table_valid};
use crate::jpeg::header_spec::{parsed_headers, TableModel};
use crate::jpeg::headers::{DhtClass, JpegFrameComponent, JpegScanComponent};
use crate::jpeg::unstuff::unstuff;
use vstd::prelude::*;

verus! {

/// Everything a decoder may rely on.
pub open spec fn prepared_valid(m: PreparedModel) -> bool {
    &&& m.width > 0
    &&& m.height > 0
    &&& 1 <= m.components.len() <= 4
    &&& m.dc_selectors.len() == m.components.len()
    &&& m.ac_selectors.len() == m.components.len()
    &&& m.dc_books.len() == 4
    &&& m.ac_books.len() == 4
    &&& m.quant.len() == 4
    &&& m.dc_values.len() == m.components.len()
    &&& m.length_bits % 8 == 0
    &&& m.words.len() == (m.length_bits + 31) / 32
    &&& forall|k: int|
        0 <= k < m.components.len() ==> {
            &&& component_valid(#[trigger] m.components[k])
            &&& m.dc_selectors[k] < 4 && m.dc_books[m.dc_selectors[k] as int] is Some
            &&& m.ac_selectors[k] < 4 && m.ac_books[m.ac_selectors[k] as int] is Some
        }
}

proof fn lemma_component_found(frame: Seq<JpegFrameComponent>, id: u8, i: int)
    requires
        0 <= i <= frame.len(),
    ensures
        component_index(frame, id, i) matches Some(j) ==> i <= j < frame.len() && frame[j].id
            == id,
    decreases frame.len() - i,
{
    if i < frame.len() && frame[i].id != id {
        lemma_component_found(frame, id, i + 1);
    }
}

proof fn lemma_none_unknown(
    scan: Seq<JpegScanComponent>,
    frame: Seq<JpegFrameComponent>,
    k: int,
    j: int,
)
    requires
        0 <= k <= j < scan.len(),
        first_unknown(scan, frame, k) is None,
    ensures
        component_index(frame, scan[j].id, 0) is Some,
    decreases j - k,
{
    if k < j {
        lemma_none_unknown(scan, frame, k + 1, j);
    }
}

proof fn lemma_steps_resolve(
    scan: Seq<JpegScanComponent>,
    frame: Seq<JpegFrameComponent>,
    dc_books: Seq<Option<Seq<CanonicalEntry>>>,
    ac_books: Seq<Option<Seq<CanonicalEntry>>>,
    k: int,
    done: Seq<StepModel>,
    j: int,
)
    requires
        0 <= k <= j < scan.len(),
        steps_from(scan, frame, dc_books, ac_books, k, done) is Ok,
    ensures
        step_of(scan, frame, dc_books, ac_books, j) is Ok,
    decreases j - k,
{
    if k < j {
        let step = step_of(scan, frame, dc_books, ac_books, k)->Ok_0;
        lemma_steps_resolve(scan, frame, dc_books, ac_books, k + 1, done.push(step), j);
    }
}

proof fn lemma_books_len(
    tables: Seq<TableModel>,
    class: DhtClass,
    i: int,
    books: Seq<Option<Seq<CanonicalEntry>>>,
)
    requires
        0 <= i,
        forall|k: int| 0 <= k < tables.len() ==> (#[trigger] tables[k]).table_id < books.len(),
    ensures
        books_built(tables, class, i, books) matches Ok(b) ==> b.len() == books.len(),
    decreases tables.len() - i,
{
    if i < tables.len() {
        if tables[i].class != class {
            lemma_books_len(tables, class, i + 1, books);
        } else if let Ok(t) = built_table(tables[i].num_codes, tables[i].values) {
            lemma_books_len(
                tables,
                class,
                i + 1,
                books.update(tables[i].table_id as int, Some(t)),
            );
        }
    }
}

/// A prepared JPEG is complete: it has 1 to 4 components within the baseline
/// limits, each with both its code tables and its DC values, and a stream of
/// whole bytes that its words hold.
pub proof fn law_prepared_input_is_complete(data: Seq<u8>)
    ensures
        prepared(data) matches Ok(m) ==> prepared_valid(m),
{
    if let Ok(m) = prepared(data) {
        law_parsed_headers_are_valid(data);
        let h = parsed_headers(data)->Ok_0;
        let clean = unstuff(h.scan_data)->Ok_0;
        let dc_books = m.dc_books;
        let ac_books = m.ac_books;
        assert forall|k: int| 0 <= k < h.frame.tables.len() implies (
        #[trigger] h.frame.tables[k]).table_id < 4 by {
            assert(table_valid(h.frame.tables[k]));
        }
        lemma_books_len(h.frame.tables, DhtClass::Dc, 0, no_books());
        lemma_books_len(h.frame.tables, DhtClass::Ac, 0, no_books());
        law_dc_values_fill_every_block(h, clean.bytes, clean.rsts, dc_books, ac_books);
        let frame = h.frame.frame.take(h.frame.components as int);
        let scan = h.scan.components.take(h.scan.component_count as int);
        assert forall|k: int| 0 <= k < m.components.len() implies {
            &&& component_valid(#[trigger] m.components[k])
            &&& m.dc_selectors[k] < 4 && m.dc_books[m.dc_selectors[k] as int] is Some
            &&& m.ac_selectors[k] < 4 && m.ac_books[m.ac_selectors[k] as int] is Some
        } by {
            lemma_none_unknown(scan, frame, 0, k);
            assert(scan[k] == h.scan.components[k]);
            lemma_component_found(frame, scan[k].id, 0);
            let j = component_index(frame, scan[k].id, 0)->0;
            assert(frame[j] == h.frame.frame[j]);
            lemma_steps_resolve(scan, frame, dc_books, ac_books, 0, Seq::empty(), k);
        }
    }
}

} // verus!
