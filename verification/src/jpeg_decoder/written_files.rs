//! That a file that codes an image is prepared as that image.

use super::bitstream::packed_words;
use super::prepared::{books_built, no_books, prepared};
use crate::jpeg::canonical::{built_table, CanonicalEntry};
use crate::jpeg::dc_chain::{
    component_index, first_unknown, step_of, steps_from, total_blocks, DcChainError, StepModel,
    MAX_SAFE_MCUS,
};
use crate::jpeg::geometry::{block_count, frame_mcus};
use crate::jpeg::header_laws::{law_parsed_headers_are_valid, table_valid, tables_distinct};
use crate::jpeg::header_spec::{blank_frame, parsed_headers, FrameModel, TableModel};
use crate::jpeg::headers::{DhtClass, JpegFrameComponent, JpegScanComponent};
use crate::jpeg::unstuff::{
    joined_segments, law_unstuff_recovers_segments, stuffed, stuffed_segments, unstuff,
    UnstuffError, Unstuffed,
};
use crate::jpeg::written_blocks::CodeDef;
use crate::jpeg::written_headers::{
    all_said, file, law_written_headers_come_back, stuffed_scan, writable, Piece,
};
use crate::jpeg::written_scan::{
    first_with_id, law_coded_dc_values_come_back, lemma_component_index, Image, ScanPlan,
};
use vstd::prelude::*;

verus! {

/// The bytes of the segments, one behind the other, and where each but the
/// first begins.
pub open spec fn clean_scan(segments: Seq<Seq<u8>>) -> Unstuffed {
    joined_segments(segments, 0, Unstuffed { bytes: Seq::empty(), rsts: Seq::empty() })
}

/// Table `j` of the headers is the one of this class and number, and reads as
/// `d` does.
pub open spec fn defines(f: FrameModel, class: DhtClass, id: u8, d: CodeDef, j: int) -> bool {
    &&& 0 <= j < f.tables.len()
    &&& f.tables[j].class == class
    &&& f.tables[j].table_id == id
    &&& f.tables[j].num_codes == d.num_codes
    &&& f.tables[j].values == d.values
}

/// `plan` is how a file with these headers codes its scan.
pub open spec fn plan_for(
    f: FrameModel,
    scan: Seq<JpegScanComponent>,
    segments: Seq<Seq<u8>>,
    plan: ScanPlan,
) -> bool {
    let frame = f.frame.take(f.components as int);
    &&& plan.sound()
    &&& plan.src == clean_scan(segments).bytes
    &&& plan.rsts == clean_scan(segments).rsts
    &&& plan.restart_interval == f.restart_interval
    &&& plan.mcus == frame_mcus(f.width as nat, f.height as nat, frame)
    &&& plan.blocks.len() == scan.len()
    &&& plan.mcus * total_blocks(plan.walk().steps) <= MAX_SAFE_MCUS * 16
    &&& forall|k: int|
        #![trigger scan[k]]
        0 <= k < scan.len() ==> {
            &&& exists|i: int| #[trigger]
                first_with_id(frame, scan[k].id, i) && plan.blocks[k] == if scan.len() == 1 {
                    1
                } else {
                    frame[i].h_sampling * frame[i].v_sampling
                }
            &&& exists|j: int| #[trigger]
                defines(f, DhtClass::Dc, scan[k].dc_table, plan.dc[k], j)
            &&& exists|j: int| #[trigger]
                defines(f, DhtClass::Ac, scan[k].ac_table, plan.ac[k], j)
        }
}

proof fn lemma_stuffed_is_stuffed(data: Seq<u8>)
    ensures
        stuffed_scan(stuffed(data)),
        stuffed(data).len() > 0 ==> stuffed(data).last() != 0xFF,
        stuffed(data).len() == 0 <==> data.len() == 0,
    decreases data.len(),
{
    if data.len() > 0 {
        let rest = stuffed(data.skip(1));
        lemma_stuffed_is_stuffed(data.skip(1));
        let s = stuffed(data);
        let head: int = if data[0] == 0xFF {
            2
        } else {
            1
        };
        assert forall|i: int|
            #![trigger s[i]]
            0 <= i && i + 1 < s.len() && s[i] == 0xFF implies s[i + 1] == 0 || 0xD0 <= s[i + 1]
            <= 0xD7 || s[i + 1] == 0xFF by {
            if i >= head {
                assert(s[i] == rest[i - head]);
                assert(s[i + 1] == rest[i + 1 - head]);
            }
        }
        if rest.len() > 0 {
            assert(s.last() == rest.last());
        }
    }
}

proof fn lemma_segments_are_stuffed(segments: Seq<Seq<u8>>, first: nat)
    ensures
        stuffed_scan(stuffed_segments(segments, first)),
    decreases segments.len(),
{
    if segments.len() > 0 {
        lemma_stuffed_is_stuffed(segments[0]);
        if segments.len() > 1 {
            let a = stuffed(segments[0]);
            let rest = stuffed_segments(segments.skip(1), first + 1);
            lemma_segments_are_stuffed(segments.skip(1), first + 1);
            let s = stuffed_segments(segments, first);
            let n = a.len() as int;
            assert(s =~= a + seq![0xFFu8, (0xD0 + first % 8) as u8] + rest);
            assert forall|i: int|
                #![trigger s[i]]
                0 <= i && i + 1 < s.len() && s[i] == 0xFF implies s[i + 1] == 0 || 0xD0 <= s[i + 1]
                <= 0xD7 || s[i + 1] == 0xFF by {
                if i < n {
                    assert(s[i] == a[i]);
                    if i + 1 < n {
                        assert(s[i + 1] == a[i + 1]);
                    } else {
                        assert(a.last() == a[i]);
                    }
                } else if i >= n + 2 {
                    assert(s[i] == rest[i - n - 2]);
                    assert(s[i + 1] == rest[i + 1 - n - 2]);
                }
            }
        }
    }
}

/// Every table of a class that can be built is built into its slot.
proof fn lemma_books(
    tables: Seq<TableModel>,
    class: DhtClass,
    i: int,
    books: Seq<Option<Seq<CanonicalEntry>>>,
)
    requires
        0 <= i <= tables.len(),
        books.len() == 4,
        tables_distinct(tables),
        forall|k: int|
            0 <= k < tables.len() ==> table_valid(#[trigger] tables[k]) && built_table(
                tables[k].num_codes,
                tables[k].values,
            ) is Ok,
        forall|k: int|
            0 <= k < i && (#[trigger] tables[k]).class == class ==> books[tables[k].table_id as int]
                == Some(built_table(tables[k].num_codes, tables[k].values)->Ok_0),
    ensures
        books_built(tables, class, i, books) matches Ok(r) && r.len() == 4 && forall|k: int|
            0 <= k < tables.len() && (#[trigger] tables[k]).class == class
                ==> r[tables[k].table_id as int] == Some(
                built_table(tables[k].num_codes, tables[k].values)->Ok_0,
            ),
    decreases tables.len() - i,
{
    if i < tables.len() {
        assert(table_valid(tables[i]));
        if tables[i].class != class {
            lemma_books(tables, class, i + 1, books);
        } else {
            let t = built_table(tables[i].num_codes, tables[i].values)->Ok_0;
            let next = books.update(tables[i].table_id as int, Some(t));
            assert forall|k: int|
                0 <= k < i + 1 && (#[trigger] tables[k]).class
                    == class implies next[tables[k].table_id as int] == Some(
                built_table(tables[k].num_codes, tables[k].values)->Ok_0,
            ) by {
                assert(table_valid(tables[k]));
                if k < i {
                    assert(tables[k].class != tables[i].class || tables[k].table_id
                        != tables[i].table_id);
                }
            }
            lemma_books(tables, class, i + 1, next);
        }
    }
}

proof fn lemma_all_known(
    scan: Seq<JpegScanComponent>,
    frame: Seq<JpegFrameComponent>,
    k: int,
)
    requires
        0 <= k,
        forall|j: int|
            0 <= j < scan.len() ==> component_index(frame, (#[trigger] scan[j]).id, 0) is Some,
    ensures
        first_unknown(scan, frame, k) is None,
    decreases scan.len() - k,
{
    if k < scan.len() {
        assert(component_index(frame, scan[k].id, 0) is Some);
        lemma_all_known(scan, frame, k + 1);
    }
}

proof fn lemma_planned_steps(
    scan: Seq<JpegScanComponent>,
    frame: Seq<JpegFrameComponent>,
    dc_books: Seq<Option<Seq<CanonicalEntry>>>,
    ac_books: Seq<Option<Seq<CanonicalEntry>>>,
    steps: Seq<StepModel>,
    k: int,
)
    requires
        0 <= k <= scan.len(),
        steps.len() == scan.len(),
        forall|j: int|
            0 <= j < scan.len() ==> step_of(scan, frame, dc_books, ac_books, j) == Ok::<
                StepModel,
                DcChainError,
            >(#[trigger] steps[j]),
    ensures
        steps_from(scan, frame, dc_books, ac_books, k, steps.take(k)) == Ok::<
            Seq<StepModel>,
            DcChainError,
        >(steps),
    decreases scan.len() - k,
{
    if k < scan.len() {
        assert(steps.take(k).push(steps[k]) =~= steps.take(k + 1));
        lemma_planned_steps(scan, frame, dc_books, ac_books, steps, k + 1);
    } else {
        assert(steps.take(k) =~= steps);
    }
}

/// Component `k` is found, with its blocks.
proof fn lemma_found(
    f: FrameModel,
    scan: Seq<JpegScanComponent>,
    segments: Seq<Seq<u8>>,
    plan: ScanPlan,
    k: int,
) -> (i: int)
    requires
        plan_for(f, scan, segments, plan),
        0 <= k < scan.len(),
    ensures
        component_index(f.frame.take(f.components as int), scan[k].id, 0) == Some(i),
        first_with_id(f.frame.take(f.components as int), scan[k].id, i),
        plan.blocks[k] == block_count(
            scan.len(),
            f.frame.take(f.components as int)[i].h_sampling as nat,
            f.frame.take(f.components as int)[i].v_sampling as nat,
        ),
{
    let frame = f.frame.take(f.components as int);
    let sc = scan[k];
    let i = choose|i: int| #[trigger]
        first_with_id(frame, sc.id, i) && plan.blocks[k] == if scan.len() == 1 {
            1
        } else {
            frame[i].h_sampling * frame[i].v_sampling
        };
    lemma_component_index(frame, sc.id, 0);
    i
}

/// A file that codes an image is prepared as that image: its size, tables and
/// restart interval are those that its headers say, its components those of
/// the scan with the tables that they select, its stream the scan without
/// stuffing and markers, and its DC values those of the image.
#[verifier::rlimit(40)]
pub proof fn law_coded_files_are_prepared(
    pieces: Seq<Piece>,
    scan: Seq<JpegScanComponent>,
    segments: Seq<Seq<u8>>,
    trailer: Seq<u8>,
    plan: ScanPlan,
    image: Image,
)
    requires
        ({
            let f = all_said(blank_frame(), pieces);
            let data = file(pieces, scan, stuffed_segments(segments, 0), trailer);
            &&& data.len() <= isize::MAX
            &&& forall|k: int| 0 <= k < pieces.len() ==> writable(#[trigger] pieces[k])
            &&& 1 <= scan.len() <= 4
            &&& forall|k: int|
                0 <= k < scan.len() ==> (#[trigger] scan[k]).dc_table <= 1 && scan[k].ac_table <= 1
            &&& f.width > 0 && f.height > 0 && f.components > 0
            &&& forall|k: int|
                0 <= k < f.tables.len() ==> built_table(
                    (#[trigger] f.tables[k]).num_codes,
                    f.tables[k].values,
                ) is Ok
            &&& 8 * clean_scan(segments).bytes.len() <= u32::MAX
            &&& plan_for(f, scan, segments, plan)
            &&& plan.fits(image)
            &&& plan.mcus_stand(image, 0, 0, 0)
        }),
    ensures
        ({
            let f = all_said(blank_frame(), pieces);
            let frame = f.frame.take(f.components as int);
            let bytes = clean_scan(segments).bytes;
            prepared(file(pieces, scan, stuffed_segments(segments, 0), trailer)) matches Ok(m) && {
                &&& m.width == f.width
                &&& m.height == f.height
                &&& m.quant == f.quant
                &&& m.restart_interval == f.restart_interval
                &&& m.length_bits == 8 * bytes.len()
                &&& m.words == packed_words(bytes, 8 * bytes.len())
                &&& m.components.len() == scan.len()
                &&& m.dc_selectors.len() == scan.len()
                &&& m.ac_selectors.len() == scan.len()
                &&& m.dc_values.len() == scan.len()
                &&& forall|k: int|
                    #![trigger scan[k]]
                    0 <= k < scan.len() ==> {
                        &&& exists|i: int| #[trigger]
                            first_with_id(frame, scan[k].id, i) && m.components[k] == frame[i]
                        &&& m.dc_selectors[k] == scan[k].dc_table
                        &&& m.ac_selectors[k] == scan[k].ac_table
                        &&& m.dc_books[scan[k].dc_table as int] == Some(plan.dc[k].table())
                        &&& m.ac_books[scan[k].ac_table as int] == Some(plan.ac[k].table())
                        &&& m.dc_values[k].len() == image[k].len()
                    }
                &&& forall|k: int, n: int|
                    #![trigger m.dc_values[k][n]]
                    0 <= k < scan.len() && 0 <= n < image[k].len() ==> m.dc_values[k][n]
                        == image[k][n][0]
            }
        }),
{
    let f = all_said(blank_frame(), pieces);
    let frame = f.frame.take(f.components as int);
    let scan_bytes = stuffed_segments(segments, 0);
    let data = file(pieces, scan, scan_bytes, trailer);
    let clean = clean_scan(segments);
    lemma_segments_are_stuffed(segments, 0);
    law_written_headers_come_back(pieces, scan, scan_bytes, trailer);
    law_parsed_headers_are_valid(data);
    law_unstuff_recovers_segments(segments);
    let h = parsed_headers(data)->Ok_0;
    assert(h.scan_data == scan_bytes);
    assert(unstuff(h.scan_data) == Ok::<Unstuffed, UnstuffError>(clean));
    lemma_books(f.tables, DhtClass::Dc, 0, no_books());
    lemma_books(f.tables, DhtClass::Ac, 0, no_books());
    let dc_books = books_built(f.tables, DhtClass::Dc, 0, no_books())->Ok_0;
    let ac_books = books_built(f.tables, DhtClass::Ac, 0, no_books())->Ok_0;
    let steps = plan.walk().steps;
    assert forall|k: int| 0 <= k < scan.len() implies {
        &&& component_index(frame, (#[trigger] scan[k]).id, 0) is Some
        &&& dc_books[scan[k].dc_table as int] == Some(plan.dc[k].table())
        &&& ac_books[scan[k].ac_table as int] == Some(plan.ac[k].table())
    } by {
        let i = lemma_found(f, scan, segments, plan, k);
        let j = choose|j: int| #[trigger]
            defines(f, DhtClass::Dc, scan[k].dc_table, plan.dc[k], j);
        assert(f.tables[j].class == DhtClass::Dc);
        let l = choose|l: int| #[trigger]
            defines(f, DhtClass::Ac, scan[k].ac_table, plan.ac[k], l);
        assert(f.tables[l].class == DhtClass::Ac);
    }
    assert forall|k: int| 0 <= k < scan.len() implies step_of(
        scan,
        frame,
        dc_books,
        ac_books,
        k,
    ) == Ok::<StepModel, DcChainError>(#[trigger] steps[k]) by {
        let i = lemma_found(f, scan, segments, plan, k);
        assert(plan.blocks[k] > 0);
        assert(dc_books[scan[k].dc_table as int] == Some(plan.dc[k].table()));
    }
    lemma_all_known(scan, frame, 0);
    assert(steps.take(0) =~= Seq::empty());
    lemma_planned_steps(scan, frame, dc_books, ac_books, steps, 0);
    law_coded_dc_values_come_back(plan, image, h, dc_books, ac_books);
    let m = prepared(data)->Ok_0;
    assert forall|k: int|
        #![trigger scan[k]]
        0 <= k < scan.len() implies {
        &&& exists|i: int| #[trigger]
            first_with_id(frame, scan[k].id, i) && m.components[k] == frame[i]
        &&& m.dc_selectors[k] == scan[k].dc_table
        &&& m.ac_selectors[k] == scan[k].ac_table
    } by {
        let i = lemma_found(f, scan, segments, plan, k);
        assert(h.scan.components[k] == h.scan.components.take(scan.len() as int)[k]);
        assert(first_with_id(frame, scan[k].id, i));
    }
    assert forall|k: int, n: int|
        #![trigger m.dc_values[k][n]]
        0 <= k < scan.len() && 0 <= n < image[k].len() implies m.dc_values[k][n]
        == image[k][n][0] by {
        assert(m.dc_values[k].len() == image[k].len());
    }
}

} // verus!
