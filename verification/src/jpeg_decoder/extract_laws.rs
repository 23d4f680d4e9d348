//! What the job of an image holds of the image.

use super::coefficients::dc_placed;
use super::decoder::{kernel_slot, misplaced_from, subsampled_from, unsupported};
use super::error::GpuErrorModel;
use super::idct_run::IdctJobModel;
use super::prepared::JpegPreparedInput;
use crate::jpeg::headers::JpegFrameComponent;
use vstd::prelude::*;

verus! {

proof fn lemma_subsampled_from(components: Seq<JpegFrameComponent>, k: int)
    requires
        0 <= k <= components.len(),
    ensures
        match subsampled_from(components, k) {
            Some(j) => k <= j < components.len() && !(components[j].h_sampling == 1
                && components[j].v_sampling == 1) && forall|i: int|
                k <= i < j ==> (#[trigger] components[i]).h_sampling == 1
                    && components[i].v_sampling == 1,
            None => forall|i: int|
                k <= i < components.len() ==> (#[trigger] components[i]).h_sampling == 1
                    && components[i].v_sampling == 1,
        },
    decreases components.len() - k,
{
    if k < components.len() && components[k].h_sampling == 1 && components[k].v_sampling == 1 {
        lemma_subsampled_from(components, k + 1);
    }
}

proof fn lemma_misplaced_from(components: Seq<JpegFrameComponent>, k: int)
    requires
        0 <= k <= components.len(),
    ensures
        match misplaced_from(components, k) {
            Some(j) => k <= j < components.len() && components[j].quant_selector != kernel_slot(j),
            None => forall|i: int|
                k <= i < components.len() ==> (#[trigger] components[i]).quant_selector
                    == kernel_slot(i),
        },
    decreases components.len() - k,
{
    if k < components.len() && components[k].quant_selector == kernel_slot(k) {
        lemma_misplaced_from(components, k + 1);
    }
}

/// The kernels take exactly the grey images and the colour images of three
/// components without subsampling whose luma is quantised by table 0 and
/// whose chroma by table 1.
pub proof fn law_supported_images(components: Seq<JpegFrameComponent>)
    ensures
        unsupported(components) is None <==> {
            &&& components.len() == 1 || components.len() == 3
            &&& forall|k: int|
                0 <= k < components.len() ==> (#[trigger] components[k]).h_sampling == 1
                    && components[k].v_sampling == 1
            &&& components.len() == 3 ==> components[0].quant_selector == 0
                && components[1].quant_selector == 1 && components[2].quant_selector == 1
        },
{
    lemma_subsampled_from(components, 0);
    lemma_misplaced_from(components, 0);
    if components.len() == 3 && components[0].quant_selector == 0 && components[1].quant_selector
        == 1 && components[2].quant_selector == 1 {
        if let Some(j) = misplaced_from(components, 0) {
            assert(j == 0 || j == 1 || j == 2);
        }
    }
}

proof fn lemma_slots_defined(prep: JpegPreparedInput, k: int)
    requires
        0 <= k <= prep.qt_slots().len(),
        prep.first_undefined_slot(k) is None,
    ensures
        forall|i: int|
            k <= i < prep.qt_slots().len() ==> #[trigger] prep.qt_slots()[i] < 4
                && prep.quant_tables@[prep.qt_slots()[i] as int] is Some,
    decreases prep.qt_slots().len() - k,
{
    if k < prep.qt_slots().len() {
        lemma_slots_defined(prep, k + 1);
    }
}

/// Every component is dequantised by the table that its selector names: the
/// kernel reads the first packed table for the first component and the
/// second for the others, and that table is there.
pub proof fn law_components_get_their_own_table(
    prep: JpegPreparedInput,
    symbols: Option<Seq<u32>>,
    job: IdctJobModel,
    k: int,
    j: int,
)
    requires
        unsupported(prep.components@) is None,
        prep.idct_job(symbols) == Ok::<IdctJobModel, GpuErrorModel>(job),
        0 <= k < prep.components@.len(),
        0 <= j < 64,
    ensures
        ({
            let selector = prep.components@[k].quant_selector as int;
            let at = if k == 0 {
                j
            } else {
                64 + j
            };
            &&& 0 <= selector < 4
            &&& prep.quant_tables@[selector] matches Some(table) && {
                &&& at < job.qtables.len()
                &&& job.qtables[at] == table.values@[j]
            }
        }),
{
    law_supported_images(prep.components@);
    lemma_slots_defined(prep, 0);
    let at = if k == 0 {
        j
    } else {
        64 + j
    };
    let slot = if k == 0 {
        0int
    } else {
        1
    };
    assert(at / 64 == slot && at % 64 == j);
    assert(prep.qt_slots()[slot] == prep.components@[k].quant_selector);
    assert(job.qtables == prep.qt_flat());
}

/// The job has the image's size and components, blocks enough to cover the
/// image and no row or column of them too many, and one table for a grey
/// image or two for a colour one.
pub proof fn law_jobs_have_the_image_size(
    prep: JpegPreparedInput,
    symbols: Option<Seq<u32>>,
    job: IdctJobModel,
)
    requires
        unsupported(prep.components@) is None,
        prep.idct_job(symbols) == Ok::<IdctJobModel, GpuErrorModel>(job),
    ensures
        job.width == prep.width,
        job.height == prep.height,
        job.num_components == prep.components@.len(),
        8 * job.blocks_wide - 8 < job.width <= 8 * job.blocks_wide,
        8 * job.blocks_high - 8 < job.height <= 8 * job.blocks_high,
        job.num_qtables == if prep.components@.len() == 1 {
            1int
        } else {
            2
        },
{
    law_supported_images(prep.components@);
}

/// Value `b` of row `c` stands in its place.
spec fn in_place(
    rows: Seq<Seq<i32>>,
    flat: Seq<i32>,
    blocks_per_comp: nat,
    c: int,
    b: int,
) -> bool {
    &&& 0 <= c * blocks_per_comp + b < flat.len()
    &&& flat[c * blocks_per_comp + b] == rows[c][b]
}

/// Values that are placed stand where they belong, and nothing before the
/// first of them changes.
proof fn lemma_dc_placed(
    rows: Seq<Seq<i32>>,
    blocks_per_comp: nat,
    comp: nat,
    block: nat,
    flat: Seq<i32>,
)
    requires
        forall|c: int| 0 <= c < rows.len() ==> (#[trigger] rows[c]).len() <= blocks_per_comp,
        comp < rows.len() ==> block <= rows[comp as int].len(),
    ensures
        dc_placed(rows, blocks_per_comp, comp, block, flat) matches Ok(r) ==> {
            &&& r.len() == flat.len()
            &&& forall|i: int|
                0 <= i < flat.len() && (comp >= rows.len() || i < comp * blocks_per_comp + block)
                    ==> #[trigger] r[i] == flat[i]
            &&& forall|c: int, b: int|
                comp <= c < rows.len() && 0 <= b < rows[c].len() && (c > comp || b >= block)
                    ==> #[trigger] in_place(rows, r, blocks_per_comp, c, b)
        },
    decreases rows.len() - comp, (if comp < rows.len() {
            rows[comp as int].len() - block
        } else {
            0
        }),
{
    if comp < rows.len() {
        assert((comp + 1) * blocks_per_comp == comp * blocks_per_comp + blocks_per_comp)
            by (nonlinear_arith);
        assert(comp * blocks_per_comp >= 0) by (nonlinear_arith);
        if block >= rows[comp as int].len() {
            lemma_dc_placed(rows, blocks_per_comp, comp + 1, 0, flat);
        } else {
            let index = comp * blocks_per_comp + block;
            if index < flat.len() {
                let next = flat.update(index as int, rows[comp as int][block as int]);
                lemma_dc_placed(rows, blocks_per_comp, comp, block + 1, next);
                if let Ok(r) = dc_placed(rows, blocks_per_comp, comp, block + 1, next) {
                    assert(r[index as int] == next[index as int]);
                    assert(in_place(rows, r, blocks_per_comp, comp as int, block as int));
                }
            }
        }
    }
}

/// The DC value of every block stands at its component and block in the
/// job's DC values.
pub proof fn law_dc_values_find_their_block(prep: JpegPreparedInput, comp: int, block: int)
    requires
        prep.dc_values@.len() <= prep.components@.len(),
        forall|c: int|
            0 <= c < prep.dc_values@.len() ==> (#[trigger] prep.dc_values@[c]).len()
                <= prep.blocks_per_comp(),
        0 <= comp < prep.dc_values@.len(),
        0 <= block < prep.dc_values@[comp].len(),
    ensures
        prep.dc_flat() matches Ok(flat) ==> 0 <= comp * prep.blocks_per_comp() + block < flat.len()
            && flat[comp * prep.blocks_per_comp() + block] == prep.dc_values@[comp][block],
{
    let n = prep.components@.len();
    assert(n * prep.blocks_per_comp() >= 0) by (nonlinear_arith);
    lemma_dc_placed(
        prep.dc_values@,
        prep.blocks_per_comp(),
        0,
        0,
        Seq::new(n * prep.blocks_per_comp(), |i: int| 0i32),
    );
    if let Ok(flat) = prep.dc_flat() {
        assert(in_place(prep.dc_values@, flat, prep.blocks_per_comp(), comp, block));
    }
}

/// Why an image is refused: the number of its components, or the first that
/// is subsampled.
pub proof fn law_refusals_name_the_reason(components: Seq<JpegFrameComponent>, k: int)
    ensures
        components.len() != 1 && components.len() != 3 && components.len() <= 255 ==> unsupported(
            components,
        ) == Some(GpuErrorModel::UnsupportedComponents(components.len() as u8)),
        (components.len() == 1 || components.len() == 3) && 0 <= k < components.len() && !(
        components[k].h_sampling == 1 && components[k].v_sampling == 1) && (forall|i: int|
            0 <= i < k ==> (#[trigger] components[i]).h_sampling == 1 && components[i].v_sampling
                == 1) ==> unsupported(components) == Some(
            GpuErrorModel::UnsupportedSubsampling {
                component: components[k].id,
                h: components[k].h_sampling,
                v: components[k].v_sampling,
            },
        ),
{
    lemma_subsampled_from(components, 0);
}

/// Symbols that do not fit the scan change nothing: the job is that of the
/// stream itself.
pub proof fn law_unfit_symbols_are_ignored(prep: JpegPreparedInput, symbols: Seq<u32>)
    requires
        prep.assembly(symbols) is Err,
    ensures
        prep.idct_job(Some(symbols)) == prep.idct_job(None),
{
}

/// The coefficients of a job are those of the stream and its DC values those
/// that were resolved.
pub proof fn law_jobs_hold_the_extraction(prep: JpegPreparedInput, job: IdctJobModel)
    requires
        prep.idct_job(None) == Ok::<IdctJobModel, GpuErrorModel>(job),
    ensures
        prep.mcus_extracted(0, prep.blank_coefs()) matches Ok(st) && job.coefficients == st.coef,
        prep.dc_flat() matches Ok(flat) && job.dc_values == flat,
{
}

/// The kernel tells blocks apart by 26 bits: an image with more blocks than
/// that has no job, whatever it holds.
pub proof fn law_jobs_are_within_the_block_index(
    prep: JpegPreparedInput,
    symbols: Option<Seq<u32>>,
)
    ensures
        prep.idct_job(symbols) is Ok ==> prep.components@.len() * (prep.blocks_wide()
            * prep.blocks_high()) < 0x400_0000,
        prep.components@.len() * (prep.blocks_wide() * prep.blocks_high()) >= 0x400_0000
            ==> prep.idct_job(symbols) is Err,
{
}

} // verus!
