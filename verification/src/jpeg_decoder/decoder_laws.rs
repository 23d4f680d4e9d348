//! What holds of every image the decoder takes.

use super::assemble_laws::{lemma_assembly_len, lemma_dc_len};
use super::coefficients::{ac_extracted, block_base, dc_passed, entry_at, CoefState};
use super::decoder::unsupported;
use super::idct_run::{idct_consistent, IdctJobModel};
use super::prepared::JpegPreparedInput;
use crate::bits::bits;
use crate::jpeg::canonical::CanonicalEntry;
use vstd::prelude::*;

verus! {

proof fn lemma_ac_keeps_len(
    src: Seq<u8>,
    pos: int,
    table: Seq<CanonicalEntry>,
    zz: nat,
    base: nat,
    coef: Seq<i32>,
    mcu: u32,
    comp: usize,
)
    ensures
        ac_extracted(src, pos, table, zz, base, coef, mcu, comp) matches Ok(r) ==> r.1.len()
            == coef.len(),
    decreases 80 - zz,
{
    if zz < 64 {
        if let Some(e) = entry_at(src, pos, table) {
            let p = pos + e.num_bits;
            let at = zz + e.symbol as nat / 16;
            let size = (e.symbol % 16) as nat;
            if e.symbol == 0xF0 {
                lemma_ac_keeps_len(src, p, table, zz + 16, base, coef, mcu, comp);
            } else if at < 64 && base + at < coef.len() {
                let v = crate::jpeg::entropy::extended(bits(src, p, size) as int, size) as i32;
                lemma_ac_keeps_len(
                    src,
                    p + size,
                    table,
                    at + 1,
                    base,
                    coef.update((base + at) as int, v),
                    mcu,
                    comp,
                );
            }
        }
    }
}

proof fn lemma_blocks_keep_len(
    prep: JpegPreparedInput,
    dc: Seq<CanonicalEntry>,
    ac: Seq<CanonicalEntry>,
    mcu: u32,
    comp: nat,
    k: nat,
    st: CoefState,
)
    ensures
        prep.blocks_extracted(dc, ac, mcu, comp, k, st) matches Ok(end) ==> end.coef.len()
            == st.coef.len(),
    decreases prep.mcu_blocks(comp as int) - k,
{
    if k < prep.mcu_blocks(comp as int) {
        let src = prep.bitstream.stream_bytes();
        if let Ok(p) = dc_passed(src, st.pos, dc, mcu, comp as usize) {
            lemma_ac_keeps_len(
                src,
                p,
                ac,
                1,
                block_base(comp, prep.blocks_per_comp(), st.counts[comp as int]),
                st.coef,
                mcu,
                comp as usize,
            );
        }
        if let Ok(next) = prep.block_extracted(dc, ac, mcu, comp, st) {
            lemma_blocks_keep_len(prep, dc, ac, mcu, comp, k + 1, next);
        }
    }
}

proof fn lemma_components_keep_len(
    prep: JpegPreparedInput,
    mcu: u32,
    comp: nat,
    st: CoefState,
)
    ensures
        prep.components_extracted(mcu, comp, st) matches Ok(end) ==> end.coef.len()
            == st.coef.len(),
    decreases prep.components@.len() - comp,
{
    if comp < prep.components@.len() {
        if let Ok((dc, ac)) = prep.tables_for(comp as int) {
            lemma_blocks_keep_len(prep, dc, ac, mcu, comp, 0, st);
            if let Ok(next) = prep.blocks_extracted(dc, ac, mcu, comp, 0, st) {
                lemma_components_keep_len(prep, mcu, comp + 1, next);
            }
        }
    }
}

proof fn lemma_extraction_len(prep: JpegPreparedInput, mcu: nat, st: CoefState)
    ensures
        prep.mcus_extracted(mcu, st) matches Ok(end) ==> end.coef.len() == st.coef.len(),
    decreases prep.num_mcus() - mcu,
{
    if mcu < prep.num_mcus() {
        lemma_components_keep_len(prep, mcu as u32, 0, st);
        if let Ok(next) = prep.components_extracted(mcu as u32, 0, st) {
            lemma_extraction_len(prep, mcu + 1, next);
        }
    }
}

/// Sizes of the arrays an image's coefficients come in.
pub proof fn lemma_gathered_sizes(prep: JpegPreparedInput, symbols: Option<Seq<u32>>)
    ensures
        prep.coefficients_from(symbols) matches Ok((coef, dc, qt, n)) ==> {
            &&& coef.len() == prep.total_blocks() * 64
            &&& dc.len() == prep.total_blocks()
            &&& qt.len() == n * 64
            &&& n == prep.qt_slots().len()
            &&& 1 <= n <= 2
        },
{
    lemma_dc_len(prep);
    lemma_extraction_len(prep, 0, prep.blank_coefs());
    if let Some(s) = symbols {
        lemma_assembly_len(prep, s, 0, prep.blank_symbols());
    }
}

/// The job of every supported image has the arrays its dimensions call for,
/// so that its launch is valid.
pub proof fn law_decoded_jobs_are_consistent(
    prep: JpegPreparedInput,
    symbols: Option<Seq<u32>>,
    job: IdctJobModel,
)
    requires
        prep.ready(),
        unsupported(prep.components@) is None,
        prep.idct_job(symbols) == Ok::<IdctJobModel, super::error::GpuErrorModel>(job),
    ensures
        idct_consistent(job),
        job.wf(),
{
    lemma_gathered_sizes(prep, symbols);
    let w = prep.blocks_wide() as int;
    let h = prep.blocks_high() as int;
    assert(0 <= w * h <= 8192 * 8192) by (nonlinear_arith)
        requires
            0 <= w <= 8192,
            0 <= h <= 8192,
    ;
}

} // verus!
