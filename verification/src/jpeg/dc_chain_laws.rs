//! What holds of every resolved DC chain.

use super::dc_chain::{
    block_walked, blocks_walked, components_walked, dc_chain, mcus_walked, restarted, restarts_at,
    step_of, steps_from, ChainModel, ChainState, StepModel,
};
use super::canonical::CanonicalEntry;
use super::geometry::frame_mcus;
use super::header_spec::HeadersModel;
use super::headers::{JpegFrameComponent, JpegScanComponent};
use super::unstuff::RstPosition;
use vstd::prelude::*;

verus! {

/// Row `i` has grown by `gain(i)` values and every earlier value stands.
spec fn grown(old_rows: Seq<Seq<i32>>, new_rows: Seq<Seq<i32>>, gain: spec_fn(int) -> nat) -> bool {
    &&& new_rows.len() == old_rows.len()
    &&& forall|i: int|
        0 <= i < old_rows.len() ==> (#[trigger] new_rows[i]).len() == old_rows[i].len() + gain(i)
}

proof fn lemma_blocks_grow(c: ChainModel, mcu: u32, comp: nat, k: nat, st: ChainState)
    requires
        comp < st.values.len(),
        k <= c.steps[comp as int].blocks,
    ensures
        blocks_walked(c, mcu, comp, k, st) matches Ok(end) ==> grown(
            st.values,
            end.values,
            |i: int|
                if i == comp {
                    (c.steps[comp as int].blocks - k) as nat
                } else {
                    0
                },
        ),
    decreases c.steps[comp as int].blocks - k,
{
    if k < c.steps[comp as int].blocks {
        if let Ok(next) = block_walked(c, mcu, comp, st) {
            lemma_blocks_grow(c, mcu, comp, k + 1, next);
        }
    }
}

proof fn lemma_components_grow(c: ChainModel, mcu: u32, comp: nat, st: ChainState)
    requires
        comp <= c.steps.len(),
        st.values.len() == c.steps.len(),
    ensures
        components_walked(c, mcu, comp, st) matches Ok(end) ==> grown(
            st.values,
            end.values,
            |i: int|
                if i >= comp {
                    c.steps[i].blocks
                } else {
                    0
                },
        ),
    decreases c.steps.len() - comp,
{
    if comp < c.steps.len() {
        lemma_blocks_grow(c, mcu, comp, 0, st);
        if let Ok(next) = blocks_walked(c, mcu, comp, 0, st) {
            lemma_components_grow(c, mcu, comp + 1, next);
        }
    }
}

proof fn lemma_mcus_grow(c: ChainModel, mcu: nat, st: ChainState)
    requires
        mcu <= c.mcus,
        st.values.len() == c.steps.len(),
    ensures
        mcus_walked(c, mcu, st) matches Ok(end) ==> grown(
            st.values,
            end.values,
            |i: int| ((c.mcus - mcu) * c.steps[i].blocks) as nat,
        ),
    decreases c.mcus - mcu,
{
    if mcu < c.mcus {
        let fresh = restarted(c, mcu, st);
        lemma_components_grow(c, mcu as u32, 0, fresh);
        if let Ok(next) = components_walked(c, mcu as u32, 0, fresh) {
            lemma_mcus_grow(c, mcu + 1, next);
            if let Ok(end) = mcus_walked(c, mcu + 1, next) {
                assert forall|i: int| 0 <= i < st.values.len() implies (
                #[trigger] end.values[i]).len() == st.values[i].len() + (c.mcus - mcu)
                    * c.steps[i].blocks by {
                    assert(next.values[i].len() == st.values[i].len() + c.steps[i].blocks);
                    assert((c.mcus - mcu) * c.steps[i].blocks == (c.mcus - (mcu + 1))
                        * c.steps[i].blocks + c.steps[i].blocks) by (nonlinear_arith)
                        requires
                            mcu < c.mcus,
                    ;
                    assert((c.mcus - mcu) * c.steps[i].blocks >= 0) by (nonlinear_arith)
                        requires
                            mcu < c.mcus,
                    ;
                    assert((c.mcus - (mcu + 1)) * c.steps[i].blocks >= 0) by (nonlinear_arith)
                        requires
                            mcu < c.mcus,
                    ;
                }
                assert(grown(
                    st.values,
                    end.values,
                    |i: int| ((c.mcus - mcu) * c.steps[i].blocks) as nat,
                ));
            }
        }
    } else {
        assert forall|i: int| 0 <= i < st.values.len() implies (c.mcus - mcu)
            * #[trigger] c.steps[i].blocks == 0 by {
            assert((c.mcus - mcu) * c.steps[i].blocks == 0) by (nonlinear_arith)
                requires
                    c.mcus == mcu,
            ;
        }
    }
}

proof fn lemma_steps_len(
    scan: Seq<JpegScanComponent>,
    frame: Seq<JpegFrameComponent>,
    dc_books: Seq<Option<Seq<CanonicalEntry>>>,
    ac_books: Seq<Option<Seq<CanonicalEntry>>>,
    k: int,
    done: Seq<StepModel>,
)
    requires
        0 <= k <= scan.len(),
        done.len() == k,
    ensures
        steps_from(scan, frame, dc_books, ac_books, k, done) matches Ok(steps) ==> steps.len()
            == scan.len(),
    decreases scan.len() - k,
{
    if k < scan.len() {
        if let Ok(step) = step_of(scan, frame, dc_books, ac_books, k) {
            lemma_steps_len(scan, frame, dc_books, ac_books, k + 1, done.push(step));
        }
    }
}

/// A resolved chain has one value for every block: for each scan component
/// as many as the MCU count times the component's blocks per MCU.
pub proof fn law_dc_values_fill_every_block(
    headers: HeadersModel,
    src: Seq<u8>,
    rsts: Seq<RstPosition>,
    dc_books: Seq<Option<Seq<CanonicalEntry>>>,
    ac_books: Seq<Option<Seq<CanonicalEntry>>>,
)
    ensures
        dc_chain(headers, src, rsts, dc_books, ac_books) matches Ok(values) ==> ({
            let frame = headers.frame.frame.take(headers.frame.components as int);
            let scan = headers.scan.components.take(headers.scan.component_count as int);
            let mcus = frame_mcus(headers.frame.width as nat, headers.frame.height as nat, frame);
            let steps = steps_from(scan, frame, dc_books, ac_books, 0, Seq::empty())->Ok_0;
            &&& values.len() == scan.len()
            &&& steps.len() == scan.len()
            &&& forall|i: int|
                0 <= i < values.len() ==> (#[trigger] values[i]).len() == mcus * steps[i].blocks
        }),
{
    let frame = headers.frame.frame.take(headers.frame.components as int);
    let scan = headers.scan.components.take(headers.scan.component_count as int);
    let mcus = frame_mcus(headers.frame.width as nat, headers.frame.height as nat, frame);
    if let Ok(values) = dc_chain(headers, src, rsts, dc_books, ac_books) {
        lemma_steps_len(scan, frame, dc_books, ac_books, 0, Seq::empty());
        let steps = steps_from(scan, frame, dc_books, ac_books, 0, Seq::empty())->Ok_0;
        let c = ChainModel {
            src,
            rsts,
            restart_interval: headers.frame.restart_interval as nat,
            mcus,
            steps,
        };
        let start = ChainState {
            pos: 0,
            rsts_used: 0,
            predictor: seq![0i32, 0i32, 0i32, 0i32],
            values: Seq::new(scan.len(), |i: int| Seq::empty()),
        };
        lemma_mcus_grow(c, 0, start);
        assert forall|i: int| 0 <= i < values.len() implies (#[trigger] values[i]).len() == mcus
            * steps[i].blocks by {
            assert(start.values[i].len() == 0);
            assert(mcus * steps[i].blocks >= 0) by (nonlinear_arith);
        }
    }
}

/// A restart forgets the past: position and predictors behind it depend on
/// the marker alone, and every predictor is zero there.
pub proof fn law_restart_resets_the_predictor(c: ChainModel, mcu: nat, st: ChainState)
    requires
        restarts_at(c.restart_interval, mcu),
        st.rsts_used < c.rsts.len(),
    ensures
        restarted(c, mcu, st).predictor == seq![0i32, 0i32, 0i32, 0i32],
        c.rsts[st.rsts_used as int].byte_offset_in_dst <= c.src.len() ==> restarted(
            c,
            mcu,
            st,
        ).pos == 8 * c.rsts[st.rsts_used as int].byte_offset_in_dst,
        restarted(c, mcu, st).values == st.values,
        restarted(c, mcu, st).rsts_used == st.rsts_used + 1,
{
}

} // verus!
