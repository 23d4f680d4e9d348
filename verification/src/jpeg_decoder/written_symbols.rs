//! That the symbols of a coded scan are emitted.

use super::jpeg_framing::{
    ac_emitted, block_emitted, blocks_emitted, components_emitted, dc_emitted, mcus_emitted,
    JpegFramingError, LaneModel, WalkState,
};
use super::prepared::JpegPreparedInput;
use super::written_walk::block_walkable;
use crate::jpeg::written_blocks::{
    ac_stands, block_stands, category, dc_stands, lemma_bit_length, lemma_symbol_read,
    lemma_zero_run, symbol_stands, value_stands, zero_run, CodeDef,
};
use crate::jpeg::written_scan::{Image, ScanPlan};
use vstd::arithmetic::power2::*;
use vstd::prelude::*;

verus! {

/// The symbols that code the coefficients of `block` from `zz` on.
pub open spec fn ac_symbols(block: Seq<i32>, zz: nat) -> Seq<u32>
    decreases 64 - zz,
{
    let run = zero_run(block, zz);
    if zz >= 64 {
        Seq::empty()
    } else if zz + run >= 64 {
        seq![0u32]
    } else if run >= 16 {
        seq![0xF0u32] + ac_symbols(block, zz + 16)
    } else {
        let size = category(block[(zz + run) as int] as int);
        seq![(16 * run + size) as u32] + ac_symbols(block, zz + run + 1)
    }
}

/// The symbols that code a block: the category of its difference, then those
/// of its other coefficients.
pub open spec fn block_symbols(diff: int, block: Seq<i32>) -> Seq<u32> {
    seq![category(diff) as u32] + ac_symbols(block, 1)
}

/// The symbols of blocks `k` and up of a component of an MCU.
pub open spec fn blocks_symbols(plan: ScanPlan, image: Image, mcu: nat, comp: nat, k: nat) -> Seq<
    u32,
>
    decreases plan.blocks[comp as int] - k,
{
    if k >= plan.blocks[comp as int] {
        Seq::empty()
    } else {
        let block = image[comp as int][(mcu * plan.blocks[comp as int] + k) as int];
        block_symbols(block[0] - plan.predicted(image, mcu, comp, k), block) + blocks_symbols(
            plan,
            image,
            mcu,
            comp,
            k + 1,
        )
    }
}

/// The symbols of components `comp` and up of an MCU.
pub open spec fn components_symbols(plan: ScanPlan, image: Image, mcu: nat, comp: nat) -> Seq<u32>
    decreases plan.blocks.len() - comp,
{
    if comp >= plan.blocks.len() {
        Seq::empty()
    } else {
        blocks_symbols(plan, image, mcu, comp, 0) + components_symbols(plan, image, mcu, comp + 1)
    }
}

/// The symbols of MCUs `mcu` and up.
pub open spec fn mcus_symbols(plan: ScanPlan, image: Image, mcu: nat) -> Seq<u32>
    decreases plan.mcus - mcu,
{
    if mcu >= plan.mcus {
        Seq::empty()
    } else {
        components_symbols(plan, image, mcu, 0) + mcus_symbols(plan, image, mcu + 1)
    }
}

/// What a walk has once it emitted `more` and stands at `q`.
spec fn emitted(st: WalkState, more: Seq<u32>, q: int) -> Result<WalkState, JpegFramingError> {
    Ok(WalkState { pos: q, symbols: st.symbols + more })
}

proof fn lemma_ac(
    src: Seq<u8>,
    d: CodeDef,
    block: Seq<i32>,
    zz: nat,
    q: int,
    st: WalkState,
    mcu: u32,
    comp: u8,
)
    requires
        d.sound(),
        block_walkable(block),
        1 <= zz <= 64,
        ac_stands(src, st.pos, d, block, zz, q),
    ensures
        ac_emitted(src, d.table(), zz, st, mcu, comp) == emitted(st, ac_symbols(block, zz), q),
    decreases 64 - zz,
{
    let p = st.pos;
    let run = zero_run(block, zz);
    lemma_zero_run(block, zz);
    let want = ac_symbols(block, zz);
    if zz >= 64 {
        assert(st.symbols + want =~= st.symbols);
    } else if zz + run >= 64 {
        lemma_symbol_read(src, p, d, 0, q);
        assert(st.symbols + want =~= st.symbols.push(0u32));
    } else if run >= 16 {
        let m = choose|m: int| #[trigger]
            symbol_stands(src, p, d, 0xF0, m) && ac_stands(src, m, d, block, zz + 16, q);
        lemma_symbol_read(src, p, d, 0xF0, m);
        let next = WalkState { pos: m, symbols: st.symbols.push(0xF0u32) };
        lemma_ac(src, d, block, zz + 16, q, next, mcu, comp);
        assert(next.symbols + ac_symbols(block, zz + 16) =~= st.symbols + want);
    } else {
        let v = block[(zz + run) as int] as int;
        let n = category(v);
        let m = choose|m: int| #[trigger]
            symbol_stands(src, p, d, 16 * run as int + n, m) && value_stands(src, m, v)
                && ac_stands(src, m + n, d, block, zz + run + 1, q);
        assert(0 < n <= 10) by {
            lemma_bit_length(
                if v < 0 {
                    (-v) as nat
                } else {
                    v as nat
                },
            );
        }
        lemma_symbol_read(src, p, d, 16 * run as int + n, m);
        let next = WalkState { pos: m + n, symbols: st.symbols.push((16 * run + n) as u32) };
        lemma_ac(src, d, block, zz + run + 1, q, next, mcu, comp);
        assert(next.symbols + ac_symbols(block, zz + run + 1) =~= st.symbols + want);
    }
}

proof fn lemma_block(
    src: Seq<u8>,
    lanes: Seq<LaneModel>,
    dc: CodeDef,
    ac: CodeDef,
    diff: int,
    block: Seq<i32>,
    q: int,
    mcu: u32,
    comp: nat,
    st: WalkState,
)
    requires
        dc.sound(),
        ac.sound(),
        -2047 <= diff <= 2047,
        block_walkable(block),
        lanes[comp as int].dc == dc.table(),
        lanes[comp as int].ac == ac.table(),
        block_stands(src, st.pos, dc, ac, diff, block, q),
    ensures
        block_emitted(src, lanes, mcu, comp, st) == emitted(st, block_symbols(diff, block), q),
{
    let p = st.pos;
    let m = choose|m: int| #[trigger]
        dc_stands(src, p, dc, diff, m) && ac_stands(src, m, ac, block, 1, q);
    let n = category(diff);
    let k = choose|k: int| #[trigger]
        symbol_stands(src, p, dc, n as int, k) && value_stands(src, k, diff) && m == k + n;
    lemma_symbol_read(src, p, dc, n as int, k);
    assert(n <= 11) by {
        lemma_bit_length(
            if diff < 0 {
                (-diff) as nat
            } else {
                diff as nat
            },
        );
        if n > 11 {
            lemma2_to64();
            if n > 12 {
                lemma_pow2_strictly_increases(11, (n - 1) as nat);
            }
        }
    }
    let mid = WalkState { pos: m, symbols: st.symbols.push(n as u32) };
    assert(dc_emitted(src, dc.table(), st, mcu, comp as u8) == Ok::<WalkState, JpegFramingError>(
        mid,
    ));
    lemma_ac(src, ac, block, 1, q, mid, mcu, comp as u8);
    assert(mid.symbols + ac_symbols(block, 1) =~= st.symbols + block_symbols(diff, block));
}

/// `plan` codes the stream of `prep` and its image is within the limits of
/// the walk.
spec fn planned(plan: ScanPlan, image: Image, lanes: Seq<LaneModel>) -> bool {
    &&& plan.sound()
    &&& plan.fits(image)
    &&& plan.restart_interval == 0
    &&& lanes.len() == plan.blocks.len()
    &&& forall|c: int|
        0 <= c < lanes.len() ==> {
            &&& (#[trigger] lanes[c]).blocks == plan.blocks[c]
            &&& lanes[c].dc == plan.dc[c].table()
            &&& lanes[c].ac == plan.ac[c].table()
        }
    &&& forall|c: int, n: int|
        #![trigger image[c][n]]
        0 <= c < image.len() && 0 <= n < image[c].len() ==> block_walkable(image[c][n])
}

proof fn lemma_blocks(
    plan: ScanPlan,
    image: Image,
    lanes: Seq<LaneModel>,
    mcu: nat,
    comp: nat,
    k: nat,
    q: int,
    st: WalkState,
)
    requires
        planned(plan, image, lanes),
        mcu < plan.mcus,
        comp < plan.blocks.len(),
        k <= plan.blocks[comp as int],
        plan.blocks_stand(image, mcu, comp, k, st.pos, q),
    ensures
        blocks_emitted(plan.src, lanes, mcu as u32, comp, k, st) == emitted(
            st,
            blocks_symbols(plan, image, mcu, comp, k),
            q,
        ),
    decreases plan.blocks[comp as int] - k,
{
    let c = comp as int;
    assert(lanes[c].blocks == plan.blocks[c]);
    let want = blocks_symbols(plan, image, mcu, comp, k);
    if k < plan.blocks[c] {
        let b = plan.blocks[c];
        assert(image[c].len() == plan.mcus * b);
        assert(mcu * b + b <= plan.mcus * b) by (nonlinear_arith)
            requires
                mcu + 1 <= plan.mcus,
        ;
        assert(mcu * b >= 0) by (nonlinear_arith);
        let block = image[c][(mcu * b + k) as int];
        assert(block_walkable(image[c][(mcu * b + k) as int]));
        let diff = block[0] - plan.predicted(image, mcu, comp, k);
        let m = choose|m: int| #[trigger]
            block_stands(plan.src, st.pos, plan.dc[c], plan.ac[c], diff, block, m)
                && plan.blocks_stand(image, mcu, comp, k + 1, m, q);
        assert(plan.blocks[c] > 0);
        lemma_block(
            plan.src,
            lanes,
            plan.dc[c],
            plan.ac[c],
            diff,
            block,
            m,
            mcu as u32,
            comp,
            st,
        );
        let next = WalkState { pos: m, symbols: st.symbols + block_symbols(diff, block) };
        lemma_blocks(plan, image, lanes, mcu, comp, k + 1, q, next);
        assert(next.symbols + blocks_symbols(plan, image, mcu, comp, k + 1) =~= st.symbols + want);
    } else {
        assert(st.symbols + want =~= st.symbols);
    }
}

proof fn lemma_components(
    plan: ScanPlan,
    image: Image,
    lanes: Seq<LaneModel>,
    mcu: nat,
    comp: nat,
    q: int,
    st: WalkState,
)
    requires
        planned(plan, image, lanes),
        mcu < plan.mcus,
        comp <= plan.blocks.len(),
        plan.components_stand(image, mcu, comp, st.pos, q),
    ensures
        components_emitted(plan.src, lanes, mcu as u32, comp, st) == emitted(
            st,
            components_symbols(plan, image, mcu, comp),
            q,
        ),
    decreases plan.blocks.len() - comp,
{
    let want = components_symbols(plan, image, mcu, comp);
    if comp < plan.blocks.len() {
        let m = choose|m: int| #[trigger]
            plan.blocks_stand(image, mcu, comp, 0, st.pos, m) && plan.components_stand(
                image,
                mcu,
                comp + 1,
                m,
                q,
            );
        lemma_blocks(plan, image, lanes, mcu, comp, 0, m, st);
        let next = WalkState {
            pos: m,
            symbols: st.symbols + blocks_symbols(plan, image, mcu, comp, 0),
        };
        lemma_components(plan, image, lanes, mcu, comp + 1, q, next);
        assert(next.symbols + components_symbols(plan, image, mcu, comp + 1) =~= st.symbols + want);
    } else {
        assert(st.symbols + want =~= st.symbols);
    }
}

proof fn lemma_mcus(
    plan: ScanPlan,
    image: Image,
    lanes: Seq<LaneModel>,
    mcu: nat,
    used: nat,
    st: WalkState,
)
    requires
        planned(plan, image, lanes),
        mcu <= plan.mcus,
        plan.mcus_stand(image, mcu, st.pos, used),
    ensures
        mcus_emitted(plan.src, lanes, plan.mcus, mcu, st) matches Ok(end) && end.symbols
            == st.symbols + mcus_symbols(plan, image, mcu),
    decreases plan.mcus - mcu,
{
    let want = mcus_symbols(plan, image, mcu);
    if mcu < plan.mcus {
        let m = choose|m: int| #[trigger]
            plan.components_stand(image, mcu, 0, st.pos, m) && plan.mcus_stand(
                image,
                mcu + 1,
                m,
                used,
            );
        lemma_components(plan, image, lanes, mcu, 0, m, st);
        let next = WalkState {
            pos: m,
            symbols: st.symbols + components_symbols(plan, image, mcu, 0),
        };
        lemma_mcus(plan, image, lanes, mcu + 1, used, next);
        assert(next.symbols + mcus_symbols(plan, image, mcu + 1) =~= st.symbols + want);
    } else {
        assert(st.symbols + want =~= st.symbols);
    }
}

/// The symbols of a coded scan come out: block by block, the category of the
/// difference and then, for each coefficient that is not zero, the run before
/// it and its category.
pub proof fn law_coded_symbols_come_back(prep: JpegPreparedInput, plan: ScanPlan, image: Image)
    requires
        plan.sound(),
        plan.fits(image),
        plan.restart_interval == 0,
        prep.restart_interval == 0,
        prep.first_degenerate(0) is None,
        plan.src == prep.bitstream.stream_bytes(),
        plan.mcus == prep.num_mcus(),
        plan.blocks.len() == prep.components@.len(),
        forall|c: int|
            0 <= c < plan.blocks.len() ==> {
                &&& #[trigger] plan.blocks[c] == prep.mcu_blocks(c)
                &&& prep.dc_table(c) == plan.dc[c].table()
                &&& prep.ac_table(c) == plan.ac[c].table()
            },
        forall|c: int, n: int|
            #![trigger image[c][n]]
            0 <= c < image.len() && 0 <= n < image[c].len() ==> block_walkable(image[c][n]),
        plan.mcus_stand(image, 0, 0, 0),
    ensures
        prep.scan_symbols() == Ok::<Seq<u32>, JpegFramingError>(mcus_symbols(plan, image, 0)),
{
    let lanes = prep.lanes();
    assert forall|c: int| 0 <= c < lanes.len() implies {
        &&& (#[trigger] lanes[c]).blocks == plan.blocks[c]
        &&& lanes[c].dc == plan.dc[c].table()
        &&& lanes[c].ac == plan.ac[c].table()
    } by {
        assert(plan.blocks[c] == prep.mcu_blocks(c));
    }
    let st = WalkState { pos: 0, symbols: Seq::empty() };
    lemma_mcus(plan, image, lanes, 0, 0, st);
    assert(st.symbols + mcus_symbols(plan, image, 0) =~= mcus_symbols(plan, image, 0));
}

} // verus!
