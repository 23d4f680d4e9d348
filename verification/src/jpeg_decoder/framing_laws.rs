//! What holds of every emitted symbol stream.

use super::jpeg_framing::{
    ac_emitted, block_emitted, blocks_emitted, components_emitted, dc_emitted, mcus_emitted,
    LaneModel, WalkState,
};
use super::prepared::JpegPreparedInput;
use crate::jpeg::canonical::CanonicalEntry;
use crate::jpeg::dc_chain::{
    ac_skipped, block_walked, blocks_walked, components_walked, dc_delta, mcus_walked, restarted,
    ChainModel, ChainState, DcChainError, StepModel,
};
use crate::jpeg::entropy::{code_at, CodeRead};
use vstd::prelude::*;

verus! {

/// Between `low` and `high` symbols were added, all of them bytes, and the
/// earlier ones stand.
pub open spec fn extends_by(old_st: WalkState, new_st: WalkState, low: int, high: int) -> bool {
    let n = old_st.symbols.len();
    &&& n + low <= new_st.symbols.len() <= n + high
    &&& new_st.symbols.take(n as int) == old_st.symbols
    &&& forall|i: int| n <= i < new_st.symbols.len() ==> #[trigger] new_st.symbols[i] <= 0xFF
}

proof fn lemma_extends_trans(
    a: WalkState,
    b: WalkState,
    c: WalkState,
    l1: int,
    h1: int,
    l2: int,
    h2: int,
)
    requires
        extends_by(a, b, l1, h1),
        extends_by(b, c, l2, h2),
        0 <= l1,
        0 <= l2,
    ensures
        extends_by(a, c, l1 + l2, h1 + h2),
{
    let n = a.symbols.len();
    let m = b.symbols.len();
    assert(c.symbols.take(m as int).take(n as int) =~= c.symbols.take(n as int));
    assert forall|i: int| n <= i < c.symbols.len() implies #[trigger] c.symbols[i] <= 0xFF by {
        if i < m {
            assert(c.symbols.take(m as int)[i] == b.symbols[i]);
        }
    }
}

/// From slot `slot` on, a block has at least one symbol and at most one for
/// each slot left.
pub proof fn lemma_ac_extends(
    src: Seq<u8>,
    table: Seq<CanonicalEntry>,
    slot: nat,
    st: WalkState,
    mcu: u32,
    comp: u8,
)
    requires
        slot <= 64,
    ensures
        ac_emitted(src, table, slot, st, mcu, comp) matches Ok(end) ==> extends_by(
            st,
            end,
            if slot < 64 {
                1int
            } else {
                0int
            },
            64 - slot,
        ),
    decreases 64 - slot,
{
    if slot >= 64 {
        assert(st.symbols.take(st.symbols.len() as int) =~= st.symbols);
    } else if let CodeRead::Code(e) = code_at(src, st.pos, table) {
        let p = st.pos + e.num_bits;
        let out = st.symbols.push(e.symbol as u32);
        let size = e.symbol % 16;
        let next = slot + e.symbol as nat / 16 + 1;
        let one = WalkState { pos: p, symbols: out };
        assert(out.take(st.symbols.len() as int) =~= st.symbols);
        assert(extends_by(st, one, 1, 1));
        if e.symbol == 0x00 {
        } else if e.symbol == 0xF0 {
            if slot + 16 <= 64 {
                lemma_ac_extends(src, table, slot + 16, one, mcu, comp);
                if let Ok(end) = ac_emitted(src, table, slot + 16, one, mcu, comp) {
                    lemma_extends_trans(
                        st,
                        one,
                        end,
                        1,
                        1,
                        if slot + 16 < 64 {
                            1
                        } else {
                            0
                        },
                        64 - (slot + 16),
                    );
                }
            }
        } else if size <= 10 && next <= 64 && p + size <= 8 * src.len() {
            let two = WalkState { pos: p + size, symbols: out };
            assert(extends_by(st, two, 1, 1));
            lemma_ac_extends(src, table, next, two, mcu, comp);
            if let Ok(end) = ac_emitted(src, table, next, two, mcu, comp) {
                lemma_extends_trans(
                    st,
                    two,
                    end,
                    1,
                    1,
                    if next < 64 {
                        1
                    } else {
                        0
                    },
                    64 - next,
                );
            }
        }
    }
}

/// A block has a DC symbol and at least one AC symbol.
pub proof fn lemma_block_extends(
    src: Seq<u8>,
    lanes: Seq<LaneModel>,
    mcu: u32,
    comp: nat,
    st: WalkState,
)
    ensures
        block_emitted(src, lanes, mcu, comp, st) matches Ok(end) ==> extends_by(st, end, 2, 64),
{
    if let Ok(mid) = dc_emitted(src, lanes[comp as int].dc, st, mcu, comp as u8) {
        assert(mid.symbols.take(st.symbols.len() as int) =~= st.symbols);
        assert(extends_by(st, mid, 1, 1));
        lemma_ac_extends(src, lanes[comp as int].ac, 1, mid, mcu, comp as u8);
        if let Ok(end) = ac_emitted(src, lanes[comp as int].ac, 1, mid, mcu, comp as u8) {
            lemma_extends_trans(st, mid, end, 1, 1, 1, 63);
        }
    }
}

proof fn lemma_same(st: WalkState)
    ensures
        extends_by(st, st, 0, 0),
{
    assert(st.symbols.take(st.symbols.len() as int) =~= st.symbols);
}

/// The same for the blocks of a component, from block `k` on.
pub proof fn lemma_blocks_extend(
    src: Seq<u8>,
    lanes: Seq<LaneModel>,
    mcu: u32,
    comp: nat,
    k: nat,
    st: WalkState,
)
    requires
        k <= lanes[comp as int].blocks,
    ensures
        blocks_emitted(src, lanes, mcu, comp, k, st) matches Ok(end) ==> extends_by(
            st,
            end,
            2 * (lanes[comp as int].blocks - k),
            64 * (lanes[comp as int].blocks - k),
        ),
    decreases lanes[comp as int].blocks - k,
{
    lemma_same(st);
    if k < lanes[comp as int].blocks {
        lemma_block_extends(src, lanes, mcu, comp, st);
        if let Ok(next) = block_emitted(src, lanes, mcu, comp, st) {
            lemma_blocks_extend(src, lanes, mcu, comp, k + 1, next);
            if let Ok(end) = blocks_emitted(src, lanes, mcu, comp, k + 1, next) {
                let left = lanes[comp as int].blocks - (k + 1);
                lemma_extends_trans(st, next, end, 2, 64, 2 * left, 64 * left);
            }
        }
    }
}

/// Blocks of components `comp` and up of one MCU.
pub open spec fn lane_blocks(lanes: Seq<LaneModel>, comp: nat) -> nat
    decreases lanes.len() - comp,
{
    if comp >= lanes.len() {
        0
    } else {
        lanes[comp as int].blocks + lane_blocks(lanes, comp + 1)
    }
}

/// The same for the components of an MCU, from `comp` on.
pub proof fn lemma_components_extend(
    src: Seq<u8>,
    lanes: Seq<LaneModel>,
    mcu: u32,
    comp: nat,
    st: WalkState,
)
    ensures
        components_emitted(src, lanes, mcu, comp, st) matches Ok(end) ==> extends_by(
            st,
            end,
            2 * lane_blocks(lanes, comp) as int,
            64 * lane_blocks(lanes, comp) as int,
        ),
    decreases lanes.len() - comp,
{
    lemma_same(st);
    if comp < lanes.len() {
        lemma_blocks_extend(src, lanes, mcu, comp, 0, st);
        if let Ok(next) = blocks_emitted(src, lanes, mcu, comp, 0, st) {
            lemma_components_extend(src, lanes, mcu, comp + 1, next);
            if let Ok(end) = components_emitted(src, lanes, mcu, comp + 1, next) {
                let here = lanes[comp as int].blocks as int;
                let rest = lane_blocks(lanes, comp + 1) as int;
                lemma_extends_trans(st, next, end, 2 * here, 64 * here, 2 * rest, 64 * rest);
            }
        }
    }
}

/// The same for the MCUs of a scan, from `mcu` on.
pub proof fn lemma_mcus_extend(
    src: Seq<u8>,
    lanes: Seq<LaneModel>,
    mcus: nat,
    mcu: nat,
    st: WalkState,
)
    requires
        mcu <= mcus,
    ensures
        mcus_emitted(src, lanes, mcus, mcu, st) matches Ok(end) ==> extends_by(
            st,
            end,
            2 * ((mcus - mcu) * lane_blocks(lanes, 0)),
            64 * ((mcus - mcu) * lane_blocks(lanes, 0)),
        ),
    decreases mcus - mcu,
{
    let per = lane_blocks(lanes, 0) as int;
    lemma_same(st);
    if mcu < mcus {
        lemma_components_extend(src, lanes, mcu as u32, 0, st);
        if let Ok(next) = components_emitted(src, lanes, mcu as u32, 0, st) {
            lemma_mcus_extend(src, lanes, mcus, mcu + 1, next);
            if let Ok(end) = mcus_emitted(src, lanes, mcus, mcu + 1, next) {
                let left = (mcus - (mcu + 1)) * per;
                assert(left >= 0) by (nonlinear_arith)
                    requires
                        left == (mcus - (mcu + 1)) * per,
                        mcu < mcus,
                        per >= 0,
                ;
                lemma_extends_trans(st, next, end, 2 * per, 64 * per, 2 * left, 64 * left);
                assert((mcus - mcu) * per == per + left) by (nonlinear_arith)
                    requires
                        left == (mcus - (mcu + 1)) * per,
                ;
            }
        }
    } else {
        assert((mcus - mcu) * per == 0) by (nonlinear_arith)
            requires
                mcus == mcu,
        ;
    }
}

/// Every emitted symbol is a byte, and a scan of `n` blocks emits between
/// two and 64 symbols for each of them.
pub proof fn law_scan_symbols_are_bytes(prep: JpegPreparedInput)
    ensures
        prep.scan_symbols() matches Ok(s) ==> {
            let blocks = prep.num_mcus() * lane_blocks(prep.lanes(), 0);
            &&& 2 * blocks <= s.len() <= 64 * blocks
            &&& forall|i: int| 0 <= i < s.len() ==> #[trigger] s[i] <= 0xFF
        },
{
    lemma_mcus_extend(
        prep.bitstream.stream_bytes(),
        prep.lanes(),
        prep.num_mcus(),
        0,
        WalkState { pos: 0, symbols: Seq::empty() },
    );
}

/// Where the symbol walker gets through a block's AC codes, the DC walker
/// skips to the same bit.
proof fn lemma_ac_agrees(
    src: Seq<u8>,
    table: Seq<CanonicalEntry>,
    slot: nat,
    st: WalkState,
    mcu: u32,
    comp: u8,
)
    requires
        ac_emitted(src, table, slot, st, mcu, comp) is Ok,
    ensures
        ac_skipped(src, st.pos, table, slot, mcu, comp) == Ok::<int, DcChainError>(
            ac_emitted(src, table, slot, st, mcu, comp)->Ok_0.pos,
        ),
    decreases 64 - slot,
{
    if slot < 64 {
        if let CodeRead::Code(e) = code_at(src, st.pos, table) {
            let p = st.pos + e.num_bits;
            let out = st.symbols.push(e.symbol as u32);
            let size = e.symbol % 16;
            let next = slot + e.symbol as nat / 16 + 1;
            if e.symbol == 0x00 {
            } else if e.symbol == 0xF0 {
                lemma_ac_agrees(
                    src,
                    table,
                    slot + 16,
                    WalkState { pos: p, symbols: out },
                    mcu,
                    comp,
                );
            } else {
                lemma_ac_agrees(
                    src,
                    table,
                    next,
                    WalkState { pos: p + size, symbols: out },
                    mcu,
                    comp,
                );
            }
        }
    }
}

/// The lanes of a symbol walk as the steps of a DC walk.
pub open spec fn steps_of(lanes: Seq<LaneModel>) -> Seq<StepModel> {
    Seq::new(
        lanes.len(),
        |k: int| StepModel { blocks: lanes[k].blocks, dc: lanes[k].dc, ac: lanes[k].ac },
    )
}

proof fn lemma_blocks_agree(
    c: ChainModel,
    lanes: Seq<LaneModel>,
    mcu: u32,
    comp: nat,
    k: nat,
    st: WalkState,
    dc: ChainState,
)
    requires
        c.steps == steps_of(lanes),
        comp < lanes.len(),
        k <= lanes[comp as int].blocks,
        dc.pos == st.pos,
        blocks_emitted(c.src, lanes, mcu, comp, k, st) is Ok,
    ensures
        blocks_walked(c, mcu, comp, k, dc) is Ok,
        blocks_walked(c, mcu, comp, k, dc)->Ok_0.pos == blocks_emitted(
            c.src,
            lanes,
            mcu,
            comp,
            k,
            st,
        )->Ok_0.pos,
    decreases lanes[comp as int].blocks - k,
{
    if k < lanes[comp as int].blocks {
        let mid = dc_emitted(c.src, lanes[comp as int].dc, st, mcu, comp as u8)->Ok_0;
        lemma_ac_agrees(c.src, lanes[comp as int].ac, 1, mid, mcu, comp as u8);
        let next = block_emitted(c.src, lanes, mcu, comp, st)->Ok_0;
        assert(dc_delta(c.src, dc.pos, c.steps[comp as int].dc, mcu, comp as u8) is Ok);
        let dc_next = block_walked(c, mcu, comp, dc)->Ok_0;
        lemma_blocks_agree(c, lanes, mcu, comp, k + 1, next, dc_next);
    }
}

proof fn lemma_components_agree(
    c: ChainModel,
    lanes: Seq<LaneModel>,
    mcu: u32,
    comp: nat,
    st: WalkState,
    dc: ChainState,
)
    requires
        c.steps == steps_of(lanes),
        comp <= lanes.len(),
        dc.pos == st.pos,
        components_emitted(c.src, lanes, mcu, comp, st) is Ok,
    ensures
        components_walked(c, mcu, comp, dc) is Ok,
        components_walked(c, mcu, comp, dc)->Ok_0.pos == components_emitted(
            c.src,
            lanes,
            mcu,
            comp,
            st,
        )->Ok_0.pos,
    decreases lanes.len() - comp,
{
    if comp < lanes.len() {
        lemma_blocks_agree(c, lanes, mcu, comp, 0, st, dc);
        let next = blocks_emitted(c.src, lanes, mcu, comp, 0, st)->Ok_0;
        let dc_next = blocks_walked(c, mcu, comp, 0, dc)->Ok_0;
        lemma_components_agree(c, lanes, mcu, comp + 1, next, dc_next);
    }
}

/// The symbol walker and the DC walker read a scan alike: where the symbol
/// walk from an MCU on succeeds, the DC walk over the same tables succeeds
/// too, and both end on the same bit.
pub proof fn law_walkers_agree(
    c: ChainModel,
    lanes: Seq<LaneModel>,
    mcu: nat,
    st: WalkState,
    dc: ChainState,
)
    requires
        c.steps == steps_of(lanes),
        c.restart_interval == 0,
        mcu <= c.mcus,
        dc.pos == st.pos,
        mcus_emitted(c.src, lanes, c.mcus, mcu, st) is Ok,
    ensures
        mcus_walked(c, mcu, dc) is Ok,
        mcus_walked(c, mcu, dc)->Ok_0.pos == mcus_emitted(
            c.src,
            lanes,
            c.mcus,
            mcu,
            st,
        )->Ok_0.pos,
    decreases c.mcus - mcu,
{
    if mcu < c.mcus {
        assert(restarted(c, mcu, dc) == dc);
        lemma_components_agree(c, lanes, mcu as u32, 0, st, dc);
        let next = components_emitted(c.src, lanes, mcu as u32, 0, st)->Ok_0;
        let dc_next = components_walked(c, mcu as u32, 0, dc)->Ok_0;
        law_walkers_agree(c, lanes, mcu + 1, next, dc_next);
    }
}

} // verus!
