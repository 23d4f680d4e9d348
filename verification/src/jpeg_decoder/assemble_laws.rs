//! The two ways to coefficients agree.

use super::assemble::{ac_assembled, code_bits, dc_stepped, with_dc, SymbolState};
use super::coefficients::{
    ac_extracted, block_base, dc_passed, dc_placed, CoefState, CoefficientError,
};
use super::jpeg_framing::{
    ac_emitted, block_emitted, blocks_emitted, components_emitted, dc_emitted, mcus_emitted,
    LaneModel, WalkState,
};
use super::framing_laws::{
    lane_blocks, lemma_ac_extends, lemma_blocks_extend, lemma_components_extend, lemma_mcus_extend,
};
use super::prepared::JpegPreparedInput;
use crate::bits::{bits, lemma_bits_bound};
use crate::jpeg::canonical::{table_wf, CanonicalEntry};
use crate::jpeg::entropy::code_at;
use vstd::arithmetic::power2::*;
use vstd::prelude::*;

verus! {

proof fn lemma_ac_len(
    src: Seq<u8>,
    pos: int,
    table: Seq<CanonicalEntry>,
    symbols: Seq<u32>,
    used: nat,
    zz: nat,
    base: nat,
    coef: Seq<i32>,
    mcu: u32,
    comp: usize,
)
    ensures
        ac_assembled(src, pos, table, symbols, used, zz, base, coef, mcu, comp) matches Ok(r)
            ==> r.2.len() == coef.len(),
    decreases 80 - zz,
{
    if zz < 64 && used < symbols.len() {
        let symbol = (symbols[used as int] % 256) as u8;
        let width = code_bits(table, symbol);
        let p = pos + width;
        let at = zz + symbol as nat / 16;
        let size = (symbol % 16) as nat;
        if symbol == 0xF0 {
            lemma_ac_len(src, p, table, symbols, used + 1, zz + 16, base, coef, mcu, comp);
        } else if at < 64 && base + at < coef.len() {
            let v = crate::jpeg::entropy::extended(bits(src, p, size) as int, size) as i32;
            lemma_ac_len(
                src,
                p + size,
                table,
                symbols,
                used + 1,
                at + 1,
                base,
                coef.update((base + at) as int, v),
                mcu,
                comp,
            );
        }
    }
}

proof fn lemma_blocks_len(
    prep: JpegPreparedInput,
    symbols: Seq<u32>,
    mcu: u32,
    comp: nat,
    k: nat,
    st: SymbolState,
)
    ensures
        prep.blocks_assembled(symbols, mcu, comp, k, st) matches Ok(end) ==> end.coef.len()
            == st.coef.len(),
    decreases prep.mcu_blocks(comp as int) - k,
{
    if k < prep.mcu_blocks(comp as int) {
        if let Ok(next) = prep.block_assembled(symbols, mcu, comp, st) {
            let src = prep.bitstream.stream_bytes();
            let p = dc_stepped(
                src,
                st.pos,
                prep.dc_table(comp as int),
                symbols,
                st.used,
                mcu,
                comp as usize,
            )->Ok_0;
            lemma_ac_len(
                src,
                p,
                prep.ac_table(comp as int),
                symbols,
                st.used + 1,
                1,
                block_base(comp, prep.blocks_per_comp(), st.counts[comp as int]),
                st.coef,
                mcu,
                comp as usize,
            );
            lemma_blocks_len(prep, symbols, mcu, comp, k + 1, next);
        }
    }
}

proof fn lemma_components_len(
    prep: JpegPreparedInput,
    symbols: Seq<u32>,
    mcu: u32,
    comp: nat,
    st: SymbolState,
)
    ensures
        prep.components_assembled(symbols, mcu, comp, st) matches Ok(end) ==> end.coef.len()
            == st.coef.len(),
    decreases prep.components@.len() - comp,
{
    if comp < prep.components@.len() {
        lemma_blocks_len(prep, symbols, mcu, comp, 0, st);
        if let Ok(next) = prep.blocks_assembled(symbols, mcu, comp, 0, st) {
            lemma_components_len(prep, symbols, mcu, comp + 1, next);
        }
    }
}

/// Assembly keeps the size of the coefficient array.
pub proof fn lemma_assembly_len(
    prep: JpegPreparedInput,
    symbols: Seq<u32>,
    mcu: nat,
    st: SymbolState,
)
    ensures
        prep.mcus_assembled(symbols, mcu, st) matches Ok(end) ==> end.coef.len()
            == st.coef.len(),
    decreases prep.num_mcus() - mcu,
{
    if mcu < prep.num_mcus() {
        lemma_components_len(prep, symbols, mcu as u32, 0, st);
        if let Ok(next) = prep.components_assembled(symbols, mcu as u32, 0, st) {
            lemma_assembly_len(prep, symbols, mcu + 1, next);
        }
    }
}

proof fn lemma_dc_placed_len(
    rows: Seq<Seq<i32>>,
    blocks_per_comp: nat,
    comp: nat,
    block: nat,
    flat: Seq<i32>,
)
    ensures
        dc_placed(rows, blocks_per_comp, comp, block, flat) matches Ok(s) ==> s.len()
            == flat.len(),
    decreases rows.len() - comp, rows[comp as int].len() - block,
{
    if comp < rows.len() {
        if block >= rows[comp as int].len() {
            lemma_dc_placed_len(rows, blocks_per_comp, comp + 1, 0, flat);
        } else {
            let index = comp * blocks_per_comp + block;
            if index < flat.len() {
                lemma_dc_placed_len(
                    rows,
                    blocks_per_comp,
                    comp,
                    block + 1,
                    flat.update(index as int, rows[comp as int][block as int]),
                );
            }
        }
    }
}

/// The DC array has one slot for each block of each component.
pub proof fn lemma_dc_len(prep: JpegPreparedInput)
    ensures
        prep.dc_flat() matches Ok(d) ==> d.len() == prep.components@.len()
            * prep.blocks_per_comp(),
{
    let n = prep.components@.len();
    let rows = prep.dc_values@;
    lemma_dc_placed_len(
        if rows.len() <= n {
            rows
        } else {
            rows.take(n as int)
        },
        prep.blocks_per_comp(),
        0,
        0,
        Seq::new(n * prep.blocks_per_comp(), |i: int| 0i32),
    );
}

/// A table in which every symbol has a single code.
pub open spec fn one_code_each(table: Seq<CanonicalEntry>) -> bool {
    &&& table_wf(table)
    &&& forall|i: int|
        0 <= i < table.len() && (#[trigger] table[i]).num_bits > 0 ==> code_bits(
            table,
            table[i].symbol,
        ) == table[i].num_bits
}

/// `all` begins with what `st` has emitted.
spec fn begins(all: Seq<u32>, st: WalkState) -> bool {
    st.symbols.len() <= all.len() && all.take(st.symbols.len() as int) == st.symbols
}

proof fn lemma_begins_earlier(all: Seq<u32>, early: WalkState, late: WalkState)
    requires
        begins(all, late),
        early.symbols.len() <= late.symbols.len(),
        late.symbols.take(early.symbols.len() as int) == early.symbols,
    ensures
        begins(all, early),
{
    assert(all.take(early.symbols.len() as int) =~= all.take(late.symbols.len() as int).take(
        early.symbols.len() as int,
    ));
}

/// Both walks over a block's AC codes give the same coefficients.
proof fn lemma_ac_same(
    src: Seq<u8>,
    table: Seq<CanonicalEntry>,
    slot: nat,
    st: WalkState,
    all: Seq<u32>,
    base: nat,
    coef: Seq<i32>,
    mcu: u32,
    comp: u8,
)
    requires
        slot <= 64,
        one_code_each(table),
        ac_emitted(src, table, slot, st, mcu, comp) is Ok,
        begins(all, ac_emitted(src, table, slot, st, mcu, comp)->Ok_0),
    ensures
        ({
            let end = ac_emitted(src, table, slot, st, mcu, comp)->Ok_0;
            let direct = ac_extracted(
                src,
                st.pos,
                table,
                slot,
                base,
                coef,
                mcu,
                comp as usize,
            );
            match ac_assembled(
                src,
                st.pos,
                table,
                all,
                st.symbols.len(),
                slot,
                base,
                coef,
                mcu,
                comp as usize,
            ) {
                Ok((p, u, c)) => p == end.pos && u == end.symbols.len() && direct == Ok::<
                    (int, Seq<i32>),
                    CoefficientError,
                >((p, c)),
                Err(e) => direct == Err::<(int, Seq<i32>), CoefficientError>(e),
            }
        }),
    decreases 64 - slot,
{
    if slot < 64 {
        let e = code_at(src, st.pos, table)->Code_0;
        let x = bits(src, st.pos, 16) as int;
        lemma_bits_bound(src, st.pos, 16);
        lemma2_to64();
        assert(table[x] == e);
        let end = ac_emitted(src, table, slot, st, mcu, comp)->Ok_0;
        let p = st.pos + e.num_bits;
        let out = st.symbols.push(e.symbol as u32);
        let size = e.symbol % 16;
        let next = slot + e.symbol as nat / 16 + 1;
        let n = st.symbols.len() as int;
        if e.symbol == 0x00 {
            assert(all.take(n + 1)[n] == out[n]);
        } else if e.symbol == 0xF0 {
            let mid = WalkState { pos: p, symbols: out };
            lemma_ac_extends(src, table, slot + 16, mid, mcu, comp);
            lemma_begins_earlier(all, mid, end);
            assert(all.take(n + 1)[n] == out[n]);
            lemma_ac_same(src, table, slot + 16, mid, all, base, coef, mcu, comp);
        } else {
            let mid = WalkState { pos: p + size, symbols: out };
            lemma_ac_extends(src, table, next, mid, mcu, comp);
            lemma_begins_earlier(all, mid, end);
            assert(all.take(n + 1)[n] == out[n]);
            let at = slot + e.symbol as nat / 16;
            let v = crate::jpeg::entropy::extended(
                bits(src, p, size as nat) as int,
                size as nat,
            ) as i32;
            if base + at < coef.len() {
                lemma_ac_same(
                    src,
                    table,
                    next,
                    mid,
                    all,
                    base,
                    coef.update((base + at) as int, v),
                    mcu,
                    comp,
                );
            }
        }
    }
}

/// The two walks stand at the same place.
spec fn abreast(a: SymbolState, d: CoefState, w: WalkState) -> bool {
    &&& a.pos == d.pos == w.pos
    &&& a.coef == d.coef
    &&& a.counts == d.counts
    &&& a.used == w.symbols.len()
}

/// Both walks came to the same end.
spec fn same_end(
    a: Result<SymbolState, CoefficientError>,
    d: Result<CoefState, CoefficientError>,
    w: WalkState,
) -> bool {
    match (a, d) {
        (Ok(x), Ok(y)) => abreast(x, y, w),
        (Err(e), Err(f)) => e == f,
        _ => false,
    }
}

spec fn tables_single(prep: JpegPreparedInput) -> bool {
    forall|k: int|
        0 <= k < prep.components@.len() ==> one_code_each(#[trigger] prep.dc_table(k))
            && one_code_each(prep.ac_table(k))
}

proof fn lemma_blocks_same(
    prep: JpegPreparedInput,
    mcu: u32,
    comp: nat,
    k: nat,
    all: Seq<u32>,
    a: SymbolState,
    d: CoefState,
    w: WalkState,
)
    requires
        comp < prep.components@.len() <= 4,
        k <= prep.mcu_blocks(comp as int),
        tables_single(prep),
        abreast(a, d, w),
        blocks_emitted(
            prep.bitstream.stream_bytes(),
            prep.lanes(),
            mcu,
            comp,
            k,
            w,
        ) is Ok,
        begins(
            all,
            blocks_emitted(prep.bitstream.stream_bytes(), prep.lanes(), mcu, comp, k, w)->Ok_0,
        ),
    ensures
        same_end(
            prep.blocks_assembled(all, mcu, comp, k, a),
            prep.blocks_extracted(
                prep.dc_table(comp as int),
                prep.ac_table(comp as int),
                mcu,
                comp,
                k,
                d,
            ),
            blocks_emitted(prep.bitstream.stream_bytes(), prep.lanes(), mcu, comp, k, w)->Ok_0,
        ),
    decreases prep.mcu_blocks(comp as int) - k,
{
    let src = prep.bitstream.stream_bytes();
    let lanes = prep.lanes();
    let dc = prep.dc_table(comp as int);
    let ac = prep.ac_table(comp as int);
    let end = blocks_emitted(src, lanes, mcu, comp, k, w)->Ok_0;
    assert(lanes[comp as int].blocks == prep.mcu_blocks(comp as int));
    assert(one_code_each(dc) && one_code_each(ac));
    if k < prep.mcu_blocks(comp as int) {
        let next = block_emitted(src, lanes, mcu, comp, w)->Ok_0;
        let mid = dc_emitted(src, dc, w, mcu, comp as u8)->Ok_0;
        lemma_blocks_extend(src, lanes, mcu, comp, k + 1, next);
        lemma_begins_earlier(all, next, end);
        lemma_ac_extends(src, ac, 1, mid, mcu, comp as u8);
        lemma_begins_earlier(all, mid, next);
        // The DC code.
        let e = code_at(src, w.pos, dc)->Code_0;
        lemma_bits_bound(src, w.pos, 16);
        lemma2_to64();
        let x = bits(src, w.pos, 16) as int;
        assert(dc[x] == e);
        let n = w.symbols.len() as int;
        assert(all.take(n + 1)[n] == mid.symbols[n]);
        assert(dc_stepped(src, w.pos, dc, all, w.symbols.len(), mcu, comp as usize) == Ok::<
            int,
            CoefficientError,
        >(mid.pos));
        assert(dc_passed(src, w.pos, dc, mcu, comp as usize) == Ok::<int, CoefficientError>(
            mid.pos,
        ));
        // The AC codes.
        let base = block_base(comp, prep.blocks_per_comp(), a.counts[comp as int]);
        lemma_ac_same(src, ac, 1, mid, all, base, a.coef, mcu, comp as u8);
        match prep.block_assembled(all, mcu, comp, a) {
            Ok(a2) => {
                let d2 = prep.block_extracted(dc, ac, mcu, comp, d)->Ok_0;
                lemma_blocks_same(prep, mcu, comp, k + 1, all, a2, d2, next);
            },
            Err(_) => {},
        }
    }
}

proof fn lemma_components_same(
    prep: JpegPreparedInput,
    mcu: u32,
    comp: nat,
    all: Seq<u32>,
    a: SymbolState,
    d: CoefState,
    w: WalkState,
)
    requires
        comp <= prep.components@.len() <= 4,
        prep.tables_present(),
        tables_single(prep),
        abreast(a, d, w),
        components_emitted(prep.bitstream.stream_bytes(), prep.lanes(), mcu, comp, w) is Ok,
        begins(
            all,
            components_emitted(prep.bitstream.stream_bytes(), prep.lanes(), mcu, comp, w)->Ok_0,
        ),
    ensures
        same_end(
            prep.components_assembled(all, mcu, comp, a),
            prep.components_extracted(mcu, comp, d),
            components_emitted(prep.bitstream.stream_bytes(), prep.lanes(), mcu, comp, w)->Ok_0,
        ),
    decreases prep.components@.len() - comp,
{
    let src = prep.bitstream.stream_bytes();
    let lanes = prep.lanes();
    if comp < prep.components@.len() {
        let end = components_emitted(src, lanes, mcu, comp, w)->Ok_0;
        let next = blocks_emitted(src, lanes, mcu, comp, 0, w)->Ok_0;
        lemma_components_extend(src, lanes, mcu, comp + 1, next);
        lemma_begins_earlier(all, next, end);
        lemma_blocks_same(prep, mcu, comp, 0, all, a, d, w);
        assert(prep.dc_selectors@[comp as int] < 4);
        assert(prep.ac_selectors@[comp as int] < 4);
        assert(prep.tables_for(comp as int) == Ok::<
            (Seq<CanonicalEntry>, Seq<CanonicalEntry>),
            CoefficientError,
        >((prep.dc_table(comp as int), prep.ac_table(comp as int))));
        match prep.blocks_assembled(all, mcu, comp, 0, a) {
            Ok(a2) => {
                let d2 = prep.blocks_extracted(
                    prep.dc_table(comp as int),
                    prep.ac_table(comp as int),
                    mcu,
                    comp,
                    0,
                    d,
                )->Ok_0;
                lemma_components_same(prep, mcu, comp + 1, all, a2, d2, next);
            },
            Err(_) => {},
        }
    }
}

proof fn lemma_mcus_same(
    prep: JpegPreparedInput,
    mcu: nat,
    all: Seq<u32>,
    a: SymbolState,
    d: CoefState,
    w: WalkState,
)
    requires
        mcu <= prep.num_mcus(),
        prep.components@.len() <= 4,
        prep.tables_present(),
        tables_single(prep),
        abreast(a, d, w),
        mcus_emitted(
            prep.bitstream.stream_bytes(),
            prep.lanes(),
            prep.num_mcus(),
            mcu,
            w,
        ) is Ok,
        begins(
            all,
            mcus_emitted(
                prep.bitstream.stream_bytes(),
                prep.lanes(),
                prep.num_mcus(),
                mcu,
                w,
            )->Ok_0,
        ),
    ensures
        same_end(
            prep.mcus_assembled(all, mcu, a),
            prep.mcus_extracted(mcu, d),
            mcus_emitted(
                prep.bitstream.stream_bytes(),
                prep.lanes(),
                prep.num_mcus(),
                mcu,
                w,
            )->Ok_0,
        ),
    decreases prep.num_mcus() - mcu,
{
    let src = prep.bitstream.stream_bytes();
    let lanes = prep.lanes();
    if mcu < prep.num_mcus() {
        let end = mcus_emitted(src, lanes, prep.num_mcus(), mcu, w)->Ok_0;
        let next = components_emitted(src, lanes, mcu as u32, 0, w)->Ok_0;
        lemma_mcus_extend(src, lanes, prep.num_mcus(), mcu + 1, next);
        lemma_begins_later_bound(lanes, prep.num_mcus(), mcu + 1);
        lemma_begins_earlier(all, next, end);
        lemma_components_same(prep, mcu as u32, 0, all, a, d, w);
        match prep.components_assembled(all, mcu as u32, 0, a) {
            Ok(a2) => {
                let d2 = prep.components_extracted(mcu as u32, 0, d)->Ok_0;
                lemma_mcus_same(prep, mcu + 1, all, a2, d2, next);
            },
            Err(_) => {},
        }
    }
}

proof fn lemma_begins_later_bound(lanes: Seq<LaneModel>, mcus: nat, mcu: nat)
    requires
        mcu <= mcus,
    ensures
        2 * ((mcus - mcu) * lane_blocks(lanes, 0)) >= 0,
{
    assert((mcus - mcu) * lane_blocks(lanes, 0) >= 0) by (nonlinear_arith)
        requires
            mcu <= mcus,
    ;
}

/// The symbol path and the direct path give the same image: on the symbol
/// stream that the scan decodes to, assembly finds the AC coefficients and
/// DC values that direct extraction finds, or both report the same error.
/// The scan's tables have one code for each symbol, as the format demands.
pub proof fn law_symbol_path_equals_direct_path(prep: JpegPreparedInput)
    requires
        prep.components@.len() <= 4,
        prep.tables_present(),
        forall|k: int|
            0 <= k < prep.components@.len() ==> one_code_each(#[trigger] prep.dc_table(k))
                && one_code_each(prep.ac_table(k)),
        prep.scan_symbols() is Ok,
        prep.first_undefined_slot(0) is None,
    ensures
        match (prep.assembly(prep.scan_symbols()->Ok_0), prep.extraction()) {
            (Ok((coef, dc)), Ok((direct, direct_dc, _, _))) => dc == direct_dc && coef == with_dc(
                direct,
                dc,
            ),
            (Err(e), Err(f)) => e == f,
            _ => false,
        },
{
    let all = prep.scan_symbols()->Ok_0;
    let w = WalkState { pos: 0, symbols: Seq::empty() };
    let end = mcus_emitted(
        prep.bitstream.stream_bytes(),
        prep.lanes(),
        prep.num_mcus(),
        0,
        w,
    )->Ok_0;
    assert(all.take(end.symbols.len() as int) =~= end.symbols);
    lemma_mcus_same(prep, 0, all, prep.blank_symbols(), prep.blank_coefs(), w);
}

} // verus!
