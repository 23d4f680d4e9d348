//! Coefficient extraction on the CPU.

use super::coefficients::{
    ac_extracted, block_base, dc_passed, dc_placed, entry_at, CoefState, CoefficientError,
};
use super::prepared::JpegPreparedInput;
use crate::bits::{bits, lemma_bits_bound};
use crate::jpeg::bitreader::BitReader;
use crate::jpeg::canonical::{CanonicalCodebook, CanonicalEntry};
use crate::jpeg::dc_chain::DcValues;
use crate::jpeg::entropy::{extend, extended};
use crate::jpeg::geometry::{block_count, mcu_count};
use crate::jpeg::headers::JpegFrameComponent;
use vstd::arithmetic::power2::*;
use vstd::prelude::*;

verus! {

/// A zeroed array of `n` coefficients.
pub fn zeros(n: usize) -> (v: Vec<i32>)
    ensures
        v@ == Seq::new(n as nat, |i: int| 0i32),
{
    let v: Vec<i32> = vec![0; n];
    assert(v@ =~= Seq::new(n as nat, |i: int| 0i32));
    v
}

/// Look up and consume the next codeword.
fn take_entry(reader: &mut BitReader<'_>, book: &CanonicalCodebook) -> (entry: Option<
    CanonicalEntry,
>)
    requires
        old(reader).wf(),
        book.wf(),
    ensures
        final(reader).wf(),
        final(reader).source() == old(reader).source(),
        entry == entry_at(old(reader).source(), old(reader).pos(), book@),
        entry matches Some(e) ==> final(reader).pos() == old(reader).pos() + e.num_bits,
{
    proof {
        reader.lemma_wf();
    }
    match reader.peek_u16() {
        None => None,
        Some(prefix) => {
            let entry = book.lookup(prefix);
            if reader.try_consume(entry.num_bits as usize) {
                Some(entry)
            } else {
                None
            }
        },
    }
}

/// Skip a block's DC code and magnitude.
fn pass_dc(reader: &mut BitReader<'_>, book: &CanonicalCodebook, mcu: u32, comp: usize) -> (r: Result<
    (),
    CoefficientError,
>)
    requires
        old(reader).wf(),
        book.wf(),
    ensures
        final(reader).wf(),
        final(reader).source() == old(reader).source(),
        match dc_passed(old(reader).source(), old(reader).pos(), book@, mcu, comp) {
            Ok(p) => r is Ok && final(reader).pos() == p,
            Err(e) => r matches Err(f) && f == e,
        },
{
    match take_entry(reader, book) {
        None => Err(CoefficientError::EmptyAtDc { mcu, comp }),
        Some(e) => {
            if reader.try_consume(e.symbol as usize) {
                Ok(())
            } else {
                Err(CoefficientError::DcTruncated { mcu, comp, category: e.symbol })
            }
        },
    }
}

/// Read a magnitude of at most 15 bits and sign-extend it.
pub fn read_magnitude(reader: &mut BitReader<'_>, size: u8) -> (value: Option<i32>)
    requires
        old(reader).wf(),
        size <= 15,
    ensures
        final(reader).wf(),
        final(reader).source() == old(reader).source(),
        match value {
            Some(v) => size <= old(reader).remaining() && v == extended(
                bits(old(reader).source(), old(reader).pos(), size as nat) as int,
                size as nat,
            ) && final(reader).pos() == old(reader).pos() + size,
            None => size > old(reader).remaining(),
        },
{
    proof {
        lemma_bits_bound(reader.source(), reader.pos(), size as nat);
        lemma2_to64();
        if size < 15 {
            lemma_pow2_strictly_increases(size as nat, 15);
        }
    }
    match reader.read_bits(size as usize) {
        Some(raw) => Some(extend(raw as i32, size)),
        None => None,
    }
}

/// Write a block's AC coefficients behind `base`.
fn extract_ac(
    reader: &mut BitReader<'_>,
    book: &CanonicalCodebook,
    base: u64,
    coef: &mut Vec<i32>,
    mcu: u32,
    comp: usize,
) -> (r: Result<(), CoefficientError>)
    requires
        old(reader).wf(),
        book.wf(),
        base <= u64::MAX - 64,
    ensures
        final(reader).wf(),
        final(reader).source() == old(reader).source(),
        match ac_extracted(
            old(reader).source(),
            old(reader).pos(),
            book@,
            1,
            base as nat,
            old(coef)@,
            mcu,
            comp,
        ) {
            Ok((p, c)) => r is Ok && final(reader).pos() == p && final(coef)@ == c,
            Err(e) => r matches Err(f) && f == e,
        },
{
    let mut zz: u64 = 1;
    while zz < 64
        invariant
            1 <= zz <= 79,
            base <= u64::MAX - 64,
            reader.wf(),
            book.wf(),
            reader.source() == old(reader).source(),
            ac_extracted(
                old(reader).source(),
                old(reader).pos(),
                book@,
                1,
                base as nat,
                old(coef)@,
                mcu,
                comp,
            ) == ac_extracted(
                reader.source(),
                reader.pos(),
                book@,
                zz as nat,
                base as nat,
                coef@,
                mcu,
                comp,
            ),
        decreases 80 - zz,
    {
        let entry = match take_entry(reader, book) {
            Some(entry) => entry,
            None => {
                return Err(CoefficientError::EmptyAtAc { mcu, comp, zz });
            },
        };
        let symbol: u8 = entry.symbol;
        if symbol == 0x00 {
            return Ok(());
        }
        if symbol == 0xF0 {
            zz = zz + 16;
            continue ;
        }
        let at: u64 = zz + (symbol / 16) as u64;
        if at >= 64 {
            return Ok(());
        }
        let value: i32 = match read_magnitude(reader, symbol % 16) {
            Some(value) => value,
            None => {
                return Err(CoefficientError::AcTruncated { mcu, comp, zz: at });
            },
        };
        if base + at >= coef.len() as u64 {
            return Err(
                CoefficientError::CoefficientOverflow {
                    base,
                    zz: at,
                    len: coef.len() as u64,
                    mcu,
                    comp,
                },
            );
        }
        coef[(base + at) as usize] = value;
        zz = at + 1;
    }
    Ok(())
}

/// Number of 8×8 blocks this component contributes per MCU: one in a
/// single-component scan, `h_sampling × v_sampling` in an interleaved one.
pub fn blocks_permcu_count(scan_components: usize, comp: JpegFrameComponent) -> (n: u32)
    ensures
        n == block_count(
            scan_components as nat,
            comp.h_sampling as nat,
            comp.v_sampling as nat,
        ),
        n <= 65025,
{
    proof {
        assert(comp.h_sampling * comp.v_sampling <= 65025) by (nonlinear_arith)
            requires
                0 <= comp.h_sampling <= 255,
                0 <= comp.v_sampling <= 255,
        ;
        assert(comp.h_sampling * comp.v_sampling >= 0) by (nonlinear_arith)
            requires
                0 <= comp.h_sampling,
                0 <= comp.v_sampling,
        ;
    }
    if scan_components == 1 {
        1
    } else {
        comp.h_sampling as u32 * comp.v_sampling as u32
    }
}

/// Copy DC rows into a flat array, `blocks_per_comp` apart.
pub fn copy_dc_values(
    values: &DcValues,
    num_comp: usize,
    blocks_per_comp: u64,
    flat_len: usize,
) -> (flat: Result<Vec<i32>, CoefficientError>)
    requires
        num_comp <= 4,
        blocks_per_comp <= 0x400_0000,
    ensures
        ({
            let rows = values@;
            let used = if rows.len() <= num_comp {
                rows
            } else {
                rows.take(num_comp as int)
            };
            match dc_placed(
                used,
                blocks_per_comp as nat,
                0,
                0,
                Seq::new(flat_len as nat, |i: int| 0i32),
            ) {
                Ok(s) => flat matches Ok(v) && v@ == s,
                Err(e) => flat matches Err(f) && f == e,
            }
        }),
{
    let mut flat = zeros(flat_len);
    let ghost start = flat@;
    let rows_len: usize = values.per_component.len();
    let used_len: usize = if rows_len <= num_comp {
        rows_len
    } else {
        num_comp
    };
    let ghost used = if values@.len() <= num_comp {
        values@
    } else {
        values@.take(num_comp as int)
    };
    let mut comp: usize = 0;
    while comp < used_len
        invariant
            comp <= used_len <= 4,
            used_len == used.len(),
            used_len <= values.per_component@.len(),
            forall|k: int| 0 <= k < used.len() ==> used[k] == #[trigger] values.per_component@[k]@,
            blocks_per_comp <= 0x400_0000,
            flat@.len() == flat_len,
            dc_placed(used, blocks_per_comp as nat, 0, 0, start) == dc_placed(
                used,
                blocks_per_comp as nat,
                comp as nat,
                0,
                flat@,
            ),
            ({
                let rows = values@;
                let u = if rows.len() <= num_comp {
                    rows
                } else {
                    rows.take(num_comp as int)
                };
                u == used && start == Seq::new(flat_len as nat, |i: int| 0i32)
            }),
        decreases used_len - comp,
    {
        let row_len: usize = values.per_component[comp].len();
        proof {
            assert(0 <= comp * blocks_per_comp <= 0x1000_0000) by (nonlinear_arith)
                requires
                    0 <= comp <= 4,
                    0 <= blocks_per_comp <= 0x400_0000,
            ;
        }
        let base: u64 = comp as u64 * blocks_per_comp;
        let mut block: usize = 0;
        while block < row_len
            invariant
                comp < used_len <= 4,
                used_len == used.len(),
                used_len <= values.per_component@.len(),
                forall|k: int|
                    0 <= k < used.len() ==> used[k] == #[trigger] values.per_component@[k]@,
                block <= row_len,
                row_len == used[comp as int].len(),
                base == comp * blocks_per_comp,
                base <= 0x1000_0000,
                block > 0 ==> base + block <= flat_len,
                flat@.len() == flat_len,
                dc_placed(used, blocks_per_comp as nat, 0, 0, start) == dc_placed(
                    used,
                    blocks_per_comp as nat,
                    comp as nat,
                    block as nat,
                    flat@,
                ),
                ({
                    let rows = values@;
                    let u = if rows.len() <= num_comp {
                        rows
                    } else {
                        rows.take(num_comp as int)
                    };
                    u == used && start == Seq::new(flat_len as nat, |i: int| 0i32)
                }),
            decreases row_len - block,
        {
            let index: u64 = base + block as u64;
            if index >= flat_len as u64 {
                return Err(
                    CoefficientError::DcValuesOverflow {
                        comp,
                        block,
                        index,
                        len: flat.len() as u64,
                    },
                );
            }
            flat[index as usize] = values.per_component[comp][block];
            block = block + 1;
        }
        comp = comp + 1;
    }
    Ok(flat)
}

/// The concrete walk stands where the model does.
spec fn extracting(
    prep: &JpegPreparedInput,
    reader: BitReader<'_>,
    coef: Seq<i32>,
    counts: Seq<u64>,
    done: int,
    st: CoefState,
) -> bool {
    &&& reader.wf()
    &&& reader.source() == prep.bitstream.stream_bytes()
    &&& reader.pos() == st.pos
    &&& coef == st.coef
    &&& counts.len() == prep.components@.len()
    &&& st.counts == Seq::new(counts.len(), |k: int| counts[k] as nat)
    &&& forall|k: int| 0 <= k < counts.len() ==> #[trigger] counts[k] <= done
}

/// Reconstruct DCT coefficient arrays from `prep`.
///
/// Returns `(coefficients, dc_values, qtables, num_qtables)`:
/// coefficients and DC values by component and block, and the referenced
/// quantisation tables in zigzag order.
pub fn extract_coefficients(prep: &JpegPreparedInput) -> (r: Result<
    (Vec<i32>, Vec<i32>, Vec<i32>, u32),
    CoefficientError,
>)
    requires
        prep.extractable(),
    ensures
        match prep.extraction() {
            Ok((c, d, q, n)) => r matches Ok(x) && x.0@ == c && x.1@ == d && x.2@ == q && x.3 == n,
            Err(e) => r matches Err(f) && f == e,
        },
{
    let num_comp: usize = prep.components.len();
    let blocks_wide: u64 = (prep.width as u64 + 7) / 8;
    let blocks_high: u64 = (prep.height as u64 + 7) / 8;
    proof {
        lemma_sizes(*prep);
    }
    let blocks_per_comp: u64 = blocks_wide * blocks_high;
    let flat_len: usize = num_comp * (blocks_per_comp as usize);
    assert(flat_len == num_comp * prep.blocks_per_comp());
    let mut coef_flat = zeros(flat_len * 64);
    let bytes = prep.bitstream.unpack_bytes();
    let mut reader = BitReader::new(bytes.as_slice());
    let total_mcus: u32 = mcu_count(prep.width, prep.height, prep.components.as_slice());
    let mut counts: Vec<u64> = Vec::new();
    let mut k: usize = 0;
    while k < num_comp
        invariant
            k <= num_comp,
            counts@.len() == k,
            forall|j: int| 0 <= j < k ==> counts@[j] == 0,
        decreases num_comp - k,
    {
        counts.push(0);
        k = k + 1;
    }
    let ghost start = prep.blank_coefs();
    let ghost mut st = start;
    proof {
        assert(coef_flat@ =~= start.coef);
        assert(start.counts =~= Seq::new(counts@.len(), |k: int| counts@[k] as nat));
    }
    let mut mcu: u32 = 0;
    while mcu < total_mcus
        invariant
            mcu <= total_mcus <= 0x400_0000,
            total_mcus == prep.num_mcus(),
            prep.extractable(),
            num_comp == prep.components@.len(),
            blocks_per_comp == prep.blocks_per_comp(),
            blocks_per_comp <= 0x400_0000,
            start == prep.blank_coefs(),
            extracting(prep, reader, coef_flat@, counts@, mcu * 65025, st),
            prep.mcus_extracted(0, start) == prep.mcus_extracted(mcu as nat, st),
        decreases total_mcus - mcu,
    {
        let ghost mcu_start = st;
        let mut ci: usize = 0;
        while ci < num_comp
            invariant
                mcu < total_mcus <= 0x400_0000,
                ci <= num_comp <= 4,
                total_mcus == prep.num_mcus(),
                prep.extractable(),
                num_comp == prep.components@.len(),
                blocks_per_comp == prep.blocks_per_comp(),
                blocks_per_comp <= 0x400_0000,
                start == prep.blank_coefs(),
                extracting(prep, reader, coef_flat@, counts@, (mcu + 1) * 65025, st),
                forall|k: int| ci <= k < num_comp ==> #[trigger] counts@[k] <= mcu * 65025,
                prep.components_extracted(mcu, 0, mcu_start) == prep.components_extracted(
                    mcu,
                    ci as nat,
                    st,
                ),
                prep.mcus_extracted(0, start) == (match prep.components_extracted(
                    mcu,
                    0,
                    mcu_start,
                ) {
                    Ok(next) => prep.mcus_extracted((mcu + 1) as nat, next),
                    Err(e) => Err(e),
                }),
            decreases num_comp - ci,
        {
            if ci >= prep.dc_selectors.len() {
                return Err(CoefficientError::NoDcSelector { comp: ci });
            }
            if ci >= prep.ac_selectors.len() {
                return Err(CoefficientError::NoAcSelector { comp: ci });
            }
            let dc_sel: u8 = prep.dc_selectors[ci];
            let ac_sel: u8 = prep.ac_selectors[ci];
            let dc_cb = match &prep.dc_codebooks[dc_sel as usize] {
                Some(book) => book,
                None => {
                    return Err(CoefficientError::MissingDcCodebook { selector: dc_sel });
                },
            };
            let ac_cb = match &prep.ac_codebooks[ac_sel as usize] {
                Some(book) => book,
                None => {
                    return Err(CoefficientError::MissingAcCodebook { selector: ac_sel });
                },
            };
            let bpm: u32 = blocks_permcu_count(num_comp, prep.components[ci]);
            let ghost comp_start = st;
            let ghost first_count = counts@[ci as int];
            let mut b: u32 = 0;
            while b < bpm
                invariant
                    mcu < total_mcus <= 0x400_0000,
                    ci < num_comp <= 4,
                    b <= bpm <= 65025,
                    bpm == prep.mcu_blocks(ci as int),
                    total_mcus == prep.num_mcus(),
                    prep.extractable(),
                    num_comp == prep.components@.len(),
                    blocks_per_comp == prep.blocks_per_comp(),
                    blocks_per_comp <= 0x400_0000,
                    start == prep.blank_coefs(),
                    dc_cb.wf(),
                    ac_cb.wf(),
                    extracting(prep, reader, coef_flat@, counts@, (mcu + 1) * 65025, st),
                    first_count <= mcu * 65025,
                    counts@[ci as int] == first_count + b,
                    forall|k: int| ci < k < num_comp ==> #[trigger] counts@[k] <= mcu * 65025,
                    prep.tables_for(ci as int) == Ok::<
                        (Seq<CanonicalEntry>, Seq<CanonicalEntry>),
                        CoefficientError,
                    >((dc_cb@, ac_cb@)),
                    prep.blocks_extracted(dc_cb@, ac_cb@, mcu, ci as nat, 0, comp_start)
                        == prep.blocks_extracted(
                        dc_cb@,
                        ac_cb@,
                        mcu,
                        ci as nat,
                        b as nat,
                        st,
                    ),
                    prep.components_extracted(mcu, 0, mcu_start) == (match prep.blocks_extracted(
                        dc_cb@,
                        ac_cb@,
                        mcu,
                        ci as nat,
                        0,
                        comp_start,
                    ) {
                        Ok(next) => prep.components_extracted(mcu, (ci + 1) as nat, next),
                        Err(e) => Err(e),
                    }),
                    prep.mcus_extracted(0, start) == (match prep.components_extracted(
                        mcu,
                        0,
                        mcu_start,
                    ) {
                        Ok(next) => prep.mcus_extracted((mcu + 1) as nat, next),
                        Err(e) => Err(e),
                    }),
                decreases bpm - b,
            {
                let ghost before = st;
                let block: u64 = counts[ci];
                proof {
                    assert(0 <= ci * blocks_per_comp <= 0x1000_0000) by (nonlinear_arith)
                        requires
                            0 <= ci <= 4,
                            0 <= blocks_per_comp <= 0x400_0000,
                    ;
                }
                let base: u64 = (ci as u64 * blocks_per_comp + block) * 64;
                assert(base == block_base(
                    ci as nat,
                    prep.blocks_per_comp(),
                    st.counts[ci as int],
                ));
                match pass_dc(&mut reader, dc_cb, mcu, ci) {
                    Ok(_) => {},
                    Err(e) => return Err(e),
                }
                match extract_ac(&mut reader, ac_cb, base, &mut coef_flat, mcu, ci) {
                    Ok(_) => {},
                    Err(e) => return Err(e),
                }
                counts[ci] = block + 1;
                proof {
                    let next = prep.block_extracted(dc_cb@, ac_cb@, mcu, ci as nat, before);
                    st = next->Ok_0;
                    assert(st.counts =~= Seq::new(counts@.len(), |k: int| counts@[k] as nat));
                }
                b = b + 1;
            }
            ci = ci + 1;
        }
        mcu = mcu + 1;
    }
    let dc_flat = match copy_dc_values(&prep.dc_values, num_comp, blocks_per_comp, flat_len) {
        Ok(flat) => flat,
        Err(e) => return Err(e),
    };
    match pack_qtables(prep) {
        Ok((qt_flat, num_qtables)) => Ok((coef_flat, dc_flat, qt_flat, num_qtables)),
        Err(e) => Err(e),
    }
}

pub proof fn lemma_sizes(prep: JpegPreparedInput)
    requires
        prep.extractable(),
    ensures
        prep.blocks_wide() <= 8192,
        prep.blocks_high() <= 8192,
        prep.blocks_per_comp() <= 0x400_0000,
        prep.components@.len() * prep.blocks_per_comp() <= usize::MAX,
        prep.components@.len() * prep.blocks_per_comp() * 64 <= usize::MAX,
{
    let w = prep.blocks_wide() as int;
    let h = prep.blocks_high() as int;
    assert(0 <= w * h <= 8192 * 8192) by (nonlinear_arith)
        requires
            0 <= w <= 8192,
            0 <= h <= 8192,
    ;
    assert(prep.components@.len() * prep.blocks_per_comp() >= 0) by (nonlinear_arith);
}

/// Pack the quantisation tables the frame components actually reference, in
/// the order the kernel selects them: index 0 is component 0's table, index 1
/// the chroma table of a colour image.
pub fn pack_qtables(prep: &JpegPreparedInput) -> (r: Result<(Vec<i32>, u32), CoefficientError>)
    ensures
        match prep.first_undefined_slot(0) {
            Some(slot) => r matches Err(e) && e == (CoefficientError::UndefinedQuantTable { slot }),
            None => r matches Ok(x) && x.0@ == prep.qt_flat() && x.1 == prep.qt_slots().len(),
        },
{
    let mut slots: Vec<u8> = Vec::new();
    if prep.components.len() == 1 {
        slots.push(prep.components[0].quant_selector);
    } else {
        slots.push(0);
        slots.push(1);
    }
    assert(slots@ =~= prep.qt_slots());
    let mut qt_flat: Vec<i32> = Vec::new();
    let mut k: usize = 0;
    while k < slots.len()
        invariant
            k <= slots@.len() <= 2,
            slots@ == prep.qt_slots(),
            prep.first_undefined_slot(0) == prep.first_undefined_slot(k as int),
            qt_flat@.len() == 64 * k,
            forall|i: int| 0 <= i < 64 * k ==> qt_flat@[i] == prep.qt_flat()[i],
        decreases slots@.len() - k,
    {
        let slot: u8 = slots[k];
        if slot >= 4 {
            return Err(CoefficientError::UndefinedQuantTable { slot });
        }
        let table = match &prep.quant_tables[slot as usize] {
            Some(table) => table,
            None => {
                return Err(CoefficientError::UndefinedQuantTable { slot });
            },
        };
        let mut j: usize = 0;
        while j < 64
            invariant
                j <= 64,
                k < slots@.len() <= 2,
                slots@ == prep.qt_slots(),
                slot == slots@[k as int],
                slot < 4,
                prep.quant_tables@[slot as int] == Some(*table),
                qt_flat@.len() == 64 * k + j,
                forall|i: int| 0 <= i < 64 * k + j ==> qt_flat@[i] == prep.qt_flat()[i],
            decreases 64 - j,
        {
            qt_flat.push(table.values[j] as i32);
            assert((64 * k + j) / 64 == k && (64 * k + j) % 64 == j);
            j = j + 1;
        }
        k = k + 1;
    }
    assert(qt_flat@ =~= prep.qt_flat());
    Ok((qt_flat, slots.len() as u32))
}

} // verus!
