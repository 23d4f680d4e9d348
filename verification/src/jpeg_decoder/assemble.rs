//! Coefficients from a decoded symbol stream.
//!
//! The parallel Huffman phases yield symbols without their magnitude bits.
//! One sequential pass over the stream picks those up: guided by the symbols
//! it steps over each codeword by its length and reads the magnitude behind
//! it, without any prefix look-up.

use super::coefficients::{block_base, CoefficientError};
use super::extract::{blocks_permcu_count, copy_dc_values, read_magnitude, zeros};
use super::prepared::JpegPreparedInput;
use crate::bits::bits;
use crate::jpeg::bitreader::BitReader;
use crate::jpeg::canonical::{CanonicalCodebook, CanonicalEntry};
use crate::jpeg::entropy::extended;
use crate::jpeg::geometry::mcu_count;
use vstd::prelude::*;

verus! {

/// Length of the first code, from prefix `i` on, that stands for `symbol`;
/// zero if there is none.
pub open spec fn code_bits_from(table: Seq<CanonicalEntry>, symbol: u8, i: int) -> nat
    decreases table.len() - i,
{
    if i >= table.len() {
        0
    } else if table[i].symbol == symbol && table[i].num_bits > 0 {
        table[i].num_bits as nat
    } else {
        code_bits_from(table, symbol, i + 1)
    }
}

/// Length of the code for `symbol`.
pub open spec fn code_bits(table: Seq<CanonicalEntry>, symbol: u8) -> nat {
    code_bits_from(table, symbol, 0)
}

/// The walk's state: position in the stream, symbols used, coefficients so
/// far, and the blocks done of each component.
#[verifier::ext_equal]
pub struct SymbolState {
    pub pos: int,
    pub used: nat,
    pub coef: Seq<i32>,
    pub counts: Seq<nat>,
}

/// The AC coefficients of a block, from zigzag slot `zz` on: position,
/// symbols used and coefficients behind them.
pub open spec fn ac_assembled(
    src: Seq<u8>,
    pos: int,
    table: Seq<CanonicalEntry>,
    symbols: Seq<u32>,
    used: nat,
    zz: nat,
    base: nat,
    coef: Seq<i32>,
    mcu: u32,
    comp: usize,
) -> Result<(int, nat, Seq<i32>), CoefficientError>
    decreases 80 - zz,
{
    if zz >= 64 {
        Ok((pos, used, coef))
    } else if used >= symbols.len() {
        Err(CoefficientError::SymbolsEndAtAc { mcu, comp, zz: zz as u64 })
    } else {
        let symbol = (symbols[used as int] % 256) as u8;
        let width = code_bits(table, symbol);
        let p = pos + width;
        let at = zz + symbol as nat / 16;
        let size = (symbol % 16) as nat;
        if width == 0 {
            Err(CoefficientError::UncodedSymbol { symbol })
        } else if p > 8 * src.len() {
            Err(CoefficientError::EmptyAtAc { mcu, comp, zz: zz as u64 })
        } else if symbol == 0x00 {
            Ok((p, used + 1, coef))
        } else if symbol == 0xF0 {
            ac_assembled(src, p, table, symbols, used + 1, zz + 16, base, coef, mcu, comp)
        } else if at >= 64 {
            Ok((p, used + 1, coef))
        } else if p + size > 8 * src.len() {
            Err(
                CoefficientError::SizedAcTruncated { mcu, comp, zz: at as u64, size: size as u8 },
            )
        } else if base + at >= coef.len() {
            Err(
                CoefficientError::CoefficientOverflow {
                    base: base as u64,
                    zz: at as u64,
                    len: coef.len() as u64,
                    mcu,
                    comp,
                },
            )
        } else {
            let v = extended(bits(src, p, size) as int, size) as i32;
            ac_assembled(
                src,
                p + size,
                table,
                symbols,
                used + 1,
                at + 1,
                base,
                coef.update((base + at) as int, v),
                mcu,
                comp,
            )
        }
    }
}

/// Position behind a block's DC code and magnitude.
pub open spec fn dc_stepped(
    src: Seq<u8>,
    pos: int,
    table: Seq<CanonicalEntry>,
    symbols: Seq<u32>,
    used: nat,
    mcu: u32,
    comp: usize,
) -> Result<int, CoefficientError> {
    if used >= symbols.len() {
        Err(CoefficientError::SymbolsEndAtDc { mcu, comp })
    } else {
        let symbol = (symbols[used as int] % 256) as u8;
        let width = code_bits(table, symbol);
        if width == 0 {
            Err(CoefficientError::UncodedSymbol { symbol })
        } else if pos + width > 8 * src.len() {
            Err(CoefficientError::EmptyAtDc { mcu, comp })
        } else if pos + width + symbol > 8 * src.len() {
            Err(CoefficientError::DcTruncated { mcu, comp, category: symbol })
        } else {
            Ok(pos + width + symbol)
        }
    }
}

impl JpegPreparedInput {
    /// One block of component `comp`.
    pub open spec fn block_assembled(
        &self,
        symbols: Seq<u32>,
        mcu: u32,
        comp: nat,
        st: SymbolState,
    ) -> Result<SymbolState, CoefficientError> {
        let src = self.bitstream.stream_bytes();
        match dc_stepped(
            src,
            st.pos,
            self.dc_table(comp as int),
            symbols,
            st.used,
            mcu,
            comp as usize,
        ) {
            Err(e) => Err(e),
            Ok(p) => match ac_assembled(
                src,
                p,
                self.ac_table(comp as int),
                symbols,
                st.used + 1,
                1,
                block_base(comp, self.blocks_per_comp(), st.counts[comp as int]),
                st.coef,
                mcu,
                comp as usize,
            ) {
                Err(e) => Err(e),
                Ok((q, used, coef)) => Ok(
                    SymbolState {
                        pos: q,
                        used,
                        coef,
                        counts: st.counts.update(comp as int, st.counts[comp as int] + 1),
                    },
                ),
            },
        }
    }

    /// Blocks `k` and up of one component of an MCU.
    pub open spec fn blocks_assembled(
        &self,
        symbols: Seq<u32>,
        mcu: u32,
        comp: nat,
        k: nat,
        st: SymbolState,
    ) -> Result<SymbolState, CoefficientError>
        decreases self.mcu_blocks(comp as int) - k,
    {
        if k >= self.mcu_blocks(comp as int) {
            Ok(st)
        } else {
            match self.block_assembled(symbols, mcu, comp, st) {
                Ok(next) => self.blocks_assembled(symbols, mcu, comp, k + 1, next),
                Err(e) => Err(e),
            }
        }
    }

    /// Components `comp` and up of an MCU.
    pub open spec fn components_assembled(
        &self,
        symbols: Seq<u32>,
        mcu: u32,
        comp: nat,
        st: SymbolState,
    ) -> Result<SymbolState, CoefficientError>
        decreases self.components@.len() - comp,
    {
        if comp >= self.components@.len() {
            Ok(st)
        } else {
            match self.blocks_assembled(symbols, mcu, comp, 0, st) {
                Ok(next) => self.components_assembled(symbols, mcu, comp + 1, next),
                Err(e) => Err(e),
            }
        }
    }

    /// MCUs `mcu` and up.
    pub open spec fn mcus_assembled(
        &self,
        symbols: Seq<u32>,
        mcu: nat,
        st: SymbolState,
    ) -> Result<SymbolState, CoefficientError>
        decreases self.num_mcus() - mcu,
    {
        if mcu >= self.num_mcus() {
            Ok(st)
        } else {
            match self.components_assembled(symbols, mcu as u32, 0, st) {
                Ok(next) => self.mcus_assembled(symbols, mcu + 1, next),
                Err(e) => Err(e),
            }
        }
    }

    /// Nothing assembled yet.
    pub open spec fn blank_symbols(&self) -> SymbolState {
        SymbolState {
            pos: 0,
            used: 0,
            coef: self.blank_coefs().coef,
            counts: self.blank_coefs().counts,
        }
    }

    /// What a symbol stream assembles to: coefficients and DC values.  The
    /// stream must end with the last block, and coefficient 0 of each block
    /// is its DC value.
    pub open spec fn assembly(&self, symbols: Seq<u32>) -> Result<
        (Seq<i32>, Seq<i32>),
        CoefficientError,
    > {
        match self.mcus_assembled(symbols, 0, self.blank_symbols()) {
            Err(e) => Err(e),
            Ok(st) => if st.used < symbols.len() {
                Err(CoefficientError::SymbolsLeft { left: (symbols.len() - st.used) as usize })
            } else {
                match self.dc_flat() {
                    Err(e) => Err(e),
                    Ok(dc) => Ok((with_dc(st.coef, dc), dc)),
                }
            },
        }
    }
}

/// The coefficients with each block's first one taken from `dc`.
pub open spec fn with_dc(coef: Seq<i32>, dc: Seq<i32>) -> Seq<i32> {
    Seq::new(
        coef.len(),
        |i: int|
            if i % 64 == 0 && i / 64 < dc.len() {
                dc[i / 64]
            } else {
                coef[i]
            },
    )
}

/// The code length of every symbol.
fn lengths_by_symbol(book: &CanonicalCodebook) -> (lens: Vec<u8>)
    requires
        book.wf(),
    ensures
        lens@.len() == 256,
        forall|s: int| 0 <= s < 256 ==> #[trigger] lens@[s] == code_bits(book@, s as u8),
{
    let table = book.table();
    let mut lens: Vec<u8> = vec![0; 256];
    let mut i: usize = table.len();
    // From the last prefix down, so that the first one stands.
    while i > 0
        invariant
            i <= table@.len(),
            table@ == book@,
            lens@.len() == 256,
            forall|s: int|
                0 <= s < 256 ==> #[trigger] lens@[s] == code_bits_from(book@, s as u8, i as int),
        decreases i,
    {
        i = i - 1;
        let entry = table[i];
        if entry.num_bits > 0 {
            lens[entry.symbol as usize] = entry.num_bits;
        }
    }
    lens
}

fn all_lengths(books: &Vec<&CanonicalCodebook>) -> (lens: Vec<Vec<u8>>)
    requires
        forall|k: int| 0 <= k < books@.len() ==> (#[trigger] books@[k]).wf(),
    ensures
        lens@.len() == books@.len(),
        forall|k: int|
            0 <= k < books@.len() ==> (#[trigger] lens@[k])@.len() == 256 && lengths_ok(
                lens@[k]@,
                books@[k]@,
            ),
{
    let mut lens: Vec<Vec<u8>> = Vec::new();
    let mut k: usize = 0;
    while k < books.len()
        invariant
            k <= books@.len(),
            lens@.len() == k,
            forall|j: int| 0 <= j < books@.len() ==> (#[trigger] books@[j]).wf(),
            forall|j: int|
                0 <= j < k ==> (#[trigger] lens@[j])@.len() == 256 && lengths_ok(
                    lens@[j]@,
                    books@[j]@,
                ),
        decreases books@.len() - k,
    {
        let row = lengths_by_symbol(books[k]);
        lens.push(row);
        k = k + 1;
    }
    lens
}

spec fn lengths_ok(lens: Seq<u8>, table: Seq<CanonicalEntry>) -> bool {
    forall|s: int| 0 <= s < 256 ==> #[trigger] lens[s] == code_bits(table, s as u8)
}

/// Step over a block's DC code and magnitude.
fn step_dc(
    reader: &mut BitReader<'_>,
    lens: &Vec<u8>,
    symbols: &[u32],
    used: usize,
    mcu: u32,
    comp: usize,
    Ghost(table): Ghost<Seq<CanonicalEntry>>,
) -> (r: Result<(), CoefficientError>)
    requires
        old(reader).wf(),
        lens@.len() == 256,
        lengths_ok(lens@, table),
    ensures
        final(reader).wf(),
        final(reader).source() == old(reader).source(),
        match dc_stepped(
            old(reader).source(),
            old(reader).pos(),
            table,
            symbols@,
            used as nat,
            mcu,
            comp,
        ) {
            Ok(p) => r is Ok && final(reader).pos() == p,
            Err(e) => r matches Err(f) && f == e,
        },
{
    proof {
        reader.lemma_wf();
    }
    if used >= symbols.len() {
        return Err(CoefficientError::SymbolsEndAtDc { mcu, comp });
    }
    let symbol: u8 = (symbols[used] % 256) as u8;
    let width: u8 = lens[symbol as usize];
    assert(width == code_bits(table, symbol as int as u8));
    if width == 0 {
        return Err(CoefficientError::UncodedSymbol { symbol });
    }
    if !reader.try_consume(width as usize) {
        return Err(CoefficientError::EmptyAtDc { mcu, comp });
    }
    if !reader.try_consume(symbol as usize) {
        return Err(CoefficientError::DcTruncated { mcu, comp, category: symbol });
    }
    Ok(())
}

/// Write a block's AC coefficients behind `base`; returns the symbols used.
fn assemble_ac(
    reader: &mut BitReader<'_>,
    lens: &Vec<u8>,
    symbols: &[u32],
    first: usize,
    base: u64,
    coef: &mut Vec<i32>,
    mcu: u32,
    comp: usize,
    Ghost(table): Ghost<Seq<CanonicalEntry>>,
) -> (r: Result<usize, CoefficientError>)
    requires
        old(reader).wf(),
        lens@.len() == 256,
        lengths_ok(lens@, table),
        first <= symbols@.len(),
        base <= u64::MAX - 64,
    ensures
        final(reader).wf(),
        final(reader).source() == old(reader).source(),
        match ac_assembled(
            old(reader).source(),
            old(reader).pos(),
            table,
            symbols@,
            first as nat,
            1,
            base as nat,
            old(coef)@,
            mcu,
            comp,
        ) {
            Ok((p, u, c)) => r matches Ok(n) && n == u && n <= symbols@.len()
                && final(reader).pos() == p && final(coef)@ == c,
            Err(e) => r matches Err(f) && f == e,
        },
{
    let mut used: usize = first;
    let mut zz: u64 = 1;
    while zz < 64
        invariant
            1 <= zz <= 79,
            base <= u64::MAX - 64,
            used <= symbols@.len(),
            reader.wf(),
            reader.source() == old(reader).source(),
            lens@.len() == 256,
            lengths_ok(lens@, table),
            ac_assembled(
                old(reader).source(),
                old(reader).pos(),
                table,
                symbols@,
                first as nat,
                1,
                base as nat,
                old(coef)@,
                mcu,
                comp,
            ) == ac_assembled(
                reader.source(),
                reader.pos(),
                table,
                symbols@,
                used as nat,
                zz as nat,
                base as nat,
                coef@,
                mcu,
                comp,
            ),
        decreases 80 - zz,
    {
        if used >= symbols.len() {
            return Err(CoefficientError::SymbolsEndAtAc { mcu, comp, zz });
        }
        let symbol: u8 = (symbols[used] % 256) as u8;
        let width: u8 = lens[symbol as usize];
        assert(width == code_bits(table, symbol as int as u8));
        if width == 0 {
            return Err(CoefficientError::UncodedSymbol { symbol });
        }
        if !reader.try_consume(width as usize) {
            return Err(CoefficientError::EmptyAtAc { mcu, comp, zz });
        }
        used = used + 1;
        if symbol == 0x00 {
            return Ok(used);
        }
        if symbol == 0xF0 {
            zz = zz + 16;
            continue ;
        }
        let at: u64 = zz + (symbol / 16) as u64;
        if at >= 64 {
            return Ok(used);
        }
        let size: u8 = symbol % 16;
        let value: i32 = match read_magnitude(reader, size) {
            Some(value) => value,
            None => {
                return Err(CoefficientError::SizedAcTruncated { mcu, comp, zz: at, size });
            },
        };
        if base + at >= coef.len() as u64 {
            return Err(
                CoefficientError::CoefficientOverflow {
                    base,
                    zz: at,
                    len: coef.len() as u64,
                    mcu,
                    comp,
                },
            );
        }
        coef[(base + at) as usize] = value;
        zz = at + 1;
    }
    Ok(used)
}

/// The concrete walk stands where the model does.
spec fn assembling(
    prep: &JpegPreparedInput,
    reader: BitReader<'_>,
    used: usize,
    coef: Seq<i32>,
    counts: Seq<u64>,
    done: int,
    st: SymbolState,
) -> bool {
    &&& reader.wf()
    &&& reader.source() == prep.bitstream.stream_bytes()
    &&& reader.pos() == st.pos
    &&& used == st.used
    &&& coef == st.coef
    &&& counts.len() == prep.components@.len()
    &&& st.counts == Seq::new(counts.len(), |k: int| counts[k] as nat)
    &&& forall|k: int| 0 <= k < counts.len() ==> #[trigger] counts[k] <= done
}

/// The length tables of all components.
spec fn lanes_ok(prep: &JpegPreparedInput, dc_lens: Seq<Vec<u8>>, ac_lens: Seq<Vec<u8>>) -> bool {
    &&& dc_lens.len() == prep.components@.len()
    &&& ac_lens.len() == prep.components@.len()
    &&& forall|k: int|
        0 <= k < dc_lens.len() ==> (#[trigger] dc_lens[k])@.len() == 256 && lengths_ok(
            dc_lens[k]@,
            prep.dc_table(k),
        )
    &&& forall|k: int|
        0 <= k < ac_lens.len() ==> (#[trigger] ac_lens[k])@.len() == 256 && lengths_ok(
            ac_lens[k]@,
            prep.ac_table(k),
        )
}

/// Reconstruct coefficient arrays from a decoded symbol stream.
///
/// Returns `(coefficients, dc_values)`.  AC coefficients come from the
/// symbols and the magnitude bits between the codewords; coefficient 0 of
/// each block and the DC array come from the resolved chain.  A symbol
/// stream that does not fit the scan exactly is refused.
pub fn symbols_to_coefficients(prep: &JpegPreparedInput, symbols: &[u32]) -> (r: Result<
    (Vec<i32>, Vec<i32>),
    CoefficientError,
>)
    requires
        prep.extractable(),
        prep.tables_present(),
    ensures
        match prep.assembly(symbols@) {
            Ok((c, d)) => r matches Ok(x) && x.0@ == c && x.1@ == d,
            Err(e) => r matches Err(f) && f == e,
        },
{
    let num_comp: usize = prep.components.len();
    let blocks_wide: u64 = (prep.width as u64 + 7) / 8;
    let blocks_high: u64 = (prep.height as u64 + 7) / 8;
    proof {
        super::extract::lemma_sizes(*prep);
    }
    let blocks_per_comp: u64 = blocks_wide * blocks_high;
    let flat_len: usize = num_comp * (blocks_per_comp as usize);
    assert(flat_len == num_comp * prep.blocks_per_comp());
    let mut coef_flat = zeros(flat_len * 64);
    let bytes = prep.bitstream.unpack_bytes();
    let mut reader = BitReader::new(bytes.as_slice());
    let dc_lens = all_lengths(&prep.dc_codebooks_for_dispatch());
    let ac_lens = all_lengths(&prep.ac_codebooks_for_dispatch());
    let total_mcus: u32 = mcu_count(prep.width, prep.height, prep.components.as_slice());
    let mut counts: Vec<u64> = Vec::new();
    let mut k: usize = 0;
    while k < num_comp
        invariant
            k <= num_comp,
            counts@.len() == k,
            forall|j: int| 0 <= j < k ==> counts@[j] == 0,
        decreases num_comp - k,
    {
        counts.push(0);
        k = k + 1;
    }
    let mut used: usize = 0;
    let ghost start = prep.blank_symbols();
    let ghost mut st = start;
    proof {
        assert(coef_flat@ =~= start.coef);
        assert(start.counts =~= Seq::new(counts@.len(), |k: int| counts@[k] as nat));
    }
    let mut mcu: u32 = 0;
    while mcu < total_mcus
        invariant
            mcu <= total_mcus <= 0x400_0000,
            total_mcus == prep.num_mcus(),
            prep.extractable(),
            lanes_ok(prep, dc_lens@, ac_lens@),
            num_comp == prep.components@.len(),
            blocks_per_comp == prep.blocks_per_comp(),
            blocks_per_comp <= 0x400_0000,
            used <= symbols@.len(),
            start == prep.blank_symbols(),
            assembling(prep, reader, used, coef_flat@, counts@, mcu * 65025, st),
            prep.mcus_assembled(symbols@, 0, start) == prep.mcus_assembled(
                symbols@,
                mcu as nat,
                st,
            ),
        decreases total_mcus - mcu,
    {
        let ghost mcu_start = st;
        let mut ci: usize = 0;
        while ci < num_comp
            invariant
                mcu < total_mcus <= 0x400_0000,
                ci <= num_comp <= 4,
                total_mcus == prep.num_mcus(),
                prep.extractable(),
                lanes_ok(prep, dc_lens@, ac_lens@),
                num_comp == prep.components@.len(),
                blocks_per_comp == prep.blocks_per_comp(),
                blocks_per_comp <= 0x400_0000,
                used <= symbols@.len(),
                start == prep.blank_symbols(),
                assembling(prep, reader, used, coef_flat@, counts@, (mcu + 1) * 65025, st),
                forall|k: int| ci <= k < num_comp ==> #[trigger] counts@[k] <= mcu * 65025,
                prep.components_assembled(symbols@, mcu, 0, mcu_start)
                    == prep.components_assembled(symbols@, mcu, ci as nat, st),
                prep.mcus_assembled(symbols@, 0, start) == (match prep.components_assembled(
                    symbols@,
                    mcu,
                    0,
                    mcu_start,
                ) {
                    Ok(next) => prep.mcus_assembled(symbols@, (mcu + 1) as nat, next),
                    Err(e) => Err(e),
                }),
            decreases num_comp - ci,
        {
            let bpm: u32 = blocks_permcu_count(num_comp, prep.components[ci]);
            let ghost comp_start = st;
            let ghost first_count = counts@[ci as int];
            let ghost dc = prep.dc_table(ci as int);
            let ghost ac = prep.ac_table(ci as int);
            let mut b: u32 = 0;
            while b < bpm
                invariant
                    mcu < total_mcus <= 0x400_0000,
                    ci < num_comp <= 4,
                    b <= bpm <= 65025,
                    bpm == prep.mcu_blocks(ci as int),
                    total_mcus == prep.num_mcus(),
                    prep.extractable(),
                    lanes_ok(prep, dc_lens@, ac_lens@),
                    dc == prep.dc_table(ci as int),
                    ac == prep.ac_table(ci as int),
                    num_comp == prep.components@.len(),
                    blocks_per_comp == prep.blocks_per_comp(),
                    blocks_per_comp <= 0x400_0000,
                    used <= symbols@.len(),
                    start == prep.blank_symbols(),
                    assembling(prep, reader, used, coef_flat@, counts@, (mcu + 1) * 65025, st),
                    first_count <= mcu * 65025,
                    counts@[ci as int] == first_count + b,
                    forall|k: int| ci < k < num_comp ==> #[trigger] counts@[k] <= mcu * 65025,
                    prep.blocks_assembled(symbols@, mcu, ci as nat, 0, comp_start)
                        == prep.blocks_assembled(symbols@, mcu, ci as nat, b as nat, st),
                    prep.components_assembled(symbols@, mcu, 0, mcu_start) == (
                    match prep.blocks_assembled(symbols@, mcu, ci as nat, 0, comp_start) {
                        Ok(next) => prep.components_assembled(
                            symbols@,
                            mcu,
                            (ci + 1) as nat,
                            next,
                        ),
                        Err(e) => Err(e),
                    }),
                    prep.mcus_assembled(symbols@, 0, start) == (match prep.components_assembled(
                        symbols@,
                        mcu,
                        0,
                        mcu_start,
                    ) {
                        Ok(next) => prep.mcus_assembled(symbols@, (mcu + 1) as nat, next),
                        Err(e) => Err(e),
                    }),
                decreases bpm - b,
            {
                let ghost before = st;
                let block: u64 = counts[ci];
                proof {
                    assert(0 <= ci * blocks_per_comp <= 0x1000_0000) by (nonlinear_arith)
                        requires
                            0 <= ci <= 4,
                            0 <= blocks_per_comp <= 0x400_0000,
                    ;
                }
                let base: u64 = (ci as u64 * blocks_per_comp + block) * 64;
                assert(base == block_base(
                    ci as nat,
                    prep.blocks_per_comp(),
                    st.counts[ci as int],
                ));
                match step_dc(&mut reader, &dc_lens[ci], symbols, used, mcu, ci, Ghost(dc)) {
                    Ok(_) => {},
                    Err(e) => return Err(e),
                }
                assert(used < symbols.len());
                used =
                match assemble_ac(
                    &mut reader,
                    &ac_lens[ci],
                    symbols,
                    used + 1,
                    base,
                    &mut coef_flat,
                    mcu,
                    ci,
                    Ghost(ac),
                ) {
                    Ok(used) => used,
                    Err(e) => return Err(e),
                };
                counts[ci] = block + 1;
                proof {
                    let next = prep.block_assembled(symbols@, mcu, ci as nat, before);
                    st = next->Ok_0;
                    assert(st.counts =~= Seq::new(counts@.len(), |k: int| counts@[k] as nat));
                }
                b = b + 1;
            }
            ci = ci + 1;
        }
        mcu = mcu + 1;
    }
    if used < symbols.len() {
        return Err(CoefficientError::SymbolsLeft { left: symbols.len() - used });
    }
    let dc_flat = match copy_dc_values(&prep.dc_values, num_comp, blocks_per_comp, flat_len) {
        Ok(flat) => flat,
        Err(e) => return Err(e),
    };
    proof {
        super::assemble_laws::lemma_assembly_len(*prep, symbols@, 0, start);
        super::assemble_laws::lemma_dc_len(*prep);
    }
    let ghost ac_only = coef_flat@;
    let mut i: usize = 0;
    while i < flat_len
        invariant
            i <= flat_len,
            flat_len == dc_flat@.len(),
            flat_len * 64 == ac_only.len(),
            flat_len * 64 <= usize::MAX,
            coef_flat@.len() == ac_only.len(),
            forall|j: int|
                0 <= j < ac_only.len() ==> #[trigger] coef_flat@[j] == (if j < 64 * i {
                    with_dc(ac_only, dc_flat@)[j]
                } else {
                    ac_only[j]
                }),
        decreases flat_len - i,
    {
        coef_flat[i * 64] = dc_flat[i];
        i = i + 1;
    }
    assert(coef_flat@ =~= with_dc(ac_only, dc_flat@));
    Ok((coef_flat, dc_flat))
}

} // verus!
