//! DCT coefficients from a prepared JPEG.
//!
//! Coefficients are laid out `[component][block][64]` in zigzag order.  The
//! AC values come from a walk over the entropy-coded stream; the DC values
//! from the resolved chain.

use super::prepared::JpegPreparedInput;
use crate::bits::bits;
use crate::jpeg::canonical::{books_wf, CanonicalEntry};
use crate::jpeg::entropy::extended;
use crate::jpeg::geometry::block_count;
use crate::text::{decimal, push_decimal};
use vstd::arithmetic::power2::*;
use vstd::prelude::*;
use vstd::string::*;

verus! {

/// Why coefficients could not be extracted.
#[derive(Debug, Clone, PartialEq, Eq)]
#[allow(inconsistent_fields)]
pub enum CoefficientError {
    /// A component has no DC selector.
    NoDcSelector { comp: usize },
    /// A component has no AC selector.
    NoAcSelector { comp: usize },
    /// A DC selector names no codebook.
    MissingDcCodebook { selector: u8 },
    /// An AC selector names no codebook.
    MissingAcCodebook { selector: u8 },
    /// The stream ends at a DC codeword.
    EmptyAtDc { mcu: u32, comp: usize },
    /// The stream ends inside a DC magnitude.
    DcTruncated { mcu: u32, comp: usize, category: u8 },
    /// The stream ends at an AC codeword.
    EmptyAtAc { mcu: u32, comp: usize, zz: u64 },
    /// The stream ends inside an AC magnitude.
    AcTruncated { mcu: u32, comp: usize, zz: u64 },
    /// The stream ends inside the magnitude of a given AC symbol.
    SizedAcTruncated { mcu: u32, comp: usize, zz: u64, size: u8 },
    /// A block lies outside the coefficient array.
    CoefficientOverflow { base: u64, zz: u64, len: u64, mcu: u32, comp: usize },
    /// A DC value lies outside the DC array.
    DcValuesOverflow { comp: usize, block: usize, index: u64, len: u64 },
    /// A component references a quantisation table that is not there.
    UndefinedQuantTable { slot: u8 },
    /// The symbol stream ends before a DC symbol.
    SymbolsEndAtDc { mcu: u32, comp: usize },
    /// The symbol stream ends before an AC symbol.
    SymbolsEndAtAc { mcu: u32, comp: usize, zz: u64 },
    /// The symbol stream goes on behind the last block.
    SymbolsLeft { left: usize },
    /// The symbol stream holds a symbol that no code stands for.
    UncodedSymbol { symbol: u8 },
}

impl CoefficientError {
    pub open spec fn text(self) -> Seq<char> {
        match self {
            CoefficientError::NoDcSelector { comp } => "no dc_selector for comp "@ + decimal(
                comp as nat,
            ),
            CoefficientError::NoAcSelector { comp } => "no ac_selector for comp "@ + decimal(
                comp as nat,
            ),
            CoefficientError::MissingDcCodebook { selector } => "missing DC codebook "@
                + decimal(selector as nat),
            CoefficientError::MissingAcCodebook { selector } => "missing AC codebook "@
                + decimal(selector as nat),
            CoefficientError::EmptyAtDc { mcu, comp } =>
            "bitstream empty at DC codeword (mcu="@ + decimal(mcu as nat) + " comp="@ + decimal(
                comp as nat,
            ) + ")"@,
            CoefficientError::DcTruncated { mcu, comp, category } =>
            "DC magnitude truncated (mcu="@ + decimal(mcu as nat) + " comp="@ + decimal(
                comp as nat,
            ) + " cat="@ + decimal(category as nat) + ")"@,
            CoefficientError::EmptyAtAc { mcu, comp, zz } => "bitstream empty at AC (mcu="@
                + decimal(mcu as nat) + " comp="@ + decimal(comp as nat) + " zz="@ + decimal(
                zz as nat,
            ) + ")"@,
            CoefficientError::AcTruncated { mcu, comp, zz } => "AC magnitude truncated (mcu="@
                + decimal(mcu as nat) + " comp="@ + decimal(comp as nat) + " zz="@ + decimal(
                zz as nat,
            ) + ")"@,
            CoefficientError::SizedAcTruncated { mcu, comp, zz, size } =>
            "AC magnitude truncated (mcu="@ + decimal(mcu as nat) + " comp="@ + decimal(
                comp as nat,
            ) + " zz="@ + decimal(zz as nat) + " size="@ + decimal(size as nat) + ")"@,
            CoefficientError::CoefficientOverflow { base, zz, len, mcu, comp } =>
            "coefficient overflow: coef_base="@ + decimal(base as nat) + " zz="@ + decimal(
                zz as nat,
            ) + " coef_flat.len()="@ + decimal(len as nat) + " (mcu="@ + decimal(mcu as nat)
                + " comp="@ + decimal(comp as nat) + ")"@,
            CoefficientError::DcValuesOverflow { comp, block, index, len } =>
            "dc_values overflow: comp="@ + decimal(comp as nat) + " block="@ + decimal(
                block as nat,
            ) + " idx="@ + decimal(index as nat) + " dc_flat.len()="@ + decimal(len as nat),
            CoefficientError::UndefinedQuantTable { slot } =>
            "component references undefined quantisation table slot "@ + decimal(slot as nat),
            CoefficientError::SymbolsEndAtDc { mcu, comp } =>
            "symbol stream too short at DC (mcu="@ + decimal(mcu as nat) + " comp="@ + decimal(
                comp as nat,
            ) + ")"@,
            CoefficientError::SymbolsEndAtAc { mcu, comp, zz } =>
            "symbol stream too short at AC (mcu="@ + decimal(mcu as nat) + " comp="@ + decimal(
                comp as nat,
            ) + " zz="@ + decimal(zz as nat) + ")"@,
            CoefficientError::SymbolsLeft { left } => "symbol stream too long: "@ + decimal(
                left as nat,
            ) + " symbols behind the last block"@,
            CoefficientError::UncodedSymbol { symbol } => "symbol stream holds uncoded symbol "@
                + decimal(symbol as nat),
        }
    }

    /// The error as a sentence.
    pub fn message(&self) -> (s: String)
        ensures
            s@ == self.text(),
    {
        match self {
            CoefficientError::NoDcSelector { comp } => {
                let mut s = String::from_str("no dc_selector for comp ");
                push_decimal(&mut s, *comp as u64);
                s
            },
            CoefficientError::NoAcSelector { comp } => {
                let mut s = String::from_str("no ac_selector for comp ");
                push_decimal(&mut s, *comp as u64);
                s
            },
            CoefficientError::MissingDcCodebook { selector } => {
                let mut s = String::from_str("missing DC codebook ");
                push_decimal(&mut s, *selector as u64);
                s
            },
            CoefficientError::MissingAcCodebook { selector } => {
                let mut s = String::from_str("missing AC codebook ");
                push_decimal(&mut s, *selector as u64);
                s
            },
            CoefficientError::EmptyAtDc { mcu, comp } => {
                let mut s = String::from_str("bitstream empty at DC codeword (mcu=");
                push_decimal(&mut s, *mcu as u64);
                s.append(" comp=");
                push_decimal(&mut s, *comp as u64);
                s.append(")");
                s
            },
            CoefficientError::DcTruncated { mcu, comp, category } => {
                let mut s = String::from_str("DC magnitude truncated (mcu=");
                push_decimal(&mut s, *mcu as u64);
                s.append(" comp=");
                push_decimal(&mut s, *comp as u64);
                s.append(" cat=");
                push_decimal(&mut s, *category as u64);
                s.append(")");
                s
            },
            CoefficientError::EmptyAtAc { mcu, comp, zz } => {
                let mut s = String::from_str("bitstream empty at AC (mcu=");
                push_decimal(&mut s, *mcu as u64);
                s.append(" comp=");
                push_decimal(&mut s, *comp as u64);
                s.append(" zz=");
                push_decimal(&mut s, *zz);
                s.append(")");
                s
            },
            CoefficientError::AcTruncated { mcu, comp, zz } => {
                let mut s = String::from_str("AC magnitude truncated (mcu=");
                push_decimal(&mut s, *mcu as u64);
                s.append(" comp=");
                push_decimal(&mut s, *comp as u64);
                s.append(" zz=");
                push_decimal(&mut s, *zz);
                s.append(")");
                s
            },
            CoefficientError::SizedAcTruncated { mcu, comp, zz, size } => {
                let mut s = String::from_str("AC magnitude truncated (mcu=");
                push_decimal(&mut s, *mcu as u64);
                s.append(" comp=");
                push_decimal(&mut s, *comp as u64);
                s.append(" zz=");
                push_decimal(&mut s, *zz);
                s.append(" size=");
                push_decimal(&mut s, *size as u64);
                s.append(")");
                s
            },
            CoefficientError::CoefficientOverflow { base, zz, len, mcu, comp } => {
                let mut s = String::from_str("coefficient overflow: coef_base=");
                push_decimal(&mut s, *base);
                s.append(" zz=");
                push_decimal(&mut s, *zz);
                s.append(" coef_flat.len()=");
                push_decimal(&mut s, *len);
                s.append(" (mcu=");
                push_decimal(&mut s, *mcu as u64);
                s.append(" comp=");
                push_decimal(&mut s, *comp as u64);
                s.append(")");
                s
            },
            CoefficientError::DcValuesOverflow { comp, block, index, len } => {
                let mut s = String::from_str("dc_values overflow: comp=");
                push_decimal(&mut s, *comp as u64);
                s.append(" block=");
                push_decimal(&mut s, *block as u64);
                s.append(" idx=");
                push_decimal(&mut s, *index);
                s.append(" dc_flat.len()=");
                push_decimal(&mut s, *len);
                s
            },
            CoefficientError::UndefinedQuantTable { slot } => {
                let mut s = String::from_str(
                    "component references undefined quantisation table slot ",
                );
                push_decimal(&mut s, *slot as u64);
                s
            },
            CoefficientError::SymbolsEndAtDc { mcu, comp } => {
                let mut s = String::from_str("symbol stream too short at DC (mcu=");
                push_decimal(&mut s, *mcu as u64);
                s.append(" comp=");
                push_decimal(&mut s, *comp as u64);
                s.append(")");
                s
            },
            CoefficientError::SymbolsEndAtAc { mcu, comp, zz } => {
                let mut s = String::from_str("symbol stream too short at AC (mcu=");
                push_decimal(&mut s, *mcu as u64);
                s.append(" comp=");
                push_decimal(&mut s, *comp as u64);
                s.append(" zz=");
                push_decimal(&mut s, *zz);
                s.append(")");
                s
            },
            CoefficientError::SymbolsLeft { left } => {
                let mut s = String::from_str("symbol stream too long: ");
                push_decimal(&mut s, *left as u64);
                s.append(" symbols behind the last block");
                s
            },
            CoefficientError::UncodedSymbol { symbol } => {
                let mut s = String::from_str("symbol stream holds uncoded symbol ");
                push_decimal(&mut s, *symbol as u64);
                s
            },
        }
    }
}

/// The walk's state: position in the stream, coefficients so far, and the
/// blocks done of each component.
#[verifier::ext_equal]
pub struct CoefState {
    pub pos: int,
    pub coef: Seq<i32>,
    pub counts: Seq<nat>,
}

/// What the codeword look-up at `pos` consumes, if the stream holds it.
pub open spec fn entry_at(src: Seq<u8>, pos: int, table: Seq<CanonicalEntry>) -> Option<
    CanonicalEntry,
> {
    let e = table[bits(src, pos, 16) as int];
    if pos >= 8 * src.len() || pos + e.num_bits > 8 * src.len() {
        None
    } else {
        Some(e)
    }
}

/// The AC coefficients of a block, from zigzag slot `zz` on, written behind
/// `base`.
pub open spec fn ac_extracted(
    src: Seq<u8>,
    pos: int,
    table: Seq<CanonicalEntry>,
    zz: nat,
    base: nat,
    coef: Seq<i32>,
    mcu: u32,
    comp: usize,
) -> Result<(int, Seq<i32>), CoefficientError>
    decreases 80 - zz,
{
    if zz >= 64 {
        Ok((pos, coef))
    } else {
        match entry_at(src, pos, table) {
            None => Err(CoefficientError::EmptyAtAc { mcu, comp, zz: zz as u64 }),
            Some(e) => {
                let p = pos + e.num_bits;
                let at = zz + e.symbol as nat / 16;
                let size = (e.symbol % 16) as nat;
                if e.symbol == 0x00 {
                    Ok((p, coef))
                } else if e.symbol == 0xF0 {
                    ac_extracted(src, p, table, zz + 16, base, coef, mcu, comp)
                } else if at >= 64 {
                    Ok((p, coef))
                } else if p + size > 8 * src.len() {
                    Err(CoefficientError::AcTruncated { mcu, comp, zz: at as u64 })
                } else if base + at >= coef.len() {
                    Err(
                        CoefficientError::CoefficientOverflow {
                            base: base as u64,
                            zz: at as u64,
                            len: coef.len() as u64,
                            mcu,
                            comp,
                        },
                    )
                } else {
                    let v = extended(bits(src, p, size) as int, size) as i32;
                    ac_extracted(
                        src,
                        p + size,
                        table,
                        at + 1,
                        base,
                        coef.update((base + at) as int, v),
                        mcu,
                        comp,
                    )
                }
            },
        }
    }
}

/// Position behind a block's DC code and magnitude.
pub open spec fn dc_passed(
    src: Seq<u8>,
    pos: int,
    table: Seq<CanonicalEntry>,
    mcu: u32,
    comp: usize,
) -> Result<int, CoefficientError> {
    match entry_at(src, pos, table) {
        None => Err(CoefficientError::EmptyAtDc { mcu, comp }),
        Some(e) => {
            let p = pos + e.num_bits;
            if p + e.symbol > 8 * src.len() {
                Err(CoefficientError::DcTruncated { mcu, comp, category: e.symbol })
            } else {
                Ok(p + e.symbol)
            }
        },
    }
}

/// First coefficient of block `block` of component `comp`.
pub open spec fn block_base(comp: nat, blocks_per_comp: nat, block: nat) -> nat {
    (comp * blocks_per_comp + block) * 64
}

impl JpegPreparedInput {
    /// Blocks in a row of a component's plane.
    pub open spec fn blocks_wide(&self) -> nat {
        ((self.width + 7) / 8) as nat
    }

    /// Rows of blocks in a component's plane.
    pub open spec fn blocks_high(&self) -> nat {
        ((self.height + 7) / 8) as nat
    }

    /// Blocks of one full-resolution component.
    pub open spec fn blocks_per_comp(&self) -> nat {
        self.blocks_wide() * self.blocks_high()
    }

    /// Blocks of component `k` in one MCU.
    pub open spec fn mcu_blocks(&self, k: int) -> nat {
        block_count(
            self.components@.len(),
            self.components@[k].h_sampling as nat,
            self.components@[k].v_sampling as nat,
        )
    }

    /// An input whose coefficient arrays fit the machine and whose selectors
    /// name codebook slots.
    pub open spec fn extractable(&self) -> bool {
        &&& self.components@.len() <= 4
        &&& self.components@.len() * self.blocks_per_comp() * 64 <= usize::MAX
        &&& books_wf(self.dc_codebooks@)
        &&& books_wf(self.ac_codebooks@)
        &&& forall|k: int|
            0 <= k < self.components@.len() && k < self.dc_selectors@.len()
                ==> #[trigger] self.dc_selectors@[k] < 4
        &&& forall|k: int|
            0 <= k < self.components@.len() && k < self.ac_selectors@.len()
                ==> #[trigger] self.ac_selectors@[k] < 4
    }

    /// The tables of component `k`, or what is missing.
    pub open spec fn tables_for(&self, k: int) -> Result<
        (Seq<CanonicalEntry>, Seq<CanonicalEntry>),
        CoefficientError,
    > {
        if k >= self.dc_selectors@.len() {
            Err(CoefficientError::NoDcSelector { comp: k as usize })
        } else if k >= self.ac_selectors@.len() {
            Err(CoefficientError::NoAcSelector { comp: k as usize })
        } else {
            match self.dc_codebooks@[self.dc_selectors@[k] as int] {
                None => Err(
                    CoefficientError::MissingDcCodebook { selector: self.dc_selectors@[k] },
                ),
                Some(dc) => match self.ac_codebooks@[self.ac_selectors@[k] as int] {
                    None => Err(
                        CoefficientError::MissingAcCodebook { selector: self.ac_selectors@[k] },
                    ),
                    Some(ac) => Ok((dc@, ac@)),
                },
            }
        }
    }

    /// One block of component `comp`.
    pub open spec fn block_extracted(
        &self,
        dc: Seq<CanonicalEntry>,
        ac: Seq<CanonicalEntry>,
        mcu: u32,
        comp: nat,
        st: CoefState,
    ) -> Result<CoefState, CoefficientError> {
        let src = self.bitstream.stream_bytes();
        match dc_passed(src, st.pos, dc, mcu, comp as usize) {
            Err(e) => Err(e),
            Ok(p) => match ac_extracted(
                src,
                p,
                ac,
                1,
                block_base(comp, self.blocks_per_comp(), st.counts[comp as int]),
                st.coef,
                mcu,
                comp as usize,
            ) {
                Err(e) => Err(e),
                Ok((q, coef)) => Ok(
                    CoefState {
                        pos: q,
                        coef,
                        counts: st.counts.update(comp as int, st.counts[comp as int] + 1),
                    },
                ),
            },
        }
    }

    /// Blocks `k` and up of one component of an MCU.
    pub open spec fn blocks_extracted(
        &self,
        dc: Seq<CanonicalEntry>,
        ac: Seq<CanonicalEntry>,
        mcu: u32,
        comp: nat,
        k: nat,
        st: CoefState,
    ) -> Result<CoefState, CoefficientError>
        decreases self.mcu_blocks(comp as int) - k,
    {
        if k >= self.mcu_blocks(comp as int) {
            Ok(st)
        } else {
            match self.block_extracted(dc, ac, mcu, comp, st) {
                Ok(next) => self.blocks_extracted(dc, ac, mcu, comp, k + 1, next),
                Err(e) => Err(e),
            }
        }
    }

    /// Components `comp` and up of an MCU.
    pub open spec fn components_extracted(&self, mcu: u32, comp: nat, st: CoefState) -> Result<
        CoefState,
        CoefficientError,
    >
        decreases self.components@.len() - comp,
    {
        if comp >= self.components@.len() {
            Ok(st)
        } else {
            match self.tables_for(comp as int) {
                Err(e) => Err(e),
                Ok((dc, ac)) => match self.blocks_extracted(dc, ac, mcu, comp, 0, st) {
                    Ok(next) => self.components_extracted(mcu, comp + 1, next),
                    Err(e) => Err(e),
                },
            }
        }
    }

    /// MCUs `mcu` and up.
    pub open spec fn mcus_extracted(&self, mcu: nat, st: CoefState) -> Result<
        CoefState,
        CoefficientError,
    >
        decreases self.num_mcus() - mcu,
    {
        if mcu >= self.num_mcus() {
            Ok(st)
        } else {
            match self.components_extracted(mcu as u32, 0, st) {
                Ok(next) => self.mcus_extracted(mcu + 1, next),
                Err(e) => Err(e),
            }
        }
    }

    /// Nothing extracted yet.
    pub open spec fn blank_coefs(&self) -> CoefState {
        CoefState {
            pos: 0,
            coef: Seq::new(
                self.components@.len() * self.blocks_per_comp() * 64,
                |i: int| 0i32,
            ),
            counts: Seq::new(self.components@.len(), |i: int| 0nat),
        }
    }
}

/// DC values from `(comp, block)` on, written into `flat`.
pub open spec fn dc_placed(
    rows: Seq<Seq<i32>>,
    blocks_per_comp: nat,
    comp: nat,
    block: nat,
    flat: Seq<i32>,
) -> Result<Seq<i32>, CoefficientError>
    decreases rows.len() - comp, rows[comp as int].len() - block,
{
    if comp >= rows.len() {
        Ok(flat)
    } else if block >= rows[comp as int].len() {
        dc_placed(rows, blocks_per_comp, comp + 1, 0, flat)
    } else {
        let index = comp * blocks_per_comp + block;
        if index >= flat.len() {
            Err(
                CoefficientError::DcValuesOverflow {
                    comp: comp as usize,
                    block: block as usize,
                    index: index as u64,
                    len: flat.len() as u64,
                },
            )
        } else {
            dc_placed(
                rows,
                blocks_per_comp,
                comp,
                block + 1,
                flat.update(index as int, rows[comp as int][block as int]),
            )
        }
    }
}

impl JpegPreparedInput {
    /// The DC values of the components, block by block.
    pub open spec fn dc_flat(&self) -> Result<Seq<i32>, CoefficientError> {
        let n = self.components@.len();
        let rows = self.dc_values@;
        dc_placed(
            if rows.len() <= n {
                rows
            } else {
                rows.take(n as int)
            },
            self.blocks_per_comp(),
            0,
            0,
            Seq::new(n * self.blocks_per_comp(), |i: int| 0i32),
        )
    }

    /// The quantisation tables the components reference, in the order the
    /// kernel selects them.
    pub open spec fn qt_slots(&self) -> Seq<u8> {
        if self.components@.len() == 1 {
            seq![self.components@[0].quant_selector]
        } else {
            seq![0u8, 1u8]
        }
    }

    /// First slot, from `k` on, without a table.
    pub open spec fn first_undefined_slot(&self, k: int) -> Option<u8>
        decreases self.qt_slots().len() - k,
    {
        if k >= self.qt_slots().len() {
            None
        } else if self.qt_slots()[k] >= 4 || self.quant_tables@[self.qt_slots()[k] as int] is None {
            Some(self.qt_slots()[k])
        } else {
            self.first_undefined_slot(k + 1)
        }
    }

    /// The referenced tables, one after the other.
    pub open spec fn qt_flat(&self) -> Seq<i32> {
        Seq::new(
            self.qt_slots().len() * 64,
            |i: int|
                self.quant_tables@[self.qt_slots()[i / 64] as int]->0.values@[i % 64] as i32,
        )
    }

    /// What coefficient extraction gives: coefficients, DC values,
    /// quantisation tables and their number.
    pub open spec fn extraction(&self) -> Result<
        (Seq<i32>, Seq<i32>, Seq<i32>, nat),
        CoefficientError,
    > {
        match self.mcus_extracted(0, self.blank_coefs()) {
            Err(e) => Err(e),
            Ok(st) => match self.dc_flat() {
                Err(e) => Err(e),
                Ok(dc) => match self.first_undefined_slot(0) {
                    Some(slot) => Err(CoefficientError::UndefinedQuantTable { slot }),
                    None => Ok((st.coef, dc, self.qt_flat(), self.qt_slots().len())),
                },
            },
        }
    }
}

} // verus!
