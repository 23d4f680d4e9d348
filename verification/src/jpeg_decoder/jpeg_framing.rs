//! CPU reference walker for the JPEG-framed entropy-coded segment.
//!
//! The parallel-Huffman kernels emit a stream of symbols in scan order: per
//! block one DC symbol followed by its AC symbols up to the end of the block,
//! for every block of every MCU.  This module emits the same stream on the
//! CPU.  EOB and ZRL are themselves emitted, so that a consumer can find the
//! block boundaries; the upper bits of each `u32` are zero.

use super::error::JpegGpuError;
use super::prepared::JpegPreparedInput;
use crate::jpeg::bitreader::BitReader;
use crate::jpeg::canonical::{CanonicalCodebook, CanonicalEntry};
use crate::jpeg::entropy::{code_at, read_code, CodeRead};
use crate::jpeg::geometry::{block_count, component_blocks_per_mcu, frame_mcus, mcu_count};
use crate::text::{decimal, push_decimal};
use vstd::prelude::*;
use vstd::string::*;

verus! {

/// Errors emitted by [`decode_scan_symbols`].
#[derive(Debug, Clone, PartialEq, Eq)]
#[non_exhaustive]
pub enum JpegFramingError {
    /// Bitstream ended mid-decode.
    UnexpectedEnd {
        /// 0-based MCU index where the truncation surfaced.
        mcu_index: u32,
        /// 0-based scan-component index where the truncation surfaced.
        scan_component: u8,
    },
    /// 16-bit prefix that no code begins.
    InvalidCode {
        /// 0-based MCU index where the prefix-miss surfaced.
        mcu_index: u32,
        /// 0-based scan-component index where the prefix-miss surfaced.
        scan_component: u8,
    },
    /// AC run+size pair (or ZRL) walked past coefficient slot 63.
    AcOverflow {
        /// 0-based MCU index where the overflow surfaced.
        mcu_index: u32,
    },
    /// AC magnitude size > 10 (max for 8-bit baseline JPEG).
    BadAcSize {
        /// 0-based MCU index where the bad size surfaced.
        mcu_index: u32,
        /// 0-based scan-component index where the bad size surfaced.
        scan_component: u8,
        /// The size as decoded from the AC Huffman table.
        size: u8,
    },
    /// DC magnitude category > 11 (max for 8-bit baseline JPEG).
    BadDcCategory {
        /// 0-based MCU index where the bad category surfaced.
        mcu_index: u32,
        /// 0-based scan-component index where the bad category surfaced.
        scan_component: u8,
        /// The category as decoded from the DC Huffman table.
        category: u8,
    },
    /// A scan component has a zero sampling factor.
    DegenerateSampling {
        /// Scan-component index that carries the degenerate sampling.
        scan_component: u8,
    },
    /// Restart-aware bitstreams are refused rather than drifting after the
    /// first restart boundary.
    RestartMarkersUnsupported {
        /// Restart interval (in MCUs) the input declared.
        restart_interval: u16,
    },
}

impl JpegFramingError {
    pub open spec fn text(self) -> Seq<char> {
        match self {
            JpegFramingError::UnexpectedEnd { mcu_index, scan_component } =>
            "JPEG framing: bitstream ended at MCU "@ + decimal(mcu_index as nat)
                + ", scan-component "@ + decimal(scan_component as nat),
            JpegFramingError::InvalidCode { mcu_index, scan_component } =>
            "JPEG framing: invalid Huffman prefix at MCU "@ + decimal(mcu_index as nat)
                + ", scan-component "@ + decimal(scan_component as nat),
            JpegFramingError::AcOverflow { mcu_index } =>
            "JPEG framing: AC run+size (or ZRL) walked past slot 63 at MCU "@ + decimal(
                mcu_index as nat,
            ),
            JpegFramingError::BadAcSize { mcu_index, scan_component, size } =>
            "JPEG framing: AC size "@ + decimal(size as nat) + " > 10 at MCU "@ + decimal(
                mcu_index as nat,
            ) + ", scan-component "@ + decimal(scan_component as nat)
                + " (8-bit baseline cap)"@,
            JpegFramingError::BadDcCategory { mcu_index, scan_component, category } =>
            "JPEG framing: DC category "@ + decimal(category as nat) + " > 11 at MCU "@ + decimal(
                mcu_index as nat,
            ) + ", scan-component "@ + decimal(scan_component as nat)
                + " (8-bit baseline cap)"@,
            JpegFramingError::DegenerateSampling { scan_component } =>
            "JPEG framing: scan-component "@ + decimal(scan_component as nat)
                + " has 0 horizontal or vertical sampling"@,
            JpegFramingError::RestartMarkersUnsupported { restart_interval } =>
            "JPEG framing: restart-aware bitstream not yet wired (interval = "@ + decimal(
                restart_interval as nat,
            ) + " MCUs)"@,
        }
    }

    /// The error as a sentence.
    pub fn message(&self) -> (s: String)
        ensures
            s@ == self.text(),
    {
        match self {
            JpegFramingError::UnexpectedEnd { mcu_index, scan_component } => {
                let mut s = String::from_str("JPEG framing: bitstream ended at MCU ");
                push_decimal(&mut s, *mcu_index as u64);
                s.append(", scan-component ");
                push_decimal(&mut s, *scan_component as u64);
                s
            },
            JpegFramingError::InvalidCode { mcu_index, scan_component } => {
                let mut s = String::from_str("JPEG framing: invalid Huffman prefix at MCU ");
                push_decimal(&mut s, *mcu_index as u64);
                s.append(", scan-component ");
                push_decimal(&mut s, *scan_component as u64);
                s
            },
            JpegFramingError::AcOverflow { mcu_index } => {
                let mut s = String::from_str(
                    "JPEG framing: AC run+size (or ZRL) walked past slot 63 at MCU ",
                );
                push_decimal(&mut s, *mcu_index as u64);
                s
            },
            JpegFramingError::BadAcSize { mcu_index, scan_component, size } => {
                let mut s = String::from_str("JPEG framing: AC size ");
                push_decimal(&mut s, *size as u64);
                s.append(" > 10 at MCU ");
                push_decimal(&mut s, *mcu_index as u64);
                s.append(", scan-component ");
                push_decimal(&mut s, *scan_component as u64);
                s.append(" (8-bit baseline cap)");
                s
            },
            JpegFramingError::BadDcCategory { mcu_index, scan_component, category } => {
                let mut s = String::from_str("JPEG framing: DC category ");
                push_decimal(&mut s, *category as u64);
                s.append(" > 11 at MCU ");
                push_decimal(&mut s, *mcu_index as u64);
                s.append(", scan-component ");
                push_decimal(&mut s, *scan_component as u64);
                s.append(" (8-bit baseline cap)");
                s
            },
            JpegFramingError::DegenerateSampling { scan_component } => {
                let mut s = String::from_str("JPEG framing: scan-component ");
                push_decimal(&mut s, *scan_component as u64);
                s.append(" has 0 horizontal or vertical sampling");
                s
            },
            JpegFramingError::RestartMarkersUnsupported { restart_interval } => {
                let mut s = String::from_str(
                    "JPEG framing: restart-aware bitstream not yet wired (interval = ",
                );
                push_decimal(&mut s, *restart_interval as u64);
                s.append(" MCUs)");
                s
            },
        }
    }
}

/// Framing failures surface as dispatch errors: the stream is corrupt or
/// unsupported, and the image goes to a CPU decoder.
pub fn framing_error(e: &JpegFramingError) -> (r: JpegGpuError)
    ensures
        r matches JpegGpuError::Dispatch(s) && s@ == e.text(),
{
    JpegGpuError::Dispatch(e.message())
}

/// The symbols emitted so far and the position behind them.
#[verifier::ext_equal]
pub struct WalkState {
    pub pos: int,
    pub symbols: Seq<u32>,
}

/// One scan component's share of the walk.
pub struct LaneModel {
    pub blocks: nat,
    pub dc: Seq<CanonicalEntry>,
    pub ac: Seq<CanonicalEntry>,
}

/// The DC symbol at the state's position.
pub open spec fn dc_emitted(
    src: Seq<u8>,
    table: Seq<CanonicalEntry>,
    st: WalkState,
    mcu: u32,
    comp: u8,
) -> Result<WalkState, JpegFramingError> {
    match code_at(src, st.pos, table) {
        CodeRead::End => Err(
            JpegFramingError::UnexpectedEnd { mcu_index: mcu, scan_component: comp },
        ),
        CodeRead::Miss => Err(
            JpegFramingError::InvalidCode { mcu_index: mcu, scan_component: comp },
        ),
        CodeRead::Code(e) => {
            let p = st.pos + e.num_bits;
            if e.symbol > 11 {
                Err(
                    JpegFramingError::BadDcCategory {
                        mcu_index: mcu,
                        scan_component: comp,
                        category: e.symbol,
                    },
                )
            } else if p + e.symbol > 8 * src.len() {
                Err(JpegFramingError::UnexpectedEnd { mcu_index: mcu, scan_component: comp })
            } else {
                Ok(WalkState { pos: p + e.symbol, symbols: st.symbols.push(e.symbol as u32) })
            }
        },
    }
}

/// The AC symbols from slot `slot` to the end of the block.
pub open spec fn ac_emitted(
    src: Seq<u8>,
    table: Seq<CanonicalEntry>,
    slot: nat,
    st: WalkState,
    mcu: u32,
    comp: u8,
) -> Result<WalkState, JpegFramingError>
    decreases 64 - slot,
{
    if slot >= 64 {
        Ok(st)
    } else {
        match code_at(src, st.pos, table) {
            CodeRead::End => Err(
                JpegFramingError::UnexpectedEnd { mcu_index: mcu, scan_component: comp },
            ),
            CodeRead::Miss => Err(
                JpegFramingError::InvalidCode { mcu_index: mcu, scan_component: comp },
            ),
            CodeRead::Code(e) => {
                let p = st.pos + e.num_bits;
                let out = st.symbols.push(e.symbol as u32);
                let size = e.symbol % 16;
                let next = slot + e.symbol as nat / 16 + 1;
                if e.symbol == 0x00 {
                    Ok(WalkState { pos: p, symbols: out })
                } else if e.symbol == 0xF0 {
                    if slot + 16 > 64 {
                        Err(JpegFramingError::AcOverflow { mcu_index: mcu })
                    } else {
                        ac_emitted(
                            src,
                            table,
                            slot + 16,
                            WalkState { pos: p, symbols: out },
                            mcu,
                            comp,
                        )
                    }
                } else if size > 10 {
                    Err(
                        JpegFramingError::BadAcSize {
                            mcu_index: mcu,
                            scan_component: comp,
                            size,
                        },
                    )
                } else if next > 64 {
                    Err(JpegFramingError::AcOverflow { mcu_index: mcu })
                } else if p + size > 8 * src.len() {
                    Err(JpegFramingError::UnexpectedEnd { mcu_index: mcu, scan_component: comp })
                } else {
                    ac_emitted(
                        src,
                        table,
                        next,
                        WalkState { pos: p + size, symbols: out },
                        mcu,
                        comp,
                    )
                }
            },
        }
    }
}

/// One block: its DC symbol, then its AC symbols.
pub open spec fn block_emitted(
    src: Seq<u8>,
    lanes: Seq<LaneModel>,
    mcu: u32,
    comp: nat,
    st: WalkState,
) -> Result<WalkState, JpegFramingError> {
    match dc_emitted(src, lanes[comp as int].dc, st, mcu, comp as u8) {
        Ok(mid) => ac_emitted(src, lanes[comp as int].ac, 1, mid, mcu, comp as u8),
        Err(e) => Err(e),
    }
}

/// Blocks `k` and up of one component of an MCU.
pub open spec fn blocks_emitted(
    src: Seq<u8>,
    lanes: Seq<LaneModel>,
    mcu: u32,
    comp: nat,
    k: nat,
    st: WalkState,
) -> Result<WalkState, JpegFramingError>
    decreases lanes[comp as int].blocks - k,
{
    if k >= lanes[comp as int].blocks {
        Ok(st)
    } else {
        match block_emitted(src, lanes, mcu, comp, st) {
            Ok(next) => blocks_emitted(src, lanes, mcu, comp, k + 1, next),
            Err(e) => Err(e),
        }
    }
}

/// Components `comp` and up of an MCU.
pub open spec fn components_emitted(
    src: Seq<u8>,
    lanes: Seq<LaneModel>,
    mcu: u32,
    comp: nat,
    st: WalkState,
) -> Result<WalkState, JpegFramingError>
    decreases lanes.len() - comp,
{
    if comp >= lanes.len() {
        Ok(st)
    } else {
        match blocks_emitted(src, lanes, mcu, comp, 0, st) {
            Ok(next) => components_emitted(src, lanes, mcu, comp + 1, next),
            Err(e) => Err(e),
        }
    }
}

/// MCUs `mcu` and up of `mcus`.
pub open spec fn mcus_emitted(
    src: Seq<u8>,
    lanes: Seq<LaneModel>,
    mcus: nat,
    mcu: nat,
    st: WalkState,
) -> Result<WalkState, JpegFramingError>
    decreases mcus - mcu,
{
    if mcu >= mcus {
        Ok(st)
    } else {
        match components_emitted(src, lanes, mcu as u32, 0, st) {
            Ok(next) => mcus_emitted(src, lanes, mcus, mcu + 1, next),
            Err(e) => Err(e),
        }
    }
}

impl JpegPreparedInput {
    /// A prepared input a scan walker can walk: at most four components,
    /// each with its tables, and block counts that fit a byte.
    pub open spec fn walkable(&self) -> bool {
        &&& self.components@.len() <= 4
        &&& self.tables_present()
        &&& self.components@.len() > 1 ==> forall|k: int|
            0 <= k < self.components@.len() ==> (#[trigger] self.components@[k]).h_sampling
                * self.components@[k].v_sampling <= 255
    }

    /// What each component contributes.
    pub open spec fn lanes(&self) -> Seq<LaneModel> {
        Seq::new(
            self.components@.len(),
            |k: int|
                LaneModel {
                    blocks: block_count(
                        self.components@.len(),
                        self.components@[k].h_sampling as nat,
                        self.components@[k].v_sampling as nat,
                    ),
                    dc: self.dc_table(k),
                    ac: self.ac_table(k),
                },
        )
    }

    /// First component, from `k` on, with a zero sampling factor.
    pub open spec fn first_degenerate(&self, k: int) -> Option<int>
        decreases self.components@.len() - k,
    {
        if k >= self.components@.len() {
            None
        } else if self.components@[k].h_sampling == 0 || self.components@[k].v_sampling == 0 {
            Some(k)
        } else {
            self.first_degenerate(k + 1)
        }
    }

    /// MCUs of the frame.
    pub open spec fn num_mcus(&self) -> nat {
        frame_mcus(self.width as nat, self.height as nat, self.components@)
    }

    /// The scan's symbol stream.
    pub open spec fn scan_symbols(&self) -> Result<Seq<u32>, JpegFramingError> {
        if self.restart_interval > 0 {
            Err(
                JpegFramingError::RestartMarkersUnsupported {
                    restart_interval: self.restart_interval,
                },
            )
        } else {
            match self.first_degenerate(0) {
                Some(k) => Err(
                    JpegFramingError::DegenerateSampling { scan_component: k as u8 },
                ),
                None => match mcus_emitted(
                    self.bitstream.stream_bytes(),
                    self.lanes(),
                    self.num_mcus(),
                    0,
                    WalkState { pos: 0, symbols: Seq::empty() },
                ) {
                    Ok(st) => Ok(st.symbols),
                    Err(e) => Err(e),
                },
            }
        }
    }
}

/// Walk the prepared JPEG and emit the kernel-shaped symbol stream.
///
/// An error means that the image goes to a CPU decoder.
pub fn decode_scan_symbols(prep: &JpegPreparedInput) -> (symbols: Result<
    Vec<u32>,
    JpegFramingError,
>)
    requires
        prep.walkable(),
    ensures
        match prep.scan_symbols() {
            Ok(s) => symbols matches Ok(r) && r@ == s,
            Err(e) => symbols matches Err(r) && r == e,
        },
{
    match ScanWalker::new(prep) {
        Ok(walker) => walker.run(),
        Err(e) => Err(e),
    }
}

struct ScanWalker<'a> {
    bytes: Vec<u8>,
    dc_cbs: Vec<&'a CanonicalCodebook>,
    ac_cbs: Vec<&'a CanonicalCodebook>,
    /// Number of 8×8 blocks each scan component contributes per MCU.
    blocks_per_mcu: Vec<u8>,
    num_mcus: u32,
}

impl<'a> ScanWalker<'a> {
    spec fn wf(&self) -> bool {
        &&& self.dc_cbs@.len() == self.blocks_per_mcu@.len()
        &&& self.ac_cbs@.len() == self.blocks_per_mcu@.len()
        &&& self.blocks_per_mcu@.len() <= 4
        &&& forall|k: int| 0 <= k < self.dc_cbs@.len() ==> (#[trigger] self.dc_cbs@[k]).wf()
        &&& forall|k: int| 0 <= k < self.ac_cbs@.len() ==> (#[trigger] self.ac_cbs@[k]).wf()
    }

    spec fn lanes(&self) -> Seq<LaneModel> {
        Seq::new(
            self.blocks_per_mcu@.len(),
            |k: int|
                LaneModel {
                    blocks: self.blocks_per_mcu@[k] as nat,
                    dc: self.dc_cbs@[k]@,
                    ac: self.ac_cbs@[k]@,
                },
        )
    }

    fn new(prep: &'a JpegPreparedInput) -> (walker: Result<Self, JpegFramingError>)
        requires
            prep.walkable(),
        ensures
            match walker {
                Ok(w) => w.wf() && prep.restart_interval == 0 && prep.first_degenerate(0) is None
                    && w.bytes@ == prep.bitstream.stream_bytes() && w.lanes() == prep.lanes()
                    && w.num_mcus == prep.num_mcus(),
                Err(e) => prep.scan_symbols() matches Err(f) && f == e,
            },
    {
        if prep.restart_interval > 0 {
            return Err(
                JpegFramingError::RestartMarkersUnsupported {
                    restart_interval: prep.restart_interval,
                },
            );
        }
        let scan_components: usize = prep.components.len();
        let mut blocks_per_mcu: Vec<u8> = Vec::new();
        let mut k: usize = 0;
        while k < scan_components
            invariant
                k <= scan_components <= 4,
                scan_components == prep.components@.len(),
                prep.walkable(),
                prep.restart_interval == 0,
                prep.first_degenerate(0) == prep.first_degenerate(k as int),
                blocks_per_mcu@.len() == k,
                forall|j: int|
                    0 <= j < k ==> blocks_per_mcu@[j] == (#[trigger] prep.lanes()[j]).blocks,
            decreases scan_components - k,
        {
            let fc = prep.components[k];
            if fc.h_sampling == 0 || fc.v_sampling == 0 {
                return Err(JpegFramingError::DegenerateSampling { scan_component: k as u8 });
            }
            blocks_per_mcu.push(
                component_blocks_per_mcu(scan_components, fc.h_sampling, fc.v_sampling),
            );
            k = k + 1;
        }
        let walker = ScanWalker {
            bytes: prep.bitstream.unpack_bytes(),
            dc_cbs: prep.dc_codebooks_for_dispatch(),
            ac_cbs: prep.ac_codebooks_for_dispatch(),
            blocks_per_mcu,
            num_mcus: mcu_count(prep.width, prep.height, prep.components.as_slice()),
        };
        assert(walker.lanes() =~= prep.lanes());
        Ok(walker)
    }

    fn run(self) -> (symbols: Result<Vec<u32>, JpegFramingError>)
        requires
            self.wf(),
        ensures
            match mcus_emitted(
                self.bytes@,
                self.lanes(),
                self.num_mcus as nat,
                0,
                (WalkState { pos: 0, symbols: Seq::empty() }),
            ) {
                Ok(st) => symbols matches Ok(r) && r@ == st.symbols,
                Err(e) => symbols matches Err(r) && r == e,
            },
    {
        let mut reader = BitReader::new(self.bytes.as_slice());
        let mut symbols: Vec<u32> = Vec::new();
        let ghost src = self.bytes@;
        let ghost lanes = self.lanes();
        let ghost start = WalkState { pos: 0, symbols: Seq::empty() };
        let ghost whole = mcus_emitted(self.bytes@, self.lanes(), self.num_mcus as nat, 0, start);
        let mut mcu: u32 = 0;
        while mcu < self.num_mcus
            invariant
                mcu <= self.num_mcus,
                self.wf(),
                src == self.bytes@,
                start == (WalkState { pos: 0, symbols: Seq::empty() }),
                whole == mcus_emitted(
                    self.bytes@,
                    self.lanes(),
                    self.num_mcus as nat,
                    0,
                    start,
                ),
                lanes == self.lanes(),
                reader.wf(),
                reader.source() == src,
                whole == mcus_emitted(
                    src,
                    lanes,
                    self.num_mcus as nat,
                    mcu as nat,
                    (WalkState { pos: reader.pos(), symbols: symbols@ }),
                ),
            decreases self.num_mcus - mcu,
        {
            let ghost mcu_start = WalkState { pos: reader.pos(), symbols: symbols@ };
            let ghost in_mcu = components_emitted(src, lanes, mcu, 0, mcu_start);
            let mut k: usize = 0;
            while k < self.blocks_per_mcu.len()
                invariant
                    mcu < self.num_mcus,
                    k <= self.blocks_per_mcu@.len(),
                    self.wf(),
                    src == self.bytes@,
                    start == (WalkState { pos: 0, symbols: Seq::empty() }),
                    whole == mcus_emitted(
                        self.bytes@,
                        self.lanes(),
                        self.num_mcus as nat,
                        0,
                        start,
                    ),
                    lanes == self.lanes(),
                    reader.wf(),
                    reader.source() == src,
                    in_mcu == components_emitted(
                        src,
                        lanes,
                        mcu,
                        k as nat,
                        (WalkState { pos: reader.pos(), symbols: symbols@ }),
                    ),
                    whole == (match in_mcu {
                        Ok(next) => mcus_emitted(
                            src,
                            lanes,
                            self.num_mcus as nat,
                            (mcu + 1) as nat,
                            next,
                        ),
                        Err(e) => Err(e),
                    }),
                decreases self.blocks_per_mcu@.len() - k,
            {
                let bpm: u8 = self.blocks_per_mcu[k];
                let ghost comp_start = WalkState { pos: reader.pos(), symbols: symbols@ };
                let ghost in_comp = blocks_emitted(src, lanes, mcu, k as nat, 0, comp_start);
                let mut b: u8 = 0;
                while b < bpm
                    invariant
                        mcu < self.num_mcus,
                        k < self.blocks_per_mcu@.len(),
                        b <= bpm,
                        bpm == lanes[k as int].blocks,
                        self.wf(),
                        src == self.bytes@,
                        start == (WalkState { pos: 0, symbols: Seq::empty() }),
                        whole == mcus_emitted(
                            self.bytes@,
                            self.lanes(),
                            self.num_mcus as nat,
                            0,
                            start,
                        ),
                        lanes == self.lanes(),
                        reader.wf(),
                        reader.source() == src,
                        in_comp == blocks_emitted(
                            src,
                            lanes,
                            mcu,
                            k as nat,
                            b as nat,
                            (WalkState { pos: reader.pos(), symbols: symbols@ }),
                        ),
                        in_mcu == (match in_comp {
                            Ok(next) => components_emitted(src, lanes, mcu, (k + 1) as nat, next),
                            Err(e) => Err(e),
                        }),
                        whole == (match in_mcu {
                            Ok(next) => mcus_emitted(
                                src,
                                lanes,
                                self.num_mcus as nat,
                                (mcu + 1) as nat,
                                next,
                            ),
                            Err(e) => Err(e),
                        }),
                    decreases bpm - b,
                {
                    match emit_dc_symbol(
                        &mut reader,
                        self.dc_cbs[k],
                        &mut symbols,
                        mcu,
                        k as u8,
                    ) {
                        Ok(_) => {},
                        Err(e) => return Err(e),
                    }
                    match emit_ac_symbols(
                        &mut reader,
                        self.ac_cbs[k],
                        &mut symbols,
                        mcu,
                        k as u8,
                    ) {
                        Ok(_) => {},
                        Err(e) => return Err(e),
                    }
                    b = b + 1;
                }
                k = k + 1;
            }
            mcu = mcu + 1;
        }
        Ok(symbols)
    }
}

/// Decode the next DC codeword, emit its symbol byte, and consume the raw
/// bits that encode the DC magnitude.
fn emit_dc_symbol(
    reader: &mut BitReader<'_>,
    cb: &CanonicalCodebook,
    out: &mut Vec<u32>,
    mcu: u32,
    scan_component: u8,
) -> (r: Result<(), JpegFramingError>)
    requires
        old(reader).wf(),
        cb.wf(),
    ensures
        final(reader).wf(),
        final(reader).source() == old(reader).source(),
        match dc_emitted(
            old(reader).source(),
            cb@,
            (WalkState { pos: old(reader).pos(), symbols: old(out)@ }),
            mcu,
            scan_component,
        ) {
            Ok(st) => r is Ok && st == (WalkState {
                pos: final(reader).pos(),
                symbols: final(out)@,
            }),
            Err(e) => r matches Err(f) && f == e,
        },
{
    let entry = match read_code(reader, cb) {
        CodeRead::Code(entry) => entry,
        CodeRead::End => {
            return Err(JpegFramingError::UnexpectedEnd { mcu_index: mcu, scan_component });
        },
        CodeRead::Miss => {
            return Err(JpegFramingError::InvalidCode { mcu_index: mcu, scan_component });
        },
    };
    let category: u8 = entry.symbol;
    if category > 11 {
        return Err(
            JpegFramingError::BadDcCategory { mcu_index: mcu, scan_component, category },
        );
    }
    out.push(category as u32);
    if reader.read_bits(category as usize).is_none() {
        return Err(JpegFramingError::UnexpectedEnd { mcu_index: mcu, scan_component });
    }
    Ok(())
}

/// Walk one block's 63 AC slots, emitting each Huffman symbol byte
/// (EOB / ZRL included) until EOB fires or the 63rd slot is reached.
fn emit_ac_symbols(
    reader: &mut BitReader<'_>,
    cb: &CanonicalCodebook,
    out: &mut Vec<u32>,
    mcu: u32,
    scan_component: u8,
) -> (r: Result<(), JpegFramingError>)
    requires
        old(reader).wf(),
        cb.wf(),
    ensures
        final(reader).wf(),
        final(reader).source() == old(reader).source(),
        match ac_emitted(
            old(reader).source(),
            cb@,
            1,
            (WalkState { pos: old(reader).pos(), symbols: old(out)@ }),
            mcu,
            scan_component,
        ) {
            Ok(st) => r is Ok && st == (WalkState {
                pos: final(reader).pos(),
                symbols: final(out)@,
            }),
            Err(e) => r matches Err(f) && f == e,
        },
{
    let mut slot: u8 = 1;
    while slot < 64
        invariant
            1 <= slot <= 64,
            reader.wf(),
            cb.wf(),
            reader.source() == old(reader).source(),
            ac_emitted(
                old(reader).source(),
                cb@,
                1,
                (WalkState { pos: old(reader).pos(), symbols: old(out)@ }),
                mcu,
                scan_component,
            ) == ac_emitted(
                reader.source(),
                cb@,
                slot as nat,
                (WalkState { pos: reader.pos(), symbols: out@ }),
                mcu,
                scan_component,
            ),
        decreases 64 - slot,
    {
        let entry = match read_code(reader, cb) {
            CodeRead::Code(entry) => entry,
            CodeRead::End => {
                return Err(JpegFramingError::UnexpectedEnd { mcu_index: mcu, scan_component });
            },
            CodeRead::Miss => {
                return Err(JpegFramingError::InvalidCode { mcu_index: mcu, scan_component });
            },
        };
        let symbol: u8 = entry.symbol;
        out.push(symbol as u32);
        if symbol == 0x00 {
            // EOB: rest of block is implicitly zero.
            return Ok(());
        }
        if symbol == 0xF0 {
            // ZRL: 16-zero run; no raw bits follow.
            if slot > 48 {
                return Err(JpegFramingError::AcOverflow { mcu_index: mcu });
            }
            slot = slot + 16;
            continue ;
        }
        let run: u8 = symbol / 16;
        let size: u8 = symbol % 16;
        if size > 10 {
            return Err(JpegFramingError::BadAcSize { mcu_index: mcu, scan_component, size });
        }
        slot = slot + run + 1;
        if slot > 64 {
            return Err(JpegFramingError::AcOverflow { mcu_index: mcu });
        }
        if reader.read_bits(size as usize).is_none() {
            return Err(JpegFramingError::UnexpectedEnd { mcu_index: mcu, scan_component });
        }
    }
    Ok(())
}

} // verus!
