//! DC differential chain resolution.
//!
//! In a baseline scan each block's DC coefficient is coded as the difference
//! from the previous block of the same component; the predictor starts at
//! zero and returns to zero at every restart marker.  The chain is serial,
//! so it is resolved here, once, and the absolute values travel with the
//! rest of the stream.  AC coefficients are only skipped.

use super::bitreader::BitReader;
use super::canonical::{books_view, books_wf, CanonicalCodebook, CanonicalEntry};
use super::entropy::{code_at, extend, extended, read_code, CodeRead};
use super::geometry::{block_count, component_blocks_per_mcu, frame_mcus};
use super::header_spec::HeadersModel;
use super::headers::{DhtClass, JpegFrameComponent, JpegHeaders, JpegScanComponent};
use super::unstuff::RstPosition;
use crate::bits::{bits, lemma_bits_bound};
use crate::text::{decimal, push_decimal};
use vstd::arithmetic::power2::*;
use vstd::prelude::*;
use vstd::string::*;

verus! {

/// Per-component absolute DC values, one per block, in scan order.
#[derive(Debug, Clone)]
pub struct DcValues {
    /// Per-component scan-order DC values.  The outer index is the position
    /// in the scan header, not in the frame.
    pub per_component: Vec<Vec<i32>>,
}

impl View for DcValues {
    type V = Seq<Seq<i32>>;

    open spec fn view(&self) -> Seq<Seq<i32>> {
        Seq::new(self.per_component@.len(), |i: int| self.per_component@[i]@)
    }
}

/// Bounded number of MCUs accepted from a single image: the most that 16-bit
/// dimensions can express.
pub const MAX_SAFE_MCUS: usize = 67_108_864;

/// Errors emitted by [`resolve_dc_chain`].
#[derive(Debug, Clone, PartialEq, Eq)]
pub enum DcChainError {
    /// Bitstream ended before all expected DC values were decoded.
    UnexpectedEnd {
        /// MCU index where the truncation was observed.
        mcu_index: u32,
        /// Component index within the MCU.
        component_index: u8,
    },
    /// A Huffman lookup landed on an unassigned slot.
    InvalidCode {
        /// MCU index where the failure was observed.
        mcu_index: u32,
        /// Component index within the MCU.
        component_index: u8,
    },
    /// DC code declared a magnitude category > 11 (max for 8-bit baseline).
    BadDcCategory {
        /// Category claimed by the Huffman code.
        category: u8,
    },
    /// AC code declared run+size pair beyond the 63-coefficient block.
    AcOverflow {
        /// MCU index where AC ran past coefficient 63.
        mcu_index: u32,
    },
    /// SOS scan referenced a Huffman table that wasn't pre-built.
    MissingHuffmanTable {
        /// Class (DC or AC).
        class: DhtClass,
        /// Selector value from SOS.
        selector: u8,
    },
    /// The scan has no component, too many, or one without blocks.
    UnsupportedScanShape,
    /// Image dimensions × sampling factors exceed the safety cap.
    TooManyMcus {
        /// Count requested.
        requested: u64,
    },
    /// A scan component is not declared in SOF0.
    UnknownScanComponent {
        /// The unknown component identifier.
        component_id: u8,
    },
}

impl DcChainError {
    pub open spec fn text(self) -> Seq<char> {
        match self {
            DcChainError::UnexpectedEnd { mcu_index, component_index } =>
            "DC chain pre-pass: bitstream ended unexpectedly at MCU "@ + decimal(mcu_index as nat)
                + ", component "@ + decimal(component_index as nat),
            DcChainError::InvalidCode { mcu_index, component_index } =>
            "DC chain pre-pass: invalid Huffman code at MCU "@ + decimal(mcu_index as nat)
                + ", component "@ + decimal(component_index as nat),
            DcChainError::BadDcCategory { category } =>
            "DC chain pre-pass: DC magnitude category "@ + decimal(category as nat) + " > 11"@,
            DcChainError::AcOverflow { mcu_index } =>
            "DC chain pre-pass: AC run/size pair overflows block at MCU "@ + decimal(
                mcu_index as nat,
            ),
            DcChainError::MissingHuffmanTable { class, selector } =>
            "DC chain pre-pass: scan references "@ + class.text() + " table "@ + decimal(
                selector as nat,
            ) + " but no codebook was provided"@,
            DcChainError::UnsupportedScanShape => "DC chain pre-pass: unsupported scan shape"@,
            DcChainError::TooManyMcus { requested } => "DC chain pre-pass: image declares "@
                + decimal(requested as nat) + " MCUs which exceeds the safety cap of 67108864"@,
            DcChainError::UnknownScanComponent { component_id } =>
            "DC chain pre-pass: scan references component id "@ + decimal(component_id as nat)
                + " not declared in SOF0"@,
        }
    }

    /// The error as a sentence.
    pub fn message(&self) -> (s: String)
        ensures
            s@ == self.text(),
    {
        match self {
            DcChainError::UnexpectedEnd { mcu_index, component_index } => {
                let mut s = String::from_str(
                    "DC chain pre-pass: bitstream ended unexpectedly at MCU ",
                );
                push_decimal(&mut s, *mcu_index as u64);
                s.append(", component ");
                push_decimal(&mut s, *component_index as u64);
                s
            },
            DcChainError::InvalidCode { mcu_index, component_index } => {
                let mut s = String::from_str("DC chain pre-pass: invalid Huffman code at MCU ");
                push_decimal(&mut s, *mcu_index as u64);
                s.append(", component ");
                push_decimal(&mut s, *component_index as u64);
                s
            },
            DcChainError::BadDcCategory { category } => {
                let mut s = String::from_str("DC chain pre-pass: DC magnitude category ");
                push_decimal(&mut s, *category as u64);
                s.append(" > 11");
                s
            },
            DcChainError::AcOverflow { mcu_index } => {
                let mut s = String::from_str(
                    "DC chain pre-pass: AC run/size pair overflows block at MCU ",
                );
                push_decimal(&mut s, *mcu_index as u64);
                s
            },
            DcChainError::MissingHuffmanTable { class, selector } => {
                let mut s = String::from_str("DC chain pre-pass: scan references ");
                s.append(class.name());
                s.append(" table ");
                push_decimal(&mut s, *selector as u64);
                s.append(" but no codebook was provided");
                s
            },
            DcChainError::UnsupportedScanShape => String::from_str(
                "DC chain pre-pass: unsupported scan shape",
            ),
            DcChainError::TooManyMcus { requested } => {
                let mut s = String::from_str("DC chain pre-pass: image declares ");
                push_decimal(&mut s, *requested);
                s.append(" MCUs which exceeds the safety cap of 67108864");
                s
            },
            DcChainError::UnknownScanComponent { component_id } => {
                let mut s = String::from_str("DC chain pre-pass: scan references component id ");
                push_decimal(&mut s, *component_id as u64);
                s.append(" not declared in SOF0");
                s
            },
        }
    }
}

/// What one scan component needs: its blocks per MCU and its code tables.
pub struct StepModel {
    pub blocks: nat,
    pub dc: Seq<CanonicalEntry>,
    pub ac: Seq<CanonicalEntry>,
}

/// Everything the walk reads and does not change.
pub struct ChainModel {
    pub src: Seq<u8>,
    pub rsts: Seq<RstPosition>,
    pub restart_interval: nat,
    pub mcus: nat,
    pub steps: Seq<StepModel>,
}

/// The walk's state: the position, the restart markers used, the predictors
/// and the values produced so far.
#[verifier::ext_equal]
pub struct ChainState {
    pub pos: int,
    pub rsts_used: nat,
    pub predictor: Seq<i32>,
    pub values: Seq<Seq<i32>>,
}

/// Position behind the AC codes of a block whose next slot is `slot`.
pub open spec fn ac_skipped(
    src: Seq<u8>,
    pos: int,
    table: Seq<CanonicalEntry>,
    slot: nat,
    mcu: u32,
    comp: u8,
) -> Result<int, DcChainError>
    decreases 80 - slot,
{
    if slot >= 64 {
        Ok(pos)
    } else {
        match code_at(src, pos, table) {
            CodeRead::End => Err(
                DcChainError::UnexpectedEnd { mcu_index: mcu, component_index: comp },
            ),
            CodeRead::Miss => Err(
                DcChainError::InvalidCode { mcu_index: mcu, component_index: comp },
            ),
            CodeRead::Code(e) => {
                let p = pos + e.num_bits;
                let size = e.symbol % 16;
                let next = slot + e.symbol as nat / 16 + 1;
                if e.symbol == 0x00 {
                    Ok(p)
                } else if e.symbol == 0xF0 {
                    ac_skipped(src, p, table, slot + 16, mcu, comp)
                } else if next > 64 {
                    Err(DcChainError::AcOverflow { mcu_index: mcu })
                } else if p + size > 8 * src.len() {
                    Err(DcChainError::UnexpectedEnd { mcu_index: mcu, component_index: comp })
                } else {
                    ac_skipped(src, p + size, table, next, mcu, comp)
                }
            },
        }
    }
}

/// The DC difference coded at `pos`, and the position behind it.
pub open spec fn dc_delta(
    src: Seq<u8>,
    pos: int,
    table: Seq<CanonicalEntry>,
    mcu: u32,
    comp: u8,
) -> Result<(i32, int), DcChainError> {
    match code_at(src, pos, table) {
        CodeRead::End => Err(
            DcChainError::UnexpectedEnd { mcu_index: mcu, component_index: comp },
        ),
        CodeRead::Miss => Err(DcChainError::InvalidCode { mcu_index: mcu, component_index: comp }),
        CodeRead::Code(e) => {
            let p = pos + e.num_bits;
            let n = e.symbol as nat;
            if n > 11 {
                Err(DcChainError::BadDcCategory { category: e.symbol })
            } else if p + n > 8 * src.len() {
                Err(DcChainError::UnexpectedEnd { mcu_index: mcu, component_index: comp })
            } else {
                Ok((extended(bits(src, p, n) as int, n) as i32, p + n))
            }
        },
    }
}

/// One block: its DC difference goes to the predictor and the predictor to
/// the values; its AC codes are skipped.
pub open spec fn block_walked(c: ChainModel, mcu: u32, comp: nat, st: ChainState) -> Result<
    ChainState,
    DcChainError,
> {
    match dc_delta(c.src, st.pos, c.steps[comp as int].dc, mcu, comp as u8) {
        Err(e) => Err(e),
        Ok((delta, p)) => {
            let dc = st.predictor[comp as int].wrapping_add(delta);
            match ac_skipped(c.src, p, c.steps[comp as int].ac, 1, mcu, comp as u8) {
                Err(e) => Err(e),
                Ok(q) => Ok(
                    ChainState {
                        pos: q,
                        predictor: st.predictor.update(comp as int, dc),
                        values: st.values.update(comp as int, st.values[comp as int].push(dc)),
                        ..st
                    },
                ),
            }
        },
    }
}

/// Blocks `k` and up of one component of an MCU.
pub open spec fn blocks_walked(
    c: ChainModel,
    mcu: u32,
    comp: nat,
    k: nat,
    st: ChainState,
) -> Result<ChainState, DcChainError>
    decreases c.steps[comp as int].blocks - k,
{
    if k >= c.steps[comp as int].blocks {
        Ok(st)
    } else {
        match block_walked(c, mcu, comp, st) {
            Ok(next) => blocks_walked(c, mcu, comp, k + 1, next),
            Err(e) => Err(e),
        }
    }
}

/// Components `comp` and up of an MCU.
pub open spec fn components_walked(c: ChainModel, mcu: u32, comp: nat, st: ChainState) -> Result<
    ChainState,
    DcChainError,
>
    decreases c.steps.len() - comp,
{
    if comp >= c.steps.len() {
        Ok(st)
    } else {
        match blocks_walked(c, mcu, comp, 0, st) {
            Ok(next) => components_walked(c, mcu, comp + 1, next),
            Err(e) => Err(e),
        }
    }
}

/// Whether a restart marker stands before this MCU.
pub open spec fn restarts_at(restart_interval: nat, mcu: nat) -> bool {
    restart_interval > 0 && mcu > 0 && mcu % restart_interval == 0
}

/// The state at the start of an MCU: behind the next restart marker, with
/// fresh predictors, if one stands here.
pub open spec fn restarted(c: ChainModel, mcu: nat, st: ChainState) -> ChainState {
    if restarts_at(c.restart_interval, mcu) && st.rsts_used < c.rsts.len() {
        let offset = c.rsts[st.rsts_used as int].byte_offset_in_dst;
        ChainState {
            pos: 8 * if offset <= c.src.len() {
                offset as int
            } else {
                c.src.len() as int
            },
            rsts_used: st.rsts_used + 1,
            predictor: seq![0i32, 0i32, 0i32, 0i32],
            ..st
        }
    } else {
        st
    }
}

/// MCUs `mcu` and up.
pub open spec fn mcus_walked(c: ChainModel, mcu: nat, st: ChainState) -> Result<
    ChainState,
    DcChainError,
>
    decreases c.mcus - mcu,
{
    if mcu >= c.mcus {
        Ok(st)
    } else {
        match components_walked(c, mcu as u32, 0, restarted(c, mcu, st)) {
            Ok(next) => mcus_walked(c, mcu + 1, next),
            Err(e) => Err(e),
        }
    }
}

/// Position of the first frame component with this identifier, from `i` on.
pub open spec fn component_index(frame: Seq<JpegFrameComponent>, id: u8, i: int) -> Option<int>
    decreases frame.len() - i,
{
    if i >= frame.len() {
        None
    } else if frame[i].id == id {
        Some(i)
    } else {
        component_index(frame, id, i + 1)
    }
}

/// The first scan component, from `k` on, that the frame does not declare.
pub open spec fn first_unknown(
    scan: Seq<JpegScanComponent>,
    frame: Seq<JpegFrameComponent>,
    k: int,
) -> Option<u8>
    decreases scan.len() - k,
{
    if k >= scan.len() {
        None
    } else if component_index(frame, scan[k].id, 0) is None {
        Some(scan[k].id)
    } else {
        first_unknown(scan, frame, k + 1)
    }
}

/// Codebooks by selector.
pub type Codebooks = [Option<CanonicalCodebook>; 4];

/// What scan component `k` needs.
pub open spec fn step_of(
    scan: Seq<JpegScanComponent>,
    frame: Seq<JpegFrameComponent>,
    dc_books: Seq<Option<Seq<CanonicalEntry>>>,
    ac_books: Seq<Option<Seq<CanonicalEntry>>>,
    k: int,
) -> Result<StepModel, DcChainError> {
    let sc = scan[k];
    let fc = frame[component_index(frame, sc.id, 0)->0];
    let blocks = block_count(scan.len(), fc.h_sampling as nat, fc.v_sampling as nat);
    if blocks == 0 {
        Err(DcChainError::UnsupportedScanShape)
    } else {
        match (dc_books[sc.dc_table as int], ac_books[sc.ac_table as int]) {
            (None, _) => Err(
                DcChainError::MissingHuffmanTable { class: DhtClass::Dc, selector: sc.dc_table },
            ),
            (_, None) => Err(
                DcChainError::MissingHuffmanTable { class: DhtClass::Ac, selector: sc.ac_table },
            ),
            (Some(dc), Some(ac)) => Ok(StepModel { blocks, dc, ac }),
        }
    }
}

/// What scan components `k` and up need, behind `done`.
pub open spec fn steps_from(
    scan: Seq<JpegScanComponent>,
    frame: Seq<JpegFrameComponent>,
    dc_books: Seq<Option<Seq<CanonicalEntry>>>,
    ac_books: Seq<Option<Seq<CanonicalEntry>>>,
    k: int,
    done: Seq<StepModel>,
) -> Result<Seq<StepModel>, DcChainError>
    decreases scan.len() - k,
{
    if k >= scan.len() {
        Ok(done)
    } else {
        match step_of(scan, frame, dc_books, ac_books, k) {
            Ok(step) => steps_from(scan, frame, dc_books, ac_books, k + 1, done.push(step)),
            Err(e) => Err(e),
        }
    }
}

/// Blocks of one MCU over all components.
pub open spec fn total_blocks(steps: Seq<StepModel>) -> nat
    decreases steps.len(),
{
    if steps.len() == 0 {
        0
    } else {
        total_blocks(steps.drop_last()) + steps.last().blocks
    }
}

/// The absolute DC values of a scan.
pub open spec fn dc_chain(
    headers: HeadersModel,
    src: Seq<u8>,
    rsts: Seq<RstPosition>,
    dc_books: Seq<Option<Seq<CanonicalEntry>>>,
    ac_books: Seq<Option<Seq<CanonicalEntry>>>,
) -> Result<Seq<Seq<i32>>, DcChainError> {
    let count = headers.scan.component_count;
    let frame = headers.frame.frame.take(headers.frame.components as int);
    let scan = headers.scan.components.take(count as int);
    let mcus = frame_mcus(headers.frame.width as nat, headers.frame.height as nat, frame);
    if count == 0 || count > 4 {
        Err(DcChainError::UnsupportedScanShape)
    } else {
        match first_unknown(scan, frame, 0) {
            Some(id) => Err(DcChainError::UnknownScanComponent { component_id: id }),
            None => match steps_from(scan, frame, dc_books, ac_books, 0, Seq::empty()) {
                Err(e) => Err(e),
                Ok(steps) => {
                    if mcus * total_blocks(steps) > MAX_SAFE_MCUS * 16 {
                        Err(
                            DcChainError::TooManyMcus {
                                requested: (mcus * total_blocks(steps)) as u64,
                            },
                        )
                    } else {
                        let c = ChainModel {
                            src,
                            rsts,
                            restart_interval: headers.frame.restart_interval as nat,
                            mcus,
                            steps,
                        };
                        let start = ChainState {
                            pos: 0,
                            rsts_used: 0,
                            predictor: seq![0i32, 0i32, 0i32, 0i32],
                            values: Seq::new(scan.len(), |i: int| Seq::empty()),
                        };
                        match mcus_walked(c, 0, start) {
                            Ok(st) => Ok(st.values),
                            Err(e) => Err(e),
                        }
                    }
                },
            },
        }
    }
}

/// Number of 8×8 blocks emitted per MCU per scan component: one in a
/// non-interleaved scan, `h × v` in an interleaved one.
pub fn blocks_per_mcu(scan_components: usize, h_sampling: u8, v_sampling: u8) -> (n: usize)
    requires
        scan_components == 1 || h_sampling * v_sampling <= 255,
    ensures
        n == block_count(scan_components as nat, h_sampling as nat, v_sampling as nat),
        n <= 255,
{
    component_blocks_per_mcu(scan_components, h_sampling, v_sampling) as usize
}

/// Decode one block's DC delta and EXTEND to a signed value.
fn decode_dc_delta(
    reader: &mut BitReader<'_>,
    dc_cb: &CanonicalCodebook,
    mcu_idx: u32,
    comp_index: u8,
) -> (delta: Result<i32, DcChainError>)
    requires
        old(reader).wf(),
        dc_cb.wf(),
    ensures
        final(reader).wf(),
        final(reader).source() == old(reader).source(),
        match dc_delta(old(reader).source(), old(reader).pos(), dc_cb@, mcu_idx, comp_index) {
            Ok((d, p)) => delta == Ok::<i32, DcChainError>(d) && final(reader).pos() == p,
            Err(e) => delta matches Err(r) && r == e,
        },
{
    let entry = match read_code(reader, dc_cb) {
        CodeRead::Code(entry) => entry,
        CodeRead::End => {
            return Err(
                DcChainError::UnexpectedEnd { mcu_index: mcu_idx, component_index: comp_index },
            );
        },
        CodeRead::Miss => {
            return Err(
                DcChainError::InvalidCode { mcu_index: mcu_idx, component_index: comp_index },
            );
        },
    };
    let category: u8 = entry.symbol;
    if category > 11 {
        return Err(DcChainError::BadDcCategory { category });
    }
    proof {
        lemma_bits_bound(reader.source(), reader.pos(), category as nat);
        lemma2_to64();
        if category < 11 {
            lemma_pow2_strictly_increases(category as nat, 11);
        }
    }
    match reader.read_bits(category as usize) {
        Some(raw) => Ok(extend(raw as i32, category)),
        None => Err(
            DcChainError::UnexpectedEnd { mcu_index: mcu_idx, component_index: comp_index },
        ),
    }
}

/// Walk the 63 AC coefficients of one block, advancing the bit reader past
/// them but discarding the values.
fn skip_ac_coefficients(
    reader: &mut BitReader<'_>,
    ac_cb: &CanonicalCodebook,
    mcu_idx: u32,
    comp_index: u8,
) -> (outcome: Result<(), DcChainError>)
    requires
        old(reader).wf(),
        ac_cb.wf(),
    ensures
        final(reader).wf(),
        final(reader).source() == old(reader).source(),
        match ac_skipped(
            old(reader).source(),
            old(reader).pos(),
            ac_cb@,
            1,
            mcu_idx,
            comp_index,
        ) {
            Ok(p) => outcome is Ok && final(reader).pos() == p,
            Err(e) => outcome matches Err(r) && r == e,
        },
{
    let mut slot: usize = 1;
    while slot < 64
        invariant
            slot <= 80,
            reader.wf(),
            ac_cb.wf(),
            reader.source() == old(reader).source(),
            ac_skipped(old(reader).source(), old(reader).pos(), ac_cb@, 1, mcu_idx, comp_index)
                == ac_skipped(
                reader.source(),
                reader.pos(),
                ac_cb@,
                slot as nat,
                mcu_idx,
                comp_index,
            ),
        decreases 80 - slot,
    {
        let entry = match read_code(reader, ac_cb) {
            CodeRead::Code(entry) => entry,
            CodeRead::End => {
                return Err(
                    DcChainError::UnexpectedEnd { mcu_index: mcu_idx, component_index: comp_index },
                );
            },
            CodeRead::Miss => {
                return Err(
                    DcChainError::InvalidCode { mcu_index: mcu_idx, component_index: comp_index },
                );
            },
        };
        if entry.symbol == 0x00 {
            // EOB: rest of block is zero.
            return Ok(());
        }
        if entry.symbol == 0xF0 {
            // ZRL: 16 zero coefficients.
            slot = slot + 16;
            continue ;
        }
        let run: usize = (entry.symbol / 16) as usize;
        let size: usize = (entry.symbol % 16) as usize;
        slot = slot + run + 1;
        if slot > 64 {
            return Err(DcChainError::AcOverflow { mcu_index: mcu_idx });
        }
        if reader.read_bits(size).is_none() {
            return Err(
                DcChainError::UnexpectedEnd { mcu_index: mcu_idx, component_index: comp_index },
            );
        }
    }
    Ok(())
}

/// One scan component's share of the walk.
struct ScanStep<'a> {
    blocks: usize,
    dc_cb: &'a CanonicalCodebook,
    ac_cb: &'a CanonicalCodebook,
}

impl<'a> ScanStep<'a> {
    spec fn model(&self) -> StepModel {
        StepModel { blocks: self.blocks as nat, dc: self.dc_cb@, ac: self.ac_cb@ }
    }

    spec fn wf(&self) -> bool {
        self.dc_cb.wf() && self.ac_cb.wf() && self.blocks <= 255
    }
}

spec fn step_models(steps: Seq<ScanStep<'_>>) -> Seq<StepModel> {
    Seq::new(steps.len(), |i: int| steps[i].model())
}

/// Position of the first frame component with this identifier.
pub fn find_component(frame: &[JpegFrameComponent], id: u8) -> (index: Option<usize>)
    ensures
        match component_index(frame@, id, 0) {
            Some(i) => index matches Some(j) && j == i && j < frame@.len(),
            None => index is None,
        },
{
    let mut i: usize = 0;
    while i < frame.len()
        invariant
            i <= frame@.len(),
            component_index(frame@, id, 0) == component_index(frame@, id, i as int),
        decreases frame@.len() - i,
    {
        if frame[i].id == id {
            return Some(i);
        }
        i = i + 1;
    }
    None
}

/// Map each scan component (by index) to its frame-component index.
fn map_scan_to_frame(scan: &[JpegScanComponent], frame: &[JpegFrameComponent]) -> (map: Result<
    Vec<usize>,
    DcChainError,
>)
    ensures
        match first_unknown(scan@, frame@, 0) {
            Some(id) => map matches Err(e) && e == (DcChainError::UnknownScanComponent {
                component_id: id,
            }),
            None => map matches Ok(m) && m@.len() == scan@.len() && forall|k: int|
                0 <= k < m@.len() ==> #[trigger] m@[k] < frame@.len() && component_index(
                    frame@,
                    scan@[k].id,
                    0,
                ) == Some(m@[k] as int),
        },
{
    let mut map: Vec<usize> = Vec::new();
    let mut k: usize = 0;
    while k < scan.len()
        invariant
            k <= scan@.len(),
            map@.len() == k,
            first_unknown(scan@, frame@, 0) == first_unknown(scan@, frame@, k as int),
            forall|j: int|
                0 <= j < k ==> #[trigger] map@[j] < frame@.len() && component_index(
                    frame@,
                    scan@[j].id,
                    0,
                ) == Some(map@[j] as int),
        decreases scan@.len() - k,
    {
        match find_component(frame, scan[k].id) {
            Some(i) => map.push(i),
            None => {
                return Err(DcChainError::UnknownScanComponent { component_id: scan[k].id });
            },
        }
        k = k + 1;
    }
    Ok(map)
}

/// Table selectors and sampling factors a walk can use without leaving its
/// arrays: what a parsed header set guarantees.
pub open spec fn chain_input_ok(headers: HeadersModel) -> bool {
    let scan = headers.scan;
    let frame = headers.frame;
    &&& frame.components <= 4
    &&& scan.component_count <= 4 ==> {
        &&& forall|k: int|
            0 <= k < scan.component_count ==> (#[trigger] scan.components[k]).dc_table < 4
                && scan.components[k].ac_table < 4
        &&& scan.component_count > 1 ==> forall|k: int|
            0 <= k < frame.components ==> (#[trigger] frame.frame[k]).h_sampling
                * frame.frame[k].v_sampling <= 255
    }
}

/// Resolve what every scan component needs, and the blocks of one MCU.
fn resolve_steps<'a>(
    scan: &[JpegScanComponent],
    frame: &[JpegFrameComponent],
    map: &Vec<usize>,
    dc_codebooks: &'a Codebooks,
    ac_codebooks: &'a Codebooks,
) -> (resolved: Result<(Vec<ScanStep<'a>>, u64), DcChainError>)
    requires
        1 <= scan@.len() <= 4,
        map@.len() == scan@.len(),
        books_wf(dc_codebooks@),
        books_wf(ac_codebooks@),
        forall|k: int|
            0 <= k < map@.len() ==> #[trigger] map@[k] < frame@.len() && component_index(
                frame@,
                scan@[k].id,
                0,
            ) == Some(map@[k] as int),
        forall|k: int|
            0 <= k < scan@.len() ==> (#[trigger] scan@[k]).dc_table < 4 && scan@[k].ac_table < 4,
        scan@.len() > 1 ==> forall|k: int|
            0 <= k < frame@.len() ==> (#[trigger] frame@[k]).h_sampling * frame@[k].v_sampling
                <= 255,
    ensures
        match steps_from(
            scan@,
            frame@,
            books_view(dc_codebooks@),
            books_view(ac_codebooks@),
            0,
            Seq::empty(),
        ) {
            Ok(m) => resolved matches Ok(r) && step_models(r.0@) == m && r.0@.len() == scan@.len()
                && r.1 == total_blocks(m) && r.1 <= 1020 && forall|k: int|
                0 <= k < r.0@.len() ==> (#[trigger] r.0@[k]).wf(),
            Err(e) => resolved matches Err(r) && r == e,
        },
{
    let mut steps: Vec<ScanStep<'a>> = Vec::new();
    let mut total: u64 = 0;
    let mut k: usize = 0;
    assert(step_models(steps@) =~= Seq::empty());
    while k < scan.len()
        invariant
            k <= scan@.len() <= 4,
            steps@.len() == k,
            total == total_blocks(step_models(steps@)),
            total <= 255 * k,
            map@.len() == scan@.len(),
            books_wf(dc_codebooks@),
            books_wf(ac_codebooks@),
            steps_from(
            scan@,
            frame@,
            books_view(dc_codebooks@),
            books_view(ac_codebooks@),
            0,
            Seq::empty(),
        )
                == steps_from(
                scan@,
                frame@,
                books_view(dc_codebooks@),
                books_view(ac_codebooks@),
                k as int,
                step_models(steps@),
            ),
            forall|j: int| 0 <= j < steps@.len() ==> (#[trigger] steps@[j]).wf(),
            forall|j: int|
                0 <= j < map@.len() ==> #[trigger] map@[j] < frame@.len() && component_index(
                    frame@,
                    scan@[j].id,
                    0,
                ) == Some(map@[j] as int),
            forall|j: int|
                0 <= j < scan@.len() ==> (#[trigger] scan@[j]).dc_table < 4 && scan@[j].ac_table
                    < 4,
            scan@.len() > 1 ==> forall|j: int|
                0 <= j < frame@.len() ==> (#[trigger] frame@[j]).h_sampling
                    * frame@[j].v_sampling <= 255,
        decreases scan@.len() - k,
    {
        let sc = scan[k];
        let index: usize = map[k];
        let fc = frame[index];
        let blocks: usize = blocks_per_mcu(scan.len(), fc.h_sampling, fc.v_sampling);
        if blocks == 0 {
            return Err(DcChainError::UnsupportedScanShape);
        }
        let dc_cb = match &dc_codebooks[sc.dc_table as usize] {
            Some(book) => book,
            None => {
                return Err(
                    DcChainError::MissingHuffmanTable {
                        class: DhtClass::Dc,
                        selector: sc.dc_table,
                    },
                );
            },
        };
        let ac_cb = match &ac_codebooks[sc.ac_table as usize] {
            Some(book) => book,
            None => {
                return Err(
                    DcChainError::MissingHuffmanTable {
                        class: DhtClass::Ac,
                        selector: sc.ac_table,
                    },
                );
            },
        };
        let ghost before = steps@;
        let step = ScanStep { blocks, dc_cb, ac_cb };
        let ghost model = step.model();
        assert(step.wf());
        steps.push(step);
        assert(step_models(steps@) =~= step_models(before).push(model));
        assert(step_models(steps@).drop_last() =~= step_models(before));
        total = total + blocks as u64;
        k = k + 1;
    }
    Ok((steps, total))
}

/// Walk the unstuffed entropy-coded segment, decoding only enough bits to
/// extract every DC coefficient's absolute value.  AC bits are skipped.
///
/// The codebooks are indexed by selector.  At each restart marker the DC
/// predictor of every component returns to zero and the reader moves to the
/// marker's byte offset; the restart falls on the MCU index, so a truncated
/// MCU cannot make it slip.
pub fn resolve_dc_chain(
    headers: &JpegHeaders<'_>,
    unstuffed: &[u8],
    rst_positions: &[RstPosition],
    dc_codebooks: &Codebooks,
    ac_codebooks: &Codebooks,
) -> (values: Result<DcValues, DcChainError>)
    requires
        chain_input_ok(headers@),
        books_wf(dc_codebooks@),
        books_wf(ac_codebooks@),
    ensures
        match dc_chain(
            headers@,
            unstuffed@,
            rst_positions@,
            books_view(dc_codebooks@),
            books_view(ac_codebooks@),
        ) {
            Ok(v) => values matches Ok(r) && r@ == v,
            Err(e) => values matches Err(r) && r == e,
        },
{
    let scan_components: usize = headers.scan.component_count as usize;
    if scan_components == 0 || scan_components > 4 {
        return Err(DcChainError::UnsupportedScanShape);
    }
    let scan = vstd::slice::slice_subrange(headers.scan.components.as_slice(), 0, scan_components);
    let frame = vstd::slice::slice_subrange(
        headers.frame_components.as_slice(),
        0,
        headers.components as usize,
    );
    assert(scan@ =~= headers.scan.components@.take(scan_components as int));
    assert(frame@ =~= headers.frame_components@.take(headers.components as int));
    assert(forall|k: int| 0 <= k < scan@.len() ==> scan@[k] == headers.scan.components@[k]);
    assert(forall|k: int| 0 <= k < frame@.len() ==> frame@[k] == headers.frame_components@[k]);
    let map = match map_scan_to_frame(scan, frame) {
        Ok(map) => map,
        Err(e) => return Err(e),
    };
    let n_mcus: u32 = super::geometry::mcu_count(headers.width, headers.height, frame);
    let (steps, per_mcu) = match resolve_steps(scan, frame, &map, dc_codebooks, ac_codebooks) {
        Ok(r) => r,
        Err(e) => return Err(e),
    };
    proof {
        assert(n_mcus * per_mcu <= 67_108_864 * 1020) by (nonlinear_arith)
            requires
                0 <= n_mcus <= 67_108_864,
                0 <= per_mcu <= 1020,
        ;
    }
    let total: u64 = n_mcus as u64 * per_mcu;
    if total > MAX_SAFE_MCUS as u64 * 16 {
        return Err(DcChainError::TooManyMcus { requested: total });
    }
    let ghost c = ChainModel {
        src: unstuffed@,
        rsts: rst_positions@,
        restart_interval: headers.restart_interval as nat,
        mcus: n_mcus as nat,
        steps: step_models(steps@),
    };
    let mut per_component: Vec<Vec<i32>> = Vec::new();
    let mut i: usize = 0;
    while i < scan_components
        invariant
            i <= scan_components,
            per_component@.len() == i,
            forall|j: int| 0 <= j < i ==> (#[trigger] per_component@[j])@.len() == 0,
        decreases scan_components - i,
    {
        per_component.push(Vec::new());
        i = i + 1;
    }
    let mut predictor: [i32; 4] = [0, 0, 0, 0];
    let mut reader = BitReader::new(unstuffed);
    let mut rsts_used: usize = 0;
    let interval: u32 = headers.restart_interval as u32;
    let ghost mut st = ChainState {
        pos: 0,
        rsts_used: 0,
        predictor: seq![0i32, 0i32, 0i32, 0i32],
        values: Seq::new(scan@.len(), |i: int| Seq::empty()),
    };
    let ghost start = st;
    assert(predictor@ =~= st.predictor);
    assert(rows(per_component@) =~~= st.values);
    let mut mcu_idx: u32 = 0;
    while mcu_idx < n_mcus
        invariant
            mcu_idx <= n_mcus,
            walking(c, st, steps@, reader, rsts_used, predictor@, per_component@),
            c.mcus == n_mcus,
            c.restart_interval == interval,
            c.rsts == rst_positions@,
            mcus_walked(c, 0, start) == mcus_walked(c, mcu_idx as nat, st),
            match dc_chain(
                headers@,
                unstuffed@,
                rst_positions@,
                books_view(dc_codebooks@),
                books_view(ac_codebooks@),
            ) {
                Ok(v) => mcus_walked(c, 0, start) matches Ok(s) && s.values == v,
                Err(e) => mcus_walked(c, 0, start) matches Err(f) && f == e,
            },
        decreases n_mcus - mcu_idx,
    {
        if interval > 0 && mcu_idx > 0 && mcu_idx % interval == 0 && rsts_used
            < rst_positions.len() {
            reader.realign_to_byte_at(rst_positions[rsts_used].byte_offset_in_dst);
            rsts_used = rsts_used + 1;
            predictor = [0, 0, 0, 0];
            proof {
                assert(restarts_at(c.restart_interval, mcu_idx as nat));
                st = restarted(c, mcu_idx as nat, st);
                assert(predictor@ =~= st.predictor);
            }
        } else {
            assert(restarted(c, mcu_idx as nat, st) == st);
        }
        let ghost mcu_start = st;
        let mut comp: usize = 0;
        while comp < steps.len()
            invariant
                mcu_idx < n_mcus,
                comp <= steps@.len() <= 4,
                walking(c, st, steps@, reader, rsts_used, predictor@, per_component@),
                c.mcus == n_mcus,
                components_walked(c, mcu_idx, 0, mcu_start) == components_walked(
                    c,
                    mcu_idx,
                    comp as nat,
                    st,
                ),
                mcus_walked(c, 0, start) == (match components_walked(c, mcu_idx, 0, mcu_start) {
                    Ok(next) => mcus_walked(c, (mcu_idx + 1) as nat, next),
                    Err(e) => Err(e),
                }),
                match dc_chain(
                    headers@,
                    unstuffed@,
                    rst_positions@,
                    books_view(dc_codebooks@),
                    books_view(ac_codebooks@),
                ) {
                    Ok(v) => mcus_walked(c, 0, start) matches Ok(s) && s.values == v,
                    Err(e) => mcus_walked(c, 0, start) matches Err(f) && f == e,
                },
            decreases steps@.len() - comp,
        {
            let ghost comp_start = st;
            let mut block: usize = 0;
            while block < steps[comp].blocks
                invariant
                    mcu_idx < n_mcus,
                    comp < steps@.len() <= 4,
                    walking(c, st, steps@, reader, rsts_used, predictor@, per_component@),
                    block <= c.steps[comp as int].blocks,
                    blocks_walked(c, mcu_idx, comp as nat, 0, comp_start) == blocks_walked(
                        c,
                        mcu_idx,
                        comp as nat,
                        block as nat,
                        st,
                    ),
                    components_walked(c, mcu_idx, 0, mcu_start) == (match blocks_walked(
                        c,
                        mcu_idx,
                        comp as nat,
                        0,
                        comp_start,
                    ) {
                        Ok(next) => components_walked(c, mcu_idx, (comp + 1) as nat, next),
                        Err(e) => Err(e),
                    }),
                    mcus_walked(c, 0, start) == (match components_walked(
                        c,
                        mcu_idx,
                        0,
                        mcu_start,
                    ) {
                        Ok(next) => mcus_walked(c, (mcu_idx + 1) as nat, next),
                        Err(e) => Err(e),
                    }),
                    match dc_chain(
                        headers@,
                        unstuffed@,
                        rst_positions@,
                        books_view(dc_codebooks@),
                        books_view(ac_codebooks@),
                    ) {
                        Ok(v) => mcus_walked(c, 0, start) matches Ok(s) && s.values == v,
                        Err(e) => mcus_walked(c, 0, start) matches Err(f) && f == e,
                    },
                decreases steps@[comp as int].blocks - block,
            {
                let ghost before = st;
                let delta: i32 = match decode_dc_delta(
                    &mut reader,
                    steps[comp].dc_cb,
                    mcu_idx,
                    comp as u8,
                ) {
                    Ok(delta) => delta,
                    Err(e) => return Err(e),
                };
                let dc: i32 = predictor[comp].wrapping_add(delta);
                match skip_ac_coefficients(&mut reader, steps[comp].ac_cb, mcu_idx, comp as u8) {
                    Ok(_) => {},
                    Err(e) => return Err(e),
                }
                predictor[comp] = dc;
                let ghost rows_before = per_component@;
                push_value(&mut per_component, comp, dc);
                proof {
                    let next = block_walked(c, mcu_idx, comp as nat, before);
                    assert(next is Ok);
                    st = next->Ok_0;
                    assert(rows(per_component@) =~= st.values);
                    assert(predictor@ =~= st.predictor);
                }
                block = block + 1;
            }
            comp = comp + 1;
        }
        mcu_idx = mcu_idx + 1;
    }
    Ok(DcValues { per_component })
}

spec fn rows(v: Seq<Vec<i32>>) -> Seq<Seq<i32>> {
    Seq::new(v.len(), |i: int| v[i]@)
}

/// The concrete walk stands where the model does.
spec fn walking(
    c: ChainModel,
    st: ChainState,
    steps: Seq<ScanStep<'_>>,
    reader: BitReader<'_>,
    rsts_used: usize,
    predictor: Seq<i32>,
    per_component: Seq<Vec<i32>>,
) -> bool {
    &&& reader.wf()
    &&& reader.source() == c.src
    &&& reader.pos() == st.pos
    &&& rsts_used == st.rsts_used
    &&& rsts_used <= c.rsts.len()
    &&& predictor == st.predictor
    &&& predictor.len() == 4
    &&& rows(per_component) == st.values
    &&& per_component.len() == steps.len()
    &&& 1 <= steps.len() <= 4
    &&& c.steps == step_models(steps)
    &&& forall|k: int| 0 <= k < steps.len() ==> (#[trigger] steps[k]).wf()
}

fn push_value(rows: &mut Vec<Vec<i32>>, row: usize, value: i32)
    requires
        row < old(rows)@.len(),
    ensures
        final(rows)@.len() == old(rows)@.len(),
        forall|i: int|
            0 <= i < old(rows)@.len() && i != row ==> #[trigger] final(rows)@[i] == old(rows)@[i],
        final(rows)@[row as int]@ == old(rows)@[row as int]@.push(value),
{
    rows[row].push(value);
}

} // verus!
