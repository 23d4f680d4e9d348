//! What the decoder asks of a device, and what it is told back.
//!
//! Device work is driven from outside: a run gives the next action, the
//! driver performs it and hands back the reply.

use super::bitstream::{word_byte, words_bytes};
use crate::backend::error::{BackendError, ErrorModel};
use crate::backend::huffman_params::HuffmanPhase;
use vstd::prelude::*;

verus! {

/// The device buffers of a decode.
#[derive(Debug, Clone, Copy, PartialEq, Eq, Structural)]
pub enum Slot {
    /// Packed entropy-coded stream.
    Bitstream,
    /// Flat code tables; the AC tables of a JPEG-framed run.
    Codebook,
    /// Flat DC tables.
    DcCodebook,
    /// Block order of an MCU.
    McuSchedule,
    /// Subsequence states.
    States,
    /// Subsequence states of every other propagation pass.
    StatesScratch,
    /// Per-subsequence sync flags.
    SyncFlags,
    /// Per-subsequence symbol offsets.
    Offsets,
    /// Decoded symbols.
    Symbols,
    /// Per-subsequence exit conditions.
    DecodeStatus,
    /// DCT coefficients.
    Coefficients,
    /// Quantisation tables.
    QuantTables,
    /// Absolute DC values.
    DcValues,
    /// RGBA8 output.
    Pixels,
}

/// One phase of the Huffman decoder on named buffers.
#[derive(Debug, Clone, Copy, PartialEq, Eq, Structural)]
pub struct HuffmanLaunch {
    pub bitstream: Slot,
    pub codebook: Slot,
    pub s_info: Slot,
    pub sync_flags: Option<Slot>,
    pub s_info_prev: Option<Slot>,
    pub offsets: Option<Slot>,
    pub symbols_out: Option<Slot>,
    pub decode_status: Option<Slot>,
    pub dc_codebook: Option<Slot>,
    pub mcu_schedule: Option<Slot>,
    pub length_bits: u32,
    pub subsequence_bits: u32,
    pub num_components: u32,
    pub blocks_per_mcu: u32,
    pub total_symbols: u32,
    pub phase: HuffmanPhase,
}

/// The IDCT kernel on named buffers.
#[derive(Debug, Clone, Copy, PartialEq, Eq, Structural)]
pub struct IdctLaunch {
    pub coefficients: Slot,
    pub qtables: Slot,
    pub dc_values: Slot,
    pub pixels_rgba: Slot,
    pub width: u32,
    pub height: u32,
    pub num_components: u32,
    pub blocks_wide: u32,
    pub blocks_high: u32,
    pub num_qtables: u32,
}

/// The next thing a driver has to do.
#[derive(Debug, Clone, PartialEq, Eq)]
pub enum DeviceAction {
    /// Allocate a buffer, zero-filled where `zeroed`.
    Allocate { slot: Slot, bytes: u64, zeroed: bool },
    /// Upload words to the start of a buffer.
    Upload { slot: Slot, words: Vec<u32> },
    /// Begin recording a page.
    BeginPage,
    /// Record a Huffman phase.
    RecordHuffman(HuffmanLaunch),
    /// Record the IDCT.
    RecordIdct(IdctLaunch),
    /// Submit the recorded page.
    SubmitPage,
    /// Wait for the submitted page.
    WaitPage,
    /// Download `words` words from the start of a buffer.
    Download { slot: Slot, words: u64 },
    /// Free a buffer.
    Free { slot: Slot },
    /// Nothing is left to do: the run has its result.
    Finish,
}

/// An action, its words as a sequence.
pub enum ActionModel {
    Allocate { slot: Slot, bytes: nat, zeroed: bool },
    Upload { slot: Slot, words: Seq<u32> },
    BeginPage,
    RecordHuffman(HuffmanLaunch),
    RecordIdct(IdctLaunch),
    SubmitPage,
    WaitPage,
    Download { slot: Slot, words: nat },
    Free { slot: Slot },
    Finish,
}

impl View for DeviceAction {
    type V = ActionModel;

    open spec fn view(&self) -> ActionModel {
        match *self {
            DeviceAction::Allocate { slot, bytes, zeroed } => ActionModel::Allocate {
                slot,
                bytes: bytes as nat,
                zeroed,
            },
            DeviceAction::Upload { slot, words } => ActionModel::Upload { slot, words: words@ },
            DeviceAction::BeginPage => ActionModel::BeginPage,
            DeviceAction::RecordHuffman(launch) => ActionModel::RecordHuffman(launch),
            DeviceAction::RecordIdct(launch) => ActionModel::RecordIdct(launch),
            DeviceAction::SubmitPage => ActionModel::SubmitPage,
            DeviceAction::WaitPage => ActionModel::WaitPage,
            DeviceAction::Download { slot, words } => ActionModel::Download {
                slot,
                words: words as nat,
            },
            DeviceAction::Free { slot } => ActionModel::Free { slot },
            DeviceAction::Finish => ActionModel::Finish,
        }
    }
}

/// What a driver reports of an action.
#[derive(Debug, Clone, PartialEq, Eq)]
pub enum DeviceReply {
    /// The action is done.
    Done,
    /// The words a download brought.
    Words(Vec<u32>),
    /// The action failed.
    Failed(BackendError),
}

/// A reply, its words as a sequence.
pub enum ReplyModel {
    Done,
    Words(Seq<u32>),
    Failed(ErrorModel),
}

impl View for DeviceReply {
    type V = ReplyModel;

    open spec fn view(&self) -> ReplyModel {
        match *self {
            DeviceReply::Done => ReplyModel::Done,
            DeviceReply::Words(words) => ReplyModel::Words(words@),
            DeviceReply::Failed(e) => ReplyModel::Failed(e@),
        }
    }
}

/// The bytes of the words, each word least significant byte first.
pub open spec fn words_bytes_le(words: Seq<u32>) -> Seq<u8> {
    Seq::new(4 * words.len(), |i: int| word_byte(words[i / 4], 3 - i % 4))
}

/// `bytes` are `words` in memory, in one of the two byte orders.
pub open spec fn in_memory(words: Seq<u32>, bytes: Seq<u8>) -> bool {
    bytes == words_bytes_le(words) || bytes == words_bytes(words)
}

/// The memory of a word slice, by `bytemuck::cast_slice`.  The contract
/// claims that it is the words' bytes in the machine's byte order, and leaves
/// open which of the two orders that is.
#[verifier::external_body]
fn cast_words(words: &[u32]) -> (bytes: Vec<u8>)
    ensures
        in_memory(words@, bytes@),
{
    bytemuck::cast_slice::<u32, u8>(words).to_vec()
}

/// Overwrites the memory of a word vector with as many bytes, through
/// `bytemuck::cast_slice_mut`.  The contract claims that the words afterwards
/// read those bytes in the machine's byte order, and leaves open which of the
/// two orders that is.
#[verifier::external_body]
fn cast_words_mut(words: &mut Vec<u32>, bytes: &[u8])
    requires
        bytes@.len() == 4 * old(words)@.len(),
    ensures
        final(words)@.len() == old(words)@.len(),
        in_memory(final(words)@, bytes@),
{
    bytemuck::cast_slice_mut::<u32, u8>(words.as_mut_slice()).copy_from_slice(bytes);
}

/// The bytes to hand to the device for an upload of `words`.
#[must_use]
pub fn upload_bytes(words: &[u32]) -> (bytes: Vec<u8>)
    ensures
        in_memory(words@, bytes@),
        bytes@.len() == 4 * words@.len(),
{
    cast_words(words)
}

/// The words of downloaded bytes; nothing if they are not whole words.
#[must_use]
pub fn downloaded_words(bytes: &[u8]) -> (words: Option<Vec<u32>>)
    ensures
        match words {
            Some(w) => in_memory(w@, bytes@),
            None => bytes@.len() % 4 != 0,
        },
{
    if bytes.len() % 4 != 0 {
        return None;
    }
    let count: usize = bytes.len() / 4;
    let mut words: Vec<u32> = Vec::with_capacity(count);
    let mut i: usize = 0;
    while i < count
        invariant
            i <= count,
            words@.len() == i,
        decreases count - i,
    {
        words.push(0);
        i = i + 1;
    }
    cast_words_mut(&mut words, bytes);
    Some(words)
}

/// Memory leaves no doubt of the words it holds: in either byte order,
/// different words have different bytes.
pub proof fn law_memory_holds_the_words(a: Seq<u32>, b: Seq<u32>)
    ensures
        words_bytes_le(a) == words_bytes_le(b) ==> a == b,
        words_bytes(a) == words_bytes(b) ==> a == b,
{
    if words_bytes(a) == words_bytes(b) {
        lemma_same_words(a, b, true);
    }
    if words_bytes_le(a) == words_bytes_le(b) {
        lemma_same_words(a, b, false);
    }
}

spec fn ordered_bytes(words: Seq<u32>, big: bool) -> Seq<u8> {
    if big {
        words_bytes(words)
    } else {
        words_bytes_le(words)
    }
}

proof fn lemma_same_words(a: Seq<u32>, b: Seq<u32>, big: bool)
    requires
        ordered_bytes(a, big) == ordered_bytes(b, big),
    ensures
        a == b,
{
    let x = ordered_bytes(a, big);
    let y = ordered_bytes(b, big);
    assert(x.len() == y.len());
    assert(x.len() == 4 * a.len() && y.len() == 4 * b.len());
    assert forall|k: int| 0 <= k < a.len() implies a[k] == b[k] by {
        assert(x[4 * k] == y[4 * k] && x[4 * k + 1] == y[4 * k + 1] && x[4 * k + 2] == y[4 * k + 2]
            && x[4 * k + 3] == y[4 * k + 3]);
        assert((4 * k) / 4 == k && (4 * k + 1) / 4 == k && (4 * k + 2) / 4 == k && (4 * k + 3) / 4
            == k);
        assert((4 * k) % 4 == 0 && (4 * k + 1) % 4 == 1 && (4 * k + 2) % 4 == 2 && (4 * k + 3) % 4
            == 3);
        if big {
            assert(x[4 * k] == word_byte(a[k], 0) && x[4 * k + 1] == word_byte(a[k], 1));
            assert(y[4 * k] == word_byte(b[k], 0) && y[4 * k + 1] == word_byte(b[k], 1));
            assert(x[4 * k + 2] == word_byte(a[k], 2) && x[4 * k + 3] == word_byte(a[k], 3));
            assert(y[4 * k + 2] == word_byte(b[k], 2) && y[4 * k + 3] == word_byte(b[k], 3));
        } else {
            assert(x[4 * k + 3] == word_byte(a[k], 0) && x[4 * k + 2] == word_byte(a[k], 1));
            assert(y[4 * k + 3] == word_byte(b[k], 0) && y[4 * k + 2] == word_byte(b[k], 1));
            assert(x[4 * k + 1] == word_byte(a[k], 2) && x[4 * k] == word_byte(a[k], 3));
            assert(y[4 * k + 1] == word_byte(b[k], 2) && y[4 * k] == word_byte(b[k], 3));
        }
        assert(word_byte(a[k], 0) == word_byte(b[k], 0));
        assert(word_byte(a[k], 1) == word_byte(b[k], 1));
        assert(word_byte(a[k], 2) == word_byte(b[k], 2));
        assert(word_byte(a[k], 3) == word_byte(b[k], 3));
        lemma_word_of_bytes(a[k]);
        lemma_word_of_bytes(b[k]);
    }
    assert(a =~= b);
}

proof fn lemma_word_of_bytes(w: u32)
    ensures
        w == word_byte(w, 0) * 0x100_0000 + word_byte(w, 1) * 0x1_0000 + word_byte(w, 2) * 0x100
            + word_byte(w, 3),
{
}

} // verus!
