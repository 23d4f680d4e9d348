//! Launch parameters of the parallel-Huffman kernels.

use super::error::{BackendError, GpuBackend};
use super::params::reports;
use vstd::prelude::*;
use vstd::string::*;

verus! {

/// Number of canonical-codebook entries the parallel-Huffman kernel reads
/// per component.
pub const HUFFMAN_CODEBOOK_ENTRIES: usize = 65_536;

/// Workgroup size of the parallel-Huffman kernels.
pub const HUFFMAN_PHASE1_THREADS: u32 = 256;

/// Phase selector of the parallel-Huffman decoder.  Phase 3 is the Blelloch
/// scan; see [`super::scan_params::ScanPhase`].
#[derive(Debug, Clone, Copy, PartialEq, Eq, Structural)]
pub enum HuffmanPhase {
    /// One thread per subsequence walks the stream from its own start and
    /// writes its `(p, n, c, z)` state.
    Phase1IntraSync,
    /// One thread per subsequence checks whether it agrees with its right
    /// neighbour and advances by one symbol if not.
    Phase2InterSync,
    /// One thread per subsequence re-walks its region and writes each
    /// decoded symbol at its offset.
    Phase4Redecode,
    /// JPEG-framed counterpart of `Phase1IntraSync`.
    JpegPhase1IntraSync,
    /// JPEG-framed inter-sequence sync by re-decode propagation.
    JpegPhase2InterSync,
    /// JPEG-framed counterpart of `Phase4Redecode`.
    JpegPhase4Redecode,
}

impl HuffmanPhase {
    pub open spec fn jpeg_framed(self) -> bool {
        self == HuffmanPhase::JpegPhase1IntraSync || self == HuffmanPhase::JpegPhase2InterSync
            || self == HuffmanPhase::JpegPhase4Redecode
    }

    pub open spec fn syncs(self) -> bool {
        self == HuffmanPhase::Phase2InterSync || self == HuffmanPhase::JpegPhase2InterSync
    }

    pub open spec fn redecodes(self) -> bool {
        self == HuffmanPhase::Phase4Redecode || self == HuffmanPhase::JpegPhase4Redecode
    }

    /// True for the JPEG-framed phase variants.
    #[must_use]
    pub fn is_jpeg_framed(self) -> (b: bool)
        ensures
            b == self.jpeg_framed(),
    {
        match self {
            HuffmanPhase::JpegPhase1IntraSync => true,
            HuffmanPhase::JpegPhase2InterSync => true,
            HuffmanPhase::JpegPhase4Redecode => true,
            _ => false,
        }
    }
}

/// Phase 4 per-subsequence exit condition, encoded as `u32` in the kernel's
/// `decode_status` buffer.
#[derive(Debug, Clone, Copy, PartialEq, Eq, Structural)]
pub enum Phase4FailureKind {
    /// Walker reached `end_p` cleanly (default-zero state).
    Clean,
    /// 16-bit peek matched no codeword in the active table.
    PrefixMiss,
    /// Codeword would run past `length_bits`.
    LengthBits,
    /// The iteration bound was exhausted without reaching `end_p`.
    Incomplete,
    /// JPEG-framed phases only: DC magnitude category > 11.
    BadDcCategory,
    /// JPEG-framed phases only: AC magnitude size > 10.
    BadAcSize,
    /// JPEG-framed phases only: AC run past slot 63.
    AcOverflow,
}

impl Phase4FailureKind {
    /// The kernel's status code.
    pub open spec fn code(self) -> u32 {
        match self {
            Phase4FailureKind::Clean => 0,
            Phase4FailureKind::PrefixMiss => 1,
            Phase4FailureKind::LengthBits => 2,
            Phase4FailureKind::Incomplete => 3,
            Phase4FailureKind::BadDcCategory => 4,
            Phase4FailureKind::BadAcSize => 5,
            Phase4FailureKind::AcOverflow => 6,
        }
    }

    /// The condition a status code stands for; codes the host does not
    /// recognise count as `Incomplete`.
    pub open spec fn decoded(v: u32) -> Phase4FailureKind {
        if v == 0 {
            Phase4FailureKind::Clean
        } else if v == 1 {
            Phase4FailureKind::PrefixMiss
        } else if v == 2 {
            Phase4FailureKind::LengthBits
        } else if v == 4 {
            Phase4FailureKind::BadDcCategory
        } else if v == 5 {
            Phase4FailureKind::BadAcSize
        } else if v == 6 {
            Phase4FailureKind::AcOverflow
        } else {
            Phase4FailureKind::Incomplete
        }
    }

    /// Decode the kernel's u32 status code. Unknown values map to
    /// `Incomplete`.
    #[must_use]
    pub fn from_u32(v: u32) -> (kind: Self)
        ensures
            kind == Phase4FailureKind::decoded(v),
    {
        match v {
            0 => Phase4FailureKind::Clean,
            1 => Phase4FailureKind::PrefixMiss,
            2 => Phase4FailureKind::LengthBits,
            4 => Phase4FailureKind::BadDcCategory,
            5 => Phase4FailureKind::BadAcSize,
            6 => Phase4FailureKind::AcOverflow,
            _ => Phase4FailureKind::Incomplete,
        }
    }

    pub open spec fn text(self) -> Seq<char> {
        match self {
            Phase4FailureKind::Clean => "Ok"@,
            Phase4FailureKind::PrefixMiss => "PrefixMiss"@,
            Phase4FailureKind::LengthBits => "LengthBits"@,
            Phase4FailureKind::Incomplete => "Incomplete"@,
            Phase4FailureKind::BadDcCategory => "BadDcCategory"@,
            Phase4FailureKind::BadAcSize => "BadAcSize"@,
            Phase4FailureKind::AcOverflow => "AcOverflow"@,
        }
    }

    /// Human-readable label for error formatting.
    #[must_use]
    pub fn label(self) -> (s: &'static str)
        ensures
            s@ == self.text(),
    {
        match self {
            Phase4FailureKind::Clean => "Ok",
            Phase4FailureKind::PrefixMiss => "PrefixMiss",
            Phase4FailureKind::LengthBits => "LengthBits",
            Phase4FailureKind::Incomplete => "Incomplete",
            Phase4FailureKind::BadDcCategory => "BadDcCategory",
            Phase4FailureKind::BadAcSize => "BadAcSize",
            Phase4FailureKind::AcOverflow => "AcOverflow",
        }
    }
}

/// Status codes survive the round trip through the kernel's buffer.
pub proof fn law_status_codes_round_trip(kind: Phase4FailureKind)
    ensures
        Phase4FailureKind::decoded(kind.code()) == kind,
{
}

/// No two exit conditions share a label.
pub proof fn law_status_labels_are_distinct(a: Phase4FailureKind, b: Phase4FailureKind)
    requires
        a.text() == b.text(),
    ensures
        a == b,
{
    reveal_strlit("Ok");
    reveal_strlit("PrefixMiss");
    reveal_strlit("LengthBits");
    reveal_strlit("Incomplete");
    reveal_strlit("BadDcCategory");
    reveal_strlit("BadAcSize");
    reveal_strlit("AcOverflow");
    assert("Ok"@[0] == 'O');
    assert("PrefixMiss"@[0] == 'P');
    assert("LengthBits"@[0] == 'L');
    assert("Incomplete"@[0] == 'I');
    assert("AcOverflow"@[0] == 'A');
    assert("BadDcCategory"@[0] == 'B' && "BadDcCategory"@[3] == 'D');
    assert("BadAcSize"@[0] == 'B' && "BadAcSize"@[3] == 'A');
    assert(a.text()[0] == b.text()[0]);
}

/// Parameters for one phase of the parallel-Huffman JPEG decoder.
///
/// # Invariants enforced by [`HuffmanParams::validate`]
/// - `length_bits > 0`, `subsequence_bits > 0`, `num_components ≥ 1`, and
///   `length_bits + 2 * subsequence_bits` fits in a `u32`.
/// - `bitstream` capacity ≥ `(ceil(length_bits / 32) + 1) * 4` bytes: the
///   kernel's peek reads two adjacent words even at the stream end.
/// - `codebook` capacity ≥ `num_components * 65536 * 4` bytes.
/// - `s_info` capacity ≥ `num_subsequences * 16` bytes.
/// - Phase 2 variants: `sync_flags` of `num_subsequences * 4` bytes.
/// - `JpegPhase2InterSync`: `s_info_prev` sized as `s_info`.
/// - Phase 4 variants: `offsets` and `decode_status` of
///   `num_subsequences * 4` bytes, `symbols_out` of `total_symbols * 4`.
/// - JPEG-framed variants: `blocks_per_mcu ≥ 1`, `dc_codebook` sized as
///   `codebook`, `mcu_schedule` of `blocks_per_mcu * 4` bytes.
pub struct HuffmanParams<'a, B: GpuBackend> {
    /// Packed bitstream as big-endian u32 words.
    pub bitstream: &'a B::DeviceBuffer,
    /// Flat codebook: `u32[num_components * HUFFMAN_CODEBOOK_ENTRIES]`.
    pub codebook: &'a B::DeviceBuffer,
    /// Per-subsequence output state: `uint4 = (p, n, c, z)` each.
    pub s_info: &'a B::DeviceBuffer,
    /// Per-subsequence sync flag; Phase 2 variants.
    pub sync_flags: Option<&'a B::DeviceBuffer>,
    /// Previous pass's states; `JpegPhase2InterSync`.
    pub s_info_prev: Option<&'a B::DeviceBuffer>,
    /// Exclusive-scan output; Phase 4 variants.
    pub offsets: Option<&'a B::DeviceBuffer>,
    /// Final decoded symbol stream; Phase 4 variants.
    pub symbols_out: Option<&'a B::DeviceBuffer>,
    /// Per-subsequence exit condition; Phase 4 variants.
    pub decode_status: Option<&'a B::DeviceBuffer>,
    /// Flat DC-class codebook; JPEG-framed variants.
    pub dc_codebook: Option<&'a B::DeviceBuffer>,
    /// Per-block schedule within an MCU; JPEG-framed variants.
    pub mcu_schedule: Option<&'a B::DeviceBuffer>,
    /// Exact bit count of `bitstream`.
    pub length_bits: u32,
    /// Subsequence size in bits.
    pub subsequence_bits: u32,
    /// Number of Huffman tables.
    pub num_components: u32,
    /// Number of 8×8 blocks per MCU; JPEG-framed variants.
    pub blocks_per_mcu: u32,
    /// Total symbol count; Phase 4 variants.
    pub total_symbols: u32,
    /// Which phase this dispatch executes.
    pub phase: HuffmanPhase,
}

/// Subsequences of `subsequence_bits` that cover `length_bits`.
pub open spec fn subsequences(length_bits: u32, subsequence_bits: u32) -> int {
    (length_bits + subsequence_bits - 1) / (subsequence_bits as int)
}

fn huffman_invariant(detail: &'static str) -> (e: BackendError)
    ensures
        e matches BackendError::InvariantViolation { kind, detail: d } && kind@
            == "HuffmanInvariantViolation"@ && d == detail,
{
    BackendError::InvariantViolation { kind: "HuffmanInvariantViolation", detail }
}

/// Whether an optional buffer is there and holds `bytes`.
pub open spec fn holds<B: GpuBackend>(
    backend: &B,
    buf: Option<&B::DeviceBuffer>,
    bytes: int,
) -> bool {
    buf matches Some(b) && backend.capacity(b) >= bytes
}

impl<'a, B: GpuBackend> HuffmanParams<'a, B> {
    pub open spec fn count(&self) -> int {
        subsequences(self.length_bits, self.subsequence_bits)
    }

    pub open spec fn codebook_bytes(&self) -> int {
        self.num_components * HUFFMAN_CODEBOOK_ENTRIES * 4
    }

    /// The documented invariants.
    pub open spec fn well_formed(&self, backend: &B) -> bool {
        &&& self.length_bits > 0
        &&& self.subsequence_bits > 0
        &&& self.num_components > 0
        &&& self.length_bits + 2 * self.subsequence_bits <= u32::MAX
        &&& backend.capacity(self.bitstream) >= ((self.length_bits + 31) / 32 + 1) * 4
        &&& backend.capacity(self.codebook) >= self.codebook_bytes()
        &&& backend.capacity(self.s_info) >= self.count() * 16
        &&& self.phase.syncs() ==> holds(backend, self.sync_flags, self.count() * 4)
        &&& self.phase == HuffmanPhase::JpegPhase2InterSync ==> holds(
            backend,
            self.s_info_prev,
            self.count() * 16,
        )
        &&& self.phase.redecodes() ==> {
            &&& holds(backend, self.offsets, self.count() * 4)
            &&& holds(backend, self.decode_status, self.count() * 4)
            &&& holds(backend, self.symbols_out, self.total_symbols * 4)
        }
        &&& self.phase.jpeg_framed() ==> {
            &&& self.blocks_per_mcu > 0
            &&& holds(backend, self.dc_codebook, self.codebook_bytes())
            &&& holds(backend, self.mcu_schedule, self.blocks_per_mcu * 4)
        }
    }

    /// The first Phase 4 buffer invariant that does not hold.
    pub open spec fn phase4_violation(&self, backend: &B) -> Option<Seq<char>> {
        if self.offsets is None {
            Some(
                "Phase4Redecode (or JpegPhase4Redecode) requires offsets to be Some"@,
            )
        } else if self.symbols_out is None {
            Some(
                "Phase4Redecode (or JpegPhase4Redecode) requires symbols_out to be Some"@,
            )
        } else if self.decode_status is None {
            Some(
                "Phase4Redecode (or JpegPhase4Redecode) requires decode_status to be Some"@,
            )
        } else if !holds(backend, self.offsets, self.count() * 4) {
            Some(
                "offsets buffer is smaller than num_subsequences * 4 bytes"@,
            )
        } else if !holds(backend, self.decode_status, self.count() * 4) {
            Some(
                "decode_status buffer is smaller than num_subsequences * 4 bytes"@,
            )
        } else if self.total_symbols * 4 > usize::MAX {
            Some(
                "symbols_out byte count overflows usize"@,
            )
        } else if !holds(backend, self.symbols_out, self.total_symbols * 4) {
            Some(
                "symbols_out buffer is smaller than total_symbols * 4 bytes"@,
            )
        } else {
            None
        }
    }

    /// The first JPEG-framing invariant that does not hold.
    pub open spec fn jpeg_violation(&self, backend: &B) -> Option<Seq<char>> {
        if self.blocks_per_mcu == 0 {
            Some(
                "JPEG-framed phases require blocks_per_mcu ≥ 1"@,
            )
        } else if self.dc_codebook is None {
            Some(
                "JPEG-framed phases require dc_codebook to be Some"@,
            )
        } else if !holds(backend, self.dc_codebook, self.codebook_bytes()) {
            Some(
                "dc_codebook buffer is smaller than num_components * 65536 * 4 bytes"@,
            )
        } else if self.mcu_schedule is None {
            Some(
                "JPEG-framed phases require mcu_schedule to be Some"@,
            )
        } else if self.blocks_per_mcu * 4 > usize::MAX {
            Some(
                "mcu_schedule byte count overflows usize"@,
            )
        } else if !holds(backend, self.mcu_schedule, self.blocks_per_mcu * 4) {
            Some(
                "mcu_schedule buffer is smaller than blocks_per_mcu * 4 bytes"@,
            )
        } else {
            None
        }
    }

    /// The first invariant that does not hold.
    pub open spec fn violation(&self, backend: &B) -> Option<Seq<char>> {
        if self.length_bits == 0 {
            Some(
                "length_bits must be > 0"@,
            )
        } else if self.subsequence_bits == 0 {
            Some(
                "subsequence_bits must be > 0"@,
            )
        } else if self.num_components == 0 {
            Some(
                "num_components must be ≥ 1"@,
            )
        } else if self.length_bits + 2 * self.subsequence_bits > u32::MAX {
            Some(
                "length_bits + 2 * subsequence_bits overflows u32; kernel sync_target would wrap"@,
            )
        } else if backend.capacity(self.bitstream) < ((self.length_bits + 31) / 32 + 1) * 4 {
            Some(
                "bitstream buffer is smaller than ceil(length_bits/32)+1 words"@,
            )
        } else if self.codebook_bytes() > usize::MAX {
            Some(
                "codebook byte count overflows usize"@,
            )
        } else if backend.capacity(self.codebook) < self.codebook_bytes() {
            Some(
                "codebook buffer is smaller than num_components * 65536 * 4 bytes"@,
            )
        } else if self.count() * 16 > usize::MAX {
            Some(
                "s_info byte count overflows usize"@,
            )
        } else if backend.capacity(self.s_info) < self.count() * 16 {
            Some(
                "s_info buffer is smaller than num_subsequences * 16 bytes"@,
            )
        } else if self.phase.syncs() && self.sync_flags is None {
            Some(
                "Phase2InterSync (or JpegPhase2InterSync) requires sync_flags to be Some"@,
            )
        } else if self.phase.syncs() && !holds(backend, self.sync_flags, self.count() * 4) {
            Some(
                "sync_flags buffer is smaller than num_subsequences * 4 bytes"@,
            )
        } else if self.phase == HuffmanPhase::JpegPhase2InterSync && self.s_info_prev is None {
            Some(
                "JpegPhase2InterSync requires s_info_prev to be Some"@,
            )
        } else if self.phase == HuffmanPhase::JpegPhase2InterSync && !holds(
            backend,
            self.s_info_prev,
            self.count() * 16,
        ) {
            Some(
                "s_info_prev buffer is smaller than num_subsequences * 16 bytes"@,
            )
        } else {
            if self.phase.redecodes() && self.phase4_violation(backend) is Some {
                self.phase4_violation(backend)
            } else if self.phase.jpeg_framed() {
                self.jpeg_violation(backend)
            } else {
                None
            }
        }
    }

    /// Number of subsequences = `ceil(length_bits / subsequence_bits)`.
    #[must_use]
    pub fn num_subsequences(&self) -> (n: u32)
        requires
            self.subsequence_bits > 0,
        ensures
            n == self.count(),
    {
        proof {
            lemma_subsequences_fit(self.length_bits, self.subsequence_bits);
        }
        ((self.length_bits as u64 + self.subsequence_bits as u64 - 1)
            / self.subsequence_bits as u64) as u32
    }

    /// Validate the documented invariants; an error names the first one that
    /// does not hold.
    pub fn validate(&self, backend: &B) -> (r: Result<(), BackendError>)
        ensures
            reports(r, "HuffmanInvariantViolation"@, self.violation(backend)),
            r is Ok <==> self.well_formed(backend),
    {
        if self.length_bits == 0 {
            return Err(huffman_invariant("length_bits must be > 0"));
        }
        if self.subsequence_bits == 0 {
            return Err(huffman_invariant("subsequence_bits must be > 0"));
        }
        if self.num_components == 0 {
            return Err(huffman_invariant("num_components must be ≥ 1"));
        }
        // The kernel computes `start_bit + 2 * subsequence_bits` in 32 bits.
        if self.length_bits as u64 + 2 * self.subsequence_bits as u64 > 0xFFFF_FFFF {
            return Err(
                huffman_invariant(
                    "length_bits + 2 * subsequence_bits overflows u32; kernel sync_target would wrap",
                ),
            );
        }
        let stream_bytes: u64 = ((self.length_bits as u64 + 31) / 32 + 1) * 4;
        if (backend.device_buffer_len(self.bitstream) as u64) < stream_bytes {
            return Err(
                huffman_invariant(
                    "bitstream buffer is smaller than ceil(length_bits/32)+1 words",
                ),
            );
        }
        let codebook_bytes: u64 = self.num_components as u64 * 65536 * 4;
        if codebook_bytes > usize::MAX as u64 {
            return Err(huffman_invariant("codebook byte count overflows usize"));
        }
        if (backend.device_buffer_len(self.codebook) as u64) < codebook_bytes {
            return Err(
                huffman_invariant(
                    "codebook buffer is smaller than num_components * 65536 * 4 bytes",
                ),
            );
        }
        let count: u64 = self.num_subsequences() as u64;
        if count * 16 > usize::MAX as u64 {
            return Err(huffman_invariant("s_info byte count overflows usize"));
        }
        if (backend.device_buffer_len(self.s_info) as u64) < count * 16 {
            return Err(
                huffman_invariant(
                    "s_info buffer is smaller than num_subsequences * 16 bytes",
                ),
            );
        }
        if matches!(
            self.phase,
            HuffmanPhase::Phase2InterSync | HuffmanPhase::JpegPhase2InterSync
        ) {
            let flags = match self.sync_flags {
                Some(flags) => flags,
                None => {
                    return Err(
                        huffman_invariant(
                            "Phase2InterSync (or JpegPhase2InterSync) requires sync_flags to be Some",
                        ),
                    );
                },
            };
            if (backend.device_buffer_len(flags) as u64) < count * 4 {
                return Err(
                    huffman_invariant(
                        "sync_flags buffer is smaller than num_subsequences * 4 bytes",
                    ),
                );
            }
        }
        if matches!(self.phase, HuffmanPhase::JpegPhase2InterSync) {
            let prev = match self.s_info_prev {
                Some(prev) => prev,
                None => {
                    return Err(
                        huffman_invariant(
                            "JpegPhase2InterSync requires s_info_prev to be Some",
                        ),
                    );
                },
            };
            if (backend.device_buffer_len(prev) as u64) < count * 16 {
                return Err(
                    huffman_invariant(
                        "s_info_prev buffer is smaller than num_subsequences * 16 bytes",
                    ),
                );
            }
        }
        if matches!(
            self.phase,
            HuffmanPhase::Phase4Redecode | HuffmanPhase::JpegPhase4Redecode
        ) {
            match self.validate_phase4_buffers(backend) {
                Ok(_) => {},
                Err(e) => return Err(e),
            }
        }
        if self.phase.is_jpeg_framed() {
            match self.validate_jpeg_framed(backend) {
                Ok(_) => {},
                Err(e) => return Err(e),
            }
        }
        Ok(())
    }

    /// Validate the Phase 4 buffer set: `offsets`, `symbols_out`,
    /// `decode_status`.
    fn validate_phase4_buffers(&self, backend: &B) -> (r: Result<(), BackendError>)
        requires
            self.subsequence_bits > 0,
            self.count() * 16 <= usize::MAX,
        ensures
            reports(r, "HuffmanInvariantViolation"@, self.phase4_violation(backend)),
    {
        let offsets = match self.offsets {
            Some(offsets) => offsets,
            None => {
                return Err(
                    huffman_invariant(
                        "Phase4Redecode (or JpegPhase4Redecode) requires offsets to be Some",
                    ),
                );
            },
        };
        let symbols_out = match self.symbols_out {
            Some(symbols_out) => symbols_out,
            None => {
                return Err(
                    huffman_invariant(
                        "Phase4Redecode (or JpegPhase4Redecode) requires symbols_out to be Some",
                    ),
                );
            },
        };
        let decode_status = match self.decode_status {
            Some(decode_status) => decode_status,
            None => {
                return Err(
                    huffman_invariant(
                        "Phase4Redecode (or JpegPhase4Redecode) requires decode_status to be Some",
                    ),
                );
            },
        };
        let count: u64 = self.num_subsequences() as u64;
        if (backend.device_buffer_len(offsets) as u64) < count * 4 {
            return Err(
                huffman_invariant(
                    "offsets buffer is smaller than num_subsequences * 4 bytes",
                ),
            );
        }
        if (backend.device_buffer_len(decode_status) as u64) < count * 4 {
            return Err(
                huffman_invariant(
                    "decode_status buffer is smaller than num_subsequences * 4 bytes",
                ),
            );
        }
        let symbols_bytes: u64 = self.total_symbols as u64 * 4;
        if symbols_bytes > usize::MAX as u64 {
            return Err(huffman_invariant("symbols_out byte count overflows usize"));
        }
        if (backend.device_buffer_len(symbols_out) as u64) < symbols_bytes {
            return Err(
                huffman_invariant(
                    "symbols_out buffer is smaller than total_symbols * 4 bytes",
                ),
            );
        }
        Ok(())
    }

    /// Validate the JPEG-framed-only invariants: `dc_codebook`,
    /// `mcu_schedule`, `blocks_per_mcu`.
    fn validate_jpeg_framed(&self, backend: &B) -> (r: Result<(), BackendError>)
        requires
            self.codebook_bytes() <= usize::MAX,
        ensures
            reports(r, "HuffmanInvariantViolation"@, self.jpeg_violation(backend)),
    {
        if self.blocks_per_mcu == 0 {
            return Err(huffman_invariant("JPEG-framed phases require blocks_per_mcu ≥ 1"));
        }
        let dc = match self.dc_codebook {
            Some(dc) => dc,
            None => {
                return Err(huffman_invariant("JPEG-framed phases require dc_codebook to be Some"));
            },
        };
        let codebook_bytes: u64 = self.num_components as u64 * 65536 * 4;
        if (backend.device_buffer_len(dc) as u64) < codebook_bytes {
            return Err(
                huffman_invariant(
                    "dc_codebook buffer is smaller than num_components * 65536 * 4 bytes",
                ),
            );
        }
        let sched = match self.mcu_schedule {
            Some(sched) => sched,
            None => {
                return Err(huffman_invariant("JPEG-framed phases require mcu_schedule to be Some"));
            },
        };
        let sched_bytes: u64 = self.blocks_per_mcu as u64 * 4;
        if sched_bytes > usize::MAX as u64 {
            return Err(huffman_invariant("mcu_schedule byte count overflows usize"));
        }
        if (backend.device_buffer_len(sched) as u64) < sched_bytes {
            return Err(
                huffman_invariant(
                    "mcu_schedule buffer is smaller than blocks_per_mcu * 4 bytes",
                ),
            );
        }
        Ok(())
    }
}

/// There are no more subsequences than bits, and they cover the stream.
pub proof fn lemma_subsequences_fit(length_bits: u32, subsequence_bits: u32)
    requires
        subsequence_bits > 0,
    ensures
        0 <= subsequences(length_bits, subsequence_bits) <= length_bits,
        subsequences(length_bits, subsequence_bits) * subsequence_bits >= length_bits,
        length_bits > 0 ==> (subsequences(length_bits, subsequence_bits) - 1) * subsequence_bits
            < length_bits,
{
    crate::jpeg::geometry::lemma_ceil_div(length_bits as nat, subsequence_bits as nat);
    vstd::arithmetic::div_mod::lemma_div_pos_is_pos(
        length_bits + subsequence_bits - 1,
        subsequence_bits as int,
    );
}

/// A validated phase stays inside its buffers: at every bit of the stream its
/// own word and the next can be read, every prefix has an entry in every
/// table, and every subsequence its state.  The subsequences cover the
/// stream, and none of them is empty.
pub proof fn law_phases_stay_inside_their_buffers<B: GpuBackend>(
    p: HuffmanParams<B>,
    backend: &B,
    bit: int,
    table: int,
    prefix: int,
)
    requires
        p.well_formed(backend),
        0 <= bit < p.length_bits,
        0 <= table < p.num_components,
        0 <= prefix < 65536,
    ensures
        4 * (bit / 32 + 1) + 4 <= backend.capacity(p.bitstream),
        4 * (65536 * table + prefix) + 4 <= backend.capacity(p.codebook),
        0 <= bit / (p.subsequence_bits as int),
        16 * (bit / (p.subsequence_bits as int)) + 16 <= backend.capacity(p.s_info),
        (p.count() - 1) * p.subsequence_bits < p.length_bits <= p.count() * p.subsequence_bits,
        p.phase.jpeg_framed() ==> (p.dc_codebook matches Some(b) && 4 * (65536 * table + prefix) + 4
            <= backend.capacity(b)),
{
    let s = p.subsequence_bits as int;
    let n = p.length_bits as int;
    let c = p.count();
    vstd::arithmetic::div_mod::lemma_fundamental_div_mod(n + s - 1, s);
    vstd::arithmetic::div_mod::lemma_mod_bound(n + s - 1, s);
    vstd::arithmetic::div_mod::lemma_fundamental_div_mod(bit, s);
    vstd::arithmetic::div_mod::lemma_mod_bound(bit, s);
    let q = bit / s;
    assert((c - 1) * s == c * s - s) by (nonlinear_arith);
    assert(s * c == c * s) by (nonlinear_arith);
    assert(q + 1 <= c) by (nonlinear_arith)
        requires
            s * q <= bit,
            bit < n,
            n <= c * s,
            s > 0,
    ;
    assert(q >= 0) by (nonlinear_arith)
        requires
            bit >= 0,
            s > 0,
            q == bit / s,
    ;
    assert(65536 * table + 65536 <= 65536 * p.num_components);
}

} // verus!
