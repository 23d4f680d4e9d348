//! End-to-end JPEG decoding: from the bytes of a file to the run that puts
//! its RGBA8 image into device memory.

use super::assemble::symbols_to_coefficients;
use super::coefficients::CoefficientError;
use super::error::{GpuErrorModel, JpegGpuError};
use super::extract::{extract_coefficients, pack_qtables};
use super::idct_run::{IdctJob, IdctJobModel, IdctProgress, IdctRun};
use super::prepared::{prepare_jpeg, prepared, JpegPreparedInput};
use super::prepared_laws::{law_prepared_input_is_complete, prepared_valid};
use crate::backend::error::GpuBackend;
use crate::jpeg::canonical::{books_view, books_wf};
use crate::jpeg::headers::JpegFrameComponent;
use crate::text::{decimal, push_decimal};
use vstd::prelude::*;
use vstd::string::*;

verus! {

/// JPEG decoder that runs the IDCT, and optionally the Huffman phases, on a
/// device.
pub struct JpegGpuDecoder<B: GpuBackend> {
    backend: B,
}

/// Block indices the kernel can address: 26 bits.
pub const MAX_BLOCKS: u64 = 0x400_0000;

impl JpegPreparedInput {
    /// A prepared JPEG with everything a decoder relies on.
    pub open spec fn ready(&self) -> bool {
        &&& prepared_valid(self@)
        &&& books_wf(self.dc_codebooks@)
        &&& books_wf(self.ac_codebooks@)
    }

    /// Blocks over all components.
    pub open spec fn total_blocks(&self) -> nat {
        self.components@.len() * self.blocks_per_comp()
    }

    /// The coefficients can be addressed on this machine.
    pub open spec fn addressable(&self) -> bool {
        self.total_blocks() * 64 <= usize::MAX
    }
}

/// The first component from `k` on that is subsampled.
pub open spec fn subsampled_from(components: Seq<JpegFrameComponent>, k: int) -> Option<int>
    decreases components.len() - k,
{
    if k >= components.len() {
        None
    } else if components[k].h_sampling != 1 || components[k].v_sampling != 1 {
        Some(k)
    } else {
        subsampled_from(components, k + 1)
    }
}

/// The quantisation slot the kernel uses for component `k` of a colour image.
pub open spec fn kernel_slot(k: int) -> u8 {
    if k == 0 {
        0
    } else {
        1
    }
}

/// The first component from `k` on whose table is not in the slot the kernel
/// uses.
pub open spec fn misplaced_from(components: Seq<JpegFrameComponent>, k: int) -> Option<int>
    decreases components.len() - k,
{
    if k >= components.len() {
        None
    } else if components[k].quant_selector != kernel_slot(k) {
        Some(k)
    } else {
        misplaced_from(components, k + 1)
    }
}

/// What a misplaced table is answered.
pub open spec fn misplaced_text(k: int, slot: u8) -> Seq<char> {
    "component "@ + decimal(k as nat) + " uses quantisation table slot "@ + decimal(slot as nat)
        + " but kernel expects slot "@ + decimal(kernel_slot(k) as nat)
        + "; only JFIF-standard slot assignment (0=luma, 1=chroma) is supported"@
}

/// Why the kernels cannot take an image, if they cannot.
pub open spec fn unsupported(components: Seq<JpegFrameComponent>) -> Option<GpuErrorModel> {
    let n = components.len();
    if n != 1 && n != 3 {
        Some(
            GpuErrorModel::UnsupportedComponents(
                if n > 255 {
                    255
                } else {
                    n as u8
                },
            ),
        )
    } else {
        match subsampled_from(components, 0) {
            Some(k) => Some(
                GpuErrorModel::UnsupportedSubsampling {
                    component: components[k].id,
                    h: components[k].h_sampling,
                    v: components[k].v_sampling,
                },
            ),
            None => if n == 3 {
                match misplaced_from(components, 0) {
                    Some(k) => Some(
                        GpuErrorModel::HeaderParse(
                            misplaced_text(k, components[k].quant_selector),
                        ),
                    ),
                    None => None,
                }
            } else {
                None
            },
        }
    }
}

impl JpegPreparedInput {
    /// What an image with too many blocks is answered.
    pub open spec fn too_large_text(&self) -> Seq<char> {
        "image too large for IDCT kernel: "@ + decimal(self.components@.len()) + " components × "@
            + decimal(self.blocks_wide()) + "×"@ + decimal(self.blocks_high())
            + " blocks exceeds the 26-bit block index limit"@
    }

    /// Coefficients, DC values and quantisation tables: from the symbols a
    /// device decoded, if it did and they fit the scan, else from the stream.
    pub open spec fn coefficients_from(&self, symbols: Option<Seq<u32>>) -> Result<
        (Seq<i32>, Seq<i32>, Seq<i32>, nat),
        CoefficientError,
    > {
        match symbols {
            Some(s) => match self.assembly(s) {
                Ok((coef, dc)) => match self.first_undefined_slot(0) {
                    Some(slot) => Err(CoefficientError::UndefinedQuantTable { slot }),
                    None => Ok((coef, dc, self.qt_flat(), self.qt_slots().len())),
                },
                Err(_) => self.extraction(),
            },
            None => self.extraction(),
        }
    }

    /// The IDCT job of a supported image, or why there is none.
    pub open spec fn idct_job(&self, symbols: Option<Seq<u32>>) -> Result<
        IdctJobModel,
        GpuErrorModel,
    > {
        if !self.addressable() {
            Err(GpuErrorModel::Dispatch(self.too_large_text()))
        } else {
            match self.coefficients_from(symbols) {
                Err(e) => Err(GpuErrorModel::HeaderParse(e.text())),
                Ok((coefficients, dc_values, qtables, num_qtables)) => if self.total_blocks()
                    >= MAX_BLOCKS {
                    Err(GpuErrorModel::Dispatch(self.too_large_text()))
                } else if self.width * self.height * 4 > usize::MAX {
                    Err(
                        GpuErrorModel::Dispatch(
                            "image too large: width × height × 4 overflows"@,
                        ),
                    )
                } else {
                    Ok(
                        IdctJobModel {
                            coefficients,
                            qtables,
                            dc_values,
                            width: self.width as u32,
                            height: self.height as u32,
                            num_components: self.components@.len() as u32,
                            blocks_wide: self.blocks_wide() as u32,
                            blocks_high: self.blocks_high() as u32,
                            num_qtables: num_qtables as u32,
                        },
                    )
                },
            }
        }
    }
}

/// `r` is the run, or the refusal, of a prepared JPEG.
pub open spec fn decodes(
    r: Result<IdctRun, JpegGpuError>,
    prep: JpegPreparedInput,
    symbols: Option<Seq<u32>>,
) -> bool {
    match unsupported(prep.components@) {
        Some(e) => r matches Err(x) && x@ == e,
        None => match prep.idct_job(symbols) {
            Err(e) => r matches Err(x) && x@ == e,
            Ok(job) => r matches Ok(run) && run.wf() && run.job() == job && run@
                == (IdctProgress::Working { at: 0 }),
        },
    }
}

proof fn lemma_ready(prep: JpegPreparedInput)
    requires
        prep.ready(),
    ensures
        prep.tables_present(),
        1 <= prep.components@.len() <= 4,
        prep.addressable() ==> prep.extractable(),
{
    assert forall|k: int| 0 <= k < prep.components@.len() implies {
        &&& #[trigger] prep.dc_selectors@[k] < 4
        &&& prep.dc_codebooks@[prep.dc_selectors@[k] as int] is Some
    } by {
        assert(prep@.components[k] == prep.components@[k]);
        let i = prep.dc_selectors@[k] as int;
        assert(books_view(prep.dc_codebooks@)[i] is Some);
    }
    assert forall|k: int| 0 <= k < prep.components@.len() implies {
        &&& #[trigger] prep.ac_selectors@[k] < 4
        &&& prep.ac_codebooks@[prep.ac_selectors@[k] as int] is Some
    } by {
        assert(prep@.components[k] == prep.components@[k]);
        let i = prep.ac_selectors@[k] as int;
        assert(books_view(prep.ac_codebooks@)[i] is Some);
    }
}

fn misplaced(k: usize, slot: u8) -> (e: JpegGpuError)
    ensures
        e@ == GpuErrorModel::HeaderParse(misplaced_text(k as int, slot)),
{
    let expected: u8 = if k == 0 {
        0
    } else {
        1
    };
    let mut s = String::from_str("component ");
    push_decimal(&mut s, k as u64);
    s.append(" uses quantisation table slot ");
    push_decimal(&mut s, slot as u64);
    s.append(" but kernel expects slot ");
    push_decimal(&mut s, expected as u64);
    s.append("; only JFIF-standard slot assignment (0=luma, 1=chroma) is supported");
    JpegGpuError::HeaderParse(s)
}

/// Refuse what the kernels cannot take: component counts other than 1 and 3,
/// subsampled components, and colour images whose tables are not in the
/// slots the kernel uses.
pub fn check_supported(components: &[JpegFrameComponent]) -> (r: Result<(), JpegGpuError>)
    ensures
        match unsupported(components@) {
            Some(e) => r matches Err(x) && x@ == e,
            None => r is Ok,
        },
{
    let n: usize = components.len();
    if n != 1 && n != 3 {
        let count: u8 = if n > 255 {
            255
        } else {
            n as u8
        };
        return Err(JpegGpuError::UnsupportedComponents(count));
    }
    let mut k: usize = 0;
    while k < n
        invariant
            k <= n == components@.len(),
            n == 1 || n == 3,
            subsampled_from(components@, 0) == subsampled_from(components@, k as int),
        decreases n - k,
    {
        let comp = components[k];
        if comp.h_sampling != 1 || comp.v_sampling != 1 {
            return Err(
                JpegGpuError::UnsupportedSubsampling {
                    component: comp.id,
                    h: comp.h_sampling,
                    v: comp.v_sampling,
                },
            );
        }
        k = k + 1;
    }
    if n == 3 {
        let mut k: usize = 0;
        while k < n
            invariant
                k <= n == components@.len(),
                n == 3,
                subsampled_from(components@, 0) is None,
                misplaced_from(components@, 0) == misplaced_from(components@, k as int),
            decreases n - k,
        {
            let slot: u8 = components[k].quant_selector;
            if slot != (if k == 0 {
                0
            } else {
                1
            }) {
                return Err(misplaced(k, slot));
            }
            k = k + 1;
        }
    }
    Ok(())
}

fn too_large(n: usize, blocks_wide: u64, blocks_high: u64) -> (e: JpegGpuError)
    ensures
        e@ == GpuErrorModel::Dispatch(
            "image too large for IDCT kernel: "@ + decimal(n as nat) + " components × "@ + decimal(
                blocks_wide as nat,
            ) + "×"@ + decimal(blocks_high as nat)
                + " blocks exceeds the 26-bit block index limit"@,
        ),
{
    let mut s = String::from_str("image too large for IDCT kernel: ");
    push_decimal(&mut s, n as u64);
    s.append(" components × ");
    push_decimal(&mut s, blocks_wide);
    s.append("×");
    push_decimal(&mut s, blocks_high);
    s.append(" blocks exceeds the 26-bit block index limit");
    JpegGpuError::Dispatch(s)
}

fn gather(prep: &JpegPreparedInput, symbols: Option<&[u32]>) -> (r: Result<
    (Vec<i32>, Vec<i32>, Vec<i32>, u32),
    CoefficientError,
>)
    requires
        prep.ready(),
        prep.addressable(),
    ensures
        match prep.coefficients_from(
            match symbols {
                Some(s) => Some(s@),
                None => None,
            },
        ) {
            Ok((c, d, q, n)) => r matches Ok(x) && x.0@ == c && x.1@ == d && x.2@ == q && x.3 == n,
            Err(e) => r matches Err(f) && f == e,
        },
{
    proof {
        lemma_ready(*prep);
    }
    if let Some(symbols) = symbols {
        if let Ok((coef, dc)) = symbols_to_coefficients(prep, symbols) {
            return match pack_qtables(prep) {
                Ok((qtables, num_qtables)) => Ok((coef, dc, qtables, num_qtables)),
                Err(e) => Err(e),
            };
        }
    }
    extract_coefficients(prep)
}

impl<B: GpuBackend> JpegGpuDecoder<B> {
    /// The back end the decoder is bound to.
    pub closed spec fn bound_backend(&self) -> B {
        self.backend
    }

    /// Create a new decoder bound to `backend`.
    pub fn new(backend: B) -> (decoder: Self)
        ensures
            decoder.bound_backend() == backend,
    {
        JpegGpuDecoder { backend }
    }

    /// Borrow the underlying back end.
    pub fn backend(&self) -> (backend: &B)
        ensures
            *backend == self.bound_backend(),
    {
        &self.backend
    }

    /// Turn a prepared JPEG into the run that puts its image into device
    /// memory.
    ///
    /// `symbols` are what the device's Huffman phases decoded, if they ran and
    /// succeeded; the stream itself is decoded where they are missing or do
    /// not fit the scan.
    pub fn decode_prepared(&self, prep: &JpegPreparedInput, symbols: Option<&[u32]>) -> (r: Result<
        IdctRun,
        JpegGpuError,
    >)
        requires
            prep.ready(),
        ensures
            decodes(
                r,
                *prep,
                match symbols {
                    Some(s) => Some(s@),
                    None => None,
                },
            ),
    {
        match check_supported(prep.components.as_slice()) {
            Err(e) => {
                return Err(e);
            },
            Ok(_) => {},
        }
        proof {
            lemma_ready(*prep);
        }
        let n: usize = prep.components.len();
        let blocks_wide: u64 = (prep.width as u64 + 7) / 8;
        let blocks_high: u64 = (prep.height as u64 + 7) / 8;
        proof {
            let w = blocks_wide as int;
            let h = blocks_high as int;
            assert(0 <= w * h <= 8192 * 8192) by (nonlinear_arith)
                requires
                    0 <= w <= 8192,
                    0 <= h <= 8192,
            ;
        }
        let per_comp: u64 = blocks_wide * blocks_high;
        let total: u64 = if n == 1 {
            per_comp
        } else {
            3 * per_comp
        };
        assert(total == prep.total_blocks()) by {
            if n == 1 {
                assert(1 * prep.blocks_per_comp() == prep.blocks_per_comp());
            }
        }
        if total * 64 > usize::MAX as u64 {
            return Err(too_large(n, blocks_wide, blocks_high));
        }
        let (coefficients, dc_values, qtables, num_qtables) = match gather(prep, symbols) {
            Ok(parts) => parts,
            Err(e) => {
                return Err(JpegGpuError::HeaderParse(e.message()));
            },
        };
        if total >= MAX_BLOCKS {
            return Err(too_large(n, blocks_wide, blocks_high));
        }
        proof {
            let w = prep.width as int;
            let h = prep.height as int;
            assert(0 <= w * h <= 0xFFFF * 0xFFFF) by (nonlinear_arith)
                requires
                    0 <= w <= 0xFFFF,
                    0 <= h <= 0xFFFF,
            ;
        }
        if prep.width as u64 * prep.height as u64 * 4 > usize::MAX as u64 {
            return Err(
                JpegGpuError::Dispatch(
                    String::from_str("image too large: width × height × 4 overflows"),
                ),
            );
        }
        let job = IdctJob {
            coefficients,
            qtables,
            dc_values,
            width: prep.width as u32,
            height: prep.height as u32,
            num_components: n as u32,
            blocks_wide: blocks_wide as u32,
            blocks_high: blocks_high as u32,
            num_qtables,
        };
        proof {
            super::decoder_laws::lemma_gathered_sizes(
                *prep,
                match symbols {
                    Some(s) => Some(s@),
                    None => None,
                },
            );
        }
        Ok(IdctRun::start(job))
    }

    /// Prepare a baseline JFIF JPEG and refuse what the kernels cannot take.
    pub fn accept(&self, jpeg_bytes: &[u8]) -> (r: Result<JpegPreparedInput, JpegGpuError>)
        ensures
            match prepared(jpeg_bytes@) {
                Err(e) => r matches Err(x) && x@ == GpuErrorModel::HeaderParse(e.text()),
                Ok(m) => match unsupported(m.components) {
                    Some(e) => r matches Err(x) && x@ == e,
                    None => r matches Ok(prep) && prep@ == m && prep.ready(),
                },
            },
    {
        let prep = match prepare_jpeg(jpeg_bytes) {
            Ok(prep) => prep,
            Err(e) => {
                return Err(e);
            },
        };
        proof {
            law_prepared_input_is_complete(jpeg_bytes@);
        }
        match check_supported(prep.components.as_slice()) {
            Ok(_) => Ok(prep),
            Err(e) => Err(e),
        }
    }

    /// Decode a baseline JFIF JPEG into the run that puts its RGBA8 image
    /// into device memory.
    pub fn decode(&self, jpeg_bytes: &[u8]) -> (r: Result<IdctRun, JpegGpuError>)
        ensures
            match prepared(jpeg_bytes@) {
                Err(e) => r matches Err(x) && x@ == GpuErrorModel::HeaderParse(e.text()),
                Ok(m) => exists|prep: JpegPreparedInput|
                    prep@ == m && prep.ready() && #[trigger] decodes(r, prep, None),
            },
    {
        let prep = match prepare_jpeg(jpeg_bytes) {
            Ok(prep) => prep,
            Err(e) => {
                return Err(e);
            },
        };
        proof {
            law_prepared_input_is_complete(jpeg_bytes@);
        }
        let r = self.decode_prepared(&prep, None);
        assert(decodes(r, prep, None));
        r
    }
}

} // verus!
