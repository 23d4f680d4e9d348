//! Shader blobs.

use super::error::{BackendError, ErrorModel};
use super::kernels::KernelId;
use vstd::prelude::*;
use vstd::string::*;

verus! {

/// The word of four bytes at `start`, least significant first.
pub open spec fn le_word(b: Seq<u8>, start: int) -> u32 {
    (b[start] + b[start + 1] * 0x100 + b[start + 2] * 0x1_0000 + b[start + 3] * 0x100_0000) as u32
}

/// The word of four bytes at `start`, most significant first.
pub open spec fn be_word(b: Seq<u8>, start: int) -> u32 {
    (b[start + 3] + b[start + 2] * 0x100 + b[start + 1] * 0x1_0000 + b[start] * 0x100_0000) as u32
}

/// First word of every SPIR-V module.
pub const SPIRV_MAGIC: u32 = 0x0723_0203;

/// The words of a SPIR-V module: whole words, in the byte order in which the
/// first one is the magic number.
pub open spec fn module_words(b: Seq<u8>) -> Option<Seq<u32>> {
    if b.len() % 4 != 0 || b.len() == 0 {
        None
    } else if le_word(b, 0) == SPIRV_MAGIC {
        Some(Seq::new(b.len() / 4, |i: int| le_word(b, 4 * i)))
    } else if be_word(b, 0) == SPIRV_MAGIC {
        Some(Seq::new(b.len() / 4, |i: int| be_word(b, 4 * i)))
    } else {
        None
    }
}

/// Why a blob is no module.
pub open spec fn refusal(b: Seq<u8>) -> Seq<char> {
    if b.len() % 4 != 0 {
        "input length not divisible by 4"@
    } else {
        "input missing SPIR-V magic number"@
    }
}

/// `ash::util::read_spv` on a blob in memory.  The contract claims that it
/// gives the words of a module of either byte order, and fails on anything
/// else with an error of that text: on partial words, and where the magic
/// number is missing.
#[verifier::external_body]
fn read_spv(blob: &[u8]) -> (words: Result<Vec<u32>, String>)
    ensures
        match module_words(blob@) {
            Some(w) => words matches Ok(v) && v@ == w,
            None => words matches Err(text) && text@ == refusal(blob@),
        },
{
    ash::util::read_spv(&mut std::io::Cursor::new(blob)).map_err(|e| e.to_string())
}

/// Decode a kernel's shader blob.
pub fn shader_words(kernel: KernelId, blob: &[u8]) -> (r: Result<Vec<u32>, BackendError>)
    ensures
        match module_words(blob@) {
            Some(w) => r matches Ok(v) && v@ == w,
            None => r matches Err(e) && e@ == ErrorModel::Message(
                "read_spv("@ + kernel.label_text() + "): "@ + refusal(blob@),
            ),
        },
{
    match read_spv(blob) {
        Ok(words) => Ok(words),
        Err(text) => {
            let mut s = String::from_str("read_spv(");
            s.append(kernel.label());
            s.append("): ");
            s.append(text.as_str());
            Err(BackendError::Message(s))
        },
    }
}

} // verus!
