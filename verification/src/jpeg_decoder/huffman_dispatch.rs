//! Entry points of the parallel Huffman decoder.
//!
//! Each checks its input and sets up a run for a driver to carry out.

use super::huffman_driver::HuffmanRun;
use super::huffman_run::{
    started, Goal, HuffmanJob, HuffmanOutput, JobModel, OutputModel,
};
use super::huffman_run_laws::consistent;
use super::phase1_oracle::{tables_of, tables_of_refs, SubsequenceState};
use super::phase2_oracle::Phase2Outcome;
use super::bitstream::PackedBitstream;
use super::prepared::JpegPreparedInput;
use super::schedule::{
    build_gpu_codebook, build_mcu_schedule, flat_tables, flatten_codebooks,
};
use crate::backend::error::{BackendError, ErrorModel};
use crate::jpeg::canonical::{CanonicalCodebook, CanonicalEntry};
use crate::text::{decimal, push_decimal};
use vstd::prelude::*;
use vstd::slice::*;
use vstd::string::*;

verus! {

/// What an entry point hands back.
#[derive(Debug)]
pub enum Dispatch {
    /// There is nothing to decode: the result.
    Ready(HuffmanOutput),
    /// A run for the driver to carry out.
    Run(HuffmanRun),
}

impl JpegPreparedInput {
    /// The DC tables in component order.
    pub open spec fn dc_tables(&self) -> Seq<Seq<CanonicalEntry>> {
        Seq::new(self.components@.len(), |k: int| self.dc_table(k))
    }

    /// The AC tables in component order.
    pub open spec fn ac_tables(&self) -> Seq<Seq<CanonicalEntry>> {
        Seq::new(self.components@.len(), |k: int| self.ac_table(k))
    }
}

/// The job of a prepared JPEG.
pub open spec fn jpeg_job(
    prep: JpegPreparedInput,
    subsequence_bits: u32,
    name: Seq<char>,
    goal: Goal,
) -> JobModel {
    JobModel {
        name,
        jpeg: true,
        goal,
        words: prep.bitstream.words@,
        codebook: flat_tables(prep.ac_tables()),
        dc_codebook: flat_tables(prep.dc_tables()),
        mcu_schedule: prep.schedule(),
        length_bits: prep.bitstream.length_bits,
        subsequence_bits,
        num_components: prep.components@.len() as u32,
        blocks_per_mcu: prep.schedule().len() as u32,
    }
}

/// The job of a synthetic stream.
pub open spec fn plain_job(
    stream: PackedBitstream,
    books: Seq<CanonicalCodebook>,
    subsequence_bits: u32,
    name: Seq<char>,
    goal: Goal,
) -> JobModel {
    JobModel {
        name,
        jpeg: false,
        goal,
        words: stream.words@,
        codebook: flat_tables(tables_of(books)),
        dc_codebook: Seq::empty(),
        mcu_schedule: Seq::empty(),
        length_bits: stream.length_bits,
        subsequence_bits,
        num_components: books.len() as u32,
        blocks_per_mcu: 0,
    }
}

/// The result of decoding an empty stream.
pub open spec fn empty_output(goal: Goal) -> OutputModel {
    match goal {
        Goal::States => OutputModel::States(Seq::empty()),
        Goal::Sync => OutputModel::Synced(
            Seq::empty(),
            Phase2Outcome::Converged { iterations: 0 },
        ),
        Goal::Symbols => OutputModel::Symbols(Seq::empty()),
    }
}

/// `r` hands back a run of `job` that has not begun.
pub open spec fn hands_run(r: Result<Dispatch, BackendError>, job: JobModel) -> bool {
    r matches Ok(Dispatch::Run(run)) && run.wf() && run.job() == job && run@ == started(job)
}

/// `r` refuses, saying `text`.
pub open spec fn refuses(r: Result<Dispatch, BackendError>, text: Seq<char>) -> bool {
    r matches Err(e) && e@ == ErrorModel::Message(text)
}

/// What an entry point for JPEG-framed streams does.
pub open spec fn dispatches_jpeg(
    r: Result<Dispatch, BackendError>,
    prep: JpegPreparedInput,
    subsequence_bits: u32,
    name: Seq<char>,
    goal: Goal,
) -> bool {
    if prep.bitstream.length_bits == 0 {
        r matches Ok(Dispatch::Ready(out)) && out@ == empty_output(goal)
    } else if subsequence_bits == 0 {
        refuses(r, name + ": subsequence_bits must be > 0"@)
    } else {
        hands_run(r, jpeg_job(prep, subsequence_bits, name, goal))
    }
}

/// What an entry point for synthetic streams does.
pub open spec fn dispatches_plain(
    r: Result<Dispatch, BackendError>,
    stream: PackedBitstream,
    books: Seq<CanonicalCodebook>,
    subsequence_bits: u32,
    name: Seq<char>,
    goal: Goal,
) -> bool {
    if stream.length_bits == 0 {
        r matches Ok(Dispatch::Ready(out)) && out@ == empty_output(goal)
    } else if subsequence_bits == 0 {
        refuses(r, name + ": subsequence_bits must be > 0"@)
    } else if books.len() == 0 {
        refuses(r, name + ": at least one codebook required"@)
    } else if books.len() > u32::MAX {
        refuses(r, "more codebooks ("@ + decimal(books.len()) + ") than fit in u32"@)
    } else {
        hands_run(r, plain_job(stream, books, subsequence_bits, name, goal))
    }
}

fn nothing(goal: Goal) -> (out: HuffmanOutput)
    ensures
        out@ == empty_output(goal),
{
    match goal {
        Goal::States => {
            let none: Vec<SubsequenceState> = Vec::new();
            assert(none@ =~= Seq::empty());
            HuffmanOutput::States(none)
        },
        Goal::Sync => {
            let none: Vec<SubsequenceState> = Vec::new();
            assert(none@ =~= Seq::empty());
            HuffmanOutput::Synced(none, Phase2Outcome::Converged { iterations: 0 })
        },
        Goal::Symbols => {
            let none: Vec<u32> = Vec::new();
            assert(none@ =~= Seq::empty());
            HuffmanOutput::Symbols(none)
        },
    }
}

fn refusal(name: &str, detail: &str) -> (e: BackendError)
    ensures
        e@ == ErrorModel::Message(name@ + detail@),
{
    let mut s = String::from_str(name);
    s.append(detail);
    BackendError::Message(s)
}

fn dispatch_jpeg(
    prep: &JpegPreparedInput,
    subsequence_bits: u32,
    name: &'static str,
    goal: Goal,
) -> (r: Result<Dispatch, BackendError>)
    requires
        prep.components@.len() <= 4,
        prep.tables_present(),
    ensures
        dispatches_jpeg(r, *prep, subsequence_bits, name@, goal),
{
    if prep.bitstream.length_bits == 0 {
        return Ok(Dispatch::Ready(nothing(goal)));
    }
    if subsequence_bits == 0 {
        return Err(refusal(name, ": subsequence_bits must be > 0"));
    }
    let (mcu_schedule, blocks_per_mcu) = build_mcu_schedule(prep);
    let ac_refs = prep.ac_codebooks_for_dispatch();
    let dc_refs = prep.dc_codebooks_for_dispatch();
    proof {
        assert(tables_of_refs(ac_refs@) =~= prep.ac_tables());
        assert(tables_of_refs(dc_refs@) =~= prep.dc_tables());
    }
    let job = HuffmanJob {
        name,
        jpeg: true,
        goal,
        words: slice_to_vec(prep.bitstream.words.as_slice()),
        codebook: flatten_codebooks(ac_refs.as_slice()),
        dc_codebook: flatten_codebooks(dc_refs.as_slice()),
        mcu_schedule,
        length_bits: prep.bitstream.length_bits,
        subsequence_bits,
        num_components: prep.components.len() as u32,
        blocks_per_mcu,
    };
    assert(job@ == jpeg_job(*prep, subsequence_bits, name@, goal));
    Ok(Dispatch::Run(HuffmanRun::start(job)))
}

fn dispatch_plain(
    stream: &PackedBitstream,
    codebooks: &[CanonicalCodebook],
    subsequence_bits: u32,
    name: &'static str,
    goal: Goal,
) -> (r: Result<Dispatch, BackendError>)
    requires
        forall|k: int| 0 <= k < codebooks@.len() ==> (#[trigger] codebooks@[k]).wf(),
    ensures
        dispatches_plain(r, *stream, codebooks@, subsequence_bits, name@, goal),
{
    if stream.length_bits == 0 {
        return Ok(Dispatch::Ready(nothing(goal)));
    }
    if subsequence_bits == 0 {
        return Err(refusal(name, ": subsequence_bits must be > 0"));
    }
    if codebooks.len() == 0 {
        return Err(refusal(name, ": at least one codebook required"));
    }
    if codebooks.len() as u64 > 0xFFFF_FFFF {
        let mut s = String::from_str("more codebooks (");
        push_decimal(&mut s, codebooks.len() as u64);
        s.append(") than fit in u32");
        return Err(BackendError::Message(s));
    }
    let dc_codebook: Vec<u32> = Vec::new();
    let mcu_schedule: Vec<u32> = Vec::new();
    proof {
        assert(dc_codebook@ =~= Seq::empty());
        assert(mcu_schedule@ =~= Seq::empty());
    }
    let job = HuffmanJob {
        name,
        jpeg: false,
        goal,
        words: slice_to_vec(stream.words.as_slice()),
        codebook: build_gpu_codebook(codebooks),
        dc_codebook,
        mcu_schedule,
        length_bits: stream.length_bits,
        subsequence_bits,
        num_components: codebooks.len() as u32,
        blocks_per_mcu: 0,
    };
    assert(job@ == plain_job(*stream, codebooks@, subsequence_bits, name@, goal));
    Ok(Dispatch::Run(HuffmanRun::start(job)))
}

/// JPEG-framed phase 1: the state of each subsequence after its own walk.
pub fn dispatch_jpeg_phase1_intra_sync(prep: &JpegPreparedInput, subsequence_bits: u32) -> (r:
    Result<Dispatch, BackendError>)
    requires
        prep.components@.len() <= 4,
        prep.tables_present(),
    ensures
        dispatches_jpeg(
            r,
            *prep,
            subsequence_bits,
            "dispatch_jpeg_phase1_intra_sync"@,
            Goal::States,
        ),
{
    dispatch_jpeg(prep, subsequence_bits, "dispatch_jpeg_phase1_intra_sync", Goal::States)
}

/// JPEG-framed phases 1 and 2.  That the retry bound is exhausted is part of
/// the output, not an error.
pub fn dispatch_jpeg_phase1_then_phase2(prep: &JpegPreparedInput, subsequence_bits: u32) -> (r:
    Result<Dispatch, BackendError>)
    requires
        prep.components@.len() <= 4,
        prep.tables_present(),
    ensures
        dispatches_jpeg(
            r,
            *prep,
            subsequence_bits,
            "dispatch_jpeg_phase1_then_phase2"@,
            Goal::Sync,
        ),
{
    dispatch_jpeg(prep, subsequence_bits, "dispatch_jpeg_phase1_then_phase2", Goal::Sync)
}

/// All four JPEG-framed phases: the decoded symbol stream.
pub fn dispatch_jpeg_phase1_through_phase4(prep: &JpegPreparedInput, subsequence_bits: u32) -> (r:
    Result<Dispatch, BackendError>)
    requires
        prep.components@.len() <= 4,
        prep.tables_present(),
    ensures
        dispatches_jpeg(
            r,
            *prep,
            subsequence_bits,
            "dispatch_jpeg_phase1_through_phase4"@,
            Goal::Symbols,
        ),
{
    dispatch_jpeg(prep, subsequence_bits, "dispatch_jpeg_phase1_through_phase4", Goal::Symbols)
}

/// Phase 1 on a synthetic stream.
pub fn dispatch_phase1_intra_sync(
    stream: &PackedBitstream,
    codebooks: &[CanonicalCodebook],
    subsequence_bits: u32,
) -> (r: Result<Dispatch, BackendError>)
    requires
        forall|k: int| 0 <= k < codebooks@.len() ==> (#[trigger] codebooks@[k]).wf(),
    ensures
        dispatches_plain(
            r,
            *stream,
            codebooks@,
            subsequence_bits,
            "dispatch_phase1_intra_sync"@,
            Goal::States,
        ),
{
    dispatch_plain(stream, codebooks, subsequence_bits, "dispatch_phase1_intra_sync", Goal::States)
}

/// Phases 1 and 2 on a synthetic stream.
pub fn dispatch_phase1_then_phase2(
    stream: &PackedBitstream,
    codebooks: &[CanonicalCodebook],
    subsequence_bits: u32,
) -> (r: Result<Dispatch, BackendError>)
    requires
        forall|k: int| 0 <= k < codebooks@.len() ==> (#[trigger] codebooks@[k]).wf(),
    ensures
        dispatches_plain(
            r,
            *stream,
            codebooks@,
            subsequence_bits,
            "dispatch_phase1_then_phase2"@,
            Goal::Sync,
        ),
{
    dispatch_plain(stream, codebooks, subsequence_bits, "dispatch_phase1_then_phase2", Goal::Sync)
}

/// All four phases on a synthetic stream.
pub fn dispatch_phase1_through_phase4(
    stream: &PackedBitstream,
    codebooks: &[CanonicalCodebook],
    subsequence_bits: u32,
) -> (r: Result<Dispatch, BackendError>)
    requires
        forall|k: int| 0 <= k < codebooks@.len() ==> (#[trigger] codebooks@[k]).wf(),
    ensures
        dispatches_plain(
            r,
            *stream,
            codebooks@,
            subsequence_bits,
            "dispatch_phase1_through_phase4"@,
            Goal::Symbols,
        ),
{
    dispatch_plain(
        stream,
        codebooks,
        subsequence_bits,
        "dispatch_phase1_through_phase4",
        Goal::Symbols,
    )
}

/// The job of a JPEG whose stream has the words it needs announces its sizes
/// truthfully, so that its uploads fit.
pub proof fn law_jpeg_jobs_are_consistent(
    prep: JpegPreparedInput,
    subsequence_bits: u32,
    name: Seq<char>,
    goal: Goal,
)
    requires
        prep.components@.len() <= 4,
        prep.bitstream.words@.len() == (prep.bitstream.length_bits + 31) / 32,
    ensures
        consistent(jpeg_job(prep, subsequence_bits, name, goal)),
{
    super::schedule::lemma_schedule_names_tables(prep, 0);
}

/// Likewise for a synthetic stream.
pub proof fn law_plain_jobs_are_consistent(
    stream: PackedBitstream,
    books: Seq<CanonicalCodebook>,
    subsequence_bits: u32,
    name: Seq<char>,
    goal: Goal,
)
    requires
        books.len() <= u32::MAX,
        stream.words@.len() == (stream.length_bits + 31) / 32,
    ensures
        consistent(plain_job(stream, books, subsequence_bits, name, goal)),
{
}

} // verus!
