//! Device-side layouts of the code tables and of the block order of an MCU.

use super::jpeg_walk::{ac_index, dc_index, ScanTables};
use super::phase1_oracle::{tables_of, tables_of_refs};
use super::prepared::JpegPreparedInput;
use crate::jpeg::canonical::{CanonicalCodebook, CanonicalEntry};
use vstd::arithmetic::div_mod::*;
use vstd::prelude::*;

verus! {

/// Entries of one flattened code table.
pub const TABLE_ENTRIES: usize = 65536;

/// A code table entry as the kernels read it: `(num_bits << 8) | symbol`.
/// A prefix without a code keeps its zero length, the kernels' miss mark.
pub open spec fn packed_entry(e: CanonicalEntry) -> u32 {
    (e.num_bits * 256 + e.symbol) as u32
}

/// The tables one behind the other.
pub open spec fn flat_tables(tables: Seq<Seq<CanonicalEntry>>) -> Seq<u32> {
    Seq::new(
        tables.len() * 65536,
        |i: int| packed_entry(tables[i / 65536][i % 65536]),
    )
}

proof fn lemma_flat_index(k: int, j: int)
    requires
        0 <= j < 65536,
    ensures
        (k * 65536 + j) / 65536 == k,
        (k * 65536 + j) % 65536 == j,
{
    lemma_fundamental_div_mod_converse(k * 65536 + j, 65536, k, j);
}

fn append_table(out: &mut Vec<u32>, book: &CanonicalCodebook)
    requires
        book.wf(),
    ensures
        final(out)@ == old(out)@ + Seq::new(65536, |j: int| packed_entry(book@[j])),
{
    let table = book.table();
    let ghost start = out@;
    let mut j: usize = 0;
    while j < TABLE_ENTRIES
        invariant
            j <= 65536,
            table@ == book@,
            table@.len() == 65536,
            out@ == start + Seq::new(j as nat, |i: int| packed_entry(book@[i])),
        decreases 65536 - j,
    {
        let e: CanonicalEntry = table[j];
        out.push(e.num_bits as u32 * 256 + e.symbol as u32);
        j = j + 1;
    }
}

/// Flatten codebooks into the device layout, `u32[n * 65536]`.
#[must_use]
pub fn flatten_codebooks(codebooks: &[&CanonicalCodebook]) -> (out: Vec<u32>)
    requires
        forall|k: int| 0 <= k < codebooks@.len() ==> (#[trigger] codebooks@[k]).wf(),
    ensures
        out@ == flat_tables(tables_of_refs(codebooks@)),
{
    let mut out: Vec<u32> = Vec::new();
    let ghost tables = tables_of_refs(codebooks@);
    let mut k: usize = 0;
    while k < codebooks.len()
        invariant
            k <= codebooks@.len(),
            tables == tables_of_refs(codebooks@),
            forall|k: int| 0 <= k < codebooks@.len() ==> (#[trigger] codebooks@[k]).wf(),
            out@.len() == k * 65536,
            forall|i: int|
                0 <= i < k * 65536 ==> #[trigger] out@[i] == packed_entry(
                    tables[i / 65536][i % 65536],
                ),
        decreases codebooks@.len() - k,
    {
        let ghost before = out@;
        append_table(&mut out, codebooks[k]);
        assert forall|i: int| 0 <= i < (k + 1) * 65536 implies #[trigger] out@[i] == packed_entry(
            tables[i / 65536][i % 65536],
        ) by {
            if i >= k * 65536 {
                lemma_flat_index(k as int, i - k * 65536);
                assert(tables[k as int] == codebooks@[k as int]@);
            } else {
                assert(out@[i] == before[i]);
            }
        }
        k = k + 1;
    }
    assert(out@ =~= flat_tables(tables));
    out
}

/// Flatten owned codebooks.
#[must_use]
pub fn build_gpu_codebook(codebooks: &[CanonicalCodebook]) -> (out: Vec<u32>)
    requires
        forall|k: int| 0 <= k < codebooks@.len() ==> (#[trigger] codebooks@[k]).wf(),
    ensures
        out@ == flat_tables(tables_of(codebooks@)),
{
    let mut refs: Vec<&CanonicalCodebook> = Vec::new();
    let mut k: usize = 0;
    while k < codebooks.len()
        invariant
            k <= codebooks@.len(),
            refs@.len() == k,
            forall|j: int| 0 <= j < k ==> *(#[trigger] refs@[j]) == codebooks@[j],
        decreases codebooks@.len() - k,
    {
        refs.push(&codebooks[k]);
        k = k + 1;
    }
    assert(tables_of_refs(refs@) =~= tables_of(codebooks@));
    flatten_codebooks(refs.as_slice())
}

/// The schedule entry of component `k`: its AC table, its DC table and
/// itself.  Tables stand in component order, so all three are `k`.
pub open spec fn schedule_entry(k: int) -> u32 {
    (k * 0x1_0000 + k * 0x100 + k) as u32
}

impl JpegPreparedInput {
    /// The blocks of one MCU in stream order, from component `k` on.
    pub open spec fn schedule_from(&self, k: int) -> Seq<u32>
        decreases self.components@.len() - k,
    {
        if k < 0 || k >= self.components@.len() {
            Seq::empty()
        } else {
            Seq::new(self.mcu_blocks(k), |i: int| schedule_entry(k)) + self.schedule_from(k + 1)
        }
    }

    /// The blocks of one MCU in stream order.
    pub open spec fn schedule(&self) -> Seq<u32> {
        self.schedule_from(0)
    }
}

/// Flatten the MCU's block order into the device layout: one entry
/// `(ac << 16) | (dc << 8) | component` for each block.  Returns the schedule
/// and its length, the blocks per MCU.
#[must_use]
pub fn build_mcu_schedule(prep: &JpegPreparedInput) -> (r: (Vec<u32>, u32))
    requires
        prep.components@.len() <= 4,
    ensures
        r.0@ == prep.schedule(),
        r.1 == prep.schedule().len(),
{
    let n: usize = prep.components.len();
    let mut out: Vec<u32> = Vec::new();
    let mut k: usize = 0;
    while k < n
        invariant
            k <= n <= 4,
            n == prep.components@.len(),
            out@.len() <= k * 65025,
            out@ + prep.schedule_from(k as int) == prep.schedule(),
        decreases n - k,
    {
        let comp = prep.components[k];
        let blocks: u32 = if n == 1 {
            1
        } else {
            proof {
                let h = comp.h_sampling as int;
                let v = comp.v_sampling as int;
                assert(0 <= h * v <= 65025) by (nonlinear_arith)
                    requires
                        0 <= h <= 255,
                        0 <= v <= 255,
                ;
            }
            comp.h_sampling as u32 * comp.v_sampling as u32
        };
        let entry: u32 = k as u32 * 0x1_0000 + k as u32 * 0x100 + k as u32;
        let ghost before = out@;
        let mut b: u32 = 0;
        while b < blocks
            invariant
                b <= blocks,
                out@ == before + Seq::new(b as nat, |i: int| entry),
            decreases blocks - b,
        {
            out.push(entry);
            b = b + 1;
        }
        assert(Seq::new(blocks as nat, |i: int| entry) =~= Seq::new(
            prep.mcu_blocks(k as int),
            |i: int| schedule_entry(k as int),
        ));
        assert(out@ + prep.schedule_from(k + 1) =~= before + prep.schedule_from(k as int));
        k = k + 1;
    }
    assert(out@ =~= prep.schedule());
    let len: u32 = out.len() as u32;
    (out, len)
}

/// A schedule entry names the tables of its component.
pub proof fn lemma_schedule_entry(k: int)
    requires
        0 <= k < 256,
    ensures
        dc_index(schedule_entry(k)) == k,
        ac_index(schedule_entry(k)) == k,
{
    let e = k * 0x1_0000 + k * 0x100 + k;
    lemma_fundamental_div_mod_converse(e, 0x100, k * 0x100 + k, k);
    lemma_fundamental_div_mod_converse(k * 0x100 + k, 0x100, k, k);
    lemma_fundamental_div_mod_converse(e, 0x1_0000, k, k * 0x100 + k);
    lemma_small_mod(k as nat, 0x100);
}

/// A schedule names only tables of the scan, and its length is bounded.
pub proof fn lemma_schedule_names_tables(prep: JpegPreparedInput, k: int)
    requires
        0 <= k <= prep.components@.len() <= 4,
    ensures
        prep.schedule_from(k).len() <= 65025 * (prep.components@.len() - k),
        forall|i: int|
            0 <= i < prep.schedule_from(k).len() ==> {
                &&& 0 <= dc_index(#[trigger] prep.schedule_from(k)[i]) < prep.components@.len()
                &&& 0 <= ac_index(prep.schedule_from(k)[i]) < prep.components@.len()
            },
    decreases prep.components@.len() - k,
{
    if k < prep.components@.len() {
        lemma_schedule_names_tables(prep, k + 1);
        lemma_schedule_entry(k);
        let h = prep.components@[k].h_sampling as int;
        let v = prep.components@[k].v_sampling as int;
        assert(0 <= h * v <= 65025) by (nonlinear_arith)
            requires
                0 <= h <= 255,
                0 <= v <= 255,
        ;
        let head = Seq::new(prep.mcu_blocks(k), |i: int| schedule_entry(k));
        assert forall|i: int| 0 <= i < prep.schedule_from(k).len() implies {
            &&& 0 <= dc_index(#[trigger] prep.schedule_from(k)[i]) < prep.components@.len()
            &&& 0 <= ac_index(prep.schedule_from(k)[i]) < prep.components@.len()
        } by {
            if i >= head.len() {
                assert(prep.schedule_from(k)[i] == prep.schedule_from(k + 1)[i - head.len()]);
            }
        }
    }
}

/// A scan's schedule is fit for the walkers: it names only tables of the
/// scan, and it is not empty unless a first component has no blocks.
pub proof fn law_schedule_names_the_scan_tables(prep: JpegPreparedInput, dc: Seq<
    Seq<CanonicalEntry>,
>, ac: Seq<Seq<CanonicalEntry>>)
    requires
        1 <= prep.components@.len() <= 4,
        prep.mcu_blocks(0) > 0,
        dc.len() == prep.components@.len(),
        ac.len() == prep.components@.len(),
    ensures
        (ScanTables { dc, ac, schedule: prep.schedule() }).wf(),
{
    lemma_schedule_names_tables(prep, 0);
}

/// Blocks of the components before `k` in one MCU.
pub open spec fn blocks_before(prep: JpegPreparedInput, k: nat) -> nat
    decreases k,
{
    if k == 0 {
        0
    } else {
        blocks_before(prep, (k - 1) as nat) + prep.mcu_blocks(k - 1)
    }
}

proof fn lemma_schedule_at(prep: JpegPreparedInput, from: nat, k: nat, b: nat)
    requires
        from <= k < prep.components@.len(),
        b < prep.mcu_blocks(k as int),
    ensures
        ({
            let at = blocks_before(prep, k) - blocks_before(prep, from) + b;
            &&& 0 <= at < prep.schedule_from(from as int).len()
            &&& prep.schedule_from(from as int)[at] == schedule_entry(k as int)
        }),
    decreases k - from,
{
    if from < k {
        lemma_schedule_at(prep, from + 1, k, b);
        lemma_blocks_before(prep, from + 1, k);
    }
}

proof fn lemma_blocks_before(prep: JpegPreparedInput, j: nat, k: nat)
    requires
        j <= k,
    ensures
        blocks_before(prep, j) <= blocks_before(prep, k),
    decreases k - j,
{
    if j < k {
        lemma_blocks_before(prep, j, (k - 1) as nat);
    }
}

proof fn lemma_schedule_len(prep: JpegPreparedInput, from: nat)
    requires
        from <= prep.components@.len(),
    ensures
        prep.schedule_from(from as int).len() == blocks_before(prep, prep.components@.len())
            - blocks_before(prep, from),
    decreases prep.components@.len() - from,
{
    if from < prep.components@.len() {
        lemma_schedule_len(prep, from + 1);
    }
}

/// The schedule lists the blocks of an MCU component by component, as many of
/// each as the MCU has, and each entry names the component and its tables.
pub proof fn law_schedule_lists_the_blocks_in_order(prep: JpegPreparedInput, k: nat, b: nat)
    requires
        prep.components@.len() <= 4,
        k < prep.components@.len(),
        b < prep.mcu_blocks(k as int),
    ensures
        ({
            let at = blocks_before(prep, k) + b;
            &&& prep.schedule().len() == blocks_before(prep, prep.components@.len())
            &&& at < prep.schedule().len()
            &&& prep.schedule()[at as int] % 0x100 == k
            &&& dc_index(prep.schedule()[at as int]) == k
            &&& ac_index(prep.schedule()[at as int]) == k
        }),
{
    lemma_schedule_at(prep, 0, k, b);
    lemma_schedule_len(prep, 0);
    lemma_schedule_entry(k as int);
}

/// A packed entry holds the symbol in its low byte and the code length above
/// it, and the entry of a prefix stands at the prefix in its own table.
pub proof fn law_packed_tables_hold_the_entries(
    tables: Seq<Seq<CanonicalEntry>>,
    k: int,
    prefix: int,
)
    requires
        0 <= k < tables.len(),
        0 <= prefix < 65536,
    ensures
        ({
            let at = 65536 * k + prefix;
            &&& 0 <= at < flat_tables(tables).len()
            &&& flat_tables(tables)[at] % 256 == tables[k][prefix].symbol
            &&& flat_tables(tables)[at] / 256 == tables[k][prefix].num_bits
        }),
{
    lemma_fundamental_div_mod_converse(65536 * k + prefix, 65536, k, prefix);
}

} // verus!
