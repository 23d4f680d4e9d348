//! From named buffers to device buffers.

use super::device::{ActionModel, HuffmanLaunch, IdctLaunch, Slot};
use super::huffman_run::{action_of, JobModel, RunModel};
use super::huffman_run_laws::{bound_to, launch_ready, law_launches_are_valid, sound};
use crate::backend::error::GpuBackend;
use crate::backend::huffman_params::HuffmanParams;
use crate::backend::idct_params::IdctParams;
use vstd::prelude::*;

verus! {

/// The device buffers a driver has allocated, by name.
pub struct SlotTable<D> {
    entries: Vec<(Slot, D)>,
}

/// The first entry, from `i` on, of `slot`.
pub open spec fn entry_of<D>(entries: Seq<(Slot, D)>, slot: Slot, i: int) -> Option<int>
    decreases entries.len() - i,
{
    if i >= entries.len() {
        None
    } else if entries[i].0 == slot {
        Some(i)
    } else {
        entry_of(entries, slot, i + 1)
    }
}

impl<D> View for SlotTable<D> {
    type V = Seq<(Slot, D)>;

    closed spec fn view(&self) -> Seq<(Slot, D)> {
        self.entries@
    }
}

impl<D> SlotTable<D> {
    /// The buffer of a name.
    pub open spec fn buffer(&self, slot: Slot) -> Option<D> {
        match entry_of(self@, slot, 0) {
            Some(i) => Some(self@[i].1),
            None => None,
        }
    }

    /// A table without buffers.
    pub fn new() -> (table: Self)
        ensures
            table@ == Seq::<(Slot, D)>::empty(),
    {
        SlotTable { entries: Vec::new() }
    }

    fn position(&self, slot: Slot) -> (found: Option<usize>)
        ensures
            match entry_of(self@, slot, 0) {
                Some(k) => found matches Some(i) && i == k && i < self@.len(),
                None => found is None,
            },
    {
        let mut i: usize = 0;
        while i < self.entries.len()
            invariant
                i <= self.entries@.len(),
                entry_of(self@, slot, 0) == entry_of(self@, slot, i as int),
            decreases self.entries@.len() - i,
        {
            if self.entries[i].0 == slot {
                return Some(i);
            }
            i = i + 1;
        }
        None
    }

    /// The buffer of a name.
    pub fn get(&self, slot: Slot) -> (buffer: Option<&D>)
        ensures
            match self.buffer(slot) {
                Some(b) => buffer == Some(&b),
                None => buffer is None,
            },
    {
        match self.position(slot) {
            Some(i) => Some(&self.entries[i].1),
            None => None,
        }
    }

    /// Add a buffer.
    pub fn put(&mut self, slot: Slot, buffer: D)
        ensures
            final(self)@ == old(self)@.push((slot, buffer)),
    {
        self.entries.push((slot, buffer));
    }

    /// Take a buffer out.
    pub fn take(&mut self, slot: Slot) -> (buffer: Option<D>)
        ensures
            buffer == old(self).buffer(slot),
            match entry_of(old(self)@, slot, 0) {
                Some(i) => final(self)@ == old(self)@.remove(i),
                None => final(self)@ == old(self)@,
            },
    {
        match self.position(slot) {
            Some(i) => {
                let (_, buffer) = self.entries.remove(i);
                Some(buffer)
            },
            None => None,
        }
    }
}

/// `buf` is the buffer of an optional name.
pub open spec fn optional_bound<D>(
    table: SlotTable<D>,
    slot: Option<Slot>,
    buf: Option<&D>,
) -> bool {
    match slot {
        Some(s) => buf matches Some(b) && table.buffer(s) == Some(*b),
        None => buf is None,
    }
}

/// Every name of a launch has a buffer.
pub open spec fn names_known<D>(launch: HuffmanLaunch, table: SlotTable<D>) -> bool {
    &&& table.buffer(launch.bitstream) is Some
    &&& table.buffer(launch.codebook) is Some
    &&& table.buffer(launch.s_info) is Some
    &&& launch.sync_flags matches Some(s) ==> table.buffer(s) is Some
    &&& launch.s_info_prev matches Some(s) ==> table.buffer(s) is Some
    &&& launch.offsets matches Some(s) ==> table.buffer(s) is Some
    &&& launch.symbols_out matches Some(s) ==> table.buffer(s) is Some
    &&& launch.decode_status matches Some(s) ==> table.buffer(s) is Some
    &&& launch.dc_codebook matches Some(s) ==> table.buffer(s) is Some
    &&& launch.mcu_schedule matches Some(s) ==> table.buffer(s) is Some
}

/// `p` is the launch on the buffers of the table.
pub open spec fn binds<B: GpuBackend>(
    launch: HuffmanLaunch,
    table: SlotTable<B::DeviceBuffer>,
    p: HuffmanParams<B>,
) -> bool {
    &&& p.phase == launch.phase
    &&& p.length_bits == launch.length_bits
    &&& p.subsequence_bits == launch.subsequence_bits
    &&& p.num_components == launch.num_components
    &&& p.blocks_per_mcu == launch.blocks_per_mcu
    &&& p.total_symbols == launch.total_symbols
    &&& table.buffer(launch.bitstream) == Some(*p.bitstream)
    &&& table.buffer(launch.codebook) == Some(*p.codebook)
    &&& table.buffer(launch.s_info) == Some(*p.s_info)
    &&& optional_bound(table, launch.sync_flags, p.sync_flags)
    &&& optional_bound(table, launch.s_info_prev, p.s_info_prev)
    &&& optional_bound(table, launch.offsets, p.offsets)
    &&& optional_bound(table, launch.symbols_out, p.symbols_out)
    &&& optional_bound(table, launch.decode_status, p.decode_status)
    &&& optional_bound(table, launch.dc_codebook, p.dc_codebook)
    &&& optional_bound(table, launch.mcu_schedule, p.mcu_schedule)
}

fn look_up<'a, D>(table: &'a SlotTable<D>, slot: Option<Slot>) -> (r: Option<Option<&'a D>>)
    ensures
        match r {
            Some(buf) => optional_bound(*table, slot, buf),
            None => slot matches Some(s) && table.buffer(s) is None,
        },
{
    match slot {
        None => Some(None),
        Some(s) => match table.get(s) {
            Some(buf) => Some(Some(buf)),
            None => None,
        },
    }
}

impl HuffmanLaunch {
    /// The launch on the buffers of a table; nothing if one is missing.
    pub fn bind<'a, B: GpuBackend>(&self, table: &'a SlotTable<B::DeviceBuffer>) -> (p: Option<
        HuffmanParams<'a, B>,
    >)
        ensures
            match p {
                Some(p) => binds(*self, *table, p) && names_known(*self, *table),
                None => !names_known(*self, *table),
            },
    {
        let (bitstream, codebook, s_info) = match (
            table.get(self.bitstream),
            table.get(self.codebook),
            table.get(self.s_info),
        ) {
            (Some(a), Some(b), Some(c)) => (a, b, c),
            _ => {
                return None;
            },
        };
        let (sync_flags, s_info_prev, offsets, symbols_out) = match (
            look_up(table, self.sync_flags),
            look_up(table, self.s_info_prev),
            look_up(table, self.offsets),
            look_up(table, self.symbols_out),
        ) {
            (Some(a), Some(b), Some(c), Some(d)) => (a, b, c, d),
            _ => {
                return None;
            },
        };
        let (decode_status, dc_codebook, mcu_schedule) = match (
            look_up(table, self.decode_status),
            look_up(table, self.dc_codebook),
            look_up(table, self.mcu_schedule),
        ) {
            (Some(a), Some(b), Some(c)) => (a, b, c),
            _ => {
                return None;
            },
        };
        Some(
            HuffmanParams {
                bitstream,
                codebook,
                s_info,
                sync_flags,
                s_info_prev,
                offsets,
                symbols_out,
                decode_status,
                dc_codebook,
                mcu_schedule,
                length_bits: self.length_bits,
                subsequence_bits: self.subsequence_bits,
                num_components: self.num_components,
                blocks_per_mcu: self.blocks_per_mcu,
                total_symbols: self.total_symbols,
                phase: self.phase,
            },
        )
    }
}

impl IdctLaunch {
    /// The launch on the buffers of a table; nothing if one is missing.
    pub fn bind<'a, B: GpuBackend>(&self, table: &'a SlotTable<B::DeviceBuffer>) -> (p: Option<
        IdctParams<'a, B>,
    >)
        ensures
            match p {
                Some(p) => {
                    &&& table.buffer(self.coefficients) == Some(*p.coefficients)
                    &&& table.buffer(self.qtables) == Some(*p.qtables)
                    &&& table.buffer(self.dc_values) == Some(*p.dc_values)
                    &&& table.buffer(self.pixels_rgba) == Some(*p.pixels_rgba)
                    &&& p.width == self.width
                    &&& p.height == self.height
                    &&& p.num_components == self.num_components
                    &&& p.blocks_wide == self.blocks_wide
                    &&& p.blocks_high == self.blocks_high
                    &&& p.num_qtables == self.num_qtables
                },
                None => {
                    ||| table.buffer(self.coefficients) is None
                    ||| table.buffer(self.qtables) is None
                    ||| table.buffer(self.dc_values) is None
                    ||| table.buffer(self.pixels_rgba) is None
                },
            },
    {
        match (
            table.get(self.coefficients),
            table.get(self.qtables),
            table.get(self.dc_values),
            table.get(self.pixels_rgba),
        ) {
            (Some(coefficients), Some(qtables), Some(dc_values), Some(pixels_rgba)) => Some(
                IdctParams {
                    coefficients,
                    qtables,
                    dc_values,
                    pixels_rgba,
                    width: self.width,
                    height: self.height,
                    num_components: self.num_components,
                    blocks_wide: self.blocks_wide,
                    blocks_high: self.blocks_high,
                    num_qtables: self.num_qtables,
                },
            ),
            _ => None,
        }
    }
}

/// A driver that keeps the buffers a run asked for can carry out its
/// launches: every name has a buffer, and the bound launch meets the
/// documented invariants.
pub proof fn law_bound_launches_are_valid<B: GpuBackend>(
    job: JobModel,
    m: RunModel,
    launch: HuffmanLaunch,
    table: SlotTable<B::DeviceBuffer>,
    p: HuffmanParams<B>,
    backend: &B,
)
    requires
        sound(job, m),
        action_of(job, m) == ActionModel::RecordHuffman(launch),
        forall|s: Slot|
            m.live.contains(s) ==> (#[trigger] table.buffer(s) matches Some(b)
                && backend.capacity(&b) >= job.bytes(s, m.total)),
        job.num_components > 0,
        launch.phase.jpeg_framed() ==> job.blocks_per_mcu > 0,
        job.length_bits + 2 * job.subsequence_bits <= u32::MAX,
    ensures
        names_known(launch, table),
        binds(launch, table, p) ==> p.well_formed(backend),
{
    assert(launch_ready(launch.phase, m.live));
    super::huffman_run_laws::lemma_newest_is_live(job, m);
    if binds(launch, table, p) {
        assert(bound_to(job, m.total, launch, p, backend));
        law_launches_are_valid(job, m, launch, p, backend);
    }
}

} // verus!
