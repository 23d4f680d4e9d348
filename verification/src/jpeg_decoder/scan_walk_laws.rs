//! The straight JPEG-framed walk decodes the scan, and so does the parallel
//! decode.

use super::bitstream::{
    law_unpack_inverts_pack, lemma_packed_byte, packed_words, PackedBitstream,
};
use super::jpeg_framing::{
    ac_emitted, block_emitted, blocks_emitted, components_emitted, dc_emitted, mcus_emitted,
    LaneModel, WalkState,
};
use super::jpeg_walk::{
    ac_index, dc_index, entry_at, jpeg_step, jpeg_walked, lemma_walk_ignores_count, next_slot,
    ScanTables,
};
use super::offsets::{counts_of, running};
use super::phase1_oracle::{fresh, JpegStep, Phase1Stop, SubsequenceState};
use super::phase2_oracle::{region_end, true_states};
use super::prepared::{prepared, JpegPreparedInput, PrepareFailure, PreparedModel};
use super::schedule::{lemma_schedule_entry, lemma_schedule_names_tables, schedule_entry};
use super::symbol_laws::{
    first_state, gathered, jpeg_symbols, law_gathered_symbols_are_the_straight_walk,
    law_offsets_place_the_symbols, overflow_free, region_symbols,
};
use crate::bits::{bit, bits, lemma_bits_agree, lemma_bits_bound, lemma_bits_split};
use crate::jpeg::canonical::{ones_uncoded, span, table_wf};
use crate::jpeg::entropy::code_at;
use crate::jpeg::header_spec::parsed_headers;
use crate::jpeg::unstuff::unstuff;
use vstd::arithmetic::div_mod::*;
use vstd::arithmetic::power2::*;
use vstd::prelude::*;

verus! {

impl JpegPreparedInput {
    /// The code tables of the scan, in component order, and its schedule.
    pub open spec fn walk_tables(&self) -> ScanTables {
        ScanTables {
            dc: Seq::new(self.components@.len(), |k: int| self.dc_table(k)),
            ac: Seq::new(self.components@.len(), |k: int| self.ac_table(k)),
            schedule: self.schedule(),
        }
    }
}

/// A stream of whole bytes whose padding is zero.
pub open spec fn byte_stream(stream: PackedBitstream, src: Seq<u8>) -> bool {
    &&& stream.length_bits == 8 * src.len()
    &&& stream.words@ == packed_words(src, 8 * src.len())
}

/// Every prepared JPEG holds such a stream: that of the unstuffed scan.
pub proof fn law_prepared_streams_are_byte_streams(data: Seq<u8>, prep: JpegPreparedInput)
    requires
        prepared(data) == Ok::<PreparedModel, PrepareFailure>(prep@),
    ensures
        byte_stream(
            prep.bitstream,
            unstuff(parsed_headers(data)->Ok_0.scan_data)->Ok_0.bytes,
        ),
{
}

/// A walk over the words and one over the bytes see the same bits, also
/// beyond the end.
proof fn lemma_same_bits(stream: PackedBitstream, src: Seq<u8>, p: int, n: nat)
    requires
        byte_stream(stream, src),
        0 <= p,
    ensures
        bits(stream.bytes(), p, n) == bits(src, p, n),
{
    assert forall|i: int| 0 <= i < n implies #[trigger] bit(stream.bytes(), p + i) == bit(
        src,
        p + i,
    ) by {
        let k = (p + i) / 8;
        if k < stream.bytes().len() {
            lemma_packed_byte(src, 8 * src.len(), k);
            if k >= src.len() {
                let weight = pow2((7 - (p + i) % 8) as nat);
                lemma_pow2_pos((7 - (p + i) % 8) as nat);
                lemma_basic_div(0, weight as int);
            }
        }
    }
    lemma_bits_agree(stream.bytes(), src, p, p, n);
}

/// The state of a JPEG-framed walk that has emitted what `st` holds.
spec fn walk_at(st: WalkState, c: int, z: nat) -> SubsequenceState {
    SubsequenceState {
        p: st.pos as u32,
        n: st.symbols.len() as u32,
        c: c as u32,
        z: z as u32,
    }
}

/// The walk has at most one symbol for each bit, and is in the stream.
spec fn placed(st: WalkState, src: Seq<u8>) -> bool {
    st.symbols.len() <= st.pos <= 8 * src.len()
}

/// What `b` has emitted beyond `a`.
spec fn gained(a: WalkState, b: WalkState) -> Seq<u32> {
    b.symbols.skip(a.symbols.len() as int)
}

/// The surroundings of a walk.
struct Scene {
    src: Seq<u8>,
    stream: PackedBitstream,
    t: ScanTables,
    limit: u32,
}

impl Scene {
    spec fn wf(self) -> bool {
        &&& byte_stream(self.stream, self.src)
        &&& 1 <= self.t.schedule.len() <= u32::MAX
        &&& self.limit <= self.stream.length_bits
    }

    /// The walk over the blocks goes on from `a` to `b`.  Unless that is
    /// beyond the limit, the JPEG-framed walk comes from `x` to `y` and
    /// decodes the same symbols.
    spec fn reaches(
        self,
        a: WalkState,
        b: WalkState,
        x: SubsequenceState,
        y: SubsequenceState,
    ) -> bool {
        let Scene { src, stream, t, limit } = self;
        &&& placed(b, src)
        &&& a.pos <= b.pos
        &&& a.symbols.len() <= b.symbols.len()
        &&& b.symbols.take(a.symbols.len() as int) == a.symbols
        &&& b.pos <= limit ==> {
            &&& jpeg_walked(x, stream, t, limit, limit) == jpeg_walked(y, stream, t, limit, limit)
            &&& jpeg_symbols(x, stream, t, limit) == gained(a, b) + jpeg_symbols(
                y,
                stream,
                t,
                limit,
            )
        }
    }

    proof fn lemma_trans(
        self,
        a: WalkState,
        b: WalkState,
        c: WalkState,
        x: SubsequenceState,
        y: SubsequenceState,
        z: SubsequenceState,
    )
        requires
            self.reaches(a, b, x, y),
            self.reaches(b, c, y, z),
        ensures
            self.reaches(a, c, x, z),
    {
        let n = a.symbols.len() as int;
        let m = b.symbols.len() as int;
        assert(c.symbols.take(m).take(n) =~= c.symbols.take(n));
        assert(gained(a, c) =~= gained(a, b) + gained(b, c)) by {
            assert forall|i: int| 0 <= i < m - n implies gained(a, c)[i] == gained(a, b)[i] by {
                assert(c.symbols.take(m)[n + i] == b.symbols[n + i]);
            }
        }
        let rest = jpeg_symbols(z, self.stream, self.t, self.limit);
        assert(gained(a, b) + (gained(b, c) + rest) =~= gained(a, b) + gained(b, c) + rest);
    }

    proof fn lemma_stays(self, a: WalkState, x: SubsequenceState)
        requires
            placed(a, self.src),
        ensures
            self.reaches(a, a, x, x),
    {
        assert(a.symbols.take(a.symbols.len() as int) =~= a.symbols);
        let rest = jpeg_symbols(x, self.stream, self.t, self.limit);
        assert(gained(a, a) + rest =~= rest);
    }

    /// One step of the walk, where the walk over the blocks emits one
    /// symbol.
    proof fn lemma_step(
        self,
        a: WalkState,
        b: WalkState,
        x: SubsequenceState,
        y: SubsequenceState,
    )
        requires
            self.wf(),
            placed(a, self.src),
            placed(b, self.src),
            a.pos < b.pos,
            x.p == a.pos,
            b.symbols == a.symbols.push(entry_at(x, self.stream, self.t).symbol as u32),
            b.pos <= self.limit ==> jpeg_step(x, self.stream, self.t, self.limit)
                == JpegStep::Advanced(y),
        ensures
            self.reaches(a, b, x, y),
    {
        assert(b.symbols.take(a.symbols.len() as int) =~= a.symbols);
        assert(gained(a, b) =~= seq![entry_at(x, self.stream, self.t).symbol as u32]);
    }

    /// The state in front of slot `z` of block `c`; slot 64 is the next
    /// block's first.
    spec fn slot(self, st: WalkState, c: int, z: nat) -> SubsequenceState {
        if z == 64 {
            walk_at(st, (c + 1) % (self.t.schedule.len() as int), 0)
        } else {
            walk_at(st, c, z)
        }
    }

    proof fn lemma_ac(self, c: int, slot: nat, st: WalkState, mcu: u32, comp: u8)
        requires
            self.wf(),
            0 <= c < self.t.schedule.len(),
            1 <= slot <= 64,
            placed(st, self.src),
            ac_emitted(
                self.src,
                self.t.ac[ac_index(self.t.schedule[c])],
                slot,
                st,
                mcu,
                comp,
            ) is Ok,
        ensures
            ({
                let table = self.t.ac[ac_index(self.t.schedule[c])];
                let end = ac_emitted(self.src, table, slot, st, mcu, comp)->Ok_0;
                self.reaches(st, end, self.slot(st, c, slot), self.slot(end, c, 64))
            }),
        decreases 64 - slot,
    {
        let Scene { src, stream, t, limit } = self;
        let table = t.ac[ac_index(t.schedule[c])];
        let end = ac_emitted(src, table, slot, st, mcu, comp)->Ok_0;
        if slot == 64 {
            self.lemma_stays(st, self.slot(st, c, 64));
        } else {
            let x = self.slot(st, c, slot);
            lemma_same_bits(stream, src, st.pos, 16);
            let e = code_at(src, st.pos, table)->Code_0;
            assert(entry_at(x, stream, t) == e);
            let size = e.symbol % 16;
            let next = next_slot(slot as u32, e.symbol) as nat;
            let one = WalkState {
                pos: st.pos + e.num_bits + size,
                symbols: st.symbols.push(e.symbol as u32),
            };
            let y = self.slot(one, c, next);
            if e.symbol == 0x00 {
                assert(end == one);
                self.lemma_stays(one, y);
            } else {
                assert(end == ac_emitted(src, table, next, one, mcu, comp)->Ok_0);
                self.lemma_ac(c, next, one, mcu, comp);
            }
            if one.pos <= limit {
                assert(jpeg_step(x, stream, t, limit) == JpegStep::Advanced(y));
            }
            self.lemma_step(st, one, x, y);
            self.lemma_trans(st, one, end, x, y, self.slot(end, c, 64));
        }
    }

    /// Block `c` of an MCU is a block of lane `comp`.
    spec fn lane_at(self, lanes: Seq<LaneModel>, comp: nat, c: int) -> bool {
        &&& 0 <= c < self.t.schedule.len()
        &&& lanes[comp as int].dc == self.t.dc[dc_index(self.t.schedule[c])]
        &&& lanes[comp as int].ac == self.t.ac[ac_index(self.t.schedule[c])]
    }

    proof fn lemma_block(
        self,
        lanes: Seq<LaneModel>,
        c: int,
        mcu: u32,
        comp: nat,
        st: WalkState,
    )
        requires
            self.wf(),
            placed(st, self.src),
            self.lane_at(lanes, comp, c),
            block_emitted(self.src, lanes, mcu, comp, st) is Ok,
        ensures
            ({
                let end = block_emitted(self.src, lanes, mcu, comp, st)->Ok_0;
                self.reaches(st, end, walk_at(st, c, 0), self.slot(end, c, 64))
            }),
    {
        let Scene { src, stream, t, limit } = self;
        let dc = lanes[comp as int].dc;
        let end = block_emitted(src, lanes, mcu, comp, st)->Ok_0;
        let mid = dc_emitted(src, dc, st, mcu, comp as u8)->Ok_0;
        let x = walk_at(st, c, 0);
        let y = self.slot(mid, c, 1);
        lemma_same_bits(stream, src, st.pos, 16);
        assert(entry_at(x, stream, t) == code_at(src, st.pos, dc)->Code_0);
        self.lemma_ac(c, 1, mid, mcu, comp as u8);
        if mid.pos <= limit {
            assert(jpeg_step(x, stream, t, limit) == JpegStep::Advanced(y));
        }
        self.lemma_step(st, mid, x, y);
        self.lemma_trans(st, mid, end, x, y, self.slot(end, c, 64));
    }

    /// The state in front of block `c`, where the end of the MCU is the
    /// front of the next one.
    spec fn block_at(self, st: WalkState, c: int) -> SubsequenceState {
        walk_at(st, c % (self.t.schedule.len() as int), 0)
    }

    proof fn lemma_blocks(
        self,
        lanes: Seq<LaneModel>,
        base: int,
        mcu: u32,
        comp: nat,
        k: nat,
        st: WalkState,
    )
        requires
            self.wf(),
            placed(st, self.src),
            k <= lanes[comp as int].blocks,
            forall|j: int|
                0 <= j < lanes[comp as int].blocks ==> #[trigger] self.lane_at(
                    lanes,
                    comp,
                    base + j,
                ),
            blocks_emitted(self.src, lanes, mcu, comp, k, st) is Ok,
        ensures
            ({
                let end = blocks_emitted(self.src, lanes, mcu, comp, k, st)->Ok_0;
                self.reaches(
                    st,
                    end,
                    self.block_at(st, base + k),
                    self.block_at(end, base + lanes[comp as int].blocks),
                )
            }),
        decreases lanes[comp as int].blocks - k,
    {
        let blocks = lanes[comp as int].blocks;
        let end = blocks_emitted(self.src, lanes, mcu, comp, k, st)->Ok_0;
        if k >= blocks {
            self.lemma_stays(st, self.block_at(st, base + k));
        } else {
            let next = block_emitted(self.src, lanes, mcu, comp, st)->Ok_0;
            let c = base + k;
            assert(self.lane_at(lanes, comp, base + k));
            lemma_small_mod(c as nat, self.t.schedule.len());
            self.lemma_block(lanes, c, mcu, comp, st);
            self.lemma_blocks(lanes, base, mcu, comp, k + 1, next);
            assert(base + (k + 1) == c + 1);
            self.lemma_trans(
                st,
                next,
                end,
                walk_at(st, c, 0),
                self.slot(next, c, 64),
                self.block_at(end, base + blocks),
            );
        }
    }
}

/// Where component `k` begins in the schedule.
spec fn lane_base(prep: JpegPreparedInput, k: int) -> int {
    prep.schedule().len() - prep.schedule_from(k).len()
}

proof fn lemma_lane_base(prep: JpegPreparedInput, k: int)
    requires
        0 <= k <= prep.components@.len(),
    ensures
        0 <= lane_base(prep, k),
        forall|i: int|
            0 <= i < prep.schedule_from(k).len() ==> prep.schedule()[lane_base(prep, k) + i]
                == #[trigger] prep.schedule_from(k)[i],
        k < prep.components@.len() ==> lane_base(prep, k + 1) == lane_base(prep, k)
            + prep.mcu_blocks(k),
    decreases k,
{
    if k > 0 {
        lemma_lane_base(prep, k - 1);
        let before = prep.schedule_from(k - 1);
        let head = prep.mcu_blocks(k - 1);
        let base = lane_base(prep, k);
        assert forall|i: int| 0 <= i < prep.schedule_from(k).len() implies prep.schedule()[base + i]
            == #[trigger] prep.schedule_from(k)[i] by {
            assert(before[head + i] == prep.schedule_from(k)[i]);
        }
    }
}

/// Block `j` of component `k` uses the component's tables.
proof fn lemma_lane_at(prep: JpegPreparedInput, sc: Scene, k: nat, j: int)
    requires
        sc.t == prep.walk_tables(),
        k < prep.components@.len() <= 4,
        0 <= j < prep.mcu_blocks(k as int),
    ensures
        sc.lane_at(prep.lanes(), k, lane_base(prep, k as int) + j),
{
    lemma_lane_base(prep, k as int);
    lemma_schedule_entry(k as int);
    assert(prep.schedule_from(k as int)[j] == schedule_entry(k as int));
}

proof fn lemma_components(
    prep: JpegPreparedInput,
    sc: Scene,
    mcu: u32,
    comp: nat,
    st: WalkState,
)
    requires
        sc.wf(),
        sc.t == prep.walk_tables(),
        comp <= prep.components@.len() <= 4,
        placed(st, sc.src),
        components_emitted(sc.src, prep.lanes(), mcu, comp, st) is Ok,
    ensures
        ({
            let end = components_emitted(sc.src, prep.lanes(), mcu, comp, st)->Ok_0;
            sc.reaches(
                st,
                end,
                sc.block_at(st, lane_base(prep, comp as int)),
                walk_at(end, 0, 0),
            )
        }),
    decreases prep.components@.len() - comp,
{
    let lanes = prep.lanes();
    let end = components_emitted(sc.src, lanes, mcu, comp, st)->Ok_0;
    if comp >= lanes.len() {
        assert(prep.schedule_from(comp as int) =~= Seq::empty());
        lemma_mod_self_0(sc.t.schedule.len() as int);
        sc.lemma_stays(st, walk_at(st, 0, 0));
    } else {
        let base = lane_base(prep, comp as int);
        let next = blocks_emitted(sc.src, lanes, mcu, comp, 0, st)->Ok_0;
        assert forall|j: int| 0 <= j < lanes[comp as int].blocks implies #[trigger] sc.lane_at(
            lanes,
            comp,
            base + j,
        ) by {
            lemma_lane_at(prep, sc, comp, j);
        }
        sc.lemma_blocks(lanes, base, mcu, comp, 0, st);
        lemma_components(prep, sc, mcu, comp + 1, next);
        lemma_lane_base(prep, comp as int);
        sc.lemma_trans(
            st,
            next,
            end,
            sc.block_at(st, base),
            sc.block_at(next, base + lanes[comp as int].blocks),
            walk_at(end, 0, 0),
        );
    }
}

proof fn lemma_mcus(prep: JpegPreparedInput, sc: Scene, mcus: nat, mcu: nat, st: WalkState)
    requires
        sc.wf(),
        sc.t == prep.walk_tables(),
        prep.components@.len() <= 4,
        placed(st, sc.src),
        mcus_emitted(sc.src, prep.lanes(), mcus, mcu, st) is Ok,
    ensures
        ({
            let end = mcus_emitted(sc.src, prep.lanes(), mcus, mcu, st)->Ok_0;
            sc.reaches(st, end, walk_at(st, 0, 0), walk_at(end, 0, 0))
        }),
    decreases mcus - mcu,
{
    let lanes = prep.lanes();
    let end = mcus_emitted(sc.src, lanes, mcus, mcu, st)->Ok_0;
    if mcu >= mcus {
        sc.lemma_stays(st, walk_at(st, 0, 0));
    } else {
        let next = components_emitted(sc.src, lanes, mcu as u32, 0, st)->Ok_0;
        lemma_components(prep, sc, mcu as u32, 0, st);
        lemma_mcus(prep, sc, mcus, mcu + 1, next);
        lemma_small_mod(0, sc.t.schedule.len());
        sc.lemma_trans(
            st,
            next,
            end,
            walk_at(st, 0, 0),
            walk_at(next, 0, 0),
            walk_at(end, 0, 0),
        );
    }
}

impl JpegPreparedInput {
    /// Where the walk over the scan's blocks ends.
    pub open spec fn scan_end(&self) -> int {
        mcus_emitted(
            self.bitstream.stream_bytes(),
            self.lanes(),
            self.num_mcus(),
            0,
            WalkState { pos: 0, symbols: Seq::empty() },
        )->Ok_0.pos
    }
}

/// The straight JPEG-framed walk decodes the scan: where the sequential
/// walker gets through, a walk from the first bit to where that one ended
/// decodes the same symbols, counts them, and stands at the front of an MCU.
/// A walk that goes on decodes them first.
pub proof fn law_straight_walk_decodes_the_scan(
    prep: JpegPreparedInput,
    src: Seq<u8>,
    limit: u32,
)
    requires
        1 <= prep.components@.len() <= 4,
        byte_stream(prep.bitstream, src),
        prep.scan_symbols() is Ok,
        prep.scan_end() <= limit <= prep.bitstream.length_bits,
    ensures
        ({
            let symbols = prep.scan_symbols()->Ok_0;
            let t = prep.walk_tables();
            let end = SubsequenceState {
                p: prep.scan_end() as u32,
                n: symbols.len() as u32,
                c: 0,
                z: 0,
            };
            &&& 0 <= prep.scan_end() <= prep.bitstream.length_bits
            &&& symbols.len() <= prep.scan_end()
            &&& jpeg_walked(fresh(0), prep.bitstream, t, limit, limit) == jpeg_walked(
                end,
                prep.bitstream,
                t,
                limit,
                limit,
            )
            &&& jpeg_symbols(fresh(0), prep.bitstream, t, limit) == symbols + jpeg_symbols(
                end,
                prep.bitstream,
                t,
                limit,
            )
            &&& limit == prep.scan_end() ==> {
                &&& jpeg_walked(fresh(0), prep.bitstream, t, limit, limit) == (
                    end,
                    Phase1Stop::HardLimit,
                )
                &&& jpeg_symbols(fresh(0), prep.bitstream, t, limit) == symbols
            }
        }),
{
    let t = prep.walk_tables();
    let sc = Scene { src, stream: prep.bitstream, t, limit };
    let start = WalkState { pos: 0, symbols: Seq::empty() };
    law_unpack_inverts_pack(src, prep.bitstream);
    assert(prep.bitstream.stream_bytes() =~= src);
    lemma_schedule_names_tables(prep, 0);
    lemma_first_blocks(prep, 0);
    lemma_mcus(prep, sc, prep.num_mcus(), 0, start);
    let end = mcus_emitted(src, prep.lanes(), prep.num_mcus(), 0, start)->Ok_0;
    assert(gained(start, end) =~= end.symbols);
    assert(fresh(0) == walk_at(start, 0, 0));
}

/// The parallel decode yields the scan's symbols, whatever the size of the
/// regions: the symbols of the `n` regions, each region decoded from the true
/// state before it and put where the prefix sum of the counts says, begin
/// with the scan's symbol stream.  Behind it can stand only what the padding
/// behind the last MCU decodes to.
pub proof fn law_parallel_decode_yields_the_scan(
    prep: JpegPreparedInput,
    src: Seq<u8>,
    subsequence_bits: u32,
    n: nat,
)
    requires
        1 <= prep.components@.len() <= 4,
        byte_stream(prep.bitstream, src),
        prep.scan_symbols() is Ok,
        n >= 1,
        region_end(n - 1, prep.bitstream.length_bits, subsequence_bits)
            == prep.bitstream.length_bits,
        jpeg_walked(
            fresh(0),
            prep.bitstream,
            prep.walk_tables(),
            prep.bitstream.length_bits,
            0,
        ).1 != Phase1Stop::AcOverflow,
    ensures
        ({
            let stream = prep.bitstream;
            let t = prep.walk_tables();
            let symbols = prep.scan_symbols()->Ok_0;
            let first = first_state(fresh(0), stream, t, subsequence_bits);
            let counts = counts_of(true_states(first, stream, t, subsequence_bits, n));
            let out = jpeg_symbols(fresh(0), stream, t, stream.length_bits);
            &&& out.len() == running(counts, n)
            &&& symbols.len() <= out.len()
            &&& out.take(symbols.len() as int) == symbols
            &&& forall|i: nat|
                i < n ==> #[trigger] region_symbols(fresh(0), stream, t, subsequence_bits, i)
                    == out.subrange(
                    running(counts, i) as int,
                    running(counts, i) + counts[i as int],
                )
        }),
{
    let stream = prep.bitstream;
    let t = prep.walk_tables();
    let limit = stream.length_bits;
    let symbols = prep.scan_symbols()->Ok_0;
    let first = first_state(fresh(0), stream, t, subsequence_bits);
    let counts = counts_of(true_states(first, stream, t, subsequence_bits, n));
    let out = jpeg_symbols(fresh(0), stream, t, limit);
    lemma_scan_end(prep, src);
    law_straight_walk_decodes_the_scan(prep, src, limit);
    assert(out.take(symbols.len() as int) =~= symbols);
    lemma_overflow_free(stream, t, subsequence_bits, n);
    law_offsets_place_the_symbols(fresh(0), stream, t, subsequence_bits, n, 0);
    assert forall|i: nat| i < n implies #[trigger] region_symbols(
        fresh(0),
        stream,
        t,
        subsequence_bits,
        i,
    ) == out.subrange(running(counts, i) as int, running(counts, i) + counts[i as int]) by {
        law_offsets_place_the_symbols(fresh(0), stream, t, subsequence_bits, n, i);
    }
}

/// Every bit from `p` on is one: how encoders fill the last byte of a scan.
pub open spec fn filled_with_ones(src: Seq<u8>, p: int) -> bool {
    forall|i: int| p <= i < 8 * src.len() ==> #[trigger] bit(src, i) == 1
}

/// The state behind the last symbol of the scan.
pub open spec fn scan_end_state(prep: JpegPreparedInput) -> SubsequenceState {
    SubsequenceState {
        p: prep.scan_end() as u32,
        n: prep.scan_symbols()->Ok_0.len() as u32,
        c: 0,
        z: 0,
    }
}

proof fn lemma_ones(src: Seq<u8>, p: int, n: nat)
    requires
        filled_with_ones(src, p),
        p + n <= 8 * src.len(),
    ensures
        bits(src, p, n) == pow2(n) - 1,
    decreases n,
{
    lemma2_to64();
    if n > 0 {
        lemma_ones(src, p, (n - 1) as nat);
        lemma_pow2_unfold(n);
        assert(bit(src, p + n - 1) == 1);
    }
}

/// In front of a block, bits that are all one decode to nothing, unless the
/// block's DC table has a code of ones alone.
pub proof fn law_fill_bits_decode_to_nothing(
    s: SubsequenceState,
    stream: PackedBitstream,
    src: Seq<u8>,
    t: ScanTables,
    count_to: u32,
)
    requires
        byte_stream(stream, src),
        s.z == 0,
        s.p <= stream.length_bits,
        table_wf(t.dc[dc_index(t.schedule[s.c as int])]),
        ones_uncoded(t.dc[dc_index(t.schedule[s.c as int])]),
        filled_with_ones(src, s.p as int),
    ensures
        jpeg_symbols(s, stream, t, stream.length_bits) == Seq::<u32>::empty(),
        jpeg_walked(s, stream, t, stream.length_bits, count_to).0 == s,
        jpeg_walked(s, stream, t, stream.length_bits, count_to).1 != Phase1Stop::AcOverflow,
{
    let limit = stream.length_bits;
    if s.p < limit {
        let table = t.dc[dc_index(t.schedule[s.c as int])];
        let x = bits(src, s.p as int, 16);
        lemma_same_bits(stream, src, s.p as int, 16);
        lemma2_to64();
        lemma_bits_bound(src, s.p as int, 16);
        let e = table[x as int];
        assert(entry_at(s, stream, t) == e);
        if e.num_bits > 0 && s.p + e.num_bits <= limit {
            let len = e.num_bits as nat;
            lemma_ones(src, s.p as int, len);
            lemma_bits_split(src, s.p as int, len, (16 - len) as nat);
            lemma_bits_bound(src, s.p + len, (16 - len) as nat);
            lemma_pow2_pos((16 - len) as nat);
            lemma_fundamental_div_mod_converse(
                x as int,
                span(e.num_bits) as int,
                bits(src, s.p as int, len) as int,
                bits(src, s.p + len, (16 - len) as nat) as int,
            );
            assert(false);
        }
    }
}

/// The parallel decode yields exactly the scan's symbols, where the last byte
/// is filled with ones and no DC code consists of ones alone, as in every
/// regular file: the regions' symbols, each put where the prefix sum of the
/// counts says, are the scan's symbol stream.
pub proof fn law_parallel_decode_is_the_scan(
    prep: JpegPreparedInput,
    src: Seq<u8>,
    subsequence_bits: u32,
    n: nat,
)
    requires
        1 <= prep.components@.len() <= 4,
        prep.tables_present(),
        byte_stream(prep.bitstream, src),
        prep.scan_symbols() is Ok,
        n >= 1,
        region_end(n - 1, prep.bitstream.length_bits, subsequence_bits)
            == prep.bitstream.length_bits,
        filled_with_ones(src, prep.scan_end()),
        ones_uncoded(prep.dc_table(0)),
    ensures
        ({
            let stream = prep.bitstream;
            let t = prep.walk_tables();
            let symbols = prep.scan_symbols()->Ok_0;
            let first = first_state(fresh(0), stream, t, subsequence_bits);
            let counts = counts_of(true_states(first, stream, t, subsequence_bits, n));
            &&& overflow_free(fresh(0), stream, t, subsequence_bits, n)
            &&& symbols.len() <= stream.length_bits
            &&& gathered(fresh(0), stream, t, subsequence_bits, n) == symbols
            &&& running(counts, n) == symbols.len()
            &&& forall|i: nat|
                i < n ==> #[trigger] region_symbols(fresh(0), stream, t, subsequence_bits, i)
                    == symbols.subrange(
                    running(counts, i) as int,
                    running(counts, i) + counts[i as int],
                )
        }),
{
    let stream = prep.bitstream;
    let t = prep.walk_tables();
    let limit = stream.length_bits;
    let symbols = prep.scan_symbols()->Ok_0;
    let end = scan_end_state(prep);
    lemma_scan_end(prep, src);
    law_straight_walk_decodes_the_scan(prep, src, limit);
    lemma_first_blocks(prep, 0);
    lemma_schedule_entry(0);
    assert(t.schedule[0] == schedule_entry(0));
    assert(t.dc[dc_index(t.schedule[0])] == prep.dc_table(0));
    assert(table_wf(prep.dc_table(0))) by {
        let sel = prep.dc_selectors@[0];
        assert(prep.dc_codebooks@[sel as int] is Some);
        assert(prep.dc_codebooks@[sel as int]->0.wf());
    }
    law_fill_bits_decode_to_nothing(end, stream, src, t, limit);
    law_fill_bits_decode_to_nothing(end, stream, src, t, 0);
    assert(symbols + Seq::<u32>::empty() =~= symbols);
    lemma_walk_ignores_count(fresh(0), fresh(0), stream, t, limit, limit, 0);
    law_parallel_decode_yields_the_scan(prep, src, subsequence_bits, n);
    assert(jpeg_symbols(fresh(0), stream, t, limit) == symbols);
    lemma_overflow_free(stream, t, subsequence_bits, n);
    law_gathered_symbols_are_the_straight_walk(fresh(0), stream, t, subsequence_bits, n);
}

/// The symbol stream does not depend on the size of the regions.
pub proof fn law_region_size_does_not_matter(
    prep: JpegPreparedInput,
    src: Seq<u8>,
    a: u32,
    na: nat,
    b: u32,
    nb: nat,
)
    requires
        1 <= prep.components@.len() <= 4,
        prep.tables_present(),
        byte_stream(prep.bitstream, src),
        prep.scan_symbols() is Ok,
        na >= 1,
        nb >= 1,
        region_end(na - 1, prep.bitstream.length_bits, a) == prep.bitstream.length_bits,
        region_end(nb - 1, prep.bitstream.length_bits, b) == prep.bitstream.length_bits,
        filled_with_ones(src, prep.scan_end()),
        ones_uncoded(prep.dc_table(0)),
    ensures
        gathered(fresh(0), prep.bitstream, prep.walk_tables(), a, na) == gathered(
            fresh(0),
            prep.bitstream,
            prep.walk_tables(),
            b,
            nb,
        ),
{
    law_parallel_decode_is_the_scan(prep, src, a, na);
    law_parallel_decode_is_the_scan(prep, src, b, nb);
}

proof fn lemma_overflow_free(
    stream: PackedBitstream,
    t: ScanTables,
    subsequence_bits: u32,
    n: nat,
)
    requires
        jpeg_walked(fresh(0), stream, t, stream.length_bits, 0).1 != Phase1Stop::AcOverflow,
    ensures
        overflow_free(fresh(0), stream, t, subsequence_bits, n),
{
    let limit = stream.length_bits;
    assert forall|k: nat| k < n implies jpeg_walked(
        fresh(0),
        stream,
        t,
        #[trigger] region_end(k as int, limit, subsequence_bits),
        0,
    ).1 != Phase1Stop::AcOverflow by {
        lemma_overflow_stays(
            fresh(0),
            stream,
            t,
            region_end(k as int, limit, subsequence_bits),
            limit,
        );
    }
}

/// A walk that meets an overflow meets it however far it was to go.
proof fn lemma_overflow_stays(
    s: SubsequenceState,
    stream: PackedBitstream,
    t: ScanTables,
    first_limit: u32,
    hard_limit: u32,
)
    requires
        first_limit <= hard_limit,
        jpeg_walked(s, stream, t, hard_limit, 0).1 != Phase1Stop::AcOverflow,
    ensures
        jpeg_walked(s, stream, t, first_limit, 0).1 != Phase1Stop::AcOverflow,
    decreases u32::MAX - s.p,
{
    if s.p < first_limit {
        if let JpegStep::Advanced(next) = jpeg_step(s, stream, t, 0) {
            lemma_overflow_stays(next, stream, t, first_limit, hard_limit);
        }
    }
}

/// The walk over the scan's blocks ends in the stream.
proof fn lemma_scan_end(prep: JpegPreparedInput, src: Seq<u8>)
    requires
        1 <= prep.components@.len() <= 4,
        byte_stream(prep.bitstream, src),
        prep.scan_symbols() is Ok,
    ensures
        0 <= prep.scan_end() <= prep.bitstream.length_bits,
{
    let sc = Scene {
        src,
        stream: prep.bitstream,
        t: prep.walk_tables(),
        limit: prep.bitstream.length_bits,
    };
    law_unpack_inverts_pack(src, prep.bitstream);
    assert(prep.bitstream.stream_bytes() =~= src);
    lemma_schedule_names_tables(prep, 0);
    lemma_first_blocks(prep, 0);
    lemma_mcus(
        prep,
        sc,
        prep.num_mcus(),
        0,
        WalkState { pos: 0, symbols: Seq::empty() },
    );
}

/// A scan without degenerate components has a block of each.
proof fn lemma_first_blocks(prep: JpegPreparedInput, k: int)
    requires
        0 <= k < prep.components@.len(),
        prep.first_degenerate(k) is None,
    ensures
        prep.mcu_blocks(k) > 0,
        prep.schedule_from(k).len() > 0,
{
    let h = prep.components@[k].h_sampling as int;
    let v = prep.components@[k].v_sampling as int;
    assert(h * v > 0) by (nonlinear_arith)
        requires
            h > 0,
            v > 0,
    ;
}

} // verus!
