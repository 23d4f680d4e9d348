//! Path fills: the index of tile records, and the coverage rules.
//!
//! The raster is cut into tiles of 16 by 16 pixels.  A segment that crosses a
//! row of tiles is recorded for its own column and for every column left of
//! it, since a pixel's winding number sums over the segments to its right.
//! The records are sorted by tile, and each tile is told where its records
//! start and how many they are.

use crate::backend::launch::{TILE_H, TILE_W};
use crate::text::{decimal, push_decimal};
use vstd::prelude::*;
use vstd::string::*;

verus! {

/// Most tiles on an axis: a key holds 16 bits of each coordinate.
pub const MAX_TILES: u32 = 0xFFFF;

/// Tiles of a raster.
#[derive(Debug, Clone, Copy, PartialEq, Eq, Structural)]
pub struct TileGrid {
    grid_w: u32,
    grid_h: u32,
}

/// Why no records can be built.
#[derive(Debug, Clone, Copy, PartialEq, Eq, Structural)]
pub enum TileError {
    /// More tiles on an axis than a key can tell apart.
    RasterTooLarge { grid_w: u32, grid_h: u32 },
    /// More records than a 32-bit index reaches.
    TooManyRecords,
}

impl TileError {
    pub open spec fn text(self) -> Seq<char> {
        match self {
            TileError::RasterTooLarge { grid_w, grid_h } => "raster too large: grid "@ + decimal(
                grid_w as nat,
            ) + "×"@ + decimal(grid_h as nat) + " tiles exceeds 16-bit tile key range"@,
            TileError::TooManyRecords => "tile record count overflows u32"@,
        }
    }

    /// The error as a sentence.
    pub fn message(&self) -> (s: String)
        ensures
            s@ == self.text(),
    {
        match self {
            TileError::RasterTooLarge { grid_w, grid_h } => {
                let mut s = String::from_str("raster too large: grid ");
                push_decimal(&mut s, *grid_w as u64);
                s.append("×");
                push_decimal(&mut s, *grid_h as u64);
                s.append(" tiles exceeds 16-bit tile key range");
                s
            },
            TileError::TooManyRecords => String::from_str("tile record count overflows u32"),
        }
    }
}

/// Tiles that `n` pixels take.
pub open spec fn tiles_for(n: u32) -> u32 {
    ((n + 15) / 16) as u32
}

impl TileGrid {
    pub closed spec fn columns(self) -> u32 {
        self.grid_w
    }

    pub closed spec fn lines(self) -> u32 {
        self.grid_h
    }

    pub open spec fn wf(self) -> bool {
        self.columns() <= MAX_TILES && self.lines() <= MAX_TILES
    }

    /// The tiles of a `width` by `height` raster.
    pub fn new(width: u32, height: u32) -> (r: Result<TileGrid, TileError>)
        ensures
            if tiles_for(width) > MAX_TILES || tiles_for(height) > MAX_TILES {
                r == Err::<TileGrid, TileError>(
                    TileError::RasterTooLarge {
                        grid_w: tiles_for(width),
                        grid_h: tiles_for(height),
                    },
                )
            } else {
                r matches Ok(grid) && grid.wf() && grid.columns() == tiles_for(width)
                    && grid.lines() == tiles_for(height)
            },
    {
        let grid_w: u32 = ((width as u64 + (TILE_W as u64 - 1)) / TILE_W as u64) as u32;
        let grid_h: u32 = ((height as u64 + (TILE_H as u64 - 1)) / TILE_H as u64) as u32;
        if grid_w > MAX_TILES || grid_h > MAX_TILES {
            return Err(TileError::RasterTooLarge { grid_w, grid_h });
        }
        Ok(TileGrid { grid_w, grid_h })
    }

    /// Tiles in a row.
    pub fn grid_w(&self) -> (n: u32)
        ensures
            n == self.columns(),
    {
        self.grid_w
    }

    /// Rows of tiles.
    pub fn grid_h(&self) -> (n: u32)
        ensures
            n == self.lines(),
    {
        self.grid_h
    }
}

/// A segment in one row of tiles.
#[derive(Debug, Clone, Copy, PartialEq, Eq, Structural)]
pub struct RowCrossing {
    /// Row of tiles.
    pub ty: u32,
    /// Rightmost column that the segment reaches in this row; negative where
    /// it lies left of the raster.
    pub tx1: i32,
}

/// Columns that a segment is recorded for: from the leftmost one to the one
/// it reaches.
pub open spec fn recorded_columns(grid_w: u32, tx1: i32) -> nat {
    if tx1 < 0 {
        0
    } else if tx1 + 1 < grid_w {
        (tx1 + 1) as nat
    } else {
        grid_w as nat
    }
}

/// Key of a tile: the row in the upper half, the column in the lower.
pub open spec fn tile_key(ty: u32, tx: int) -> u32 {
    (ty * 0x1_0000 + tx) as u32
}

/// Number of the tile with this key, row by row.
pub open spec fn tile_of(key: u32, grid_w: u32) -> int {
    (key / 0x1_0000) * grid_w + key % 0x1_0000
}

/// The records of one crossing; a record is a key and the crossing's number.
pub open spec fn row_records(c: RowCrossing, number: int, grid_w: u32) -> Seq<(u32, usize)> {
    Seq::new(recorded_columns(grid_w, c.tx1), |tx: int| (tile_key(c.ty, tx), number as usize))
}

/// The records of all crossings, in their order.
pub open spec fn emitted(crossings: Seq<RowCrossing>, grid_w: u32) -> Seq<(u32, usize)>
    decreases crossings.len(),
{
    if crossings.len() == 0 {
        Seq::empty()
    } else {
        emitted(crossings.drop_last(), grid_w) + row_records(
            crossings.last(),
            crossings.len() - 1,
            grid_w,
        )
    }
}

/// Records of tile `t`.
pub open spec fn count_of(records: Seq<(u32, usize)>, grid_w: u32, t: int) -> nat
    decreases records.len(),
{
    if records.len() == 0 {
        0
    } else {
        count_of(records.drop_last(), grid_w, t) + if tile_of(records.last().0, grid_w) == t {
            1nat
        } else {
            0
        }
    }
}

/// Records of the tiles before `t`.
pub open spec fn count_before(records: Seq<(u32, usize)>, grid_w: u32, t: int) -> nat
    decreases records.len(),
{
    if records.len() == 0 {
        0
    } else {
        count_before(records.drop_last(), grid_w, t) + if tile_of(records.last().0, grid_w) < t {
            1nat
        } else {
            0
        }
    }
}

/// Whether the keys ascend.
pub open spec fn keys_ascend(records: Seq<(u32, usize)>) -> bool {
    forall|i: int, j: int| 0 <= i <= j < records.len() ==> records[i].0 <= records[j].0
}

/// `slice::sort_unstable_by_key`: the same records come back in ascending
/// order of their keys.  The order of records with one key is left open.
#[verifier::external_body]
fn sort_by_key(records: &mut Vec<(u32, usize)>)
    ensures
        keys_ascend(final(records)@),
        final(records)@.to_multiset() == old(records)@.to_multiset(),
{
    records.sort_unstable_by_key(|r| r.0);
}

/// Records of a fill, by tile.
pub struct TileIndex {
    /// Key and crossing of each record, by ascending key.
    pub records: Vec<(u32, usize)>,
    /// First record of each tile.
    pub tile_starts: Vec<u32>,
    /// Number of records of each tile.
    pub tile_counts: Vec<u32>,
    /// Tiles in a row.
    pub grid_w: u32,
}

impl TileIndex {
    /// The index of the records of `crossings`.
    pub open spec fn indexes(&self, grid: TileGrid, crossings: Seq<RowCrossing>) -> bool {
        &&& self.grid_w == grid.columns()
        &&& keys_ascend(self.records@)
        &&& self.records@.to_multiset() == emitted(crossings, grid.columns()).to_multiset()
        &&& self.tile_counts@.len() == grid.columns() * grid.lines()
        &&& self.tile_starts@.len() == grid.columns() * grid.lines()
        &&& forall|t: int|
            0 <= t < self.tile_counts@.len() ==> #[trigger] self.tile_counts@[t] == count_of(
                self.records@,
                self.grid_w,
                t,
            )
        &&& forall|t: int|
            0 <= t < self.tile_starts@.len() ==> #[trigger] self.tile_starts@[t] == count_before(
                self.records@,
                self.grid_w,
                t,
            )
    }
}

/// Every crossing lies in the grid.
pub open spec fn in_grid(crossings: Seq<RowCrossing>, grid: TileGrid) -> bool {
    forall|i: int| 0 <= i < crossings.len() ==> (#[trigger] crossings[i]).ty < grid.lines()
}

/// Every record's tile is one of the grid.
pub open spec fn keys_in_grid(records: Seq<(u32, usize)>, grid: TileGrid) -> bool {
    forall|i: int|
        0 <= i < records.len() ==> (#[trigger] records[i]).0 / 0x1_0000 < grid.lines()
            && records[i].0 % 0x1_0000 < grid.columns()
}

proof fn lemma_emitted_in_grid(crossings: Seq<RowCrossing>, grid: TileGrid)
    requires
        grid.wf(),
        in_grid(crossings, grid),
    ensures
        keys_in_grid(emitted(crossings, grid.columns()), grid),
    decreases crossings.len(),
{
    if crossings.len() > 0 {
        let init = crossings.drop_last();
        assert(in_grid(init, grid)) by {
            assert forall|i: int| 0 <= i < init.len() implies (#[trigger] init[i]).ty
                < grid.lines() by {
                assert(init[i] == crossings[i]);
            }
        }
        lemma_emitted_in_grid(init, grid);
        let head = emitted(init, grid.columns());
        let c = crossings.last();
        assert(crossings[crossings.len() - 1].ty < grid.lines());
        let row = row_records(c, crossings.len() - 1, grid.columns());
        let all = emitted(crossings, grid.columns());
        assert forall|i: int| 0 <= i < all.len() implies (#[trigger] all[i]).0 / 0x1_0000
            < grid.lines() && all[i].0 % 0x1_0000 < grid.columns() by {
            if i < head.len() {
                assert(all[i] == head[i]);
            } else {
                let tx = i - head.len();
                assert(all[i] == row[tx]);
                assert(all[i].0 == c.ty * 0x1_0000 + tx);
            }
        }
    }
}

/// The bound on a tile's number.
proof fn lemma_tile_bound(key: u32, grid: TileGrid)
    requires
        grid.wf(),
        key / 0x1_0000 < grid.lines(),
        key % 0x1_0000 < grid.columns(),
    ensures
        0 <= tile_of(key, grid.columns()) < grid.columns() * grid.lines() <= u32::MAX,
        0 <= (key / 0x1_0000) * grid.columns() <= tile_of(key, grid.columns()),
{
    let ty = (key / 0x1_0000) as int;
    let w = grid.columns() as int;
    let h = grid.lines() as int;
    assert(0 <= ty * w && ty * w + w <= w * h) by (nonlinear_arith)
        requires
            0 <= ty,
            ty + 1 <= h,
            w >= 0,
    ;
    assert(w * h <= 0xFFFF * 0xFFFF) by (nonlinear_arith)
        requires
            0 <= w <= 0xFFFF,
            0 <= h <= 0xFFFF,
    ;
}

proof fn lemma_count_le(records: Seq<(u32, usize)>, grid_w: u32, t: int)
    ensures
        count_of(records, grid_w, t) <= records.len(),
        count_before(records, grid_w, t) <= records.len(),
    decreases records.len(),
{
    if records.len() > 0 {
        lemma_count_le(records.drop_last(), grid_w, t);
    }
}

/// The records before the next tile are those before this one and its own.
proof fn lemma_count_step(records: Seq<(u32, usize)>, grid_w: u32, t: int)
    ensures
        count_before(records, grid_w, t + 1) == count_before(records, grid_w, t) + count_of(
            records,
            grid_w,
            t,
        ),
    decreases records.len(),
{
    if records.len() > 0 {
        lemma_count_step(records.drop_last(), grid_w, t);
    }
}

/// No tile comes before the first.
proof fn lemma_none_before_first(records: Seq<(u32, usize)>, grid_w: u32)
    ensures
        count_before(records, grid_w, 0) == 0,
    decreases records.len(),
{
    if records.len() > 0 {
        lemma_none_before_first(records.drop_last(), grid_w);
        let q = (records.last().0 / 0x1_0000) as int;
        let w = grid_w as int;
        assert(q * w >= 0) by (nonlinear_arith)
            requires
                q >= 0,
                w >= 0,
        ;
    }
}

fn columns_of(grid_w: u32, tx1: i32) -> (n: u32)
    ensures
        n == recorded_columns(grid_w, tx1),
{
    if tx1 < 0 {
        0
    } else if (tx1 as u32) + 1 < grid_w {
        tx1 as u32 + 1
    } else {
        grid_w
    }
}

/// Number of records of the crossings, if a 32-bit index reaches them.
fn record_total(crossings: &[RowCrossing], grid: TileGrid) -> (total: Option<u32>)
    requires
        grid.wf(),
    ensures
        match total {
            Some(n) => n == emitted(crossings@, grid.columns()).len(),
            None => emitted(crossings@, grid.columns()).len() > u32::MAX,
        },
{
    let mut total: u32 = 0;
    let mut i: usize = 0;
    while i < crossings.len()
        invariant
            i <= crossings@.len(),
            total == emitted(crossings@.take(i as int), grid.columns()).len(),
        decreases crossings@.len() - i,
    {
        let cols: u32 = columns_of(grid.grid_w, crossings[i].tx1);
        proof {
            let next = crossings@.take(i + 1);
            assert(next.drop_last() =~= crossings@.take(i as int));
            assert(next.last() == crossings@[i as int]);
        }
        match total.checked_add(cols) {
            None => {
                proof {
                    lemma_emitted_grows(crossings@, i + 1, grid.columns());
                }
                return None;
            },
            Some(v) => {
                total = v;
            },
        }
        i += 1;
    }
    assert(crossings@.take(i as int) =~= crossings@);
    Some(total)
}

/// More crossings have no fewer records.
proof fn lemma_emitted_grows(crossings: Seq<RowCrossing>, n: int, grid_w: u32)
    requires
        0 <= n <= crossings.len(),
    ensures
        emitted(crossings.take(n), grid_w).len() <= emitted(crossings, grid_w).len(),
    decreases crossings.len() - n,
{
    if n < crossings.len() {
        lemma_emitted_grows(crossings, n + 1, grid_w);
        assert(crossings.take(n + 1).drop_last() =~= crossings.take(n));
    } else {
        assert(crossings.take(n) =~= crossings);
    }
}

/// List the records of all crossings.
fn emit_records(crossings: &[RowCrossing], grid: TileGrid) -> (records: Vec<(u32, usize)>)
    requires
        grid.wf(),
        in_grid(crossings@, grid),
    ensures
        records@ == emitted(crossings@, grid.columns()),
{
    let mut records: Vec<(u32, usize)> = Vec::new();
    let mut i: usize = 0;
    while i < crossings.len()
        invariant
            i <= crossings@.len(),
            grid.wf(),
            in_grid(crossings@, grid),
            records@ == emitted(crossings@.take(i as int), grid.columns()),
        decreases crossings@.len() - i,
    {
        let c: RowCrossing = crossings[i];
        assert(crossings@[i as int].ty < grid.lines());
        let cols: u32 = columns_of(grid.grid_w, c.tx1);
        let ghost head = records@;
        let ghost row = row_records(c, i as int, grid.columns());
        let mut tx: u32 = 0;
        while tx < cols
            invariant
                tx <= cols,
                cols == recorded_columns(grid.columns(), c.tx1),
                cols <= MAX_TILES,
                c.ty < MAX_TILES,
                row == row_records(c, i as int, grid.columns()),
                records@ == head + row.take(tx as int),
            decreases cols - tx,
        {
            let ty: u32 = c.ty;
            proof {
                assert((ty << 16u32) | tx == ty * 0x1_0000 + tx) by (bit_vector)
                    requires
                        ty < 0xFFFF,
                        tx < 0xFFFF,
                ;
            }
            records.push(((ty << 16u32) | tx, i));
            proof {
                assert(row[tx as int] == (tile_key(c.ty, tx as int), i));
                assert(row.take(tx + 1) =~= row.take(tx as int).push(row[tx as int]));
                assert(records@ =~= head + row.take(tx + 1));
            }
            tx += 1;
        }
        proof {
            assert(row.take(cols as int) =~= row);
            let next = crossings@.take(i + 1);
            assert(next.drop_last() =~= crossings@.take(i as int));
            assert(next.last() == c);
        }
        i += 1;
    }
    assert(crossings@.take(i as int) =~= crossings@);
    records
}

/// Number of records of each tile.
fn count_tiles(records: &Vec<(u32, usize)>, grid: TileGrid) -> (counts: Vec<u32>)
    requires
        grid.wf(),
        records@.len() <= u32::MAX,
        keys_in_grid(records@, grid),
    ensures
        counts@.len() == grid.columns() * grid.lines(),
        forall|t: int|
            0 <= t < counts@.len() ==> #[trigger] counts@[t] == count_of(
                records@,
                grid.columns(),
                t,
            ),
{
    proof {
        let w = grid.columns() as int;
        let h = grid.lines() as int;
        assert(0 <= w * h <= 0xFFFF * 0xFFFF) by (nonlinear_arith)
            requires
                0 <= w <= 0xFFFF,
                0 <= h <= 0xFFFF,
        ;
    }
    let n_tiles: usize = (grid.grid_w * grid.grid_h) as usize;
    let mut counts: Vec<u32> = vec![0u32; n_tiles];
    let mut i: usize = 0;
    while i < records.len()
        invariant
            i <= records@.len(),
            records@.len() <= u32::MAX,
            grid.wf(),
            keys_in_grid(records@, grid),
            counts@.len() == grid.columns() * grid.lines(),
            forall|t: int|
                0 <= t < counts@.len() ==> #[trigger] counts@[t] == count_of(
                    records@.take(i as int),
                    grid.columns(),
                    t,
                ),
        decreases records@.len() - i,
    {
        let key: u32 = records[i].0;
        proof {
            assert(records@[i as int].0 / 0x1_0000 < grid.lines());
            lemma_tile_bound(key, grid);
            assert(key >> 16u32 == key / 0x1_0000) by (bit_vector);
            assert(key & 0xFFFFu32 == key % 0x1_0000) by (bit_vector);
        }
        let tile: usize = ((key >> 16u32) * grid.grid_w + (key & 0xFFFF)) as usize;
        proof {
            lemma_count_le(records@.take(i as int), grid.columns(), tile as int);
            assert(records@.take(i + 1).drop_last() =~= records@.take(i as int));
            assert(records@.take(i + 1).last() == records@[i as int]);
        }
        let ghost before = counts@;
        let seen: u32 = counts[tile];
        counts[tile] = seen + 1;
        proof {
            assert forall|t: int| 0 <= t < counts@.len() implies #[trigger] counts@[t]
                == count_of(records@.take(i + 1), grid.columns(), t) by {
                assert(before[t] == count_of(records@.take(i as int), grid.columns(), t));
            }
        }
        i += 1;
    }
    assert(records@.take(i as int) =~= records@);
    counts
}

/// First record of each tile: the running total of the counts.
fn start_tiles(counts: &Vec<u32>, records: &Vec<(u32, usize)>, grid_w: u32) -> (starts: Vec<u32>)
    requires
        records@.len() <= u32::MAX,
        forall|t: int|
            0 <= t < counts@.len() ==> #[trigger] counts@[t] == count_of(records@, grid_w, t),
    ensures
        starts@.len() == counts@.len(),
        forall|t: int|
            0 <= t < starts@.len() ==> #[trigger] starts@[t] == count_before(records@, grid_w, t),
{
    let mut starts: Vec<u32> = Vec::new();
    let mut running: u32 = 0;
    let mut t: usize = 0;
    proof {
        lemma_none_before_first(records@, grid_w);
    }
    while t < counts.len()
        invariant
            t <= counts@.len(),
            records@.len() <= u32::MAX,
            starts@.len() == t,
            running == count_before(records@, grid_w, t as int),
            forall|u: int|
                0 <= u < counts@.len() ==> #[trigger] counts@[u] == count_of(records@, grid_w, u),
            forall|u: int|
                0 <= u < t ==> #[trigger] starts@[u] == count_before(records@, grid_w, u),
        decreases counts@.len() - t,
    {
        starts.push(running);
        proof {
            lemma_count_step(records@, grid_w, t as int);
            lemma_count_le(records@, grid_w, t + 1);
        }
        running = running + counts[t];
        t += 1;
    }
    starts
}

/// Records of the crossings, sorted by tile, with the index of each tile.
pub fn build_tile_records(crossings: &[RowCrossing], grid: TileGrid) -> (r: Result<
    TileIndex,
    TileError,
>)
    requires
        grid.wf(),
        in_grid(crossings@, grid),
    ensures
        match r {
            Ok(index) => emitted(crossings@, grid.columns()).len() <= u32::MAX && index.indexes(
                grid,
                crossings@,
            ),
            Err(e) => e == TileError::TooManyRecords && emitted(crossings@, grid.columns()).len()
                > u32::MAX,
        },
{
    match record_total(crossings, grid) {
        None => {
            return Err(TileError::TooManyRecords);
        },
        Some(_) => {},
    }
    let mut records: Vec<(u32, usize)> = emit_records(crossings, grid);
    let ghost listed = records@;
    proof {
        lemma_emitted_in_grid(crossings@, grid);
    }
    sort_by_key(&mut records);
    proof {
        lemma_sorting_keeps_grid(listed, records@, grid);
    }
    let tile_counts: Vec<u32> = count_tiles(&records, grid);
    let tile_starts: Vec<u32> = start_tiles(&tile_counts, &records, grid.grid_w);
    Ok(TileIndex { records, tile_starts, tile_counts, grid_w: grid.grid_w })
}

proof fn lemma_sorting_keeps_grid(
    before: Seq<(u32, usize)>,
    after: Seq<(u32, usize)>,
    grid: TileGrid,
)
    requires
        before.to_multiset() == after.to_multiset(),
        keys_in_grid(before, grid),
    ensures
        keys_in_grid(after, grid),
        after.len() == before.len(),
{
    before.to_multiset_ensures();
    after.to_multiset_ensures();
    assert forall|i: int| 0 <= i < after.len() implies (#[trigger] after[i]).0 / 0x1_0000
        < grid.lines() && after[i].0 % 0x1_0000 < grid.columns() by {
        assert(after.contains(after[i]));
        assert(after.to_multiset().count(after[i]) > 0);
        assert(before.contains(after[i]));
        let j = choose|j: int| 0 <= j < before.len() && before[j] == after[i];
        assert(before[j].0 / 0x1_0000 < grid.lines());
    }
}

} // verus!
