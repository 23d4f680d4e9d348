//! What holds of the tile index as a whole.

use crate::fill::{
    count_before, count_of, emitted, in_grid, keys_ascend, keys_in_grid, recorded_columns,
    row_records, tile_key, tile_of, tiles_for, RowCrossing, TileGrid, TileIndex, MAX_TILES,
};
use vstd::prelude::*;

verus! {

/// A tile's number ascends with its key.
proof fn lemma_tile_ascends(a: u32, b: u32, grid_w: u32)
    requires
        a <= b,
        a % 0x1_0000 < grid_w,
        b % 0x1_0000 < grid_w,
        grid_w <= MAX_TILES,
    ensures
        tile_of(a, grid_w) <= tile_of(b, grid_w),
{
    let qa = (a / 0x1_0000) as int;
    let qb = (b / 0x1_0000) as int;
    let w = grid_w as int;
    if qa < qb {
        assert(qa * w + w <= qb * w) by (nonlinear_arith)
            requires
                qa + 1 <= qb,
                w >= 0,
        ;
    }
}

/// Among sorted records those of the tiles before `t` come first.
proof fn lemma_sorted_split(records: Seq<(u32, usize)>, grid: TileGrid, t: int, i: int)
    requires
        grid.wf(),
        keys_ascend(records),
        keys_in_grid(records, grid),
        0 <= i < records.len(),
    ensures
        i < count_before(records, grid.columns(), t) <==> tile_of(records[i].0, grid.columns())
            < t,
    decreases records.len(),
{
    let init = records.drop_last();
    let w = grid.columns();
    let last = records.len() - 1;
    assert(keys_ascend(init));
    assert(keys_in_grid(init, grid)) by {
        assert forall|j: int| 0 <= j < init.len() implies (#[trigger] init[j]).0 / 0x1_0000
            < grid.lines() && init[j].0 % 0x1_0000 < grid.columns() by {
            assert(init[j] == records[j]);
        }
    }
    lemma_before_le(init, w, t);
    assert(records[last].0 % 0x1_0000 < w);
    if i < last {
        assert(records[i].0 % 0x1_0000 < w);
        assert(init[i] == records[i]);
        lemma_sorted_split(init, grid, t, i);
        lemma_tile_ascends(records[i].0, records[last].0, w);
    } else if last > 0 {
        lemma_sorted_split(init, grid, t, last - 1);
        assert(init[last - 1] == records[last - 1]);
        assert(records[last - 1].0 % 0x1_0000 < w);
        lemma_tile_ascends(records[last - 1].0, records[last].0, w);
    }
}

proof fn lemma_before_le(records: Seq<(u32, usize)>, grid_w: u32, t: int)
    ensures
        count_before(records, grid_w, t) <= records.len(),
        count_before(records, grid_w, t + 1) == count_before(records, grid_w, t) + count_of(
            records,
            grid_w,
            t,
        ),
    decreases records.len(),
{
    if records.len() > 0 {
        lemma_before_le(records.drop_last(), grid_w, t);
    }
}

/// A tile's start and count name exactly its own records.
pub proof fn law_index_finds_the_records(
    index: TileIndex,
    grid: TileGrid,
    crossings: Seq<RowCrossing>,
    t: int,
    i: int,
)
    requires
        grid.wf(),
        in_grid(crossings, grid),
        index.indexes(grid, crossings),
        0 <= t < index.tile_counts@.len(),
        0 <= i < index.records@.len(),
    ensures
        index.tile_starts@[t] <= i < index.tile_starts@[t] + index.tile_counts@[t] <==> tile_of(
            index.records@[i].0,
            index.grid_w,
        ) == t,
{
    let records = index.records@;
    let w = grid.columns();
    lemma_records_in_grid(index, grid, crossings);
    lemma_sorted_split(records, grid, t, i);
    lemma_sorted_split(records, grid, t + 1, i);
    lemma_before_le(records, w, t);
}

proof fn lemma_records_in_grid(index: TileIndex, grid: TileGrid, crossings: Seq<RowCrossing>)
    requires
        grid.wf(),
        in_grid(crossings, grid),
        index.indexes(grid, crossings),
    ensures
        keys_in_grid(index.records@, grid),
{
    let all = emitted(crossings, grid.columns());
    let records = index.records@;
    all.to_multiset_ensures();
    records.to_multiset_ensures();
    assert forall|i: int| 0 <= i < records.len() implies (#[trigger] records[i]).0 / 0x1_0000
        < grid.lines() && records[i].0 % 0x1_0000 < grid.columns() by {
        assert(records.contains(records[i]));
        assert(records.to_multiset().count(records[i]) > 0);
        assert(all.contains(records[i]));
        let j = choose|j: int| 0 <= j < all.len() && all[j] == records[i];
        lemma_record_of(crossings, grid, j);
    }
}

/// Every record is that of a crossing, in a column that it reaches.
proof fn lemma_record_of(crossings: Seq<RowCrossing>, grid: TileGrid, j: int)
    requires
        grid.wf(),
        in_grid(crossings, grid),
        0 <= j < emitted(crossings, grid.columns()).len(),
    ensures
        emitted(crossings, grid.columns())[j].0 / 0x1_0000 < grid.lines(),
        emitted(crossings, grid.columns())[j].0 % 0x1_0000 < grid.columns(),
    decreases crossings.len(),
{
    let init = crossings.drop_last();
    assert(in_grid(init, grid)) by {
        assert forall|i: int| 0 <= i < init.len() implies (#[trigger] init[i]).ty
            < grid.lines() by {
            assert(init[i] == crossings[i]);
        }
    }
    let head = emitted(init, grid.columns());
    if j < head.len() {
        lemma_record_of(init, grid, j);
    } else {
        let c = crossings.last();
        assert(crossings[crossings.len() - 1].ty < grid.lines());
        let row = row_records(c, crossings.len() - 1, grid.columns());
        let tx = j - head.len();
        assert(emitted(crossings, grid.columns())[j] == row[tx]);
        assert(row[tx].0 == c.ty * 0x1_0000 + tx);
    }
}

/// A segment is recorded for every column from the leftmost one to the one
/// it reaches.
pub proof fn law_segments_reach_every_column_to_their_left(
    crossings: Seq<RowCrossing>,
    grid_w: u32,
    number: int,
    tx: int,
)
    requires
        0 <= number < crossings.len(),
        0 <= tx < recorded_columns(grid_w, crossings[number].tx1),
    ensures
        emitted(crossings, grid_w).contains((tile_key(crossings[number].ty, tx), number as usize)),
    decreases crossings.len(),
{
    let init = crossings.drop_last();
    let head = emitted(init, grid_w);
    let row = row_records(crossings.last(), crossings.len() - 1, grid_w);
    let all = emitted(crossings, grid_w);
    if number == crossings.len() - 1 {
        assert(all[head.len() + tx] == row[tx]);
    } else {
        assert(init[number] == crossings[number]);
        law_segments_reach_every_column_to_their_left(init, grid_w, number, tx);
        let j = choose|j: int|
            0 <= j < head.len() && head[j] == (
                tile_key(crossings[number].ty, tx),
                number as usize,
            );
        assert(all[j] == head[j]);
    }
}

/// Every pixel of the raster lies in a tile of the grid.
pub proof fn law_tiles_cover_the_raster(width: u32, x: u32)
    requires
        x < width,
    ensures
        x / 16 < tiles_for(width),
{
}

/// What is emitted for the crossings: a record for each crossing and each
/// column of the grid up to the one it reaches, and no other.
proof fn lemma_emitted_exactly(crossings: Seq<RowCrossing>, grid: TileGrid, key: u32, number: usize)
    requires
        grid.wf(),
        in_grid(crossings, grid),
        crossings.len() <= usize::MAX,
    ensures
        emitted(crossings, grid.columns()).contains((key, number)) <==> {
            &&& number < crossings.len()
            &&& key / 0x1_0000 == crossings[number as int].ty
            &&& key % 0x1_0000 < grid.columns()
            &&& key % 0x1_0000 <= crossings[number as int].tx1
        },
    decreases crossings.len(),
{
    let w = grid.columns();
    let all = emitted(crossings, w);
    if crossings.len() > 0 {
        let init = crossings.drop_last();
        let last = crossings.len() - 1;
        assert(in_grid(init, grid)) by {
            assert forall|i: int| 0 <= i < init.len() implies (#[trigger] init[i]).ty
                < grid.lines() by {
                assert(init[i] == crossings[i]);
            }
        }
        lemma_emitted_exactly(init, grid, key, number);
        let head = emitted(init, w);
        let c = crossings.last();
        assert(crossings[last].ty < grid.lines());
        let row = row_records(c, last, w);
        assert(all == head + row);
        assert forall|tx: int| 0 <= tx < row.len() implies #[trigger] row[tx].0 / 0x1_0000 == c.ty
            && row[tx].0 % 0x1_0000 == tx && row[tx].1 == last by {}
        if head.contains((key, number)) {
            let j = choose|j: int| 0 <= j < head.len() && head[j] == (key, number);
            assert(all[j] == (key, number));
            assert(init[number as int] == crossings[number as int]);
        }
        if row.contains((key, number)) {
            let j = choose|j: int| 0 <= j < row.len() && row[j] == (key, number);
            assert(all[head.len() + j] == (key, number));
        }
        if all.contains((key, number)) {
            let j = choose|j: int| 0 <= j < all.len() && all[j] == (key, number);
            if j < head.len() {
                assert(head[j] == (key, number));
            } else {
                assert(row[j - head.len()] == (key, number));
            }
        }
        if number == last && key / 0x1_0000 == c.ty && key % 0x1_0000 < w && key % 0x1_0000
            <= c.tx1 {
            let tx = (key % 0x1_0000) as int;
            assert(tx < recorded_columns(w, c.tx1));
            assert(row[tx].0 == key);
            assert(row[tx] == (key, number));
        }
    }
}

proof fn lemma_emitted_once(crossings: Seq<RowCrossing>, grid: TileGrid)
    requires
        grid.wf(),
        in_grid(crossings, grid),
        crossings.len() <= usize::MAX,
    ensures
        emitted(crossings, grid.columns()).no_duplicates(),
    decreases crossings.len(),
{
    if crossings.len() > 0 {
        let w = grid.columns();
        let all = emitted(crossings, w);
        let init = crossings.drop_last();
        let last = crossings.len() - 1;
        assert(in_grid(init, grid)) by {
            assert forall|i: int| 0 <= i < init.len() implies (#[trigger] init[i]).ty
                < grid.lines() by {
                assert(init[i] == crossings[i]);
            }
        }
        lemma_emitted_once(init, grid);
        let head = emitted(init, w);
        let c = crossings.last();
        assert(crossings[last].ty < grid.lines());
        let row = row_records(c, last, w);
        assert forall|tx: int| 0 <= tx < row.len() implies #[trigger] row[tx].0 % 0x1_0000 == tx
            && row[tx].1 == last by {}
        assert forall|i: int, j: int| 0 <= i < j < all.len() implies all[i] != all[j] by {
            if i < head.len() {
                assert(all[i] == head[i]);
                assert(head.contains(head[i]));
                lemma_emitted_exactly(init, grid, head[i].0, head[i].1);
                if j < head.len() {
                    assert(all[j] == head[j]);
                } else {
                    assert(all[j] == row[j - head.len()]);
                }
            } else {
                assert(all[i] == row[i - head.len()]);
                assert(all[j] == row[j - head.len()]);
            }
        }
    }
}

/// The records of a tile are the segments that cross its row of tiles in its
/// own column or to the right of it, each of them once: the tile's start and
/// count take in record `i` exactly if it is one of these.
pub proof fn law_tiles_record_the_segments_to_their_right(
    index: TileIndex,
    grid: TileGrid,
    crossings: Seq<RowCrossing>,
    tx: u32,
    ty: u32,
    number: usize,
)
    requires
        grid.wf(),
        in_grid(crossings, grid),
        crossings.len() <= usize::MAX,
        index.indexes(grid, crossings),
        tx < grid.columns(),
        ty < grid.lines(),
    ensures
        index.records@.no_duplicates(),
        (exists|i: int|
            {
                let t = ty * grid.columns() + tx;
                &&& index.tile_starts@[t] <= i < index.tile_starts@[t] + index.tile_counts@[t]
                &&& 0 <= i < index.records@.len()
                &&& (#[trigger] index.records@[i]).1 == number
            }) <==> {
            &&& number < crossings.len()
            &&& crossings[number as int].ty == ty
            &&& crossings[number as int].tx1 >= tx
        },
{
    let w = grid.columns();
    let t = ty * w + tx;
    let all = emitted(crossings, w);
    let records = index.records@;
    let key = (ty * 0x1_0000 + tx) as u32;
    assert(key / 0x1_0000 == ty && key % 0x1_0000 == tx);
    all.to_multiset_ensures();
    records.to_multiset_ensures();
    lemma_emitted_once(crossings, grid);
    all.lemma_multiset_has_no_duplicates();
    records.lemma_multiset_has_no_duplicates_conv();
    lemma_emitted_exactly(crossings, grid, key, number);
    lemma_records_in_grid(index, grid, crossings);
    assert(0 <= t < w * grid.lines()) by (nonlinear_arith)
        requires
            t == ty * w + tx,
            0 <= tx < w,
            0 <= ty,
            ty + 1 <= grid.lines(),
    ;
    let inside = number < crossings.len() && crossings[number as int].ty == ty
        && crossings[number as int].tx1 >= tx;
    if inside {
        assert(all.contains((key, number)));
        assert(all.to_multiset().count((key, number)) > 0);
        assert(records.contains((key, number)));
        let i = choose|i: int| 0 <= i < records.len() && records[i] == (key, number);
        law_index_finds_the_records(index, grid, crossings, t, i);
        assert(records[i].1 == number);
    }
    assert forall|i: int|
        0 <= i < records.len() && index.tile_starts@[t] <= i < index.tile_starts@[t]
            + index.tile_counts@[t] && (#[trigger] records[i]).1 == number implies inside by {
        law_index_finds_the_records(index, grid, crossings, t, i);
        let k = records[i].0;
        assert(k % 0x1_0000 < w);
        let a = (k / 0x1_0000) as int;
        let b = (k % 0x1_0000) as int;
        assert(a == ty && b == tx) by (nonlinear_arith)
            requires
                a * w + b == ty * w + tx,
                0 <= b < w,
                0 <= tx < w,
        ;
        assert(k == key);
        assert(records.contains(records[i]));
        assert(records.to_multiset().count((key, number)) > 0);
        assert(all.contains((key, number)));
    }
}

/// The grid has as many tiles on an axis as its pixels take, and none too
/// many.
pub proof fn law_no_tile_is_empty(width: u32)
    ensures
        16 * tiles_for(width) - 16 < width <= 16 * tiles_for(width) || width == 0 && tiles_for(
            width,
        ) == 0,
{
}

} // verus!
