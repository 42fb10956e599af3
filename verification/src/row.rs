//! One row of the board: its 16-bit code, and the slide that moves its tiles
//! to one end and merges equal neighbours.

use vstd::prelude::*;

verus! {

/// Largest exponent that fits the four bits of a packed cell.
pub const MAX_EXPONENT: u16 = 15;

/// Largest exponent that a merge of packed cells can give.
pub const MAX_MERGED: u16 = 16;

/// Every cell of `row` is at most `bound`.
pub open spec fn row_at_most(row: [u16; 4], bound: int) -> bool {
    row[0] <= bound && row[1] <= bound && row[2] <= bound && row[3] <= bound
}

/// The row with the cell at `x` replaced by `value`.
pub open spec fn row_updated(row: [u16; 4], x: int, value: u16) -> [u16; 4] {
    [
        if x == 0 { value } else { row[0] },
        if x == 1 { value } else { row[1] },
        if x == 2 { value } else { row[2] },
        if x == 3 { value } else { row[3] },
    ]
}

/// The 16-bit code of a row: one nibble per cell, the first cell highest.
pub open spec fn row_code(row: [u16; 4]) -> u16 {
    (row[0] << 12) | (row[1] << 8) | (row[2] << 4) | row[3]
}

/// The four cells that a 16-bit row code holds.
pub open spec fn row_cells(code: u16) -> [u16; 4] {
    [code / 4096, (code / 256) % 16, (code / 16) % 16, code % 16]
}

/// The row read from its other end.
pub open spec fn reversed(row: [u16; 4]) -> [u16; 4] {
    [row[3], row[2], row[1], row[0]]
}

/// The nonzero cells of `cells`, in order.
pub open spec fn compact(cells: Seq<u16>) -> Seq<u16>
    decreases cells.len(),
{
    if cells.len() == 0 {
        cells
    } else if cells.last() == 0 {
        compact(cells.drop_last())
    } else {
        compact(cells.drop_last()).push(cells.last())
    }
}

/// Pairs off equal neighbours from the left. Each pair becomes one tile a
/// step higher, and that tile joins no further pair.
pub open spec fn merge_pairs(tiles: Seq<u16>) -> Seq<u16>
    decreases tiles.len(),
{
    if tiles.len() < 2 {
        tiles
    } else if tiles[0] == tiles[1] {
        seq![(tiles[0] + 1) as u16] + merge_pairs(tiles.skip(2))
    } else {
        seq![tiles[0]] + merge_pairs(tiles.skip(1))
    }
}

/// Whether the last tile is left without a partner when pairs are taken
/// from the left.
pub open spec fn last_is_single(tiles: Seq<u16>) -> bool
    decreases tiles.len(),
{
    if tiles.len() == 0 {
        false
    } else if tiles.len() == 1 {
        true
    } else if tiles[0] == tiles[1] {
        last_is_single(tiles.skip(2))
    } else {
        last_is_single(tiles.skip(1))
    }
}

/// The first four of `tiles`, with zeros where there are fewer.
pub open spec fn padded(tiles: Seq<u16>) -> [u16; 4] {
    [
        if 0 < tiles.len() { tiles[0] } else { 0 },
        if 1 < tiles.len() { tiles[1] } else { 0 },
        if 2 < tiles.len() { tiles[2] } else { 0 },
        if 3 < tiles.len() { tiles[3] } else { 0 },
    ]
}

/// The row after its tiles slide to the first cell and merge pairwise.
pub open spec fn slide_left(row: [u16; 4]) -> [u16; 4] {
    padded(merge_pairs(compact(row@)))
}

/// The row after its tiles slide to the last cell and merge pairwise.
pub open spec fn slide_right(row: [u16; 4]) -> [u16; 4] {
    reversed(slide_left(reversed(row)))
}

/// The row after a slide to its first cell, or to its last one.
pub open spec fn slide(row: [u16; 4], to_right: bool) -> [u16; 4] {
    if to_right {
        slide_right(row)
    } else {
        slide_left(row)
    }
}

/// A row that a slide to the first cell has nothing to do on: no zero stands
/// before a tile, and no two neighbouring tiles are equal.
pub open spec fn settled(row: [u16; 4]) -> bool {
    &&& row[0] == 0 ==> row[1] == 0
    &&& row[1] == 0 ==> row[2] == 0
    &&& row[2] == 0 ==> row[3] == 0
    &&& row[0] != 0 ==> row[0] != row[1]
    &&& row[1] != 0 ==> row[1] != row[2]
    &&& row[2] != 0 ==> row[2] != row[3]
}

/// On a row whose cells fit a nibble the code is the base-16 number that the
/// cells spell, and decoding it gives the row back.
pub proof fn lemma_row_code_round_trip(row: [u16; 4])
    requires
        row_at_most(row, MAX_EXPONENT as int),
    ensures
        row_code(row) == row[0] * 4096 + row[1] * 256 + row[2] * 16 + row[3],
        row_cells(row_code(row)) == row,
{
    let a = row[0];
    let b = row[1];
    let c = row[2];
    let d = row[3];
    let code = row_code(row);
    assert(code == a * 4096 + b * 256 + c * 16 + d && code / 4096 == a && (code / 256) % 16 == b
        && (code / 16) % 16 == c && code % 16 == d) by (bit_vector)
        requires
            code == (a << 12) | (b << 8) | (c << 4) | d,
            a <= 15,
            b <= 15,
            c <= 15,
            d <= 15,
    ;
    assert(row_cells(code) =~= row);
}

/// Every code is the code of the row it decodes to, and the cells of that
/// row fit a nibble.
pub proof fn lemma_row_cells_round_trip(code: u16)
    ensures
        row_at_most(row_cells(code), MAX_EXPONENT as int),
        row_code(row_cells(code)) == code,
{
    let a: u16 = code / 4096;
    let b: u16 = (code / 256) % 16;
    let c: u16 = (code / 16) % 16;
    let d: u16 = code % 16;
    assert(a <= 15 && b <= 15 && c <= 15 && d <= 15 && ((a << 12) | (b << 8) | (c << 4) | d)
        == code) by (bit_vector)
        requires
            a == code / 4096,
            b == (code / 256) % 16,
            c == (code / 16) % 16,
            d == code % 16,
    ;
}

/// The merged tiles of two tiles.
proof fn lemma_merge_pairs_of_two(first: u16, second: u16)
    ensures
        merge_pairs(seq![first, second]) == if first == second {
            seq![(second + 1) as u16]
        } else {
            seq![first, second]
        },
        last_is_single(seq![first, second]) == (first != second),
{
    reveal_with_fuel(merge_pairs, 2);
    reveal_with_fuel(last_is_single, 2);
    let tiles = seq![first, second];
    assert(tiles.skip(2) =~= Seq::<u16>::empty());
    assert(tiles.skip(1) =~= seq![second]);
    if first == second {
        assert(merge_pairs(tiles) =~= seq![(second + 1) as u16]);
    } else {
        assert(merge_pairs(tiles) =~= seq![first, second]);
    }
}

/// What one more tile at the end does to the merged tiles: it joins the last
/// of them where that one is still single and equal, and else it follows it.
proof fn lemma_merge_pairs_push(tiles: Seq<u16>, value: u16)
    ensures
        merge_pairs(tiles.push(value)) == if last_is_single(tiles) && tiles.last() == value {
            merge_pairs(tiles).drop_last().push((value + 1) as u16)
        } else {
            merge_pairs(tiles).push(value)
        },
        last_is_single(tiles.push(value)) == !(last_is_single(tiles) && tiles.last() == value),
        last_is_single(tiles) ==> merge_pairs(tiles).len() > 0 && merge_pairs(tiles).last()
            == tiles.last(),
        merge_pairs(tiles).len() <= tiles.len(),
    decreases tiles.len(),
{
    let longer = tiles.push(value);
    if tiles.len() == 0 {
        assert(merge_pairs(longer) =~= merge_pairs(tiles).push(value));
    } else if tiles.len() == 1 {
        lemma_merge_pairs_of_two(tiles[0], value);
        assert(longer =~= seq![tiles[0], value]);
        assert(merge_pairs(tiles) == tiles);
        if tiles[0] == value {
            assert(seq![(value + 1) as u16] =~= tiles.drop_last().push((value + 1) as u16));
        } else {
            assert(seq![tiles[0], value] =~= tiles.push(value));
        }
    } else {
        let paired = tiles[0] == tiles[1];
        let rest = if paired {
            tiles.skip(2)
        } else {
            tiles.skip(1)
        };
        let head = if paired {
            (tiles[0] + 1) as u16
        } else {
            tiles[0]
        };
        lemma_merge_pairs_push(rest, value);
        let merged_rest = merge_pairs(rest);
        assert(longer[0] == tiles[0] && longer[1] == tiles[1]);
        assert(longer.skip(2) =~= tiles.skip(2).push(value));
        assert(longer.skip(1) =~= tiles.skip(1).push(value));
        assert(merge_pairs(tiles) == seq![head] + merged_rest);
        assert(merge_pairs(longer) == seq![head] + merge_pairs(rest.push(value)));
        assert(last_is_single(tiles) == last_is_single(rest));
        assert(last_is_single(longer) == last_is_single(rest.push(value)));
        if last_is_single(rest) {
            assert(rest.len() > 0);
            assert(rest.last() == tiles.last());
            assert(merged_rest.len() > 0);
            assert((seq![head] + merged_rest).last() == merged_rest.last());
        }
        if last_is_single(rest) && rest.last() == value {
            assert(seq![head] + merged_rest.drop_last().push((value + 1) as u16) =~= (seq![head]
                + merged_rest).drop_last().push((value + 1) as u16));
        } else {
            assert(seq![head] + merged_rest.push(value) =~= (seq![head] + merged_rest).push(
                value,
            ));
        }
    }
}

/// Dropping the zeros keeps a bound on the cells, leaves no zero, and adds
/// no cell. Where it drops nothing, the cells stay as they are.
proof fn lemma_compact(cells: Seq<u16>, bound: int)
    requires
        forall|i: int| 0 <= i < cells.len() ==> cells[i] <= bound,
    ensures
        compact(cells).len() <= cells.len(),
        forall|j: int|
            0 <= j < compact(cells).len() ==> 0 < #[trigger] compact(cells)[j] <= bound,
        compact(cells).len() == cells.len() ==> compact(cells) == cells,
    decreases cells.len(),
{
    if cells.len() > 0 {
        lemma_compact(cells.drop_last(), bound);
        if compact(cells).len() == cells.len() {
            assert(compact(cells) =~= cells);
        }
    }
}

/// Merging raises no tile by more than one step and adds no tile. Where it
/// keeps the number of tiles, the tiles stay as they are.
proof fn lemma_merge_pairs(tiles: Seq<u16>, bound: int)
    requires
        forall|i: int| 0 <= i < tiles.len() ==> tiles[i] <= bound,
    ensures
        merge_pairs(tiles).len() <= tiles.len(),
        bound < u16::MAX ==> forall|j: int|
            0 <= j < merge_pairs(tiles).len() ==> #[trigger] merge_pairs(tiles)[j] <= bound + 1,
        merge_pairs(tiles).len() == tiles.len() ==> merge_pairs(tiles) == tiles,
    decreases tiles.len(),
{
    if tiles.len() >= 2 {
        if tiles[0] == tiles[1] {
            lemma_merge_pairs(tiles.skip(2), bound);
        } else {
            lemma_merge_pairs(tiles.skip(1), bound);
            if merge_pairs(tiles).len() == tiles.len() {
                assert(merge_pairs(tiles) =~= tiles);
            }
        }
    }
}

/// A slide of a row whose cells fit a nibble gives cells of at most 16.
pub proof fn lemma_slide_bound(row: [u16; 4])
    requires
        row_at_most(row, MAX_EXPONENT as int),
    ensures
        row_at_most(slide_left(row), MAX_MERGED as int),
        row_at_most(slide_right(row), MAX_MERGED as int),
{
    lemma_compact(row@, MAX_EXPONENT as int);
    lemma_merge_pairs(compact(row@), MAX_EXPONENT as int);
    let mirror = reversed(row);
    lemma_compact(mirror@, MAX_EXPONENT as int);
    lemma_merge_pairs(compact(mirror@), MAX_EXPONENT as int);
}

/// A slide leaves a settled row as it is.
pub proof fn lemma_slide_left_settled(row: [u16; 4])
    requires
        settled(row),
    ensures
        slide_left(row) == row,
{
    reveal_with_fuel(compact, 5);
    reveal_with_fuel(merge_pairs, 5);
    assert(slide_left(row) =~= row);
}

/// Sliding to one end is sliding to the other end in the mirror.
pub proof fn lemma_slide_right_mirrors_left(row: [u16; 4])
    ensures
        slide_right(row) == reversed(slide_left(reversed(row))),
        slide_left(row) == reversed(slide_right(reversed(row))),
{
    assert(reversed(reversed(row)) =~= row);
    assert(reversed(reversed(slide_left(row))) =~= slide_left(row));
}

/// A slide that changes a row leaves empty the cell at the end it moves
/// away from.
pub proof fn lemma_slide_makes_room(row: [u16; 4])
    ensures
        slide_left(row) != row ==> slide_left(row)[3] == 0,
        slide_right(row) != row ==> slide_right(row)[0] == 0,
{
    lemma_slide_left_makes_room(row);
    let mirror = reversed(row);
    lemma_slide_left_makes_room(mirror);
    if slide_left(mirror) == mirror {
        assert(reversed(mirror) =~= row);
    }
}

/// A slide to the first cell that changes a row leaves the last cell empty.
proof fn lemma_slide_left_makes_room(row: [u16; 4])
    ensures
        slide_left(row) != row ==> slide_left(row)[3] == 0,
{
    let tiles = compact(row@);
    let merged = merge_pairs(tiles);
    lemma_compact(row@, u16::MAX as int);
    lemma_merge_pairs(tiles, u16::MAX as int);
    if merged.len() == 4 {
        assert(tiles == row@);
        assert(merged == row@);
        assert(slide_left(row) =~= row);
    }
}

/// Reads the row from its other end.
pub fn reverse(row: [u16; 4]) -> (r: [u16; 4])
    ensures
        r == reversed(row),
{
    [row[3], row[2], row[1], row[0]]
}

/// Decodes a 16-bit row code into its four cells.
pub fn unpack_row(code: u16) -> (r: [u16; 4])
    ensures
        r == row_cells(code),
        row_at_most(r, MAX_EXPONENT as int),
{
    proof {
        lemma_row_cells_round_trip(code);
    }
    [code / 4096, (code / 256) % 16, (code / 16) % 16, code % 16]
}

/// Slides the tiles of a row to its first cell: zeros drop out, then each
/// tile that equals the tile kept before it, unless that one came from a
/// merge in this pass, joins it as one tile a step higher; zeros fill the
/// end.
pub fn merge(row: [u16; 4]) -> (r: [u16; 4])
    requires
        row_at_most(row, MAX_EXPONENT as int),
    ensures
        r == slide_left(row),
        row_at_most(r, MAX_MERGED as int),
{
    let mut arr: Vec<u16> = Vec::new();
    let mut single = false;
    for i in 0..4usize
        invariant
            row_at_most(row, MAX_EXPONENT as int),
            arr@ == merge_pairs(compact(row@.take(i as int))),
            single == last_is_single(compact(row@.take(i as int))),
            single ==> arr.len() > 0 && arr@.last() == compact(row@.take(i as int)).last(),
            arr.len() <= i,
            forall|k: int| 0 <= k < arr.len() ==> arr[k] <= MAX_MERGED,
            single ==> arr@.last() <= MAX_EXPONENT,
    {
        let value = row[i];
        proof {
            let before = row@.take(i as int);
            let after = row@.take(i + 1);
            assert(after.drop_last() =~= before);
            assert(after.last() == value);
            lemma_merge_pairs_push(compact(before), value);
        }
        if value != 0 {
            if single && arr[arr.len() - 1] == value {
                let last = arr.pop().unwrap();
                arr.push(last + 1);
                single = false;
            } else {
                arr.push(value);
                single = true;
            }
        }
    }
    assert(row@.take(4) =~= row@);
    let ghost tiles = arr@;
    while arr.len() < 4
        invariant
            tiles.len() <= arr.len() <= 4,
            arr@.take(tiles.len() as int) == tiles,
            forall|k: int| tiles.len() <= k < arr.len() ==> arr[k] == 0,
            forall|k: int| 0 <= k < arr.len() ==> arr[k] <= MAX_MERGED,
        decreases 4 - arr.len(),
    {
        arr.push(0);
        assert(arr@.take(tiles.len() as int) =~= tiles);
    }
    let r = [arr[0], arr[1], arr[2], arr[3]];
    proof {
        assert forall|k: int| 0 <= k < tiles.len() implies arr[k] == tiles[k] by {
            assert(arr@.take(tiles.len() as int)[k] == arr[k]);
        }
        assert(r =~= padded(tiles));
    }
    r
}

/// Slides the tiles of a row to its first cell.
pub fn move_left(row: [u16; 4]) -> (r: [u16; 4])
    requires
        row_at_most(row, MAX_EXPONENT as int),
    ensures
        r == slide_left(row),
        row_at_most(r, MAX_MERGED as int),
{
    merge(row)
}

/// Slides the tiles of a row to its last cell.
pub fn move_right(row: [u16; 4]) -> (r: [u16; 4])
    requires
        row_at_most(row, MAX_EXPONENT as int),
    ensures
        r == slide_right(row),
        row_at_most(r, MAX_MERGED as int),
{
    reverse(merge(reverse(row)))
}

} // verus!
