//! The board: a 4x4 grid of exponents, its packed codes, its empty cells,
//! its score, and the tiles that appear on it.

use crate::random::{random_index, random_ratio};
use crate::row::{
    lemma_row_cells_round_trip, lemma_row_code_round_trip, row_at_most, row_cells, row_code,
    row_updated, unpack_row, MAX_EXPONENT, MAX_MERGED,
};
use vstd::arithmetic::power2::pow2;
use vstd::prelude::*;

verus! {

/// A move direction. `Invalid` marks an unused slot of a move buffer and
/// never selects a transformation.
#[derive(Debug, Clone, Copy, PartialEq, Eq, Hash, Structural)]
pub enum Direction {
    Left,
    Right,
    Up,
    Down,
    Invalid,
}

/// A board. `grid[y][x]` holds the exponent of the tile in row `y`, column
/// `x`: exponent `e > 0` is the tile `2^e`, and `0` is an empty cell.
#[derive(Debug, Clone, Copy, Eq, Hash)]
pub struct State {
    pub grid: [[u16; 4]; 4],
}

impl PartialEq for State {
    /// Two boards are equal when all sixteen cells agree.
    fn eq(&self, other: &State) -> (r: bool) {
        let mut same = true;
        for y in 0..4usize
            invariant
                same == (forall|i: int, j: int|
                    0 <= i < y && 0 <= j < 4 ==> self.grid[i][j] == other.grid[i][j]),
        {
            for x in 0..4usize
                invariant
                    y < 4,
                    same == ((forall|i: int, j: int|
                        0 <= i < y && 0 <= j < 4 ==> self.grid[i][j] == other.grid[i][j])
                        && (forall|j: int|
                        0 <= j < x ==> self.grid[y as int][j] == other.grid[y as int][j])),
            {
                if self.grid[y][x] != other.grid[y][x] {
                    same = false;
                }
            }
        }
        assert(same == (self.grid == other.grid)) by {
            if same {
                assert(self.grid[0] =~= other.grid[0]);
                assert(self.grid[1] =~= other.grid[1]);
                assert(self.grid[2] =~= other.grid[2]);
                assert(self.grid[3] =~= other.grid[3]);
                assert(self.grid =~= other.grid);
            }
        }
        same
    }
}

impl vstd::std_specs::cmp::PartialEqSpecImpl for State {
    open spec fn obeys_eq_spec() -> bool {
        true
    }

    open spec fn eq_spec(&self, other: &State) -> bool {
        *self == *other
    }
}

/// What a tile of exponent `exponent` adds to the score.
pub open spec fn tile_score(exponent: u16) -> int {
    if exponent == 0 {
        0
    } else {
        (exponent - 1) * pow2(exponent as nat)
    }
}

/// The score of the first `x` cells of a row.
pub open spec fn row_score_before(row: [u16; 4], x: int) -> int {
    (if x > 0 { tile_score(row[0]) } else { 0 })
    + (if x > 1 { tile_score(row[1]) } else { 0 })
    + (if x > 2 { tile_score(row[2]) } else { 0 })
    + (if x > 3 { tile_score(row[3]) } else { 0 })
}

/// The score of a row.
pub open spec fn row_score(row: [u16; 4]) -> int {
    row_score_before(row, 4)
}

/// A bound that holds after a new tile: `bound`, but two at least.
pub open spec fn larger_bound(bound: int) -> int {
    if bound >= 2 {
        bound
    } else {
        2
    }
}

impl State {
    /// Every cell is at most `bound`.
    pub open spec fn at_most(self, bound: int) -> bool {
        &&& row_at_most(self.grid[0], bound)
        &&& row_at_most(self.grid[1], bound)
        &&& row_at_most(self.grid[2], bound)
        &&& row_at_most(self.grid[3], bound)
    }

    /// Every exponent fits a nibble, so the packed codes are faithful.
    pub open spec fn wf(self) -> bool {
        self.at_most(MAX_EXPONENT as int)
    }

    /// No exponent is above 16. Moves and new tiles keep this, and a board
    /// within it can be scored.
    pub open spec fn bounded(self) -> bool {
        self.at_most(MAX_MERGED as int)
    }

    /// The board without a tile.
    pub open spec fn blank() -> State {
        State { grid: [[0, 0, 0, 0], [0, 0, 0, 0], [0, 0, 0, 0], [0, 0, 0, 0]] }
    }

    /// The board mirrored across its main diagonal.
    pub open spec fn transposed(self) -> State {
        State {
            grid: [
                [self.grid[0][0], self.grid[1][0], self.grid[2][0], self.grid[3][0]],
                [self.grid[0][1], self.grid[1][1], self.grid[2][1], self.grid[3][1]],
                [self.grid[0][2], self.grid[1][2], self.grid[2][2], self.grid[3][2]],
                [self.grid[0][3], self.grid[1][3], self.grid[2][3], self.grid[3][3]],
            ],
        }
    }

    /// The board with the cell in column `x` of row `y` replaced by `value`.
    pub open spec fn updated(self, x: int, y: int, value: u16) -> State {
        State {
            grid: [
                if y == 0 { row_updated(self.grid[0], x, value) } else { self.grid[0] },
                if y == 1 { row_updated(self.grid[1], x, value) } else { self.grid[1] },
                if y == 2 { row_updated(self.grid[2], x, value) } else { self.grid[2] },
                if y == 3 { row_updated(self.grid[3], x, value) } else { self.grid[3] },
            ],
        }
    }

    /// The codes of the four rows, top to bottom.
    pub open spec fn row_codes(self) -> (u16, u16, u16, u16) {
        (
            row_code(self.grid[0]),
            row_code(self.grid[1]),
            row_code(self.grid[2]),
            row_code(self.grid[3]),
        )
    }

    /// The codes of the four columns, left to right, each read top to bottom.
    pub open spec fn col_codes(self) -> (u16, u16, u16, u16) {
        self.transposed().row_codes()
    }

    /// The board as one 64-bit code: the row codes, the top row highest.
    pub open spec fn packed(self) -> u64 {
        let codes = self.row_codes();
        (codes.0 * 0x1_0000_0000_0000 + codes.1 * 0x1_0000_0000 + codes.2 * 0x1_0000
            + codes.3) as u64
    }

    /// The board that a 64-bit code holds.
    pub open spec fn unpacked(code: u64) -> State {
        State {
            grid: [
                row_cells((code / 0x1_0000_0000_0000) as u16),
                row_cells(((code / 0x1_0000_0000) % 0x1_0000) as u16),
                row_cells(((code / 0x1_0000) % 0x1_0000) as u16),
                row_cells((code % 0x1_0000) as u16),
            ],
        }
    }

    /// The empty cells among the first `n` cells in row-major order, each as
    /// (column, row).
    pub open spec fn empty_before(self, n: nat) -> Seq<(u16, u16)>
        decreases n,
    {
        if n == 0 {
            Seq::empty()
        } else {
            let p = (n - 1) as int;
            let rest = self.empty_before(p as nat);
            if self.grid[p / 4][p % 4] == 0 {
                rest.push(((p % 4) as u16, (p / 4) as u16))
            } else {
                rest
            }
        }
    }

    /// The empty cells in row-major order, each as (column, row).
    pub open spec fn empty_tiles(self) -> Seq<(u16, u16)> {
        self.empty_before(16)
    }

    /// The board with a new tile on one of its empty cells: the cell is the
    /// `pick`-th in row-major order, counted round and round, and the tile
    /// is a 2 (exponent 1) where `small`, else a 4 (exponent 2). A board
    /// without an empty cell stays as it is.
    pub open spec fn spawned(self, pick: int, small: bool) -> State {
        let empty = self.empty_tiles();
        if empty.len() == 0 {
            self
        } else {
            let tile = empty[pick % (empty.len() as int)];
            self.updated(
                tile.0 as int,
                tile.1 as int,
                if small {
                    1
                } else {
                    2
                },
            )
        }
    }

    /// A board that a game can start from: the blank board with two new
    /// tiles.
    #[verifier::opaque]
    pub open spec fn opening(state: State) -> bool {
        exists|first: int, small: bool, second: int, also_small: bool|
            0 <= first && 0 <= second && state == #[trigger] State::blank().spawned(
                first,
                small,
            ).spawned(second, also_small)
    }

    /// The score of the board: each tile of exponent `e` counts
    /// `(e - 1) * 2^e`.
    pub open spec fn score(self) -> int {
        row_score(self.grid[0]) + row_score(self.grid[1]) + row_score(self.grid[2]) + row_score(
            self.grid[3],
        )
    }

    /// The score of the rows above row `y`.
    pub open spec fn score_above(self, y: int) -> int {
        (if y > 0 { row_score(self.grid[0]) } else { 0 })
        + (if y > 1 { row_score(self.grid[1]) } else { 0 })
        + (if y > 2 { row_score(self.grid[2]) } else { 0 })
        + (if y > 3 { row_score(self.grid[3]) } else { 0 })
    }

    /// The exponent in column `x` of row `y`.
    pub fn index(&self, x: u16, y: u16) -> (r: u16)
        requires
            x < 4,
            y < 4,
        ensures
            r == self.grid[y as int][x as int],
    {
        self.grid[y as usize][x as usize]
    }

    /// Replaces the cell in column `x` of row `y`.
    pub fn set_cell(&self, x: u16, y: u16, value: u16) -> (r: State)
        requires
            x < 4,
            y < 4,
        ensures
            r == self.updated(x as int, y as int, value),
    {
        let mut new_state = *self;
        new_state.grid[y as usize][x as usize] = value;
        proof {
            let u = self.updated(x as int, y as int, value);
            assert(new_state.grid[0] =~= u.grid[0]);
            assert(new_state.grid[1] =~= u.grid[1]);
            assert(new_state.grid[2] =~= u.grid[2]);
            assert(new_state.grid[3] =~= u.grid[3]);
            assert(new_state.grid =~= u.grid);
        }
        new_state
    }

    /// Packs each row into its 16-bit code.
    pub fn row_ints(&self) -> (r: (u16, u16, u16, u16))
        ensures
            r == self.row_codes(),
    {
        (
            (self.grid[0][0] << 12) | (self.grid[0][1] << 8) | self.grid[0][2] << 4
                | self.grid[0][3],
            (self.grid[1][0] << 12) | (self.grid[1][1] << 8) | self.grid[1][2] << 4
                | self.grid[1][3],
            (self.grid[2][0] << 12) | (self.grid[2][1] << 8) | self.grid[2][2] << 4
                | self.grid[2][3],
            (self.grid[3][0] << 12) | (self.grid[3][1] << 8) | self.grid[3][2] << 4
                | self.grid[3][3],
        )
    }

    /// Packs each column into its 16-bit code.
    pub fn col_ints(&self) -> (r: (u16, u16, u16, u16))
        ensures
            r == self.col_codes(),
    {
        (
            (self.grid[0][0] << 12) | (self.grid[1][0] << 8) | self.grid[2][0] << 4
                | self.grid[3][0],
            (self.grid[0][1] << 12) | (self.grid[1][1] << 8) | self.grid[2][1] << 4
                | self.grid[3][1],
            (self.grid[0][2] << 12) | (self.grid[1][2] << 8) | self.grid[2][2] << 4
                | self.grid[3][2],
            (self.grid[0][3] << 12) | (self.grid[1][3] << 8) | self.grid[2][3] << 4
                | self.grid[3][3],
        )
    }

    /// Swaps rows and columns.
    pub fn transpose(&self) -> (r: State)
        ensures
            r == self.transposed(),
    {
        let mut new_state = State { grid: [[0;4];4] };
        for y in 0..4usize
            invariant
                forall|i: int, j: int|
                    0 <= i < y && 0 <= j < 4 ==> new_state.grid[j][i] == self.grid[i][j],
        {
            for x in 0..4usize
                invariant
                    y < 4,
                    forall|i: int, j: int|
                        0 <= i < y && 0 <= j < 4 ==> new_state.grid[j][i] == self.grid[i][j],
                    forall|j: int|
                        0 <= j < x ==> new_state.grid[j][y as int] == self.grid[y as int][j],
            {
                new_state.grid[x][y] = self.grid[y][x];
            }
        }
        proof {
            let t = self.transposed();
            assert(new_state.grid[0] =~= t.grid[0]);
            assert(new_state.grid[1] =~= t.grid[1]);
            assert(new_state.grid[2] =~= t.grid[2]);
            assert(new_state.grid[3] =~= t.grid[3]);
            assert(new_state.grid =~= t.grid);
        }
        new_state
    }

    /// Packs the board into its 64-bit code.
    pub fn pack(&self) -> (r: u64)
        ensures
            r == self.packed(),
    {
        let codes = self.row_ints();
        (codes.0 as u64) * 0x1_0000_0000_0000 + (codes.1 as u64) * 0x1_0000_0000 + (
        codes.2 as u64) * 0x1_0000 + (codes.3 as u64)
    }

    /// Unpacks a 64-bit code into the board it holds.
    pub fn unpack(code: u64) -> (r: State)
        ensures
            r == State::unpacked(code),
            r.wf(),
    {
        let top = (code / 0x1_0000_0000_0000) as u16;
        let upper = ((code / 0x1_0000_0000) % 0x1_0000) as u16;
        let lower = ((code / 0x1_0000) % 0x1_0000) as u16;
        let bottom = (code % 0x1_0000) as u16;
        State { grid: [unpack_row(top), unpack_row(upper), unpack_row(lower), unpack_row(bottom)] }
    }

    /// Whether every cell is at most `bound`.
    pub fn all_at_most(&self, bound: u16) -> (r: bool)
        ensures
            r == self.at_most(bound as int),
    {
        let mut all = true;
        for y in 0..4usize
            invariant
                all == (forall|i: int, j: int|
                    0 <= i < y && 0 <= j < 4 ==> self.grid[i][j] <= bound),
        {
            for x in 0..4usize
                invariant
                    y < 4,
                    all == ((forall|i: int, j: int|
                        0 <= i < y && 0 <= j < 4 ==> self.grid[i][j] <= bound) && (forall|j: int|
                        0 <= j < x ==> self.grid[y as int][j] <= bound)),
            {
                if self.grid[y][x] > bound {
                    all = false;
                }
            }
        }
        all
    }

    /// Lists the empty cells in row-major order, each as (column, row).
    pub fn get_empty_tiles(&self) -> (r: Vec<(u16, u16)>)
        ensures
            r@ == self.empty_tiles(),
    {
        let mut empty_tiles = Vec::new();
        for y in 0..4u16
            invariant
                empty_tiles@ == self.empty_before((4 * y) as nat),
        {
            for x in 0..4u16
                invariant
                    y < 4,
                    empty_tiles@ == self.empty_before((4 * y + x) as nat),
            {
                if self.grid[y as usize][x as usize] == 0 {
                    empty_tiles.push((x, y));
                }
            }
        }
        empty_tiles
    }

    /// Puts a new tile on the `pick`-th empty cell, counted round and round:
    /// a 2 where `small`, else a 4. A full board stays as it is.
    pub fn add_tile(&self, pick: usize, small: bool) -> (r: State)
        ensures
            r == self.spawned(pick as int, small),
    {
        let empty_tiles = self.get_empty_tiles();
        if empty_tiles.len() == 0 {
            return *self;
        }
        let index = pick % empty_tiles.len();
        let (x, y) = empty_tiles[index];
        proof {
            lemma_empty_before(*self, 16);
        }
        let value = if small {
            1
        } else {
            2
        };
        self.set_cell(x, y, value)
    }

    /// Puts a new tile on an empty cell, each with the same chance: a 2 nine
    /// times in ten, else a 4. A full board stays as it is.
    pub fn add_random_tile(&self) -> (r: State)
        ensures
            exists|pick: int, small: bool| 0 <= pick && r == #[trigger] self.spawned(pick, small),
    {
        let pick = random_index();
        let small = random_ratio(9, 10);
        let r = self.add_tile(pick, small);
        assert(r == self.spawned(pick as int, small));
        r
    }

    /// A board to start from: two random tiles on the blank board.
    pub fn new() -> (r: State)
        ensures
            State::opening(r),
            r.empty_tiles().len() == 14,
            r.at_most(2),
            r.bounded(),
    {
        let state = State { grid: [[0;4];4] };
        proof {
            assert(state.grid[0] =~= State::blank().grid[0]);
            assert(state.grid[1] =~= State::blank().grid[1]);
            assert(state.grid[2] =~= State::blank().grid[2]);
            assert(state.grid[3] =~= State::blank().grid[3]);
            assert(state.grid =~= State::blank().grid);
            lemma_blank();
        }
        let pick = random_index();
        let small = random_ratio(9, 10);
        let with_one = state.add_tile(pick, small);
        proof {
            lemma_spawned(state, pick as int, small, 0);
        }
        let again = random_index();
        let also_small = random_ratio(9, 10);
        let with_two = with_one.add_tile(again, also_small);
        proof {
            lemma_spawned(with_one, again as int, also_small, 2);
            assert(with_two == State::blank().spawned(pick as int, small).spawned(
                again as int,
                also_small,
            ));
            reveal(State::opening);
        }
        with_two
    }

    /// The score of the board: each tile of exponent `e` counts
    /// `(e - 1) * 2^e`.
    pub fn get_score(&self) -> (r: u64)
        requires
            self.bounded(),
        ensures
            r == self.score(),
    {
        let mut score: u64 = 0;
        for y in 0..4usize
            invariant
                self.bounded(),
                score == self.score_above(y as int),
                score <= y * 0x3C_0000,
        {
            let ghost above = score;
            for x in 0..4usize
                invariant
                    y < 4,
                    self.bounded(),
                    above == self.score_above(y as int),
                    above <= y * 0x3C_0000,
                    score == above + row_score_before(self.grid[y as int], x as int),
                    score <= above + x * 0xF_0000,
            {
                let value = self.grid[y][x];
                proof {
                    lemma_cell_at_most(*self, x as int, y as int, MAX_MERGED as int);
                    lemma_tile_score_bound(value);
                }
                if value > 0 {
                    let steps = (value - 1) as u64;
                    let tile = tile_value(value);
                    assert(steps * tile == tile_score(value)) by (nonlinear_arith)
                        requires
                            steps == value - 1,
                            tile == pow2(value as nat),
                            tile_score(value) == (value - 1) * pow2(value as nat),
                    ;
                    score += steps * tile;
                }
            }
        }
        score
    }
}

/// The value `2^exponent` of a tile.
pub fn tile_value(exponent: u16) -> (r: u64)
    requires
        exponent < 64,
    ensures
        r == pow2(exponent as nat),
{
    proof {
        vstd::bits::lemma_u64_pow2_no_overflow(exponent as nat);
        vstd::bits::lemma_u64_shl_is_mul(1, exponent as u64);
    }
    1u64 << (exponent as u64)
}

/// A bound on all cells is a bound on each.
pub proof fn lemma_cell_at_most(state: State, x: int, y: int, bound: int)
    requires
        state.at_most(bound),
        0 <= x < 4,
        0 <= y < 4,
    ensures
        state.grid[y][x] <= bound,
{
    if y == 0 {
        assert(row_at_most(state.grid[0], bound));
    } else if y == 1 {
        assert(row_at_most(state.grid[1], bound));
    } else if y == 2 {
        assert(row_at_most(state.grid[2], bound));
    } else {
        assert(row_at_most(state.grid[3], bound));
    }
}

/// A tile of exponent at most 16 has a value of at most `2^16` and counts at
/// most `15 * 2^16`.
pub proof fn lemma_tile_score_bound(exponent: u16)
    requires
        exponent <= MAX_MERGED,
    ensures
        pow2(exponent as nat) <= 0x1_0000,
        0 <= tile_score(exponent) <= 0xF_0000,
{
    vstd::arithmetic::power2::lemma2_to64();
    if exponent < 16 {
        vstd::arithmetic::power2::lemma_pow2_strictly_increases(exponent as nat, 16);
    }
    let p = pow2(exponent as nat) as int;
    let e = exponent as int;
    if exponent > 0 {
        assert(0 <= (e - 1) * p <= 0xF_0000) by (nonlinear_arith)
            requires
                0 <= e - 1 <= 15,
                0 <= p <= 0x1_0000,
        ;
    }
}

/// Transposing twice gives the board back, and transposing keeps a bound on
/// the cells.
pub proof fn lemma_transpose_involution(state: State)
    ensures
        state.transposed().transposed() == state,
        forall|bound: int| state.at_most(bound) ==> #[trigger] state.transposed().at_most(bound),
{
    let twice = state.transposed().transposed();
    assert(twice.grid[0] =~= state.grid[0]);
    assert(twice.grid[1] =~= state.grid[1]);
    assert(twice.grid[2] =~= state.grid[2]);
    assert(twice.grid[3] =~= state.grid[3]);
    assert(twice.grid =~= state.grid);
}

/// Packing a board whose cells fit a nibble loses nothing, and every code is
/// the code of the board it unpacks to.
pub proof fn lemma_pack_round_trip(state: State, code: u64)
    ensures
        state.wf() ==> State::unpacked(state.packed()) == state,
        State::unpacked(code).wf(),
        State::unpacked(code).packed() == code,
{
    if state.wf() {
        let (c0, c1, c2, c3) = state.row_codes();
        let p = state.packed();
        assert(p / 0x1_0000_0000_0000 == c0 as u64 && (p / 0x1_0000_0000) % 0x1_0000 == c1 as u64
            && (p / 0x1_0000) % 0x1_0000 == c2 as u64 && p % 0x1_0000 == c3 as u64)
            by (bit_vector)
            requires
                p == (c0 as u64) * 0x1_0000_0000_0000 + (c1 as u64) * 0x1_0000_0000 + (c2 as u64)
                    * 0x1_0000 + (c3 as u64),
        ;
        lemma_row_code_round_trip(state.grid[0]);
        lemma_row_code_round_trip(state.grid[1]);
        lemma_row_code_round_trip(state.grid[2]);
        lemma_row_code_round_trip(state.grid[3]);
        assert(State::unpacked(p).grid =~= state.grid);
    }
    let d0 = code / 0x1_0000_0000_0000;
    let d1 = (code / 0x1_0000_0000) % 0x1_0000;
    let d2 = (code / 0x1_0000) % 0x1_0000;
    let d3 = code % 0x1_0000;
    assert(code == d0 * 0x1_0000_0000_0000 + d1 * 0x1_0000_0000 + d2 * 0x1_0000 + d3 && d0
        < 0x1_0000 && d1 < 0x1_0000 && d2 < 0x1_0000 && d3 < 0x1_0000) by (bit_vector)
        requires
            d0 == code / 0x1_0000_0000_0000,
            d1 == (code / 0x1_0000_0000) % 0x1_0000,
            d2 == (code / 0x1_0000) % 0x1_0000,
            d3 == code % 0x1_0000,
    ;
    lemma_row_cells_round_trip(d0 as u16);
    lemma_row_cells_round_trip(d1 as u16);
    lemma_row_cells_round_trip(d2 as u16);
    lemma_row_cells_round_trip(d3 as u16);
}

/// Two boards whose cells fit a nibble have the same code only if they are
/// the same board.
pub proof fn lemma_pack_injective(a: State, b: State)
    requires
        a.wf(),
        b.wf(),
        a.packed() == b.packed(),
    ensures
        a == b,
{
    lemma_pack_round_trip(a, 0);
    lemma_pack_round_trip(b, 0);
}

/// Every listed empty cell lies on the board among the first `n` cells and
/// holds zero.
pub proof fn lemma_empty_before(state: State, n: nat)
    requires
        n <= 16,
    ensures
        state.empty_before(n).len() <= n,
        forall|i: int|
            0 <= i < state.empty_before(n).len() ==> {
                let tile = #[trigger] state.empty_before(n)[i];
                &&& tile.0 < 4
                &&& tile.1 < 4
                &&& 4 * tile.1 + tile.0 < n
                &&& state.grid[tile.1 as int][tile.0 as int] == 0
            },
    decreases n,
{
    if n > 0 {
        lemma_empty_before(state, (n - 1) as nat);
    }
}

/// A cell that holds zero is listed among the empty cells.
pub proof fn lemma_empty_cell_listed(state: State, x: int, y: int, n: nat)
    requires
        0 <= x < 4,
        0 <= y < 4,
        state.grid[y][x] == 0,
        4 * y + x < n <= 16,
    ensures
        state.empty_before(n).contains((x as u16, y as u16)),
        state.empty_before(n).len() > 0,
    decreases n,
{
    let p = (n - 1) as int;
    if p == 4 * y + x {
        let listed = state.empty_before(n);
        assert(listed[listed.len() - 1] == (x as u16, y as u16));
    } else {
        lemma_empty_cell_listed(state, x, y, p as nat);
        let shorter = state.empty_before(p as nat);
        let i = choose|i: int| 0 <= i < shorter.len() && shorter[i] == (x as u16, y as u16);
        assert(state.empty_before(n)[i] == (x as u16, y as u16));
    }
}

/// Filling an empty cell takes that cell, and no other, from the list of
/// empty cells.
pub proof fn lemma_empty_before_filled(state: State, x: int, y: int, value: u16, n: nat)
    requires
        0 <= x < 4,
        0 <= y < 4,
        state.grid[y][x] == 0,
        value != 0,
        n <= 16,
    ensures
        state.updated(x, y, value).empty_before(n).len() == state.empty_before(n).len() - (if 4
            * y + x < n {
            1int
        } else {
            0int
        }),
    decreases n,
{
    if n > 0 {
        lemma_empty_before_filled(state, x, y, value, (n - 1) as nat);
    }
}

/// A new tile keeps a bound on the cells, if the bound is two at least, and
/// takes one empty cell where there is one.
pub proof fn lemma_spawned(state: State, pick: int, small: bool, bound: int)
    requires
        0 <= pick,
    ensures
        state.at_most(bound) ==> state.spawned(pick, small).at_most(larger_bound(bound)),
        state.empty_tiles().len() > 0 ==> state.spawned(pick, small).empty_tiles().len()
            == state.empty_tiles().len() - 1,
        state.empty_tiles().len() == 0 ==> state.spawned(pick, small) == state,
{
    let empty = state.empty_tiles();
    lemma_empty_before(state, 16);
    if empty.len() > 0 {
        let tile = empty[pick % (empty.len() as int)];
        let value: u16 = if small {
            1
        } else {
            2
        };
        lemma_empty_before_filled(state, tile.0 as int, tile.1 as int, value, 16);
    }
}

/// The blank board has sixteen empty cells.
pub proof fn lemma_blank()
    ensures
        State::blank().empty_tiles().len() == 16,
        State::blank().at_most(0),
{
    reveal_with_fuel(State::empty_before, 17);
}

} // verus!
