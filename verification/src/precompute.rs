//! The two row tables and the move engine that reads them.

use crate::game::{
    lemma_empty_cell_listed, lemma_transpose_involution, Direction, State,
};
use crate::row::{
    lemma_row_cells_round_trip, lemma_row_code_round_trip, lemma_slide_bound,
    lemma_slide_makes_room, move_left, move_right, reversed, row_cells, row_code, slide,
    slide_left, slide_right, unpack_row,
};
use vstd::prelude::*;

verus! {

/// The number of 16-bit row codes.
pub const ROW_CODES: usize = 65536;

/// `table` holds, for each of the 65536 row codes, the row that the code
/// stands for after the slide.
pub open spec fn holds_slides(table: Seq<[u16; 4]>, to_right: bool) -> bool {
    &&& table.len() == ROW_CODES
    &&& forall|code: int|
        0 <= code < ROW_CODES ==> #[trigger] table[code] == slide(row_cells(code as u16), to_right)
}

/// The rows that four codes stand for, as a board.
pub open spec fn decoded(codes: (u16, u16, u16, u16)) -> State {
    State { grid: [row_cells(codes.0), row_cells(codes.1), row_cells(codes.2), row_cells(codes.3)] }
}

/// The rows that four codes stand for, each after the slide, as a board.
pub open spec fn slid_rows(codes: (u16, u16, u16, u16), to_right: bool) -> State {
    State {
        grid: [
            slide(row_cells(codes.0), to_right),
            slide(row_cells(codes.1), to_right),
            slide(row_cells(codes.2), to_right),
            slide(row_cells(codes.3), to_right),
        ],
    }
}

/// The board that a move makes of the rows and columns given by their codes.
/// Left and Right slide the rows. Up and Down slide the columns as if they
/// were rows and transpose the outcome. `Invalid` transforms nothing.
pub open spec fn shifted(
    rows: (u16, u16, u16, u16),
    cols: (u16, u16, u16, u16),
    direction: Direction,
) -> State {
    match direction {
        Direction::Left => slid_rows(rows, false),
        Direction::Right => slid_rows(rows, true),
        Direction::Up => slid_rows(cols, false).transposed(),
        Direction::Down => slid_rows(cols, true).transposed(),
        Direction::Invalid => decoded(rows),
    }
}

/// The board after a move, found through the codes of its rows and columns.
pub open spec fn moved(state: State, direction: Direction) -> State {
    if direction == Direction::Invalid {
        state
    } else {
        shifted(state.row_codes(), state.col_codes(), direction)
    }
}

/// No direction changes the board.
pub open spec fn is_terminal(state: State) -> bool {
    forall|direction: Direction| #[trigger] moved(state, direction) == state
}

/// `moves`, and after it the move in `direction` where that move is legal:
/// where it changes the board.
pub open spec fn with_move(
    moves: Seq<(Direction, State)>,
    state: State,
    direction: Direction,
) -> Seq<(Direction, State)> {
    if moved(state, direction) != state {
        moves.push((direction, moved(state, direction)))
    } else {
        moves
    }
}

/// The legal moves of a board in the order Left, Right, Up, Down, each with
/// the board it leads to.
pub open spec fn legal_moves(state: State) -> Seq<(Direction, State)> {
    with_move(
        with_move(
            with_move(with_move(Seq::empty(), state, Direction::Left), state, Direction::Right),
            state,
            Direction::Up,
        ),
        state,
        Direction::Down,
    )
}

/// The legal moves in a buffer of four slots; the unused slots hold
/// `Invalid` with the board itself.
pub open spec fn move_buffer(state: State) -> Seq<(Direction, State)> {
    Seq::new(
        4,
        |i: int|
            if i < legal_moves(state).len() {
                legal_moves(state)[i]
            } else {
                (Direction::Invalid, state)
            },
    )
}

/// Whatever the board, a move leaves no cell above 16: a slide reads cells
/// that fit a nibble and raises a tile by one step at most.
pub proof fn lemma_shifted_bound(
    rows: (u16, u16, u16, u16),
    cols: (u16, u16, u16, u16),
    direction: Direction,
)
    ensures
        shifted(rows, cols, direction).bounded(),
{
    lemma_row_cells_round_trip(rows.0);
    lemma_row_cells_round_trip(rows.1);
    lemma_row_cells_round_trip(rows.2);
    lemma_row_cells_round_trip(rows.3);
    lemma_row_cells_round_trip(cols.0);
    lemma_row_cells_round_trip(cols.1);
    lemma_row_cells_round_trip(cols.2);
    lemma_row_cells_round_trip(cols.3);
    lemma_slide_bound(row_cells(rows.0));
    lemma_slide_bound(row_cells(rows.1));
    lemma_slide_bound(row_cells(rows.2));
    lemma_slide_bound(row_cells(rows.3));
    lemma_slide_bound(row_cells(cols.0));
    lemma_slide_bound(row_cells(cols.1));
    lemma_slide_bound(row_cells(cols.2));
    lemma_slide_bound(row_cells(cols.3));
}

/// On a board whose cells fit a nibble, Left and Right slide each row, and
/// Up and Down are Left and Right on the transposed board, transposed back.
pub proof fn lemma_moved_well_formed(state: State)
    requires
        state.wf(),
    ensures
        moved(state, Direction::Left) == (State {
            grid: [
                slide_left(state.grid[0]),
                slide_left(state.grid[1]),
                slide_left(state.grid[2]),
                slide_left(state.grid[3]),
            ],
        }),
        moved(state, Direction::Right) == (State {
            grid: [
                slide_right(state.grid[0]),
                slide_right(state.grid[1]),
                slide_right(state.grid[2]),
                slide_right(state.grid[3]),
            ],
        }),
        moved(state, Direction::Up) == moved(state.transposed(), Direction::Left).transposed(),
        moved(state, Direction::Down) == moved(state.transposed(), Direction::Right).transposed(),
{
    lemma_row_code_round_trip(state.grid[0]);
    lemma_row_code_round_trip(state.grid[1]);
    lemma_row_code_round_trip(state.grid[2]);
    lemma_row_code_round_trip(state.grid[3]);
}

/// A board is terminal exactly when it has no legal move, and exactly when
/// the first slot of its move buffer holds `Invalid`. Every listed move
/// names a direction, leads to the board after that move, and changes the
/// board.
pub proof fn lemma_terminal_iff_no_legal_move(state: State)
    ensures
        is_terminal(state) <==> legal_moves(state).len() == 0,
        is_terminal(state) <==> move_buffer(state)[0].0 == Direction::Invalid,
        legal_moves(state).len() <= 4,
        forall|i: int|
            0 <= i < legal_moves(state).len() ==> {
                let entry = #[trigger] legal_moves(state)[i];
                &&& entry.0 != Direction::Invalid
                &&& entry.1 == moved(state, entry.0)
                &&& entry.1 != state
            },
{
    if legal_moves(state).len() == 0 {
        assert forall|direction: Direction| #[trigger] moved(state, direction) == state by {
            match direction {
                Direction::Left => {},
                Direction::Right => {},
                Direction::Up => {},
                Direction::Down => {},
                Direction::Invalid => {},
            }
        }
    } else {
        assert(moved(state, Direction::Left) != state || moved(state, Direction::Right) != state
            || moved(state, Direction::Up) != state || moved(state, Direction::Down) != state);
    }
}

/// The boards in the move buffer of a board without a cell above 16 hold no
/// cell above 16.
pub proof fn lemma_move_buffer_bound(state: State)
    requires
        state.bounded(),
    ensures
        move_buffer(state).len() == 4,
        forall|i: int| 0 <= i < 4 ==> (#[trigger] move_buffer(state)[i]).1.bounded(),
{
    lemma_terminal_iff_no_legal_move(state);
    assert forall|i: int| 0 <= i < 4 implies (#[trigger] move_buffer(state)[i]).1.bounded() by {
        if i < legal_moves(state).len() {
            let entry = legal_moves(state)[i];
            lemma_shifted_bound(state.row_codes(), state.col_codes(), entry.0);
        }
    }
}

/// In tables of the slides, the entry to the right for a row is the mirror
/// of the entry to the left for the mirrored row.
pub proof fn lemma_right_table_mirrors_left(
    left: Seq<[u16; 4]>,
    right: Seq<[u16; 4]>,
    code: u16,
)
    requires
        holds_slides(left, false),
        holds_slides(right, true),
    ensures
        right[code as int] == reversed(left[row_code(reversed(row_cells(code))) as int]),
{
    lemma_row_cells_round_trip(code);
    let mirror = reversed(row_cells(code));
    lemma_row_code_round_trip(mirror);
}

/// On a board whose cells fit a nibble, a move that changes the board leaves
/// a cell empty for the next tile.
pub proof fn lemma_move_makes_room(state: State, direction: Direction)
    requires
        state.wf(),
        moved(state, direction) != state,
    ensures
        moved(state, direction).empty_tiles().len() > 0,
{
    lemma_transpose_involution(state);
    let across = direction == Direction::Up || direction == Direction::Down;
    let to_right = direction == Direction::Right || direction == Direction::Down;
    let from = if across {
        state.transposed()
    } else {
        state
    };
    let slid = slid_rows(from.row_codes(), to_right);
    lemma_row_code_round_trip(from.grid[0]);
    lemma_row_code_round_trip(from.grid[1]);
    lemma_row_code_round_trip(from.grid[2]);
    lemma_row_code_round_trip(from.grid[3]);
    lemma_slide_makes_room(from.grid[0]);
    lemma_slide_makes_room(from.grid[1]);
    lemma_slide_makes_room(from.grid[2]);
    lemma_slide_makes_room(from.grid[3]);
    if slid == from {
        assert(moved(state, direction) == state);
    }
    let y = if slid.grid[0] != from.grid[0] {
        0int
    } else if slid.grid[1] != from.grid[1] {
        1int
    } else if slid.grid[2] != from.grid[2] {
        2int
    } else {
        3int
    };
    if slid.grid[y] == from.grid[y] {
        assert(slid.grid =~= from.grid);
    }
    let x = if to_right {
        0int
    } else {
        3int
    };
    assert(slid.grid[y][x] == 0);
    if across {
        lemma_empty_cell_listed(moved(state, direction), y, x, 16);
    } else {
        lemma_empty_cell_listed(moved(state, direction), x, y, 16);
    }
}

/// The two row tables: for each 16-bit row code, the row after a slide to
/// the left and after a slide to the right.
pub struct Precomputed {
    move_left: Vec<[u16; 4]>,
    move_right: Vec<[u16; 4]>,
}

impl Precomputed {
    #[verifier::type_invariant]
    spec fn tables_hold_slides(&self) -> bool {
        &&& holds_slides(self.move_left@, false)
        &&& holds_slides(self.move_right@, true)
    }

    /// The table of slides to the left.
    pub closed spec fn left_table(&self) -> Seq<[u16; 4]> {
        self.move_left@
    }

    /// The table of slides to the right.
    pub closed spec fn right_table(&self) -> Seq<[u16; 4]> {
        self.move_right@
    }

    /// The table of slides to the left, indexed by row code.
    pub fn move_left_table(&self) -> (r: &Vec<[u16; 4]>)
        ensures
            r@ == self.left_table(),
            holds_slides(r@, false),
    {
        proof {
            use_type_invariant(self);
        }
        &self.move_left
    }

    /// The table of slides to the right, indexed by row code.
    pub fn move_right_table(&self) -> (r: &Vec<[u16; 4]>)
        ensures
            r@ == self.right_table(),
            holds_slides(r@, true),
    {
        proof {
            use_type_invariant(self);
        }
        &self.move_right
    }
}

/// Computes one table: the slide of every row, indexed by its code.
fn precompute_move(to_right: bool) -> (table: Vec<[u16; 4]>)
    ensures
        holds_slides(table@, to_right),
{
    let mut table: Vec<[u16; 4]> = Vec::with_capacity(ROW_CODES);
    let mut code: usize = 0;
    while code < ROW_CODES
        invariant
            code <= ROW_CODES,
            table.len() == code,
            forall|c: int|
                0 <= c < code ==> #[trigger] table@[c] == slide(row_cells(c as u16), to_right),
        decreases ROW_CODES - code,
    {
        let row = unpack_row(code as u16);
        proof {
            lemma_row_cells_round_trip(code as u16);
        }
        let result = if to_right {
            move_right(row)
        } else {
            move_left(row)
        };
        table.push(result);
        code += 1;
    }
    table
}

/// Computes both row tables.
pub fn precompute() -> (precomputed: Precomputed)
    ensures
        holds_slides(precomputed.left_table(), false),
        holds_slides(precomputed.right_table(), true),
{
    let move_left = precompute_move(false);
    let move_right = precompute_move(true);
    Precomputed { move_left, move_right }
}

/// Whether two rows hold the same cells.
fn rows_equal(a: &[u16; 4], b: &[u16; 4]) -> (r: bool)
    ensures
        r == (*a == *b),
{
    let same = a[0] == b[0] && a[1] == b[1] && a[2] == b[2] && a[3] == b[3];
    assert(same == (*a =~= *b));
    same
}

/// Whether a table holds the slide of every row.
fn table_holds_slides(table: &Vec<[u16; 4]>, to_right: bool) -> (r: bool)
    ensures
        r == holds_slides(table@, to_right),
{
    if table.len() != ROW_CODES {
        return false;
    }
    let mut code: usize = 0;
    while code < ROW_CODES
        invariant
            code <= ROW_CODES,
            table.len() == ROW_CODES,
            forall|c: int|
                0 <= c < code ==> #[trigger] table@[c] == slide(row_cells(c as u16), to_right),
        decreases ROW_CODES - code,
    {
        let row = unpack_row(code as u16);
        proof {
            lemma_row_cells_round_trip(code as u16);
        }
        let expected = if to_right {
            move_right(row)
        } else {
            move_left(row)
        };
        if !rows_equal(&table[code], &expected) {
            assert(table@[code as int] != slide(row_cells(code as u16), to_right));
            return false;
        }
        code += 1;
    }
    true
}

/// Takes over two stored tables where they are the tables of the slides,
/// entry for entry; otherwise there is no table, and the caller computes it.
pub fn load_precomputed(move_left: Vec<[u16; 4]>, move_right: Vec<[u16; 4]>) -> (r: Option<
    Precomputed,
>)
    ensures
        r is Some <==> holds_slides(move_left@, false) && holds_slides(move_right@, true),
        r matches Some(precomputed) ==> precomputed.left_table() == move_left@
            && precomputed.right_table() == move_right@,
{
    if table_holds_slides(&move_left, false) && table_holds_slides(&move_right, true) {
        Some(Precomputed { move_left, move_right })
    } else {
        None
    }
}

/// Applies a move to the board whose rows and columns have the given codes.
pub fn move_state(
    rows: (u16, u16, u16, u16),
    cols: (u16, u16, u16, u16),
    direction: Direction,
    precomputed: &Precomputed,
) -> (r: State)
    requires
        direction != Direction::Invalid,
    ensures
        r == shifted(rows, cols, direction),
        r.bounded(),
{
    proof {
        use_type_invariant(precomputed);
        lemma_shifted_bound(rows, cols, direction);
    }
    match direction {
        Direction::Left => State {
            grid: [
                precomputed.move_left[rows.0 as usize],
                precomputed.move_left[rows.1 as usize],
                precomputed.move_left[rows.2 as usize],
                precomputed.move_left[rows.3 as usize],
            ],
        },
        Direction::Right => State {
            grid: [
                precomputed.move_right[rows.0 as usize],
                precomputed.move_right[rows.1 as usize],
                precomputed.move_right[rows.2 as usize],
                precomputed.move_right[rows.3 as usize],
            ],
        },
        Direction::Up => State {
            grid: [
                precomputed.move_left[cols.0 as usize],
                precomputed.move_left[cols.1 as usize],
                precomputed.move_left[cols.2 as usize],
                precomputed.move_left[cols.3 as usize],
            ],
        }.transpose(),
        _ => State {
            grid: [
                precomputed.move_right[cols.0 as usize],
                precomputed.move_right[cols.1 as usize],
                precomputed.move_right[cols.2 as usize],
                precomputed.move_right[cols.3 as usize],
            ],
        }.transpose(),
    }
}

/// Lists the legal moves of a board in the order Left, Right, Up, Down, each
/// with the board it leads to. Unused slots hold `Invalid` and the board.
pub fn get_possible_moves(state: State, precomputed: &Precomputed) -> (moves: [(
    Direction,
    State,
); 4])
    ensures
        moves@ == move_buffer(state),
{
    let rows = state.row_ints();
    let cols = state.col_ints();

    let mut moves = [(Direction::Invalid, state);4];
    let mut index: usize = 0;
    let left = move_state(rows, cols, Direction::Left, precomputed);
    if left != state {
        moves[index] = (Direction::Left, left);
        index += 1;
    }
    let right = move_state(rows, cols, Direction::Right, precomputed);
    if right != state {
        moves[index] = (Direction::Right, right);
        index += 1;
    }
    let up = move_state(rows, cols, Direction::Up, precomputed);
    if up != state {
        moves[index] = (Direction::Up, up);
        index += 1;
    }
    let down = move_state(rows, cols, Direction::Down, precomputed);
    if down != state {
        moves[index] = (Direction::Down, down);
    }
    assert(moves@ =~= move_buffer(state));
    moves
}

/// Whether no move changes the board.
pub fn is_game_over(state: State, precomputed: &Precomputed) -> (r: bool)
    ensures
        r == is_terminal(state),
{
    let rows = state.row_ints();
    if move_state(rows, rows, Direction::Left, precomputed) != state {
        assert(moved(state, Direction::Left) != state);
        return false;
    }
    let cols = state.col_ints();
    if move_state(rows, cols, Direction::Right, precomputed) != state {
        assert(moved(state, Direction::Right) != state);
        return false;
    }
    if move_state(rows, cols, Direction::Up, precomputed) != state {
        assert(moved(state, Direction::Up) != state);
        return false;
    }
    if move_state(rows, cols, Direction::Down, precomputed) != state {
        assert(moved(state, Direction::Down) != state);
        return false;
    }
    assert forall|direction: Direction| #[trigger] moved(state, direction) == state by {
        match direction {
            Direction::Left => {},
            Direction::Right => {},
            Direction::Up => {},
            Direction::Down => {},
            Direction::Invalid => {},
        }
    }
    true
}

} // verus!
