use rust_solver::game::{Direction, State};
use rust_solver::row::{move_left, move_right, unpack_row};
use rust_solver::precompute::{
    get_possible_moves, is_game_over, load_precomputed, move_state, precompute, Precomputed,
};

#[test]
fn test_move_state() {
    let precomputed: &Precomputed = &precompute();

    let mut state = State {
        grid: [[3, 4, 5, 6], [0, 0, 5, 6], [1, 1, 1, 1], [0, 5, 5, 0]],
    };
    state = move_state(
        state.row_ints(),
        state.col_ints(),
        Direction::Left,
        precomputed,
    );
    assert_eq!(
        state.grid,
        [[3, 4, 5, 6], [5, 6, 0, 0], [2, 2, 0, 0], [6, 0, 0, 0]]
    );

    state.grid = [[1, 1, 0, 0], [0, 2, 0, 2], [3, 3, 4, 0], [0, 0, 0, 0]];
    state = move_state(
        state.row_ints(),
        state.col_ints(),
        Direction::Right,
        precomputed,
    );
    assert_eq!(
        state.grid,
        [[0, 0, 0, 2], [0, 0, 0, 3], [0, 0, 4, 4], [0, 0, 0, 0]]
    );

    state.grid = [[1, 1, 2, 0], [1, 2, 0, 4], [0, 2, 2, 4], [0, 2, 0, 0]];
    state = move_state(
        state.row_ints(),
        state.col_ints(),
        Direction::Up,
        precomputed,
    );
    assert_eq!(
        state.grid,
        [[2, 1, 3, 5], [0, 3, 0, 0], [0, 2, 0, 0], [0, 0, 0, 0]]
    );

    state.grid = [[0, 1, 2, 3], [0, 1, 0, 3], [3, 2, 2, 3], [3, 0, 0, 4]];
    state = move_state(
        state.row_ints(),
        state.col_ints(),
        Direction::Down,
        precomputed,
    );
    assert_eq!(
        state.grid,
        [[0, 0, 0, 0], [0, 0, 0, 3], [0, 2, 0, 4], [4, 2, 3, 4]]
    );
}

#[test]
fn test_get_possible_moves() {
    let precomputed: &Precomputed = &precompute();

    let mut state = State {
        grid: [[1, 0, 0, 0], [0, 0, 0, 0], [0, 0, 0, 0], [0, 0, 0, 0]],
    };
    let moves = get_possible_moves(state, precomputed);
    assert_eq!(moves[1].0, Direction::Down);
    assert_eq!(moves[2].0, Direction::Invalid);

    state.grid = [[1, 0, 0, 0], [0, 0, 0, 0], [0, 0, 0, 0], [0, 0, 0, 1]];
    let moves = get_possible_moves(state, precomputed);
    assert_eq!(moves[3].0, Direction::Down);

    state.grid = [[1, 2, 3, 4], [5, 6, 7, 8], [9, 10, 11, 12], [13, 14, 15, 1]];
    let moves = get_possible_moves(state, precomputed);
    assert_eq!(moves[0].0, Direction::Invalid);
}

#[test]
fn test_is_game_over() {
    let precomputed: &Precomputed = &precompute();

    let mut state = State {
        grid: [[1, 0, 0, 0], [0, 0, 0, 0], [0, 0, 0, 0], [0, 0, 0, 0]],
    };
    assert_eq!(is_game_over(state, precomputed), false);
    state.grid = [[1, 2, 3, 4], [5, 6, 7, 8], [9, 10, 11, 12], [13, 14, 15, 1]];
    assert_eq!(is_game_over(state, precomputed), true);
}

#[test]
fn test_corner_tile_moves_right_and_down_only() {
    let precomputed = precompute();
    let state = State {
        grid: [[1, 0, 0, 0], [0, 0, 0, 0], [0, 0, 0, 0], [0, 0, 0, 0]],
    };
    let moves = get_possible_moves(state, &precomputed);
    assert_eq!(moves[0].0, Direction::Right);
    assert_eq!(moves[0].1.grid, [[0, 0, 0, 1], [0, 0, 0, 0], [0, 0, 0, 0], [0, 0, 0, 0]]);
    assert_eq!(moves[1].0, Direction::Down);
    assert_eq!(moves[1].1.grid, [[0, 0, 0, 0], [0, 0, 0, 0], [0, 0, 0, 0], [1, 0, 0, 0]]);
    assert_eq!(moves[2], (Direction::Invalid, state));
    assert_eq!(moves[3], (Direction::Invalid, state));
    let rows = state.row_ints();
    let cols = state.col_ints();
    assert_eq!(move_state(rows, cols, Direction::Left, &precomputed), state);
    assert_eq!(move_state(rows, cols, Direction::Up, &precomputed), state);
}

#[test]
fn test_moves_come_in_the_order_left_right_up_down() {
    let precomputed = precompute();
    let state = State {
        grid: [[0, 0, 0, 0], [0, 1, 0, 0], [0, 0, 0, 0], [0, 0, 0, 0]],
    };
    let moves = get_possible_moves(state, &precomputed);
    assert_eq!(moves[0].0, Direction::Left);
    assert_eq!(moves[1].0, Direction::Right);
    assert_eq!(moves[2].0, Direction::Up);
    assert_eq!(moves[3].0, Direction::Down);
    assert_eq!(moves[0].1.grid, [[0, 0, 0, 0], [1, 0, 0, 0], [0, 0, 0, 0], [0, 0, 0, 0]]);
    assert_eq!(moves[1].1.grid, [[0, 0, 0, 0], [0, 0, 0, 1], [0, 0, 0, 0], [0, 0, 0, 0]]);
    assert_eq!(moves[2].1.grid, [[0, 1, 0, 0], [0, 0, 0, 0], [0, 0, 0, 0], [0, 0, 0, 0]]);
    assert_eq!(moves[3].1.grid, [[0, 0, 0, 0], [0, 0, 0, 0], [0, 0, 0, 0], [0, 1, 0, 0]]);
}

fn sample_boards() -> Vec<State> {
    let mut boards = vec![
        State { grid: [[1, 0, 0, 0], [0, 0, 0, 0], [0, 0, 0, 0], [0, 0, 0, 0]] },
        State { grid: [[1, 2, 3, 4], [5, 6, 7, 8], [9, 10, 11, 12], [13, 14, 15, 1]] },
        State { grid: [[0, 0, 0, 0], [0, 0, 0, 0], [0, 0, 0, 0], [0, 0, 0, 0]] },
        State { grid: [[1, 2, 1, 2], [2, 1, 2, 1], [1, 2, 1, 2], [2, 1, 2, 2]] },
        State { grid: [[1, 2, 1, 2], [2, 1, 2, 1], [1, 2, 1, 2], [1, 1, 2, 1]] },
        State { grid: [[3, 4, 5, 6], [0, 0, 5, 6], [1, 1, 1, 1], [0, 5, 5, 0]] },
    ];
    let mut seed: u64 = 0x2545_F491_4F6C_DD1D;
    for _ in 0..200 {
        seed ^= seed << 13;
        seed ^= seed >> 7;
        seed ^= seed << 17;
        boards.push(State::unpack(seed));
    }
    boards
}

#[test]
fn test_terminal_iff_no_direction_changes_the_board() {
    let precomputed = precompute();
    let directions = [Direction::Left, Direction::Right, Direction::Up, Direction::Down];
    for state in sample_boards() {
        let rows = state.row_ints();
        let cols = state.col_ints();
        let unchanged = directions
            .iter()
            .all(|d| move_state(rows, cols, *d, &precomputed) == state);
        let moves = get_possible_moves(state, &precomputed);
        assert_eq!(unchanged, moves[0].0 == Direction::Invalid);
        assert_eq!(unchanged, is_game_over(state, &precomputed));
        let mut slot = 0;
        for d in directions {
            let next = move_state(rows, cols, d, &precomputed);
            if next != state {
                assert_eq!(moves[slot], (d, next));
                slot += 1;
            }
        }
        for rest in slot..4 {
            assert_eq!(moves[rest], (Direction::Invalid, state));
        }
    }
}

#[test]
fn test_up_is_left_on_the_transposed_board() {
    let precomputed = precompute();
    for state in sample_boards() {
        let t = state.transpose();
        let up = move_state(state.row_ints(), state.col_ints(), Direction::Up, &precomputed);
        let left = move_state(t.row_ints(), t.col_ints(), Direction::Left, &precomputed);
        assert_eq!(up, left.transpose());
        let down = move_state(state.row_ints(), state.col_ints(), Direction::Down, &precomputed);
        let right = move_state(t.row_ints(), t.col_ints(), Direction::Right, &precomputed);
        assert_eq!(down, right.transpose());
    }
}

#[test]
fn test_tables_hold_the_slide_of_every_row() {
    let precomputed = precompute();
    let left = precomputed.move_left_table();
    let right = precomputed.move_right_table();
    assert_eq!(left.len(), 65536);
    assert_eq!(right.len(), 65536);
    for code in 0..=u16::MAX {
        assert_eq!(left[code as usize], move_left(unpack_row(code)));
        assert_eq!(right[code as usize], move_right(unpack_row(code)));
    }
    assert_eq!(left[0x2222], [3, 3, 0, 0]);
    assert_eq!(right[0x2222], [0, 0, 3, 3]);
    assert_eq!(left[0x0232], [2, 3, 2, 0]);
    assert_eq!(left[0xFF00], [16, 0, 0, 0]);
}

#[test]
fn test_load_precomputed_takes_the_computed_tables() {
    let computed = precompute();
    let left = computed.move_left_table().clone();
    let right = computed.move_right_table().clone();
    let loaded = load_precomputed(left.clone(), right.clone());
    assert!(loaded.is_some());
    let loaded = loaded.unwrap();
    assert_eq!(loaded.move_left_table(), &left);
    assert_eq!(loaded.move_right_table(), &right);
}

#[test]
fn test_load_precomputed_refuses_other_tables() {
    let computed = precompute();
    let left = computed.move_left_table().clone();
    let right = computed.move_right_table().clone();

    let mut changed = left.clone();
    changed[0x2222] = [4, 0, 0, 0];
    assert!(load_precomputed(changed, right.clone()).is_none());

    let mut changed = right.clone();
    changed[65535] = [15, 15, 15, 0];
    assert!(load_precomputed(left.clone(), changed).is_none());

    let mut short = left.clone();
    short.pop();
    assert!(load_precomputed(short, right.clone()).is_none());

    let mut long = right.clone();
    long.push([0, 0, 0, 0]);
    assert!(load_precomputed(left.clone(), long).is_none());

    assert!(load_precomputed(Vec::new(), Vec::new()).is_none());
    assert!(load_precomputed(right, left).is_none());
}

#[test]
fn test_legal_move_leaves_an_empty_cell() {
    let precomputed = precompute();
    for state in sample_boards() {
        for (direction, next) in get_possible_moves(state, &precomputed) {
            if direction != Direction::Invalid {
                assert!(!next.get_empty_tiles().is_empty());
            }
        }
    }
}

#[test]
fn test_right_table_mirrors_left_table() {
    let precomputed = precompute();
    let left = precomputed.move_left_table();
    let right = precomputed.move_right_table();
    for code in 0..=u16::MAX {
        let row = unpack_row(code);
        let mirror = (row[3] << 12) | (row[2] << 8) | (row[1] << 4) | row[0];
        let entry = left[mirror as usize];
        assert_eq!(right[code as usize], [entry[3], entry[2], entry[1], entry[0]]);
    }
}

#[test]
fn test_moves_keep_cells_at_most_sixteen() {
    let precomputed = precompute();
    let state = State {
        grid: [[15, 15, 15, 15], [15, 15, 15, 15], [0, 0, 0, 0], [0, 0, 0, 0]],
    };
    for (direction, next) in get_possible_moves(state, &precomputed) {
        assert_ne!(direction, Direction::Invalid);
        assert!(next.all_at_most(16));
        assert!(!next.all_at_most(15));
    }
}
