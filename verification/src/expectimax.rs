//! The heuristic value of a board, and the decisions of an expectimax
//! search that need no arithmetic on probabilities: what to do at a node,
//! which boards the next tile can make, and how a decision ends.

use crate::game::{lemma_cell_at_most, lemma_empty_before, lemma_tile_score_bound};
use crate::game::{tile_value, Direction, State};
use crate::precompute::{
    get_possible_moves, is_terminal, legal_moves, lemma_terminal_iff_no_legal_move, move_buffer,
    Precomputed,
};
use crate::row::MAX_MERGED;
use crate::transposition::{bumped, lookup, Entry, Prob, Score, TranspositionTable};
use vstd::arithmetic::power2::pow2;
use vstd::prelude::*;

verus! {

/// A tile value weighted by the distance of its cell, in steps along rows
/// and columns, from the corner that a sum is anchored at: the weights fall
/// off as 10, 5, 2, 1 and are zero beyond three steps.
pub open spec fn weighted(distance: int, value: int) -> int {
    if distance == 0 {
        10 * value
    } else if distance == 1 {
        5 * value
    } else if distance == 2 {
        2 * value
    } else if distance == 3 {
        value
    } else {
        0
    }
}

/// The distance between two indices.
pub open spec fn gap(a: int, b: int) -> int {
    if a <= b {
        b - a
    } else {
        a - b
    }
}

/// The weighted value of the tile in column `x` of row `y`, for the corner
/// in column `cx` of row `cy`.
pub open spec fn weighted_cell(state: State, x: int, y: int, cx: int, cy: int) -> int {
    weighted(gap(x, cx) + gap(y, cy), pow2(state.grid[y][x] as nat) as int)
}

/// The weighted value of row `y`, for the corner in column `cx` of row `cy`.
pub open spec fn weighted_row(state: State, y: int, cx: int, cy: int) -> int {
    weighted_cell(state, 0, y, cx, cy) + weighted_cell(state, 1, y, cx, cy) + weighted_cell(
        state,
        2,
        y,
        cx,
        cy,
    ) + weighted_cell(state, 3, y, cx, cy)
}

/// The weighted sum of the tile values, for the corner in column `cx` of
/// row `cy`.
pub open spec fn corner_sum(state: State, cx: int, cy: int) -> int {
    weighted_row(state, 0, cx, cy) + weighted_row(state, 1, cx, cy) + weighted_row(
        state,
        2,
        cx,
        cy,
    ) + weighted_row(state, 3, cx, cy)
}

/// The larger of two numbers.
pub open spec fn larger(a: int, b: int) -> int {
    if a >= b {
        a
    } else {
        b
    }
}

/// The heuristic value of a board: the largest of its four corner sums.
pub open spec fn heuristic_value(state: State) -> int {
    larger(
        larger(corner_sum(state, 0, 3), corner_sum(state, 3, 3)),
        larger(corner_sum(state, 0, 0), corner_sum(state, 3, 0)),
    )
}

/// The tile values of one row.
fn pow_row(state: &State, y: usize) -> (r: [u64; 4])
    requires
        y < 4,
        state.bounded(),
    ensures
        forall|x: int|
            0 <= x < 4 ==> r[x] == pow2(state.grid[y as int][x] as nat) && r[x] <= 0x1_0000,
{
    proof {
        lemma_cell_at_most(*state, 0, y as int, MAX_MERGED as int);
        lemma_cell_at_most(*state, 1, y as int, MAX_MERGED as int);
        lemma_cell_at_most(*state, 2, y as int, MAX_MERGED as int);
        lemma_cell_at_most(*state, 3, y as int, MAX_MERGED as int);
        lemma_tile_score_bound(state.grid[y as int][0]);
        lemma_tile_score_bound(state.grid[y as int][1]);
        lemma_tile_score_bound(state.grid[y as int][2]);
        lemma_tile_score_bound(state.grid[y as int][3]);
    }
    [
        tile_value(state.grid[y][0]),
        tile_value(state.grid[y][1]),
        tile_value(state.grid[y][2]),
        tile_value(state.grid[y][3]),
    ]
}

/// The tile values of a board: `2^e` for each exponent `e`, and so 1 for an
/// empty cell.
pub fn pow_grid(state: &State) -> (r: [[u64; 4]; 4])
    requires
        state.bounded(),
    ensures
        forall|x: int, y: int|
            0 <= x < 4 && 0 <= y < 4 ==> r[y][x] == pow2(state.grid[y][x] as nat) && r[y][x]
                <= 0x1_0000,
{
    [pow_row(state, 0), pow_row(state, 1), pow_row(state, 2), pow_row(state, 3)]
}

/// The heuristic value of a board: for each corner the weighted sum of the
/// tile values, and of the four sums the largest.
pub fn corner_heuristic(state: State) -> (r: u64)
    requires
        state.bounded(),
    ensures
        r == heuristic_value(state),
{
    let pow_grid = pow_grid(&state);

    let lower_left = 10 * pow_grid[3][0] + 5 * pow_grid[2][0] + 2 * pow_grid[1][0] + pow_grid[0][0]
        + 5 * pow_grid[3][1] + 2 * pow_grid[2][1] + pow_grid[1][1] + 2 * pow_grid[3][2]
        + pow_grid[2][2] + pow_grid[3][3];
    let lower_right = 10 * pow_grid[3][3] + 5 * pow_grid[2][3] + 2 * pow_grid[1][3]
        + pow_grid[0][3] + 5 * pow_grid[3][2] + 2 * pow_grid[2][2] + pow_grid[1][2] + 2
        * pow_grid[3][1] + pow_grid[2][1] + pow_grid[3][0];
    let upper_left = 10 * pow_grid[0][0] + 5 * pow_grid[1][0] + 2 * pow_grid[2][0] + pow_grid[3][0]
        + 5 * pow_grid[0][1] + 2 * pow_grid[1][1] + pow_grid[2][1] + 2 * pow_grid[0][2]
        + pow_grid[1][2] + pow_grid[0][3];
    let upper_right = 10 * pow_grid[0][3] + 5 * pow_grid[1][3] + 2 * pow_grid[2][3]
        + pow_grid[3][3] + 5 * pow_grid[0][2] + 2 * pow_grid[1][2] + pow_grid[2][2] + 2
        * pow_grid[0][1] + pow_grid[1][1] + pow_grid[0][0];

    assert(lower_left == corner_sum(state, 0, 3));
    assert(lower_right == corner_sum(state, 3, 3));
    assert(upper_left == corner_sum(state, 0, 0));
    assert(upper_right == corner_sum(state, 3, 0));

    let lower = if lower_left >= lower_right {
        lower_left
    } else {
        lower_right
    };
    let upper = if upper_left >= upper_right {
        upper_left
    } else {
        upper_right
    };
    if lower >= upper {
        lower
    } else {
        upper
    }
}

/// The value that a search gives a board at its horizon: the corner
/// heuristic.
pub fn heuristic(state: State) -> (r: u64)
    requires
        state.bounded(),
    ensures
        r == heuristic_value(state),
{
    corner_heuristic(state)
}

/// What a search does at a node where the player moves.
pub enum Node {
    /// No move is legal. The node is worth nothing and names no direction.
    Terminal,
    /// The depth is used up. The node is worth the heuristic value of its
    /// board, and names the first legal direction.
    Leaf(Direction, u64),
    /// The cache holds a result that serves.
    Cached(Direction, Score),
    /// The listed branches are to be searched, in their order.
    Expand(Vec<Branch>),
}

/// A legal move, with what the next tile can make of the board it leads to.
pub struct Branch {
    /// The direction of the move.
    pub direction: Direction,
    /// For each empty cell of the board after the move, in row-major order,
    /// the board with a 2 there and the board with a 4.
    pub children: Vec<(State, State)>,
}

/// The branches of a board: its legal moves in the order Left, Right, Up,
/// Down, each with the boards that the next tile can make of its outcome.
pub open spec fn is_expansion(branches: Seq<Branch>, state: State) -> bool {
    &&& branches.len() == legal_moves(state).len()
    &&& forall|i: int|
        0 <= i < branches.len() ==> (#[trigger] branches[i]).direction == legal_moves(state)[i].0
            && branches[i].children@ == child_pairs(legal_moves(state)[i].1)
}

/// The boards that the next tile can make of a board: for each empty cell in
/// row-major order, the board with a 2 there and the board with a 4.
pub open spec fn child_pairs(state: State) -> Seq<(State, State)> {
    Seq::new(state.empty_tiles().len(), |i: int| (state.spawned(i, true), state.spawned(i, false)))
}

/// The first of the moves that goes in `direction`.
pub open spec fn chosen(moves: Seq<(Direction, State)>, direction: Direction) -> Option<
    (Direction, State),
> {
    if moves[0].0 == direction {
        Some(moves[0])
    } else if moves[1].0 == direction {
        Some(moves[1])
    } else if moves[2].0 == direction {
        Some(moves[2])
    } else if moves[3].0 == direction {
        Some(moves[3])
    } else {
        None
    }
}

/// Decides what the search does at a node where the player moves. A board
/// without a legal move ends the search there. At depth zero the board is
/// valued by the heuristic, and the first legal direction is named. Deeper,
/// the cache is asked, and counts a hit or a miss; where it does not serve,
/// the legal moves are handed out to be searched.
pub fn visit(
    state: State,
    depth: u16,
    prob: Prob,
    precomputed: &Precomputed,
    transposition: &mut TranspositionTable,
) -> (node: Node)
    requires
        state.bounded(),
    ensures
        match node {
            Node::Terminal => is_terminal(state),
            Node::Leaf(direction, value) => {
                &&& !is_terminal(state)
                &&& depth == 0
                &&& direction == legal_moves(state)[0].0
                &&& value == heuristic_value(state)
            },
            Node::Cached(direction, score) => {
                &&& !is_terminal(state)
                &&& depth > 0
                &&& lookup(old(transposition)@, state, depth, prob) == Some(
                    (direction, score),
                )
            },
            Node::Expand(branches) => {
                &&& !is_terminal(state)
                &&& depth > 0
                &&& lookup(old(transposition)@, state, depth, prob) is None
                &&& is_expansion(branches@, state)
            },
        },
        final(transposition)@ == old(transposition)@,
        final(transposition).item_count() == old(transposition).item_count(),
        final(transposition).hit_count() == if node is Cached {
            bumped(old(transposition).hit_count())
        } else {
            old(transposition).hit_count()
        },
        final(transposition).miss_count() == if node is Expand {
            bumped(old(transposition).miss_count())
        } else {
            old(transposition).miss_count()
        },
{
    let moves = get_possible_moves(state, precomputed);
    proof {
        lemma_terminal_iff_no_legal_move(state);
    }
    if moves[0].0 == Direction::Invalid {
        return Node::Terminal;
    }
    if depth == 0 {
        return Node::Leaf(moves[0].0, heuristic(state));
    }
    match transposition.get(&state, depth, prob) {
        Some((direction, score)) => Node::Cached(direction, score),
        None => Node::Expand(expand(state, moves)),
    }
}

/// Lists the branches of a board from its move buffer: the slots that hold a
/// move, in their order, each with the boards that the next tile can make.
fn expand(state: State, moves: [(Direction, State); 4]) -> (branches: Vec<Branch>)
    requires
        moves@ == move_buffer(state),
    ensures
        is_expansion(branches@, state),
{
    let mut branches: Vec<Branch> = Vec::new();
    proof {
        lemma_terminal_iff_no_legal_move(state);
    }
    let mut i: usize = 0;
    while i < 4 && moves[i].0 != Direction::Invalid
        invariant
            i <= 4,
            moves@ == move_buffer(state),
            legal_moves(state).len() <= 4,
            forall|k: int|
                0 <= k < legal_moves(state).len() ==> (#[trigger] legal_moves(state)[k]).0
                    != Direction::Invalid,
            i <= legal_moves(state).len(),
            branches.len() == i,
            forall|k: int|
                0 <= k < i ==> (#[trigger] branches[k]).direction == legal_moves(state)[k].0
                    && branches[k].children@ == child_pairs(legal_moves(state)[k].1),
        decreases 4 - i,
    {
        let (direction, next_state) = moves[i];
        assert(moves[i as int] == move_buffer(state)[i as int]);
        branches.push(Branch { direction, children: chance_children(&next_state) });
        i += 1;
    }
    proof {
        if i < 4 {
            assert(moves[i as int] == move_buffer(state)[i as int]);
        }
    }
    branches
}

/// Lists the boards that the next tile can make of a board: for each empty
/// cell in row-major order, the board with a 2 there and the board with a 4.
pub fn chance_children(state: &State) -> (children: Vec<(State, State)>)
    ensures
        children@ == child_pairs(*state),
{
    let empty_tiles = state.get_empty_tiles();
    let mut children: Vec<(State, State)> = Vec::new();
    proof {
        lemma_empty_before(*state, 16);
    }
    for i in 0..empty_tiles.len()
        invariant
            empty_tiles@ == state.empty_tiles(),
            children.len() == i,
            forall|k: int|
                0 <= k < i ==> children[k] == (state.spawned(k, true), state.spawned(k, false)),
            forall|k: int|
                0 <= k < empty_tiles.len() ==> (#[trigger] empty_tiles[k]).0 < 4
                    && empty_tiles[k].1 < 4,
    {
        let (x, y) = empty_tiles[i];
        proof {
            vstd::arithmetic::div_mod::lemma_small_mod(i as nat, empty_tiles.len() as nat);
        }
        children.push((state.set_cell(x, y, 1), state.set_cell(x, y, 2)));
    }
    assert(children@ =~= child_pairs(*state));
    children
}

/// Finds among the moves the first one in the given direction.
pub fn find_move(moves: [(Direction, State); 4], direction: Direction) -> (r: Option<
    (Direction, State),
>)
    ensures
        r == chosen(moves@, direction),
{
    let mut i: usize = 0;
    while i < 4
        invariant
            i <= 4,
            forall|k: int| 0 <= k < i ==> moves[k].0 != direction,
        decreases 4 - i,
    {
        if moves[i].0 == direction {
            return Some(moves[i]);
        }
        i += 1;
    }
    None
}

/// Ends a decision: finds among the moves the one in the chosen direction,
/// and empties the cache, whose entries hold for the one decision that made
/// them.
pub fn conclude(
    direction: Direction,
    moves: [(Direction, State); 4],
    transposition: &mut TranspositionTable,
) -> (r: Option<(Direction, State)>)
    ensures
        r == chosen(moves@, direction),
        final(transposition)@ == Map::<State, Entry>::empty(),
        final(transposition).item_count() == 0,
        final(transposition).hit_count() == 0,
        final(transposition).miss_count() == 0,
{
    let found = find_move(moves, direction);
    transposition.clear();
    found
}

} // verus!
