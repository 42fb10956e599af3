//! A solver for the sliding-tile game 2048: a board codec, precomputed row
//! moves, the move engine, a corner heuristic and the bookkeeping of an
//! expectimax search.

pub mod expectimax;
pub mod game;
pub mod precompute;
pub mod random;
pub mod row;
pub mod transposition;

pub use precompute::load_precomputed;

use game::lemma_spawned;
use game::{Direction, State};
use precompute::{
    get_possible_moves, is_terminal, lemma_move_buffer_bound, lemma_terminal_iff_no_legal_move,
    move_buffer, Precomputed,
};
use random::get_random_move;
use row::MAX_MERGED;
use vstd::prelude::*;

verus! {

/// `after` can follow `before` in one turn of a random game: the game is not
/// over, a slot of the move buffer is drawn, and a new tile is put on the
/// board in that slot.
#[verifier::opaque]
pub open spec fn follows(before: State, after: State) -> bool {
    &&& !is_terminal(before)
    &&& exists|slot: int, pick: int, small: bool|
        0 <= slot < 4 && 0 <= pick && after == #[trigger] move_buffer(before)[slot].1.spawned(
            pick,
            small,
        )
}

/// `last` can come from `first` by the given number of turns.
#[verifier::opaque]
pub open spec fn reaches(first: State, last: State, turns: nat) -> bool
    decreases turns,
{
    if turns == 0 {
        first == last
    } else {
        exists|before: State|
            reaches(first, before, (turns - 1) as nat) && #[trigger] follows(before, last)
    }
}

/// A game that starts on `first` can end on `last` with the outcome given as
/// (score, turns): `first` is an opening, the turns lead from it to `last`,
/// the score is that of `last`, and `last` has no legal move unless the
/// count of turns stands at its limit.
pub open spec fn played(first: State, last: State, outcome: (u64, u64)) -> bool {
    &&& State::opening(first)
    &&& reaches(first, last, outcome.1 as nat)
    &&& last.bounded()
    &&& outcome.0 == last.score()
    &&& outcome.1 < u64::MAX ==> is_terminal(last)
}

/// No turn reaches the board itself.
proof fn lemma_reaches_start(first: State)
    ensures
        reaches(first, first, 0),
{
    reveal(reaches);
}

/// One more turn reaches one board further.
proof fn lemma_reaches_next(first: State, before: State, after: State, turns: nat)
    requires
        reaches(first, before, turns),
        follows(before, after),
    ensures
        reaches(first, after, turns + 1),
{
    reveal(reaches);
    assert(((turns + 1) - 1) as nat == turns);
}

/// The board in a slot of the move buffer, with a new tile, follows.
proof fn lemma_follows(before: State, slot: int, pick: int, small: bool)
    requires
        !is_terminal(before),
        0 <= slot < 4,
        0 <= pick,
    ensures
        follows(before, move_buffer(before)[slot].1.spawned(pick, small)),
{
    reveal(follows);
}

/// Plays a game with random moves from a random start: draws a slot of the
/// move buffer, takes the board in it, puts a random tile on it, and goes on
/// until no move is legal. Gives the score of the last board and the number
/// of turns. The count ends the game where it cannot rise.
pub fn run_game(precomputed: &Precomputed) -> (r: (u64, u64))
    ensures
        exists|first: State, last: State| #[trigger] played(first, last, r),
{
    let mut num_moves: u64 = 0;
    let mut state = State::new();
    let ghost first = state;
    let mut moves = get_possible_moves(state, precomputed);
    proof {
        lemma_terminal_iff_no_legal_move(state);
        lemma_reaches_start(first);
    }
    while moves[0].0 != Direction::Invalid && num_moves < u64::MAX
        invariant
            reaches(first, state, num_moves as nat),
            state.bounded(),
            moves@ == move_buffer(state),
            is_terminal(state) <==> moves[0].0 == Direction::Invalid,
        decreases u64::MAX - num_moves,
    {
        let (_move, new_state) = get_random_move(state, moves, precomputed);
        let next = new_state.add_random_tile();
        proof {
            let slot = choose|slot: int|
                0 <= slot < 4 && (_move, new_state) == #[trigger] moves[slot];
            let (pick, small) = choose|pick: int, small: bool|
                0 <= pick && next == #[trigger] new_state.spawned(pick, small);
            lemma_move_buffer_bound(state);
            lemma_spawned(new_state, pick, small, MAX_MERGED as int);
            lemma_follows(state, slot, pick, small);
            lemma_reaches_next(first, state, next, num_moves as nat);
            lemma_terminal_iff_no_legal_move(next);
        }
        state = next;
        num_moves += 1;
        moves = get_possible_moves(state, precomputed);
    }
    let score = state.get_score();
    assert(played(first, state, (score, num_moves)));
    (score, num_moves)
}

} // verus!
