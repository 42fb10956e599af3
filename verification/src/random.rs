//! Random choices: the calls into the random number generator, and the
//! uniform choice among the slots of a move buffer.

use crate::game::{Direction, State};
use crate::precompute::Precomputed;
use vstd::prelude::*;

verus! {

/// A random index. Calls `rand::random::<usize>()`, which draws from the
/// generator of the thread; nothing is claimed of the value.
#[verifier::external_body]
pub(crate) fn random_index() -> usize {
    rand::random::<usize>()
}

/// A random yes or no, yes with probability `numerator / denominator`. Calls
/// `rand::Rng::gen_ratio` on the generator of the thread. That call panics
/// where the denominator is zero or smaller than the numerator, so those are
/// left out. Its outcome is fixed only at the ends: always yes where the two
/// are equal, always no where the numerator is zero.
#[verifier::external_body]
pub(crate) fn random_ratio(numerator: u32, denominator: u32) -> (r: bool)
    requires
        0 < denominator,
        numerator <= denominator,
    ensures
        numerator == denominator ==> r,
        numerator == 0 ==> !r,
{
    rand::Rng::gen_ratio(&mut rand::thread_rng(), numerator, denominator)
}

/// The slot of a move buffer that a drawn number selects.
pub fn pick_move(moves: [(Direction, State); 4], drawn: usize) -> (r: (Direction, State))
    ensures
        r == moves[drawn as int % 4],
{
    moves[drawn % 4]
}

/// One slot of a move buffer, each with the same chance. Unused slots are
/// not told apart: where one is drawn, the outcome is `Invalid`.
pub fn get_random_move(
    _state: State,
    moves: [(Direction, State); 4],
    _precomputed: &Precomputed,
) -> (r: (Direction, State))
    ensures
        exists|i: int| 0 <= i < 4 && r == #[trigger] moves[i],
{
    let drawn = random_index();
    pick_move(moves, drawn)
}

} // verus!
