//! The layout of a Poseidon permutation in the rows of a proof.
//!
//! The states of a permutation stand five to a row. Within a row the
//! state that enters the last of its five rounds stands second, after the
//! state that enters the first; the other three follow in order.

use vstd::prelude::*;

verus! {

/// The number of field elements in the state of the permutation.
pub const SPONGE_WIDTH: usize = 3;

/// The number of rounds whose states share a row.
pub const ROUNDS_PER_ROW: usize = 5;

/// A permutation of this many rounds fills whole rows.
pub open spec fn fills_rows(rounds: nat) -> bool {
    rounds % (ROUNDS_PER_ROW as nat) == 0
}

/// The round whose input state stands at position `k` of the rows.
pub open spec fn round_at_position(k: int) -> int {
    let row = k / (ROUNDS_PER_ROW as int);
    let column = k % (ROUNDS_PER_ROW as int);
    if column == 0 {
        ROUNDS_PER_ROW * row
    } else if column == 1 {
        ROUNDS_PER_ROW * row + (ROUNDS_PER_ROW - 1)
    } else {
        ROUNDS_PER_ROW * row + column - 1
    }
}

/// The position in the rows of the state that enters round `i`.
pub open spec fn position_of_round(i: int) -> int {
    let row = i / (ROUNDS_PER_ROW as int);
    let column = i % (ROUNDS_PER_ROW as int);
    if column == 0 {
        ROUNDS_PER_ROW * row
    } else if column == ROUNDS_PER_ROW - 1 {
        ROUNDS_PER_ROW * row + 1
    } else {
        ROUNDS_PER_ROW * row + column + 1
    }
}

/// The position in the rows of the state that enters round `i`.
pub fn row_position(i: usize) -> (r: usize)
    requires
        i < usize::MAX,
    ensures
        r == position_of_round(i as int),
{
    let column: usize = i % ROUNDS_PER_ROW;
    if column == 0 {
        i
    } else if column == ROUNDS_PER_ROW - 1 {
        i - column + 1
    } else {
        i + 1
    }
}

/// The states of the rounds, which come in the order of the rounds, in the
/// order in which they stand in the rows.
pub open spec fn arranged<A>(states: Seq<A>) -> Seq<A> {
    Seq::new(states.len(), |k: int| states[round_at_position(k)])
}

/// The two orders are inverse to each other, and neither leaves the rows of a
/// trace that is made of whole rows.
pub proof fn lemma_positions(k: int, len: int)
    requires
        0 <= k < len,
        fills_rows(len as nat),
    ensures
        0 <= round_at_position(k) < len,
        0 <= position_of_round(k) < len,
        position_of_round(round_at_position(k)) == k,
        round_at_position(position_of_round(k)) == k,
{
}

} // verus!
