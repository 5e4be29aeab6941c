//! A move selector that picks among the legal moves at random.

use vstd::prelude::*;
use crate::board::{Board, Move};

verus! {

/// A number drawn by `rand::random::<usize>()`, from the thread-local
/// generator of the `rand` crate. Nothing is claimed of the number: any
/// `usize` may come back, and two calls need not agree. (The generator
/// panics if the operating system cannot seed it.)
#[verifier::external_body]
fn random_number() -> (r: usize) {
    rand::random::<usize>()
}

/// The move that the number `r` picks out of `moves`: none if there is no
/// move, else the one at index `r` modulo their number.
pub open spec fn picked(moves: Seq<Move>, r: int) -> Option<Move> {
    if moves.len() == 0 {
        None
    } else {
        Some(moves[r % (moves.len() as int)])
    }
}

/// Picks the move of `moves` that the number `r` stands for.
pub fn pick_move(moves: &Vec<Move>, r: usize) -> (mv: Option<Move>)
    ensures
        mv == picked(moves@, r as int),
        mv matches Some(m) ==> moves@.contains(m),
{
    if moves.len() == 0 {
        return None;
    }
    let mv_i = r % moves.len();
    Some(moves[mv_i])
}

/// Picks one of the legal moves of the side to move at random: none only
/// if there is no legal move. The board is left as it was.
pub fn chouse_move(board: &mut Board) -> (mv: Option<Move>)
    requires
        old(board).wf(),
    ensures
        *final(board) == *old(board),
        exists|r: int| mv == picked(old(board)@.legal_moves(), r),
        mv is None <==> old(board)@.legal_moves().len() == 0,
        mv matches Some(m) ==> old(board)@.legal(m),
{
    let mvs = board.all_available_moves();
    let r = random_number();
    let mv = pick_move(&mvs, r);
    assert(mv == picked(old(board)@.legal_moves(), r as int));
    mv
}

} // verus!
