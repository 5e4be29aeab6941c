//! Laws of the game, each proved of every well-formed position.

use vstd::prelude::*;
use crate::board::{Cell, Move};
use crate::rules::{Diagonal, Position, PLY_LIMIT, on_board, playable, heading, span, swept, crowned};
use crate::legality::diagonal;

verus! {

impl Position {
    /// Whether every piece stands on a dark square.
    pub open spec fn on_dark_squares(self) -> bool {
        forall|x: int, y: int| on_board(x, y) && !playable(x, y) ==> self.at(x, y) is Empty
    }

    /// Whether the side to move is stalemated: the game goes on, but none
    /// of its pieces can step, and none can jump that is free to.
    pub open spec fn stalemated(self) -> bool {
        &&& !self.ended()
        &&& forall|mv: Move| !self.is_step(mv) && !(self.is_jump(mv) && self.unbound(mv))
    }

    /// Whether no man stands on its far row.
    pub open spec fn all_crowned(self) -> bool {
        forall|x: int| 0 <= x < 8 ==> !(self.at(x, 0) is White) && !(self.at(x, 7) is Black)
    }
}

/// Every legal move leads from a well-formed position to a well-formed
/// position: the counts agree with the grid, and a game that goes on has
/// not passed the ply limit.
pub proof fn law_moves_keep_positions_well_formed(pos: Position, mv: Move)
    requires
        pos.wf(),
        pos.legal(mv),
    ensures
        pos.after_move(mv).wf(),
{
    pos.lemma_moved(mv);
}

/// The side to move has no legal move exactly if the game has ended or it
/// is stalemated.
pub proof fn law_no_legal_move(pos: Position)
    requires
        pos.wf(),
    ensures
        pos.legal_moves().len() == 0 <==> pos.ended() || pos.stalemated(),
{
    if pos.ended() {
        pos.lemma_ended_no_moves();
    } else if pos.legal_moves().len() == 0 {
        assert forall|mv: Move| !pos.is_step(mv) && !(pos.is_jump(mv) && pos.unbound(mv)) by {
            pos.lemma_legal(mv);
            pos.lemma_steps(mv);
            pos.lemma_jumps(mv);
        }
    } else {
        let mv = pos.legal_moves()[0];
        assert(pos.legal_moves().contains(mv));
        pos.lemma_legal(mv);
    }
}

/// After a move nobody is stalemated, since a side that cannot move has
/// lost: the side to move has no legal move exactly if the game has ended.
pub proof fn law_no_move_means_ended(pos: Position, mv: Move)
    requires
        pos.wf(),
        pos.legal(mv),
    ensures
        pos.after_move(mv).settled(),
        !pos.after_move(mv).stalemated(),
        pos.after_move(mv).legal_moves().len() == 0 <==> pos.after_move(mv).ended(),
{
    pos.lemma_moved(mv);
    law_no_legal_move(pos.after_move(mv));
    let next = pos.after_move(mv);
    if next.ended() {
        next.lemma_ended_no_moves();
    } else {
        assert(next == pos.relocated(mv).promoted());
    }
}

/// Captures are mandatory: while the side to move can capture (with the
/// piece bound to go on capturing, if there is one), every legal move is
/// such a capture and none is a step.
pub proof fn law_captures_are_mandatory(pos: Position, capture: Move, mv: Move)
    requires
        pos.wf(),
        pos.is_jump(capture),
        pos.unbound(capture),
        pos.legal(mv),
    ensures
        pos.is_jump(mv),
        pos.unbound(mv),
        !pos.is_step(mv),
{
    pos.lemma_legal(mv);
    let j = choose|j: int| pos.jumps_over(mv, j);
    if pos.is_step(mv) {
        assert(pos.vacant_at(mv, j));
    }
}

/// A capture takes exactly one piece: one square of the way holds an enemy
/// and is vacant afterwards, every other square of the way was vacant, the
/// opponent has one piece less and the side that moved as many as before.
pub proof fn law_capture_takes_one(pos: Position, mv: Move)
    requires
        pos.wf(),
        pos.legal(mv),
        pos.is_jump(mv),
    ensures
        exists|j: int|
            {
                &&& 1 <= j < span(mv)
                &&& pos.enemy_at(mv, j)
                &&& pos.after_move(mv).vacant_at(mv, j)
                &&& forall|k: int| 1 <= k < span(mv) && k != j ==> pos.vacant_at(mv, k)
            },
        pos.mover() is White ==> pos.after_move(mv).black == pos.black - 1 && pos.after_move(
            mv,
        ).white == pos.white,
        pos.mover() is Black ==> pos.after_move(mv).white == pos.white - 1 && pos.after_move(
            mv,
        ).black == pos.black,
        pos.after_move(mv).white == pos.after_move(mv).count(Cell::White),
        pos.after_move(mv).black == pos.after_move(mv).count(Cell::Black),
{
    pos.lemma_moved(mv);
    pos.lemma_legal(mv);
    pos.lemma_jumps(mv);
    let j = choose|j: int| pos.jumps_over(mv, j);
    let next = pos.after_move(mv);
    let vx = heading(mv).x_at(mv.from.x as int, j);
    let vy = heading(mv).y_at(mv.from.y as int, j);
    assert(swept(mv, vx, vy));
    assert(next.at(vx, vy) is Empty);
    assert(next.vacant_at(mv, j));
    pos.lemma_jump_counts(mv, j, Cell::White);
    pos.lemma_jump_counts(mv, j, Cell::Black);
    if pos.is_step(mv) {
        assert(pos.vacant_at(mv, j));
    }
    assert(pos.jumps().contains(mv));
}

/// A step takes nothing: both sides have as many pieces as before.
pub proof fn law_step_takes_none(pos: Position, mv: Move)
    requires
        pos.wf(),
        pos.legal(mv),
        pos.is_step(mv),
    ensures
        pos.after_move(mv).white == pos.white,
        pos.after_move(mv).black == pos.black,
{
    pos.lemma_legal(mv);
    pos.lemma_jumps(mv);
    if pos.jumps().len() > 0 {
        let c = pos.jumps()[0];
        assert(pos.jumps().contains(c));
        pos.lemma_jumps(c);
        law_captures_are_mandatory(pos, c, mv);
    }
}

/// The piece that moved stands on the landing square, crowned if it is a
/// man that has reached its far row; after any move of a position in which
/// every such man was crowned, every such man is crowned.
pub proof fn law_men_are_crowned(pos: Position, mv: Move)
    requires
        pos.wf(),
        pos.legal(mv),
    ensures
        pos.after_move(mv).at(mv.to.x as int, mv.to.y as int) == crowned(
            pos.at(mv.from.x as int, mv.from.y as int),
            mv.to.y as int,
        ),
        pos.after_move(mv).all_crowned(),
{
    pos.lemma_moved(mv);
}

/// Every move adds one to the ply count, and a game that passes the ply
/// limit is drawn: it has ended and nobody has won.
pub proof fn law_ply_count(pos: Position, mv: Move)
    requires
        pos.wf(),
        pos.legal(mv),
    ensures
        pos.after_move(mv).ply == pos.ply + 1,
        pos.after_move(mv).ply > PLY_LIMIT ==> pos.after_move(mv).state is Draw && pos.after_move(
            mv,
        ).ended() && pos.after_move(mv).state.winner() is None,
{
}

/// A piece bound to go on capturing is the piece that just captured, the
/// same side is to move, and a capture was open to it where it landed.
pub proof fn law_forced_continuation(pos: Position, mv: Move)
    requires
        pos.wf(),
        pos.legal(mv),
    ensures
        pos.after_move(mv).forced matches Some(p) ==> p == mv.to && pos.is_jump(mv)
            && pos.lifted(mv).piece_jumps(mv.to.x as int, mv.to.y as int).len() > 0,
        pos.after_move(mv).forced is Some && !pos.after_move(mv).ended() ==> pos.after_move(
            mv,
        ).state == pos.state,
        pos.after_move(mv).forced is None && !pos.after_move(mv).ended() ==> pos.after_move(
            mv,
        ).state == pos.state.passed(),
{
    pos.lemma_moved(mv);
    pos.lemma_legal(mv);
    pos.lemma_jumps(mv);
}

/// Crowning takes no jump away: a jump of a position is a jump of the
/// position with its men crowned.
pub proof fn lemma_jump_survives_crowning(pos: Position, mv: Move)
    requires
        pos.shaped(),
        pos.is_jump(mv),
    ensures
        pos.promoted().is_jump(mv),
{
    let j = choose|j: int| pos.jumps_over(mv, j);
    let crowned = pos.promoted();
    assert forall|k: int| 1 <= k <= span(mv) && k != j implies crowned.vacant_at(mv, k) by {
        assert(pos.vacant_at(mv, k));
    }
    assert(crowned.jumps_over(mv, j));
}

/// While a piece is bound to go on capturing, the game going on, a capture
/// is open to it, and every legal move is a jump of that piece.
pub proof fn law_bound_piece_must_capture(pos: Position, mv: Move, next: Move)
    requires
        pos.wf(),
        pos.legal(mv),
        pos.after_move(mv).forced is Some,
        !pos.after_move(mv).ended(),
    ensures
        pos.after_move(mv).jumps().len() > 0,
        pos.after_move(mv).legal(next) ==> next.from == mv.to && pos.after_move(mv).is_jump(next),
{
    pos.lemma_moved(mv);
    let lifted = pos.lifted(mv);
    let moved = pos.relocated(mv);
    let after = pos.after_move(mv);
    let first = lifted.piece_jumps(mv.to.x as int, mv.to.y as int)[0];
    assert(lifted.piece_jumps(mv.to.x as int, mv.to.y as int).contains(first));
    lifted.lemma_piece_jumps(mv.to.x as int, mv.to.y as int, first);
    let j = choose|j: int| lifted.jumps_over(first, j);
    assert forall|k: int| 1 <= k <= span(first) && k != j implies moved.vacant_at(first, k) by {
        assert(lifted.vacant_at(first, k));
    }
    assert(moved.jumps_over(first, j));
    lemma_jump_survives_crowning(moved, first);
    assert(after == moved.promoted());
    after.lemma_jumps(first);
    after.lemma_legal(next);
    after.lemma_jumps(next);
}

/// The squares of a diagonal are all dark or all light.
pub proof fn lemma_diagonal_colour(x: int, y: int, d: Diagonal, k: int)
    ensures
        playable(d.x_at(x, k), d.y_at(y, k)) == playable(x, y),
{
    let a = 9 * y + x;
    vstd::arithmetic::div_mod::lemma_mod_multiples_vanish(5 * k, a, 2);
    vstd::arithmetic::div_mod::lemma_mod_multiples_vanish(4 * k, a, 2);
    vstd::arithmetic::div_mod::lemma_mod_multiples_vanish(-4 * k, a, 2);
    vstd::arithmetic::div_mod::lemma_mod_multiples_vanish(-5 * k, a, 2);
    assert(9 * (y + k) + (x + k) == 2 * (5 * k) + a);
    assert(9 * (y + k) + (x - k) == 2 * (4 * k) + a);
    assert(9 * (y - k) + (x + k) == 2 * (-4 * k) + a);
    assert(9 * (y - k) + (x - k) == 2 * (-5 * k) + a);
}

/// Pieces stay on the dark squares: a legal move of a position whose pieces
/// all stand on dark squares lands on a dark square and leads to such a
/// position.
pub proof fn law_dark_squares(pos: Position, mv: Move)
    requires
        pos.wf(),
        pos.on_dark_squares(),
        pos.legal(mv),
    ensures
        playable(mv.to.x as int, mv.to.y as int),
        pos.after_move(mv).on_dark_squares(),
{
    pos.lemma_moved(mv);
    let fx = mv.from.x as int;
    let fy = mv.from.y as int;
    let tx = mv.to.x as int;
    let ty = mv.to.y as int;
    assert(playable(fx, fy)) by {
        if !playable(fx, fy) {
            assert(pos.at(fx, fy) is Empty);
        }
    }
    assert(playable(tx, ty)) by {
        lemma_diagonal_colour(fx, fy, heading(mv), span(mv));
    }
    let next = pos.after_move(mv);
    assert forall|x: int, y: int| on_board(x, y) && !playable(x, y) implies next.at(x, y) is Empty by {
        assert(pos.at(x, y) is Empty);
        assert(!(x == tx && y == ty));
        assert(pos.swept_grid(mv)[y][x] is Empty);
        assert(next.at(x, y) == crowned(pos.swept_grid(mv)[y][x], y));
    }
}

} // verus!
