//! A move selector that searches the game tree to a bounded depth: negamax
//! with alpha-beta pruning, proved to choose as the unpruned search would.

use vstd::prelude::*;
use crate::board::{Board, Cell, Move, Side};
use crate::rules::Position;

verus! {

/// The score of a position that the side to move has won; the negation is
/// the score of one that it has lost.
pub const WIN_SCORE: i8 = 100;

/// A bound that no score reaches.
pub const SCORE_BOUND: i8 = 127;

impl Position {
    /// The pieces of `side`.
    pub open spec fn pieces(self, side: Side) -> nat {
        match side {
            Side::White => self.white,
            Side::Black => self.black,
        }
    }

    /// How good the position is for the side to move: the score of a win or
    /// a loss if the game is decided, else the pieces that it has more than
    /// its opponent.
    pub open spec fn score(self) -> int {
        match self.state.winner() {
            Some(side) => if side == self.mover() {
                WIN_SCORE as int
            } else {
                -WIN_SCORE
            },
            None => self.pieces(self.mover()) - self.pieces(self.mover().other()),
        }
    }

    /// A measure that falls whenever a move leaves the same side to move:
    /// nothing once the game has ended, else one more than the pieces left.
    pub open spec fn weight(self) -> nat {
        if self.ended() {
            0
        } else {
            1 + self.white + self.black
        }
    }
}

/// The value of a position for the side to move, looking `depth` turns
/// ahead with both sides playing their best: its score if no turn is left
/// to look at or no move is legal, else the value of its best move.
pub open spec fn negamax(pos: Position, depth: nat) -> int
    decreases depth, pos.weight(), 2nat, 0nat,
{
    if depth == 0 || pos.legal_moves().len() == 0 {
        pos.score()
    } else {
        best_among(pos, (depth - 1) as nat, pos.legal_moves().len())
    }
}

/// The value of playing `mv` for the side that plays it, with `rest` more
/// turns to look at once this turn is over. While the same side is to move
/// again the turn is not over and the position is looked at as deeply as
/// before; once the turn has passed, the value is the opponent's loss.
/// (When the same side is to move again the position has lost weight; the
/// definition asks for it only to show that it is well founded.)
pub open spec fn reply_value(pos: Position, rest: nat, mv: Move) -> int
    decreases rest + 1, pos.weight(), 0nat, 0nat,
{
    let next = pos.after_move(mv);
    if next.mover() == pos.mover() && next.weight() < pos.weight() {
        negamax(next, rest + 1)
    } else {
        -negamax(next, rest)
    }
}

/// The best value among the first `n` legal moves; below every score if
/// `n` is zero.
pub open spec fn best_among(pos: Position, rest: nat, n: nat) -> int
    decreases rest + 1, pos.weight(), 1nat, n,
{
    if n == 0 {
        -SCORE_BOUND
    } else {
        let value = reply_value(pos, rest, pos.legal_moves()[n - 1]);
        let before = best_among(pos, rest, (n - 1) as nat);
        if value > before {
            value
        } else {
            before
        }
    }
}

/// The index of the first of the first `n` legal moves that has the best
/// value among them.
pub open spec fn first_best(pos: Position, rest: nat, n: nat) -> int
    decreases n,
{
    if n <= 1 {
        0
    } else {
        let before = first_best(pos, rest, (n - 1) as nat);
        if reply_value(pos, rest, pos.legal_moves()[n - 1]) > reply_value(
            pos,
            rest,
            pos.legal_moves()[before],
        ) {
            n - 1
        } else {
            before
        }
    }
}

/// The move to play: none if no turn is to be looked at or no move is
/// legal, else the first legal move of the best value.
pub open spec fn chosen_move(pos: Position, depth: nat) -> Option<Move> {
    if depth == 0 || pos.legal_moves().len() == 0 {
        None
    } else {
        Some(pos.legal_moves()[first_best(pos, (depth - 1) as nat, pos.legal_moves().len())])
    }
}

impl Position {
    /// A score lies between a loss and a win.
    pub proof fn lemma_score_range(self)
        requires
            self.wf(),
        ensures
            -WIN_SCORE <= self.score() <= WIN_SCORE,
    {
        crate::invariants::lemma_grid_count_bound(self.grid, Cell::White, 8);
        crate::invariants::lemma_grid_count_bound(self.grid, Cell::Black, 8);
    }

    /// A move after which the same side is to move leaves a lighter
    /// position: the game has ended, or a piece was captured.
    pub proof fn lemma_lighter(self, mv: Move)
        requires
            self.wf(),
            self.legal(mv),
            self.after_move(mv).mover() == self.mover(),
        ensures
            self.after_move(mv).weight() < self.weight(),
    {
        self.lemma_moved(mv);
        self.lemma_legal(mv);
        self.lemma_jumps(mv);
        let next = self.after_move(mv);
        if !next.ended() {
            assert(next.state == self.relocated(mv).state);
            assert(self.continues(mv));
            crate::laws::law_capture_takes_one(self, mv);
        }
    }
}

/// The value of a legal move, without the condition that only serves to
/// show that the definition is well founded.
pub proof fn lemma_reply_value(pos: Position, rest: nat, mv: Move)
    requires
        pos.wf(),
        pos.legal(mv),
    ensures
        reply_value(pos, rest, mv) == if pos.after_move(mv).mover() == pos.mover() {
            negamax(pos.after_move(mv), rest + 1)
        } else {
            -negamax(pos.after_move(mv), rest)
        },
{
    if pos.after_move(mv).mover() == pos.mover() {
        pos.lemma_lighter(mv);
    }
}

/// The value of a position lies between a loss and a win.
pub proof fn lemma_negamax_range(pos: Position, depth: nat)
    requires
        pos.wf(),
    ensures
        -WIN_SCORE <= negamax(pos, depth) <= WIN_SCORE,
    decreases depth, pos.weight(), 2nat, 0nat,
{
    pos.lemma_score_range();
    if depth > 0 && pos.legal_moves().len() > 0 {
        lemma_best_among_range(pos, (depth - 1) as nat, pos.legal_moves().len());
    }
}

/// The value of a legal move lies between a loss and a win.
pub proof fn lemma_reply_value_range(pos: Position, rest: nat, mv: Move)
    requires
        pos.wf(),
        pos.legal(mv),
    ensures
        -WIN_SCORE <= reply_value(pos, rest, mv) <= WIN_SCORE,
    decreases rest + 1, pos.weight(), 0nat, 0nat,
{
    let next = pos.after_move(mv);
    pos.lemma_moved(mv);
    if next.mover() == pos.mover() && next.weight() < pos.weight() {
        lemma_negamax_range(next, rest + 1);
    } else {
        lemma_negamax_range(next, rest);
    }
}

/// The best value among some legal moves lies between a loss and a win,
/// and is no less than the best value among fewer.
pub proof fn lemma_best_among_range(pos: Position, rest: nat, n: nat)
    requires
        pos.wf(),
        n <= pos.legal_moves().len(),
    ensures
        n > 0 ==> -WIN_SCORE <= best_among(pos, rest, n) <= WIN_SCORE,
        n > 0 ==> best_among(pos, rest, (n - 1) as nat) <= best_among(pos, rest, n),
        n > 0 ==> reply_value(pos, rest, pos.legal_moves()[n - 1]) <= best_among(pos, rest, n),
    decreases rest + 1, pos.weight(), 1nat, n,
{
    if n > 0 {
        let mv = pos.legal_moves()[n - 1];
        assert(pos.legal_moves().contains(mv));
        lemma_reply_value_range(pos, rest, mv);
        lemma_best_among_range(pos, rest, (n - 1) as nat);
    }
}

/// The best value among some legal moves is no less than the best value
/// among fewer.
pub proof fn lemma_best_among_monotone(pos: Position, rest: nat, n: nat, m: nat)
    requires
        pos.wf(),
        n <= m <= pos.legal_moves().len(),
    ensures
        best_among(pos, rest, n) <= best_among(pos, rest, m),
    decreases m - n,
{
    if n < m {
        lemma_best_among_range(pos, rest, m);
        lemma_best_among_monotone(pos, rest, n, (m - 1) as nat);
    }
}

/// The first best of some legal moves is one of them, its value is the best
/// value among them, and every move before it has a lesser value.
pub proof fn lemma_first_best(pos: Position, rest: nat, n: nat)
    requires
        pos.wf(),
        0 < n <= pos.legal_moves().len(),
    ensures
        0 <= first_best(pos, rest, n) < n,
        reply_value(pos, rest, pos.legal_moves()[first_best(pos, rest, n)]) == best_among(
            pos,
            rest,
            n,
        ),
        forall|i: int|
            0 <= i < first_best(pos, rest, n) ==> reply_value(pos, rest, #[trigger] pos.legal_moves()[i])
                < best_among(pos, rest, n),
    decreases n,
{
    lemma_best_among_range(pos, rest, n);
    if n > 1 {
        lemma_first_best(pos, rest, (n - 1) as nat);
        lemma_best_among_range(pos, rest, (n - 1) as nat);
        assert forall|i: int| 0 <= i < first_best(pos, rest, n) implies reply_value(
            pos,
            rest,
            #[trigger] pos.legal_moves()[i],
        ) < best_among(pos, rest, n) by {
            lemma_best_among_monotone(pos, rest, (i + 1) as nat, (n - 1) as nat);
            lemma_best_among_range(pos, rest, (i + 1) as nat);
        }
    } else {
        assert(best_among(pos, rest, 0) == -SCORE_BOUND);
    }
}

/// A move with its score for the side that plays it.
#[derive(Debug, Copy, Clone)]
pub struct ScoredMove {
    pub mv: Option<Move>,
    pub score: i8,
}

/// Scores a position for the side to move: positive numbers are good for
/// it, negative numbers bad.
pub fn count_score(board: &Board) -> (score: i8)
    requires
        board.wf(),
    ensures
        score == board@.score(),
{
    let who_turn = board.who_turn();
    match board.who_win() {
        Some(x) => if x == who_turn {
            WIN_SCORE
        } else {
            -WIN_SCORE
        },
        None => {
            let white = board.count(Cell::White) as i8;
            let black = board.count(Cell::Black) as i8;
            match who_turn {
                Side::White => white - black,
                Side::Black => black - white,
            }
        },
    }
}

/// What a search of the first `n` legal moves has found, within the window
/// from `lo` to `hi`: `best` is the best score returned so far and `at` the
/// index of the first move that returned it; `alpha` is the lower bound of
/// the window that the next move is searched with.
#[verifier::opaque]
pub open spec fn searched(
    pos: Position,
    rest: nat,
    n: nat,
    lo: int,
    hi: int,
    alpha: int,
    best: int,
    at: int,
) -> bool {
    &&& lo <= alpha
    &&& alpha <= lo || alpha <= best
    &&& n == 0 ==> best == -SCORE_BOUND
    &&& n > 0 ==> -WIN_SCORE <= best <= WIN_SCORE && 0 <= at < n
    &&& best < hi ==> best_among(pos, rest, n) <= best
    &&& best > lo ==> best_among(pos, rest, n) >= best
    &&& n > 0 && lo < best < hi ==> at == first_best(pos, rest, n)
}

pub proof fn lemma_searched_none(pos: Position, rest: nat, lo: int, hi: int)
    requires
        -SCORE_BOUND <= lo,
    ensures
        searched(pos, rest, 0, lo, hi, lo, -SCORE_BOUND as int, 0),
{
    reveal(searched);
}

/// One more move searched: its score, found within the window from `alpha`
/// to `hi`, bounds its value as a score of a search does.
pub proof fn lemma_searched_next(
    pos: Position,
    rest: nat,
    n: nat,
    lo: int,
    hi: int,
    alpha: int,
    best: int,
    at: int,
    score: int,
    raised: int,
)
    requires
        pos.wf(),
        n < pos.legal_moves().len(),
        searched(pos, rest, n, lo, hi, alpha, best, at),
        alpha < hi,
        -WIN_SCORE <= score <= WIN_SCORE,
        score < hi ==> reply_value(pos, rest, pos.legal_moves()[n as int]) <= score,
        score > alpha ==> reply_value(pos, rest, pos.legal_moves()[n as int]) >= score,
        raised == alpha || (raised == score && score > alpha),
    ensures
        searched(
            pos,
            rest,
            n + 1,
            lo,
            hi,
            raised,
            if score > best { score } else { best },
            if score > best { n as int } else { at },
        ),
        raised >= hi ==> (if score > best { score } else { best }) >= hi,
{
    reveal(searched);
    lemma_best_among_range(pos, rest, n + 1);
    lemma_first_best(pos, rest, n + 1);
    if n > 0 {
        lemma_first_best(pos, rest, n);
        lemma_best_among_range(pos, rest, n);
    }
}

/// What the search has found once it stops, having searched every move or
/// found a score that reaches the top of the window.
pub proof fn lemma_searched_all(
    pos: Position,
    depth: nat,
    n: nat,
    lo: int,
    hi: int,
    alpha: int,
    best: int,
    at: int,
)
    requires
        pos.wf(),
        depth >= 1,
        0 < n <= pos.legal_moves().len(),
        searched(pos, (depth - 1) as nat, n, lo, hi, alpha, best, at),
        n == pos.legal_moves().len() || best >= hi,
    ensures
        -WIN_SCORE <= best <= WIN_SCORE,
        0 <= at < n,
        best < hi ==> negamax(pos, depth) <= best,
        best > lo ==> negamax(pos, depth) >= best,
        lo < best < hi ==> Some(pos.legal_moves()[at]) == chosen_move(pos, depth),
{
    reveal(searched);
    lemma_best_among_monotone(pos, (depth - 1) as nat, n, pos.legal_moves().len());
}

/// Searches `depth` turns ahead for the best move of the side to move,
/// leaving out what cannot matter within the window from `incoming_alpha`
/// to `incoming_beta`. A score inside the window is the value of the
/// position and comes with the move that the unpruned search would choose;
/// a score at or below the window bounds the value from above, one at or
/// above it bounds the value from below.
pub fn compute_best_move(
    board: &mut Board,
    depth: usize,
    incoming_alpha: i8,
    incoming_beta: i8,
) -> (best: ScoredMove)
    requires
        old(board).wf(),
        -SCORE_BOUND <= incoming_alpha < incoming_beta <= SCORE_BOUND,
    ensures
        *final(board) == *old(board),
        -WIN_SCORE <= best.score <= WIN_SCORE,
        best.score < incoming_beta ==> negamax(old(board)@, depth as nat) <= best.score,
        best.score > incoming_alpha ==> negamax(old(board)@, depth as nat) >= best.score,
        incoming_alpha < -WIN_SCORE && WIN_SCORE < incoming_beta ==> best.score == negamax(
            old(board)@,
            depth as nat,
        ),
        best.mv is None <==> depth == 0 || old(board)@.legal_moves().len() == 0,
        incoming_alpha < best.score < incoming_beta ==> best.mv == chosen_move(
            old(board)@,
            depth as nat,
        ),
    decreases depth, old(board)@.weight(),
{
    let ghost pos = board@;
    proof {
        pos.lemma_score_range();
    }
    let board_score = count_score(board);
    if depth == 0 {
        return ScoredMove { mv: None, score: board_score };
    }
    let mvs = board.all_available_moves();
    let mvs_amount = mvs.len();
    if mvs_amount == 0 {
        return ScoredMove { mv: None, score: board_score };
    }
    let ghost rest = (depth - 1) as nat;
    let ghost mut at: int = 0;
    let mut best_mv = ScoredMove { mv: None, score: -SCORE_BOUND };
    let mut alpha = incoming_alpha;
    let mut i: usize = 0;
    proof {
        lemma_searched_none(pos, rest, incoming_alpha as int, incoming_beta as int);
    }
    while i < mvs_amount
        invariant_except_break
            alpha < incoming_beta,
            searched(
                pos,
                rest,
                i as nat,
                incoming_alpha as int,
                incoming_beta as int,
                alpha as int,
                best_mv.score as int,
                at,
            ),
            i > 0 ==> 0 <= at < i && best_mv.mv == Some(mvs@[at]),
        invariant
            pos == old(board)@,
            pos.wf(),
            *board == *old(board),
            depth >= 1,
            rest == depth - 1,
            mvs@ == pos.legal_moves(),
            mvs_amount == mvs.len(),
            mvs_amount > 0,
            0 <= i <= mvs_amount,
            -SCORE_BOUND <= incoming_alpha < incoming_beta <= SCORE_BOUND,
            -SCORE_BOUND <= alpha <= SCORE_BOUND,
        ensures
            0 < i <= mvs_amount,
            0 <= at < i,
            best_mv.mv == Some(mvs@[at]),
            searched(
                pos,
                rest,
                i as nat,
                incoming_alpha as int,
                incoming_beta as int,
                alpha as int,
                best_mv.score as int,
                at,
            ),
            i == mvs_amount || best_mv.score >= incoming_beta,
        decreases mvs_amount - i,
    {
        let mv = mvs[i];
        let ghost lower = alpha;
        let ghost found = best_mv.score;
        let ghost found_at = at;
        proof {
            assert(pos.legal_moves().contains(mv));
        }
        let mut test_board = *board;
        test_board.do_move_without_checks(mv);
        let score: i8;
        let mut cutoff = false;
        if test_board.who_turn() == board.who_turn() {
            proof {
                pos.lemma_lighter(mv);
            }
            score = compute_best_move(&mut test_board, depth, alpha, incoming_beta).score;
        } else {
            let reply = compute_best_move(&mut test_board, depth - 1, -incoming_beta, -alpha);
            score = -reply.score;
            if score > alpha {
                alpha = score;
            }
            cutoff = incoming_beta <= alpha;
        }
        if score > best_mv.score {
            best_mv = ScoredMove { mv: Some(mv), score };
            proof {
                at = i as int;
            }
        }
        proof {
            lemma_searched_next(
                pos,
                rest,
                i as nat,
                incoming_alpha as int,
                incoming_beta as int,
                lower as int,
                found as int,
                found_at,
                score as int,
                alpha as int,
            );
            reveal(searched);
        }
        i += 1;
        if cutoff {
            break ;
        }
    }
    proof {
        lemma_searched_all(
            pos,
            depth as nat,
            i as nat,
            incoming_alpha as int,
            incoming_beta as int,
            alpha as int,
            best_mv.score as int,
            at,
        );
    }
    best_mv
}

/// The chosen move is a legal move.
pub proof fn lemma_chosen_move(pos: Position, depth: nat)
    requires
        pos.wf(),
    ensures
        chosen_move(pos, depth) is None <==> depth == 0 || pos.legal_moves().len() == 0,
        chosen_move(pos, depth) matches Some(mv) ==> pos.legal(mv),
{
    if depth > 0 && pos.legal_moves().len() > 0 {
        lemma_first_best(pos, (depth - 1) as nat, pos.legal_moves().len());
        let at = first_best(pos, (depth - 1) as nat, pos.legal_moves().len());
        assert(pos.legal_moves().contains(pos.legal_moves()[at]));
    }
}

/// The move that a search `depth` turns ahead finds best for the side to
/// move: none if `depth` is zero or no move is legal, else the first legal
/// move of the best value.
pub fn best_move(board: &mut Board, depth: usize) -> (mv: Option<Move>)
    requires
        old(board).wf(),
    ensures
        *final(board) == *old(board),
        mv == chosen_move(old(board)@, depth as nat),
        mv is None <==> depth == 0 || old(board)@.legal_moves().len() == 0,
        mv matches Some(m) ==> old(board)@.legal(m),
{
    proof {
        lemma_chosen_move(board@, depth as nat);
    }
    compute_best_move(board, depth, -SCORE_BOUND, SCORE_BOUND).mv
}

pub fn chouse_move5(board: &mut Board) -> (mv: Option<Move>)
    requires
        old(board).wf(),
    ensures
        *final(board) == *old(board),
        mv == chosen_move(old(board)@, 5),
        mv is None <==> old(board)@.legal_moves().len() == 0,
        mv matches Some(m) ==> old(board)@.legal(m),
{
    best_move(board, 5)
}

pub fn chouse_move10(board: &mut Board) -> (mv: Option<Move>)
    requires
        old(board).wf(),
    ensures
        *final(board) == *old(board),
        mv == chosen_move(old(board)@, 10),
        mv is None <==> old(board)@.legal_moves().len() == 0,
        mv matches Some(m) ==> old(board)@.legal(m),
{
    best_move(board, 10)
}

pub fn chouse_move15(board: &mut Board) -> (mv: Option<Move>)
    requires
        old(board).wf(),
    ensures
        *final(board) == *old(board),
        mv == chosen_move(old(board)@, 15),
        mv is None <==> old(board)@.legal_moves().len() == 0,
        mv matches Some(m) ==> old(board)@.legal(m),
{
    best_move(board, 15)
}

} // verus!
