//! The board of a game and the pieces on it: construction, the legal moves,
//! playing a move, and what the game has come to.

use vstd::prelude::*;
use crate::rules::{
    Diagonal, Position, PLY_LIMIT, hop, on_board, playable, start_cell, row_count, grid_count,
    heading, span, swept, crowned, starts_on, with_cell,
};
use crate::legality::diagonal;
use crate::sequences::{lemma_filter_push, lemma_joined};
use crate::invariants::along;

verus! {

/// What a square of the board holds.
#[derive(Debug, Copy, Clone, PartialEq, Eq, Structural)]
pub enum Cell {
    White,
    Black,
    WhiteKing,
    BlackKing,
    Empty,
}

/// A square of the board, by column `x` and row `y`.
#[derive(Copy, Clone, PartialEq, Eq, Structural, Debug)]
pub struct Point {
    pub x: usize,
    pub y: usize,
}

/// A piece leaving `from` and landing on `to`.
#[derive(Copy, Clone, PartialEq, Eq, Structural, Debug)]
pub struct Move {
    pub from: Point,
    pub to: Point,
}

/// Whose turn it is, or how the game ended.
#[derive(Copy, Clone, PartialEq, Eq, Structural, Debug)]
pub enum State {
    WhiteTurn,
    BlackTurn,
    WhiteWin,
    BlackWin,
    Draw,
}

/// One of the two players, by the colour of the pieces.
#[derive(PartialEq, Eq, Structural, Copy, Clone, Debug)]
pub enum Side {
    White,
    Black,
}

impl Point {
    pub fn new(x: usize, y: usize) -> (p: Self)
        ensures
            p == (Point { x, y }),
    {
        Self { x, y }
    }
}

impl Move {
    pub fn new(from_x: usize, from_y: usize, to_x: usize, to_y: usize) -> (mv: Self)
        ensures
            mv == (Move { from: Point { x: from_x, y: from_y }, to: Point { x: to_x, y: to_y } }),
    {
        Move { from: Point { x: from_x, y: from_y }, to: Point { x: to_x, y: to_y } }
    }
}

impl Side {
    /// The opponent of this side.
    pub open spec fn other(self) -> Side {
        match self {
            Side::White => Side::Black,
            Side::Black => Side::White,
        }
    }

    /// The opponent of this side.
    pub fn opponent(self) -> (s: Side)
        ensures
            s == self.other(),
    {
        match self {
            Side::White => Side::Black,
            Side::Black => Side::White,
        }
    }
}

impl Cell {
    /// The side that owns the piece on this square, if there is one.
    pub open spec fn side(self) -> Option<Side> {
        match self {
            Cell::White | Cell::WhiteKing => Some(Side::White),
            Cell::Black | Cell::BlackKing => Some(Side::Black),
            Cell::Empty => None,
        }
    }

    pub open spec fn is_king(self) -> bool {
        self is WhiteKing || self is BlackKing
    }

    /// Whether a square holding `self` is tallied under `kind`: `White` and
    /// `Black` stand for all pieces of that colour, men and kings together;
    /// every other kind stands for exactly itself.
    pub open spec fn counts_as(self, kind: Cell) -> bool {
        match kind {
            Cell::White => self.side() == Some(Side::White),
            Cell::Black => self.side() == Some(Side::Black),
            _ => self == kind,
        }
    }

    /// Whether a square holding `self` is tallied under `kind`.
    pub fn tallied_as(self, kind: Cell) -> (b: bool)
        ensures
            b == self.counts_as(kind),
    {
        match kind {
            Cell::White => self.owner() == Some(Side::White),
            Cell::Black => self.owner() == Some(Side::Black),
            _ => self == kind,
        }
    }

    /// The cell that a layout symbol stands for.
    pub fn from_symbol(c: char) -> (cell: Cell)
        ensures
            cell == Cell::of_symbol(c),
    {
        if c == 'b' {
            Cell::Black
        } else if c == 'w' {
            Cell::White
        } else if c == 'W' {
            Cell::WhiteKing
        } else if c == 'B' {
            Cell::BlackKing
        } else {
            Cell::Empty
        }
    }

    /// The side that owns the piece on this square, if there is one.
    pub fn owner(self) -> (s: Option<Side>)
        ensures
            s == self.side(),
    {
        match self {
            Cell::White | Cell::WhiteKing => Some(Side::White),
            Cell::Black | Cell::BlackKing => Some(Side::Black),
            Cell::Empty => None,
        }
    }

    /// The symbol that stands for this cell: `w`, `b` for men, `W`, `B` for
    /// kings, a blank for an empty square.
    pub open spec fn symbol(self) -> char {
        match self {
            Cell::White => 'w',
            Cell::Black => 'b',
            Cell::WhiteKing => 'W',
            Cell::BlackKing => 'B',
            Cell::Empty => ' ',
        }
    }

    /// The symbol of this cell as a text, which a layout reads back as the
    /// same cell.
    pub fn to_text(&self) -> (text: String)
        ensures
            text@ == seq![self.symbol()],
            Cell::of_symbol(text@[0]) == *self,
    {
        proof {
            reveal_strlit("w");
            reveal_strlit("b");
            reveal_strlit("W");
            reveal_strlit("B");
            reveal_strlit(" ");
        }
        match *self {
            Cell::White => "w".to_string(),
            Cell::Black => "b".to_string(),
            Cell::WhiteKing => "W".to_string(),
            Cell::BlackKing => "B".to_string(),
            Cell::Empty => " ".to_string(),
        }
    }

    /// The cell that a layout symbol stands for: `w`, `b` for men, `W`, `B`
    /// for kings, anything else for an empty square.
    pub open spec fn of_symbol(c: char) -> Cell {
        if c == 'b' {
            Cell::Black
        } else if c == 'w' {
            Cell::White
        } else if c == 'W' {
            Cell::WhiteKing
        } else if c == 'B' {
            Cell::BlackKing
        } else {
            Cell::Empty
        }
    }
}

impl State {
    pub open spec fn ended(self) -> bool {
        self is WhiteWin || self is BlackWin || self is Draw
    }

    /// The side to move. By convention the loser of a decided game, and
    /// White after a draw.
    pub open spec fn mover(self) -> Side {
        match self {
            State::WhiteTurn => Side::White,
            State::BlackTurn => Side::Black,
            State::WhiteWin => Side::Black,
            State::BlackWin => Side::White,
            State::Draw => Side::White,
        }
    }

    pub open spec fn winner(self) -> Option<Side> {
        match self {
            State::WhiteWin => Some(Side::White),
            State::BlackWin => Some(Side::Black),
            _ => None,
        }
    }

    /// The state once the turn has passed to the other side.
    pub open spec fn passed(self) -> State {
        match self {
            State::WhiteTurn => State::BlackTurn,
            State::BlackTurn => State::WhiteTurn,
            s => s,
        }
    }

    /// The state once the side to move has been found unable to move.
    pub open spec fn stuck(self) -> State {
        match self {
            State::WhiteTurn => State::BlackWin,
            State::BlackTurn => State::WhiteWin,
            s => s,
        }
    }
}

/// A game of checkers: the grid, whose turn it is, and the bookkeeping that
/// the rules need. Its view is the [`Position`] that the rules speak of.
#[derive(Copy, Clone)]
pub struct Board {
    field: [[Cell; 8]; 8],
    state: State,
    pub move_amount: usize,
    prev_turn_jump: Option<Point>,
    white_amount: usize,
    black_amount: usize,
}

impl View for Board {
    type V = Position;

    closed spec fn view(&self) -> Position {
        Position {
            grid: Seq::new(8, |y: int| self.field[y]@),
            state: self.state,
            ply: self.move_amount as nat,
            forced: self.prev_turn_jump,
            white: self.white_amount as nat,
            black: self.black_amount as nat,
        }
    }
}

impl Board {
    /// The board's position is well formed.
    pub open spec fn wf(&self) -> bool {
        self@.wf()
    }

    pub fn get_cell(&self, x: usize, y: usize) -> (c: Cell)
        requires
            x < 8,
            y < 8,
        ensures
            c == self@.at(x as int, y as int),
    {
        self.field[y][x]
    }

    /// Whether `(x, y)` is a dark square.
    pub fn is_playable_cell(&self, x: usize, y: usize) -> (p: bool)
        ensures
            p == playable(x as int, y as int),
    {
        (y % 2 + x % 2) % 2 != 0
    }

    /// Counts the vacant squares in a row along `d` from `(x, y)`, starting
    /// `k` steps away.
    fn clear_run(&self, x: usize, y: usize, d: Diagonal, k: usize) -> (n: usize)
        requires
            x < 8,
            y < 8,
            1 <= k <= 8,
        ensures
            n == self@.run(x as int, y as int, d, k as int),
            k + n <= 8,
    {
        let mut i: usize = k;
        loop
            invariant
                x < 8,
                y < 8,
                1 <= k <= i <= 8,
                self@.run(x as int, y as int, d, k as int) == (i - k) + self@.run(
                    x as int,
                    y as int,
                    d,
                    i as int,
                ),
            ensures
                self@.run(x as int, y as int, d, i as int) == 0,
            decreases 8 - i,
        {
            match d.reach(x, y, i) {
                Some(p) => {
                    if i < 8 && self.field[p.y][p.x] == Cell::Empty {
                        i += 1;
                    } else {
                        break ;
                    }
                },
                None => {
                    break ;
                },
            }
        }
        i - k
    }

    /// Appends the moves from `(x, y)` to the `n` squares along `d` that
    /// start `first` steps away.
    fn add_moves_along(moves: &mut Vec<Move>, x: usize, y: usize, d: Diagonal, first: usize, n: usize)
        requires
            x < 8,
            y < 8,
            1 <= first,
            first + n <= 8,
            n > 0 ==> on_board(d.x_at(x as int, first + n - 1), d.y_at(y as int, first + n - 1)),
        ensures
            final(moves)@ == old(moves)@ + Seq::new(
                n as nat,
                |i: int| hop(x as int, y as int, d, first + i),
            ),
    {
        let mut i: usize = 0;
        while i < n
            invariant
                x < 8,
                y < 8,
                1 <= first,
                first + n <= 8,
                i <= n,
                n > 0 ==> on_board(
                    d.x_at(x as int, first + n - 1),
                    d.y_at(y as int, first + n - 1),
                ),
                moves@ == old(moves)@ + Seq::new(
                    i as nat,
                    |j: int| hop(x as int, y as int, d, first + j),
                ),
            decreases n - i,
        {
            let to = d.reach(x, y, first + i);
            assert(on_board(d.x_at(x as int, first + i), d.y_at(y as int, first + i)));
            match to {
                Some(p) => {
                    moves.push(Move::new(x, y, p.x, p.y));
                },
                None => {},
            }
            i += 1;
        }
    }
}

// Move generation.
impl Board {
    fn add_normal_moves_for_king_along(&self, moves: &mut Vec<Move>, x: usize, y: usize, d: Diagonal)
        requires
            x < 8,
            y < 8,
        ensures
            final(moves)@ == old(moves)@ + self@.king_steps_along(x as int, y as int, d),
    {
        let n = self.clear_run(x, y, d, 1);
        proof {
            if n > 0 {
                self@.lemma_run_vacant(x as int, y as int, d, 1, n - 1);
            }
        }
        Self::add_moves_along(moves, x, y, d, 1, n);
    }

    fn add_normal_moves_for_king(&self, moves: &mut Vec<Move>, x: usize, y: usize)
        requires
            x < 8,
            y < 8,
        ensures
            final(moves)@ == old(moves)@ + self@.king_steps(x as int, y as int),
    {
        self.add_normal_moves_for_king_along(moves, x, y, Diagonal { right: true, down: true });
        self.add_normal_moves_for_king_along(moves, x, y, Diagonal { right: false, down: false });
        self.add_normal_moves_for_king_along(moves, x, y, Diagonal { right: true, down: false });
        self.add_normal_moves_for_king_along(moves, x, y, Diagonal { right: false, down: true });
    }

    /// Whether `p` holds a piece of `side`.
    fn holds(&self, p: Option<Point>, side: Side) -> (b: bool)
        requires
            p matches Some(q) ==> q.x < 8 && q.y < 8,
        ensures
            b == (p matches Some(q) && self@.holds(q.x as int, q.y as int, side)),
    {
        match p {
            Some(q) => self.field[q.y][q.x].owner() == Some(side),
            None => false,
        }
    }

    /// Whether `p` is a vacant square.
    fn vacant(&self, p: Option<Point>) -> (b: bool)
        requires
            p matches Some(q) ==> q.x < 8 && q.y < 8,
        ensures
            b == (p matches Some(q) && self@.vacant(q.x as int, q.y as int)),
    {
        match p {
            Some(q) => self.field[q.y][q.x] == Cell::Empty,
            None => false,
        }
    }

    fn add_jump_move_for_king(&self, moves: &mut Vec<Move>, x: usize, y: usize, d: Diagonal, side: Side)
        requires
            x < 8,
            y < 8,
        ensures
            final(moves)@ == old(moves)@ + self@.king_jumps_along(x as int, y as int, d, side),
    {
        let j = self.clear_run(x, y, d, 1) + 1;
        if self.holds(d.reach(x, y, j), side.opponent()) {
            let n = self.clear_run(x, y, d, j + 1);
            proof {
                if n > 0 {
                    self@.lemma_run_vacant(x as int, y as int, d, j + 1, n - 1);
                }
            }
            Self::add_moves_along(moves, x, y, d, j + 1, n);
        }
    }

    fn add_jump_moves_for_king(&self, moves: &mut Vec<Move>, x: usize, y: usize, side: Side)
        requires
            x < 8,
            y < 8,
        ensures
            final(moves)@ == old(moves)@ + self@.king_jumps(x as int, y as int, side),
    {
        let ghost a = self@.king_jumps_along(x as int, y as int, Diagonal { right: true, down: true }, side);
        let ghost b = self@.king_jumps_along(x as int, y as int, Diagonal { right: false, down: false }, side);
        let ghost c = self@.king_jumps_along(x as int, y as int, Diagonal { right: true, down: false }, side);
        self.add_jump_move_for_king(moves, x, y, Diagonal { right: true, down: true }, side);
        self.add_jump_move_for_king(moves, x, y, Diagonal { right: false, down: false }, side);
        self.add_jump_move_for_king(moves, x, y, Diagonal { right: true, down: false }, side);
        self.add_jump_move_for_king(moves, x, y, Diagonal { right: false, down: true }, side);
        proof {
            let d = self@.king_jumps_along(x as int, y as int, Diagonal { right: false, down: true }, side);
            lemma_joined(old(moves)@, a, b, c, d);
        }
    }

    fn add_checker_jump_move_if_awailabel(
        &self,
        moves: &mut Vec<Move>,
        x: usize,
        y: usize,
        d: Diagonal,
        side: Side,
    )
        requires
            x < 8,
            y < 8,
        ensures
            final(moves)@ == old(moves)@ + self@.man_jump(x as int, y as int, d, side),
    {
        let to = d.reach(x, y, 2);
        if self.vacant(to) && self.holds(d.reach(x, y, 1), side.opponent()) {
            match to {
                Some(p) => {
                    moves.push(Move::new(x, y, p.x, p.y));
                },
                None => {},
            }
        }
    }

    fn add_jump_moves_for_checker(&self, moves: &mut Vec<Move>, x: usize, y: usize, side: Side)
        requires
            x < 8,
            y < 8,
        ensures
            final(moves)@ == old(moves)@ + self@.man_jumps(x as int, y as int, side),
    {
        let ghost a = self@.man_jump(x as int, y as int, Diagonal { right: false, down: false }, side);
        let ghost b = self@.man_jump(x as int, y as int, Diagonal { right: false, down: true }, side);
        let ghost c = self@.man_jump(x as int, y as int, Diagonal { right: true, down: false }, side);
        self.add_checker_jump_move_if_awailabel(moves, x, y, Diagonal { right: false, down: false }, side);
        self.add_checker_jump_move_if_awailabel(moves, x, y, Diagonal { right: false, down: true }, side);
        self.add_checker_jump_move_if_awailabel(moves, x, y, Diagonal { right: true, down: false }, side);
        self.add_checker_jump_move_if_awailabel(moves, x, y, Diagonal { right: true, down: true }, side);
        proof {
            let d = self@.man_jump(x as int, y as int, Diagonal { right: true, down: true }, side);
            lemma_joined(old(moves)@, a, b, c, d);
        }
    }

    fn add_normal_move_for_checker(&self, moves: &mut Vec<Move>, x: usize, y: usize, d: Diagonal)
        requires
            x < 8,
            y < 8,
        ensures
            final(moves)@ == old(moves)@ + self@.man_step(x as int, y as int, d),
    {
        let to = d.reach(x, y, 1);
        if self.vacant(to) {
            match to {
                Some(p) => {
                    moves.push(Move::new(x, y, p.x, p.y));
                },
                None => {},
            }
        }
    }

    fn add_normal_moves_for_checker(&self, moves: &mut Vec<Move>, x: usize, y: usize, side: Side)
        requires
            x < 8,
            y < 8,
        ensures
            final(moves)@ == old(moves)@ + self@.man_steps(x as int, y as int, side),
    {
        let down = side == Side::Black;
        self.add_normal_move_for_checker(moves, x, y, Diagonal { right: false, down });
        self.add_normal_move_for_checker(moves, x, y, Diagonal { right: true, down });
    }

    /// The side to move and whether its piece on `(x, y)` is a king, if the
    /// game is going on and the square holds a piece of that side.
    fn playing_piece(&self, x: usize, y: usize) -> (r: Option<(Side, bool)>)
        requires
            x < 8,
            y < 8,
        ensures
            r is Some <==> self@.playing(x as int, y as int),
            r matches Some((side, king)) ==> side == self@.mover() && king == self@.at(
                x as int,
                y as int,
            ).is_king(),
    {
        let side = match self.state {
            State::WhiteTurn => Side::White,
            State::BlackTurn => Side::Black,
            _ => {
                return None;
            },
        };
        let c = self.field[y][x];
        if c.owner() == Some(side) {
            Some((side, c == Cell::WhiteKing || c == Cell::BlackKing))
        } else {
            None
        }
    }

    fn add_jump_moves_for_checker_or_king(&self, moves: &mut Vec<Move>, x: usize, y: usize)
        requires
            x < 8,
            y < 8,
        ensures
            final(moves)@ == old(moves)@ + self@.piece_jumps(x as int, y as int),
    {
        match self.playing_piece(x, y) {
            Some((side, true)) => self.add_jump_moves_for_king(moves, x, y, side),
            Some((side, false)) => self.add_jump_moves_for_checker(moves, x, y, side),
            None => {},
        }
    }

    fn add_normal_moves_for_checker_or_king(&self, moves: &mut Vec<Move>, x: usize, y: usize)
        requires
            x < 8,
            y < 8,
        ensures
            final(moves)@ == old(moves)@ + self@.piece_steps(x as int, y as int),
    {
        match self.playing_piece(x, y) {
            Some((_, true)) => self.add_normal_moves_for_king(moves, x, y),
            Some((side, false)) => self.add_normal_moves_for_checker(moves, x, y, side),
            None => {},
        }
    }

    /// Appends the jumps, or the steps, of every piece, row by row.
    fn add_moves_for_all_checkers_and_kings(&self, moves: &mut Vec<Move>, jump: bool)
        ensures
            final(moves)@ == old(moves)@ + self@.grid_moves(8, jump),
    {
        let mut y: usize = 0;
        while y < 8
            invariant
                y <= 8,
                moves@ == old(moves)@ + self@.grid_moves(y as int, jump),
            decreases 8 - y,
        {
            let ghost before = moves@;
            let mut x: usize = 0;
            while x < 8
                invariant
                    y < 8,
                    x <= 8,
                    moves@ == before + self@.row_moves(y as int, x as int, jump),
                decreases 8 - x,
            {
                if jump {
                    self.add_jump_moves_for_checker_or_king(moves, x, y);
                } else {
                    self.add_normal_moves_for_checker_or_king(moves, x, y);
                }
                x += 1;
            }
            y += 1;
        }
    }

    fn add_forced_moves_for_all_checkers_and_kings(&self, moves: &mut Vec<Move>)
        requires
            self.wf(),
        ensures
            final(moves)@ == old(moves)@ + self@.jumps(),
    {
        match self.prev_turn_jump {
            Some(p) => self.add_jump_moves_for_checker_or_king(moves, p.x, p.y),
            None => self.add_moves_for_all_checkers_and_kings(moves, true),
        }
    }

    /// The legal moves of the side to move, in the order in which the rules
    /// list them. The board is left as it was.
    pub fn all_available_moves(&mut self) -> (moves: Vec<Move>)
        requires
            old(self).wf(),
        ensures
            moves@ == old(self)@.legal_moves(),
            *final(self) == *old(self),
    {
        let mut available_moves = Vec::with_capacity(40);
        self.add_forced_moves_for_all_checkers_and_kings(&mut available_moves);
        if available_moves.len() != 0 {
            return available_moves;
        }
        self.add_moves_for_all_checkers_and_kings(&mut available_moves, false);
        available_moves
    }
}

/// The layout as the sequences that the rules speak of.
pub open spec fn layout_view(arr: [[char; 8]; 8]) -> Seq<Seq<char>> {
    Seq::new(8, |y: int| arr[y]@)
}

// Construction and queries.
impl Board {
    /// Counts the squares tallied under `kind`.
    fn tally(field: &[[Cell; 8]; 8], kind: Cell) -> (n: usize)
        ensures
            n == grid_count(Seq::new(8, |y: int| field[y]@), kind, 8),
            n <= 64,
    {
        let ghost grid = Seq::new(8, |y: int| field[y]@);
        let mut result: usize = 0;
        let mut y: usize = 0;
        while y < 8
            invariant
                y <= 8,
                grid == Seq::new(8, |y: int| field[y]@),
                result == grid_count(grid, kind, y as int),
                result <= 8 * y,
            decreases 8 - y,
        {
            let ghost before = result;
            let mut x: usize = 0;
            while x < 8
                invariant
                    y < 8,
                    x <= 8,
                    grid == Seq::new(8, |y: int| field[y]@),
                    result == before + row_count(grid[y as int], kind, x as int),
                    before <= 8 * y,
                    result <= before + x,
                decreases 8 - x,
            {
                if field[y][x].tallied_as(kind) {
                    result += 1;
                }
                x += 1;
            }
            y += 1;
        }
        result
    }

    /// The board from which a game starts.
    pub fn new() -> (board: Self)
        ensures
            board@ == Position::start(),
            board.wf(),
    {
        let mut field = [[Cell::Empty; 8]; 8];
        let mut y: usize = 0;
        while y < 8
            invariant
                y <= 8,
                forall|i: int, j: int|
                    0 <= i < 8 && 0 <= j < y ==> (#[trigger] field[j][i]) == start_cell(i, j),
            decreases 8 - y,
        {
            let mut x: usize = 0;
            while x < 8
                invariant
                    y < 8,
                    x <= 8,
                    forall|i: int, j: int|
                        0 <= i < 8 && 0 <= j < y ==> (#[trigger] field[j][i]) == start_cell(i, j),
                    forall|i: int| 0 <= i < x ==> (#[trigger] field[y as int][i]) == start_cell(i, y as int),
                decreases 8 - x,
            {
                let dark = (y % 2 + x % 2) % 2 != 0;
                field[y][x] = if dark && y < 3 {
                    Cell::Black
                } else if dark && y >= 5 {
                    Cell::White
                } else {
                    Cell::Empty
                };
                x += 1;
            }
            y += 1;
        }
        let board = Board {
            state: State::WhiteTurn,
            move_amount: 0,
            prev_turn_jump: None,
            white_amount: 12,
            black_amount: 12,
            field,
        };
        proof {
            Position::lemma_start_wf();
            assert forall|y: int| 0 <= y < 8 implies board@.grid[y] =~= Position::start().grid[y] by {
                assert forall|x: int| 0 <= x < 8 implies board@.grid[y][x] == start_cell(x, y) by {
                    assert(field[y][x] == start_cell(x, y));
                }
            }
            assert(board@.grid =~= Position::start().grid);
        }
        board
    }

    /// The board that a layout of symbols describes (`w`, `b` for men, `W`,
    /// `B` for kings, anything else for an empty square; `arr[y][x]`), with
    /// `state` as given and no ply played.
    pub fn from_arr(state: State, arr: [[char; 8]; 8]) -> (board: Self)
        ensures
            board@ == Position::of_layout(state, layout_view(arr)),
            board.wf(),
    {
        let mut field = [[Cell::Empty; 8]; 8];
        let mut y: usize = 0;
        while y < 8
            invariant
                y <= 8,
                forall|i: int, j: int|
                    0 <= i < 8 && 0 <= j < y ==> (#[trigger] field[j][i]) == Cell::of_symbol(
                        arr[j][i],
                    ),
            decreases 8 - y,
        {
            let mut x: usize = 0;
            while x < 8
                invariant
                    y < 8,
                    x <= 8,
                    forall|i: int, j: int|
                        0 <= i < 8 && 0 <= j < y ==> (#[trigger] field[j][i]) == Cell::of_symbol(
                            arr[j][i],
                        ),
                    forall|i: int|
                        0 <= i < x ==> (#[trigger] field[y as int][i]) == Cell::of_symbol(
                            arr[y as int][i],
                        ),
                decreases 8 - x,
            {
                field[y][x] = Cell::from_symbol(arr[y][x]);
                x += 1;
            }
            y += 1;
        }
        let white_amount = Self::tally(&field, Cell::White);
        let black_amount = Self::tally(&field, Cell::Black);
        let board = Board {
            state,
            move_amount: 0,
            prev_turn_jump: None,
            white_amount,
            black_amount,
            field,
        };
        proof {
            let want = Position::of_layout(state, layout_view(arr));
            assert forall|y: int| 0 <= y < 8 implies board@.grid[y] =~= want.grid[y] by {
                assert forall|x: int| 0 <= x < 8 implies board@.grid[y][x] == want.grid[y][x] by {
                    assert(field[y][x] == Cell::of_symbol(arr[y][x]));
                }
            }
            assert(board@.grid =~= want.grid);
        }
        board
    }

    pub fn is_ended(&self) -> (ended: bool)
        ensures
            ended == self@.ended(),
    {
        match self.state {
            State::WhiteWin => true,
            State::BlackWin => true,
            State::Draw => true,
            _ => false,
        }
    }

    /// The side to move; by convention the loser of a decided game, and
    /// White after a draw.
    pub fn who_turn(&self) -> (side: Side)
        ensures
            side == self@.mover(),
    {
        match self.state {
            State::WhiteTurn => Side::White,
            State::BlackTurn => Side::Black,
            State::WhiteWin => Side::Black,
            State::BlackWin => Side::White,
            _ => Side::White,
        }
    }

    pub fn who_win(&self) -> (side: Option<Side>)
        ensures
            side == self@.state.winner(),
    {
        match self.state {
            State::WhiteWin => Some(Side::White),
            State::BlackWin => Some(Side::Black),
            _ => None,
        }
    }

    /// The number of squares tallied under `cell_type`: all pieces of a
    /// colour for `White` and `Black`, else the squares that hold exactly
    /// `cell_type`.
    pub fn count(&self, cell_type: Cell) -> (n: usize)
        requires
            self.wf(),
        ensures
            n == self@.count(cell_type),
            n <= 64,
    {
        proof {
            crate::invariants::lemma_grid_count_bound(self@.grid, cell_type, 8);
        }
        match cell_type {
            Cell::Black => self.black_amount,
            Cell::White => self.white_amount,
            _ => Self::tally(&self.field, cell_type),
        }
    }
}

// Applying a move.
impl Board {
    /// Whether `moves` lists `mv`.
    fn lists(moves: &Vec<Move>, mv: Move) -> (found: bool)
        ensures
            found == moves@.contains(mv),
    {
        let mut i: usize = 0;
        while i < moves.len()
            invariant
                i <= moves.len(),
                forall|j: int| 0 <= j < i ==> moves@[j] != mv,
            decreases moves.len() - i,
        {
            if moves[i] == mv {
                return true;
            }
            i += 1;
        }
        false
    }

    /// Puts `c` on `(x, y)`.
    fn set_cell(&mut self, x: usize, y: usize, c: Cell)
        requires
            x < 8,
            y < 8,
        ensures
            final(self)@ == (Position {
                grid: with_cell(old(self)@.grid, x as int, y as int, c),
                ..old(self)@
            }),
    {
        self.field[y][x] = c;
        assert(self@.grid =~= with_cell(old(self)@.grid, x as int, y as int, c));
    }

    /// Moves the piece of `mv` to its landing square, clears every square
    /// that it left or passed over, and takes what it captured off the
    /// count. Returns whether it captured.
    fn _do_move(&mut self, mv: Move) -> (jumped: bool)
        requires
            old(self).wf(),
            old(self)@.legal(mv),
        ensures
            final(self)@ == old(self)@.lifted(mv),
            jumped == old(self)@.captures(mv),
    {
        let ghost pos = self@;
        let ghost capture = pos.captures(mv);
        proof {
            pos.lemma_moved(mv);
            pos.lemma_legal(mv);
            pos.lemma_jumps(mv);
            pos.lemma_captures(mv);
        }
        let ghost over: int = if capture {
            choose|j: int| pos.jumps_over(mv, j)
        } else {
            0
        };
        proof {
            if capture {
                pos.lemma_jump_counts(mv, over, Cell::White);
                pos.lemma_jump_counts(mv, over, Cell::Black);
            }
        }
        let piece = self.get_cell(mv.from.x, mv.from.y);
        let d = Diagonal { right: mv.to.x > mv.from.x, down: mv.to.y > mv.from.y };
        let n = if d.right {
            mv.to.x - mv.from.x
        } else {
            mv.from.x - mv.to.x
        };
        let mut jumped = false;
        let mut k: usize = 0;
        while k < n
            invariant
                k <= n,
                n == span(mv),
                d == heading(mv),
                diagonal(mv),
                pos.shaped(),
                capture ==> pos.jumps_over(mv, over),
                !capture ==> pos.is_step(mv),
                jumped == (capture && over < k),
                self@ == (Position { grid: self@.grid, ..pos }),
                self@.shaped(),
                forall|x: int, y: int|
                    0 <= x < 8 && 0 <= y < 8 ==> #[trigger] self@.grid[y][x] == if swept(mv, x, y)
                        && along(mv, x) < k {
                        Cell::Empty
                    } else {
                        pos.at(x, y)
                    },
            decreases n - k,
        {
            match d.reach(mv.from.x, mv.from.y, k) {
                Some(p) => {
                    if k != 0 && self.get_cell(p.x, p.y) != Cell::Empty {
                        proof {
                            if !capture || k != over {
                                assert(pos.vacant_at(mv, k as int));
                            }
                        }
                        jumped = true;
                    } else {
                        proof {
                            if capture && k == over {
                                assert(pos.enemy_at(mv, k as int));
                            }
                        }
                    }
                    self.set_cell(p.x, p.y, Cell::Empty);
                },
                None => {},
            }
            k += 1;
        }
        self.set_cell(mv.to.x, mv.to.y, piece);
        if jumped {
            match self.state {
                State::WhiteTurn => {
                    self.black_amount -= 1;
                },
                State::BlackTurn => {
                    self.white_amount -= 1;
                },
                _ => {},
            }
        }
        self.prev_turn_jump = None;
        proof {
            let want = pos.lifted(mv);
            assert forall|y: int| 0 <= y < 8 implies self@.grid[y] =~= want.grid[y] by {
                assert forall|x: int| 0 <= x < 8 implies self@.grid[y][x] == want.grid[y][x] by {}
            }
            assert(self@.grid =~= want.grid);
        }
        jumped
    }

    /// Crowns every man on its far row, then looks for the end of the game.
    fn update_after_move(&mut self)
        requires
            old(self)@.shaped(),
            old(self)@.ply <= PLY_LIMIT ==> old(self)@.promoted().wf(),
        ensures
            final(self)@ == old(self)@.promoted().concluded(),
    {
        let ghost pos = self@;
        let mut x: usize = 0;
        while x < 8
            invariant
                x <= 8,
                pos.shaped(),
                self@ == (Position { grid: self@.grid, ..pos }),
                self@.shaped(),
                forall|i: int, j: int|
                    0 <= i < 8 && 0 <= j < 8 ==> #[trigger] self@.grid[j][i] == if i < x {
                        crowned(pos.at(i, j), j)
                    } else {
                        pos.at(i, j)
                    },
            decreases 8 - x,
        {
            if self.get_cell(x, 0) == Cell::White {
                self.set_cell(x, 0, Cell::WhiteKing);
            }
            if self.get_cell(x, 7) == Cell::Black {
                self.set_cell(x, 7, Cell::BlackKing);
            }
            x += 1;
        }
        proof {
            let want = pos.promoted();
            assert forall|y: int| 0 <= y < 8 implies self@.grid[y] =~= want.grid[y] by {
                assert forall|x: int| 0 <= x < 8 implies self@.grid[y][x] == want.grid[y][x] by {}
            }
            assert(self@.grid =~= want.grid);
            assert(self@ == want);
        }
        if self.move_amount > PLY_LIMIT {
            self.state = State::Draw;
        } else if self.black_amount == 0 {
            self.state = State::WhiteWin;
        } else if self.white_amount == 0 {
            self.state = State::BlackWin;
        } else {
            let all_mvs = self.all_available_moves();
            if all_mvs.len() == 0 {
                match self.state {
                    State::WhiteTurn => {
                        self.state = State::BlackWin;
                    },
                    State::BlackTurn => {
                        self.state = State::WhiteWin;
                    },
                    _ => {},
                }
            }
        }
    }

    /// Plays `mv`, which the caller knows to be legal.
    pub fn do_move_without_checks(&mut self, mv: Move)
        requires
            old(self).wf(),
            old(self)@.legal(mv),
        ensures
            final(self)@ == old(self)@.after_move(mv),
            final(self).wf(),
            final(self)@.settled(),
    {
        let ghost pos = self@;
        proof {
            pos.lemma_moved(mv);
            crate::laws::law_no_move_means_ended(pos, mv);
        }
        let is_it_was_jump = self._do_move(mv);
        let mut forced_to_jump_on_next_turn = false;
        if is_it_was_jump {
            let mut jump_moves = Vec::new();
            self.add_jump_moves_for_checker_or_king(&mut jump_moves, mv.to.x, mv.to.y);
            if jump_moves.len() != 0 {
                self.prev_turn_jump = Some(mv.to);
                forced_to_jump_on_next_turn = true;
            }
        }
        if !forced_to_jump_on_next_turn {
            self.state = match self.state {
                State::WhiteTurn => State::BlackTurn,
                State::BlackTurn => State::WhiteTurn,
                s => s,
            };
        }
        self.move_amount += 1;
        assert(self@ == pos.relocated(mv));
        self.update_after_move();
    }

    /// Plays `mv` if it is legal; otherwise leaves the board as it was and
    /// reports the move as unavailable.
    pub fn do_move(&mut self, mv: Move) -> (done: Result<(), &'static str>)
        requires
            old(self).wf(),
        ensures
            final(self).wf(),
            old(self)@.legal(mv) ==> done is Ok && final(self)@ == old(self)@.after_move(mv)
                && final(self)@.settled(),
            !old(self)@.legal(mv) ==> done == Err::<(), &'static str>("move unavailable")
                && *final(self) == *old(self),
    {
        let mut available_moves = Vec::new();
        self.add_forced_moves_for_all_checkers_and_kings(&mut available_moves);
        if available_moves.len() == 0 && mv.from.x < 8 && mv.from.y < 8 {
            self.add_normal_moves_for_checker_or_king(&mut available_moves, mv.from.x, mv.from.y);
        }
        proof {
            let pos = self@;
            pos.lemma_steps(mv);
            if mv.from.x < 8 && mv.from.y < 8 {
                pos.lemma_piece_steps(mv.from.x as int, mv.from.y as int, mv);
            }
        }
        if Self::lists(&available_moves, mv) {
            self.do_move_without_checks(mv);
            Ok(())
        } else {
            Err("move unavailable")
        }
    }

    /// The legal moves of the piece on `(x, y)`, in the order in which the
    /// rules list them.
    pub fn available_moves_for_cell(&self, x: usize, y: usize) -> (moves: Vec<Move>)
        requires
            self.wf(),
            x < 8,
            y < 8,
        ensures
            moves@ == self@.moves_from(x as int, y as int),
    {
        let mut all_forced_moves = Vec::with_capacity(10);
        let mut available_moves = Vec::with_capacity(20);
        self.add_forced_moves_for_all_checkers_and_kings(&mut all_forced_moves);
        if all_forced_moves.len() == 0 {
            self.add_normal_moves_for_checker_or_king(&mut available_moves, x, y);
            proof {
                self@.lemma_grid_moves_from(8, false, x as int, y as int);
            }
        } else {
            let ghost p = starts_on(x as int, y as int);
            let mut i: usize = 0;
            while i < all_forced_moves.len()
                invariant
                    i <= all_forced_moves.len(),
                    p == starts_on(x as int, y as int),
                    available_moves@ == all_forced_moves@.take(i as int).filter(p),
                decreases all_forced_moves.len() - i,
            {
                let mv = all_forced_moves[i];
                proof {
                    lemma_filter_push(all_forced_moves@.take(i as int), mv, p);
                    assert(all_forced_moves@.take(i as int).push(mv) =~= all_forced_moves@.take(
                        i + 1,
                    ));
                }
                if mv.from.x == x && mv.from.y == y {
                    available_moves.push(mv);
                }
                i += 1;
            }
            assert(all_forced_moves@.take(i as int) =~= all_forced_moves@);
        }
        available_moves
    }
}

} // verus!
