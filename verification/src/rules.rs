//! The rules of the game, as functions on a mathematical position.

use vstd::prelude::*;
use crate::board::{Cell, Point, Move, State, Side};

verus! {

/// The number of plies after which a game is drawn.
pub const PLY_LIMIT: usize = 100;

pub open spec fn on_board(x: int, y: int) -> bool {
    0 <= x < 8 && 0 <= y < 8
}

/// The dark squares, on which the game is played.
pub open spec fn playable(x: int, y: int) -> bool {
    (9 * y + x) % 2 != 0
}

/// One of the four diagonal directions; `down` is toward larger `y`.
#[derive(Copy, Clone, PartialEq, Eq, Structural, Debug)]
pub struct Diagonal {
    pub right: bool,
    pub down: bool,
}

impl Diagonal {
    pub open spec fn x_at(self, x: int, k: int) -> int {
        if self.right { x + k } else { x - k }
    }

    pub open spec fn y_at(self, y: int, k: int) -> int {
        if self.down { y + k } else { y - k }
    }

    /// The square `k` steps away from `(x, y)` along this diagonal, if it is
    /// on the board.
    pub fn reach(self, x: usize, y: usize, k: usize) -> (r: Option<Point>)
        requires
            x < 8,
            y < 8,
        ensures
            r == if on_board(self.x_at(x as int, k as int), self.y_at(y as int, k as int)) {
                Some(
                    Point {
                        x: self.x_at(x as int, k as int) as usize,
                        y: self.y_at(y as int, k as int) as usize,
                    },
                )
            } else {
                None
            },
    {
        if k >= 8 {
            return None;
        }
        let tx: usize = if self.right {
            x + k
        } else if x >= k {
            x - k
        } else {
            return None;
        };
        let ty: usize = if self.down {
            y + k
        } else if y >= k {
            y - k
        } else {
            return None;
        };
        if tx < 8 && ty < 8 {
            Some(Point { x: tx, y: ty })
        } else {
            None
        }
    }
}

/// The move from `(x, y)` to the square `k` steps away along `d`.
pub open spec fn hop(x: int, y: int, d: Diagonal, k: int) -> Move {
    Move {
        from: Point { x: x as usize, y: y as usize },
        to: Point { x: d.x_at(x, k) as usize, y: d.y_at(y, k) as usize },
    }
}

/// The test whether a move starts on `(x, y)`.
pub open spec fn starts_on(x: int, y: int) -> spec_fn(Move) -> bool {
    |mv: Move| mv.from.x == x && mv.from.y == y
}

/// The state of a game: the 8×8 grid (`grid[y][x]`), whose turn it is, how
/// many plies were played, the piece that must go on capturing (if any), and
/// the number of pieces of each colour.
pub struct Position {
    pub grid: Seq<Seq<Cell>>,
    pub state: State,
    pub ply: nat,
    pub forced: Option<Point>,
    pub white: nat,
    pub black: nat,
}

/// How many of the first `n` squares of a row are tallied under `kind`.
pub open spec fn row_count(row: Seq<Cell>, kind: Cell, n: int) -> nat
    decreases n,
{
    if n <= 0 {
        0
    } else {
        row_count(row, kind, n - 1) + if row[n - 1].counts_as(kind) { 1nat } else { 0nat }
    }
}

/// How many squares of the first `m` rows are tallied under `kind`.
pub open spec fn grid_count(grid: Seq<Seq<Cell>>, kind: Cell, m: int) -> nat
    decreases m,
{
    if m <= 0 {
        0
    } else {
        grid_count(grid, kind, m - 1) + row_count(grid[m - 1], kind, 8)
    }
}

/// The grid with `c` put on `(x, y)`.
pub open spec fn with_cell(grid: Seq<Seq<Cell>>, x: int, y: int, c: Cell) -> Seq<Seq<Cell>> {
    grid.update(y, grid[y].update(x, c))
}

/// Whether a grid has eight rows of eight squares.
pub open spec fn eight_by_eight(grid: Seq<Seq<Cell>>) -> bool {
    &&& grid.len() == 8
    &&& forall|y: int| 0 <= y < 8 ==> (#[trigger] grid[y]).len() == 8
}

/// What the square `(x, y)` holds when a game starts: Black's men on the
/// dark squares of rows 0 to 2, White's on those of rows 5 to 7.
pub open spec fn start_cell(x: int, y: int) -> Cell {
    if !playable(x, y) {
        Cell::Empty
    } else if y < 3 {
        Cell::Black
    } else if y >= 5 {
        Cell::White
    } else {
        Cell::Empty
    }
}

impl Position {
    /// The position from which a game starts, White to move.
    pub open spec fn start() -> Position {
        Position {
            grid: Seq::new(8, |y: int| Seq::new(8, |x: int| start_cell(x, y))),
            state: State::WhiteTurn,
            ply: 0,
            forced: None,
            white: 12,
            black: 12,
        }
    }

    /// The position that a layout of symbols describes, with `state` as
    /// given and no ply played.
    pub open spec fn of_layout(state: State, layout: Seq<Seq<char>>) -> Position {
        let grid = Seq::new(8, |y: int| Seq::new(8, |x: int| Cell::of_symbol(layout[y][x])));
        Position {
            grid,
            state,
            ply: 0,
            forced: None,
            white: grid_count(grid, Cell::White, 8),
            black: grid_count(grid, Cell::Black, 8),
        }
    }

    pub open spec fn at(self, x: int, y: int) -> Cell {
        self.grid[y][x]
    }

    pub open spec fn vacant(self, x: int, y: int) -> bool {
        on_board(x, y) && self.at(x, y) is Empty
    }

    pub open spec fn holds(self, x: int, y: int, side: Side) -> bool {
        on_board(x, y) && self.at(x, y).side() == Some(side)
    }

    pub open spec fn mover(self) -> Side {
        self.state.mover()
    }

    pub open spec fn ended(self) -> bool {
        self.state.ended()
    }

    /// The number of squares tallied under `kind`.
    pub open spec fn count(self, kind: Cell) -> nat {
        grid_count(self.grid, kind, 8)
    }

    pub open spec fn shaped(self) -> bool {
        eight_by_eight(self.grid)
    }

    /// Well-formedness: the grid is 8×8, the piece counts agree with the
    /// grid, a game still going has not passed the ply limit, and the piece
    /// bound to go on capturing belongs to the side to move.
    pub open spec fn wf(self) -> bool {
        &&& self.shaped()
        &&& self.white == self.count(Cell::White)
        &&& self.black == self.count(Cell::Black)
        &&& self.ply <= PLY_LIMIT + 1
        &&& !self.ended() ==> self.ply <= PLY_LIMIT
        &&& self.forced matches Some(p) ==> {
            &&& on_board(p.x as int, p.y as int)
            &&& !self.ended() ==> self.holds(p.x as int, p.y as int, self.mover())
        }
    }

    // ---------------------------------------------------------------- rays

    /// Whether the square `k` steps away from `(x, y)` along `d` is vacant.
    pub open spec fn clear(self, x: int, y: int, d: Diagonal, k: int) -> bool {
        self.vacant(d.x_at(x, k), d.y_at(y, k))
    }

    /// The number of vacant squares in a row along `d` from `(x, y)`,
    /// starting with the one `k` steps away.
    pub open spec fn run(self, x: int, y: int, d: Diagonal, k: int) -> nat
        decreases 8 - k,
    {
        if 1 <= k < 8 && self.clear(x, y, d, k) {
            1 + self.run(x, y, d, k + 1)
        } else {
            0
        }
    }

    /// The first `run` squares from `k` on are vacant.
    pub proof fn lemma_run_vacant(self, x: int, y: int, d: Diagonal, k: int, i: int)
        requires
            0 <= i < self.run(x, y, d, k),
        ensures
            1 <= k,
            k + i < 8,
            self.clear(x, y, d, k + i),
        decreases i,
    {
        if i > 0 {
            self.lemma_run_vacant(x, y, d, k + 1, i - 1);
        }
    }

    /// A stretch of vacant squares is part of a run.
    pub proof fn lemma_run_at_least(self, x: int, y: int, d: Diagonal, k: int, n: int)
        requires
            on_board(x, y),
            1 <= k,
            forall|i: int| k <= i < k + n ==> self.clear(x, y, d, i),
        ensures
            self.run(x, y, d, k) >= n,
        decreases n,
    {
        if n > 0 {
            assert(self.clear(x, y, d, k));
            self.lemma_run_at_least(x, y, d, k + 1, n - 1);
        }
    }

    /// A man's step along `d`.
    pub open spec fn man_step(self, x: int, y: int, d: Diagonal) -> Seq<Move> {
        if self.vacant(d.x_at(x, 1), d.y_at(y, 1)) {
            seq![hop(x, y, d, 1)]
        } else {
            Seq::empty()
        }
    }

    /// A man's steps: one square forward, to the left and then to the right.
    /// Forward is toward row 0 for White and toward row 7 for Black.
    pub open spec fn man_steps(self, x: int, y: int, side: Side) -> Seq<Move> {
        self.man_step(x, y, Diagonal { right: false, down: side is Black })
            + self.man_step(x, y, Diagonal { right: true, down: side is Black })
    }

    /// A man's jump along `d`: over an adjacent enemy onto the vacant square
    /// behind it.
    pub open spec fn man_jump(self, x: int, y: int, d: Diagonal, side: Side) -> Seq<Move> {
        if self.vacant(d.x_at(x, 2), d.y_at(y, 2)) && self.holds(
            d.x_at(x, 1),
            d.y_at(y, 1),
            side.other(),
        ) {
            seq![hop(x, y, d, 2)]
        } else {
            Seq::empty()
        }
    }

    /// A man's jumps, in any of the four directions.
    pub open spec fn man_jumps(self, x: int, y: int, side: Side) -> Seq<Move> {
        self.man_jump(x, y, Diagonal { right: false, down: false }, side)
            + self.man_jump(x, y, Diagonal { right: false, down: true }, side)
            + self.man_jump(x, y, Diagonal { right: true, down: false }, side)
            + self.man_jump(x, y, Diagonal { right: true, down: true }, side)
    }

    /// A king's steps along `d`: every square up to the first obstacle,
    /// nearest first.
    pub open spec fn king_steps_along(self, x: int, y: int, d: Diagonal) -> Seq<Move> {
        Seq::new(self.run(x, y, d, 1), |i: int| hop(x, y, d, i + 1))
    }

    /// A king's jumps along `d`: if the first piece met is an enemy, every
    /// vacant square behind it up to the next obstacle, nearest first.
    pub open spec fn king_jumps_along(self, x: int, y: int, d: Diagonal, side: Side) -> Seq<Move> {
        let j = self.run(x, y, d, 1) as int + 1;
        if self.holds(d.x_at(x, j), d.y_at(y, j), side.other()) {
            Seq::new(self.run(x, y, d, j + 1), |i: int| hop(x, y, d, j + 1 + i))
        } else {
            Seq::empty()
        }
    }

    pub open spec fn king_steps(self, x: int, y: int) -> Seq<Move> {
        self.king_steps_along(x, y, Diagonal { right: true, down: true })
            + self.king_steps_along(x, y, Diagonal { right: false, down: false })
            + self.king_steps_along(x, y, Diagonal { right: true, down: false })
            + self.king_steps_along(x, y, Diagonal { right: false, down: true })
    }

    pub open spec fn king_jumps(self, x: int, y: int, side: Side) -> Seq<Move> {
        self.king_jumps_along(x, y, Diagonal { right: true, down: true }, side)
            + self.king_jumps_along(x, y, Diagonal { right: false, down: false }, side)
            + self.king_jumps_along(x, y, Diagonal { right: true, down: false }, side)
            + self.king_jumps_along(x, y, Diagonal { right: false, down: true }, side)
    }

    // -------------------------------------------------------------- pieces

    /// Whether `(x, y)` holds a piece that the side to move may play.
    pub open spec fn playing(self, x: int, y: int) -> bool {
        !self.ended() && self.holds(x, y, self.mover())
    }

    /// The jumps of the piece on `(x, y)`; none unless the game is going on
    /// and the piece belongs to the side to move.
    pub open spec fn piece_jumps(self, x: int, y: int) -> Seq<Move> {
        if !self.playing(x, y) {
            Seq::empty()
        } else if self.at(x, y).is_king() {
            self.king_jumps(x, y, self.mover())
        } else {
            self.man_jumps(x, y, self.mover())
        }
    }

    /// The steps of the piece on `(x, y)`, under the same conditions.
    pub open spec fn piece_steps(self, x: int, y: int) -> Seq<Move> {
        if !self.playing(x, y) {
            Seq::empty()
        } else if self.at(x, y).is_king() {
            self.king_steps(x, y)
        } else {
            self.man_steps(x, y, self.mover())
        }
    }

    pub open spec fn piece_moves(self, x: int, y: int, jump: bool) -> Seq<Move> {
        if jump {
            self.piece_jumps(x, y)
        } else {
            self.piece_steps(x, y)
        }
    }

    /// The moves of the pieces on the first `n` squares of row `y`.
    pub open spec fn row_moves(self, y: int, n: int, jump: bool) -> Seq<Move>
        decreases n,
    {
        if n <= 0 {
            Seq::empty()
        } else {
            self.row_moves(y, n - 1, jump) + self.piece_moves(n - 1, y, jump)
        }
    }

    /// The moves of the pieces on the first `m` rows, row by row.
    pub open spec fn grid_moves(self, m: int, jump: bool) -> Seq<Move>
        decreases m,
    {
        if m <= 0 {
            Seq::empty()
        } else {
            self.grid_moves(m - 1, jump) + self.row_moves(m - 1, 8, jump)
        }
    }

    // ---------------------------------------------------------- legal moves

    /// The captures open to the side to move: those of the piece bound to go
    /// on capturing, if there is one, else those of all its pieces.
    pub open spec fn jumps(self) -> Seq<Move> {
        match self.forced {
            Some(p) => self.piece_jumps(p.x as int, p.y as int),
            None => self.grid_moves(8, true),
        }
    }

    /// The steps open to the side to move.
    pub open spec fn steps(self) -> Seq<Move> {
        self.grid_moves(8, false)
    }

    /// The legal moves, in the order in which they are listed: the captures
    /// if there is any, else the steps.
    pub open spec fn legal_moves(self) -> Seq<Move> {
        if self.jumps().len() > 0 {
            self.jumps()
        } else {
            self.steps()
        }
    }

    /// The legal moves that start on `(x, y)`.
    pub open spec fn moves_from(self, x: int, y: int) -> Seq<Move> {
        self.legal_moves().filter(starts_on(x, y))
    }
}

// ------------------------------------------------------------ applying a move

/// The direction in which a move goes.
pub open spec fn heading(mv: Move) -> Diagonal {
    Diagonal { right: mv.to.x > mv.from.x, down: mv.to.y > mv.from.y }
}

/// The number of columns that a move crosses.
pub open spec fn span(mv: Move) -> int {
    if mv.to.x > mv.from.x {
        mv.to.x - mv.from.x
    } else {
        mv.from.x - mv.to.x
    }
}

/// Whether `(x, y)` is the square that a move leaves or one that it passes
/// over: a square of its diagonal before the landing square.
pub open spec fn swept(mv: Move, x: int, y: int) -> bool {
    let d = heading(mv);
    let k = if d.right { x - mv.from.x } else { mv.from.x - x };
    0 <= k < span(mv) && y == d.y_at(mv.from.y as int, k)
}

/// A man that has reached the far row is crowned.
pub open spec fn crowned(c: Cell, y: int) -> Cell {
    if c is White && y == 0 {
        Cell::WhiteKing
    } else if c is Black && y == 7 {
        Cell::BlackKing
    } else {
        c
    }
}

impl Position {
    /// The grid once the piece of `mv` has landed and every square that it
    /// left or passed over has been cleared.
    pub open spec fn swept_grid(self, mv: Move) -> Seq<Seq<Cell>> {
        Seq::new(
            8,
            |y: int|
                Seq::new(
                    8,
                    |x: int|
                        if x == mv.to.x && y == mv.to.y {
                            self.at(mv.from.x as int, mv.from.y as int)
                        } else if swept(mv, x, y) {
                            Cell::Empty
                        } else {
                            self.at(x, y)
                        },
                ),
        )
    }

    /// Whether the square `k` steps along `mv` from its start is vacant.
    pub open spec fn vacant_at(self, mv: Move, k: int) -> bool {
        self.clear(mv.from.x as int, mv.from.y as int, heading(mv), k)
    }

    /// Whether the square `k` steps along `mv` from its start holds an enemy
    /// of the side to move.
    pub open spec fn enemy_at(self, mv: Move, k: int) -> bool {
        self.holds(
            heading(mv).x_at(mv.from.x as int, k),
            heading(mv).y_at(mv.from.y as int, k),
            self.mover().other(),
        )
    }

    /// Whether `mv` captures: a square between the one that it leaves and
    /// the one that it lands on is not vacant.
    pub open spec fn captures(self, mv: Move) -> bool {
        exists|k: int| 1 <= k < span(mv) && !self.vacant_at(mv, k)
    }

    /// The position with the piece of `mv` moved and what it captured taken
    /// off the board and off the opponent's count, before anything else is
    /// settled.
    pub open spec fn lifted(self, mv: Move) -> Position {
        let capture = self.captures(mv);
        Position {
            grid: self.swept_grid(mv),
            forced: None,
            white: if capture && self.mover() is Black {
                (self.white - 1) as nat
            } else {
                self.white
            },
            black: if capture && self.mover() is White {
                (self.black - 1) as nat
            } else {
                self.black
            },
            ..self
        }
    }

    /// Whether the piece of `mv` must go on capturing once it has landed.
    pub open spec fn continues(self, mv: Move) -> bool {
        self.captures(mv) && self.lifted(mv).piece_jumps(
            mv.to.x as int,
            mv.to.y as int,
        ).len() > 0
    }

    /// The position once the turn is settled: after a capture from whose
    /// landing square a further capture is open, the same side moves again
    /// and with that piece; otherwise the turn passes.
    pub open spec fn relocated(self, mv: Move) -> Position {
        let again = self.continues(mv);
        Position {
            state: if again { self.state } else { self.state.passed() },
            forced: if again { Some(mv.to) } else { None },
            ply: self.ply + 1,
            ..self.lifted(mv)
        }
    }

    /// The position with every man on its far row crowned.
    pub open spec fn promoted(self) -> Position {
        Position {
            grid: Seq::new(8, |y: int| Seq::new(8, |x: int| crowned(self.at(x, y), y))),
            ..self
        }
    }

    /// The state once the end of the game has been looked for: a draw past
    /// the ply limit; else a win for the side whose opponent has no piece
    /// left; else a loss for the side to move if it has no legal move.
    pub open spec fn verdict(self) -> State {
        if self.ply > PLY_LIMIT {
            State::Draw
        } else if self.black == 0 {
            State::WhiteWin
        } else if self.white == 0 {
            State::BlackWin
        } else if self.legal_moves().len() == 0 {
            self.state.stuck()
        } else {
            self.state
        }
    }

    pub open spec fn concluded(self) -> Position {
        Position { state: self.verdict(), ..self }
    }

    /// The position that a legal move leads to.
    pub open spec fn after_move(self, mv: Move) -> Position {
        self.relocated(mv).promoted().concluded()
    }

    /// Whether `mv` is legal.
    pub open spec fn legal(self, mv: Move) -> bool {
        self.legal_moves().contains(mv)
    }

    /// Whether the position is well formed and the end of the game has been
    /// looked for: while the game goes on, the side to move has a legal
    /// move.
    pub open spec fn settled(self) -> bool {
        &&& self.wf()
        &&& !self.ended() ==> self.legal_moves().len() > 0
    }
}

} // verus!
