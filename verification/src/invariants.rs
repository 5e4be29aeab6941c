//! What every move keeps true of a position.

use vstd::prelude::*;
use crate::board::{Cell, Move, Point};
use crate::rules::{
    Position, PLY_LIMIT, on_board, heading, span, swept, crowned, row_count, grid_count,
    with_cell, eight_by_eight,
};
use crate::legality::diagonal;

verus! {

/// One if a square holding `c` is tallied under `kind`, else zero.
pub open spec fn tally(c: Cell, kind: Cell) -> int {
    if c.counts_as(kind) {
        1
    } else {
        0
    }
}

pub proof fn lemma_row_count_bound(row: Seq<Cell>, kind: Cell, n: int)
    requires
        0 <= n,
    ensures
        row_count(row, kind, n) <= n,
    decreases n,
{
    if n > 0 {
        lemma_row_count_bound(row, kind, n - 1);
    }
}

pub proof fn lemma_grid_count_bound(grid: Seq<Seq<Cell>>, kind: Cell, m: int)
    requires
        0 <= m,
    ensures
        grid_count(grid, kind, m) <= 8 * m,
    decreases m,
{
    if m > 0 {
        lemma_grid_count_bound(grid, kind, m - 1);
        lemma_row_count_bound(grid[m - 1], kind, 8);
    }
}

/// Rows that tally alike square by square have the same count.
pub proof fn lemma_row_count_alike(a: Seq<Cell>, b: Seq<Cell>, kind: Cell, n: int)
    requires
        forall|x: int| 0 <= x < n ==> a[x].counts_as(kind) == b[x].counts_as(kind),
    ensures
        row_count(a, kind, n) == row_count(b, kind, n),
    decreases n,
{
    if n > 0 {
        lemma_row_count_alike(a, b, kind, n - 1);
    }
}

/// Grids that tally alike square by square have the same count.
pub proof fn lemma_grid_count_alike(a: Seq<Seq<Cell>>, b: Seq<Seq<Cell>>, kind: Cell, m: int)
    requires
        forall|x: int, y: int|
            0 <= x < 8 && 0 <= y < m ==> a[y][x].counts_as(kind) == b[y][x].counts_as(kind),
    ensures
        grid_count(a, kind, m) == grid_count(b, kind, m),
    decreases m,
{
    if m > 0 {
        lemma_grid_count_alike(a, b, kind, m - 1);
        lemma_row_count_alike(a[m - 1], b[m - 1], kind, 8);
    }
}

/// Putting `c` on square `x` of a row changes its count by what `c` tallies
/// less what the square held.
pub proof fn lemma_row_count_update(row: Seq<Cell>, kind: Cell, x: int, c: Cell, n: int)
    requires
        0 <= x < row.len(),
        0 <= n <= row.len(),
    ensures
        row_count(row.update(x, c), kind, n) == row_count(row, kind, n) + if x < n {
            tally(c, kind) - tally(row[x], kind)
        } else {
            0
        },
    decreases n,
{
    if n > 0 {
        lemma_row_count_update(row, kind, x, c, n - 1);
    }
}

/// Putting `c` on `(x, y)` changes the count of a grid by what `c` tallies
/// less what the square held.
pub proof fn lemma_grid_count_update(grid: Seq<Seq<Cell>>, kind: Cell, x: int, y: int, c: Cell, m: int)
    requires
        eight_by_eight(grid),
        on_board(x, y),
        0 <= m <= 8,
    ensures
        grid_count(with_cell(grid, x, y, c), kind, m) == grid_count(grid, kind, m) + if y < m {
            tally(c, kind) - tally(grid[y][x], kind)
        } else {
            0
        },
    decreases m,
{
    if m > 0 {
        lemma_grid_count_update(grid, kind, x, y, c, m - 1);
        if y == m - 1 {
            lemma_row_count_update(grid[y], kind, x, c, 8);
        }
    }
}

impl Position {
    /// Once the game has ended no move is legal.
    pub proof fn lemma_ended_no_moves(self)
        requires
            self.wf(),
            self.ended(),
        ensures
            self.legal_moves().len() == 0,
            self.jumps().len() == 0,
    {
        if self.legal_moves().len() > 0 {
            let mv = self.legal_moves()[0];
            assert(self.legal_moves().contains(mv));
            self.lemma_legal(mv);
        }
        if self.jumps().len() > 0 {
            let mv = self.jumps()[0];
            assert(self.jumps().contains(mv));
            self.lemma_jumps(mv);
        }
    }
}

/// How far along a move the column `x` lies from its start.
pub open spec fn along(mv: Move, x: int) -> int {
    if heading(mv).right {
        x - mv.from.x
    } else {
        mv.from.x - x
    }
}

impl Position {
    /// The square that a jump over the `j`-th square of its way captures.
    pub open spec fn victim_x(mv: Move, j: int) -> int {
        heading(mv).x_at(mv.from.x as int, j)
    }

    pub open spec fn victim_y(mv: Move, j: int) -> int {
        heading(mv).y_at(mv.from.y as int, j)
    }

    /// A step takes the piece off its square and puts it on the landing
    /// square; nothing else changes.
    pub proof fn lemma_step_grid(self, mv: Move)
        requires
            self.shaped(),
            self.is_step(mv),
        ensures
            self.swept_grid(mv) == with_cell(
                with_cell(self.grid, mv.from.x as int, mv.from.y as int, Cell::Empty),
                mv.to.x as int,
                mv.to.y as int,
                self.at(mv.from.x as int, mv.from.y as int),
            ),
    {
        let a = self.swept_grid(mv);
        let b = with_cell(
            with_cell(self.grid, mv.from.x as int, mv.from.y as int, Cell::Empty),
            mv.to.x as int,
            mv.to.y as int,
            self.at(mv.from.x as int, mv.from.y as int),
        );
        assert forall|y: int| 0 <= y < 8 implies a[y] =~= b[y] by {
            assert forall|x: int| 0 <= x < 8 implies a[y][x] == b[y][x] by {
                let k = along(mv, x);
                if swept(mv, x, y) && k != 0 {
                    assert(self.vacant_at(mv, k));
                }
            }
        }
        assert(a =~= b);
    }

    /// A jump takes the piece off its square, takes the captured piece off
    /// the board and puts the piece on the landing square; nothing else
    /// changes.
    pub proof fn lemma_jump_grid(self, mv: Move, j: int)
        requires
            self.shaped(),
            self.jumps_over(mv, j),
        ensures
            self.swept_grid(mv) == with_cell(
                with_cell(
                    with_cell(self.grid, mv.from.x as int, mv.from.y as int, Cell::Empty),
                    Self::victim_x(mv, j),
                    Self::victim_y(mv, j),
                    Cell::Empty,
                ),
                mv.to.x as int,
                mv.to.y as int,
                self.at(mv.from.x as int, mv.from.y as int),
            ),
    {
        let a = self.swept_grid(mv);
        let b = with_cell(
            with_cell(
                with_cell(self.grid, mv.from.x as int, mv.from.y as int, Cell::Empty),
                Self::victim_x(mv, j),
                Self::victim_y(mv, j),
                Cell::Empty,
            ),
            mv.to.x as int,
            mv.to.y as int,
            self.at(mv.from.x as int, mv.from.y as int),
        );
        assert forall|y: int| 0 <= y < 8 implies a[y] =~= b[y] by {
            assert forall|x: int| 0 <= x < 8 implies a[y][x] == b[y][x] by {
                let k = along(mv, x);
                if swept(mv, x, y) && k != 0 && k != j {
                    assert(self.vacant_at(mv, k));
                }
            }
        }
        assert(a =~= b);
    }

    /// A step leaves both piece counts as they were.
    pub proof fn lemma_step_counts(self, mv: Move, kind: Cell)
        requires
            self.shaped(),
            self.is_step(mv),
            kind is White || kind is Black,
        ensures
            grid_count(self.swept_grid(mv), kind, 8) == self.count(kind),
    {
        let fx = mv.from.x as int;
        let fy = mv.from.y as int;
        let g1 = with_cell(self.grid, fx, fy, Cell::Empty);
        self.lemma_step_grid(mv);
        assert(self.vacant_at(mv, span(mv)));
        lemma_grid_count_update(self.grid, kind, fx, fy, Cell::Empty, 8);
        lemma_grid_count_update(g1, kind, mv.to.x as int, mv.to.y as int, self.at(fx, fy), 8);
    }

    /// A jump leaves the count of the side that moves as it was and takes
    /// one off the count of the other side.
    pub proof fn lemma_jump_counts(self, mv: Move, j: int, kind: Cell)
        requires
            self.shaped(),
            self.jumps_over(mv, j),
            kind is White || kind is Black,
        ensures
            grid_count(self.swept_grid(mv), kind, 8) == self.count(kind) - if kind.side() == Some(
                self.mover(),
            ) {
                0int
            } else {
                1int
            },
    {
        let fx = mv.from.x as int;
        let fy = mv.from.y as int;
        let vx = Self::victim_x(mv, j);
        let vy = Self::victim_y(mv, j);
        let g1 = with_cell(self.grid, fx, fy, Cell::Empty);
        let g2 = with_cell(g1, vx, vy, Cell::Empty);
        self.lemma_jump_grid(mv, j);
        assert(self.vacant_at(mv, span(mv)));
        lemma_grid_count_update(self.grid, kind, fx, fy, Cell::Empty, 8);
        lemma_grid_count_update(g1, kind, vx, vy, Cell::Empty, 8);
        lemma_grid_count_update(g2, kind, mv.to.x as int, mv.to.y as int, self.at(fx, fy), 8);
    }

    /// A legal move is made while the game goes on, and leaves the position
    /// well formed but for the ply limit, which the verdict then deals with.
    pub proof fn lemma_moved(self, mv: Move)
        requires
            self.wf(),
            self.legal(mv),
        ensures
            !self.ended(),
            diagonal(mv),
            self.playing(mv.from.x as int, mv.from.y as int),
            self.lifted(mv).shaped(),
            !self.relocated(mv).promoted().ended(),
            self.relocated(mv).promoted().ply == self.ply + 1,
            self.ply < PLY_LIMIT ==> self.relocated(mv).promoted().wf(),
            self.after_move(mv).wf(),
    {
        self.lemma_legal(mv);
        self.lemma_jumps(mv);
        self.lemma_captures(mv);
        let lifted = self.lifted(mv);
        if self.captures(mv) {
            let j = choose|j: int| self.jumps_over(mv, j);
            self.lemma_jump_counts(mv, j, Cell::White);
            self.lemma_jump_counts(mv, j, Cell::Black);
        } else {
            self.lemma_step_counts(mv, Cell::White);
            self.lemma_step_counts(mv, Cell::Black);
        }
        assert(lifted.white == lifted.count(Cell::White));
        assert(lifted.black == lifted.count(Cell::Black));
        let moved = self.relocated(mv);
        let crowned = moved.promoted();
        lemma_grid_count_alike(moved.grid, crowned.grid, Cell::White, 8);
        lemma_grid_count_alike(moved.grid, crowned.grid, Cell::Black, 8);
    }
}

impl Position {
    /// The starting position is well formed: each side has twelve men.
    pub proof fn lemma_start_wf()
        ensures
            Position::start().wf(),
    {
        let p = Position::start();
        reveal_with_fuel(row_count, 9);
        reveal_with_fuel(grid_count, 9);
        assert(row_count(p.grid[0], Cell::White, 8) == 0);
        assert(row_count(p.grid[1], Cell::White, 8) == 0);
        assert(row_count(p.grid[2], Cell::White, 8) == 0);
        assert(row_count(p.grid[3], Cell::White, 8) == 0);
        assert(row_count(p.grid[4], Cell::White, 8) == 0);
        assert(row_count(p.grid[5], Cell::White, 8) == 4);
        assert(row_count(p.grid[6], Cell::White, 8) == 4);
        assert(row_count(p.grid[7], Cell::White, 8) == 4);
        assert(row_count(p.grid[0], Cell::Black, 8) == 4);
        assert(row_count(p.grid[1], Cell::Black, 8) == 4);
        assert(row_count(p.grid[2], Cell::Black, 8) == 4);
        assert(row_count(p.grid[3], Cell::Black, 8) == 0);
        assert(row_count(p.grid[4], Cell::Black, 8) == 0);
        assert(row_count(p.grid[5], Cell::Black, 8) == 0);
        assert(row_count(p.grid[6], Cell::Black, 8) == 0);
        assert(row_count(p.grid[7], Cell::Black, 8) == 0);
    }
}

impl Position {
    /// White has a move to start the game with.
    pub proof fn lemma_start_has_moves()
        ensures
            Position::start().legal_moves().len() > 0,
    {
        let p = Position::start();
        Self::lemma_start_wf();
        let mv = Move { from: Point { x: 0, y: 5 }, to: Point { x: 1, y: 4 } };
        assert(p.vacant_at(mv, 1));
        assert(p.is_step(mv));
        p.lemma_steps(mv);
    }
}

} // verus!
