//! What a legal move looks like: the moves that the rules list are exactly
//! the steps and jumps described here square by square.

use vstd::prelude::*;
use crate::board::{Move, Point};
use crate::rules::{Diagonal, Position, hop, on_board, heading, span, starts_on};
use crate::sequences::{lemma_contains_add, lemma_contains_joined, lemma_filter_all, lemma_filter_none};

verus! {

/// Whether `mv` runs along a diagonal of the board: both ends are on the
/// board, and it crosses as many rows as columns, at least one.
pub open spec fn diagonal(mv: Move) -> bool {
    &&& on_board(mv.from.x as int, mv.from.y as int)
    &&& on_board(mv.to.x as int, mv.to.y as int)
    &&& span(mv) >= 1
    &&& mv.to.y == heading(mv).y_at(mv.from.y as int, span(mv))
}

impl Position {
    /// A step: a piece of the side to move goes along a diagonal over vacant
    /// squares only, onto a vacant square; a man goes one square, forward.
    pub open spec fn is_step(self, mv: Move) -> bool {
        &&& diagonal(mv)
        &&& self.playing(mv.from.x as int, mv.from.y as int)
        &&& forall|k: int| 1 <= k <= span(mv) ==> self.vacant_at(mv, k)
        &&& !self.at(mv.from.x as int, mv.from.y as int).is_king() ==> {
            &&& span(mv) == 1
            &&& heading(mv).down == (self.mover() is Black)
        }
    }

    /// A jump over the square `j` steps along: that square holds an enemy,
    /// every other square of the way and the landing square are vacant; a man
    /// jumps over the adjacent square and lands right behind it.
    pub open spec fn jumps_over(self, mv: Move, j: int) -> bool {
        &&& diagonal(mv)
        &&& self.playing(mv.from.x as int, mv.from.y as int)
        &&& 1 <= j < span(mv)
        &&& self.enemy_at(mv, j)
        &&& forall|k: int| 1 <= k <= span(mv) && k != j ==> self.vacant_at(mv, k)
        &&& !self.at(mv.from.x as int, mv.from.y as int).is_king() ==> span(mv) == 2
    }

    pub open spec fn is_jump(self, mv: Move) -> bool {
        exists|j: int| self.jumps_over(mv, j)
    }

    /// Whether a piece bound to go on capturing leaves `mv` free to be
    /// played: there is none, or it is the piece that `mv` moves.
    pub open spec fn unbound(self, mv: Move) -> bool {
        self.forced matches Some(p) ==> p == mv.from
    }
}

impl Position {
    /// The hop of `n >= 1` squares from `(x, y)` onto a square of the board
    /// is a diagonal move of span `n` heading along `d`.
    pub proof fn lemma_hop(x: int, y: int, d: Diagonal, n: int)
        requires
            on_board(x, y),
            n >= 1,
            on_board(d.x_at(x, n), d.y_at(y, n)),
        ensures
            diagonal(hop(x, y, d, n)),
            heading(hop(x, y, d, n)) == d,
            span(hop(x, y, d, n)) == n,
            hop(x, y, d, n).from == (Point { x: x as usize, y: y as usize }),
    {
    }

    /// A diagonal move is the hop of its span along its heading.
    pub proof fn lemma_diagonal_is_hop(mv: Move)
        requires
            diagonal(mv),
        ensures
            mv == hop(mv.from.x as int, mv.from.y as int, heading(mv), span(mv)),
    {
    }

    pub proof fn lemma_man_step(self, x: int, y: int, d: Diagonal, mv: Move)
        requires
            self.shaped(),
            self.playing(x, y),
            !self.at(x, y).is_king(),
            d.down == (self.mover() is Black),
        ensures
            self.man_step(x, y, d).contains(mv) <==> mv.from.x == x && mv.from.y == y
                && self.is_step(mv) && heading(mv).right == d.right,
    {
        let s = self.man_step(x, y, d);
        let h = hop(x, y, d, 1);
        if self.vacant(d.x_at(x, 1), d.y_at(y, 1)) {
            Self::lemma_hop(x, y, d, 1);
            assert(s[0] == h);
            assert(self.vacant_at(h, 1));
            assert(self.is_step(h));
        }
        if mv.from.x == x && mv.from.y == y && self.is_step(mv) && heading(mv).right == d.right {
            Self::lemma_diagonal_is_hop(mv);
            assert(self.vacant_at(mv, 1));
            assert(mv == h);
            assert(s[0] == mv);
        }
    }

    pub proof fn lemma_man_steps(self, x: int, y: int, mv: Move)
        requires
            self.shaped(),
            self.playing(x, y),
            !self.at(x, y).is_king(),
        ensures
            self.man_steps(x, y, self.mover()).contains(mv) <==> mv.from.x == x && mv.from.y == y
                && self.is_step(mv),
    {
        let down = self.mover() is Black;
        let l = Diagonal { right: false, down };
        let r = Diagonal { right: true, down };
        self.lemma_man_step(x, y, l, mv);
        self.lemma_man_step(x, y, r, mv);
        lemma_contains_add(self.man_step(x, y, l), self.man_step(x, y, r), mv);
    }
}

impl Position {
    pub proof fn lemma_king_steps_along(self, x: int, y: int, d: Diagonal, mv: Move)
        requires
            self.shaped(),
            self.playing(x, y),
            self.at(x, y).is_king(),
        ensures
            self.king_steps_along(x, y, d).contains(mv) <==> mv.from.x == x && mv.from.y == y
                && self.is_step(mv) && heading(mv) == d,
    {
        let s = self.king_steps_along(x, y, d);
        if s.contains(mv) {
            let i = choose|i: int| 0 <= i < s.len() && s[i] == mv;
            self.lemma_run_vacant(x, y, d, 1, i);
            Self::lemma_hop(x, y, d, i + 1);
            assert forall|k: int| 1 <= k <= span(mv) implies self.vacant_at(mv, k) by {
                self.lemma_run_vacant(x, y, d, 1, k - 1);
            }
        }
        if mv.from.x == x && mv.from.y == y && self.is_step(mv) && heading(mv) == d {
            let n = span(mv);
            Self::lemma_diagonal_is_hop(mv);
            assert forall|i: int| 1 <= i < 1 + n implies self.clear(x, y, d, i) by {
                assert(self.vacant_at(mv, i));
            }
            self.lemma_run_at_least(x, y, d, 1, n);
            assert(s[n - 1] == mv);
        }
    }

    pub proof fn lemma_king_steps(self, x: int, y: int, mv: Move)
        requires
            self.shaped(),
            self.playing(x, y),
            self.at(x, y).is_king(),
        ensures
            self.king_steps(x, y).contains(mv) <==> mv.from.x == x && mv.from.y == y
                && self.is_step(mv),
    {
        let a = Diagonal { right: true, down: true };
        let b = Diagonal { right: false, down: false };
        let c = Diagonal { right: true, down: false };
        let d = Diagonal { right: false, down: true };
        self.lemma_king_steps_along(x, y, a, mv);
        self.lemma_king_steps_along(x, y, b, mv);
        self.lemma_king_steps_along(x, y, c, mv);
        self.lemma_king_steps_along(x, y, d, mv);
        lemma_contains_joined(
            self.king_steps_along(x, y, a),
            self.king_steps_along(x, y, b),
            self.king_steps_along(x, y, c),
            self.king_steps_along(x, y, d),
            mv,
        );
        let h = heading(mv);
        assert(h == a || h == b || h == c || h == d);
    }

    /// The steps listed for the piece on `(x, y)` are the steps that start
    /// there.
    pub proof fn lemma_piece_steps(self, x: int, y: int, mv: Move)
        requires
            self.shaped(),
            on_board(x, y),
        ensures
            self.piece_steps(x, y).contains(mv) <==> mv.from.x == x && mv.from.y == y
                && self.is_step(mv),
    {
        if self.playing(x, y) {
            if self.at(x, y).is_king() {
                self.lemma_king_steps(x, y, mv);
            } else {
                self.lemma_man_steps(x, y, mv);
            }
        }
    }
}

impl Position {
    pub proof fn lemma_man_jump(self, x: int, y: int, d: Diagonal, mv: Move)
        requires
            self.shaped(),
            self.playing(x, y),
            !self.at(x, y).is_king(),
        ensures
            self.man_jump(x, y, d, self.mover()).contains(mv) <==> mv.from.x == x && mv.from.y == y
                && self.is_jump(mv) && heading(mv) == d,
    {
        let s = self.man_jump(x, y, d, self.mover());
        let h = hop(x, y, d, 2);
        if self.clear(x, y, d, 2) && self.holds(d.x_at(x, 1), d.y_at(y, 1), self.mover().other()) {
            Self::lemma_hop(x, y, d, 2);
            assert(s[0] == h);
            assert(self.vacant_at(h, 2));
            assert(self.jumps_over(h, 1));
        }
        if mv.from.x == x && mv.from.y == y && self.is_jump(mv) && heading(mv) == d {
            let j = choose|j: int| self.jumps_over(mv, j);
            Self::lemma_diagonal_is_hop(mv);
            assert(self.vacant_at(mv, 2));
            assert(mv == h);
            assert(s[0] == mv);
        }
    }

    pub proof fn lemma_man_jumps(self, x: int, y: int, mv: Move)
        requires
            self.shaped(),
            self.playing(x, y),
            !self.at(x, y).is_king(),
        ensures
            self.man_jumps(x, y, self.mover()).contains(mv) <==> mv.from.x == x && mv.from.y == y
                && self.is_jump(mv),
    {
        let a = Diagonal { right: false, down: false };
        let b = Diagonal { right: false, down: true };
        let c = Diagonal { right: true, down: false };
        let d = Diagonal { right: true, down: true };
        let side = self.mover();
        self.lemma_man_jump(x, y, a, mv);
        self.lemma_man_jump(x, y, b, mv);
        self.lemma_man_jump(x, y, c, mv);
        self.lemma_man_jump(x, y, d, mv);
        lemma_contains_joined(
            self.man_jump(x, y, a, side),
            self.man_jump(x, y, b, side),
            self.man_jump(x, y, c, side),
            self.man_jump(x, y, d, side),
            mv,
        );
        let h = heading(mv);
        assert(h == a || h == b || h == c || h == d);
    }

    /// The first piece along `d` stands right behind the run of vacant
    /// squares that starts next to `(x, y)`.
    pub proof fn lemma_first_piece(self, x: int, y: int, d: Diagonal, j: int)
        requires
            on_board(x, y),
            1 <= j,
            forall|k: int| 1 <= k < j ==> self.clear(x, y, d, k),
            !self.clear(x, y, d, j),
        ensures
            self.run(x, y, d, 1) == j - 1,
    {
        self.lemma_run_at_least(x, y, d, 1, j - 1);
        if self.run(x, y, d, 1) > j - 1 {
            self.lemma_run_vacant(x, y, d, 1, j - 1);
        }
    }

    pub proof fn lemma_king_jumps_along(self, x: int, y: int, d: Diagonal, mv: Move)
        requires
            self.shaped(),
            self.playing(x, y),
            self.at(x, y).is_king(),
        ensures
            self.king_jumps_along(x, y, d, self.mover()).contains(mv) <==> mv.from.x == x
                && mv.from.y == y && self.is_jump(mv) && heading(mv) == d,
    {
        let s = self.king_jumps_along(x, y, d, self.mover());
        let j = self.run(x, y, d, 1) as int + 1;
        if s.contains(mv) {
            let i = choose|i: int| 0 <= i < s.len() && s[i] == mv;
            self.lemma_run_vacant(x, y, d, j + 1, i);
            Self::lemma_hop(x, y, d, j + 1 + i);
            assert forall|k: int| 1 <= k <= span(mv) && k != j implies self.vacant_at(mv, k) by {
                if k < j {
                    self.lemma_run_vacant(x, y, d, 1, k - 1);
                } else {
                    self.lemma_run_vacant(x, y, d, j + 1, k - j - 1);
                }
            }
            assert(self.jumps_over(mv, j));
        }
        if mv.from.x == x && mv.from.y == y && self.is_jump(mv) && heading(mv) == d {
            let v = choose|v: int| self.jumps_over(mv, v);
            let n = span(mv);
            Self::lemma_diagonal_is_hop(mv);
            assert forall|k: int| 1 <= k < v implies self.clear(x, y, d, k) by {
                assert(self.vacant_at(mv, k));
            }
            self.lemma_first_piece(x, y, d, v);
            assert(v == j);
            assert forall|k: int| j + 1 <= k < j + 1 + (n - j) implies self.clear(x, y, d, k) by {
                assert(self.vacant_at(mv, k));
            }
            self.lemma_run_at_least(x, y, d, j + 1, n - j);
            assert(s[n - j - 1] == mv);
        }
    }

    pub proof fn lemma_king_jumps(self, x: int, y: int, mv: Move)
        requires
            self.shaped(),
            self.playing(x, y),
            self.at(x, y).is_king(),
        ensures
            self.king_jumps(x, y, self.mover()).contains(mv) <==> mv.from.x == x && mv.from.y == y
                && self.is_jump(mv),
    {
        let a = Diagonal { right: true, down: true };
        let b = Diagonal { right: false, down: false };
        let c = Diagonal { right: true, down: false };
        let d = Diagonal { right: false, down: true };
        let side = self.mover();
        self.lemma_king_jumps_along(x, y, a, mv);
        self.lemma_king_jumps_along(x, y, b, mv);
        self.lemma_king_jumps_along(x, y, c, mv);
        self.lemma_king_jumps_along(x, y, d, mv);
        lemma_contains_joined(
            self.king_jumps_along(x, y, a, side),
            self.king_jumps_along(x, y, b, side),
            self.king_jumps_along(x, y, c, side),
            self.king_jumps_along(x, y, d, side),
            mv,
        );
        let h = heading(mv);
        assert(h == a || h == b || h == c || h == d);
    }

    /// The jumps listed for the piece on `(x, y)` are the jumps that start
    /// there.
    pub proof fn lemma_piece_jumps(self, x: int, y: int, mv: Move)
        requires
            self.shaped(),
            on_board(x, y),
        ensures
            self.piece_jumps(x, y).contains(mv) <==> mv.from.x == x && mv.from.y == y
                && self.is_jump(mv),
    {
        if self.playing(x, y) {
            if self.at(x, y).is_king() {
                self.lemma_king_jumps(x, y, mv);
            } else {
                self.lemma_man_jumps(x, y, mv);
            }
        }
    }

    /// Whether `mv` is a move of the kind asked for.
    pub open spec fn is_move(self, mv: Move, jump: bool) -> bool {
        if jump {
            self.is_jump(mv)
        } else {
            self.is_step(mv)
        }
    }

    pub proof fn lemma_piece_moves(self, x: int, y: int, jump: bool, mv: Move)
        requires
            self.shaped(),
            on_board(x, y),
        ensures
            self.piece_moves(x, y, jump).contains(mv) <==> mv.from.x == x && mv.from.y == y
                && self.is_move(mv, jump),
    {
        self.lemma_piece_jumps(x, y, mv);
        self.lemma_piece_steps(x, y, mv);
    }

    pub proof fn lemma_row_moves(self, y: int, n: int, jump: bool, mv: Move)
        requires
            self.shaped(),
            0 <= y < 8,
            0 <= n <= 8,
        ensures
            self.row_moves(y, n, jump).contains(mv) <==> mv.from.x < n && mv.from.y == y
                && self.is_move(mv, jump),
        decreases n,
    {
        if n > 0 {
            self.lemma_row_moves(y, n - 1, jump, mv);
            self.lemma_piece_moves(n - 1, y, jump, mv);
            lemma_contains_add(self.row_moves(y, n - 1, jump), self.piece_moves(n - 1, y, jump), mv);
        }
    }

    pub proof fn lemma_grid_moves(self, m: int, jump: bool, mv: Move)
        requires
            self.shaped(),
            0 <= m <= 8,
        ensures
            self.grid_moves(m, jump).contains(mv) <==> mv.from.y < m && self.is_move(mv, jump),
        decreases m,
    {
        if m > 0 {
            self.lemma_grid_moves(m - 1, jump, mv);
            self.lemma_row_moves(m - 1, 8, jump, mv);
            lemma_contains_add(self.grid_moves(m - 1, jump), self.row_moves(m - 1, 8, jump), mv);
        }
    }

    /// The captures open to the side to move are the jumps that the piece
    /// bound to go on capturing, if there is one, can make.
    pub proof fn lemma_jumps(self, mv: Move)
        requires
            self.wf(),
        ensures
            self.jumps().contains(mv) <==> self.is_jump(mv) && self.unbound(mv),
    {
        match self.forced {
            Some(p) => {
                self.lemma_piece_jumps(p.x as int, p.y as int, mv);
            },
            None => {
                self.lemma_grid_moves(8, true, mv);
            },
        }
    }

    /// The steps open to the side to move are all the steps on the board.
    pub proof fn lemma_steps(self, mv: Move)
        requires
            self.wf(),
        ensures
            self.steps().contains(mv) <==> self.is_step(mv),
    {
        self.lemma_grid_moves(8, false, mv);
    }

    /// A move is legal exactly if it is a jump that no binding forbids, or
    /// a step while no such jump exists.
    pub proof fn lemma_legal(self, mv: Move)
        requires
            self.wf(),
        ensures
            self.legal(mv) <==> (self.is_jump(mv) && self.unbound(mv)) || (self.is_step(mv)
                && forall|other: Move| !(self.is_jump(other) && self.unbound(other))),
    {
        self.lemma_jumps(mv);
        self.lemma_steps(mv);
        if self.jumps().len() > 0 {
            let w = self.jumps()[0];
            assert(self.jumps().contains(w));
            self.lemma_jumps(w);
        } else {
            assert forall|other: Move| !(self.is_jump(other) && self.unbound(other)) by {
                self.lemma_jumps(other);
            }
        }
    }

    /// A legal move captures exactly if it is a jump, which it is exactly
    /// if captures are open.
    pub proof fn lemma_captures(self, mv: Move)
        requires
            self.wf(),
            self.legal(mv),
        ensures
            self.captures(mv) == self.is_jump(mv),
            self.captures(mv) == (self.jumps().len() > 0),
            self.captures(mv) == !self.is_step(mv),
    {
        self.lemma_legal(mv);
        self.lemma_jumps(mv);
        if self.is_jump(mv) {
            let j = choose|j: int| self.jumps_over(mv, j);
            assert(!self.vacant_at(mv, j));
        }
        if self.captures(mv) {
            let k = choose|k: int| 1 <= k < span(mv) && !self.vacant_at(mv, k);
            if self.is_step(mv) {
                assert(self.vacant_at(mv, k));
            }
        }
        if self.jumps().len() > 0 {
            let first = self.jumps()[0];
            assert(self.jumps().contains(first));
            self.lemma_jumps(first);
        }
    }
}

impl Position {
    /// Of the moves listed for the piece on `(px, py)`, those that start on
    /// `(x, y)` are all of them if that is the same square, else none.
    pub proof fn lemma_piece_moves_from(self, px: int, py: int, jump: bool, x: int, y: int)
        requires
            self.shaped(),
            on_board(px, py),
        ensures
            self.piece_moves(px, py, jump).filter(starts_on(x, y)) == if px == x && py == y {
                self.piece_moves(px, py, jump)
            } else {
                Seq::empty()
            },
    {
        let s = self.piece_moves(px, py, jump);
        let p = starts_on(x, y);
        assert forall|i: int| 0 <= i < s.len() implies (#[trigger] s[i]).from.x == px
            && s[i].from.y == py by {
            assert(s.contains(s[i]));
            self.lemma_piece_moves(px, py, jump, s[i]);
        }
        if px == x && py == y {
            assert forall|i: int| 0 <= i < s.len() implies p(#[trigger] s[i]) by {}
            lemma_filter_all(s, p);
        } else {
            assert forall|i: int| 0 <= i < s.len() implies !p(#[trigger] s[i]) by {}
            lemma_filter_none(s, p);
        }
    }

    pub proof fn lemma_row_moves_from(self, row: int, n: int, jump: bool, x: int, y: int)
        requires
            self.shaped(),
            0 <= row < 8,
            0 <= n <= 8,
        ensures
            self.row_moves(row, n, jump).filter(starts_on(x, y)) == if row == y && 0 <= x < n {
                self.piece_moves(x, y, jump)
            } else {
                Seq::empty()
            },
        decreases n,
    {
        let p = starts_on(x, y);
        if n > 0 {
            self.lemma_row_moves_from(row, n - 1, jump, x, y);
            self.lemma_piece_moves_from(n - 1, row, jump, x, y);
            Seq::filter_distributes_over_add(
                self.row_moves(row, n - 1, jump),
                self.piece_moves(n - 1, row, jump),
                p,
            );
        } else {
            lemma_filter_none(self.row_moves(row, n, jump), p);
        }
    }

    /// Of the moves listed for the first `m` rows, those that start on
    /// `(x, y)` are the moves listed for the piece on that square.
    pub proof fn lemma_grid_moves_from(self, m: int, jump: bool, x: int, y: int)
        requires
            self.shaped(),
            0 <= m <= 8,
            0 <= x < 8,
        ensures
            self.grid_moves(m, jump).filter(starts_on(x, y)) == if 0 <= y < m {
                self.piece_moves(x, y, jump)
            } else {
                Seq::empty()
            },
        decreases m,
    {
        let p = starts_on(x, y);
        if m > 0 {
            self.lemma_grid_moves_from(m - 1, jump, x, y);
            self.lemma_row_moves_from(m - 1, 8, jump, x, y);
            Seq::filter_distributes_over_add(
                self.grid_moves(m - 1, jump),
                self.row_moves(m - 1, 8, jump),
                p,
            );
        } else {
            lemma_filter_none(self.grid_moves(m, jump), p);
        }
    }
}

} // verus!
