//! The state behind the game window: the board, the square that the player
//! has selected, the squares to highlight, and the opponent that answers
//! the player's moves.

use vstd::prelude::*;
use crate::board::{Board, Cell, Move, Point, Side};
use crate::rules::{Position, PLY_LIMIT, on_board, starts_on};
use crate::player_minmax::{best_move, chosen_move};
use crate::player_random;

verus! {

/// Who answers the player's moves.
#[derive(PartialEq, Eq, Structural, Copy, Clone, Debug)]
pub enum GameMode {
    SelfPlay,
    Random,
    MinMax5,
    MinMax10,
    MinMax15,
    RandomVsRandom,
}

impl GameMode {
    /// How many turns ahead the machine searches, if it searches.
    pub open spec fn depth(self) -> Option<nat> {
        match self {
            GameMode::MinMax5 => Some(5),
            GameMode::MinMax10 => Some(10),
            GameMode::MinMax15 => Some(15),
            _ => None,
        }
    }
}

/// A game as the window shows it: the board, the mode and the player's
/// side, the selected square and the highlighted squares, and whether the
/// end of the game is being announced.
pub struct App {
    show_game_ended_popup: bool,
    player_side: Side,
    game_mode: GameMode,
    bd: Board,
    highlighted: Vec<Point>,
    selected_cell: Option<Point>,
}

/// The squares that the moves of `moves` start on, in their order.
pub open spec fn starts(moves: Seq<Move>) -> Seq<Point> {
    Seq::new(moves.len(), |i: int| moves[i].from)
}

/// The squares that the moves of `moves` land on, in their order.
pub open spec fn landings(moves: Seq<Move>) -> Seq<Point> {
    Seq::new(moves.len(), |i: int| moves[i].to)
}

/// The position once a machine that searches `depth` turns ahead has
/// played for as long as the game goes on and `player` is not to move.
pub open spec fn machine_plays(pos: Position, depth: nat, player: Side) -> Position
    decreases PLY_LIMIT + 1 - pos.ply,
{
    if pos.ended() || pos.mover() == player || pos.ply > PLY_LIMIT {
        pos
    } else {
        match chosen_move(pos, depth) {
            Some(mv) => machine_plays(pos.after_move(mv), depth, player),
            None => pos,
        }
    }
}

impl App {
    pub closed spec fn board(&self) -> Position {
        self.bd@
    }

    pub closed spec fn highlights(&self) -> Seq<Point> {
        self.highlighted@
    }

    pub closed spec fn selection(&self) -> Option<Point> {
        self.selected_cell
    }

    pub closed spec fn mode(&self) -> GameMode {
        self.game_mode
    }

    pub closed spec fn side(&self) -> Side {
        self.player_side
    }

    pub closed spec fn popup(&self) -> bool {
        self.show_game_ended_popup
    }

    /// Whether `p` may be highlighted: it is a square of the board and,
    /// if it is vacant, the piece on the selected square may move there.
    pub open spec fn offers(&self, p: Point) -> bool {
        &&& on_board(p.x as int, p.y as int)
        &&& self.board().at(p.x as int, p.y as int) is Empty ==> self.move_to(p) is Some
    }

    /// The move from the selected square to `p`, if a square is selected
    /// and the move is legal.
    pub open spec fn move_to(&self, p: Point) -> Option<Move> {
        match self.selection() {
            Some(from) => if self.board().legal(Move { from, to: p }) {
                Some(Move { from, to: p })
            } else {
                None
            },
            None => None,
        }
    }

    /// The board is settled, and every highlighted square that is vacant is
    /// one that the piece on the selected square may move to.
    pub open spec fn wf(&self) -> bool {
        &&& self.board().settled()
        &&& forall|i: int|
            0 <= i < self.highlights().len() ==> self.offers(#[trigger] self.highlights()[i])
    }
}

/// Whether a machine whose turn it is at `pos` may move: the game goes on,
/// and the machine plays both sides or the player is not to move.
pub open spec fn machine_to_move(pos: Position, player: Option<Side>) -> bool {
    !pos.ended() && player != Some(pos.mover())
}

/// Whether `after` comes from `before` by `n` legal moves, each made while
/// the machine was to move.
pub open spec fn machine_played(before: Position, after: Position, n: nat, player: Option<Side>) -> bool
    decreases n,
{
    if n == 0 {
        after == before
    } else {
        exists|mid: Position, mv: Move|
            {
                &&& machine_played(before, mid, (n - 1) as nat, player)
                &&& machine_to_move(mid, player)
                &&& mid.legal(mv)
                &&& after == mid.after_move(mv)
            }
    }
}

/// Whether `after` comes from `before` by legal moves of a machine that
/// has played until it was no longer to move.
pub open spec fn machine_finished(before: Position, after: Position, player: Option<Side>) -> bool {
    &&& !machine_to_move(after, player)
    &&& exists|n: nat| machine_played(before, after, n, player)
}

/// Whether `after` is what the opponent of the given kind makes of
/// `before`, the player having `player`'s pieces. Nobody answers in self
/// play. A machine that searches plays its chosen moves until the game has
/// ended or the player is to move. One that plays at random does so too,
/// with moves of which only their legality is known; and plays both sides
/// to the end of the game if that is the mode.
pub open spec fn answered(before: Position, after: Position, mode: GameMode, player: Side) -> bool {
    match mode {
        GameMode::SelfPlay => after == before,
        GameMode::MinMax5 => after == machine_plays(before, 5, player),
        GameMode::MinMax10 => after == machine_plays(before, 10, player),
        GameMode::MinMax15 => after == machine_plays(before, 15, player),
        GameMode::Random => machine_finished(before, after, Some(player)),
        GameMode::RandomVsRandom => machine_finished(before, after, None),
    }
}

impl App {
    /// Whether `self` is `before` but for the board.
    pub open spec fn same_but_board(&self, before: &App) -> bool {
        &&& self.mode() == before.mode()
        &&& self.side() == before.side()
        &&& self.popup() == before.popup()
        &&& self.selection() == before.selection()
        &&& self.highlights() == before.highlights()
    }

    /// Whether `self` is `before` with only the highlights changed, to the
    /// squares of the pieces that can move.
    pub open spec fn shows_movable(&self, before: &App) -> bool {
        &&& self.board() == before.board()
        &&& self.mode() == before.mode()
        &&& self.side() == before.side()
        &&& self.popup() == before.popup()
        &&& self.selection() == before.selection()
        &&& self.highlights() == starts(self.board().legal_moves())
    }

    /// Whether `self` is `before` once the player has played `mv` and the
    /// opponent has answered.
    pub open spec fn has_played(&self, before: &App, mv: Move) -> bool {
        &&& answered(before.board().after_move(mv), self.board(), self.mode(), self.side())
        &&& self.mode() == before.mode()
        &&& self.side() == before.side()
        &&& self.popup() == before.popup()
        &&& self.selection() == before.selection()
        &&& self.highlights() == starts(self.board().legal_moves())
    }

    /// Whether `self` is `before` once the player has moved the piece on
    /// the selected square to `p` and the opponent has answered.
    pub open spec fn has_played_to(&self, before: &App, p: Point) -> bool {
        before.move_to(p) matches Some(mv) && self.has_played(before, mv)
    }

    /// Whether `self` is `before` with `(x, y)` selected and the landing
    /// squares of its piece's moves highlighted.
    pub open spec fn has_selected(&self, before: &App, x: int, y: int) -> bool {
        &&& self.board() == before.board()
        &&& self.mode() == before.mode()
        &&& self.side() == before.side()
        &&& self.popup() == before.popup()
        &&& self.selection() == Some(Point { x: x as usize, y: y as usize })
        &&& self.highlights() == landings(self.board().moves_from(x, y))
    }

    /// Whether `self` is a game just started in the given mode and with the
    /// given side for the player, the opponent having answered.
    pub open spec fn has_started(&self, mode: GameMode, side: Side) -> bool {
        &&& answered(Position::start(), self.board(), mode, side)
        &&& self.mode() == mode
        &&& self.side() == side
        &&& !self.popup()
        &&& self.selection() is None
        &&& self.highlights() == starts(self.board().legal_moves())
    }

    /// A new game, the player having White and nobody answering.
    pub fn new() -> (app: Self)
        ensures
            app.wf(),
            app.has_started(GameMode::SelfPlay, Side::White),
    {
        let mut bd = Self {
            show_game_ended_popup: false,
            player_side: Side::White,
            game_mode: GameMode::SelfPlay,
            bd: Board::new(),
            highlighted: Vec::new(),
            selected_cell: None,
        };
        proof {
            Position::lemma_start_has_moves();
        }
        bd.highlight_available_checkers_to_move();
        bd
    }

    /// Starts a new game in the same mode and with the same side for the
    /// player.
    pub fn restart(&mut self)
        ensures
            final(self).wf(),
            final(self).has_started(old(self).mode(), old(self).side()),
    {
        self.show_game_ended_popup = false;
        self.bd = Board::new();
        self.selected_cell = None;
        proof {
            Position::lemma_start_has_moves();
        }
        self.enemy_try_move();
        self.highlight_available_checkers_to_move();
    }

    /// Whether `p` is among the squares to highlight.
    pub fn is_highlighted(&self, p: Point) -> (found: bool)
        ensures
            found == self.highlights().contains(p),
    {
        let mut i: usize = 0;
        while i < self.highlighted.len()
            invariant
                i <= self.highlighted.len(),
                forall|j: int| 0 <= j < i ==> self.highlighted@[j] != p,
            decreases self.highlighted.len() - i,
        {
            if self.highlighted[i] == p {
                return true;
            }
            i += 1;
        }
        false
    }

    /// Highlights the squares of the pieces that can move.
    fn highlight_available_checkers_to_move(&mut self)
        requires
            old(self).board().settled(),
        ensures
            final(self).wf(),
            final(self).shows_movable(old(self)),
    {
        let available_moves = self.bd.all_available_moves();
        self.highlighted = Vec::new();
        let mut i: usize = 0;
        while i < available_moves.len()
            invariant
                i <= available_moves.len(),
                self.highlighted@ == starts(available_moves@.take(i as int)),
                self.bd == old(self).bd,
                self.game_mode == old(self).game_mode,
                self.player_side == old(self).player_side,
                self.show_game_ended_popup == old(self).show_game_ended_popup,
                self.selected_cell == old(self).selected_cell,
            decreases available_moves.len() - i,
        {
            self.highlighted.push(available_moves[i].from);
            i += 1;
        }
        proof {
            assert(available_moves@.take(i as int) == available_moves@);
            assert forall|k: int| 0 <= k < self.highlights().len() implies self.offers(
                #[trigger] self.highlights()[k],
            ) by {
                let mv = available_moves@[k];
                assert(self.board().legal_moves().contains(mv));
                self.board().lemma_legal(mv);
            }
        }
    }

    /// Lets the opponent answer: it plays until the game has ended or the
    /// player is to move.
    fn enemy_try_move(&mut self)
        requires
            old(self).board().settled(),
        ensures
            final(self).board().settled(),
            answered(old(self).board(), final(self).board(), old(self).mode(), old(self).side()),
            final(self).same_but_board(old(self)),
    {
        let depth: usize = match self.game_mode {
            GameMode::SelfPlay => {
                return ;
            },
            GameMode::MinMax5 => 5,
            GameMode::MinMax10 => 10,
            GameMode::MinMax15 => 15,
            _ => 0,
        };
        let both_sides = self.game_mode == GameMode::RandomVsRandom;
        let ghost player = if both_sides {
            None
        } else {
            Some(self.player_side)
        };
        let ghost mut played: nat = 0;
        while (both_sides || self.player_side != self.bd.who_turn()) && !self.bd.is_ended()
            invariant
                player == if both_sides {
                    None
                } else {
                    Some(self.player_side)
                },
                machine_played(old(self).bd@, self.bd@, played, player),
                self.bd@.settled(),
                self.game_mode == old(self).game_mode,
                self.player_side == old(self).player_side,
                self.show_game_ended_popup == old(self).show_game_ended_popup,
                self.selected_cell == old(self).selected_cell,
                self.highlighted == old(self).highlighted,
                both_sides == (self.game_mode == GameMode::RandomVsRandom),
                self.game_mode != GameMode::SelfPlay,
                self.game_mode.depth() matches Some(d) ==> d == depth,
                self.game_mode.depth() is Some ==> machine_plays(
                    self.bd@,
                    depth as nat,
                    self.player_side,
                ) == machine_plays(old(self).bd@, depth as nat, self.player_side),
            decreases PLY_LIMIT + 1 - self.bd@.ply,
        {
            let chouse_result = if depth == 0 {
                player_random::chouse_move(&mut self.bd)
            } else {
                best_move(&mut self.bd, depth)
            };
            match chouse_result {
                Some(mv) => {
                    let ghost mid = self.bd@;
                    let done = self.bd.do_move(mv);
                    proof {
                        played = played + 1;
                        assert(machine_played(old(self).bd@, self.bd@, played, player)) by {
                            assert(machine_played(old(self).bd@, mid, (played - 1) as nat, player));
                            assert(machine_to_move(mid, player) && mid.legal(mv) && self.bd@
                                == mid.after_move(mv));
                        }
                    }
                },
                None => {
                    // A game that goes on has a legal move, and both selectors find one.
                    assert(false);
                },
            }
        }
    }

    /// Notes that the end of the game is to be announced, if the game has
    /// ended.
    pub fn show_game_ended_popup_if_game_ended(&mut self)
        ensures
            final(self).popup() == (old(self).popup() || old(self).board().ended()),
            final(self).board() == old(self).board(),
            final(self).mode() == old(self).mode(),
            final(self).side() == old(self).side(),
            final(self).selection() == old(self).selection(),
            final(self).highlights() == old(self).highlights(),
            old(self).wf() ==> final(self).wf(),
    {
        if self.bd.is_ended() {
            self.show_game_ended_popup = true;
        }
    }

    /// Plays the move from the selected square to the vacant square
    /// `(x, y)`, if that square is highlighted, and lets the opponent
    /// answer. Returns whether the move was played; if not, nothing changes.
    fn try_move(&mut self, x: usize, y: usize) -> (moved: bool)
        requires
            old(self).wf(),
            old(self).board().at(x as int, y as int) is Empty,
        ensures
            final(self).wf(),
            moved == old(self).highlights().contains(Point { x, y }),
            moved ==> final(self).has_played_to(old(self), Point { x, y }),
            !moved ==> *final(self) == *old(self),
    {
        match self.selected_cell {
            None => {
                proof {
                    let p = Point { x, y };
                    if self.highlights().contains(p) {
                        let i = choose|i: int| 0 <= i < self.highlights().len() && self.highlights()[i] == p;
                        assert(self.offers(self.highlights()[i]));
                    }
                }
                false
            },
            Some(selected_cell) => {
                let destination_point = Point::new(x, y);
                if !self.is_highlighted(destination_point) {
                    return false;
                }
                let mv = Move::new(selected_cell.x, selected_cell.y, x, y);
                proof {
                    let i = choose|i: int|
                        0 <= i < self.highlights().len() && self.highlights()[i] == destination_point;
                    assert(self.offers(self.highlights()[i]));
                }
                let done = self.bd.do_move(mv);
                self.enemy_try_move();
                self.highlight_available_checkers_to_move();
                true
            },
        }
    }

    /// Handles a click on `(x, y)`. On a vacant square that is highlighted
    /// it plays the move from the selected square to there. On a piece that
    /// can move it selects the piece and highlights where it can go. In
    /// every other case it highlights the pieces that can move.
    pub fn on_click(&mut self, x: usize, y: usize)
        requires
            old(self).wf(),
            x < 8,
            y < 8,
        ensures
            final(self).wf(),
            old(self).board().at(x as int, y as int) is Empty ==> if old(self).highlights().contains(
                Point { x, y },
            ) {
                final(self).has_played_to(old(self), Point { x, y })
            } else {
                final(self).shows_movable(old(self))
            },
            !(old(self).board().at(x as int, y as int) is Empty) ==> if old(self).board().moves_from(
                x as int,
                y as int,
            ).len() == 0 {
                final(self).shows_movable(old(self))
            } else {
                final(self).has_selected(old(self), x as int, y as int)
            },
    {
        match self.bd.get_cell(x, y) {
            Cell::Empty => {
                if !self.try_move(x, y) {
                    self.highlight_available_checkers_to_move();
                }
            },
            _ => {
                let available_moves = self.bd.available_moves_for_cell(x, y);
                if available_moves.len() == 0 {
                    self.highlight_available_checkers_to_move();
                } else {
                    self.selected_cell = Some(Point::new(x, y));
                    self.highlighted = Vec::new();
                    let mut i: usize = 0;
                    while i < available_moves.len()
                        invariant
                            i <= available_moves.len(),
                            self.highlighted@ == landings(available_moves@.take(i as int)),
                            self.bd == old(self).bd,
                            self.game_mode == old(self).game_mode,
                            self.player_side == old(self).player_side,
                            self.show_game_ended_popup == old(self).show_game_ended_popup,
                            self.selected_cell == Some(Point { x, y }),
                        decreases available_moves.len() - i,
                    {
                        self.highlighted.push(available_moves[i].to);
                        i += 1;
                    }
                    proof {
                        assert(available_moves@.take(i as int) == available_moves@);
                        let all = self.board().legal_moves();
                        let from_here = starts_on(x as int, y as int);
                        assert forall|k: int| 0 <= k < self.highlights().len() implies self.offers(
                            #[trigger] self.highlights()[k],
                        ) by {
                            let mv = available_moves@[k];
                            all.lemma_filter_pred(from_here, k);
                            assert(all.filter(from_here).contains(mv));
                            all.lemma_filter_contains_rev(from_here, mv);
                            self.board().lemma_legal(mv);
                            assert(mv == (Move { from: Point { x, y }, to: mv.to }));
                        }
                    }
                }
            },
        }
    }

    /// Starts a new game in another mode.
    pub fn change_game_mode(&mut self, new_mode: GameMode)
        ensures
            final(self).wf(),
            final(self).has_started(new_mode, old(self).side()),
    {
        self.game_mode = new_mode;
        self.restart();
    }

    /// Starts a new game with another side for the player.
    pub fn change_side(&mut self, side: Side)
        ensures
            final(self).wf(),
            final(self).has_started(old(self).mode(), side),
    {
        self.player_side = side;
        self.restart();
    }

    /// The name of the winner, for the announcement.
    pub fn who_win(&self) -> (name: String)
        ensures
            name@ == match self.board().state.winner() {
                Some(Side::Black) => "Black"@,
                Some(Side::White) => "White"@,
                None => "No one"@,
            },
    {
        match self.bd.who_win() {
            Some(Side::Black) => "Black".to_string(),
            Some(Side::White) => "White".to_string(),
            None => "No one".to_string(),
        }
    }

    /// The board of the game.
    pub fn get_board(&self) -> (bd: &Board)
        ensures
            bd@ == self.board(),
    {
        &self.bd
    }

    pub fn get_player_side(&self) -> (side: Side)
        ensures
            side == self.side(),
    {
        self.player_side
    }

    pub fn get_game_mode(&self) -> (mode: GameMode)
        ensures
            mode == self.mode(),
    {
        self.game_mode
    }

    /// Whether the end of the game is to be announced.
    pub fn game_ended_popup_shown(&self) -> (shown: bool)
        ensures
            shown == self.popup(),
    {
        self.show_game_ended_popup
    }
}

} // verus!
