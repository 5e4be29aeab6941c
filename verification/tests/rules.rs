use checkers::board::{Board, Cell, Move, Point, Side, State};

const E: [char; 8] = [' ', ' ', ' ', ' ', ' ', ' ', ' ', ' '];

fn layout(pieces: &[(usize, usize, char)]) -> [[char; 8]; 8] {
    let mut arr = [E; 8];
    for &(x, y, c) in pieces {
        arr[y][x] = c;
    }
    arr
}

fn moves(list: &[(usize, usize, usize, usize)]) -> Vec<Move> {
    list.iter().map(|&(a, b, c, d)| Move::new(a, b, c, d)).collect()
}

#[test]
fn point_and_move_hold_their_coordinates() {
    let p = Point::new(3, 4);
    assert_eq!((p.x, p.y), (3, 4));
    let mv = Move::new(1, 2, 3, 4);
    assert_eq!(mv.from, Point::new(1, 2));
    assert_eq!(mv.to, Point::new(3, 4));
}

#[test]
fn dark_squares_are_playable() {
    let board = Board::new();
    assert!(board.is_playable_cell(1, 0));
    assert!(board.is_playable_cell(0, 1));
    assert!(board.is_playable_cell(0, 7));
    assert!(!board.is_playable_cell(0, 0));
    assert!(!board.is_playable_cell(7, 7));
    assert!(!board.is_playable_cell(3, 5));
    for y in 0..8 {
        for x in 0..8 {
            assert_eq!(board.is_playable_cell(x, y), (9 * y + x) % 2 != 0);
        }
    }
}

#[test]
fn starting_layout() {
    let board = Board::new();
    for y in 0..8 {
        for x in 0..8 {
            let want = if (x + y) % 2 == 0 {
                Cell::Empty
            } else if y < 3 {
                Cell::Black
            } else if y >= 5 {
                Cell::White
            } else {
                Cell::Empty
            };
            assert_eq!(board.get_cell(x, y), want);
        }
    }
    assert_eq!(board.count(Cell::White), 12);
    assert_eq!(board.count(Cell::Black), 12);
    assert_eq!(board.count(Cell::WhiteKing), 0);
    assert_eq!(board.count(Cell::BlackKing), 0);
    assert_eq!(board.count(Cell::Empty), 40);
    assert_eq!(board.move_amount, 0);
    assert!(!board.is_ended());
    assert!(board.who_turn() == Side::White);
    assert!(board.who_win().is_none());
}

#[test]
fn layout_symbols() {
    let board = Board::from_arr(
        State::BlackTurn,
        layout(&[(1, 0, 'b'), (3, 0, 'B'), (0, 7, 'w'), (2, 7, 'W'), (4, 7, 'x'), (6, 7, '.')]),
    );
    assert_eq!(board.get_cell(1, 0), Cell::Black);
    assert_eq!(board.get_cell(3, 0), Cell::BlackKing);
    assert_eq!(board.get_cell(0, 7), Cell::White);
    assert_eq!(board.get_cell(2, 7), Cell::WhiteKing);
    assert_eq!(board.get_cell(4, 7), Cell::Empty);
    assert_eq!(board.get_cell(6, 7), Cell::Empty);
    assert_eq!(board.count(Cell::White), 2);
    assert_eq!(board.count(Cell::Black), 2);
    assert_eq!(board.count(Cell::WhiteKing), 1);
    assert_eq!(board.count(Cell::BlackKing), 1);
    assert_eq!(board.count(Cell::Empty), 60);
    assert!(board.who_turn() == Side::Black);
    assert_eq!(board.move_amount, 0);
}

#[test]
fn states_and_their_sides() {
    let arr = layout(&[(0, 7, 'w'), (1, 0, 'b')]);
    let white = Board::from_arr(State::WhiteTurn, arr);
    assert!(!white.is_ended() && white.who_turn() == Side::White && white.who_win().is_none());
    let black = Board::from_arr(State::BlackTurn, arr);
    assert!(!black.is_ended() && black.who_turn() == Side::Black && black.who_win().is_none());
    let white_won = Board::from_arr(State::WhiteWin, arr);
    assert!(white_won.is_ended() && white_won.who_turn() == Side::Black);
    assert!(white_won.who_win() == Some(Side::White));
    let black_won = Board::from_arr(State::BlackWin, arr);
    assert!(black_won.is_ended() && black_won.who_turn() == Side::White);
    assert!(black_won.who_win() == Some(Side::Black));
    let draw = Board::from_arr(State::Draw, arr);
    assert!(draw.is_ended() && draw.who_turn() == Side::White && draw.who_win().is_none());
}

#[test]
fn opening_moves_in_order() {
    let mut board = Board::new();
    assert_eq!(
        board.all_available_moves(),
        moves(&[
            (0, 5, 1, 4),
            (2, 5, 1, 4),
            (2, 5, 3, 4),
            (4, 5, 3, 4),
            (4, 5, 5, 4),
            (6, 5, 5, 4),
            (6, 5, 7, 4),
        ])
    );
    assert_eq!(board.available_moves_for_cell(2, 5), moves(&[(2, 5, 1, 4), (2, 5, 3, 4)]));
    assert_eq!(board.available_moves_for_cell(1, 6), moves(&[]));
    assert_eq!(board.available_moves_for_cell(1, 2), moves(&[]));
    assert_eq!(board.available_moves_for_cell(3, 4), moves(&[]));
}

#[test]
fn black_men_step_toward_row_seven() {
    let mut board = Board::from_arr(State::BlackTurn, layout(&[(3, 2, 'b'), (0, 7, 'w')]));
    assert_eq!(board.all_available_moves(), moves(&[(3, 2, 2, 3), (3, 2, 4, 3)]));
}

#[test]
fn king_steps_in_order() {
    let mut board = Board::from_arr(State::WhiteTurn, layout(&[(2, 5, 'W'), (7, 0, 'b')]));
    assert_eq!(
        board.all_available_moves(),
        moves(&[
            (2, 5, 3, 6),
            (2, 5, 4, 7),
            (2, 5, 1, 4),
            (2, 5, 0, 3),
            (2, 5, 3, 4),
            (2, 5, 4, 3),
            (2, 5, 5, 2),
            (2, 5, 6, 1),
            (2, 5, 1, 6),
            (2, 5, 0, 7),
        ])
    );
}

#[test]
fn man_jumps_in_order() {
    let mut board = Board::from_arr(
        State::WhiteTurn,
        layout(&[(3, 4, 'w'), (2, 3, 'b'), (2, 5, 'b'), (4, 3, 'B'), (4, 5, 'b'), (7, 6, 'w')]),
    );
    assert_eq!(
        board.all_available_moves(),
        moves(&[(3, 4, 1, 2), (3, 4, 1, 6), (3, 4, 5, 2), (3, 4, 5, 6)])
    );
    assert_eq!(board.available_moves_for_cell(7, 6), moves(&[]));
}

#[test]
fn king_flies_over_one_enemy() {
    let mut board = Board::from_arr(State::WhiteTurn, layout(&[(0, 7, 'W'), (3, 4, 'b')]));
    assert_eq!(
        board.all_available_moves(),
        moves(&[(0, 7, 4, 3), (0, 7, 5, 2), (0, 7, 6, 1), (0, 7, 7, 0)])
    );
    let mut blocked =
        Board::from_arr(State::WhiteTurn, layout(&[(0, 7, 'W'), (3, 4, 'b'), (5, 2, 'b')]));
    assert_eq!(blocked.all_available_moves(), moves(&[(0, 7, 4, 3)]));
    let mut own = Board::from_arr(State::WhiteTurn, layout(&[(0, 7, 'W'), (2, 5, 'w'), (3, 4, 'b')]));
    assert_eq!(
        own.all_available_moves(),
        moves(&[(2, 5, 4, 3), ])
    );
    let mut edge = Board::from_arr(State::WhiteTurn, layout(&[(4, 3, 'W'), (7, 0, 'b')]));
    assert!(edge.all_available_moves().iter().all(|mv| mv.to != Point::new(7, 0)));
    assert_eq!(edge.all_available_moves().len(), 12);
}

#[test]
fn captures_are_mandatory() {
    let mut board =
        Board::from_arr(State::WhiteTurn, layout(&[(3, 4, 'w'), (2, 3, 'b'), (6, 5, 'w')]));
    assert_eq!(board.all_available_moves(), moves(&[(3, 4, 1, 2)]));
    assert_eq!(board.available_moves_for_cell(6, 5), moves(&[]));
    assert_eq!(board.do_move(Move::new(6, 5, 7, 4)), Err("move unavailable"));
    assert_eq!(board.get_cell(6, 5), Cell::White);
    assert_eq!(board.move_amount, 0);
    assert!(board.who_turn() == Side::White);
}

#[test]
fn illegal_move_changes_nothing() {
    let mut board = Board::new();
    assert_eq!(board.do_move(Move::new(0, 2, 1, 3)), Err("move unavailable"));
    assert_eq!(board.do_move(Move::new(9, 9, 1, 3)), Err("move unavailable"));
    assert_eq!(board.do_move(Move::new(0, 5, 9, 4)), Err("move unavailable"));
    let fresh = Board::new();
    for y in 0..8 {
        for x in 0..8 {
            assert_eq!(board.get_cell(x, y), fresh.get_cell(x, y));
        }
    }
    assert_eq!(board.move_amount, 0);
    assert!(board.who_turn() == Side::White);
}

#[test]
fn first_moves_of_a_game() {
    let mut board = Board::new();
    assert_eq!(board.do_move(Move::new(0, 5, 1, 4)), Ok(()));
    assert_eq!(board.get_cell(0, 5), Cell::Empty);
    assert_eq!(board.get_cell(1, 4), Cell::White);
    assert_eq!(board.move_amount, 1);
    assert!(board.who_turn() == Side::Black);
    assert!(board.do_move(Move::new(2, 5, 3, 4)).is_err());
    assert_eq!(board.do_move(Move::new(1, 2, 0, 3)), Ok(()));
    assert_eq!(board.move_amount, 2);
    assert!(board.who_turn() == Side::White);
}

#[test]
fn capture_takes_the_piece_jumped_over() {
    let mut board = Board::from_arr(
        State::WhiteTurn,
        layout(&[(3, 4, 'w'), (2, 3, 'b'), (5, 0, 'b'), (7, 0, 'b')]),
    );
    assert_eq!(board.count(Cell::Black), 3);
    assert_eq!(board.do_move(Move::new(3, 4, 1, 2)), Ok(()));
    assert_eq!(board.get_cell(2, 3), Cell::Empty);
    assert_eq!(board.get_cell(3, 4), Cell::Empty);
    assert_eq!(board.get_cell(1, 2), Cell::White);
    assert_eq!(board.count(Cell::Black), 2);
    assert_eq!(board.count(Cell::White), 1);
    assert_eq!(board.move_amount, 1);
    assert!(board.who_turn() == Side::Black);
}

#[test]
fn double_jump_binds_the_piece() {
    let mut board = Board::from_arr(
        State::WhiteTurn,
        layout(&[(5, 5, 'w'), (4, 4, 'b'), (4, 2, 'b'), (0, 7, 'w'), (1, 6, 'b'), (7, 0, 'b')]),
    );
    assert_eq!(board.do_move(Move::new(5, 5, 3, 3)), Ok(()));
    assert!(board.who_turn() == Side::White);
    assert_eq!(board.move_amount, 1);
    assert_eq!(board.all_available_moves(), moves(&[(3, 3, 5, 1)]));
    assert_eq!(board.available_moves_for_cell(3, 3), moves(&[(3, 3, 5, 1)]));
    assert_eq!(board.available_moves_for_cell(0, 7), moves(&[]));
    assert!(board.do_move(Move::new(0, 7, 2, 5)).is_err());
    assert_eq!(board.do_move(Move::new(3, 3, 5, 1)), Ok(()));
    assert!(board.who_turn() == Side::Black);
    assert_eq!(board.count(Cell::Black), 2);
    assert_eq!(board.move_amount, 2);
}

#[test]
fn lone_king_runs_the_long_diagonal() {
    let mut free = Board::from_arr(State::WhiteTurn, layout(&[(0, 7, 'W'), (1, 0, 'b')]));
    assert_eq!(free.do_move(Move::new(0, 7, 7, 0)), Ok(()));
    assert_eq!(free.get_cell(7, 0), Cell::WhiteKing);
    assert_eq!(free.count(Cell::Black), 1);
    let mut capture =
        Board::from_arr(State::WhiteTurn, layout(&[(0, 7, 'W'), (4, 3, 'b'), (1, 0, 'b')]));
    assert_eq!(capture.do_move(Move::new(0, 7, 7, 0)), Ok(()));
    assert_eq!(capture.get_cell(4, 3), Cell::Empty);
    assert_eq!(capture.get_cell(7, 0), Cell::WhiteKing);
    assert_eq!(capture.count(Cell::Black), 1);
}

#[test]
fn man_is_crowned_on_the_far_row() {
    let mut white = Board::from_arr(State::WhiteTurn, layout(&[(2, 1, 'w'), (7, 2, 'b')]));
    assert_eq!(white.do_move(Move::new(2, 1, 1, 0)), Ok(()));
    assert_eq!(white.get_cell(1, 0), Cell::WhiteKing);
    assert_eq!(white.count(Cell::WhiteKing), 1);
    assert_eq!(white.count(Cell::White), 1);
    let mut black = Board::from_arr(State::BlackTurn, layout(&[(2, 6, 'b'), (7, 5, 'w')]));
    assert_eq!(black.do_move(Move::new(2, 6, 3, 7)), Ok(()));
    assert_eq!(black.get_cell(3, 7), Cell::BlackKing);
    let mut back = Board::from_arr(State::WhiteTurn, layout(&[(2, 1, 'W'), (7, 2, 'b')]));
    assert_eq!(back.do_move(Move::new(2, 1, 3, 2)), Ok(()));
    assert_eq!(back.get_cell(3, 2), Cell::WhiteKing);
}

#[test]
fn last_piece_taken_ends_the_game() {
    let mut board = Board::from_arr(State::BlackTurn, layout(&[(3, 3, 'b'), (4, 4, 'w')]));
    assert_eq!(board.do_move(Move::new(3, 3, 5, 5)), Ok(()));
    assert_eq!(board.count(Cell::White), 0);
    assert!(board.is_ended());
    assert!(board.who_win() == Some(Side::Black));
    assert!(board.who_turn() == Side::White);
    assert_eq!(board.all_available_moves(), moves(&[]));
    assert!(board.do_move(Move::new(5, 5, 6, 6)).is_err());
}

#[test]
fn side_that_cannot_move_loses() {
    let mut board =
        Board::from_arr(State::WhiteTurn, layout(&[(0, 5, 'b'), (1, 6, 'w'), (2, 7, 'w'), (7, 6, 'w')]));
    assert_eq!(board.do_move(Move::new(7, 6, 6, 5)), Ok(()));
    assert!(board.is_ended());
    assert!(board.who_win() == Some(Side::White));
    assert_eq!(board.all_available_moves(), moves(&[]));
}

#[test]
fn game_is_drawn_after_the_ply_limit() {
    let mut board = Board::from_arr(State::WhiteTurn, layout(&[(0, 7, 'W'), (7, 2, 'B')]));
    let white = [Move::new(0, 7, 1, 6), Move::new(1, 6, 0, 7)];
    let black = [Move::new(7, 2, 6, 3), Move::new(6, 3, 7, 2)];
    for ply in 0..100 {
        assert!(!board.is_ended());
        assert_eq!(board.move_amount, ply);
        let mv = if ply % 2 == 0 { white[(ply / 2) % 2] } else { black[(ply / 2) % 2] };
        assert_eq!(board.do_move(mv), Ok(()));
    }
    assert_eq!(board.move_amount, 100);
    assert!(!board.is_ended());
    assert_eq!(board.do_move(Move::new(0, 7, 1, 6)), Ok(()));
    assert_eq!(board.move_amount, 101);
    assert!(board.is_ended());
    assert!(board.who_win().is_none());
    assert_eq!(board.all_available_moves(), moves(&[]));
    assert!(board.do_move(Move::new(7, 2, 6, 3)).is_err());
    assert_eq!(board.move_amount, 101);
}

#[test]
fn unchecked_move_does_what_the_checked_one_does() {
    let mut checked = Board::new();
    let mut unchecked = Board::new();
    for _ in 0..30 {
        let all = checked.all_available_moves();
        if all.is_empty() {
            break;
        }
        let mv = all[all.len() / 2];
        assert_eq!(checked.do_move(mv), Ok(()));
        unchecked.do_move_without_checks(mv);
        for y in 0..8 {
            for x in 0..8 {
                assert_eq!(checked.get_cell(x, y), unchecked.get_cell(x, y));
            }
        }
        assert_eq!(checked.move_amount, unchecked.move_amount);
        assert!(checked.who_turn() == unchecked.who_turn());
        assert_eq!(checked.is_ended(), unchecked.is_ended());
        assert_eq!(checked.count(Cell::White), unchecked.count(Cell::White));
        assert_eq!(checked.count(Cell::Black), unchecked.count(Cell::Black));
    }
}

#[test]
fn counts_follow_the_grid_and_pieces_stay_on_dark_squares() {
    let mut board = Board::new();
    let mut step = 0;
    while !board.is_ended() {
        let all = board.all_available_moves();
        assert!(!all.is_empty());
        let mv = all[(step * 7 + 3) % all.len()];
        let before_white = board.count(Cell::White);
        let before_black = board.count(Cell::Black);
        let mover = board.who_turn();
        let ply = board.move_amount;
        assert_eq!(board.do_move(mv), Ok(()));
        assert_eq!(board.move_amount, ply + 1);
        let mut white = 0;
        let mut black = 0;
        for y in 0..8 {
            for x in 0..8 {
                let c = board.get_cell(x, y);
                if c != Cell::Empty {
                    assert!(board.is_playable_cell(x, y));
                }
                if c == Cell::White || c == Cell::WhiteKing {
                    white += 1;
                }
                if c == Cell::Black || c == Cell::BlackKing {
                    black += 1;
                }
                assert!(!(c == Cell::White && y == 0));
                assert!(!(c == Cell::Black && y == 7));
            }
        }
        assert_eq!(board.count(Cell::White), white);
        assert_eq!(board.count(Cell::Black), black);
        let taken = (before_white - white) + (before_black - black);
        assert!(taken <= 1);
        if mover == Side::White {
            assert_eq!(white, before_white);
        } else {
            assert_eq!(black, before_black);
        }
        step += 1;
    }
    assert!(board.all_available_moves().is_empty());
}

#[test]
fn man_laid_out_on_its_far_row() {
    let mut stuck = Board::from_arr(State::WhiteTurn, layout(&[(1, 0, 'w'), (7, 2, 'b')]));
    assert_eq!(stuck.all_available_moves(), moves(&[]));
    assert_eq!(stuck.available_moves_for_cell(1, 0), moves(&[]));
    let mut back = Board::from_arr(State::WhiteTurn, layout(&[(1, 0, 'w'), (2, 1, 'b'), (7, 2, 'b')]));
    assert_eq!(back.all_available_moves(), moves(&[(1, 0, 3, 2)]));
    let mut other =
        Board::from_arr(State::WhiteTurn, layout(&[(1, 0, 'w'), (6, 7, 'w'), (0, 7, 'b'), (7, 2, 'b')]));
    assert_eq!(other.do_move(Move::new(6, 7, 5, 6)), Ok(()));
    assert_eq!(other.get_cell(1, 0), Cell::WhiteKing);
    assert_eq!(other.get_cell(0, 7), Cell::BlackKing);
    assert_eq!(other.get_cell(5, 6), Cell::White);
}

#[test]
fn pieces_on_light_squares_move_too() {
    let mut board = Board::from_arr(State::WhiteTurn, layout(&[(0, 0, 'W'), (7, 0, 'b')]));
    let all = board.all_available_moves();
    assert_eq!(all.len(), 7);
    assert_eq!(all[0], Move::new(0, 0, 1, 1));
    assert_eq!(all[6], Move::new(0, 0, 7, 7));
    assert_eq!(board.available_moves_for_cell(0, 0), all);
}

#[test]
fn jump_onto_the_far_row_crowns_and_passes_the_turn() {
    let mut board = Board::from_arr(
        State::WhiteTurn,
        layout(&[(5, 2, 'w'), (6, 1, 'b'), (1, 0, 'b'), (3, 0, 'b')]),
    );
    assert_eq!(board.do_move(Move::new(5, 2, 7, 0)), Ok(()));
    assert_eq!(board.get_cell(7, 0), Cell::WhiteKing);
    assert_eq!(board.get_cell(6, 1), Cell::Empty);
    assert!(board.who_turn() == Side::Black);
    assert_eq!(board.count(Cell::Black), 2);
}

#[test]
fn king_goes_on_capturing() {
    let mut board =
        Board::from_arr(State::WhiteTurn, layout(&[(0, 7, 'W'), (3, 4, 'b'), (6, 3, 'B'), (1, 0, 'b')]));
    assert_eq!(board.do_move(Move::new(0, 7, 5, 2)), Ok(()));
    assert!(board.who_turn() == Side::White);
    assert_eq!(board.all_available_moves(), moves(&[(5, 2, 7, 4)]));
    assert_eq!(board.do_move(Move::new(5, 2, 7, 4)), Ok(()));
    assert!(board.who_turn() == Side::Black);
    assert_eq!(board.count(Cell::Black), 1);
    assert_eq!(board.count(Cell::BlackKing), 0);
}

#[test]
fn cells_as_text() {
    assert_eq!(Cell::White.to_text(), "w");
    assert_eq!(Cell::Black.to_text(), "b");
    assert_eq!(Cell::WhiteKing.to_text(), "W");
    assert_eq!(Cell::BlackKing.to_text(), "B");
    assert_eq!(Cell::Empty.to_text(), " ");
    for cell in [Cell::White, Cell::Black, Cell::WhiteKing, Cell::BlackKing, Cell::Empty] {
        let symbol = cell.to_text().chars().next().unwrap();
        let board = Board::from_arr(State::WhiteTurn, layout(&[(3, 4, symbol)]));
        assert_eq!(board.get_cell(3, 4), cell);
    }
}
