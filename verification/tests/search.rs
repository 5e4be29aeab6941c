use checkers::board::{Board, Cell, Move, Side, State};
use checkers::player_minmax::{
    best_move, chouse_move10, chouse_move15, chouse_move5, compute_best_move, count_score,
};
use checkers::player_random::{chouse_move, pick_move};

const E: [char; 8] = [' ', ' ', ' ', ' ', ' ', ' ', ' ', ' '];

fn layout(pieces: &[(usize, usize, char)]) -> [[char; 8]; 8] {
    let mut arr = [E; 8];
    for &(x, y, c) in pieces {
        arr[y][x] = c;
    }
    arr
}

fn same_board(a: &Board, b: &Board) -> bool {
    for y in 0..8 {
        for x in 0..8 {
            if a.get_cell(x, y) != b.get_cell(x, y) {
                return false;
            }
        }
    }
    a.move_amount == b.move_amount
        && a.who_turn() == b.who_turn()
        && a.is_ended() == b.is_ended()
        && a.who_win() == b.who_win()
}

/// The unpruned search: value and first best move.
fn full_width(board: &Board, depth: usize) -> (i8, Option<Move>) {
    let mut copy = *board;
    let mvs = copy.all_available_moves();
    if depth == 0 || mvs.is_empty() {
        return (count_score(board), None);
    }
    let mut best: i8 = -127;
    let mut best_mv = None;
    for mv in mvs {
        let mut next = *board;
        next.do_move_without_checks(mv);
        let value = if next.who_turn() == board.who_turn() {
            full_width(&next, depth).0
        } else {
            -full_width(&next, depth - 1).0
        };
        if value > best {
            best = value;
            best_mv = Some(mv);
        }
    }
    (best, best_mv)
}

fn positions() -> Vec<Board> {
    vec![
        Board::new(),
        Board::from_arr(
            State::WhiteTurn,
            layout(&[(5, 5, 'w'), (4, 4, 'b'), (4, 2, 'b'), (0, 7, 'w'), (1, 6, 'b'), (7, 0, 'b')]),
        ),
        Board::from_arr(
            State::BlackTurn,
            layout(&[(1, 2, 'b'), (3, 2, 'b'), (2, 5, 'w'), (4, 5, 'w'), (6, 5, 'W'), (5, 0, 'B')]),
        ),
        Board::from_arr(State::WhiteTurn, layout(&[(0, 7, 'W'), (4, 3, 'b'), (1, 0, 'b')])),
        Board::from_arr(
            State::BlackTurn,
            layout(&[(0, 1, 'b'), (2, 1, 'b'), (1, 4, 'w'), (3, 4, 'w'), (5, 4, 'w'), (7, 2, 'B')]),
        ),
        Board::from_arr(State::WhiteTurn, layout(&[(2, 1, 'w'), (7, 2, 'b'), (5, 2, 'b')])),
    ]
}

#[test]
fn score_is_material_for_the_side_to_move() {
    let arr = layout(&[(0, 7, 'w'), (2, 7, 'W'), (4, 7, 'w'), (1, 0, 'b')]);
    assert_eq!(count_score(&Board::from_arr(State::WhiteTurn, arr)), 2);
    assert_eq!(count_score(&Board::from_arr(State::BlackTurn, arr)), -2);
    assert_eq!(count_score(&Board::from_arr(State::Draw, arr)), 2);
    assert_eq!(count_score(&Board::from_arr(State::WhiteWin, arr)), -100);
    assert_eq!(count_score(&Board::from_arr(State::BlackWin, arr)), -100);
    assert_eq!(count_score(&Board::new()), 0);
}

#[test]
fn pruned_search_scores_as_the_full_width_search() {
    for board in positions() {
        for depth in 0..5 {
            let mut copy = board;
            let found = compute_best_move(&mut copy, depth, -127, 127);
            let (value, mv) = full_width(&board, depth);
            assert_eq!(found.score, value);
            assert_eq!(found.mv, mv);
            assert!(same_board(&copy, &board));
        }
    }
}

#[test]
fn narrow_window_bounds_the_value() {
    for board in positions() {
        for depth in 1..4 {
            let (value, _) = full_width(&board, depth);
            for alpha in -4i8..4 {
                for beta in (alpha + 1)..5 {
                    let mut copy = board;
                    let found = compute_best_move(&mut copy, depth, alpha, beta);
                    if found.score < beta {
                        assert!(value <= found.score);
                    }
                    if found.score > alpha {
                        assert!(value >= found.score);
                    }
                }
            }
        }
    }
}

#[test]
fn best_move_is_the_first_best_of_the_full_width_search() {
    for board in positions() {
        for depth in 0..5 {
            let mut copy = board;
            assert_eq!(best_move(&mut copy, depth), full_width(&board, depth).1);
            assert!(same_board(&copy, &board));
        }
    }
}

#[test]
fn no_move_without_depth_or_legal_moves() {
    let mut board = Board::new();
    assert_eq!(best_move(&mut board, 0), None);
    let mut stuck = Board::from_arr(State::WhiteTurn, layout(&[(0, 5, 'b'), (1, 6, 'w'), (2, 7, 'w')]));
    assert_eq!(stuck.do_move(Move::new(1, 6, 2, 5)), Ok(()));
    let mut over = Board::from_arr(State::BlackWin, layout(&[(0, 7, 'w'), (1, 0, 'b')]));
    assert_eq!(best_move(&mut over, 3), None);
    assert_eq!(chouse_move5(&mut over), None);
    assert_eq!(chouse_move(&mut over), None);
    let mut none = Board::from_arr(State::WhiteTurn, layout(&[(1, 0, 'b')]));
    assert_eq!(best_move(&mut none, 3), None);
    assert_eq!(chouse_move(&mut none), None);
}

#[test]
fn search_takes_the_capture_that_wins() {
    let mut board = Board::from_arr(State::BlackTurn, layout(&[(3, 3, 'b'), (4, 4, 'w')]));
    assert_eq!(best_move(&mut board, 1), Some(Move::new(3, 3, 5, 5)));
    let found = compute_best_move(&mut board, 1, -127, 127);
    assert_eq!(found.score, 100);
    assert_eq!(found.mv, Some(Move::new(3, 3, 5, 5)));
}

#[test]
fn search_looks_through_a_double_jump_in_one_turn() {
    let mut board = Board::from_arr(
        State::WhiteTurn,
        layout(&[(5, 5, 'w'), (4, 4, 'b'), (4, 2, 'b'), (7, 0, 'b'), (0, 1, 'b')]),
    );
    let found = compute_best_move(&mut board, 1, -127, 127);
    assert_eq!(found.mv, Some(Move::new(5, 5, 3, 3)));
    assert_eq!(found.score, -1);
}

#[test]
fn fixed_depth_selectors_agree_with_best_move() {
    let board = Board::from_arr(
        State::BlackTurn,
        layout(&[(1, 2, 'b'), (2, 5, 'w'), (6, 5, 'W')]),
    );
    let mut a = board;
    let mut b = board;
    assert_eq!(chouse_move5(&mut a), best_move(&mut b, 5));
    assert_eq!(chouse_move10(&mut a), best_move(&mut b, 10));
    let small = Board::from_arr(State::BlackTurn, layout(&[(1, 2, 'b'), (2, 5, 'w')]));
    let mut c = small;
    let mut d = small;
    assert_eq!(chouse_move15(&mut c), best_move(&mut d, 15));
    assert!(chouse_move5(&mut Board::new()).is_some());
}

#[test]
fn pick_takes_the_move_at_the_number_modulo_the_length() {
    let mvs = vec![Move::new(0, 5, 1, 4), Move::new(2, 5, 1, 4), Move::new(2, 5, 3, 4)];
    assert_eq!(pick_move(&mvs, 0), Some(mvs[0]));
    assert_eq!(pick_move(&mvs, 7), Some(mvs[1]));
    assert_eq!(pick_move(&mvs, 8), Some(mvs[2]));
    assert_eq!(pick_move(&mvs, usize::MAX), Some(mvs[usize::MAX % 3]));
    assert_eq!(pick_move(&Vec::new(), 5), None);
}

#[test]
fn random_selector_picks_legal_moves() {
    let mut board = Board::new();
    let mut seen = Vec::new();
    for _ in 0..200 {
        let all = board.all_available_moves();
        let mv = chouse_move(&mut board).unwrap();
        assert!(all.contains(&mv));
        if !seen.contains(&mv) {
            seen.push(mv);
        }
    }
    assert!(seen.len() > 1);
    assert!(same_board(&board, &Board::new()));
}

#[test]
fn random_game_runs_to_its_end() {
    let mut board = Board::new();
    let mut plies = 0;
    while !board.is_ended() {
        let mv = chouse_move(&mut board).unwrap();
        assert_eq!(board.do_move(mv), Ok(()));
        plies += 1;
        assert_eq!(board.move_amount, plies);
    }
    assert!(plies <= 101);
    assert_eq!(chouse_move(&mut board), None);
    if board.who_win().is_none() {
        assert_eq!(plies, 101);
    }
    assert!(board.count(Cell::White) + board.count(Cell::Black) <= 24);
    assert!(board.who_turn() == Side::White || board.who_turn() == Side::Black);
}
