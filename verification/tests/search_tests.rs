use othello::board::{empty_board, Board, Square};
use othello::capture::update_board;
use othello::game::{opening_board, starting_board};
use othello::legality::find_valid_moves;
use othello::search::{best_move_at_depth, find_best_move, score_position, SEARCH_DEPTH};

fn board_from(rows: [&str; 8]) -> Board {
    let mut board = empty_board();
    for (r, row) in rows.iter().enumerate() {
        for (c, ch) in row.chars().enumerate() {
            board[r][c] = match ch {
                'W' => Square::White,
                'B' => Square::Black,
                _ => Square::Empty,
            };
        }
    }
    board
}

fn busy_board() -> Board {
    board_from([
        ".....W..",
        "W...B...",
        ".BBB....",
        "...BBW..",
        "..BB....",
        "..W.B...",
        ".....B..",
        "........",
    ])
}

#[test]
fn search_depth_is_eight() {
    assert_eq!(SEARCH_DEPTH, 8);
}

#[test]
fn no_ply_scores_nothing() {
    assert_eq!(score_position(&opening_board(), Square::White, 0), 0);
    assert_eq!(score_position(&opening_board(), Square::Black, 0), 0);
}

#[test]
fn one_ply_scores_the_pieces_of_the_player() {
    assert_eq!(score_position(&opening_board(), Square::White, 1), 1);
    assert_eq!(score_position(&opening_board(), Square::Black, 1), 4);
    assert_eq!(score_position(&busy_board(), Square::White, 1), 4);
    assert_eq!(score_position(&busy_board(), Square::Black, 1), 10);
}

#[test]
fn two_plies_add_the_pieces_after_each_move() {
    // White has one piece; each of its three moves leaves it with three.
    assert_eq!(score_position(&opening_board(), Square::White, 2), 1 + 3 + 3 + 3);
    // Black has four pieces; each of its three moves leaves it with six.
    assert_eq!(score_position(&opening_board(), Square::Black, 2), 4 + 6 + 6 + 6);
}

#[test]
fn scores_of_the_opening_position_by_depth() {
    let board = opening_board();
    let white: Vec<u128> = (0..=8).map(|d| score_position(&board, Square::White, d)).collect();
    assert_eq!(white, vec![0, 1, 10, 109, 703, 1864, 1864, 1864, 1864]);
    let black: Vec<u128> = (0..=8).map(|d| score_position(&board, Square::Black, d)).collect();
    assert_eq!(black, vec![0, 4, 22, 22, 22, 22, 22, 22, 22]);
}

#[test]
fn a_cell_listed_twice_is_followed_twice() {
    let board = busy_board();
    assert_eq!(score_position(&board, Square::White, 2), 55);
    assert_eq!(score_position(&board, Square::White, 3), 422);
    assert_eq!(score_position(&board, Square::White, 4), 2157);
    assert_eq!(score_position(&board, Square::Black, 2), 46);
    assert_eq!(score_position(&board, Square::Black, 3), 102);
    assert_eq!(score_position(&board, Square::Black, 4), 102);
}

#[test]
fn candidates_are_scored_from_the_position_they_lead_to() {
    let board = opening_board();
    let mut scores = Vec::new();
    for (x, y) in find_valid_moves(&board, Square::White) {
        let mut next = board;
        update_board(&mut next, x, y, Square::White);
        scores.push(score_position(&next, Square::White, SEARCH_DEPTH));
    }
    assert_eq!(scores, vec![729, 382, 752]);
}

#[test]
fn best_move_for_white_in_the_opening_position() {
    let board = opening_board();
    let moves = find_valid_moves(&board, Square::White);
    assert_eq!(find_best_move(&board, Square::White, moves), (2, 4));
}

#[test]
fn best_move_for_black_after_the_first_reply() {
    let mut board = opening_board();
    update_board(&mut board, 2, 2, Square::White);
    let moves = find_valid_moves(&board, Square::Black);
    assert_eq!(moves, vec![(2, 1), (3, 2), (5, 4), (4, 5)]);
    assert_eq!(find_best_move(&board, Square::Black, moves), (3, 2));
}

#[test]
fn best_move_on_the_busy_board() {
    let board = busy_board();
    let moves = find_valid_moves(&board, Square::Black);
    assert_eq!(moves, vec![(6, 3), (1, 6), (2, 6)]);
    assert_eq!(find_best_move(&board, Square::Black, moves), (6, 3));
    let moves = find_valid_moves(&board, Square::White);
    assert_eq!(find_best_move(&board, Square::White, moves), (5, 2));
}

#[test]
fn equal_scores_keep_the_first_candidate() {
    let board = starting_board();
    let moves = find_valid_moves(&board, Square::Black);
    assert_eq!(moves, vec![(3, 2), (2, 3), (5, 4), (4, 5)]);
    assert_eq!(find_best_move(&board, Square::Black, moves), (3, 2));
    let moves = find_valid_moves(&board, Square::White);
    assert_eq!(find_best_move(&board, Square::White, moves), (4, 2));
    let reversed = vec![(4, 5), (5, 4), (2, 3), (3, 2)];
    assert_eq!(find_best_move(&board, Square::Black, reversed), (4, 5));
}

#[test]
fn the_choice_depends_on_the_depth() {
    let board = opening_board();
    let moves = find_valid_moves(&board, Square::White);
    assert_eq!(best_move_at_depth(&board, Square::White, &moves, 0), (2, 2));
    assert_eq!(best_move_at_depth(&board, Square::White, &moves, 1), (2, 2));
    assert_eq!(best_move_at_depth(&board, Square::White, &moves, 2), (2, 4));
    assert_eq!(best_move_at_depth(&board, Square::White, &moves, 3), (2, 4));
    assert_eq!(best_move_at_depth(&board, Square::White, &moves, SEARCH_DEPTH), (2, 4));
}

#[test]
fn a_single_candidate_is_the_choice() {
    let board = opening_board();
    assert_eq!(find_best_move(&board, Square::White, vec![(4, 2)]), (4, 2));
}

#[test]
fn the_same_position_gives_the_same_move() {
    let board = busy_board();
    for player in [Square::White, Square::Black] {
        let moves = find_valid_moves(&board, player);
        let first = find_best_move(&board, player, moves.clone());
        let second = find_best_move(&board, player, moves.clone());
        assert_eq!(first, second);
        assert!(moves.contains(&first));
    }
}

#[test]
fn the_search_leaves_the_board_as_it_was() {
    let board = busy_board();
    let copy = board;
    let moves = find_valid_moves(&board, Square::White);
    find_best_move(&board, Square::White, moves);
    assert_eq!(board, copy);
}
