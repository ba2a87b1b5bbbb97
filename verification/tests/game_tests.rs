use othello::board::{count_pieces, empty_board, Board, Square};
use othello::game::{
    opening_board, outcome, result_line, starting_board, Game, Outcome, Step, TURNS,
};
use othello::legality::find_valid_moves;

fn board_from(rows: [&str; 8]) -> Board {
    let mut board = empty_board();
    for (r, row) in rows.iter().enumerate() {
        for (c, ch) in row.chars().enumerate() {
            board[r][c] = match ch {
                'W' => Square::White,
                'B' => Square::Black,
                _ => Square::Empty,
            };
        }
    }
    board
}

#[test]
fn a_game_lasts_fifty_nine_turns_after_the_opening() {
    assert_eq!(TURNS, 59);
}

#[test]
fn starting_board_holds_the_four_centre_pieces() {
    let expected = board_from([
        "........",
        "........",
        "........",
        "...WB...",
        "...BW...",
        "........",
        "........",
        "........",
    ]);
    assert_eq!(starting_board(), expected);
}

#[test]
fn opening_board_is_the_start_after_blacks_move() {
    let expected = board_from([
        "........",
        "........",
        "........",
        "..BBB...",
        "...BW...",
        "........",
        "........",
        "........",
    ]);
    assert_eq!(opening_board(), expected);
}

#[test]
fn a_new_game_begins_with_white_in_the_opening_position() {
    let game = Game::new();
    assert_eq!(*game.board(), opening_board());
    assert_eq!(game.current_player(), Square::White);
    assert_eq!(game.turns_left(), 59);
}

#[test]
fn white_is_asked_to_choose_among_its_moves() {
    let game = Game::new();
    match game.next_step() {
        Step::Human(moves) => assert_eq!(moves, vec![(2, 2), (4, 2), (2, 4)]),
        other => panic!("unexpected step {:?}", other),
    }
}

#[test]
fn black_is_given_the_move_of_the_search() {
    let mut game = Game::new();
    game.play((2, 2));
    assert_eq!(game.current_player(), Square::Black);
    assert_eq!(game.turns_left(), 58);
    match game.next_step() {
        Step::Computer(m) => assert_eq!(m, (3, 2)),
        other => panic!("unexpected step {:?}", other),
    }
}

#[test]
fn play_applies_the_move_and_hands_the_turn_over() {
    let mut game = Game::new();
    game.play((2, 2));
    let expected = board_from([
        "........",
        "........",
        "..W.....",
        "..BWB...",
        "...BW...",
        "........",
        "........",
        "........",
    ]);
    assert_eq!(*game.board(), expected);
    game.play((3, 2));
    let expected = board_from([
        "........",
        "........",
        "..WB....",
        "..BBB...",
        "...BW...",
        "........",
        "........",
        "........",
    ]);
    assert_eq!(*game.board(), expected);
    assert_eq!(game.current_player(), Square::White);
    assert_eq!(game.turns_left(), 57);
}

#[test]
fn a_player_without_a_move_passes() {
    let board = board_from([
        "WWWWWWWW",
        "WWWWWWWW",
        "WWWWWWWW",
        "WWWWWWWW",
        "BWWWWWW.",
        "WWWWWWWW",
        "WWWWWWWW",
        "WWWWWWWW",
    ]);
    let mut game = Game::from_position(board, Square::White, 3).unwrap();
    assert!(matches!(game.next_step(), Step::Pass));
    game.pass_turn();
    assert_eq!(*game.board(), board);
    assert_eq!(game.current_player(), Square::Black);
    assert_eq!(game.turns_left(), 2);
    match game.next_step() {
        Step::Computer(m) => assert_eq!(m, (7, 4)),
        other => panic!("unexpected step {:?}", other),
    }
}

#[test]
fn a_game_without_turns_is_finished() {
    let game = Game::from_position(opening_board(), Square::White, 0).unwrap();
    assert!(matches!(game.next_step(), Step::Finished));
    let game = Game::from_position(opening_board(), Square::Black, 0).unwrap();
    assert!(matches!(game.next_step(), Step::Finished));
}

#[test]
fn a_game_needs_a_colour_and_no_more_turns_than_it_lasts() {
    assert!(Game::from_position(opening_board(), Square::Empty, 10).is_none());
    assert!(Game::from_position(opening_board(), Square::White, 60).is_none());
    assert!(Game::from_position(opening_board(), Square::Black, 59).is_some());
}

#[test]
fn the_winner_is_the_colour_with_more_pieces() {
    assert_eq!(outcome(&opening_board()), Outcome::BlackWins(4));
    assert_eq!(outcome(&starting_board()), Outcome::Draw);
    assert_eq!(outcome(&empty_board()), Outcome::Draw);
    let mut board = starting_board();
    board[0][0] = Square::White;
    assert_eq!(outcome(&board), Outcome::WhiteWins(3));
    assert_eq!(Game::new().result(), Outcome::BlackWins(4));
}

#[test]
fn result_lines_read_as_they_should() {
    assert_eq!(result_line(Outcome::WhiteWins(47)), "White wins with 47 pieces!");
    assert_eq!(result_line(Outcome::BlackWins(4)), "Black wins with 4 pieces!");
    assert_eq!(result_line(Outcome::WhiteWins(64)), "White wins with 64 pieces!");
    assert_eq!(result_line(Outcome::BlackWins(33)), "Black wins with 33 pieces!");
    assert_eq!(result_line(Outcome::Draw), "Draw!");
}

#[test]
fn the_board_never_loses_a_piece_during_play() {
    let mut game = Game::new();
    let mut before = 5;
    for _ in 0..12 {
        match game.next_step() {
            Step::Finished => break,
            Step::Pass => game.pass_turn(),
            Step::Computer(m) => game.play(m),
            Step::Human(moves) => game.play(moves[moves.len() - 1]),
        }
        let board = game.board();
        let now = count_pieces(board, Square::White) + count_pieces(board, Square::Black);
        assert_eq!(now, before + 1);
        before = now;
    }
}

#[test]
fn a_whole_game_with_the_first_move_chosen_each_time() {
    let mut game = Game::new();
    let mut steps = 0;
    let mut played = Vec::new();
    loop {
        match game.next_step() {
            Step::Finished => break,
            Step::Pass => game.pass_turn(),
            Step::Computer(m) => {
                assert!(find_valid_moves(game.board(), Square::Black).contains(&m));
                played.push(m);
                game.play(m);
            }
            Step::Human(moves) => {
                played.push(moves[0]);
                game.play(moves[0]);
            }
        }
        steps += 1;
        assert_eq!(game.turns_left(), 59 - steps);
    }
    assert_eq!(steps, 59);
    assert_eq!(&played[..6], &[(2, 2), (3, 2), (4, 2), (5, 1), (4, 1), (5, 3)]);
    let expected = board_from([
        "WWWWWWWB",
        "WWWWWWBW",
        "WWBBWBWW",
        "WWBBBWWW",
        "WWWBBWWW",
        "WWBWWBWW",
        "WBWWWWWB",
        "BBWWWWWB",
    ]);
    assert_eq!(*game.board(), expected);
    assert_eq!(game.result(), Outcome::WhiteWins(47));
    let line = result_line(game.result());
    assert_eq!(line, "White wins with 47 pieces!");
    assert!(
        line == "Draw!"
            || line.starts_with("White wins with ")
            || line.starts_with("Black wins with ")
    );
}
