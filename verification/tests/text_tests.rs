use othello::board::{empty_board, Square};
use othello::game::opening_board;
use othello::input::{
    get_user_move, label_index, label_text, move_menu, SelectionUnavailable, LABEL_COUNT,
};
use othello::render::{glyph_text, render_board};
use othello::text::{digit_text, push_decimal};

const LABELS: &str = "0123456789qwertyuiopasdf";

fn decimal(n: usize) -> String {
    let mut out = String::new();
    push_decimal(&mut out, n);
    out
}

#[test]
fn digits_are_written_one_by_one() {
    for d in 0..10 {
        assert_eq!(digit_text(d), format!("{}", d));
    }
}

#[test]
fn numbers_are_written_in_decimal() {
    assert_eq!(decimal(0), "0");
    assert_eq!(decimal(7), "7");
    assert_eq!(decimal(10), "10");
    assert_eq!(decimal(47), "47");
    assert_eq!(decimal(64), "64");
    assert_eq!(decimal(100), "100");
    assert_eq!(decimal(12345), "12345");
    assert_eq!(decimal(usize::MAX), format!("{}", usize::MAX));
}

#[test]
fn a_number_is_written_after_what_is_there() {
    let mut out = String::from("n = ");
    push_decimal(&mut out, 305);
    assert_eq!(out, "n = 305");
}

#[test]
fn there_are_twenty_four_labels() {
    assert_eq!(LABEL_COUNT, 24);
    for (i, c) in LABELS.chars().enumerate() {
        assert_eq!(label_text(i), c.to_string());
        assert_eq!(label_index(c), Some(i));
    }
}

#[test]
fn other_keys_are_no_labels() {
    for c in ['g', 'z', 'Q', 'A', ' ', '\n', '-', '\u{25cf}'] {
        assert_eq!(label_index(c), None);
    }
}

#[test]
fn the_menu_shows_each_move_under_its_label() {
    let menu = move_menu(&vec![(2, 2), (4, 2), (2, 4)]).unwrap();
    assert_eq!(
        menu,
        "\u{1b}[2K0: (2, 2)  \n\u{1b}[2K1: (4, 2)  \n\u{1b}[2K2: (2, 4)  \n"
    );
}

#[test]
fn the_menu_of_no_moves_is_empty() {
    assert_eq!(move_menu(&vec![]).unwrap(), "");
}

#[test]
fn the_menu_uses_the_letters_after_the_digits() {
    let moves: Vec<(usize, usize)> = (0..24).map(|i| (i % 8, i / 8)).collect();
    let menu = move_menu(&moves).unwrap();
    let lines: Vec<&str> = menu.split('\n').collect();
    assert_eq!(lines.len(), 25);
    assert_eq!(lines[24], "");
    assert_eq!(lines[9], "\u{1b}[2K9: (1, 1)  ");
    assert_eq!(lines[10], "\u{1b}[2Kq: (2, 1)  ");
    assert_eq!(lines[23], "\u{1b}[2Kf: (7, 2)  ");
}

#[test]
fn the_menu_writes_large_coordinates_in_full() {
    assert_eq!(move_menu(&vec![(10, 123)]).unwrap(), "\u{1b}[2K0: (10, 123)  \n");
}

#[test]
fn more_moves_than_labels_cannot_be_shown() {
    let moves: Vec<(usize, usize)> = (0..25).map(|i| (i % 8, i / 8)).collect();
    assert_eq!(move_menu(&moves), Err(SelectionUnavailable { offered: 25 }));
    let moves: Vec<(usize, usize)> = (0..40).map(|i| (i % 8, i / 8)).collect();
    assert_eq!(move_menu(&moves), Err(SelectionUnavailable { offered: 40 }));
}

#[test]
fn a_key_picks_the_move_under_its_label() {
    let moves: Vec<(usize, usize)> = (0..24).map(|i| (i % 8, i / 8)).collect();
    for (i, c) in LABELS.chars().enumerate() {
        assert_eq!(get_user_move(&moves, c), Some(moves[i]));
    }
    assert_eq!(get_user_move(&moves, '0'), Some((0, 0)));
    assert_eq!(get_user_move(&moves, 'q'), Some((2, 1)));
    assert_eq!(get_user_move(&moves, 'f'), Some((7, 2)));
}

#[test]
fn a_label_without_a_move_picks_nothing() {
    let moves = vec![(2, 2), (4, 2), (2, 4)];
    assert_eq!(get_user_move(&moves, '2'), Some((2, 4)));
    assert_eq!(get_user_move(&moves, '3'), None);
    assert_eq!(get_user_move(&moves, 'f'), None);
    assert_eq!(get_user_move(&vec![], '0'), None);
}

#[test]
fn a_key_that_is_no_label_picks_nothing() {
    let moves = vec![(2, 2), (4, 2), (2, 4)];
    assert_eq!(get_user_move(&moves, 'x'), None);
    assert_eq!(get_user_move(&moves, ' '), None);
}

#[test]
fn each_square_has_its_sign() {
    assert_eq!(glyph_text(Square::White), "\u{25cf} ");
    assert_eq!(glyph_text(Square::Black), "\u{25cb} ");
    assert_eq!(glyph_text(Square::Empty), "\u{b7} ");
}

#[test]
fn the_picture_of_the_empty_board() {
    let mut expected = String::from("\u{1b}[1;1H\u{1b}[2K  0 1 2 3 4 5 6 7\n");
    for r in 0..8 {
        let cells = "\u{b7} ".repeat(8);
        expected.push_str(&format!("\u{1b}[2K{} {}{}\n", r, cells, r));
    }
    expected.push_str("\u{1b}[2K  0 1 2 3 4 5 6 7\n");
    assert_eq!(render_board(&empty_board()), expected);
}

#[test]
fn the_picture_of_the_opening_position() {
    let frame = render_board(&opening_board());
    let lines: Vec<&str> = frame.split('\n').collect();
    assert_eq!(lines.len(), 11);
    assert_eq!(lines[0], "\u{1b}[1;1H\u{1b}[2K  0 1 2 3 4 5 6 7");
    assert_eq!(lines[1], "\u{1b}[2K0 · · · · · · · · 0");
    assert_eq!(lines[4], "\u{1b}[2K3 · · ○ ○ ○ · · · 3");
    assert_eq!(lines[5], "\u{1b}[2K4 · · · ○ ● · · · 4");
    assert_eq!(lines[8], "\u{1b}[2K7 · · · · · · · · 7");
    assert_eq!(lines[9], "\u{1b}[2K  0 1 2 3 4 5 6 7");
    assert_eq!(lines[10], "");
}
