//! The picture of the board that is written to the terminal.

use vstd::prelude::*;
use vstd::string::StringExecFns;
use crate::board::{at, grid, lemma_grid_cell, Board, Grid, Square, BOARD_SIZE};
use crate::terminal::{clear_line, clear_line_text, cursor_to, goto_text};
use crate::text::{digit_char, digit_text};

verus! {

/// The sign that stands for a square: a filled disc for White, a ring for
/// Black, a dot for an empty cell.
pub open spec fn glyph(s: Square) -> char {
    match s {
        Square::White => '\u{25cf}',
        Square::Black => '\u{25cb}',
        Square::Empty => '\u{b7}',
    }
}

/// The line of column numbers above and below the board.
pub open spec fn header_text() -> Seq<char> {
    "  0 1 2 3 4 5 6 7\n"@
}

/// The first `n` cells of row `r`, each as its sign and a blank.
pub open spec fn cells_text(g: Grid, r: int, n: nat) -> Seq<char>
    decreases n,
{
    if n == 0 {
        Seq::empty()
    } else {
        cells_text(g, r, (n - 1) as nat) + seq![glyph(at(g, r, n - 1)), ' ']
    }
}

/// The line of row `r`: the line is cleared, then come the number of the
/// row, a blank, the eight cells, and the number of the row again.
pub open spec fn row_text(g: Grid, r: int) -> Seq<char> {
    clear_line_text() + seq![digit_char(r as nat), ' '] + cells_text(g, r, 8) + seq![
        digit_char(r as nat),
        '\n',
    ]
}

/// The lines of the first `n` rows.
pub open spec fn rows_text(g: Grid, n: nat) -> Seq<char>
    decreases n,
{
    if n == 0 {
        Seq::empty()
    } else {
        rows_text(g, (n - 1) as nat) + row_text(g, n - 1)
    }
}

/// The whole picture: the cursor goes to the top left corner, then come the
/// column numbers, the eight rows, and the column numbers again, each line
/// cleared before it is written.
pub open spec fn frame_text(g: Grid) -> Seq<char> {
    goto_text(1, 1) + clear_line_text() + header_text() + rows_text(g, 8) + clear_line_text()
        + header_text()
}

/// The text of the sign of `s`, with the blank that follows it.
pub fn glyph_text(s: Square) -> (text: &'static str)
    ensures
        text@ == seq![glyph(s), ' '],
{
    proof {
        reveal_strlit("\u{25cf} ");
        reveal_strlit("\u{25cb} ");
        reveal_strlit("\u{b7} ");
    }
    let text = match s {
        Square::White => "\u{25cf} ",
        Square::Black => "\u{25cb} ",
        Square::Empty => "\u{b7} ",
    };
    assert(text@ =~= seq![glyph(s), ' ']);
    text
}

/// Draws `board` as text for the terminal.
pub fn render_board(board: &Board) -> (frame: String)
    ensures
        frame@ == frame_text(grid(*board)),
{
    let ghost g = grid(*board);
    let mut frame = cursor_to(1, 1);
    let clear = clear_line();
    frame.append(clear.as_str());
    frame.append("  0 1 2 3 4 5 6 7\n");
    let ghost top = frame@;
    for i in 0..BOARD_SIZE
        invariant
            g == grid(*board),
            clear@ == clear_line_text(),
            top == goto_text(1, 1) + clear_line_text() + header_text(),
            frame@ == top + rows_text(g, i as nat),
    {
        let ghost before = frame@;
        frame.append(clear.as_str());
        frame.append(digit_text(i));
        frame.append(" ");
        let ghost start = frame@;
        proof {
            reveal_strlit(" ");
            assert(start =~= before + clear_line_text() + seq![digit_char(i as nat), ' ']);
        }
        for j in 0..BOARD_SIZE
            invariant
                i < 8,
                g == grid(*board),
                frame@ == start + cells_text(g, i as int, j as nat),
        {
            proof {
                lemma_grid_cell(*board, i as int, j as int);
            }
            frame.append(glyph_text(board[i][j]));
            assert(frame@ =~= start + cells_text(g, i as int, (j + 1) as nat));
        }
        frame.append(digit_text(i));
        frame.append("\n");
        proof {
            reveal_strlit("\n");
            assert(frame@ =~= before + row_text(g, i as int));
            assert(frame@ =~= top + rows_text(g, (i + 1) as nat));
        }
    }
    frame.append(clear.as_str());
    frame.append("  0 1 2 3 4 5 6 7\n");
    assert(frame@ =~= frame_text(g));
    frame
}

} // verus!
