//! The board: an 8x8 grid of squares, and its mathematical view.

use vstd::prelude::*;

verus! {

/// What one cell of the board holds.
#[derive(Copy, Clone, PartialEq, Eq, Structural, Debug)]
pub enum Square {
    Empty,
    White,
    Black,
}

/// Rows, and columns, of the board.
pub const BOARD_SIZE: usize = 8;

/// The board, indexed `board[row][column]`.
pub type Board = [[Square; BOARD_SIZE]; BOARD_SIZE];

/// The view of a board: its 64 cells, row after row.
pub type Grid = Seq<Square>;

/// Cells of a board.
pub open spec fn cell_count() -> nat {
    64
}

/// Whether row `r`, column `c` is a cell of the board.
pub open spec fn on_board(r: int, c: int) -> bool {
    0 <= r < 8 && 0 <= c < 8
}

/// A grid that views a board holds one square for each of the 64 cells.
pub open spec fn well_formed(g: Grid) -> bool {
    g.len() == cell_count()
}

/// The square at row `r`, column `c`.
pub open spec fn at(g: Grid, r: int, c: int) -> Square {
    g[r * 8 + c]
}

/// The view of the board `b`.
pub open spec fn grid(b: Board) -> Grid {
    Seq::new(cell_count(), |n: int| b[n / 8][n % 8])
}

/// The grid `g` with the square at row `r`, column `c` replaced by `s`.
pub open spec fn with_cell(g: Grid, r: int, c: int, s: Square) -> Grid {
    g.update(r * 8 + c, s)
}

/// A grid with no piece on it.
pub open spec fn empty_grid() -> Grid {
    Seq::new(cell_count(), |n: int| Square::Empty)
}

/// The colour that plays against `player`. `Empty` plays against nobody but
/// itself.
pub open spec fn rival(player: Square) -> Square {
    match player {
        Square::White => Square::Black,
        Square::Black => Square::White,
        Square::Empty => Square::Empty,
    }
}

/// The test "this square holds `who`".
pub open spec fn holding(who: Square) -> spec_fn(Square) -> bool {
    |s: Square| s == who
}

/// The test "this square holds a piece".
pub open spec fn taken() -> spec_fn(Square) -> bool {
    |s: Square| s != Square::Empty
}

/// How many cells of `g` hold `who`.
pub open spec fn count(g: Grid, who: Square) -> nat {
    g.filter(holding(who)).len()
}

/// How many cells of `g` hold a piece.
pub open spec fn occupied(g: Grid) -> nat {
    g.filter(taken()).len()
}

/// The view of a board reads cell by cell as the board does.
pub proof fn lemma_grid_cell(b: Board, r: int, c: int)
    requires
        on_board(r, c),
    ensures
        well_formed(grid(b)),
        at(grid(b), r, c) == b[r][c],
{
}

/// Two boards with the same view are the same board.
pub proof fn lemma_grid_injective(a: Board, b: Board)
    requires
        grid(a) == grid(b),
    ensures
        a == b,
{
    assert forall|r: int| 0 <= r < 8 implies a[r] == b[r] by {
        assert forall|c: int| 0 <= c < 8 implies a[r][c] == b[r][c] by {
            lemma_grid_cell(a, r, c);
            lemma_grid_cell(b, r, c);
        }
        assert(a[r] =~= b[r]);
    }
    assert(a =~= b);
}

/// The colour that plays against `player`.
pub fn opponent(player: Square) -> (r: Square)
    ensures
        r == rival(player),
{
    match player {
        Square::White => Square::Black,
        Square::Black => Square::White,
        Square::Empty => Square::Empty,
    }
}

/// A board with every cell `Empty`.
pub fn empty_board() -> (board: Board)
    ensures
        grid(board) == empty_grid(),
{
    let board: Board = [[Square::Empty; BOARD_SIZE]; BOARD_SIZE];
    assert(grid(board) =~= empty_grid());
    board
}

/// Counts the cells of `board` that hold `player`.
pub fn count_pieces(board: &Board, player: Square) -> (n: usize)
    ensures
        n == count(grid(*board), player),
        n <= 64,
{
    let ghost g = grid(*board);
    let ghost held = holding(player);
    let mut player_count: usize = 0;
    for i in 0..BOARD_SIZE
        invariant
            g == grid(*board),
            held == holding(player),
            player_count == g.take(i * 8).filter(held).len(),
            player_count <= i * 8,
    {
        for j in 0..BOARD_SIZE
            invariant
                i < 8,
                g == grid(*board),
                held == holding(player),
                player_count == g.take(i * 8 + j).filter(held).len(),
                player_count <= i * 8 + j,
        {
            proof {
                let n = i * 8 + j;
                assert(g.take(n + 1) =~= g.take(n).push(g[n]));
                g.take(n).lemma_filter_len_push(held, g[n]);
                lemma_grid_cell(*board, i as int, j as int);
            }
            if board[i][j] == player {
                player_count += 1;
            }
        }
    }
    assert(g.take(64) =~= g);
    player_count
}

} // verus!
