//! Which moves a player may make: the empty cells from which a stone would
//! flank rival pieces in at least one direction.

use vstd::prelude::*;
use crate::board::{at, grid, lemma_grid_cell, on_board, Board, Grid, Square, BOARD_SIZE};
use crate::rays::{col_step, direction, flank_len, flank_length, row_step};

verus! {

/// A move names a cell by its column and its row, in that order.
pub type Move = (usize, usize);

/// Whether a stone of `player` on the cell at row `r`, column `c` would
/// capture in direction number `d`: the cell is empty and the stone would
/// flank at least one rival piece that way.
pub open spec fn captures(g: Grid, player: Square, r: int, c: int, d: int) -> bool {
    at(g, r, c) == Square::Empty && flank_len(g, player, r, c, row_step(d), col_step(d)) > 0
}

/// Whether `player` may place a stone on the cell at row `r`, column `c`.
pub open spec fn is_legal(g: Grid, player: Square, r: int, c: int) -> bool {
    on_board(r, c) && exists|d: int| 0 <= d < 9 && captures(g, player, r, c, d)
}

/// What the cell at row `r`, column `c` adds to the list of moves on account
/// of the directions numbered below `d`: itself, once for each of them in
/// which it captures.
pub open spec fn cell_entries(g: Grid, player: Square, r: int, c: int, d: nat) -> Seq<Move>
    decreases d,
{
    if d == 0 {
        Seq::empty()
    } else {
        let before = cell_entries(g, player, r, c, (d - 1) as nat);
        if captures(g, player, r, c, d - 1) {
            before.push((c as usize, r as usize))
        } else {
            before
        }
    }
}

/// The moves that the first `n` cells of the board add to the list, the
/// cells taken row after row.
pub open spec fn entries_before(g: Grid, player: Square, n: nat) -> Seq<Move>
    decreases n,
{
    if n == 0 {
        Seq::empty()
    } else {
        entries_before(g, player, (n - 1) as nat) + cell_entries(
            g,
            player,
            (n - 1) / 8,
            (n - 1) % 8,
            9,
        )
    }
}

/// The list of moves of `player`: the cells of the board in row-major order,
/// each `(column, row)` listed once for every direction in which a stone
/// placed there captures, so a cell that captures in several directions
/// stands several times in a row.
pub open spec fn legal_moves(g: Grid, player: Square) -> Seq<Move> {
    entries_before(g, player, 64)
}

/// What a cell adds to the list is that cell, at most once per direction, and
/// only if it is legal.
pub proof fn lemma_cell_entries(g: Grid, player: Square, r: int, c: int, d: nat)
    requires
        on_board(r, c),
        d <= 9,
    ensures
        cell_entries(g, player, r, c, d).len() <= d,
        forall|k: int|
            0 <= k < cell_entries(g, player, r, c, d).len() ==> #[trigger] cell_entries(
                g,
                player,
                r,
                c,
                d,
            )[k] == (c as usize, r as usize),
        cell_entries(g, player, r, c, d).len() > 0 <==> exists|e: int|
            0 <= e < d && captures(g, player, r, c, e),
        cell_entries(g, player, r, c, d).len() > 0 ==> is_legal(g, player, r, c),
    decreases d,
{
    if d > 0 {
        lemma_cell_entries(g, player, r, c, (d - 1) as nat);
        let before = cell_entries(g, player, r, c, (d - 1) as nat);
        if captures(g, player, r, c, d - 1) {
            assert(0 <= d - 1 < d && captures(g, player, r, c, d - 1));
        } else if before.len() > 0 {
            let e = choose|e: int| 0 <= e < d - 1 && captures(g, player, r, c, e);
            assert(0 <= e < d && captures(g, player, r, c, e));
        }
    }
}

/// A cell that holds a piece adds nothing to the list.
pub proof fn lemma_cell_entries_taken(g: Grid, player: Square, r: int, c: int, d: nat)
    requires
        at(g, r, c) != Square::Empty,
    ensures
        cell_entries(g, player, r, c, d) == Seq::<Move>::empty(),
    decreases d,
{
    if d > 0 {
        lemma_cell_entries_taken(g, player, r, c, (d - 1) as nat);
    }
}

/// Every move of the list names a cell of the board on which the player may
/// place a stone, and the list holds at most nine entries per cell.
pub proof fn lemma_entries_before(g: Grid, player: Square, n: nat)
    requires
        n <= 64,
    ensures
        entries_before(g, player, n).len() <= 9 * n,
        forall|k: int|
            0 <= k < entries_before(g, player, n).len() ==> {
                let m = #[trigger] entries_before(g, player, n)[k];
                m.0 < 8 && m.1 < 8 && m.1 * 8 + m.0 < n && is_legal(
                    g,
                    player,
                    m.1 as int,
                    m.0 as int,
                )
            },
    decreases n,
{
    if n > 0 {
        let r = (n - 1) / 8;
        let c = (n - 1) % 8;
        lemma_entries_before(g, player, (n - 1) as nat);
        lemma_cell_entries(g, player, r, c, 9);
        let before = entries_before(g, player, (n - 1) as nat);
        let here = cell_entries(g, player, r, c, 9);
        assert forall|k: int| 0 <= k < (before + here).len() implies {
            let m = #[trigger] (before + here)[k];
            m.0 < 8 && m.1 < 8 && m.1 * 8 + m.0 < n && is_legal(g, player, m.1 as int, m.0 as int)
        } by {
            if k < before.len() {
                assert((before + here)[k] == before[k]);
            } else {
                assert((before + here)[k] == here[k - before.len()]);
            }
        }
    }
}

/// A legal cell stands in the list as soon as the scan has passed it.
pub proof fn lemma_entries_before_complete(g: Grid, player: Square, n: nat, r: int, c: int)
    requires
        n <= 64,
        is_legal(g, player, r, c),
        r * 8 + c < n,
    ensures
        entries_before(g, player, n).contains((c as usize, r as usize)),
    decreases n,
{
    let before = entries_before(g, player, (n - 1) as nat);
    let here = cell_entries(g, player, (n - 1) / 8, (n - 1) % 8, 9);
    if r * 8 + c == n - 1 {
        lemma_cell_entries(g, player, r, c, 9);
        assert((before + here)[before.len() as int] == here[0]);
    } else {
        lemma_entries_before_complete(g, player, (n - 1) as nat, r, c);
        let k = choose|k: int| 0 <= k < before.len() && before[k] == (c as usize, r as usize);
        assert((before + here)[k] == before[k]);
    }
}

/// The list of moves holds exactly the cells on which the player may place a
/// stone: each entry is such a cell, and each such cell is an entry.
pub proof fn lemma_legal_moves_are_the_legal_cells(g: Grid, player: Square)
    ensures
        legal_moves(g, player).len() <= 576,
        forall|k: int|
            0 <= k < legal_moves(g, player).len() ==> {
                let m = #[trigger] legal_moves(g, player)[k];
                is_legal(g, player, m.1 as int, m.0 as int)
            },
        forall|r: int, c: int|
            is_legal(g, player, r, c) ==> #[trigger] legal_moves(g, player).contains(
                (c as usize, r as usize),
            ),
{
    lemma_entries_before(g, player, 64);
    assert forall|r: int, c: int| is_legal(g, player, r, c) implies #[trigger] legal_moves(
        g,
        player,
    ).contains((c as usize, r as usize)) by {
        lemma_entries_before_complete(g, player, 64, r, c);
    }
}

/// Every move of the list names a cell that is on the board and empty.
pub proof fn lemma_legal_moves_name_empty_cells(g: Grid, player: Square, k: int)
    requires
        0 <= k < legal_moves(g, player).len(),
    ensures
        legal_moves(g, player)[k].0 < 8,
        legal_moves(g, player)[k].1 < 8,
        at(g, legal_moves(g, player)[k].1 as int, legal_moves(g, player)[k].0 as int)
            == Square::Empty,
{
    lemma_entries_before(g, player, 64);
}

/// Lists the moves of `player` on `board`, scanning the cells row by row and,
/// at each empty cell, the eight directions.
pub fn find_valid_moves(board: &Board, player: Square) -> (moves: Vec<Move>)
    ensures
        moves@ == legal_moves(grid(*board), player),
        forall|k: int|
            0 <= k < moves.len() ==> (#[trigger] moves[k]).0 < 8 && moves[k].1 < 8 && at(
                grid(*board),
                moves[k].1 as int,
                moves[k].0 as int,
            ) == Square::Empty,
{
    let ghost g = grid(*board);
    let mut moves: Vec<Move> = Vec::new();
    for i in 0..BOARD_SIZE
        invariant
            g == grid(*board),
            moves@ == entries_before(g, player, (i * 8) as nat),
    {
        for j in 0..BOARD_SIZE
            invariant
                i < 8,
                g == grid(*board),
                moves@ == entries_before(g, player, (i * 8 + j) as nat),
        {
            let ghost before = moves@;
            proof {
                lemma_grid_cell(*board, i as int, j as int);
            }
            if board[i][j] == Square::Empty {
                for d in 0..9usize
                    invariant
                        i < 8,
                        j < 8,
                        g == grid(*board),
                        at(g, i as int, j as int) == Square::Empty,
                        moves@ == before + cell_entries(g, player, i as int, j as int, d as nat),
                {
                    let (dr, dc) = direction(d);
                    if flank_length(board, player, i, j, dr, dc) > 0 {
                        moves.push((j, i));
                    }
                    assert(moves@ == before + cell_entries(
                        g,
                        player,
                        i as int,
                        j as int,
                        (d + 1) as nat,
                    ));
                }
            } else {
                proof {
                    lemma_cell_entries_taken(g, player, i as int, j as int, 9);
                }
            }
            assert(moves@ == entries_before(g, player, (i * 8 + j + 1) as nat));
        }
    }
    proof {
        assert forall|k: int| 0 <= k < moves.len() implies (#[trigger] moves[k]).0 < 8 && moves[k].1
            < 8 && at(g, moves[k].1 as int, moves[k].0 as int) == Square::Empty by {
            lemma_legal_moves_name_empty_cells(g, player, k);
        }
    }
    moves
}

} // verus!
