//! Walking from a cell along one of the eight directions, and the run of
//! rival pieces that a stone placed there would flank.

use vstd::prelude::*;
use crate::board::{at, grid, lemma_grid_cell, on_board, opponent, rival, Board, Grid, Square};

verus! {

/// A direction is a row step and a column step, each -1, 0 or 1, not both 0.
pub open spec fn is_direction(dr: int, dc: int) -> bool {
    -1 <= dr <= 1 && -1 <= dc <= 1 && !(dr == 0 && dc == 0)
}

/// The row step of direction number `d`. The eight directions and the null
/// step are numbered 0 to 8 in scan order: row step -1, 0, 1, and within each
/// the column step -1, 0, 1. Number 4 is the null step, which is no direction.
pub open spec fn row_step(d: int) -> int {
    d / 3 - 1
}

/// The column step of direction number `d`.
pub open spec fn col_step(d: int) -> int {
    d % 3 - 1
}

/// `i` steps of size `d`, for a step `d` of -1, 0 or 1.
pub open spec fn steps(d: int, i: int) -> int {
    if d > 0 {
        i
    } else if d < 0 {
        -i
    } else {
        0
    }
}

/// Whether the cell `i` steps from `(r, c)` in direction `(dr, dc)` is on the
/// board.
pub open spec fn ray_on_board(r: int, c: int, dr: int, dc: int, i: int) -> bool {
    on_board(r + steps(dr, i), c + steps(dc, i))
}

/// The square `i` steps from `(r, c)` in direction `(dr, dc)`.
pub open spec fn ray_at(g: Grid, r: int, c: int, dr: int, dc: int, i: int) -> Square {
    at(g, r + steps(dr, i), c + steps(dc, i))
}

/// The length of the unbroken run of squares holding `who` that begins `i`
/// steps from `(r, c)` in direction `(dr, dc)`. No cell 8 steps away is on the
/// board.
pub open spec fn run_len(g: Grid, who: Square, r: int, c: int, dr: int, dc: int, i: int) -> nat
    decreases 8 - i,
{
    if 1 <= i < 8 && ray_on_board(r, c, dr, dc, i) && ray_at(g, r, c, dr, dc, i) == who {
        1 + run_len(g, who, r, c, dr, dc, i + 1)
    } else {
        0
    }
}

/// The number of rival pieces that a stone of `player` at `(r, c)` flanks in
/// direction `(dr, dc)`: the length of the run of rival pieces next to
/// `(r, c)`, if the cell behind that run holds a piece of `player`, and 0
/// otherwise.
pub open spec fn flank_len(g: Grid, player: Square, r: int, c: int, dr: int, dc: int) -> nat {
    let k = run_len(g, rival(player), r, c, dr, dc, 1);
    let behind = k as int + 1;
    if is_direction(dr, dc) && k >= 1 && ray_on_board(r, c, dr, dc, behind) && ray_at(
        g,
        r,
        c,
        dr,
        dc,
        behind,
    ) == player {
        k
    } else {
        0
    }
}

/// A run that starts on the ray of a direction ends on the board.
pub proof fn lemma_run_len_bound(g: Grid, who: Square, r: int, c: int, dr: int, dc: int, i: int)
    requires
        on_board(r, c),
        is_direction(dr, dc),
        1 <= i <= 8,
    ensures
        i + run_len(g, who, r, c, dr, dc, i) <= 8,
        run_len(g, who, r, c, dr, dc, i) > 0 ==> ray_on_board(
            r,
            c,
            dr,
            dc,
            i + run_len(g, who, r, c, dr, dc, i) - 1,
        ),
    decreases 8 - i,
{
    if 1 <= i < 8 && ray_on_board(r, c, dr, dc, i) && ray_at(g, r, c, dr, dc, i) == who {
        lemma_run_len_bound(g, who, r, c, dr, dc, i + 1);
    }
}

/// Every square of a run holds `who`.
pub proof fn lemma_run_len_holds(
    g: Grid,
    who: Square,
    r: int,
    c: int,
    dr: int,
    dc: int,
    i: int,
    j: int,
)
    requires
        1 <= i <= j < i + run_len(g, who, r, c, dr, dc, i),
    ensures
        ray_on_board(r, c, dr, dc, j),
        ray_at(g, r, c, dr, dc, j) == who,
    decreases 8 - i,
{
    if i < j {
        lemma_run_len_holds(g, who, r, c, dr, dc, i + 1, j);
    }
}

/// A run ends where the board ends or where a square does not hold `who`.
pub proof fn lemma_run_len_maximal(g: Grid, who: Square, r: int, c: int, dr: int, dc: int, i: int)
    requires
        1 <= i,
    ensures
        ({
            let e = i + run_len(g, who, r, c, dr, dc, i);
            e >= 8 || !ray_on_board(r, c, dr, dc, e) || ray_at(g, r, c, dr, dc, e) != who
        }),
    decreases 8 - i,
{
    if 1 <= i < 8 && ray_on_board(r, c, dr, dc, i) && ray_at(g, r, c, dr, dc, i) == who {
        lemma_run_len_maximal(g, who, r, c, dr, dc, i + 1);
    }
}

/// A stone flanks at most six pieces in one direction, and nothing when it is
/// no colour.
pub proof fn lemma_flank_len_bound(g: Grid, player: Square, r: int, c: int, dr: int, dc: int)
    requires
        on_board(r, c),
    ensures
        flank_len(g, player, r, c, dr, dc) <= 6,
        player == Square::Empty ==> flank_len(g, player, r, c, dr, dc) == 0,
{
    if is_direction(dr, dc) {
        lemma_run_len_bound(g, rival(player), r, c, dr, dc, 1);
        lemma_run_len_maximal(g, rival(player), r, c, dr, dc, 1);
    }
}

/// A run is the same on two grids that agree along the ray.
pub proof fn lemma_run_len_same_ray(
    g: Grid,
    h: Grid,
    who: Square,
    r: int,
    c: int,
    dr: int,
    dc: int,
    i: int,
)
    requires
        forall|j: int|
            1 <= j < 8 && #[trigger] ray_on_board(r, c, dr, dc, j) ==> ray_at(g, r, c, dr, dc, j)
                == ray_at(h, r, c, dr, dc, j),
    ensures
        run_len(g, who, r, c, dr, dc, i) == run_len(h, who, r, c, dr, dc, i),
    decreases 8 - i,
{
    if 1 <= i < 8 && ray_on_board(r, c, dr, dc, i) {
        lemma_run_len_same_ray(g, h, who, r, c, dr, dc, i + 1);
    }
}

/// What a stone flanks in a direction is the same on two grids that agree
/// along the ray.
pub proof fn lemma_flank_len_same_ray(
    g: Grid,
    h: Grid,
    player: Square,
    r: int,
    c: int,
    dr: int,
    dc: int,
)
    requires
        on_board(r, c),
        forall|j: int|
            1 <= j < 8 && #[trigger] ray_on_board(r, c, dr, dc, j) ==> ray_at(g, r, c, dr, dc, j)
                == ray_at(h, r, c, dr, dc, j),
    ensures
        flank_len(g, player, r, c, dr, dc) == flank_len(h, player, r, c, dr, dc),
{
    lemma_run_len_same_ray(g, h, rival(player), r, c, dr, dc, 1);
    if is_direction(dr, dc) {
        lemma_run_len_bound(g, rival(player), r, c, dr, dc, 1);
    }
}

/// The row step and the column step of direction number `d`.
pub fn direction(d: usize) -> (step: (isize, isize))
    requires
        d < 9,
    ensures
        step.0 == row_step(d as int),
        step.1 == col_step(d as int),
        is_direction(step.0 as int, step.1 as int) <==> d != 4,
{
    ((d / 3) as isize - 1, (d % 3) as isize - 1)
}

/// Walks from `(row, col)` in direction `(dr, dc)` over the rival's pieces
/// and returns how many of them a stone of `player` at `(row, col)` flanks.
pub fn flank_length(
    board: &Board,
    player: Square,
    row: usize,
    col: usize,
    dr: isize,
    dc: isize,
) -> (n: usize)
    requires
        row < 8,
        col < 8,
        -1 <= dr <= 1,
        -1 <= dc <= 1,
    ensures
        n == flank_len(grid(*board), player, row as int, col as int, dr as int, dc as int),
        n <= 6,
{
    let ghost g = grid(*board);
    let ghost r = row as int;
    let ghost c = col as int;
    proof {
        lemma_flank_len_bound(g, player, r, c, dr as int, dc as int);
    }
    if dr == 0 && dc == 0 {
        return 0;
    }
    let rival_colour = opponent(player);
    let mut k: isize = row as isize + dr;
    let mut l: isize = col as isize + dc;
    let mut n: usize = 0;
    while 0 <= k && k < 8 && 0 <= l && l < 8 && board[k as usize][l as usize] == rival_colour
        invariant
            g == grid(*board),
            r == row,
            c == col,
            on_board(r, c),
            is_direction(dr as int, dc as int),
            rival_colour == rival(player),
            n < 8,
            k == r + steps(dr as int, n + 1),
            l == c + steps(dc as int, n + 1),
            run_len(g, rival_colour, r, c, dr as int, dc as int, 1) == n + run_len(
                g,
                rival_colour,
                r,
                c,
                dr as int,
                dc as int,
                n + 1,
            ),
        decreases 8 - n,
    {
        proof {
            lemma_grid_cell(*board, k as int, l as int);
            assert(ray_on_board(r, c, dr as int, dc as int, n + 1));
            assert(ray_at(g, r, c, dr as int, dc as int, n + 1) == rival_colour);
            assert(n + 1 < 8);
        }
        k += dr;
        l += dc;
        n += 1;
    }
    proof {
        if on_board(k as int, l as int) {
            lemma_grid_cell(*board, k as int, l as int);
        }
        lemma_run_len_bound(g, rival_colour, r, c, dr as int, dc as int, n + 1);
    }
    if n > 0 && 0 <= k && k < 8 && 0 <= l && l < 8 && board[k as usize][l as usize] == player {
        n
    } else {
        0
    }
}

} // verus!
