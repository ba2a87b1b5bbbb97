//! Placing a stone and turning over what it flanks.

use vstd::prelude::*;
use crate::board::{
    at, cell_count, grid, lemma_grid_cell, occupied, on_board, rival, taken, well_formed, Board,
    Grid, Square,
};
use crate::legality::{
    captures, is_legal, legal_moves, lemma_legal_moves_are_the_legal_cells,
    lemma_legal_moves_name_empty_cells,
};
use crate::rays::{
    col_step, direction, flank_len, flank_length, is_direction, lemma_flank_len_bound,
    lemma_flank_len_same_ray, lemma_run_len_holds, ray_at, ray_on_board, row_step, run_len, steps,
};

verus! {

/// -1, 0 or 1 as `v` is negative, zero or positive.
pub open spec fn signum(v: int) -> int {
    if v > 0 {
        1
    } else if v < 0 {
        -1
    } else {
        0
    }
}

/// The distance of `v` from 0.
pub open spec fn abs(v: int) -> int {
    if v < 0 {
        -v
    } else {
        v
    }
}

/// How many king's moves lie between two cells.
pub open spec fn span(r0: int, c0: int, r: int, c: int) -> int {
    if abs(r - r0) >= abs(c - c0) {
        abs(r - r0)
    } else {
        abs(c - c0)
    }
}

/// The number of the direction with row step `dr` and column step `dc`.
pub open spec fn direction_number(dr: int, dc: int) -> int {
    (dr + 1) * 3 + (dc + 1)
}

/// Whether the cell `(r, c)` lies on one of the eight lines that leave
/// `(r0, c0)`, and is not `(r0, c0)` itself.
pub open spec fn in_line(r0: int, c0: int, r: int, c: int) -> bool {
    let i = span(r0, c0, r, c);
    i >= 1 && r == r0 + steps(signum(r - r0), i) && c == c0 + steps(signum(c - c0), i)
}

/// Whether a stone of `player` placed at `(r0, c0)` turns over the piece at
/// `(r, c)`: the cell lies on one of the eight lines that leave `(r0, c0)`,
/// no farther along it than the run of rival pieces that the stone flanks in
/// that direction.
pub open spec fn flipped(g: Grid, player: Square, r0: int, c0: int, r: int, c: int) -> bool {
    in_line(r0, c0, r, c) && span(r0, c0, r, c) <= flank_len(
        g,
        player,
        r0,
        c0,
        signum(r - r0),
        signum(c - c0),
    )
}

/// What the cell `(r, c)` holds after `player` places a stone at column `x`,
/// row `y`: the stone, if it is that cell; a piece of `player`, if the stone
/// turns it over; and what it held before, otherwise.
pub open spec fn cell_after_move(
    g: Grid,
    player: Square,
    x: int,
    y: int,
    r: int,
    c: int,
) -> Square {
    if (r == y && c == x) || flipped(g, player, y, x, r, c) {
        player
    } else {
        at(g, r, c)
    }
}

/// The grid after `player` places a stone at column `x`, row `y`.
pub open spec fn apply_move(g: Grid, player: Square, x: int, y: int) -> Grid {
    Seq::new(cell_count(), |n: int| cell_after_move(g, player, x, y, n / 8, n % 8))
}

/// What the cell `(r, c)` holds while a move is being applied: the stone is
/// placed, the directions numbered below `d` are done, and in direction `d`
/// the first `i` flanked pieces are turned.
spec fn cell_during_move(
    g: Grid,
    player: Square,
    x: int,
    y: int,
    d: int,
    i: int,
    r: int,
    c: int,
) -> Square {
    let e = direction_number(signum(r - y), signum(c - x));
    if (r == y && c == x) || (flipped(g, player, y, x, r, c) && (e < d || (e == d && span(
        y,
        x,
        r,
        c,
    ) <= i))) {
        player
    } else {
        at(g, r, c)
    }
}

/// Whether `b` is the board of a move that is being applied to `g`.
spec fn is_during_move(b: Board, g: Grid, player: Square, x: int, y: int, d: int, i: int) -> bool {
    forall|r: int, c: int|
        on_board(r, c) ==> b[r][c] == #[trigger] cell_during_move(g, player, x, y, d, i, r, c)
}

/// The cell `i` steps out in a direction lies on that line, `i` king's moves
/// away.
pub proof fn lemma_ray_in_line(r0: int, c0: int, dr: int, dc: int, i: int)
    requires
        is_direction(dr, dc),
        i >= 1,
    ensures
        in_line(r0, c0, r0 + steps(dr, i), c0 + steps(dc, i)),
        span(r0, c0, r0 + steps(dr, i), c0 + steps(dc, i)) == i,
        signum(steps(dr, i)) == dr,
        signum(steps(dc, i)) == dc,
{
}

/// A stone that flanks `n` pieces in a direction has a rival piece at each
/// of the first `n` steps that way.
pub proof fn lemma_flank_reaches(g: Grid, player: Square, r: int, c: int, dr: int, dc: int, i: int)
    requires
        on_board(r, c),
        1 <= i <= flank_len(g, player, r, c, dr, dc),
    ensures
        is_direction(dr, dc),
        ray_on_board(r, c, dr, dc, i),
        ray_at(g, r, c, dr, dc, i) == rival(player),
{
    lemma_run_len_holds(g, rival(player), r, c, dr, dc, 1, i);
}

/// Placing the stone begins the move.
proof fn lemma_move_begins(a: Board, b: Board, player: Square, x: int, y: int)
    requires
        on_board(y, x),
        b[y][x] == player,
        forall|r: int, c: int| on_board(r, c) && !(r == y && c == x) ==> b[r][c] == a[r][c],
    ensures
        is_during_move(b, grid(a), player, x, y, 0, 0),
{
    assert forall|r: int, c: int| on_board(r, c) implies b[r][c] == #[trigger] cell_during_move(
        grid(a),
        player,
        x,
        y,
        0,
        0,
        r,
        c,
    ) by {
        lemma_grid_cell(a, r, c);
    }
}

/// While direction `d` is being done, the squares along it that are not yet
/// turned are as they were, so the stone flanks in `d` what it flanked at
/// first.
proof fn lemma_move_keeps_ray(b: Board, g: Grid, player: Square, x: int, y: int, d: int)
    requires
        on_board(y, x),
        0 <= d < 9,
        is_during_move(b, g, player, x, y, d, 0),
    ensures
        flank_len(grid(b), player, y, x, row_step(d), col_step(d)) == flank_len(
            g,
            player,
            y,
            x,
            row_step(d),
            col_step(d),
        ),
{
    let dr = row_step(d);
    let dc = col_step(d);
    if d != 4 {
        assert forall|j: int| 1 <= j < 8 && #[trigger] ray_on_board(y, x, dr, dc, j) implies ray_at(
            grid(b),
            y,
            x,
            dr,
            dc,
            j,
        ) == ray_at(g, y, x, dr, dc, j) by {
            let r = y + steps(dr, j);
            let c = x + steps(dc, j);
            lemma_ray_in_line(y, x, dr, dc, j);
            lemma_grid_cell(b, r, c);
            assert(b[r][c] == cell_during_move(g, player, x, y, d, 0, r, c));
        }
        lemma_flank_len_same_ray(grid(b), g, player, y, x, dr, dc);
    }
}

/// Turning the next flanked piece of direction `d` takes the move one step
/// on.
proof fn lemma_move_steps(
    a: Board,
    b: Board,
    g: Grid,
    player: Square,
    x: int,
    y: int,
    d: int,
    i: int,
)
    requires
        on_board(y, x),
        0 <= d < 9,
        0 <= i < flank_len(g, player, y, x, row_step(d), col_step(d)),
        is_during_move(a, g, player, x, y, d, i),
        ray_on_board(y, x, row_step(d), col_step(d), i + 1),
        b[y + steps(row_step(d), i + 1)][x + steps(col_step(d), i + 1)] == player,
        forall|r: int, c: int|
            on_board(r, c) && !(r == y + steps(row_step(d), i + 1) && c == x + steps(
                col_step(d),
                i + 1,
            )) ==> b[r][c] == a[r][c],
    ensures
        is_during_move(b, g, player, x, y, d, i + 1),
{
    let dr = row_step(d);
    let dc = col_step(d);
    lemma_flank_reaches(g, player, y, x, dr, dc, i + 1);
    lemma_ray_in_line(y, x, dr, dc, i + 1);
    assert forall|r: int, c: int| on_board(r, c) implies b[r][c] == #[trigger] cell_during_move(
        g,
        player,
        x,
        y,
        d,
        i + 1,
        r,
        c,
    ) by {
        assert(a[r][c] == cell_during_move(g, player, x, y, d, i, r, c));
    }
}

/// When all that the stone flanks in direction `d` is turned, the next
/// direction begins.
proof fn lemma_move_turns(b: Board, g: Grid, player: Square, x: int, y: int, d: int)
    requires
        on_board(y, x),
        0 <= d < 9,
        is_during_move(
            b,
            g,
            player,
            x,
            y,
            d,
            flank_len(g, player, y, x, row_step(d), col_step(d)) as int,
        ),
    ensures
        is_during_move(b, g, player, x, y, d + 1, 0),
{
    let n = flank_len(g, player, y, x, row_step(d), col_step(d)) as int;
    assert forall|r: int, c: int| on_board(r, c) implies b[r][c] == #[trigger] cell_during_move(
        g,
        player,
        x,
        y,
        d + 1,
        0,
        r,
        c,
    ) by {
        assert(b[r][c] == cell_during_move(g, player, x, y, d, n, r, c));
    }
}

/// When the eight directions are done, the move is applied.
proof fn lemma_move_ends(b: Board, g: Grid, player: Square, x: int, y: int)
    requires
        on_board(y, x),
        g.len() == cell_count(),
        is_during_move(b, g, player, x, y, 9, 0),
    ensures
        grid(b) == apply_move(g, player, x, y),
{
    assert forall|n: int| 0 <= n < 64 implies grid(b)[n] == apply_move(g, player, x, y)[n] by {
        let r = n / 8;
        let c = n % 8;
        assert(b[r][c] == cell_during_move(g, player, x, y, 9, 0, r, c));
    }
    assert(grid(b) =~= apply_move(g, player, x, y));
}

/// Places a stone of `player` at column `x`, row `y`, and turns over, in each
/// of the eight directions, the run of rival pieces that the stone flanks.
/// The cell need not be empty, nor the move legal: the stone is placed all
/// the same, over what was there.
pub fn update_board(board: &mut Board, x: usize, y: usize, player: Square)
    requires
        x < 8,
        y < 8,
        player != Square::Empty,
    ensures
        grid(*final(board)) == apply_move(grid(*old(board)), player, x as int, y as int),
{
    let ghost g = grid(*board);
    let ghost start = *board;
    board[y][x] = player;
    proof {
        lemma_move_begins(start, *board, player, x as int, y as int);
    }
    for d in 0..9usize
        invariant
            x < 8,
            y < 8,
            g.len() == cell_count(),
            is_during_move(*board, g, player, x as int, y as int, d as int, 0),
    {
        let (dr, dc) = direction(d);
        proof {
            lemma_move_keeps_ray(*board, g, player, x as int, y as int, d as int);
        }
        let n = flank_length(board, player, y, x, dr, dc);
        let mut k: isize = y as isize;
        let mut l: isize = x as isize;
        for i in 0..n
            invariant
                x < 8,
                y < 8,
                d < 9,
                dr == row_step(d as int),
                dc == col_step(d as int),
                n == flank_len(g, player, y as int, x as int, dr as int, dc as int),
                n <= 6,
                k == y + steps(dr as int, i as int),
                l == x + steps(dc as int, i as int),
                is_during_move(*board, g, player, x as int, y as int, d as int, i as int),
        {
            proof {
                lemma_flank_reaches(g, player, y as int, x as int, dr as int, dc as int, i + 1);
            }
            k += dr;
            l += dc;
            let ghost before = *board;
            board[k as usize][l as usize] = player;
            proof {
                lemma_move_steps(before, *board, g, player, x as int, y as int, d as int, i as int);
            }
        }
        proof {
            lemma_move_turns(*board, g, player, x as int, y as int, d as int);
        }
    }
    proof {
        lemma_move_ends(*board, g, player, x as int, y as int);
    }
}

/// Whether the first `k` cells from `(r0, c0)` in direction `(dr, dc)` are on
/// the board and hold `who`.
pub open spec fn all_hold(
    g: Grid,
    who: Square,
    r0: int,
    c0: int,
    dr: int,
    dc: int,
    k: int,
) -> bool {
    forall|j: int|
        1 <= j <= k ==> ray_on_board(r0, c0, dr, dc, j) && #[trigger] ray_at(g, r0, c0, dr, dc, j)
            == who
}

/// Whether a stone of `player` at `(r0, c0)` brackets exactly `k` rival pieces
/// in direction `(dr, dc)`: the `k` cells next to it that way hold rival
/// pieces, and the cell behind them holds a piece of `player`.
pub open spec fn brackets(
    g: Grid,
    player: Square,
    r0: int,
    c0: int,
    dr: int,
    dc: int,
    k: int,
) -> bool {
    &&& is_direction(dr, dc)
    &&& k >= 1
    &&& all_hold(g, rival(player), r0, c0, dr, dc, k)
    &&& ray_on_board(r0, c0, dr, dc, k + 1)
    &&& ray_at(g, r0, c0, dr, dc, k + 1) == player
}

/// A run of rival pieces that reaches at least to step `k` is at least that
/// long.
proof fn lemma_run_reaches(g: Grid, who: Square, r: int, c: int, dr: int, dc: int, i: int, k: int)
    requires
        on_board(r, c),
        is_direction(dr, dc),
        1 <= i <= k + 1,
        all_hold(g, who, r, c, dr, dc, k),
    ensures
        run_len(g, who, r, c, dr, dc, i) >= k + 1 - i,
    decreases k + 1 - i,
{
    if i <= k {
        assert(ray_at(g, r, c, dr, dc, i) == who);
        lemma_run_reaches(g, who, r, c, dr, dc, i + 1, k);
    }
}

/// What a stone flanks in a direction is what it brackets there: the two
/// say the same of every colour that plays.
pub proof fn lemma_flank_len_is_bracket(
    g: Grid,
    player: Square,
    r: int,
    c: int,
    dr: int,
    dc: int,
    k: int,
)
    requires
        on_board(r, c),
        player != Square::Empty,
        k >= 1,
    ensures
        brackets(g, player, r, c, dr, dc, k) <==> flank_len(g, player, r, c, dr, dc) == k,
{
    let who = rival(player);
    if brackets(g, player, r, c, dr, dc, k) {
        lemma_run_reaches(g, who, r, c, dr, dc, 1, k);
        let n = run_len(g, who, r, c, dr, dc, 1) as int;
        if n > k {
            lemma_run_len_holds(g, who, r, c, dr, dc, 1, k + 1);
        }
    }
    if flank_len(g, player, r, c, dr, dc) == k {
        assert forall|j: int| 1 <= j <= k implies ray_on_board(r, c, dr, dc, j) && #[trigger] ray_at(
            g,
            r,
            c,
            dr,
            dc,
            j,
        ) == who by {
            lemma_run_len_holds(g, who, r, c, dr, dc, 1, j);
        }
    }
}

/// After a move, every cell reads as the rule of capture says.
pub proof fn lemma_apply_move_cell(g: Grid, player: Square, x: int, y: int, r: int, c: int)
    requires
        on_board(r, c),
    ensures
        apply_move(g, player, x, y).len() == cell_count(),
        at(apply_move(g, player, x, y), r, c) == cell_after_move(g, player, x, y, r, c),
{
}

/// A move leaves a piece of the mover on the cell it names, so that cell
/// is no longer empty, and is a legal move for nobody on the new board.
pub proof fn lemma_move_takes_its_cell(g: Grid, player: Square, k: int)
    requires
        0 <= k < legal_moves(g, player).len(),
    ensures
        ({
            let m = legal_moves(g, player)[k];
            let after = apply_move(g, player, m.0 as int, m.1 as int);
            &&& player != Square::Empty
            &&& at(g, m.1 as int, m.0 as int) == Square::Empty
            &&& at(after, m.1 as int, m.0 as int) == player
            &&& forall|who: Square| !#[trigger] legal_moves(after, who).contains(m)
        }),
{
    let m = legal_moves(g, player)[k];
    let r = m.1 as int;
    let c = m.0 as int;
    let after = apply_move(g, player, c, r);
    lemma_legal_moves_are_the_legal_cells(g, player);
    assert(is_legal(g, player, r, c));
    let d = choose|d: int| 0 <= d < 9 && captures(g, player, r, c, d);
    lemma_flank_len_bound(g, player, r, c, row_step(d), col_step(d));
    lemma_apply_move_cell(g, player, c, r, r, c);
    assert forall|who: Square| !#[trigger] legal_moves(after, who).contains(m) by {
        if legal_moves(after, who).contains(m) {
            let j = choose|j: int|
                0 <= j < legal_moves(after, who).len() && legal_moves(after, who)[j] == m;
            lemma_legal_moves_name_empty_cells(after, who, j);
        }
    }
}

/// Every rival piece that the placed stone brackets is turned: a cell that
/// lies between the stone and a piece of the mover, with nothing but rival
/// pieces from the one to the other, holds the mover's colour after the
/// move.
pub proof fn lemma_bracketed_cells_are_turned(
    g: Grid,
    player: Square,
    x: int,
    y: int,
    dr: int,
    dc: int,
    k: int,
    i: int,
)
    requires
        on_board(y, x),
        brackets(g, player, y, x, dr, dc, k),
        1 <= i <= k,
    ensures
        at(apply_move(g, player, x, y), y + steps(dr, i), x + steps(dc, i)) == player,
{
    let r = y + steps(dr, i);
    let c = x + steps(dc, i);
    assert(ray_at(g, y, x, dr, dc, i) == rival(player));
    lemma_apply_move_cell(g, player, x, y, r, c);
    if player != Square::Empty {
        lemma_flank_len_is_bracket(g, player, y, x, dr, dc, k);
        lemma_ray_in_line(y, x, dr, dc, i);
    }
}

/// Nothing else changes: a cell that differs after the move is the cell of
/// the stone, or lies in one of the eight directions from it among the rival
/// pieces that the stone brackets there.
pub proof fn lemma_only_bracketed_cells_change(
    g: Grid,
    player: Square,
    x: int,
    y: int,
    r: int,
    c: int,
)
    requires
        on_board(y, x),
        on_board(r, c),
        player != Square::Empty,
        at(apply_move(g, player, x, y), r, c) != at(g, r, c),
    ensures
        (r == y && c == x) || exists|dr: int, dc: int, k: int, i: int|
            #![trigger brackets(g, player, y, x, dr, dc, k), steps(dr, i), steps(dc, i)]
            brackets(g, player, y, x, dr, dc, k) && 1 <= i <= k && r == y + steps(dr, i) && c == x
                + steps(dc, i),
{
    lemma_apply_move_cell(g, player, x, y, r, c);
    if !(r == y && c == x) {
        let dr = signum(r - y);
        let dc = signum(c - x);
        let i = span(y, x, r, c);
        let k = flank_len(g, player, y, x, dr, dc) as int;
        assert(flipped(g, player, y, x, r, c));
        lemma_flank_len_is_bracket(g, player, y, x, dr, dc, k);
        assert(brackets(g, player, y, x, dr, dc, k) && 1 <= i <= k && r == y + steps(dr, i) && c
            == x + steps(dc, i));
    }
}

/// Two sequences that a test tells apart at one place only, where the second
/// passes and the first does not: the second has one more element that
/// passes.
proof fn lemma_one_more(
    a: Seq<Square>,
    b: Seq<Square>,
    pass: spec_fn(Square) -> bool,
    t: int,
    n: int,
)
    requires
        a.len() == b.len(),
        0 <= n <= a.len(),
        0 <= t < a.len(),
        !pass(a[t]),
        pass(b[t]),
        forall|j: int| 0 <= j < a.len() && j != t ==> pass(a[j]) == pass(b[j]),
    ensures
        b.take(n).filter(pass).len() == a.take(n).filter(pass).len() + if t < n {
            1int
        } else {
            0int
        },
    decreases n,
{
    if n > 0 {
        lemma_one_more(a, b, pass, t, n - 1);
        assert(a.take(n) =~= a.take(n - 1).push(a[n - 1]));
        assert(b.take(n) =~= b.take(n - 1).push(b[n - 1]));
        a.take(n - 1).lemma_filter_len_push(pass, a[n - 1]);
        b.take(n - 1).lemma_filter_len_push(pass, b[n - 1]);
    } else {
        assert(a.take(0).filter(pass).len() == 0) by {
            a.take(0).lemma_filter_len(pass);
        }
        assert(b.take(0).filter(pass).len() == 0) by {
            b.take(0).lemma_filter_len(pass);
        }
    }
}

/// Two sequences that a test does not tell apart anywhere have as many
/// elements that pass.
proof fn lemma_as_many(a: Seq<Square>, b: Seq<Square>, pass: spec_fn(Square) -> bool, n: int)
    requires
        a.len() == b.len(),
        0 <= n <= a.len(),
        forall|j: int| 0 <= j < a.len() ==> pass(a[j]) == pass(b[j]),
    ensures
        b.take(n).filter(pass).len() == a.take(n).filter(pass).len(),
    decreases n,
{
    if n > 0 {
        lemma_as_many(a, b, pass, n - 1);
        assert(a.take(n) =~= a.take(n - 1).push(a[n - 1]));
        assert(b.take(n) =~= b.take(n - 1).push(b[n - 1]));
        a.take(n - 1).lemma_filter_len_push(pass, a[n - 1]);
        b.take(n - 1).lemma_filter_len_push(pass, b[n - 1]);
    } else {
        assert(a.take(0).filter(pass).len() == 0) by {
            a.take(0).lemma_filter_len(pass);
        }
        assert(b.take(0).filter(pass).len() == 0) by {
            b.take(0).lemma_filter_len(pass);
        }
    }
}

/// A move adds one piece to the board when its cell was empty, and none
/// when it was not: the pieces that it turns over stay on the board.
pub proof fn lemma_move_adds_one_piece(g: Grid, player: Square, x: int, y: int)
    requires
        well_formed(g),
        on_board(y, x),
        player != Square::Empty,
    ensures
        occupied(apply_move(g, player, x, y)) == occupied(g) + if at(g, y, x) == Square::Empty {
            1int
        } else {
            0int
        },
{
    let after = apply_move(g, player, x, y);
    let t = y * 8 + x;
    assert forall|j: int| 0 <= j < 64 && j != t implies taken()(g[j]) == taken()(after[j]) by {
        let r = j / 8;
        let c = j % 8;
        if flipped(g, player, y, x, r, c) {
            lemma_flank_reaches(
                g,
                player,
                y,
                x,
                signum(r - y),
                signum(c - x),
                span(y, x, r, c),
            );
        }
    }
    assert(after[t] == player);
    assert(g.take(64) =~= g);
    assert(after.take(64) =~= after);
    if at(g, y, x) == Square::Empty {
        lemma_one_more(g, after, taken(), t, 64);
    } else {
        lemma_as_many(g, after, taken(), 64);
    }
}

/// A move takes no piece off the board: a cell that held a piece holds one
/// after the move, though it may have changed colour.
pub proof fn lemma_move_keeps_pieces(g: Grid, player: Square, x: int, y: int, r: int, c: int)
    requires
        on_board(r, c),
        player != Square::Empty,
        at(g, r, c) != Square::Empty,
    ensures
        at(apply_move(g, player, x, y), r, c) != Square::Empty,
{
    lemma_apply_move_cell(g, player, x, y, r, c);
}

} // verus!
