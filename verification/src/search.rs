//! The computer's choice of a move: every candidate is scored by playing
//! the mover's own moves on from it, the rival standing still, and the
//! first candidate with the highest score is taken.

use vstd::prelude::*;
use crate::board::{count, count_pieces, grid, well_formed, Board, Grid, Square};
use crate::capture::{apply_move, update_board};
use crate::legality::{
    find_valid_moves, legal_moves, lemma_legal_moves_are_the_legal_cells,
    lemma_legal_moves_name_empty_cells, Move,
};

verus! {

/// How many plies the search looks at, the candidate move being the first.
pub const SEARCH_DEPTH: usize = 8;

/// The score of a position for `player`, looking `plies` plies deep: the
/// number of the player's pieces in it, plus the scores, one ply less deep,
/// of the positions that the player's moves lead to. Every entry of the list
/// of moves counts, so a cell that is listed twice is followed twice. The
/// rival makes no move in between.
pub open spec fn position_score(g: Grid, player: Square, plies: nat) -> nat
    decreases plies, 0nat, 0nat,
{
    if plies == 0 {
        0
    } else {
        count(g, player) + replies_score(g, player, legal_moves(g, player), (plies - 1) as nat)
    }
}

/// The sum, over `moves`, of the scores of the positions that they lead to
/// from `g`.
pub open spec fn replies_score(g: Grid, player: Square, moves: Seq<Move>, plies: nat) -> nat
    decreases plies, 1nat, moves.len(),
{
    if moves.len() == 0 {
        0
    } else {
        replies_score(g, player, moves.drop_last(), plies) + position_score(
            apply_move(g, player, moves.last().0 as int, moves.last().1 as int),
            player,
            plies,
        )
    }
}

/// The score of the candidate move `m`: that of the position it leads to.
pub open spec fn candidate_score(g: Grid, player: Square, m: Move, plies: nat) -> nat {
    position_score(apply_move(g, player, m.0 as int, m.1 as int), player, plies)
}

/// Whether `moves[i]` is the choice among `moves`: no candidate scores
/// higher, and every candidate before it scores lower.
pub open spec fn is_first_best(
    g: Grid,
    player: Square,
    moves: Seq<Move>,
    plies: nat,
    i: int,
) -> bool {
    &&& 0 <= i < moves.len()
    &&& forall|j: int|
        0 <= j < moves.len() ==> candidate_score(g, player, #[trigger] moves[j], plies)
            <= candidate_score(g, player, moves[i], plies)
    &&& forall|j: int|
        0 <= j < i ==> candidate_score(g, player, #[trigger] moves[j], plies) < candidate_score(
            g,
            player,
            moves[i],
            plies,
        )
}

/// The place of the choice in `moves`.
pub open spec fn best_index(g: Grid, player: Square, moves: Seq<Move>, plies: nat) -> int {
    choose|i: int| is_first_best(g, player, moves, plies, i)
}

/// The move that the search returns: a function of the position, the player
/// and the candidates, and of nothing else.
pub open spec fn best_move(g: Grid, player: Square, moves: Seq<Move>, plies: nat) -> Move {
    moves[best_index(g, player, moves, plies)]
}

/// No score of a search `plies` plies deep is above this.
pub open spec fn score_cap(plies: nat) -> nat
    decreases plies,
{
    if plies == 0 {
        0
    } else {
        64 + 576 * score_cap((plies - 1) as nat)
    }
}

/// There is one choice at most.
pub proof fn lemma_first_best_is_unique(
    g: Grid,
    player: Square,
    moves: Seq<Move>,
    plies: nat,
    i: int,
    j: int,
)
    requires
        is_first_best(g, player, moves, plies, i),
        is_first_best(g, player, moves, plies, j),
    ensures
        i == j,
{
    if i < j {
        assert(candidate_score(g, player, moves[i], plies) < candidate_score(
            g,
            player,
            moves[j],
            plies,
        ));
        assert(candidate_score(g, player, moves[j], plies) <= candidate_score(
            g,
            player,
            moves[i],
            plies,
        ));
    } else if j < i {
        assert(candidate_score(g, player, moves[j], plies) < candidate_score(
            g,
            player,
            moves[i],
            plies,
        ));
        assert(candidate_score(g, player, moves[i], plies) <= candidate_score(
            g,
            player,
            moves[j],
            plies,
        ));
    }
}

/// Looking deeper raises the cap.
proof fn lemma_score_cap_grows(a: nat, b: nat)
    requires
        a <= b,
    ensures
        score_cap(a) <= score_cap(b),
    decreases b,
{
    if a < b {
        lemma_score_cap_grows(a, (b - 1) as nat);
    }
}

/// At full depth the cap fits the type of the scores.
proof fn lemma_score_cap_fits()
    ensures
        score_cap(SEARCH_DEPTH as nat) <= u128::MAX,
{
    assert(score_cap(1) == 64) by {
        reveal_with_fuel(score_cap, 2);
    }
    assert(score_cap(2) == 36928);
    assert(score_cap(3) == 21270592);
    assert(score_cap(4) == 12251861056);
    assert(score_cap(5) == 7057071968320);
    assert(score_cap(6) == 4064873453752384);
    assert(score_cap(7) == 2341367109361373248);
}

/// Looking no ply deep, no reply scores.
proof fn lemma_replies_score_zero(g: Grid, player: Square, moves: Seq<Move>)
    ensures
        replies_score(g, player, moves, 0) == 0,
    decreases moves.len(),
{
    if moves.len() > 0 {
        let m = moves.last();
        lemma_replies_score_zero(g, player, moves.drop_last());
        assert(position_score(apply_move(g, player, m.0 as int, m.1 as int), player, 0) == 0);
    }
}

/// A score stays under its cap.
proof fn lemma_position_score_cap(g: Grid, player: Square, plies: nat)
    requires
        well_formed(g),
    ensures
        position_score(g, player, plies) <= score_cap(plies),
    decreases plies, 0nat, 0nat,
{
    if plies > 0 {
        let moves = legal_moves(g, player);
        g.lemma_filter_len(crate::board::holding(player));
        lemma_legal_moves_are_the_legal_cells(g, player);
        lemma_replies_score_cap(g, player, moves, (plies - 1) as nat);
        let cap = score_cap((plies - 1) as nat);
        assert(moves.len() * cap <= 576 * cap) by (nonlinear_arith)
            requires
                moves.len() <= 576,
                cap >= 0,
        ;
    }
}

/// The replies to `moves` score no more than as many caps.
proof fn lemma_replies_score_cap(g: Grid, player: Square, moves: Seq<Move>, plies: nat)
    requires
        well_formed(g),
    ensures
        replies_score(g, player, moves, plies) <= moves.len() * score_cap(plies),
    decreases plies, 1nat, moves.len(),
{
    if moves.len() > 0 {
        let m = moves.last();
        lemma_replies_score_cap(g, player, moves.drop_last(), plies);
        lemma_position_score_cap(apply_move(g, player, m.0 as int, m.1 as int), player, plies);
        let cap = score_cap(plies);
        let n = moves.len();
        assert((n - 1) * cap + cap == n * cap) by (nonlinear_arith);
    } else {
        assert(0 * score_cap(plies) == 0);
    }
}

/// The replies to a part of the list score no more than the position does.
proof fn lemma_replies_prefix(g: Grid, player: Square, plies: nat, i: int)
    requires
        well_formed(g),
        plies >= 1,
        0 <= i <= legal_moves(g, player).len(),
    ensures
        count(g, player) + replies_score(
            g,
            player,
            legal_moves(g, player).take(i),
            (plies - 1) as nat,
        ) <= position_score(g, player, plies),
    decreases legal_moves(g, player).len() - i,
{
    let moves = legal_moves(g, player);
    if i < moves.len() {
        lemma_replies_prefix(g, player, plies, i + 1);
        assert(moves.take(i + 1).drop_last() =~= moves.take(i));
    } else {
        assert(moves.take(i) =~= moves);
    }
}

/// Scores the position on `board` for `player`, `plies` plies deep.
pub fn score_position(board: &Board, player: Square, plies: usize) -> (score: u128)
    requires
        player != Square::Empty,
        plies <= SEARCH_DEPTH,
    ensures
        score == position_score(grid(*board), player, plies as nat),
    decreases plies,
{
    if plies == 0 {
        return 0;
    }
    let ghost g = grid(*board);
    let own: usize = count_pieces(board, player);
    let mut score: u128 = own as u128;
    if plies == 1 {
        proof {
            lemma_replies_score_zero(g, player, legal_moves(g, player));
        }
        return score;
    }
    let moves = find_valid_moves(board, player);
    proof {
        lemma_position_score_cap(g, player, plies as nat);
        lemma_score_cap_grows(plies as nat, SEARCH_DEPTH as nat);
        lemma_score_cap_fits();
    }
    for i in 0..moves.len()
        invariant
            player != Square::Empty,
            1 < plies <= SEARCH_DEPTH,
            g == grid(*board),
            moves@ == legal_moves(g, player),
            own == count(g, player),
            score == own + replies_score(g, player, moves@.take(i as int), (plies - 1) as nat),
            position_score(g, player, plies as nat) <= u128::MAX,
    {
        proof {
            lemma_legal_moves_name_empty_cells(g, player, i as int);
            lemma_replies_prefix(g, player, plies as nat, i + 1);
            assert(moves@.take(i + 1).drop_last() =~= moves@.take(i as int));
        }
        let m = moves[i];
        let mut next: Board = *board;
        update_board(&mut next, m.0, m.1, player);
        let reply = score_position(&next, player, plies - 1);
        score = score + reply;
    }
    proof {
        assert(moves@.take(moves.len() as int) =~= moves@);
    }
    score
}

/// Chooses among `moves` for `player` by scores `plies` plies deep: the first
/// candidate with the highest score.
pub fn best_move_at_depth(board: &Board, player: Square, moves: &Vec<Move>, plies: usize) -> (best:
    Move)
    requires
        player != Square::Empty,
        moves.len() > 0,
        forall|k: int| 0 <= k < moves.len() ==> (#[trigger] moves[k]).0 < 8 && moves[k].1 < 8,
        plies <= SEARCH_DEPTH,
    ensures
        is_first_best(
            grid(*board),
            player,
            moves@,
            plies as nat,
            best_index(grid(*board), player, moves@, plies as nat),
        ),
        best == best_move(grid(*board), player, moves@, plies as nat),
{
    let ghost g = grid(*board);
    let mut best_score: u128 = 0;
    let mut best: Move = moves[0];
    let ghost mut at_index: int = 0;
    for i in 0..moves.len()
        invariant
            player != Square::Empty,
            plies <= SEARCH_DEPTH,
            g == grid(*board),
            moves.len() > 0,
            forall|k: int| 0 <= k < moves.len() ==> (#[trigger] moves[k]).0 < 8 && moves[k].1 < 8,
            best == moves[at_index],
            i == 0 ==> at_index == 0 && best_score == 0,
            i > 0 ==> 0 <= at_index < i && best_score == candidate_score(
                g,
                player,
                moves[at_index],
                plies as nat,
            ),
            forall|j: int|
                0 <= j < i ==> candidate_score(g, player, #[trigger] moves[j], plies as nat)
                    <= best_score,
            forall|j: int|
                0 <= j < at_index ==> candidate_score(g, player, #[trigger] moves[j], plies as nat)
                    < best_score,
    {
        let m = moves[i];
        let mut next: Board = *board;
        update_board(&mut next, m.0, m.1, player);
        let score = score_position(&next, player, plies);
        if score > best_score {
            best = m;
            best_score = score;
            proof {
                at_index = i as int;
            }
        }
    }
    proof {
        assert(is_first_best(g, player, moves@, plies as nat, at_index));
        lemma_first_best_is_unique(
            g,
            player,
            moves@,
            plies as nat,
            at_index,
            best_index(g, player, moves@, plies as nat),
        );
    }
    best
}

/// Chooses the computer's move among `moves`, the candidates for `player` on
/// `board`: the first of them with the highest score, each scored
/// `SEARCH_DEPTH` plies deep by the mover's own play. The same board, player
/// and candidates give the same move.
pub fn find_best_move(board: &Board, player: Square, moves: Vec<Move>) -> (best: Move)
    requires
        player != Square::Empty,
        moves.len() > 0,
        forall|k: int| 0 <= k < moves.len() ==> (#[trigger] moves[k]).0 < 8 && moves[k].1 < 8,
    ensures
        is_first_best(
            grid(*board),
            player,
            moves@,
            SEARCH_DEPTH as nat,
            best_index(grid(*board), player, moves@, SEARCH_DEPTH as nat),
        ),
        best == best_move(grid(*board), player, moves@, SEARCH_DEPTH as nat),
{
    best_move_at_depth(board, player, &moves, SEARCH_DEPTH)
}

} // verus!
