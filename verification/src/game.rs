//! A game: the opening position, the turns of the two players, and the
//! result.
//!
//! White is the human and moves first; Black is the computer. After the
//! opening a game lasts a fixed number of turns. The library decides what
//! each turn asks for; whoever runs the game asks the human, and hands the
//! answer back.

use vstd::prelude::*;
use vstd::string::StringExecFns;
use crate::board::{
    count, count_pieces, empty_board, empty_grid, grid, lemma_grid_cell, occupied, opponent, rival,
    with_cell, Board, Grid, Square,
};
use crate::capture::{apply_move, lemma_move_adds_one_piece, update_board};
use crate::legality::{find_valid_moves, legal_moves, Move};
use crate::search::{best_move, find_best_move, SEARCH_DEPTH};
use crate::text::{decimal, push_decimal};

verus! {

/// The turns of a game after the opening.
pub const TURNS: usize = 59;

/// The four pieces in the middle of the board, before the opening move:
/// White on one diagonal, Black on the other.
pub open spec fn start_grid() -> Grid {
    with_cell(
        with_cell(
            with_cell(with_cell(empty_grid(), 3, 3, Square::White), 3, 4, Square::Black),
            4,
            3,
            Square::Black,
        ),
        4,
        4,
        Square::White,
    )
}

/// The position in which play begins: the four pieces, and Black's opening
/// move at column 2, row 3.
pub open spec fn opening_grid() -> Grid {
    apply_move(start_grid(), Square::Black, 2, 3)
}

/// The board with the four pieces in the middle.
pub fn starting_board() -> (board: Board)
    ensures
        grid(board) == start_grid(),
{
    let mut board = empty_board();
    board[3][3] = Square::White;
    board[3][4] = Square::Black;
    board[4][3] = Square::Black;
    board[4][4] = Square::White;
    proof {
        assert forall|n: int| 0 <= n < 64 implies grid(board)[n] == start_grid()[n] by {
            lemma_grid_cell(board, n / 8, n % 8);
        }
        assert(grid(board) =~= start_grid());
    }
    board
}

/// The board on which play begins.
pub fn opening_board() -> (board: Board)
    ensures
        grid(board) == opening_grid(),
{
    let mut board = starting_board();
    update_board(&mut board, 2, 3, Square::Black);
    board
}

/// How a game ended.
#[derive(Copy, Clone, PartialEq, Eq, Structural, Debug)]
pub enum Outcome {
    /// White has more pieces: this many.
    WhiteWins(usize),
    /// Black has more pieces: this many.
    BlackWins(usize),
    Draw,
}

/// The result of a position: the colour with more pieces wins, with the
/// number of its pieces; equal numbers are a draw.
pub open spec fn outcome_of(g: Grid) -> Outcome {
    let white = count(g, Square::White);
    let black = count(g, Square::Black);
    if white > black {
        Outcome::WhiteWins(white as usize)
    } else if black > white {
        Outcome::BlackWins(black as usize)
    } else {
        Outcome::Draw
    }
}

/// The line that tells the result.
pub open spec fn result_text(outcome: Outcome) -> Seq<char> {
    match outcome {
        Outcome::WhiteWins(n) => "White wins with "@ + decimal(n as nat) + " pieces!"@,
        Outcome::BlackWins(n) => "Black wins with "@ + decimal(n as nat) + " pieces!"@,
        Outcome::Draw => "Draw!"@,
    }
}

/// Counts the pieces on `board` and names the winner.
pub fn outcome(board: &Board) -> (result: Outcome)
    ensures
        result == outcome_of(grid(*board)),
{
    let white = count_pieces(board, Square::White);
    let black = count_pieces(board, Square::Black);
    if white > black {
        Outcome::WhiteWins(white)
    } else if black > white {
        Outcome::BlackWins(black)
    } else {
        Outcome::Draw
    }
}

/// Writes the line that tells the result.
pub fn result_line(outcome: Outcome) -> (line: String)
    ensures
        line@ == result_text(outcome),
{
    match outcome {
        Outcome::WhiteWins(n) => {
            let mut line = String::from_str("White wins with ");
            push_decimal(&mut line, n);
            line.append(" pieces!");
            line
        },
        Outcome::BlackWins(n) => {
            let mut line = String::from_str("Black wins with ");
            push_decimal(&mut line, n);
            line.append(" pieces!");
            line
        },
        Outcome::Draw => String::from_str("Draw!"),
    }
}

/// What the next turn of a game asks for.
#[derive(Debug)]
pub enum Step {
    /// No turn is left: the game is to be scored.
    Finished,
    /// The player to move has no move: the turn passes.
    Pass,
    /// It is the computer's turn, and this is the move it has chosen.
    Computer(Move),
    /// It is the human's turn: one of these moves is to be chosen.
    Human(Vec<Move>),
}

/// A game in progress.
pub struct Game {
    board: Board,
    player: Square,
    turns_left: usize,
}

impl Game {
    /// The position.
    pub closed spec fn position(&self) -> Grid {
        grid(self.board)
    }

    /// The colour to move.
    pub closed spec fn to_move(&self) -> Square {
        self.player
    }

    /// The turns that are left.
    pub closed spec fn remaining(&self) -> nat {
        self.turns_left as nat
    }

    /// A game has a colour to move, and no more turns left than a game
    /// lasts.
    pub closed spec fn wf(&self) -> bool {
        self.player != Square::Empty && self.turns_left <= TURNS
    }

    /// What the next turn asks for: nothing, when no turn is left; a pass,
    /// when the player to move has no move; the computer's choice, when
    /// Black is to move; a choice among the moves, when White is.
    pub open spec fn step_of(&self, step: Step) -> bool {
        let moves = legal_moves(self.position(), self.to_move());
        match step {
            Step::Finished => self.remaining() == 0,
            Step::Pass => self.remaining() > 0 && moves.len() == 0,
            Step::Computer(m) => self.remaining() > 0 && moves.len() > 0 && self.to_move()
                == Square::Black && moves.contains(m) && m == best_move(
                self.position(),
                self.to_move(),
                moves,
                SEARCH_DEPTH as nat,
            ),
            Step::Human(offered) => self.remaining() > 0 && moves.len() > 0 && self.to_move()
                == Square::White && offered@ == moves,
        }
    }

    /// A new game: the opening position, White to move, all turns left.
    pub fn new() -> (game: Game)
        ensures
            game.wf(),
            game.position() == opening_grid(),
            game.to_move() == Square::White,
            game.remaining() == TURNS,
    {
        Game { board: opening_board(), player: Square::White, turns_left: TURNS }
    }

    /// A game that starts from `board` with `player` to move and `turns`
    /// turns left, or nothing if `player` is no colour or `turns` more than
    /// a game lasts.
    pub fn from_position(board: Board, player: Square, turns: usize) -> (game: Option<Game>)
        ensures
            game is Some <==> player != Square::Empty && turns <= TURNS,
            game matches Some(g) ==> g.wf() && g.position() == grid(board) && g.to_move() == player
                && g.remaining() == turns,
    {
        if player != Square::Empty && turns <= TURNS {
            Some(Game { board, player, turns_left: turns })
        } else {
            None
        }
    }

    /// The board as it stands.
    pub fn board(&self) -> (board: &Board)
        ensures
            grid(*board) == self.position(),
    {
        &self.board
    }

    /// The colour to move.
    pub fn current_player(&self) -> (player: Square)
        ensures
            player == self.to_move(),
    {
        self.player
    }

    /// The turns that are left.
    pub fn turns_left(&self) -> (turns: usize)
        ensures
            turns == self.remaining(),
    {
        self.turns_left
    }

    /// Decides what the next turn asks for.
    pub fn next_step(&self) -> (step: Step)
        requires
            self.wf(),
        ensures
            self.step_of(step),
    {
        if self.turns_left == 0 {
            return Step::Finished;
        }
        let moves = find_valid_moves(&self.board, self.player);
        if moves.len() == 0 {
            Step::Pass
        } else if self.player == Square::Black {
            Step::Computer(find_best_move(&self.board, self.player, moves))
        } else {
            Step::Human(moves)
        }
    }

    /// Plays the move `m` for the player to move, and hands the turn to the
    /// other player.
    pub fn play(&mut self, m: Move)
        requires
            old(self).wf(),
            old(self).remaining() > 0,
            m.0 < 8,
            m.1 < 8,
        ensures
            final(self).wf(),
            final(self).position() == apply_move(
                old(self).position(),
                old(self).to_move(),
                m.0 as int,
                m.1 as int,
            ),
            final(self).to_move() == rival(old(self).to_move()),
            final(self).remaining() == old(self).remaining() - 1,
            occupied(old(self).position()) <= occupied(final(self).position()) <= occupied(
                old(self).position(),
            ) + 1,
    {
        proof {
            lemma_grid_cell(self.board, 0, 0);
            lemma_move_adds_one_piece(grid(self.board), self.player, m.0 as int, m.1 as int);
        }
        update_board(&mut self.board, m.0, m.1, self.player);
        self.player = opponent(self.player);
        self.turns_left = self.turns_left - 1;
    }

    /// Lets the turn pass: the position stays, and the other player is to
    /// move.
    pub fn pass_turn(&mut self)
        requires
            old(self).wf(),
            old(self).remaining() > 0,
        ensures
            final(self).wf(),
            final(self).position() == old(self).position(),
            final(self).to_move() == rival(old(self).to_move()),
            final(self).remaining() == old(self).remaining() - 1,
    {
        self.player = opponent(self.player);
        self.turns_left = self.turns_left - 1;
    }

    /// The result of the game as it stands.
    pub fn result(&self) -> (result: Outcome)
        ensures
            result == outcome_of(self.position()),
    {
        outcome(&self.board)
    }
}

} // verus!
