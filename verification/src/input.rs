//! The human's choice of a move: the moves are shown with a label each,
//! and the key that is pressed picks one.

use vstd::prelude::*;
use vstd::string::StringExecFns;
use crate::legality::Move;
use crate::terminal::{clear_line, clear_line_text};
use crate::text::{decimal, push_decimal};

verus! {

/// How many moves can be shown: there are this many labels.
pub const LABEL_COUNT: usize = 24;

/// The labels, in the order in which they are given to the moves.
pub open spec fn labels() -> Seq<char> {
    seq![
        '0', '1', '2', '3', '4', '5', '6', '7', '8', '9', 'q', 'w',
        'e', 'r', 't', 'y', 'u', 'i', 'o', 'p', 'a', 's', 'd', 'f',
    ]
}

/// The line that shows a move: the line is cleared, then come the label, a
/// colon, and the column and the row of the move in brackets.
pub open spec fn menu_line(label: char, m: Move) -> Seq<char> {
    clear_line_text() + seq![label] + ": ("@ + decimal(m.0 as nat) + ", "@ + decimal(m.1 as nat)
        + ")  \n"@
}

/// The lines that show `moves`, the first move under the first label.
pub open spec fn menu_text(moves: Seq<Move>) -> Seq<char>
    decreases moves.len(),
{
    if moves.len() == 0 {
        Seq::empty()
    } else {
        menu_text(moves.drop_last()) + menu_line(labels()[moves.len() - 1], moves.last())
    }
}

/// The move that `key` picks among `moves`: the move whose label it is.
pub open spec fn picked(moves: Seq<Move>, key: char) -> Option<Move> {
    if exists|i: int| 0 <= i < moves.len() && i < labels().len() && labels()[i] == key {
        let i = choose|i: int| 0 <= i < moves.len() && i < labels().len() && labels()[i] == key;
        Some(moves[i])
    } else {
        None
    }
}

/// More moves were to be shown than there are labels.
#[derive(Copy, Clone, PartialEq, Eq, Structural, Debug)]
pub struct SelectionUnavailable {
    /// The number of moves.
    pub offered: usize,
}

/// No two labels are the same.
pub proof fn lemma_labels_differ(i: int, j: int)
    requires
        0 <= i < labels().len(),
        0 <= j < labels().len(),
        labels()[i] == labels()[j],
    ensures
        i == j,
{
}

/// The text of label number `i`.
pub fn label_text(i: usize) -> (text: &'static str)
    requires
        i < LABEL_COUNT,
    ensures
        text@ == seq![labels()[i as int]],
{
    proof {
        reveal_strlit("0");
        reveal_strlit("1");
        reveal_strlit("2");
        reveal_strlit("3");
        reveal_strlit("4");
        reveal_strlit("5");
        reveal_strlit("6");
        reveal_strlit("7");
        reveal_strlit("8");
        reveal_strlit("9");
        reveal_strlit("q");
        reveal_strlit("w");
        reveal_strlit("e");
        reveal_strlit("r");
        reveal_strlit("t");
        reveal_strlit("y");
        reveal_strlit("u");
        reveal_strlit("i");
        reveal_strlit("o");
        reveal_strlit("p");
        reveal_strlit("a");
        reveal_strlit("s");
        reveal_strlit("d");
        reveal_strlit("f");
    }
    let text = match i {
        0 => "0",
        1 => "1",
        2 => "2",
        3 => "3",
        4 => "4",
        5 => "5",
        6 => "6",
        7 => "7",
        8 => "8",
        9 => "9",
        10 => "q",
        11 => "w",
        12 => "e",
        13 => "r",
        14 => "t",
        15 => "y",
        16 => "u",
        17 => "i",
        18 => "o",
        19 => "p",
        20 => "a",
        21 => "s",
        22 => "d",
        _ => "f",
    };
    assert(text@ =~= seq![labels()[i as int]]);
    text
}

/// The number of the label that `key` is, if it is one.
pub fn label_index(key: char) -> (index: Option<usize>)
    ensures
        match index {
            Some(i) => i < LABEL_COUNT && labels()[i as int] == key,
            None => !labels().contains(key),
        },
{
    let index = match key {
        '0' => Some(0),
        '1' => Some(1),
        '2' => Some(2),
        '3' => Some(3),
        '4' => Some(4),
        '5' => Some(5),
        '6' => Some(6),
        '7' => Some(7),
        '8' => Some(8),
        '9' => Some(9),
        'q' => Some(10),
        'w' => Some(11),
        'e' => Some(12),
        'r' => Some(13),
        't' => Some(14),
        'y' => Some(15),
        'u' => Some(16),
        'i' => Some(17),
        'o' => Some(18),
        'p' => Some(19),
        'a' => Some(20),
        's' => Some(21),
        'd' => Some(22),
        'f' => Some(23),
        _ => None,
    };
    proof {
        if index is None && labels().contains(key) {
            let i = choose|i: int| 0 <= i < labels().len() && labels()[i] == key;
            assert(labels()[i] == key);
        }
    }
    index
}

/// Writes the lines that show `moves` to the human, or refuses if there are
/// more moves than labels.
pub fn move_menu(moves: &Vec<Move>) -> (menu: Result<String, SelectionUnavailable>)
    ensures
        match menu {
            Ok(text) => moves.len() <= LABEL_COUNT && text@ == menu_text(moves@),
            Err(e) => moves.len() > LABEL_COUNT && e.offered == moves.len(),
        },
{
    if moves.len() > LABEL_COUNT {
        return Err(SelectionUnavailable { offered: moves.len() });
    }
    let clear = clear_line();
    let mut text = String::new();
    for i in 0..moves.len()
        invariant
            moves.len() <= LABEL_COUNT,
            clear@ == clear_line_text(),
            text@ == menu_text(moves@.take(i as int)),
    {
        let ghost before = text@;
        let m = moves[i];
        text.append(clear.as_str());
        text.append(label_text(i));
        text.append(": (");
        push_decimal(&mut text, m.0);
        text.append(", ");
        push_decimal(&mut text, m.1);
        text.append(")  \n");
        proof {
            assert(moves@.take(i + 1).drop_last() =~= moves@.take(i as int));
            assert(text@ =~= before + menu_line(labels()[i as int], m));
        }
    }
    proof {
        assert(moves@.take(moves.len() as int) =~= moves@);
    }
    Ok(text)
}

/// The move that the human picks among `moves` by pressing `key`: the move
/// under the label that `key` is, or nothing if `key` is no label or its
/// label has no move.
pub fn get_user_move(moves: &Vec<Move>, key: char) -> (choice: Option<Move>)
    ensures
        choice == picked(moves@, key),
        choice is Some <==> exists|i: int|
            0 <= i < moves.len() && i < labels().len() && labels()[i] == key,
{
    match label_index(key) {
        Some(i) => {
            if i < moves.len() {
                proof {
                    let j = choose|j: int|
                        0 <= j < moves.len() && j < labels().len() && labels()[j] == key;
                    lemma_labels_differ(i as int, j);
                }
                Some(moves[i])
            } else {
                proof {
                    if exists|j: int|
                        0 <= j < moves.len() && j < labels().len() && labels()[j] == key {
                        let j = choose|j: int|
                            0 <= j < moves.len() && j < labels().len() && labels()[j] == key;
                        lemma_labels_differ(i as int, j);
                    }
                }
                None
            }
        },
        None => {
            proof {
                if exists|j: int|
                    0 <= j < moves.len() && j < labels().len() && labels()[j] == key {
                    let j = choose|j: int|
                        0 <= j < moves.len() && j < labels().len() && labels()[j] == key;
                    assert(labels().contains(key));
                }
            }
            None
        },
    }
}

} // verus!

