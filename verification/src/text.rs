//! The board and the state of play as text.

use vstd::prelude::*;
use crate::board::{cell_at, Board, Cell, Colour, Score};
use crate::game::{stones, GameState, Position};

verus! {

/// The character that stands for a cell: `.` for an empty one, `B` and `W`
/// for the stones.
pub open spec fn cell_char(cell: Cell) -> char {
    match cell {
        Cell::Empty => '.',
        Cell::Black => 'B',
        Cell::White => 'W',
    }
}

/// The character of the decimal digit `d`.
pub open spec fn digit_char(d: int) -> char {
    if d == 0 {
        '0'
    } else if d == 1 {
        '1'
    } else if d == 2 {
        '2'
    } else if d == 3 {
        '3'
    } else if d == 4 {
        '4'
    } else if d == 5 {
        '5'
    } else if d == 6 {
        '6'
    } else if d == 7 {
        '7'
    } else if d == 8 {
        '8'
    } else {
        '9'
    }
}

/// The decimal digits of `n`, without leading zeros.
pub open spec fn decimal(n: nat) -> Seq<char>
    decreases n,
{
    if n < 10 {
        seq![digit_char(n as int)]
    } else {
        decimal(n / 10).push(digit_char((n % 10) as int))
    }
}

/// The board as text: eight lines of eight cell characters, each line ended
/// by a newline.
pub open spec fn board_text(cells: Seq<Cell>) -> Seq<char> {
    Seq::new(
        72,
        |i: int|
            if i % 9 == 8 {
                '\n'
            } else {
                cell_char(cell_at(cells, i / 9, i % 9))
            },
    )
}

/// The name of a colour.
pub open spec fn colour_name(colour: Colour) -> Seq<char> {
    match colour {
        Colour::Black => "Black"@,
        Colour::White => "White"@,
    }
}

/// The two lines under the board: the scores and the colour to move.
pub open spec fn summary_text(black: nat, white: nat, next_turn: Colour) -> Seq<char> {
    "Score: B "@ + decimal(black) + " - W "@ + decimal(white) + "\n"@ + "Next Turn: "@ + colour_name(
        next_turn,
    ) + "\n"@
}

/// A position as text: the board, then the summary.
pub open spec fn position_text(p: Position) -> Seq<char> {
    board_text(p.cells) + summary_text(
        stones(p.cells, Colour::Black),
        stones(p.cells, Colour::White),
        p.next_turn,
    )
}

/// The one-character text of a cell.
pub fn cell_text(cell: Cell) -> (text: &'static str)
    ensures
        text@ == seq![cell_char(cell)],
{
    proof {
        reveal_strlit(".");
        reveal_strlit("B");
        reveal_strlit("W");
    }
    let text = match cell {
        Cell::Empty => ".",
        Cell::Black => "B",
        Cell::White => "W",
    };
    assert(text@ =~= seq![cell_char(cell)]);
    text
}

/// The one-character text of the decimal digit `d`.
pub fn digit_text(d: u32) -> (text: &'static str)
    requires
        d < 10,
    ensures
        text@ == seq![digit_char(d as int)],
{
    proof {
        reveal_strlit("0");
        reveal_strlit("1");
        reveal_strlit("2");
        reveal_strlit("3");
        reveal_strlit("4");
        reveal_strlit("5");
        reveal_strlit("6");
        reveal_strlit("7");
        reveal_strlit("8");
        reveal_strlit("9");
    }
    let text = if d == 0 {
        "0"
    } else if d == 1 {
        "1"
    } else if d == 2 {
        "2"
    } else if d == 3 {
        "3"
    } else if d == 4 {
        "4"
    } else if d == 5 {
        "5"
    } else if d == 6 {
        "6"
    } else if d == 7 {
        "7"
    } else if d == 8 {
        "8"
    } else {
        "9"
    };
    assert(text@ =~= seq![digit_char(d as int)]);
    text
}

/// Appends the decimal digits of `n` to `text`.
pub fn push_decimal(text: &mut String, n: u32)
    ensures
        final(text)@ == old(text)@ + decimal(n as nat),
    decreases n,
{
    if n >= 10 {
        push_decimal(text, n / 10);
    }
    text.append(digit_text(n % 10));
    assert(text@ =~= old(text)@ + decimal(n as nat));
}

/// The name of a colour.
pub fn colour_text(colour: Colour) -> (text: &'static str)
    ensures
        text@ == colour_name(colour),
{
    match colour {
        Colour::Black => "Black",
        Colour::White => "White",
    }
}

impl Board {
    /// The board as text: eight lines of eight cell characters, `.` for an
    /// empty square, `B` and `W` for the stones.
    pub fn render(&self) -> (text: String)
        ensures
            text@ == board_text(self@),
    {
        let mut text = String::new();
        let ghost whole = board_text(self@);
        let mut row: usize = 0;
        assert(text@ =~= whole.take(0));
        while row < 8
            invariant
                row <= 8,
                whole == board_text(self@),
                text@ == whole.take(9 * row),
            decreases 8 - row,
        {
            let mut col: usize = 0;
            while col < 8
                invariant
                    row < 8,
                    col <= 8,
                    whole == board_text(self@),
                    text@ == whole.take(9 * row + col),
                decreases 8 - col,
            {
                let cell = self.cells[row * 8 + col];
                text.append(cell_text(cell));
                assert(text@ =~= whole.take(9 * row + col + 1)) by {
                    let i = 9 * row + col;
                    assert(i / 9 == row && i % 9 == col);
                    assert(whole[i] == cell_char(cell));
                }
                col = col + 1;
            }
            proof {
                reveal_strlit("\n");
                let i = 9 * row + 8;
                assert(i % 9 == 8);
                assert(whole[i] == '\n');
            }
            text.append("\n");
            assert(text@ =~= whole.take(9 * (row + 1)));
            row = row + 1;
        }
        assert(whole.take(72) =~= whole);
        text
    }
}

impl GameState {
    /// The position as text: the board, a line with the two scores, and a
    /// line that names the colour to move.
    pub fn render(&self) -> (text: String)
        ensures
            text@ == position_text(self@),
    {
        let mut text = self.board.render();
        let score: (Score, Score) = self.board.scores();
        text.append("Score: B ");
        push_decimal(&mut text, score.0);
        text.append(" - W ");
        push_decimal(&mut text, score.1);
        text.append("\n");
        text.append("Next Turn: ");
        text.append(colour_text(self.next_turn));
        text.append("\n");
        assert(text@ =~= position_text(self@));
        text
    }
}

} // verus!
