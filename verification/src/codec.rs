//! The compact move code: 0 is a pass, 1 to 64 name the squares in row-major
//! order, so that square `(row, col)` has code `row * 8 + col + 1`.

use vstd::prelude::*;
use crate::board::{Colour, Pos};
use crate::moves::{move_at, Move};

verus! {

/// What can go wrong at the boundary of a game.
#[derive(Clone, Copy, PartialEq, Eq, Structural, Debug)]
pub enum GameError {
    /// A move code above 64.
    InvalidMoveCode { code: u8 },
    /// A chosen move that is not a legal move of the colour to move, or no
    /// choice at all although that colour has a legal move.
    AiSelectionFailure,
}

/// The code of a pass (`None`) or of a placement.
pub open spec fn encoded(m: Option<Move>) -> int {
    match m {
        Some(m) => m.index() + 1,
        None => 0,
    }
}

/// What a code stands for when `player` is to move: a pass, a placement of
/// `player`, or nothing where the code is above 64.
pub open spec fn decoded(code: u8, player: Colour) -> Result<Option<Move>, GameError> {
    if code == 0 {
        Ok(None)
    } else if code <= 64 {
        Ok(Some(move_at(player, code - 1)))
    } else {
        Err(GameError::InvalidMoveCode { code })
    }
}

/// Decoding a code from 0 to 64 and encoding what comes out gives the code
/// back, whichever colour is to move.
pub proof fn lemma_decode_then_encode(code: u8, player: Colour)
    requires
        code <= 64,
    ensures
        decoded(code, player) is Ok,
        encoded(decoded(code, player)->Ok_0) == code,
        decoded(code, player)->Ok_0 matches Some(m) ==> m.on_board() && m.player == player,
{
}

/// Encoding a pass or a placement on the board and decoding the code for the
/// mover gives the move back.
pub proof fn lemma_encode_then_decode(m: Option<Move>, player: Colour)
    requires
        m matches Some(placed) ==> placed.on_board() && placed.player == player,
    ensures
        0 <= encoded(m) <= 64,
        decoded(encoded(m) as u8, player) == Ok::<Option<Move>, GameError>(m),
{
    if let Some(placed) = m {
        let i = placed.index();
        assert(i / 8 == placed.row && i % 8 == placed.col);
    }
}

/// The code of a pass (`None`) or of a placement on the board.
pub fn move_to_u8(mov: Option<Move>) -> (code: u8)
    requires
        mov matches Some(m) ==> m.on_board(),
    ensures
        code == encoded(mov),
        code <= 64,
        mov is None <==> code == 0,
{
    match mov {
        Some(m) => (m.row * 8 + m.col + 1) as u8,
        None => 0,
    }
}

/// What `move_repr` stands for when `player` is to move: `Ok(None)` for the
/// pass code 0, a placement of `player` for 1 to 64, and an error above.
pub fn u8_to_move(move_repr: u8, player: Colour) -> (decoding: Result<Option<Move>, GameError>)
    ensures
        decoding == decoded(move_repr, player),
        decoding is Err <==> move_repr > 64,
{
    if move_repr == 0 {
        Ok(None)
    } else if move_repr <= 64 {
        let index: u8 = move_repr - 1;
        let row: Pos = (index / 8) as Pos;
        let col: Pos = (index % 8) as Pos;
        Ok(Some(Move { player, row, col }))
    } else {
        Err(GameError::InvalidMoveCode { code: move_repr })
    }
}

} // verus!
