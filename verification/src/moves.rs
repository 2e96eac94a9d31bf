//! Moves, and the enumeration of the legal moves of a colour.

use vstd::prelude::*;
use crate::board::{cell_at, index_of, on_board, Board, Cell, Colour, Pos};
use crate::rules::{captures, is_legal};

verus! {

/// A stone of `player` placed on `(row, col)`. A move does not know whether
/// it is legal: that depends on the board it is played on.
#[derive(Clone, Copy, PartialEq, Eq, Structural, Debug, Hash)]
pub struct Move {
    pub player: Colour,
    pub row: Pos,
    pub col: Pos,
}

impl Move {
    /// The move's square is a square of the board.
    pub open spec fn on_board(self) -> bool {
        on_board(self.row as int, self.col as int)
    }

    /// The place of the move's square in row-major order.
    pub open spec fn index(self) -> int {
        index_of(self.row as int, self.col as int)
    }

    /// The move is legal on `cells`.
    pub open spec fn legal_on(self, cells: Seq<Cell>) -> bool {
        is_legal(cells, self.player, self.row as int, self.col as int)
    }
}

/// The move of `colour` onto the square with row-major index `i`.
pub open spec fn move_at(colour: Colour, i: int) -> Move {
    Move { player: colour, row: (i / 8) as Pos, col: (i % 8) as Pos }
}

/// The legal moves of `colour` onto the first `n` squares in row-major
/// order, in that order.
pub open spec fn legal_moves_below(cells: Seq<Cell>, colour: Colour, n: nat) -> Seq<Move>
    decreases n,
{
    if n == 0 {
        Seq::empty()
    } else {
        let rest = legal_moves_below(cells, colour, (n - 1) as nat);
        if is_legal(cells, colour, (n - 1) / 8, (n - 1) % 8) {
            rest.push(move_at(colour, n - 1))
        } else {
            rest
        }
    }
}

/// The legal moves of `colour` in row-major order.
pub open spec fn legal_moves(cells: Seq<Cell>, colour: Colour) -> Seq<Move> {
    legal_moves_below(cells, colour, 64)
}

/// `colour` has at least one legal move.
pub open spec fn can_move(cells: Seq<Cell>, colour: Colour) -> bool {
    legal_moves(cells, colour).len() > 0
}

/// A legal placement is on an empty square of the board.
pub proof fn lemma_legal_square_is_empty(cells: Seq<Cell>, colour: Colour, row: int, col: int)
    requires
        is_legal(cells, colour, row, col),
    ensures
        on_board(row, col),
        cell_at(cells, row, col) == Cell::Empty,
{
    let (r2, c2) = choose|r2: int, c2: int| #[trigger] captures(cells, colour, row, col, r2, c2);
}

/// What the enumeration up to square `n` holds: only legal moves of
/// `colour` onto squares below `n`, all of them, in rising order.
pub proof fn lemma_legal_moves_below(cells: Seq<Cell>, colour: Colour, n: nat)
    requires
        n <= 64,
    ensures
        legal_moves_below(cells, colour, n).len() <= n,
        forall|j: int|
            0 <= j < legal_moves_below(cells, colour, n).len() ==> ({
                let m = #[trigger] legal_moves_below(cells, colour, n)[j];
                &&& m.player == colour
                &&& m.on_board()
                &&& m.index() < n
                &&& m.legal_on(cells)
            }),
        forall|i: int|
            0 <= i < n && is_legal(cells, colour, i / 8, i % 8) ==> legal_moves_below(
                cells,
                colour,
                n,
            ).contains(#[trigger] move_at(colour, i)),
        forall|j1: int, j2: int|
            0 <= j1 < j2 < legal_moves_below(cells, colour, n).len() ==> (#[trigger] legal_moves_below(
                cells,
                colour,
                n,
            )[j1]).index() < (#[trigger] legal_moves_below(cells, colour, n)[j2]).index(),
    decreases n,
{
    if n > 0 {
        let rest = legal_moves_below(cells, colour, (n - 1) as nat);
        let all = legal_moves_below(cells, colour, n);
        lemma_legal_moves_below(cells, colour, (n - 1) as nat);
        let last = move_at(colour, n - 1);
        assert(last.index() == n - 1);
        assert forall|i: int| 0 <= i < n && is_legal(cells, colour, i / 8, i % 8) implies all.contains(
            #[trigger] move_at(colour, i),
        ) by {
            if i < n - 1 {
                let j = choose|j: int| 0 <= j < rest.len() && rest[j] == move_at(colour, i);
                assert(all[j] == move_at(colour, i));
            } else {
                assert(all[rest.len() as int] == last);
            }
        }
    }
}

/// Every enumerated move is a move of `colour` onto an empty square of the
/// board, and captures at least one stone.
pub proof fn lemma_legal_moves_sound(cells: Seq<Cell>, colour: Colour, j: int)
    requires
        0 <= j < legal_moves(cells, colour).len(),
    ensures
        ({
            let m = legal_moves(cells, colour)[j];
            &&& m.player == colour
            &&& m.on_board()
            &&& cell_at(cells, m.row as int, m.col as int) == Cell::Empty
            &&& m.legal_on(cells)
            &&& exists|r2: int, c2: int| #[trigger]
                captures(cells, colour, m.row as int, m.col as int, r2, c2)
        }),
{
    lemma_legal_moves_below(cells, colour, 64);
    let m = legal_moves(cells, colour)[j];
    lemma_legal_square_is_empty(cells, colour, m.row as int, m.col as int);
}

/// Every legal move of `colour` is enumerated.
pub proof fn lemma_legal_moves_complete(cells: Seq<Cell>, m: Move)
    requires
        m.legal_on(cells),
    ensures
        legal_moves(cells, m.player).contains(m),
{
    lemma_legal_square_is_empty(cells, m.player, m.row as int, m.col as int);
    lemma_legal_moves_below(cells, m.player, 64);
    let i = m.index();
    assert(i / 8 == m.row && i % 8 == m.col);
    assert(move_at(m.player, i) == m);
}

/// The enumeration for `colour` holds exactly the legal moves of `colour`.
pub proof fn lemma_legal_moves_contains(cells: Seq<Cell>, colour: Colour, m: Move)
    ensures
        legal_moves(cells, colour).contains(m) <==> m.player == colour && m.legal_on(cells),
{
    let moves = legal_moves(cells, colour);
    if moves.contains(m) {
        let j = choose|j: int| 0 <= j < moves.len() && moves[j] == m;
        lemma_legal_moves_sound(cells, colour, j);
    }
    if m.player == colour && m.legal_on(cells) {
        lemma_legal_moves_complete(cells, m);
    }
}

/// The enumeration is in row-major order, so no move is named twice.
pub proof fn lemma_legal_moves_ordered(cells: Seq<Cell>, colour: Colour, j1: int, j2: int)
    requires
        0 <= j1 < j2 < legal_moves(cells, colour).len(),
    ensures
        legal_moves(cells, colour)[j1].index() < legal_moves(cells, colour)[j2].index(),
        legal_moves(cells, colour)[j1] != legal_moves(cells, colour)[j2],
{
    lemma_legal_moves_below(cells, colour, 64);
}

impl Board {
    /// The legal moves of `colour`, in row-major order.
    pub fn valid_moves(&self, colour: Colour) -> (moves: Vec<Move>)
        ensures
            moves@ == legal_moves(self@, colour),
    {
        let mut moves: Vec<Move> = Vec::new();
        let mut i: usize = 0;
        while i < 64
            invariant
                i <= 64,
                moves@ == legal_moves_below(self@, colour, i as nat),
            decreases 64 - i,
        {
            let row: Pos = (i / 8) as Pos;
            let col: Pos = (i % 8) as Pos;
            if self.is_legal(colour, row, col) {
                moves.push(Move { player: colour, row, col });
            }
            i = i + 1;
        }
        moves
    }

    /// Whether `colour` has a legal move.
    pub fn has_moves(&self, colour: Colour) -> (yes: bool)
        ensures
            yes == can_move(self@, colour),
    {
        self.valid_moves(colour).len() > 0
    }
}

/// Whether `moves` holds `m`.
pub fn contains_move(moves: &Vec<Move>, m: Move) -> (found: bool)
    ensures
        found == moves@.contains(m),
{
    let mut j: usize = 0;
    while j < moves.len()
        invariant
            j <= moves@.len(),
            forall|i: int| 0 <= i < j ==> moves@[i] != m,
        decreases moves@.len() - j,
    {
        if moves[j] == m {
            return true;
        }
        j = j + 1;
    }
    false
}

} // verus!
