//! Colours, cells and the 8x8 board.

use vstd::prelude::*;

verus! {

/// A row or column number. Cells of the board have rows and columns `0..8`;
/// the type is signed so that a step off the board can be written down.
pub type Pos = i8;

/// A number of stones.
pub type Score = u32;

/// One of the two players.
#[derive(Clone, Copy, PartialEq, Eq, Structural, Debug, Hash)]
pub enum Colour {
    Black,
    White,
}

impl Colour {
    /// The other colour.
    pub open spec fn spec_opponent(self) -> Colour {
        match self {
            Colour::Black => Colour::White,
            Colour::White => Colour::Black,
        }
    }

    /// The other colour. Applying it twice gives the first colour back.
    #[verifier::when_used_as_spec(spec_opponent)]
    pub fn opponent(self) -> (other: Colour)
        ensures
            other == self.spec_opponent(),
            other != self,
            other.spec_opponent() == self,
    {
        match self {
            Colour::Black => Colour::White,
            Colour::White => Colour::Black,
        }
    }

    /// The number under which the colour is exported: 1 for Black, 2 for White.
    pub open spec fn spec_code(self) -> u8 {
        match self {
            Colour::Black => 1,
            Colour::White => 2,
        }
    }

    /// The number under which the colour is exported: 1 for Black, 2 for White.
    #[verifier::when_used_as_spec(spec_code)]
    pub fn code(self) -> (n: u8)
        ensures
            n == self.spec_code(),
    {
        match self {
            Colour::Black => 1,
            Colour::White => 2,
        }
    }
}

/// What one square of the board holds.
#[derive(Clone, Copy, PartialEq, Eq, Structural, Debug, Hash)]
pub enum Cell {
    Empty,
    Black,
    White,
}

impl Cell {
    /// The cell that holds a stone of `colour`.
    pub open spec fn spec_of(colour: Colour) -> Cell {
        match colour {
            Colour::Black => Cell::Black,
            Colour::White => Cell::White,
        }
    }

    /// The cell that holds a stone of `colour`.
    #[verifier::when_used_as_spec(spec_of)]
    pub fn of(colour: Colour) -> (cell: Cell)
        ensures
            cell == Cell::spec_of(colour),
    {
        match colour {
            Colour::Black => Cell::Black,
            Colour::White => Cell::White,
        }
    }

    /// The colour of the stone in the cell, if there is one.
    pub open spec fn spec_owner(self) -> Option<Colour> {
        match self {
            Cell::Empty => None,
            Cell::Black => Some(Colour::Black),
            Cell::White => Some(Colour::White),
        }
    }

    /// The colour of the stone in the cell, if there is one.
    #[verifier::when_used_as_spec(spec_owner)]
    pub fn owner(self) -> (colour: Option<Colour>)
        ensures
            colour == self.spec_owner(),
    {
        match self {
            Cell::Empty => None,
            Cell::Black => Some(Colour::Black),
            Cell::White => Some(Colour::White),
        }
    }

    /// The number under which the cell is exported: 0 for an empty cell,
    /// otherwise the code of the stone's colour.
    pub open spec fn spec_code(self) -> u8 {
        match self {
            Cell::Empty => 0,
            Cell::Black => 1,
            Cell::White => 2,
        }
    }

    /// The number under which the cell is exported: 0 for an empty cell,
    /// otherwise the code of the stone's colour.
    #[verifier::when_used_as_spec(spec_code)]
    pub fn code(self) -> (n: u8)
        ensures
            n == self.spec_code(),
    {
        match self {
            Cell::Empty => 0,
            Cell::Black => 1,
            Cell::White => 2,
        }
    }
}

/// Whether `(row, col)` names a square of the board.
pub open spec fn on_board(row: int, col: int) -> bool {
    0 <= row < 8 && 0 <= col < 8
}

/// The place of square `(row, col)` in the row-major sequence of cells.
pub open spec fn index_of(row: int, col: int) -> int {
    row * 8 + col
}

/// The cell at `(row, col)` of a row-major sequence of 64 cells.
pub open spec fn cell_at(cells: Seq<Cell>, row: int, col: int) -> Cell {
    cells[index_of(row, col)]
}

/// The cells of the starting position: two stones of each colour on the four
/// centre squares, White on the main diagonal.
pub open spec fn initial_cells() -> Seq<Cell> {
    Seq::new(
        64,
        |i: int|
            if i == index_of(3, 3) || i == index_of(4, 4) {
                Cell::White
            } else if i == index_of(3, 4) || i == index_of(4, 3) {
                Cell::Black
            } else {
                Cell::Empty
            },
    )
}

/// The cells as they are exported: the code of each cell, in row-major order.
pub open spec fn cell_codes(cells: Seq<Cell>) -> Seq<u8> {
    Seq::new(64, |i: int| cells[i].spec_code())
}

/// An 8x8 board. Its model is the sequence of its 64 cells in row-major order.
///
/// A board is a value: every operation that changes something returns a new
/// board and leaves the one it was called on as it was.
#[derive(Clone, Copy, PartialEq, Eq, Debug, Hash)]
pub struct Board {
    pub cells: [Cell; 64],
}

impl View for Board {
    type V = Seq<Cell>;

    open spec fn view(&self) -> Seq<Cell> {
        self.cells@
    }
}

impl Board {
    /// The board with no stone on it.
    pub fn empty() -> (board: Board)
        ensures
            board@.len() == 64,
            forall|i: int| 0 <= i < 64 ==> board@[i] == Cell::Empty,
    {
        Board { cells: [Cell::Empty;64] }
    }

    /// The board of the starting position.
    pub fn initial() -> (board: Board)
        ensures
            board@ == initial_cells(),
    {
        let mut cells = [Cell::Empty;64];
        cells[27] = Cell::White;
        cells[28] = Cell::Black;
        cells[35] = Cell::Black;
        cells[36] = Cell::White;
        let board = Board { cells };
        assert(board@ =~= initial_cells());
        board
    }

    /// The cell at `(row, col)`.
    pub fn get(&self, row: Pos, col: Pos) -> (cell: Cell)
        requires
            on_board(row as int, col as int),
        ensures
            cell == cell_at(self@, row as int, col as int),
    {
        let i: usize = (row as usize) * 8 + (col as usize);
        self.cells[i]
    }

    /// The codes of the 64 cells in row-major order: 0 for an empty square,
    /// 1 for a black stone, 2 for a white one.
    pub fn codes(&self) -> (codes: Vec<u8>)
        ensures
            codes@ == cell_codes(self@),
    {
        let mut codes: Vec<u8> = Vec::with_capacity(64);
        let mut i: usize = 0;
        while i < 64
            invariant
                i <= 64,
                codes@.len() == i,
                forall|j: int| 0 <= j < i ==> codes@[j] == self@[j].spec_code(),
            decreases 64 - i,
        {
            codes.push(self.cells[i].code());
            i = i + 1;
        }
        assert(codes@ =~= cell_codes(self@));
        codes
    }

    /// The board with a stone of `colour` on `(row, col)` and every other
    /// square as it is here.
    pub fn place(&self, row: Pos, col: Pos, colour: Colour) -> (board: Board)
        requires
            on_board(row as int, col as int),
        ensures
            board@ == self@.update(index_of(row as int, col as int), Cell::spec_of(colour)),
    {
        let i: usize = (row as usize) * 8 + (col as usize);
        let mut cells = self.cells;
        cells[i] = Cell::of(colour);
        Board { cells }
    }
}

} // verus!
