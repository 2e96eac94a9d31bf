//! A position: a board and the colour that is to move. Playing a move gives
//! a new position and leaves the old one untouched.

use vstd::prelude::*;
use crate::board::{cell_at, initial_cells, on_board, Board, Cell, Colour, Score};
use crate::moves::{can_move, legal_moves, lemma_legal_square_is_empty, Move};
use crate::rules::{captures, captures_along, closes, ray_col, ray_holds, ray_row};

verus! {

/// The model of a position: the 64 cells in row-major order and the colour
/// that is to move.
pub struct Position {
    pub cells: Seq<Cell>,
    pub next_turn: Colour,
}

/// How many of `cells` are equal to `cell`.
pub open spec fn count_of(cells: Seq<Cell>, cell: Cell) -> nat
    decreases cells.len(),
{
    if cells.len() == 0 {
        0
    } else {
        count_of(cells.drop_last(), cell) + if cells.last() == cell {
            1nat
        } else {
            0nat
        }
    }
}

/// The number of stones of `colour`.
pub open spec fn stones(cells: Seq<Cell>, colour: Colour) -> nat {
    count_of(cells, Cell::spec_of(colour))
}

/// The static evaluation of a board for `perspective`: its stones minus the
/// stones of its opponent.
pub open spec fn evaluation(cells: Seq<Cell>, perspective: Colour) -> int {
    stones(cells, perspective) - stones(cells, perspective.spec_opponent())
}

/// The cells after `m` has been played: the stone of the mover on the move's
/// square, every stone that the move captures turned over, and nothing else
/// changed.
pub open spec fn cells_after(cells: Seq<Cell>, m: Move) -> Seq<Cell> {
    Seq::new(
        64,
        |i: int|
            if i == m.index() || captures(cells, m.player, m.row as int, m.col as int, i / 8, i % 8) {
                Cell::spec_of(m.player)
            } else {
                cells[i]
            },
    )
}

/// The position after `m` has been played: the opponent of the mover is to
/// move.
pub open spec fn position_after(p: Position, m: Move) -> Position {
    Position { cells: cells_after(p.cells, m), next_turn: m.player.spec_opponent() }
}

/// The position after a pass: the same board, the other colour to move.
pub open spec fn position_passed(p: Position) -> Position {
    Position { cells: p.cells, next_turn: p.next_turn.spec_opponent() }
}

/// The game is over: neither colour has a legal move.
pub open spec fn game_over(cells: Seq<Cell>) -> bool {
    !can_move(cells, Colour::Black) && !can_move(cells, Colour::White)
}

/// Every cell is empty, black or white, so the three counts add up to the
/// number of cells.
pub proof fn lemma_counts_add_up(cells: Seq<Cell>)
    ensures
        count_of(cells, Cell::Empty) + count_of(cells, Cell::Black) + count_of(cells, Cell::White)
            == cells.len(),
    decreases cells.len(),
{
    if cells.len() > 0 {
        lemma_counts_add_up(cells.drop_last());
    }
}

/// The two scores together count the squares that are not empty; on a board
/// of 64 squares neither exceeds 64.
pub proof fn lemma_scores_count_stones(cells: Seq<Cell>)
    requires
        cells.len() == 64,
    ensures
        stones(cells, Colour::Black) + stones(cells, Colour::White) == 64 - count_of(
            cells,
            Cell::Empty,
        ),
        stones(cells, Colour::Black) <= 64,
        stones(cells, Colour::White) <= 64,
        stones(cells, Colour::Black) + stones(cells, Colour::White) <= 64,
{
    lemma_counts_add_up(cells);
}

/// The evaluation changes sign with the perspective and lies within the
/// number of squares.
pub proof fn lemma_evaluation_bounds(cells: Seq<Cell>, perspective: Colour)
    requires
        cells.len() == 64,
    ensures
        -64 <= evaluation(cells, perspective) <= 64,
        evaluation(cells, perspective.spec_opponent()) == -evaluation(cells, perspective),
{
    lemma_counts_add_up(cells);
}

/// Where every place that holds `cell` in `a` holds it in `b` too, `b` holds
/// it at least as often; and more often where it also holds it at a place
/// `extra` at which `a` does not.
pub proof fn lemma_count_grows(a: Seq<Cell>, b: Seq<Cell>, cell: Cell, extra: int)
    requires
        a.len() == b.len(),
        forall|i: int| 0 <= i < a.len() && a[i] == cell ==> b[i] == cell,
    ensures
        count_of(a, cell) <= count_of(b, cell),
        0 <= extra < a.len() && a[extra] != cell && b[extra] == cell ==> count_of(a, cell)
            < count_of(b, cell),
    decreases a.len(),
{
    if a.len() > 0 {
        let a0 = a.drop_last();
        let b0 = b.drop_last();
        assert forall|i: int| 0 <= i < a0.len() && a0[i] == cell implies b0[i] == cell by {
            assert(a0[i] == a[i] && b0[i] == b[i]);
        }
        lemma_count_grows(a0, b0, cell, extra);
        if 0 <= extra < a0.len() {
            assert(a0[extra] == a[extra] && b0[extra] == b[extra]);
        }
    }
}

/// Where `a` and `b` hold `cell` at the same places but for one, at which
/// only `a` holds it, `a` holds it exactly once more.
pub proof fn lemma_count_one_less(a: Seq<Cell>, b: Seq<Cell>, cell: Cell, gone: int)
    requires
        a.len() == b.len(),
        0 <= gone < a.len(),
        a[gone] == cell,
        b[gone] != cell,
        forall|i: int| 0 <= i < a.len() && i != gone ==> (a[i] == cell <==> b[i] == cell),
    ensures
        count_of(b, cell) + 1 == count_of(a, cell),
    decreases a.len(),
{
    let a0 = a.drop_last();
    let b0 = b.drop_last();
    if gone == a.len() - 1 {
        assert forall|i: int| 0 <= i < a0.len() && a0[i] == cell implies b0[i] == cell by {
            assert(a0[i] == a[i] && b0[i] == b[i]);
        }
        assert forall|i: int| 0 <= i < b0.len() && b0[i] == cell implies a0[i] == cell by {
            assert(a0[i] == a[i] && b0[i] == b[i]);
        }
        lemma_count_grows(a0, b0, cell, 0);
        lemma_count_grows(b0, a0, cell, 0);
    } else {
        assert(a0[gone] == a[gone] && b0[gone] == b[gone]);
        assert forall|i: int| 0 <= i < a0.len() && i != gone implies (a0[i] == cell <==> b0[i]
            == cell) by {
            assert(a0[i] == a[i] && b0[i] == b[i]);
        }
        lemma_count_one_less(a0, b0, cell, gone);
    }
}

/// A captured stone is on the board and was the opponent's.
pub proof fn lemma_captured_was_opponents(
    cells: Seq<Cell>,
    colour: Colour,
    row: int,
    col: int,
    r2: int,
    c2: int,
)
    requires
        captures(cells, colour, row, col, r2, c2),
    ensures
        on_board(r2, c2),
        cell_at(cells, r2, c2) == Cell::spec_of(colour.spec_opponent()),
{
    let d = choose|d: int| 0 <= d < 8 && #[trigger] captures_along(cells, colour, row, col, d, r2, c2);
    let (n, k) = choose|n: int, k: int|
        #![trigger closes(cells, colour, row, col, d, n), ray_row(row, d, k)]
        closes(cells, colour, row, col, d, n) && 1 <= k <= n && r2 == ray_row(row, d, k) && c2
            == ray_col(col, d, k);
    assert(ray_holds(cells, row, col, d, k, Cell::spec_of(colour.spec_opponent())));
}

/// What a legal move does to the counts: one empty square less, at least
/// one stone less for the opponent, and at least two stones more for the
/// mover.
pub proof fn lemma_legal_move_counts(cells: Seq<Cell>, m: Move)
    requires
        cells.len() == 64,
        m.legal_on(cells),
    ensures
        count_of(cells_after(cells, m), Cell::Empty) + 1 == count_of(cells, Cell::Empty),
        stones(cells_after(cells, m), m.player.spec_opponent()) < stones(
            cells,
            m.player.spec_opponent(),
        ),
        stones(cells_after(cells, m), m.player) >= stones(cells, m.player) + 2,
        stones(cells_after(cells, m), Colour::Black) + stones(cells_after(cells, m), Colour::White)
            == stones(cells, Colour::Black) + stones(cells, Colour::White) + 1,
{
    let after = cells_after(cells, m);
    let ours = Cell::spec_of(m.player);
    let theirs = Cell::spec_of(m.player.spec_opponent());
    let (row, col) = (m.row as int, m.col as int);
    lemma_legal_square_is_empty(cells, m.player, row, col);
    assert forall|i: int| 0 <= i < 64 && captures(cells, m.player, row, col, i / 8, i % 8) implies cells[i]
        == theirs by {
        lemma_captured_was_opponents(cells, m.player, row, col, i / 8, i % 8);
    }
    lemma_count_one_less(cells, after, Cell::Empty, m.index());
    let (r2, c2) = choose|r2: int, c2: int| #[trigger] captures(cells, m.player, row, col, r2, c2);
    lemma_captured_was_opponents(cells, m.player, row, col, r2, c2);
    let taken = r2 * 8 + c2;
    assert(taken / 8 == r2 && taken % 8 == c2);
    assert(after[taken] == ours);
    lemma_count_grows(after, cells, theirs, taken);
    lemma_counts_add_up(cells);
    lemma_counts_add_up(after);
}

/// A position is nothing beyond its cells and the colour to move: two
/// positions with the same model are the same.
pub proof fn lemma_same_model_same_state(a: GameState, b: GameState)
    requires
        a@ == b@,
    ensures
        a == b,
{
    assert(a.board.cells@ == b.board.cells@);
    assert(a.board.cells =~= b.board.cells);
}

impl Board {
    /// How many squares hold `cell`.
    pub fn count(&self, cell: Cell) -> (n: Score)
        ensures
            n == count_of(self@, cell),
            n <= 64,
    {
        let mut n: Score = 0;
        let mut i: usize = 0;
        assert(self@.take(0) =~= Seq::<Cell>::empty());
        while i < 64
            invariant
                i <= 64,
                n <= i,
                n == count_of(self@.take(i as int), cell),
            decreases 64 - i,
        {
            assert(self@.take(i + 1).drop_last() =~= self@.take(i as int));
            if self.cells[i] == cell {
                n = n + 1;
            }
            i = i + 1;
        }
        assert(self@.take(64) =~= self@);
        n
    }

    /// The stones of Black and of White, in that order.
    pub fn scores(&self) -> (score: (Score, Score))
        ensures
            score.0 == stones(self@, Colour::Black),
            score.1 == stones(self@, Colour::White),
            score.0 + score.1 == 64 - count_of(self@, Cell::Empty),
            score.0 <= 64,
            score.1 <= 64,
            score.0 + score.1 <= 64,
    {
        proof {
            lemma_scores_count_stones(self@);
        }
        (self.count(Cell::Black), self.count(Cell::White))
    }

    /// The static evaluation for `perspective`: its stones minus the stones
    /// of its opponent.
    pub fn evaluate(&self, perspective: Colour) -> (value: i32)
        ensures
            value == evaluation(self@, perspective),
            -64 <= value <= 64,
    {
        let ours = self.count(Cell::of(perspective));
        let theirs = self.count(Cell::of(perspective.opponent()));
        ours as i32 - theirs as i32
    }
}

/// A position of the game.
#[derive(Clone, Copy, PartialEq, Eq, Debug, Hash)]
pub struct GameState {
    pub board: Board,
    pub next_turn: Colour,
}

impl View for GameState {
    type V = Position;

    open spec fn view(&self) -> Position {
        Position { cells: self.board@, next_turn: self.next_turn }
    }
}

impl GameState {
    /// The starting position: the four centre stones, Black to move.
    pub fn new() -> (state: GameState)
        ensures
            state@.cells == initial_cells(),
            state@.next_turn == Colour::Black,
    {
        GameState { board: Board::initial(), next_turn: Colour::Black }
    }

    /// The legal moves of `colour` on this position's board, in row-major
    /// order.
    pub fn valid_moves(&self, colour: Colour) -> (moves: Vec<Move>)
        ensures
            moves@ == legal_moves(self@.cells, colour),
    {
        self.board.valid_moves(colour)
    }

    /// The position after `m`: the mover's stone placed, the captured stones
    /// turned over, the mover's opponent to move. The move is not checked
    /// for legality; this position stays as it is.
    pub fn apply(&self, m: Move) -> (next: GameState)
        requires
            m.on_board(),
        ensures
            next@ == position_after(self@, m),
    {
        let squares = self.board.lines_to_capture(m.player, m.row, m.col);
        let board = self.board.place(m.row, m.col, m.player).with_flips(&squares, m.player);
        assert(board@ =~= cells_after(self@.cells, m));
        GameState { board, next_turn: m.player.opponent() }
    }

    /// The position after a pass: the same board, the other colour to move.
    pub fn pass(&self) -> (next: GameState)
        ensures
            next@ == position_passed(self@),
    {
        GameState { board: self.board, next_turn: self.next_turn.opponent() }
    }

    /// The stones of Black and of White, in that order.
    pub fn scores(&self) -> (score: (Score, Score))
        ensures
            score.0 == stones(self@.cells, Colour::Black),
            score.1 == stones(self@.cells, Colour::White),
            score.0 + score.1 == 64 - count_of(self@.cells, Cell::Empty),
            score.0 <= 64,
            score.1 <= 64,
            score.0 + score.1 <= 64,
    {
        self.board.scores()
    }

    /// Whether the game is over: neither colour has a legal move.
    pub fn is_over(&self) -> (over: bool)
        ensures
            over == game_over(self@.cells),
    {
        !self.board.has_moves(self.next_turn) && !self.board.has_moves(self.next_turn.opponent())
    }
}

} // verus!
