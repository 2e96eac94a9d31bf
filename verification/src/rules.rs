//! The capture scan: which stones a placement turns over, and from that
//! which placements are legal.
//!
//! A placement captures along a direction when the squares next to it in
//! that direction hold an unbroken run of one or more opposing stones and the
//! square after the run holds a stone of the mover. The placement is legal
//! when its square is empty and it captures along at least one direction.

use vstd::prelude::*;
use crate::board::{cell_at, on_board, Board, Cell, Colour, Pos};

verus! {

/// Row step of the direction numbered `d`. The eight directions are numbered
/// row by row: 0, 1, 2 go up, 3 and 4 stay in the row, 5, 6, 7 go down.
pub open spec fn dir_row(d: int) -> int {
    if d < 3 {
        -1
    } else if d < 5 {
        0
    } else {
        1
    }
}

/// Column step of the direction numbered `d`: 0, 3, 5 go left, 1 and 6 stay
/// in the column, 2, 4, 7 go right.
pub open spec fn dir_col(d: int) -> int {
    if d == 0 || d == 3 || d == 5 {
        -1
    } else if d == 1 || d == 6 {
        0
    } else {
        1
    }
}

/// The coordinate reached from `start` by `k` steps of `step`, where `step`
/// is -1, 0 or 1.
pub open spec fn shifted(start: int, step: int, k: int) -> int {
    if step < 0 {
        start - k
    } else if step > 0 {
        start + k
    } else {
        start
    }
}

/// Row of the square `k` steps from row `row` in direction `d`.
pub open spec fn ray_row(row: int, d: int, k: int) -> int {
    shifted(row, dir_row(d), k)
}

/// Column of the square `k` steps from column `col` in direction `d`.
pub open spec fn ray_col(col: int, d: int, k: int) -> int {
    shifted(col, dir_col(d), k)
}

/// The square `k` steps from `(row, col)` in direction `d` is on the board
/// and holds `cell`.
pub open spec fn ray_holds(cells: Seq<Cell>, row: int, col: int, d: int, k: int, cell: Cell) -> bool {
    &&& on_board(ray_row(row, d, k), ray_col(col, d, k))
    &&& cell_at(cells, ray_row(row, d, k), ray_col(col, d, k)) == cell
}

/// Seen from `(row, col)` in direction `d`, the next `n` squares hold stones
/// of the opponent of `colour` and the square after them a stone of `colour`.
pub open spec fn closes(cells: Seq<Cell>, colour: Colour, row: int, col: int, d: int, n: int) -> bool {
    &&& n >= 1
    &&& forall|k: int|
        1 <= k <= n ==> #[trigger] ray_holds(
            cells,
            row,
            col,
            d,
            k,
            Cell::spec_of(colour.spec_opponent()),
        )
    &&& ray_holds(cells, row, col, d, n + 1, Cell::spec_of(colour))
}

/// A stone of `colour` on `(row, col)` captures the stone on `(r2, c2)` along
/// direction `d`: the square lies in a closed run that starts next to
/// `(row, col)`.
pub open spec fn captures_along(
    cells: Seq<Cell>,
    colour: Colour,
    row: int,
    col: int,
    d: int,
    r2: int,
    c2: int,
) -> bool {
    exists|n: int, k: int|
        #![trigger closes(cells, colour, row, col, d, n), ray_row(row, d, k)]
        closes(cells, colour, row, col, d, n) && 1 <= k <= n && r2 == ray_row(row, d, k) && c2
            == ray_col(col, d, k)
}

/// A stone of `colour` placed on `(row, col)` captures the stone on
/// `(r2, c2)`. Nothing is captured from a square that is off the board or not
/// empty.
pub open spec fn captures(cells: Seq<Cell>, colour: Colour, row: int, col: int, r2: int, c2: int) -> bool {
    &&& on_board(row, col)
    &&& cell_at(cells, row, col) == Cell::Empty
    &&& exists|d: int| 0 <= d < 8 && #[trigger] captures_along(cells, colour, row, col, d, r2, c2)
}

/// `colour` may place a stone on `(row, col)`: the placement captures at
/// least one stone.
pub open spec fn is_legal(cells: Seq<Cell>, colour: Colour, row: int, col: int) -> bool {
    exists|r2: int, c2: int| #[trigger] captures(cells, colour, row, col, r2, c2)
}

/// `squares` names the square `(row, col)`.
pub open spec fn lists(squares: Seq<(Pos, Pos)>, row: int, col: int) -> bool {
    exists|j: int| 0 <= j < squares.len() && (#[trigger] squares[j]).0 == row && squares[j].1 == col
}

/// Every entry of `squares` is a square of the board.
pub open spec fn all_on_board(squares: Seq<(Pos, Pos)>) -> bool {
    forall|j: int| 0 <= j < squares.len() ==> on_board((#[trigger] squares[j]).0 as int, squares[j].1 as int)
}

/// A stone of `colour` on `(row, col)` captures the stone on `(r2, c2)` along
/// one of the directions numbered below `d`.
pub open spec fn captures_before(
    cells: Seq<Cell>,
    colour: Colour,
    row: int,
    col: int,
    d: int,
    r2: int,
    c2: int,
) -> bool {
    exists|e: int| 0 <= e < d && #[trigger] captures_along(cells, colour, row, col, e, r2, c2)
}

/// The cells after the stones on `squares` have been given to `colour`.
/// Entries of `squares` that are off the board change nothing.
pub open spec fn flipped(cells: Seq<Cell>, squares: Seq<(Pos, Pos)>, colour: Colour) -> Seq<Cell> {
    Seq::new(
        64,
        |i: int|
            if lists(squares, i / 8, i % 8) {
                Cell::spec_of(colour)
            } else {
                cells[i]
            },
    )
}

/// A placement is legal exactly when its square is an empty square of the
/// board and some direction has a closed run of opposing stones.
pub proof fn lemma_legal_has_closed_run(cells: Seq<Cell>, colour: Colour, row: int, col: int)
    ensures
        is_legal(cells, colour, row, col) <==> on_board(row, col) && cell_at(cells, row, col)
            == Cell::Empty && exists|d: int, n: int|
            0 <= d < 8 && #[trigger] closes(cells, colour, row, col, d, n),
{
    if is_legal(cells, colour, row, col) {
        let (r2, c2) = choose|r2: int, c2: int| #[trigger] captures(cells, colour, row, col, r2, c2);
        let d = choose|d: int|
            0 <= d < 8 && #[trigger] captures_along(cells, colour, row, col, d, r2, c2);
        let (n, k) = choose|n: int, k: int|
            #![trigger closes(cells, colour, row, col, d, n), ray_row(row, d, k)]
            closes(cells, colour, row, col, d, n) && 1 <= k <= n && r2 == ray_row(row, d, k) && c2
                == ray_col(col, d, k);
        assert(0 <= d < 8 && closes(cells, colour, row, col, d, n));
    }
    if on_board(row, col) && cell_at(cells, row, col) == Cell::Empty && exists|d: int, n: int|
        0 <= d < 8 && #[trigger] closes(cells, colour, row, col, d, n) {
        let (d, n) = choose|d: int, n: int|
            0 <= d < 8 && #[trigger] closes(cells, colour, row, col, d, n);
        let r2 = ray_row(row, d, 1);
        let c2 = ray_col(col, d, 1);
        assert(captures_along(cells, colour, row, col, d, r2, c2));
        assert(captures(cells, colour, row, col, r2, c2));
    }
}

/// Two walks from one square that end on the same square took the same
/// direction and the same number of steps.
pub proof fn lemma_rays_part(row: int, col: int, d1: int, k1: int, d2: int, k2: int)
    requires
        0 <= d1 < 8,
        0 <= d2 < 8,
        k1 >= 1,
        k2 >= 1,
        ray_row(row, d1, k1) == ray_row(row, d2, k2),
        ray_col(col, d1, k1) == ray_col(col, d2, k2),
    ensures
        d1 == d2,
        k1 == k2,
{
}

/// A list made of two lists names a square exactly when one of the two does.
pub proof fn lemma_lists_concat(a: Seq<(Pos, Pos)>, b: Seq<(Pos, Pos)>, row: int, col: int)
    ensures
        lists(a + b, row, col) <==> lists(a, row, col) || lists(b, row, col),
{
    let ab = a + b;
    if lists(a, row, col) {
        let j = choose|j: int| 0 <= j < a.len() && (#[trigger] a[j]).0 == row && a[j].1 == col;
        assert(ab[j] == a[j]);
    }
    if lists(b, row, col) {
        let j = choose|j: int| 0 <= j < b.len() && (#[trigger] b[j]).0 == row && b[j].1 == col;
        assert(ab[a.len() + j] == b[j]);
    }
    if lists(ab, row, col) {
        let j = choose|j: int| 0 <= j < ab.len() && (#[trigger] ab[j]).0 == row && ab[j].1 == col;
        if j < a.len() {
            assert(a[j] == ab[j]);
        } else {
            assert(b[j - a.len()] == ab[j]);
        }
    }
}

/// The steps `(row step, column step)` of direction `d`.
pub fn direction(d: usize) -> (step: (Pos, Pos))
    requires
        d < 8,
    ensures
        step.0 == dir_row(d as int),
        step.1 == dir_col(d as int),
{
    let dr: Pos = if d < 3 {
        -1
    } else if d < 5 {
        0
    } else {
        1
    };
    let dc: Pos = if d == 0 || d == 3 || d == 5 {
        -1
    } else if d == 1 || d == 6 {
        0
    } else {
        1
    };
    (dr, dc)
}

impl Board {
    /// Whether `(row, col)` is a square of the board that holds `cell`.
    pub fn holds(&self, row: Pos, col: Pos, cell: Cell) -> (yes: bool)
        ensures
            yes == (on_board(row as int, col as int) && cell_at(self@, row as int, col as int)
                == cell),
    {
        if 0 <= row && row < 8 && 0 <= col && col < 8 {
            self.get(row, col) == cell
        } else {
            false
        }
    }

    /// The stones that a stone of `colour` on `(row, col)` captures along
    /// direction `d`, nearest first. The result is empty where the run of
    /// opposing stones is not closed by a stone of `colour`.
    pub fn line_to_capture(&self, colour: Colour, row: Pos, col: Pos, d: usize) -> (run: Vec<(Pos, Pos)>)
        requires
            on_board(row as int, col as int),
            d < 8,
        ensures
            forall|r2: int, c2: int|
                lists(run@, r2, c2) <==> captures_along(
                    self@,
                    colour,
                    row as int,
                    col as int,
                    d as int,
                    r2,
                    c2,
                ),
            forall|j: int|
                0 <= j < run@.len() ==> (#[trigger] run@[j]).0 == ray_row(row as int, d as int, j + 1)
                    && run@[j].1 == ray_col(col as int, d as int, j + 1),
            run@.len() <= 6,
            run@.len() > 0 ==> closes(self@, colour, row as int, col as int, d as int, run@.len() as int),
    {
        let step = direction(d);
        let dr: Pos = step.0;
        let dc: Pos = step.1;
        let theirs = Cell::of(colour.opponent());
        let ours = Cell::of(colour);
        let mut run: Vec<(Pos, Pos)> = Vec::new();
        let mut r: Pos = row + dr;
        let mut c: Pos = col + dc;
        let mut k: usize = 1;
        while self.holds(r, c, theirs)
            invariant
                on_board(row as int, col as int),
                d < 8,
                dr == dir_row(d as int),
                dc == dir_col(d as int),
                theirs == Cell::spec_of(colour.spec_opponent()),
                1 <= k <= 8,
                r == ray_row(row as int, d as int, k as int),
                c == ray_col(col as int, d as int, k as int),
                forall|j: int|
                    1 <= j < k ==> #[trigger] ray_holds(self@, row as int, col as int, d as int, j, theirs),
                run@.len() == k - 1,
                forall|j: int|
                    0 <= j < run@.len() ==> (#[trigger] run@[j]).0 == ray_row(row as int, d as int, j + 1)
                        && run@[j].1 == ray_col(col as int, d as int, j + 1),
            decreases 8 - k,
        {
            run.push((r, c));
            r = r + dr;
            c = c + dc;
            k = k + 1;
        }
        let ghost cells = self@;
        let ghost (row_i, col_i, d_i) = (row as int, col as int, d as int);
        assert(!ray_holds(cells, row_i, col_i, d_i, k as int, theirs));
        // No run of another length than k - 1 can be closed.
        assert forall|n: int| #[trigger] closes(cells, colour, row_i, col_i, d_i, n) implies n == k
            - 1 by {
            if n >= k {
                assert(ray_holds(cells, row_i, col_i, d_i, k as int, theirs));
            } else if n + 1 < k {
                assert(ray_holds(cells, row_i, col_i, d_i, n + 1, theirs));
            }
        }
        if k >= 2 && self.holds(r, c, ours) {
            assert(closes(cells, colour, row_i, col_i, d_i, k - 1));
            assert forall|r2: int, c2: int| lists(run@, r2, c2) <==> captures_along(
                cells,
                colour,
                row_i,
                col_i,
                d_i,
                r2,
                c2,
            ) by {
                if lists(run@, r2, c2) {
                    let j = choose|j: int|
                        0 <= j < run@.len() && (#[trigger] run@[j]).0 == r2 && run@[j].1 == c2;
                    assert(r2 == ray_row(row_i, d_i, j + 1));
                }
                if captures_along(cells, colour, row_i, col_i, d_i, r2, c2) {
                    let (n, j) = choose|n: int, j: int|
                        #![trigger closes(cells, colour, row_i, col_i, d_i, n), ray_row(row_i, d_i, j)]
                        closes(cells, colour, row_i, col_i, d_i, n) && 1 <= j <= n && r2 == ray_row(
                            row_i,
                            d_i,
                            j,
                        ) && c2 == ray_col(col_i, d_i, j);
                    assert(run@[j - 1].0 == r2 && run@[j - 1].1 == c2);
                }
            }
            run
        } else {
            let none: Vec<(Pos, Pos)> = Vec::new();
            assert forall|r2: int, c2: int| !captures_along(
                cells,
                colour,
                row_i,
                col_i,
                d_i,
                r2,
                c2,
            ) by {
                if captures_along(cells, colour, row_i, col_i, d_i, r2, c2) {
                    let (n, j) = choose|n: int, j: int|
                        #![trigger closes(cells, colour, row_i, col_i, d_i, n), ray_row(row_i, d_i, j)]
                        closes(cells, colour, row_i, col_i, d_i, n) && 1 <= j <= n && r2 == ray_row(
                            row_i,
                            d_i,
                            j,
                        ) && c2 == ray_col(col_i, d_i, j);
                    assert(ray_holds(cells, row_i, col_i, d_i, n + 1, ours));
                }
            }
            none
        }
    }
    /// All the stones that a stone of `colour` placed on `(row, col)`
    /// captures, each named once. The result is empty where the square is
    /// off the board or not empty, and where no direction has a closed run.
    pub fn lines_to_capture(&self, colour: Colour, row: Pos, col: Pos) -> (squares: Vec<(Pos, Pos)>)
        ensures
            forall|r2: int, c2: int|
                lists(squares@, r2, c2) <==> captures(self@, colour, row as int, col as int, r2, c2),
            squares@.no_duplicates(),
            all_on_board(squares@),
    {
        let mut out: Vec<(Pos, Pos)> = Vec::new();
        if !self.holds(row, col, Cell::Empty) {
            return out;
        }
        let ghost cells = self@;
        let ghost (row_i, col_i) = (row as int, col as int);
        let mut d: usize = 0;
        while d < 8
            invariant
                d <= 8,
                cells == self@,
                row_i == row as int,
                col_i == col as int,
                on_board(row_i, col_i),
                cell_at(cells, row_i, col_i) == Cell::Empty,
                forall|r2: int, c2: int|
                    lists(out@, r2, c2) <==> captures_before(cells, colour, row_i, col_i, d as int, r2, c2),
                out@.no_duplicates(),
                all_on_board(out@),
            decreases 8 - d,
        {
            let mut run = self.line_to_capture(colour, row, col, d);
            let ghost before = out@;
            let ghost added = run@;
            out.append(&mut run);
            proof {
                let d_i = d as int;
                assert(out@ == before + added);
                assert forall|r2: int, c2: int| lists(out@, r2, c2) <==> captures_before(
                    cells,
                    colour,
                    row_i,
                    col_i,
                    d_i + 1,
                    r2,
                    c2,
                ) by {
                    lemma_lists_concat(before, added, r2, c2);
                    if captures_before(cells, colour, row_i, col_i, d_i + 1, r2, c2) {
                        let e = choose|e: int|
                            0 <= e < d_i + 1 && #[trigger] captures_along(
                                cells,
                                colour,
                                row_i,
                                col_i,
                                e,
                                r2,
                                c2,
                            );
                        if e < d_i {
                            assert(captures_before(cells, colour, row_i, col_i, d_i, r2, c2));
                        }
                    }
                    if lists(added, r2, c2) {
                        assert(captures_along(cells, colour, row_i, col_i, d_i, r2, c2));
                    }
                }
                assert forall|j: int| 0 <= j < added.len() implies on_board(
                    (#[trigger] added[j]).0 as int,
                    added[j].1 as int,
                ) by {
                    assert(ray_holds(
                        cells,
                        row_i,
                        col_i,
                        d_i,
                        j + 1,
                        Cell::spec_of(colour.spec_opponent()),
                    ));
                }
                assert forall|i: int, j: int|
                    0 <= i < added.len() && 0 <= j < added.len() && i != j implies added[i]
                    != added[j] by {
                    if added[i] == added[j] {
                        lemma_rays_part(row_i, col_i, d_i, i + 1, d_i, j + 1);
                    }
                }
                assert forall|i: int, j: int|
                    0 <= i < before.len() && 0 <= j < added.len() implies before[i] != added[j] by {
                    if before[i] == added[j] {
                        let r2 = before[i].0 as int;
                        let c2 = before[i].1 as int;
                        assert(lists(before, r2, c2));
                        let e = choose|e: int|
                            0 <= e < d_i && #[trigger] captures_along(
                                cells,
                                colour,
                                row_i,
                                col_i,
                                e,
                                r2,
                                c2,
                            );
                        let (n, k) = choose|n: int, k: int|
                            #![trigger closes(cells, colour, row_i, col_i, e, n), ray_row(row_i, e, k)]
                            closes(cells, colour, row_i, col_i, e, n) && 1 <= k <= n && r2
                                == ray_row(row_i, e, k) && c2 == ray_col(col_i, e, k);
                        lemma_rays_part(row_i, col_i, e, k, d_i, j + 1);
                    }
                }
                vstd::seq_lib::lemma_no_dup_in_concat(before, added);
            }
            d = d + 1;
        }
        out
    }

    /// Whether `colour` may place a stone on `(row, col)`.
    pub fn is_legal(&self, colour: Colour, row: Pos, col: Pos) -> (legal: bool)
        ensures
            legal == is_legal(self@, colour, row as int, col as int),
    {
        let squares = self.lines_to_capture(colour, row, col);
        proof {
            let cells = self@;
            if squares@.len() > 0 {
                let first = squares@[0];
                assert(lists(squares@, first.0 as int, first.1 as int));
                assert(captures(cells, colour, row as int, col as int, first.0 as int, first.1 as int));
            }
            if is_legal(cells, colour, row as int, col as int) {
                let (r2, c2) = choose|r2: int, c2: int| #[trigger]
                    captures(cells, colour, row as int, col as int, r2, c2);
                assert(lists(squares@, r2, c2));
            }
        }
        squares.len() > 0
    }

    /// The board on which every stone on `squares` belongs to `colour`, and
    /// every other square is as it is here.
    pub fn with_flips(&self, squares: &Vec<(Pos, Pos)>, colour: Colour) -> (board: Board)
        ensures
            board@ == flipped(self@, squares@, colour),
    {
        let mut cells = self.cells;
        let ours = Cell::of(colour);
        let mut j: usize = 0;
        assert(cells@ =~= flipped(self@, squares@.take(0), colour));
        while j < squares.len()
            invariant
                j <= squares@.len(),
                ours == Cell::spec_of(colour),
                cells@ == flipped(self@, squares@.take(j as int), colour),
            decreases squares@.len() - j,
        {
            let square = squares[j];
            let ghost done = squares@.take(j as int);
            let ghost next = squares@.take(j + 1);
            if 0 <= square.0 && square.0 < 8 && 0 <= square.1 && square.1 < 8 {
                let i: usize = (square.0 as usize) * 8 + (square.1 as usize);
                cells[i] = ours;
            }
            proof {
                assert(next =~= done + seq![square]);
                assert(seq![square][0] == square);
                assert forall|i: int| 0 <= i < 64 implies #[trigger] cells@[i] == flipped(
                    self@,
                    next,
                    colour,
                )[i] by {
                    lemma_lists_concat(done, seq![square], i / 8, i % 8);
                }
                assert(cells@ =~= flipped(self@, next, colour));
            }
            j = j + 1;
        }
        assert(squares@.take(squares@.len() as int) =~= squares@);
        Board { cells }
    }
}

} // verus!
