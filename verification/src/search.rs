//! Depth-limited minimax with alpha-beta pruning.
//!
//! The value of a position is defined by plain minimax over the legal moves;
//! the search computes it with pruning. Inside the window `(alpha, beta)` the
//! search returns the minimax value itself; outside it returns a bound that
//! lies on the same side as the minimax value.

use vstd::prelude::*;
use crate::board::Colour;
use crate::game::{evaluation, game_over, position_after, position_passed, GameState, Position};
use crate::moves::{legal_moves, Move};

verus! {

/// The greatest of `values`, which must not be empty.
pub open spec fn highest(values: Seq<int>) -> int
    decreases values.len(),
{
    if values.len() <= 1 {
        values[0]
    } else {
        let before = highest(values.drop_last());
        if values.last() > before {
            values.last()
        } else {
            before
        }
    }
}

/// The least of `values`, which must not be empty.
pub open spec fn lowest(values: Seq<int>) -> int
    decreases values.len(),
{
    if values.len() <= 1 {
        values[0]
    } else {
        let before = lowest(values.drop_last());
        if values.last() < before {
            values.last()
        } else {
            before
        }
    }
}

/// The minimax value of `p` for `root`, searched `depth` plies deep.
///
/// At depth 0 and when the game is over it is the static evaluation. A
/// colour without a legal move passes, which uses up one ply. Otherwise it is
/// the greatest value among the positions after each legal move where `root`
/// is to move, and the least where its opponent is.
pub open spec fn minimax_value(p: Position, depth: nat, root: Colour) -> int
    decreases depth, 0nat,
{
    if depth == 0 || game_over(p.cells) {
        evaluation(p.cells, root)
    } else if legal_moves(p.cells, p.next_turn).len() == 0 {
        minimax_value(position_passed(p), (depth - 1) as nat, root)
    } else if p.next_turn == root {
        highest(child_values(p, (depth - 1) as nat, root))
    } else {
        lowest(child_values(p, (depth - 1) as nat, root))
    }
}

/// The minimax values, `depth` plies deep, of the positions after each legal
/// move of the colour to move in `p`, in the order of the moves.
pub open spec fn child_values(p: Position, depth: nat, root: Colour) -> Seq<int>
    decreases depth, 1nat,
{
    Seq::new(
        legal_moves(p.cells, p.next_turn).len(),
        |j: int| minimax_value(position_after(p, legal_moves(p.cells, p.next_turn)[j]), depth, root),
    )
}

/// What a search with window `(alpha, beta)` may return for a position whose
/// minimax value is `exact`: the value itself if it returns something inside
/// the window, and otherwise a bound with `exact` beyond it.
pub open spec fn agrees_in_window(found: int, exact: int, alpha: int, beta: int) -> bool {
    &&& found <= alpha ==> exact <= found
    &&& found >= beta ==> exact >= found
    &&& alpha < found < beta ==> exact == found
}

/// The greatest value is one of the values, and none is greater.
pub proof fn lemma_highest(values: Seq<int>)
    requires
        values.len() > 0,
    ensures
        values.contains(highest(values)),
        forall|j: int| 0 <= j < values.len() ==> values[j] <= highest(values),
    decreases values.len(),
{
    if values.len() > 1 {
        let front = values.drop_last();
        lemma_highest(front);
        let j = choose|j: int| 0 <= j < front.len() && front[j] == highest(front);
        assert(values[j] == front[j]);
        assert(values[values.len() - 1] == values.last());
        assert forall|j: int| 0 <= j < values.len() implies values[j] <= highest(values) by {
            if j < front.len() {
                assert(values[j] == front[j]);
            }
        }
    } else {
        assert(values[0] == highest(values));
    }
}

/// The least value is one of the values, and none is less.
pub proof fn lemma_lowest(values: Seq<int>)
    requires
        values.len() > 0,
    ensures
        values.contains(lowest(values)),
        forall|j: int| 0 <= j < values.len() ==> values[j] >= lowest(values),
    decreases values.len(),
{
    if values.len() > 1 {
        let front = values.drop_last();
        lemma_lowest(front);
        let j = choose|j: int| 0 <= j < front.len() && front[j] == lowest(front);
        assert(values[j] == front[j]);
        assert(values[values.len() - 1] == values.last());
        assert forall|j: int| 0 <= j < values.len() implies values[j] >= lowest(values) by {
            if j < front.len() {
                assert(values[j] == front[j]);
            }
        }
    } else {
        assert(values[0] == lowest(values));
    }
}

/// The greatest of a front part of the values is not above the greatest of
/// all; the least of a front part is not below the least of all.
pub proof fn lemma_front_extremes(values: Seq<int>, n: int)
    requires
        1 <= n <= values.len(),
    ensures
        highest(values.take(n)) <= highest(values),
        lowest(values.take(n)) >= lowest(values),
{
    let front = values.take(n);
    lemma_highest(front);
    lemma_highest(values);
    lemma_lowest(front);
    lemma_lowest(values);
    let j = choose|j: int| 0 <= j < front.len() && front[j] == highest(front);
    assert(values[j] == front[j]);
    let i = choose|i: int| 0 <= i < front.len() && front[i] == lowest(front);
    assert(values[i] == front[i]);
}

/// One more value: the greatest and the least of the first `n + 1` values
/// from those of the first `n`.
pub proof fn lemma_extremes_step(values: Seq<int>, n: int)
    requires
        0 <= n < values.len(),
    ensures
        n == 0 ==> highest(values.take(1)) == values[0] && lowest(values.take(1)) == values[0],
        n > 0 ==> highest(values.take(n + 1)) == (if values[n] > highest(values.take(n)) {
            values[n]
        } else {
            highest(values.take(n))
        }),
        n > 0 ==> lowest(values.take(n + 1)) == (if values[n] < lowest(values.take(n)) {
            values[n]
        } else {
            lowest(values.take(n))
        }),
{
    assert(values.take(n + 1).drop_last() =~= values.take(n));
    assert(values.take(n + 1).last() == values[n]);
    assert(values.take(1)[0] == values[0]);
}

/// The minimax value lies within the number of squares.
pub proof fn lemma_minimax_bounds(p: Position, depth: nat, root: Colour)
    requires
        p.cells.len() == 64,
    ensures
        -64 <= minimax_value(p, depth, root) <= 64,
    decreases depth,
{
    crate::game::lemma_evaluation_bounds(p.cells, root);
    if depth == 0 || game_over(p.cells) {
    } else if legal_moves(p.cells, p.next_turn).len() == 0 {
        lemma_minimax_bounds(position_passed(p), (depth - 1) as nat, root);
    } else {
        let below = (depth - 1) as nat;
        let values = child_values(p, below, root);
        lemma_highest(values);
        lemma_lowest(values);
        let j = choose|j: int| 0 <= j < values.len() && values[j] == highest(values);
        lemma_minimax_bounds(position_after(p, legal_moves(p.cells, p.next_turn)[j]), below, root);
        let i = choose|i: int| 0 <= i < values.len() && values[i] == lowest(values);
        lemma_minimax_bounds(position_after(p, legal_moves(p.cells, p.next_turn)[i]), below, root);
    }
}

/// Alpha-beta search of `state`, `depth` plies deep, for `root`.
///
/// With `alpha < beta` the result agrees with the minimax value as
/// `agrees_in_window` says; with a window that holds every evaluation, from
/// below -64 to above 64, it is the minimax value.
pub fn minimax(state: &GameState, depth: usize, alpha: i32, beta: i32, root: Colour) -> (value: i32)
    ensures
        -64 <= value <= 64,
        alpha < beta ==> agrees_in_window(
            value as int,
            minimax_value(state@, depth as nat, root),
            alpha as int,
            beta as int,
        ),
        alpha < -64 && 64 < beta ==> value == minimax_value(state@, depth as nat, root),
    decreases depth,
{
    if depth == 0 {
        return state.board.evaluate(root);
    }
    let moves = state.valid_moves(state.next_turn);
    if moves.len() == 0 {
        if !state.board.has_moves(state.next_turn.opponent()) {
            return state.board.evaluate(root);
        }
        return minimax(&state.pass(), depth - 1, alpha, beta, root);
    }
    let ghost below = (depth - 1) as nat;
    let ghost values = child_values(state@, below, root);
    let mut j: usize = 0;
    if state.next_turn == root {
        let mut value: i32 = i32::MIN;
        let mut low: i32 = alpha;
        while j < moves.len() && (j == 0 || value < beta)
            invariant
                0 <= j <= moves@.len(),
                moves@.len() > 0,
                values.len() == moves@.len(),
                depth >= 1,
                below == depth - 1,
                moves@ == legal_moves(state@.cells, state@.next_turn),
                values == child_values(state@, below, root),
                j == 0 ==> value == i32::MIN,
                j > 0 ==> -64 <= value <= 64,
                low == (if value > alpha {
                    value
                } else {
                    alpha
                }),
                alpha < beta && j > 0 ==> agrees_in_window(
                    value as int,
                    highest(values.take(j as int)),
                    alpha as int,
                    beta as int,
                ),
            decreases moves@.len() - j,
        {
            let child = state.apply_listed(&moves, j);
            let found = minimax(&child, depth - 1, low, beta, root);
            proof {
                lemma_extremes_step(values, j as int);
            }
            if found > value {
                value = found;
            }
            if value > low {
                low = value;
            }
            j = j + 1;
        }
        proof {
            lemma_front_extremes(values, j as int);
            assert(values.take(values.len() as int) =~= values);
        }
        value
    } else {
        let mut value: i32 = i32::MAX;
        let mut high: i32 = beta;
        while j < moves.len() && (j == 0 || value > alpha)
            invariant
                0 <= j <= moves@.len(),
                moves@.len() > 0,
                values.len() == moves@.len(),
                depth >= 1,
                below == depth - 1,
                moves@ == legal_moves(state@.cells, state@.next_turn),
                values == child_values(state@, below, root),
                j == 0 ==> value == i32::MAX,
                j > 0 ==> -64 <= value <= 64,
                high == (if value < beta {
                    value
                } else {
                    beta
                }),
                alpha < beta && j > 0 ==> agrees_in_window(
                    value as int,
                    lowest(values.take(j as int)),
                    alpha as int,
                    beta as int,
                ),
            decreases moves@.len() - j,
        {
            let child = state.apply_listed(&moves, j);
            let found = minimax(&child, depth - 1, alpha, high, root);
            proof {
                lemma_extremes_step(values, j as int);
            }
            if found < value {
                value = found;
            }
            if value < high {
                high = value;
            }
            j = j + 1;
        }
        proof {
            lemma_front_extremes(values, j as int);
            assert(values.take(values.len() as int) =~= values);
        }
        value
    }
}

impl GameState {
    /// The position after the move at place `j` of `moves`, which are the
    /// legal moves of the colour to move.
    pub(crate) fn apply_listed(&self, moves: &Vec<Move>, j: usize) -> (next: GameState)
        requires
            moves@ == legal_moves(self@.cells, self@.next_turn),
            j < moves@.len(),
        ensures
            next@ == position_after(self@, moves@[j as int]),
            moves@[j as int].on_board(),
            moves@[j as int].legal_on(self@.cells),
            moves@[j as int].player == self@.next_turn,
    {
        proof {
            crate::moves::lemma_legal_moves_sound(self@.cells, self.next_turn, j as int);
        }
        self.apply(moves[j])
    }
}

} // verus!
