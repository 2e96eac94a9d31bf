//! The two ways of choosing a move: at random, and by alpha-beta search.

use vstd::prelude::*;
use crate::board::Colour;
use crate::game::{evaluation, position_after, GameState, Position};
use crate::moves::{can_move, legal_moves, lemma_legal_moves_sound, Move};
use crate::search::{child_values, minimax, minimax_value};

verus! {

/// `k` is the first place in `values` that holds their greatest value.
pub open spec fn first_best(values: Seq<int>, k: int) -> bool {
    &&& 0 <= k < values.len()
    &&& forall|j: int| 0 <= j < values.len() ==> values[j] <= values[k]
    &&& forall|j: int| 0 <= j < k ==> values[j] < values[k]
}

/// `m` is the move that a search of `max_depth` plies chooses in `p`: among
/// the legal moves of the colour to move, the first in row-major order after
/// which the minimax value for that colour, `max_depth - 1` plies deep, is
/// greatest.
pub open spec fn is_best_move(p: Position, max_depth: nat, m: Move) -> bool {
    exists|k: int| #[trigger]
        first_best(child_values(p, (max_depth - 1) as nat, p.next_turn), k) && legal_moves(
            p.cells,
            p.next_turn,
        )[k] == m
}

/// The best move is a legal move of the colour to move.
pub proof fn lemma_best_move_is_legal(p: Position, max_depth: nat, m: Move)
    requires
        is_best_move(p, max_depth, m),
    ensures
        legal_moves(p.cells, p.next_turn).contains(m),
        m.player == p.next_turn,
        m.on_board(),
        m.legal_on(p.cells),
{
    let values = child_values(p, (max_depth - 1) as nat, p.next_turn);
    let k = choose|k: int| #[trigger]
        first_best(values, k) && legal_moves(p.cells, p.next_turn)[k] == m;
    lemma_legal_moves_sound(p.cells, p.next_turn, k);
}

/// There is one best move at most: ties go to the move that comes first.
pub proof fn lemma_best_move_unique(p: Position, max_depth: nat, m1: Move, m2: Move)
    requires
        is_best_move(p, max_depth, m1),
        is_best_move(p, max_depth, m2),
    ensures
        m1 == m2,
{
    let values = child_values(p, (max_depth - 1) as nat, p.next_turn);
    let moves = legal_moves(p.cells, p.next_turn);
    let k1 = choose|k: int| #[trigger] first_best(values, k) && moves[k] == m1;
    let k2 = choose|k: int| #[trigger] first_best(values, k) && moves[k] == m2;
    if k1 < k2 {
        assert(values[k2] <= values[k1]);
        assert(values[k1] < values[k2]);
    }
    if k2 < k1 {
        assert(values[k1] <= values[k2]);
        assert(values[k2] < values[k1]);
    }
}

/// A search of one ply chooses a move that no other legal move beats in the
/// evaluation of the board it leads to.
pub proof fn lemma_one_ply_not_dominated(p: Position, best: Move, other: Move)
    requires
        is_best_move(p, 1, best),
        legal_moves(p.cells, p.next_turn).contains(other),
    ensures
        evaluation(position_after(p, other).cells, p.next_turn) <= evaluation(
            position_after(p, best).cells,
            p.next_turn,
        ),
{
    let values = child_values(p, 0, p.next_turn);
    let moves = legal_moves(p.cells, p.next_turn);
    let k = choose|k: int| #[trigger] first_best(values, k) && moves[k] == best;
    let j = choose|j: int| 0 <= j < moves.len() && moves[j] == other;
    assert(values[j] == minimax_value(position_after(p, other), 0, p.next_turn));
    assert(values[k] == minimax_value(position_after(p, best), 0, p.next_turn));
}

/// Chooses by alpha-beta search, `max_depth` plies deep.
#[derive(Clone, Copy, PartialEq, Eq, Debug)]
pub struct AlphaBetaAI {
    pub max_depth: usize,
}

impl AlphaBetaAI {
    /// The best move for the colour to move, or `None` where that colour has
    /// no legal move. The depth must be at least one ply.
    pub fn choose_move(&self, state: &GameState) -> (choice: Option<Move>)
        requires
            self.max_depth >= 1,
        ensures
            (match choice {
                None => !can_move(state@.cells, state@.next_turn),
                Some(m) => is_best_move(state@, self.max_depth as nat, m),
            }),
    {
        let moves = state.valid_moves(state.next_turn);
        if moves.len() == 0 {
            return None;
        }
        let root: Colour = state.next_turn;
        let depth: usize = self.max_depth - 1;
        let ghost values = child_values(state@, depth as nat, root);
        let first = state.apply_listed(&moves, 0);
        let mut best: usize = 0;
        let mut best_value: i32 = minimax(&first, depth, i32::MIN, i32::MAX, root);
        let mut j: usize = 1;
        while j < moves.len()
            invariant
                1 <= j <= moves@.len(),
                moves@ == legal_moves(state@.cells, state@.next_turn),
                root == state@.next_turn,
                values == child_values(state@, depth as nat, root),
                values.len() == moves@.len(),
                0 <= best < j,
                best_value == values[best as int],
                forall|i: int| 0 <= i < j ==> values[i] <= values[best as int],
                forall|i: int| 0 <= i < best ==> values[i] < values[best as int],
            decreases moves@.len() - j,
        {
            let child = state.apply_listed(&moves, j);
            let value = minimax(&child, depth, i32::MIN, i32::MAX, root);
            if value > best_value {
                best = j;
                best_value = value;
            }
            j = j + 1;
        }
        proof {
            let p = state@;
            assert(depth as nat == (self.max_depth as nat - 1) as nat);
            assert(first_best(child_values(p, (self.max_depth as nat - 1) as nat, p.next_turn), best as int));
            assert(legal_moves(p.cells, p.next_turn)[best as int] == moves@[best as int]);
        }
        Some(moves[best])
    }
}

/// A number below `n`, drawn by `rand::Rng::gen_range` over `0..n` from the
/// generator that `rand::thread_rng` gives. The draw is uniform; the contract
/// states only that the number lies in the range, which holds of every draw.
/// An empty range is excluded: the outside function panics on it.
#[verifier::external_body]
fn random_below(n: usize) -> (i: usize)
    requires
        n > 0,
    ensures
        i < n,
{
    rand::Rng::gen_range(&mut rand::thread_rng(), 0..n)
}

/// The move at place `index` of `moves`, if there is one.
pub fn pick_move(moves: &Vec<Move>, index: usize) -> (choice: Option<Move>)
    ensures
        index < moves@.len() ==> choice == Some(moves@[index as int]),
        index >= moves@.len() ==> choice is None,
{
    if index < moves.len() {
        Some(moves[index])
    } else {
        None
    }
}

/// Chooses among the legal moves at random, each with the same chance.
#[derive(Clone, Copy, PartialEq, Eq, Debug)]
pub struct RandomAI {}

impl RandomAI {
    /// One of the legal moves of the colour to move, or `None` where that
    /// colour has no legal move.
    pub fn choose_move(&self, state: &GameState) -> (choice: Option<Move>)
        ensures
            (match choice {
                None => !can_move(state@.cells, state@.next_turn),
                Some(m) => legal_moves(state@.cells, state@.next_turn).contains(m),
            }),
    {
        let moves = state.valid_moves(state.next_turn);
        if moves.len() == 0 {
            return None;
        }
        let index = random_below(moves.len());
        pick_move(&moves, index)
    }
}

/// The way in which a move is chosen: one of the two above.
#[derive(Clone, Copy, PartialEq, Eq, Debug)]
pub enum Strategy {
    Random,
    AlphaBeta { max_depth: usize },
}

impl Strategy {
    /// A search has at least one ply.
    pub open spec fn well_formed(self) -> bool {
        self matches Strategy::AlphaBeta { max_depth } ==> max_depth >= 1
    }

    /// The strategy that a strength selects: search of that depth for a
    /// positive number, random choice for zero, a negative number or none.
    pub open spec fn spec_from_strength(strength: Option<i32>) -> Strategy {
        match strength {
            Some(s) => if s > 0 {
                Strategy::AlphaBeta { max_depth: s as usize }
            } else {
                Strategy::Random
            },
            None => Strategy::Random,
        }
    }

    /// The strategy that a strength selects: search of that depth for a
    /// positive number, random choice for zero, a negative number or none.
    pub fn from_strength(strength: Option<i32>) -> (strategy: Strategy)
        ensures
            strategy == Strategy::spec_from_strength(strength),
            strategy.well_formed(),
    {
        match strength {
            Some(s) => if s > 0 {
                Strategy::AlphaBeta { max_depth: s as usize }
            } else {
                Strategy::Random
            },
            None => Strategy::Random,
        }
    }

    /// The strategy may choose `m` in `p`: any legal move for the random
    /// choice, the best move for the search.
    pub open spec fn may_choose(self, p: Position, m: Move) -> bool {
        match self {
            Strategy::Random => legal_moves(p.cells, p.next_turn).contains(m),
            Strategy::AlphaBeta { max_depth } => is_best_move(p, max_depth as nat, m),
        }
    }

    /// The move that the strategy chooses for the colour to move, or `None`
    /// where that colour has no legal move.
    pub fn choose_move(&self, state: &GameState) -> (choice: Option<Move>)
        requires
            self.well_formed(),
        ensures
            (match choice {
                None => !can_move(state@.cells, state@.next_turn),
                Some(m) => self.may_choose(state@, m),
            }),
    {
        match self {
            Strategy::Random => (RandomAI {  }).choose_move(state),
            Strategy::AlphaBeta { max_depth } => (AlphaBetaAI { max_depth: *max_depth }).choose_move(
                state,
            ),
        }
    }
}

/// Whatever the strategy chooses is a legal move of the colour to move.
pub proof fn lemma_choice_is_legal(strategy: Strategy, p: Position, m: Move)
    requires
        strategy.may_choose(p, m),
    ensures
        legal_moves(p.cells, p.next_turn).contains(m),
{
    if let Strategy::AlphaBeta { max_depth } = strategy {
        lemma_best_move_is_legal(p, max_depth as nat, m);
    }
}

} // verus!
