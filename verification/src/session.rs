//! A game in progress: the current position and the codes of the moves made
//! so far. Every request either changes both or neither.

use vstd::prelude::*;
use crate::ai::Strategy;
use crate::board::{cell_codes, initial_cells, Cell, Colour, Score};
use crate::codec::{decoded, encoded, move_to_u8, u8_to_move, GameError};
use crate::game::{count_of, game_over, position_after, position_passed, stones, GameState, Position};
use crate::moves::{can_move, contains_move, lemma_legal_moves_contains, move_at, Move};
use crate::text::position_text;

verus! {

/// A request with `code` is accepted in `p`: a pass where the colour to move
/// has no legal move, a placement where it is legal for that colour. No
/// code above 64 is accepted.
pub open spec fn accepts(p: Position, code: u8) -> bool {
    match decoded(code, p.next_turn) {
        Ok(None) => !can_move(p.cells, p.next_turn),
        Ok(Some(m)) => m.legal_on(p.cells),
        Err(_) => false,
    }
}

/// The position after the request with `code` has been carried out in `p`.
pub open spec fn position_after_code(p: Position, code: u8) -> Position {
    match decoded(code, p.next_turn) {
        Ok(Some(m)) => position_after(p, m),
        _ => position_passed(p),
    }
}

/// Where the colour to move has no legal move, a pass is accepted, whether
/// or not the opponent can move; it leaves the board as it is and hands the
/// turn to the opponent.
pub proof fn lemma_forced_pass(p: Position)
    requires
        !can_move(p.cells, p.next_turn),
    ensures
        accepts(p, 0),
        position_after_code(p, 0).cells == p.cells,
        position_after_code(p, 0).next_turn == p.next_turn.spec_opponent(),
{
}

/// Where the colour to move has a legal move, a pass is refused.
pub proof fn lemma_pass_refused(p: Position)
    requires
        can_move(p.cells, p.next_turn),
    ensures
        !accepts(p, 0),
{
}

/// Once the game is over no placement is accepted.
pub proof fn lemma_no_placement_when_over(p: Position, code: u8)
    requires
        game_over(p.cells),
        code != 0,
    ensures
        !accepts(p, code),
{
    if 1 <= code <= 64 {
        let m = move_at(p.next_turn, code - 1);
        lemma_legal_moves_contains(p.cells, p.next_turn, m);
    }
}

/// A game in progress.
#[derive(Debug)]
pub struct OthelloGame {
    game: GameState,
    move_history: Vec<u8>,
}

impl OthelloGame {
    /// The current position.
    pub closed spec fn position(&self) -> Position {
        self.game@
    }

    /// The codes of the moves made so far, oldest first.
    pub closed spec fn history(&self) -> Seq<u8> {
        self.move_history@
    }

    /// The board of the current position has 64 cells.
    pub proof fn lemma_board_size(&self)
        ensures
            self.position().cells.len() == 64,
    {
    }

    /// A game at the starting position, with no move made.
    pub fn new() -> (session: OthelloGame)
        ensures
            session.position().cells == initial_cells(),
            session.position().next_turn == Colour::Black,
            session.history() == Seq::<u8>::empty(),
    {
        OthelloGame { game: GameState::new(), move_history: Vec::new() }
    }

    /// A game that starts at `game`, with no move made.
    pub fn from_state(game: GameState) -> (session: OthelloGame)
        ensures
            session.position() == game@,
            session.history() == Seq::<u8>::empty(),
    {
        OthelloGame { game, move_history: Vec::new() }
    }

    /// The current position.
    pub fn state(&self) -> (game: GameState)
        ensures
            game@ == self.position(),
    {
        self.game
    }

    /// The codes of the moves made so far, oldest first: 0 for a pass, 1 to
    /// 64 for a placement.
    pub fn list_moves(&self) -> (codes: Vec<u8>)
        ensures
            codes@ == self.history(),
    {
        let mut codes: Vec<u8> = Vec::new();
        let mut i: usize = 0;
        while i < self.move_history.len()
            invariant
                i <= self.move_history@.len(),
                codes@ == self.move_history@.take(i as int),
            decreases self.move_history@.len() - i,
        {
            codes.push(self.move_history[i]);
            assert(codes@ =~= self.move_history@.take(i + 1));
            i = i + 1;
        }
        assert(self.move_history@.take(self.move_history@.len() as int) =~= self.move_history@);
        codes
    }

    /// Carries out the request `move_repr` of the colour to move: a pass for
    /// 0, a placement for 1 to 64.
    ///
    /// A code above 64 is an error. Otherwise the result says whether the
    /// request was accepted: a placement must be legal, and a pass is only
    /// accepted where the colour to move has no legal move. An accepted
    /// request changes the position and is added to the history; anything
    /// else leaves both as they are.
    pub fn add_stone(&mut self, move_repr: u8) -> (outcome: Result<bool, GameError>)
        ensures
            move_repr > 64 ==> outcome == Err::<bool, GameError>(
                GameError::InvalidMoveCode { code: move_repr },
            ),
            move_repr <= 64 ==> outcome == Ok::<bool, GameError>(
                accepts(old(self).position(), move_repr),
            ),
            outcome == Ok::<bool, GameError>(true) ==> final(self).position() == position_after_code(
                old(self).position(),
                move_repr,
            ) && final(self).history() == old(self).history().push(move_repr),
            outcome != Ok::<bool, GameError>(true) ==> final(self).position() == old(self).position()
                && final(self).history() == old(self).history(),
    {
        let current_player = self.game.next_turn;
        let valid_moves = self.game.valid_moves(current_player);
        match u8_to_move(move_repr, current_player) {
            Err(e) => Err(e),
            Ok(Some(potential_move)) => {
                proof {
                    lemma_legal_moves_contains(self.game@.cells, current_player, potential_move);
                }
                if contains_move(&valid_moves, potential_move) {
                    self.game = self.game.apply(potential_move);
                    self.move_history.push(move_repr);
                    Ok(true)
                } else {
                    Ok(false)
                }
            },
            Ok(None) => {
                if valid_moves.len() == 0 {
                    self.game = self.game.pass();
                    self.move_history.push(0);
                    Ok(true)
                } else {
                    Ok(false)
                }
            },
        }
    }

    /// Carries out the move that was chosen for the colour to move.
    ///
    /// A legal move of that colour is played and added to the history, and
    /// its code is returned. Any other choice, and no choice at all, is an
    /// error and changes nothing.
    pub fn apply_choice(&mut self, choice: Option<Move>) -> (outcome: Result<Option<u8>, GameError>)
        ensures
            (match choice {
                Some(m) if m.player == old(self).position().next_turn && m.legal_on(
                    old(self).position().cells,
                ) => {
                    &&& outcome == Ok::<Option<u8>, GameError>(Some(encoded(choice) as u8))
                    &&& m.on_board()
                    &&& final(self).position() == position_after(old(self).position(), m)
                    &&& final(self).history() == old(self).history().push(encoded(choice) as u8)
                },
                _ => {
                    &&& outcome == Err::<Option<u8>, GameError>(GameError::AiSelectionFailure)
                    &&& final(self).position() == old(self).position()
                    &&& final(self).history() == old(self).history()
                },
            }),
    {
        let valid_moves = self.game.valid_moves(self.game.next_turn);
        match choice {
            Some(mov) => {
                proof {
                    lemma_legal_moves_contains(self.game@.cells, self.game.next_turn, mov);
                    if mov.legal_on(self.game@.cells) {
                        crate::moves::lemma_legal_square_is_empty(
                            self.game@.cells,
                            mov.player,
                            mov.row as int,
                            mov.col as int,
                        );
                    }
                }
                if contains_move(&valid_moves, mov) {
                    self.game = self.game.apply(mov);
                    let move_repr = move_to_u8(Some(mov));
                    self.move_history.push(move_repr);
                    Ok(Some(move_repr))
                } else {
                    Err(GameError::AiSelectionFailure)
                }
            },
            None => Err(GameError::AiSelectionFailure),
        }
    }

    /// Lets the colour to move play by itself.
    ///
    /// Where that colour has no legal move, it passes: the pass is added to
    /// the history, and the result is the pass code if the opponent can
    /// move and `None` if the game is over. Otherwise a move is chosen, by
    /// search of depth `strength` where that is positive and at random where
    /// it is not or is absent; the move is played and its code returned.
    pub fn ai_move(&mut self, strength: Option<i32>) -> (outcome: Result<Option<u8>, GameError>)
        ensures
            outcome is Ok,
            !can_move(old(self).position().cells, old(self).position().next_turn) ==> ({
                &&& final(self).position() == position_passed(old(self).position())
                &&& final(self).history() == old(self).history().push(0)
                &&& outcome == Ok::<Option<u8>, GameError>(
                    if can_move(
                        old(self).position().cells,
                        old(self).position().next_turn.spec_opponent(),
                    ) {
                        Some(0u8)
                    } else {
                        None
                    },
                )
            }),
            can_move(old(self).position().cells, old(self).position().next_turn) ==> ({
                &&& outcome matches Ok(Some(code))
                &&& 1 <= code <= 64
                &&& Strategy::spec_from_strength(strength).may_choose(
                    old(self).position(),
                    move_at(old(self).position().next_turn, code - 1),
                )
                &&& final(self).position() == position_after(
                    old(self).position(),
                    move_at(old(self).position().next_turn, code - 1),
                )
                &&& final(self).history() == old(self).history().push(code)
            }),
    {
        let current_player = self.game.next_turn;
        if !self.game.board.has_moves(current_player) {
            self.game = self.game.pass();
            self.move_history.push(0);
            if !self.game.board.has_moves(self.game.next_turn) {
                return Ok(None);
            } else {
                return Ok(Some(0));
            }
        }
        let strategy = Strategy::from_strength(strength);
        let choice = strategy.choose_move(&self.game);
        proof {
            let p = self.game@;
            let m = choice->0;
            crate::ai::lemma_choice_is_legal(strategy, p, m);
            lemma_legal_moves_contains(p.cells, p.next_turn, m);
            crate::moves::lemma_legal_square_is_empty(p.cells, m.player, m.row as int, m.col as int);
            crate::codec::lemma_encode_then_decode(choice, p.next_turn);
        }
        self.apply_choice(choice)
    }

    /// The codes of the 64 cells of the board in row-major order: 0 for an
    /// empty square, 1 for a black stone, 2 for a white one.
    pub fn board(&self) -> (codes: Vec<u8>)
        ensures
            codes@ == cell_codes(self.position().cells),
    {
        self.game.board.codes()
    }

    /// The code of the colour to move: 1 for Black, 2 for White.
    pub fn next_player(&self) -> (code: u8)
        ensures
            code == self.position().next_turn.spec_code(),
    {
        self.game.next_turn.code()
    }

    /// The stones of Black and of White, in that order. Together they count
    /// the squares that are not empty.
    pub fn scores(&self) -> (score: (Score, Score))
        ensures
            score.0 == stones(self.position().cells, Colour::Black),
            score.1 == stones(self.position().cells, Colour::White),
            score.0 + score.1 == 64 - count_of(self.position().cells, Cell::Empty),
            score.0 <= 64,
            score.1 <= 64,
            score.0 + score.1 <= 64,
    {
        self.game.scores()
    }

    /// Whether the game is over: neither colour has a legal move. This is
    /// worked out from the current position each time.
    pub fn is_game_over(&self) -> (over: bool)
        ensures
            over == game_over(self.position().cells),
    {
        if self.game.board.has_moves(self.game.next_turn) {
            false
        } else {
            !self.game.board.has_moves(self.game.next_turn.opponent())
        }
    }

    /// The game as text: the board, the scores and the colour to move.
    pub fn render(&self) -> (text: String)
        ensures
            text@ == position_text(self.position()),
    {
        self.game.render()
    }
}

} // verus!
