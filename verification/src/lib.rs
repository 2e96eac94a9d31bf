//! Rules and move selection for Othello on the standard 8x8 board.
//!
//! The crate is organised bottom-up:
//!
//! * [`board`]: colours, cells and the board itself;
//! * [`rules`]: the capture scan and the legality of a placement;
//! * [`moves`]: moves and the enumeration of the legal ones;
//! * [`game`]: a position (board plus colour to move), scoring and evaluation;
//! * [`search`]: minimax values and the alpha-beta search that computes them;
//! * [`ai`]: the two ways of choosing a move, at random and by search;
//! * [`codec`]: the compact move code, 0 for a pass and 1 to 64 for a square;
//! * [`text`]: a position as text;
//! * [`session`]: a game in progress with its history of moves.
//!
//! Every executable function carries a contract over the mathematical model
//! of the board: a sequence of 64 cells in row-major order.

pub mod board;
pub mod rules;
pub mod moves;
pub mod game;
pub mod search;
pub mod ai;
pub mod codec;
pub mod text;
pub mod session;

pub use ai::{AlphaBetaAI, RandomAI, Strategy};
pub use board::{Board, Cell, Colour, Pos, Score};
pub use codec::{move_to_u8, u8_to_move, GameError};
pub use game::GameState;
pub use moves::Move;
pub use search::minimax;
pub use session::OthelloGame;
