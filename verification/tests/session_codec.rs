use othello_rust::board::{Board, Cell, Colour};
use othello_rust::codec::{move_to_u8, u8_to_move, GameError};
use othello_rust::game::GameState;
use othello_rust::moves::Move;
use othello_rust::session::OthelloGame;
use othello_rust::text::{cell_text, colour_text, digit_text, push_decimal};

fn board_from(rows: [&str; 8]) -> Board {
    let mut cells = [Cell::Empty; 64];
    for (r, line) in rows.iter().enumerate() {
        assert_eq!(line.len(), 8);
        for (c, ch) in line.chars().enumerate() {
            cells[r * 8 + c] = match ch {
                'B' => Cell::Black,
                'W' => Cell::White,
                _ => Cell::Empty,
            };
        }
    }
    Board { cells }
}

/// Black holds a corner and White the square beside it: White cannot move,
/// Black can capture on (0, 2).
fn corner_board() -> Board {
    board_from([
        "BW......",
        "........",
        "........",
        "........",
        "........",
        "........",
        "........",
        "........",
    ])
}

#[test]
fn codes_of_pass_and_placements() {
    assert_eq!(move_to_u8(None), 0);
    assert_eq!(move_to_u8(Some(Move { player: Colour::Black, row: 0, col: 0 })), 1);
    assert_eq!(move_to_u8(Some(Move { player: Colour::White, row: 0, col: 7 })), 8);
    assert_eq!(move_to_u8(Some(Move { player: Colour::Black, row: 2, col: 3 })), 20);
    assert_eq!(move_to_u8(Some(Move { player: Colour::White, row: 7, col: 7 })), 64);
}

#[test]
fn decoding_gives_row_and_column() {
    assert_eq!(u8_to_move(0, Colour::Black), Ok(None));
    assert_eq!(u8_to_move(0, Colour::White), Ok(None));
    assert_eq!(u8_to_move(1, Colour::White), Ok(Some(Move { player: Colour::White, row: 0, col: 0 })));
    assert_eq!(u8_to_move(20, Colour::Black), Ok(Some(Move { player: Colour::Black, row: 2, col: 3 })));
    assert_eq!(u8_to_move(9, Colour::Black), Ok(Some(Move { player: Colour::Black, row: 1, col: 0 })));
    assert_eq!(u8_to_move(64, Colour::White), Ok(Some(Move { player: Colour::White, row: 7, col: 7 })));
}

#[test]
fn codes_above_64_are_invalid() {
    assert_eq!(u8_to_move(65, Colour::Black), Err(GameError::InvalidMoveCode { code: 65 }));
    assert_eq!(u8_to_move(100, Colour::White), Err(GameError::InvalidMoveCode { code: 100 }));
    assert_eq!(u8_to_move(255, Colour::Black), Err(GameError::InvalidMoveCode { code: 255 }));
}

#[test]
fn decode_then_encode_gives_the_code_back() {
    for player in [Colour::Black, Colour::White] {
        for code in 0..=64u8 {
            let decoded = u8_to_move(code, player).unwrap();
            assert_eq!(move_to_u8(decoded), code);
            if let Some(m) = decoded {
                assert_eq!(m.player, player);
                assert!((0..8).contains(&m.row) && (0..8).contains(&m.col));
            }
        }
    }
}

#[test]
fn encode_then_decode_gives_the_move_back() {
    for player in [Colour::Black, Colour::White] {
        for row in 0..8i8 {
            for col in 0..8i8 {
                let m = Move { player, row, col };
                assert_eq!(u8_to_move(move_to_u8(Some(m)), player), Ok(Some(m)));
            }
        }
        assert_eq!(u8_to_move(move_to_u8(None), player), Ok(None));
    }
}

#[test]
fn new_session_is_at_the_opening() {
    let session = OthelloGame::new();
    assert_eq!(session.state(), GameState::new());
    assert_eq!(session.list_moves(), Vec::<u8>::new());
    assert_eq!(session.next_player(), 1);
    assert_eq!(session.scores(), (2, 2));
    assert!(!session.is_game_over());
    assert_eq!(session.board(), Board::initial().codes());
}

#[test]
fn black_opens_on_code_20() {
    let mut session = OthelloGame::new();
    assert_eq!(session.add_stone(20), Ok(true));
    let snapshot = session.board();
    assert_eq!(snapshot.len(), 64);
    for (i, code) in snapshot.iter().enumerate() {
        let expected = match i {
            19 | 27 | 28 | 35 => 1,
            36 => 2,
            _ => 0,
        };
        assert_eq!(*code, expected, "index {}", i);
    }
    assert_eq!(snapshot.iter().filter(|c| **c == 1).count(), 4);
    assert_eq!(snapshot[27], 1);
    assert_eq!(session.scores(), (4, 1));
    assert_eq!(session.next_player(), 2);
    assert_eq!(session.list_moves(), vec![20]);
}

#[test]
fn illegal_placement_changes_nothing() {
    let mut session = OthelloGame::new();
    // an empty square that captures nothing, an occupied square, a square
    // that is legal for White only
    for code in [1u8, 28, 21, 64] {
        assert_eq!(session.add_stone(code), Ok(false), "code {}", code);
        assert_eq!(session.state(), GameState::new());
        assert_eq!(session.list_moves(), Vec::<u8>::new());
    }
}

#[test]
fn invalid_code_is_an_error_and_changes_nothing() {
    let mut session = OthelloGame::new();
    assert_eq!(session.add_stone(65), Err(GameError::InvalidMoveCode { code: 65 }));
    assert_eq!(session.add_stone(255), Err(GameError::InvalidMoveCode { code: 255 }));
    assert_eq!(session.state(), GameState::new());
    assert_eq!(session.list_moves(), Vec::<u8>::new());
}

#[test]
fn pass_is_refused_while_a_move_exists() {
    let mut session = OthelloGame::new();
    assert_eq!(session.add_stone(0), Ok(false));
    assert_eq!(session.state(), GameState::new());
    assert_eq!(session.list_moves(), Vec::<u8>::new());
    assert_eq!(session.next_player(), 1);
}

#[test]
fn black_moves_without_a_pass_where_only_black_can_move() {
    // White has no legal move, Black has one, and it is Black's turn.
    let start = GameState { board: corner_board(), next_turn: Colour::Black };
    assert!(start.valid_moves(Colour::White).is_empty());
    assert!(!start.valid_moves(Colour::Black).is_empty());
    let mut session = OthelloGame::from_state(start);
    assert_eq!(session.add_stone(0), Ok(false));
    assert_eq!(session.state(), start);
    assert_eq!(session.list_moves(), Vec::<u8>::new());
    assert_eq!(session.add_stone(3), Ok(true));
    assert_eq!(session.scores(), (3, 0));
    assert_eq!(session.list_moves(), vec![3]);
}

#[test]
fn forced_pass_is_accepted_and_only_flips_the_turn() {
    let start = GameState { board: corner_board(), next_turn: Colour::White };
    let mut session = OthelloGame::from_state(start);
    assert!(!session.is_game_over());
    // White cannot place anywhere
    for code in 1..=64u8 {
        assert_eq!(session.add_stone(code), Ok(false));
    }
    assert_eq!(session.add_stone(0), Ok(true));
    assert_eq!(session.state().board, start.board);
    assert_eq!(session.next_player(), 1);
    assert_eq!(session.list_moves(), vec![0]);
    // Black now moves
    assert_eq!(session.add_stone(3), Ok(true));
    assert_eq!(session.list_moves(), vec![0, 3]);
    assert!(session.is_game_over());
}

#[test]
fn no_placement_is_accepted_once_the_game_is_over() {
    for board in [Board::empty(), Board { cells: [Cell::White; 64] }, corner_board().place(0, 2, Colour::Black).place(0, 1, Colour::Black)] {
        for next_turn in [Colour::Black, Colour::White] {
            let start = GameState { board, next_turn };
            let mut session = OthelloGame::from_state(start);
            assert!(session.is_game_over());
            for code in 1..=64u8 {
                assert_eq!(session.add_stone(code), Ok(false));
            }
            assert_eq!(session.state(), start);
            assert_eq!(session.list_moves(), Vec::<u8>::new());
            assert!(session.is_game_over());
        }
    }
}

#[test]
fn ai_move_by_search_plays_the_best_move() {
    let mut session = OthelloGame::new();
    assert_eq!(session.ai_move(Some(1)), Ok(Some(20)));
    assert_eq!(session.scores(), (4, 1));
    assert_eq!(session.next_player(), 2);
    assert_eq!(session.list_moves(), vec![20]);
    let before = session.state();
    let code = session.ai_move(Some(3)).unwrap().unwrap();
    let m = u8_to_move(code, Colour::White).unwrap().unwrap();
    assert!(before.valid_moves(Colour::White).contains(&m));
    assert_eq!(session.state(), before.apply(m));
    assert_eq!(session.list_moves(), vec![20, code]);
}

#[test]
fn ai_move_at_random_plays_a_legal_move() {
    for strength in [None, Some(0), Some(-1)] {
        let mut session = OthelloGame::new();
        let code = session.ai_move(strength).unwrap().unwrap();
        assert!([20u8, 27, 38, 45].contains(&code));
        let m = u8_to_move(code, Colour::Black).unwrap().unwrap();
        assert_eq!(session.state(), GameState::new().apply(m));
        assert_eq!(session.list_moves(), vec![code]);
        assert_eq!(session.next_player(), 2);
    }
}

#[test]
fn ai_move_passes_where_it_cannot_move() {
    let start = GameState { board: corner_board(), next_turn: Colour::White };
    let mut session = OthelloGame::from_state(start);
    assert_eq!(session.ai_move(Some(2)), Ok(Some(0)));
    assert_eq!(session.state(), start.pass());
    assert_eq!(session.list_moves(), vec![0]);
    assert_eq!(session.ai_move(Some(2)), Ok(Some(3)));
    assert_eq!(session.list_moves(), vec![0, 3]);
    assert!(session.is_game_over());
}

#[test]
fn ai_move_reports_the_end_of_the_game() {
    let start = GameState { board: Board::empty(), next_turn: Colour::Black };
    let mut session = OthelloGame::from_state(start);
    assert!(session.is_game_over());
    assert_eq!(session.ai_move(None), Ok(None));
    assert_eq!(session.state(), start.pass());
    assert_eq!(session.list_moves(), vec![0]);
    assert!(session.is_game_over());
}

#[test]
fn a_choice_that_is_not_legal_is_a_failure() {
    let mut session = OthelloGame::new();
    assert_eq!(session.apply_choice(None), Err(GameError::AiSelectionFailure));
    let occupied = Move { player: Colour::Black, row: 3, col: 3 };
    assert_eq!(session.apply_choice(Some(occupied)), Err(GameError::AiSelectionFailure));
    let wrong_colour = Move { player: Colour::White, row: 2, col: 4 };
    assert_eq!(session.apply_choice(Some(wrong_colour)), Err(GameError::AiSelectionFailure));
    let off_board = Move { player: Colour::Black, row: 8, col: 0 };
    assert_eq!(session.apply_choice(Some(off_board)), Err(GameError::AiSelectionFailure));
    assert_eq!(session.state(), GameState::new());
    assert_eq!(session.list_moves(), Vec::<u8>::new());
    let legal = Move { player: Colour::Black, row: 5, col: 4 };
    assert_eq!(session.apply_choice(Some(legal)), Ok(Some(45)));
    assert_eq!(session.state(), GameState::new().apply(legal));
    assert_eq!(session.list_moves(), vec![45]);
}

#[test]
fn a_whole_game_played_by_the_strategies() {
    let mut session = OthelloGame::new();
    let mut steps = 0usize;
    while !session.is_game_over() {
        let before = session.state();
        let strength = if before.next_turn == Colour::Black { Some(2) } else { None };
        let outcome = session.ai_move(strength).unwrap();
        let code = outcome.expect("the game is not over");
        assert!(code <= 64);
        if code == 0 {
            assert!(before.valid_moves(before.next_turn).is_empty());
            assert_eq!(session.state(), before.pass());
        } else {
            let m = u8_to_move(code, before.next_turn).unwrap().unwrap();
            assert!(before.valid_moves(before.next_turn).contains(&m));
            assert_eq!(session.state(), before.apply(m));
        }
        steps += 1;
        assert_eq!(session.list_moves().len(), steps);
        assert_eq!(*session.list_moves().last().unwrap(), code);
        let (b, w) = session.scores();
        let stones = session.board().iter().filter(|c| **c != 0).count() as u32;
        assert_eq!(b + w, stones);
        assert!(steps <= 130);
    }
    let (b, w) = session.scores();
    assert!(b + w <= 64);
    assert!(b + w >= 5);
}

#[test]
fn the_opening_as_text() {
    let session = OthelloGame::new();
    let expected = "........\n........\n........\n...WB...\n...BW...\n........\n........\n........\n\
                    Score: B 2 - W 2\nNext Turn: Black\n";
    assert_eq!(session.render(), expected);
    assert_eq!(Board::initial().render(), &expected[..72]);
}

#[test]
fn text_after_a_move_and_with_large_scores() {
    let mut session = OthelloGame::new();
    assert_eq!(session.add_stone(20), Ok(true));
    let expected = "........\n........\n...B....\n...BB...\n...BW...\n........\n........\n........\n\
                    Score: B 4 - W 1\nNext Turn: White\n";
    assert_eq!(session.render(), expected);
    let full = GameState { board: Board { cells: [Cell::White; 64] }, next_turn: Colour::Black };
    let text = full.render();
    assert!(text.starts_with("WWWWWWWW\nWWWWWWWW\n"));
    assert!(text.ends_with("Score: B 0 - W 64\nNext Turn: Black\n"));
    assert_eq!(text.len(), 72 + 18 + 17);
}

#[test]
fn text_pieces() {
    assert_eq!(cell_text(Cell::Empty), ".");
    assert_eq!(cell_text(Cell::Black), "B");
    assert_eq!(cell_text(Cell::White), "W");
    assert_eq!(colour_text(Colour::Black), "Black");
    assert_eq!(colour_text(Colour::White), "White");
    let digits: Vec<&str> = (0..10u32).map(digit_text).collect();
    assert_eq!(digits, vec!["0", "1", "2", "3", "4", "5", "6", "7", "8", "9"]);
    let mut text = String::from("n=");
    push_decimal(&mut text, 0);
    text.push(',');
    push_decimal(&mut text, 7);
    text.push(',');
    push_decimal(&mut text, 64);
    text.push(',');
    push_decimal(&mut text, 4294967295);
    assert_eq!(text, "n=0,7,64,4294967295");
}
