use othello_rust::board::{Board, Cell, Colour};
use othello_rust::game::GameState;
use othello_rust::moves::{contains_move, Move};
use othello_rust::rules::direction;

fn board_from(rows: [&str; 8]) -> Board {
    let mut cells = [Cell::Empty; 64];
    for (r, line) in rows.iter().enumerate() {
        assert_eq!(line.len(), 8);
        for (c, ch) in line.chars().enumerate() {
            cells[r * 8 + c] = match ch {
                'B' => Cell::Black,
                'W' => Cell::White,
                _ => Cell::Empty,
            };
        }
    }
    Board { cells }
}

fn sorted(mut squares: Vec<(i8, i8)>) -> Vec<(i8, i8)> {
    squares.sort();
    squares
}

fn mixed_board() -> Board {
    board_from([
        "........",
        ".....B..",
        ".....W..",
        ".BWWW...",
        ".....WW.",
        ".....W..",
        ".....W..",
        ".....W..",
    ])
}

#[test]
fn opponent_swaps_the_colours() {
    assert_eq!(Colour::Black.opponent(), Colour::White);
    assert_eq!(Colour::White.opponent(), Colour::Black);
    assert_eq!(Colour::Black.opponent().opponent(), Colour::Black);
    assert_eq!(Colour::White.opponent().opponent(), Colour::White);
}

#[test]
fn colour_and_cell_codes() {
    assert_eq!(Colour::Black.code(), 1);
    assert_eq!(Colour::White.code(), 2);
    assert_eq!(Cell::Empty.code(), 0);
    assert_eq!(Cell::Black.code(), 1);
    assert_eq!(Cell::White.code(), 2);
    assert_eq!(Cell::of(Colour::Black), Cell::Black);
    assert_eq!(Cell::of(Colour::White), Cell::White);
    assert_eq!(Cell::Empty.owner(), None);
    assert_eq!(Cell::Black.owner(), Some(Colour::Black));
    assert_eq!(Cell::White.owner(), Some(Colour::White));
}

#[test]
fn initial_board_has_the_four_centre_stones() {
    let board = Board::initial();
    for r in 0..8i8 {
        for c in 0..8i8 {
            let expected = match (r, c) {
                (3, 3) | (4, 4) => Cell::White,
                (3, 4) | (4, 3) => Cell::Black,
                _ => Cell::Empty,
            };
            assert_eq!(board.get(r, c), expected, "square ({}, {})", r, c);
        }
    }
    assert_eq!(
        board,
        board_from([
            "........",
            "........",
            "........",
            "...WB...",
            "...BW...",
            "........",
            "........",
            "........",
        ])
    );
}

#[test]
fn empty_board_is_empty() {
    let board = Board::empty();
    assert!(board.cells.iter().all(|c| *c == Cell::Empty));
    assert_eq!(board.scores(), (0, 0));
}

#[test]
fn place_changes_one_square_of_a_copy() {
    let board = Board::initial();
    let placed = board.place(0, 7, Colour::White);
    assert_eq!(placed.get(0, 7), Cell::White);
    assert_eq!(board.get(0, 7), Cell::Empty);
    for i in 0..64 {
        if i != 7 {
            assert_eq!(placed.cells[i], board.cells[i]);
        }
    }
    let replaced = placed.place(0, 7, Colour::Black);
    assert_eq!(replaced.get(0, 7), Cell::Black);
}

#[test]
fn holds_is_false_off_the_board() {
    let board = Board::initial();
    assert!(board.holds(3, 3, Cell::White));
    assert!(!board.holds(3, 3, Cell::Black));
    assert!(board.holds(0, 0, Cell::Empty));
    assert!(!board.holds(-1, 0, Cell::Empty));
    assert!(!board.holds(0, 8, Cell::Empty));
    assert!(!board.holds(8, 8, Cell::Empty));
}

#[test]
fn the_eight_directions() {
    let steps: Vec<(i8, i8)> = (0..8).map(direction).collect();
    assert_eq!(
        steps,
        vec![(-1, -1), (-1, 0), (-1, 1), (0, -1), (0, 1), (1, -1), (1, 0), (1, 1)]
    );
}

#[test]
fn with_flips_turns_the_named_stones() {
    let board = Board::initial();
    let flipped = board.with_flips(&vec![(3, 3), (4, 4)], Colour::Black);
    assert_eq!(flipped.scores(), (4, 0));
    assert_eq!(board.scores(), (2, 2));
    let same = board.with_flips(&vec![], Colour::Black);
    assert_eq!(same, board);
    let ignored = board.with_flips(&vec![(-1, 3), (8, 0), (3, 9)], Colour::White);
    assert_eq!(ignored, board);
    let twice = board.with_flips(&vec![(0, 0), (0, 0)], Colour::White);
    assert_eq!(twice.get(0, 0), Cell::White);
    assert_eq!(twice.scores(), (2, 3));
}

#[test]
fn capture_scan_on_the_opening() {
    let board = Board::initial();
    assert_eq!(board.lines_to_capture(Colour::Black, 2, 3), vec![(3, 3)]);
    assert_eq!(board.lines_to_capture(Colour::Black, 3, 2), vec![(3, 3)]);
    assert_eq!(board.lines_to_capture(Colour::Black, 4, 5), vec![(4, 4)]);
    assert_eq!(board.lines_to_capture(Colour::Black, 5, 4), vec![(4, 4)]);
    assert_eq!(board.lines_to_capture(Colour::White, 2, 4), vec![(3, 4)]);
    assert_eq!(board.lines_to_capture(Colour::Black, 2, 4), vec![]);
    assert_eq!(board.lines_to_capture(Colour::Black, 0, 0), vec![]);
}

#[test]
fn capture_scan_takes_closed_runs_only() {
    let board = mixed_board();
    // Up: one white stone closed by black. Left: three white stones closed
    // by black. Down: four white stones that run off the board. Down-right:
    // a white stone followed by an empty square. Right: an empty square.
    let captured = board.lines_to_capture(Colour::Black, 3, 5);
    assert_eq!(sorted(captured), vec![(2, 5), (3, 2), (3, 3), (3, 4)]);
    assert!(board.is_legal(Colour::Black, 3, 5));
}

#[test]
fn single_direction_scan() {
    let board = mixed_board();
    assert_eq!(board.line_to_capture(Colour::Black, 3, 5, 1), vec![(2, 5)]);
    assert_eq!(board.line_to_capture(Colour::Black, 3, 5, 3), vec![(3, 4), (3, 3), (3, 2)]);
    assert_eq!(board.line_to_capture(Colour::Black, 3, 5, 6), vec![]);
    assert_eq!(board.line_to_capture(Colour::Black, 3, 5, 7), vec![]);
    assert_eq!(board.line_to_capture(Colour::Black, 3, 5, 4), vec![]);
    assert_eq!(board.line_to_capture(Colour::Black, 3, 5, 0), vec![]);
}

#[test]
fn capture_scan_is_empty_on_an_occupied_square() {
    let board = mixed_board();
    assert_eq!(board.lines_to_capture(Colour::Black, 3, 4), vec![]);
    assert_eq!(board.lines_to_capture(Colour::Black, 3, 1), vec![]);
    assert!(!board.is_legal(Colour::Black, 3, 4));
    assert!(!board.is_legal(Colour::White, 3, 1));
}

#[test]
fn capture_scan_is_empty_off_the_board() {
    let board = mixed_board();
    assert_eq!(board.lines_to_capture(Colour::Black, -1, 5), vec![]);
    assert_eq!(board.lines_to_capture(Colour::Black, 8, 5), vec![]);
    assert_eq!(board.lines_to_capture(Colour::Black, 3, 8), vec![]);
    assert!(!board.is_legal(Colour::Black, 8, 8));
    assert!(!board.is_legal(Colour::Black, -1, -1));
}

#[test]
fn a_run_needs_a_stone_of_the_mover_behind_it() {
    let board = board_from([
        "BW......",
        "........",
        "........",
        "........",
        "........",
        "........",
        "........",
        "......WB",
    ]);
    assert_eq!(board.lines_to_capture(Colour::Black, 0, 2), vec![(0, 1)]);
    assert_eq!(board.lines_to_capture(Colour::Black, 7, 5), vec![(7, 6)]);
    // Two black stones next to each other close nothing for Black.
    assert_eq!(board.lines_to_capture(Colour::White, 0, 2), vec![]);
    // A stone in the corner cannot be captured.
    assert!(board.valid_moves(Colour::White).is_empty());
}

#[test]
fn capture_in_all_eight_directions() {
    let board = board_from([
        "B..B..B.",
        ".W.W.W..",
        "..WWW...",
        "BWW.WWWB",
        "..WWW...",
        ".W.W.W..",
        "B..B..B.",
        "........",
    ]);
    let captured = sorted(board.lines_to_capture(Colour::Black, 3, 3));
    assert_eq!(
        captured,
        vec![
            (1, 1),
            (1, 3),
            (1, 5),
            (2, 2),
            (2, 3),
            (2, 4),
            (3, 1),
            (3, 2),
            (3, 4),
            (3, 5),
            (3, 6),
            (4, 2),
            (4, 3),
            (4, 4),
            (5, 1),
            (5, 3),
            (5, 5),
        ]
    );
    let state = GameState { board, next_turn: Colour::Black };
    let next = state.apply(Move { player: Colour::Black, row: 3, col: 3 });
    assert_eq!(next.board.scores(), (26, 0));
    assert_eq!(next.next_turn, Colour::White);
}

#[test]
fn valid_moves_of_the_opening_in_row_major_order() {
    let board = Board::initial();
    let black: Vec<(i8, i8)> = board.valid_moves(Colour::Black).iter().map(|m| (m.row, m.col)).collect();
    assert_eq!(black, vec![(2, 3), (3, 2), (4, 5), (5, 4)]);
    let white: Vec<(i8, i8)> = board.valid_moves(Colour::White).iter().map(|m| (m.row, m.col)).collect();
    assert_eq!(white, vec![(2, 4), (3, 5), (4, 2), (5, 3)]);
    assert!(board.valid_moves(Colour::Black).iter().all(|m| m.player == Colour::Black));
    assert!(board.has_moves(Colour::Black));
    assert!(board.has_moves(Colour::White));
}

#[test]
fn valid_moves_are_on_empty_squares_and_capture() {
    let mut state = GameState::new();
    for _ in 0..12 {
        let moves = state.valid_moves(state.next_turn);
        if moves.is_empty() {
            break;
        }
        for m in moves.iter() {
            assert_eq!(m.player, state.next_turn);
            assert_eq!(state.board.get(m.row, m.col), Cell::Empty);
            assert!(!state.board.lines_to_capture(m.player, m.row, m.col).is_empty());
            assert!(state.board.is_legal(m.player, m.row, m.col));
        }
        // every square that is not listed is not legal
        for r in 0..8i8 {
            for c in 0..8i8 {
                let m = Move { player: state.next_turn, row: r, col: c };
                assert_eq!(contains_move(&moves, m), state.board.is_legal(state.next_turn, r, c));
            }
        }
        // row-major order, no move twice
        for pair in moves.windows(2) {
            assert!((pair[0].row, pair[0].col) < (pair[1].row, pair[1].col));
        }
        state = state.apply(moves[moves.len() / 2]);
    }
}

#[test]
fn contains_move_compares_all_fields() {
    let moves = Board::initial().valid_moves(Colour::Black);
    assert!(contains_move(&moves, Move { player: Colour::Black, row: 2, col: 3 }));
    assert!(!contains_move(&moves, Move { player: Colour::White, row: 2, col: 3 }));
    assert!(!contains_move(&moves, Move { player: Colour::Black, row: 3, col: 3 }));
    assert!(!contains_move(&vec![], Move { player: Colour::Black, row: 2, col: 3 }));
}

#[test]
fn board_codes_in_row_major_order() {
    let codes = Board::initial().codes();
    assert_eq!(codes.len(), 64);
    for (i, code) in codes.iter().enumerate() {
        let expected = match i {
            27 | 36 => 2,
            28 | 35 => 1,
            _ => 0,
        };
        assert_eq!(*code, expected, "index {}", i);
    }
}
