use tictactoe::errors::TicTacToeError;
use tictactoe::game_state::{GameState, PlayerEnum};

#[test]
fn test_inverted() {
    let test_cases = vec![("XXXOO O  ", "OOOXX X  "), ("XXO X OO ", "OOX O XX ")];
    for (in_board, out_board) in test_cases {
        let board = GameState::from_str(in_board).unwrap();
        let inverted_board = board.inverted();
        assert_eq!(inverted_board.to_string(), out_board)
    }
}

#[test]
fn game_state_test_is_winner_x() {
    let test_cases = vec![("XXX O OXO", true), ("XO    O X", false)];
    for (board_str, is_winner) in test_cases {
        let board = GameState::from_str(board_str).unwrap();
        assert_eq!(board.is_winner(PlayerEnum::X), is_winner);
    }
}

#[test]
fn test_is_empty() {
    let test_cases = vec![("         ", 0, true), ("X        ", 0, false)];
    for (board_str, index, is_empty) in test_cases {
        let board = GameState::from_str(board_str).unwrap();
        assert_eq!(board.is_empty(index as usize).unwrap(), is_empty)
    }
}

#[test]
fn test_transform() {
    let test_cases = vec![
        ("X O XOXO ", 0, false, "X O XOXO "),
        ("X O XOXO ", 1, false, "X XOX  OO"),
        ("X O XOXO ", 2, false, " OXOX O X"),
        ("X O XOXO ", 3, false, "OO  XOX X"),
        ("X O XOXO ", 0, true, "XO  XOX O"),
        ("X O XOXO ", 1, true, "X X XOOO "),
        ("X O XOXO ", 2, true, "O XOX  OX"),
        ("X O XOXO ", 3, true, " OOOX X X"),
    ];
    for (input_str, rotation_num, flip, output_str) in test_cases {
        let b = GameState::from_str(input_str).unwrap();
        let rotated_b = b.transform(rotation_num, flip);
        assert_eq!(rotated_b.to_string(), output_str);
    }
}

#[test]
fn test_from_string_to_str() {
    let test_cases = vec![
        ("", "", false),
        ("XXOOO XOX", "XXOOO XOX", true),
        ("XXXOO XOX", "XXXOO XOX", false),
    ];
    for (input_str, expected_str, exists) in test_cases {
        let b = GameState::from_str(input_str);
        match b {
            Ok(b) => {
                assert!(exists);
                assert_eq!(b.to_string(), expected_str)
            }
            Err(_) => {
                assert!(!exists);
            }
        };
    }
}

#[test]
fn test_get() {
    let test_cases = vec![
        ("X        ", 0, "X"),
        ("OX       ", 0, "O"),
        ("         ", 1, " "),
        ("XXOOO XOX", 5, " "),
        ("XXOOO XOX", 8, "X"),
    ];
    for (board_str, index, player_str) in test_cases {
        let board = GameState::from_str(board_str).unwrap();
        assert_eq!(
            board.get(index).unwrap(),
            PlayerEnum::from_str(player_str).unwrap()
        );
    }
}

#[test]
fn test_set() {
    let test_cases = vec![
        ("X        ", 3, "O", "X  O     "),
        (" X       ", 0, "O", "OX       "),
        ("         ", 1, " ", "         "),
        ("XXXOO XO ", 8, "O", "XXXOO XOO"),
    ];
    for (input_str, index, player_str, output_str) in test_cases {
        let mut board = GameState::from_str(input_str).unwrap();
        let player_enum = PlayerEnum::from_str(player_str).unwrap();
        board.set(index, player_enum).unwrap();
        assert_eq!(board.to_string(), output_str);
    }
}

#[test]
fn test_empy_positions() {
    let test_cases = vec![("X        ", vec![1, 2, 3, 4, 5, 6, 7, 8])];
    for (input_str, positions) in test_cases {
        let board = GameState::from_str(input_str).unwrap();
        assert_eq!(board.empty_positions(), positions)
    }
}

#[test]
fn concrete_cases_from_text() {
    let won = GameState::from_str("XXX O OXO").unwrap();
    assert!(won.is_winner(PlayerEnum::X));
    assert!(!won.is_winner(PlayerEnum::O));
    let one = GameState::from_str(" X       ").unwrap();
    assert_eq!(one.is_empty(0), Ok(true));
    assert!(!one.empty_positions().contains(&1));
    let mut b = GameState::from_str("X        ").unwrap();
    b.set(3, PlayerEnum::O).unwrap();
    assert_eq!(b.to_string(), "X  O     ");
}

#[test]
fn out_of_bounds_positions() {
    let mut b = GameState::new();
    assert_eq!(b.get(9), Err(TicTacToeError::OutOfBounds));
    assert_eq!(b.is_empty(12), Err(TicTacToeError::OutOfBounds));
    assert_eq!(b.set(9, PlayerEnum::X), Err(TicTacToeError::OutOfBounds));
    assert_eq!(b.auto_set(100), Err(TicTacToeError::OutOfBounds));
    assert_eq!(b.get_raw(), 0);
}

#[test]
fn parse_errors() {
    assert_eq!(GameState::from_str("XXXXXXXXX"), Err(TicTacToeError::InvalidBoard));
    assert_eq!(GameState::from_str("XX?      "), Err(TicTacToeError::InvalidBoard));
    assert_eq!(GameState::from_str("X O"), Err(TicTacToeError::InvalidBoard));
    assert_eq!(GameState::from_str("XXXOOO   "), Err(TicTacToeError::InvalidBoard));
    assert_eq!(PlayerEnum::from_str("x"), Err(TicTacToeError::InvalidPlayerEnum));
    assert_eq!(PlayerEnum::from_str("XO"), Err(TicTacToeError::InvalidPlayerEnum));
    assert_eq!(PlayerEnum::try_from(3), Err(TicTacToeError::InvalidPlayerEnum));
    assert_eq!(PlayerEnum::try_from(2), Ok(PlayerEnum::O));
}

#[test]
fn numeric_round_trip() {
    let b = GameState::from_str("XO  X   O").unwrap();
    let raw = b.get_raw();
    assert_eq!(raw, 0b10_00_00_00_01_00_00_10_01);
    assert_eq!(GameState::try_from(raw), Ok(b));
    assert_eq!(GameState::try_from(3), Err(TicTacToeError::InvalidBoard));
    assert_eq!(GameState::try_from(1 << 18), Err(TicTacToeError::InvalidBoard));
    assert_eq!(GameState::try_from(0b10), Err(TicTacToeError::InvalidBoard));
}

#[test]
fn text_round_trip() {
    for text in ["         ", "XO  X   O", "XXOOO XOX", "XOXOXOOXX"] {
        let b = GameState::from_str(text).unwrap();
        assert_eq!(GameState::from_str(&b.to_string()), Ok(b));
    }
}

#[test]
fn turn_and_auto_set() {
    let mut b = GameState::new();
    assert_eq!(b.get_turn(), PlayerEnum::X);
    b.auto_set(4).unwrap();
    assert_eq!(b.get_turn(), PlayerEnum::O);
    b.auto_set(0).unwrap();
    assert_eq!(b.to_string(), "O   X    ");
    assert_eq!(b.get_turn(), PlayerEnum::X);
}

#[test]
fn winners_ties_validity() {
    let tie = GameState::from_str("XOXXOOOXX").unwrap();
    assert!(tie.is_tie());
    assert!(tie.is_valid());
    let o_won = GameState::from_str("OOOXX X  ").unwrap();
    assert!(o_won.is_winner(PlayerEnum::O));
    assert!(!o_won.is_winner(PlayerEnum::X));
    assert!(!o_won.is_tie());
    assert!(!GameState::new().is_tie());
    assert!(GameState::new().is_valid());
    let mut both = GameState::new();
    for (pos, m) in [(0, PlayerEnum::X), (1, PlayerEnum::X), (2, PlayerEnum::X), (3, PlayerEnum::O), (4, PlayerEnum::O), (5, PlayerEnum::O)] {
        both.set(pos, m).unwrap();
    }
    assert!(!both.is_valid());
}

#[test]
fn inverted_swaps_marks() {
    let b = GameState::from_str("XO  X   O").unwrap();
    assert_eq!(b.inverted().to_string(), "OX  O   X");
    assert_eq!(b.inverted().inverted(), b);
}

#[test]
fn displays() {
    let b = GameState::from_str("XO  X   O").unwrap();
    assert_eq!(b.get_display(), " X | O |   \n---+---+---\n   | X |   \n---+---+---\n   |   | O ");
    assert_eq!(
        b.get_numbered_display(),
        " \x1b[93mX\x1b[0m | \x1b[93mO\x1b[0m | 3 \n---+---+---\n 4 | \x1b[93mX\x1b[0m | 6 \n---+---+---\n 7 | 8 | \x1b[93mO\x1b[0m "
    );
    assert_eq!(b.as_vec(), vec!["X", "O", " ", " ", "X", " ", " ", " ", "O"]);
    assert_eq!(PlayerEnum::Empty.to_string(), " ");
    assert_eq!(PlayerEnum::O.to_string(), "O");
}
