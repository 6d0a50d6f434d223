use tictactoe::board::{Board, PlayerEnum};

#[test]
fn board_test_is_winner_x() {
    let winning_boards = ["XXX O OXO", "XO  X OOX"];
    for board in winning_boards.iter() {
        let board = Board::from_string(board);
        assert!(board.is_winner(PlayerEnum::X));
    }
}

#[test]
fn board_set_and_get() {
    let mut b = Board::new();
    assert!(b.set(4, PlayerEnum::X));
    assert!(!b.set(4, PlayerEnum::O));
    assert!(!b.set(9, PlayerEnum::O));
    assert!(b.set(0, PlayerEnum::O));
    assert_eq!(b.get(4), PlayerEnum::X);
    assert_eq!(b.get(0), PlayerEnum::O);
    assert!(b.is_empty(8));
    assert_eq!(b.to_string(), "O   X    ");
    assert_eq!(b.get_raw(), 0b10 | (0b01 << 8));
}

#[test]
fn board_from_string_ignores_other_characters() {
    let b = Board::from_string("X.O-?X");
    assert_eq!(b.to_string(), "X O  X   ");
    let long = Board::from_string("OOOOOOOOOXXXX");
    assert_eq!(long.to_string(), "OOOOOOOOO");
}

#[test]
fn board_rotate_and_invert() {
    let b = Board::from_string("X O XOXO ");
    assert_eq!(b.rotate(1).to_string(), "X XOX  OO");
    assert_eq!(b.rotate(4).to_string(), "X O XOXO ");
    assert_eq!(b.inverted().to_string(), "O X OXOX ");
    let mut c = Board::from_raw(0);
    c.set_raw(b.get_raw());
    assert_eq!(c.to_string(), b.to_string());
}

#[test]
fn board_winner_and_validity() {
    let o = Board::from_string("OOOXX X  ");
    assert!(o.is_winner(PlayerEnum::O));
    assert!(!o.is_winner(PlayerEnum::X));
    assert!(o.is_valid());
    assert!(!Board::from_string("XXXOOO   ").is_valid());
    assert!(!Board::from_string("XX       ").is_valid());
    assert!(!Board::from_string("XOXOXOXOX").is_winner(PlayerEnum::O));
    assert_eq!(
        Board::from_string("XO  X   O").get_display(),
        " X | O |   \n---+---+---\n   | X |   \n---+---+---\n   |   | O "
    );
}
