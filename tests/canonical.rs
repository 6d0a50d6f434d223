use tictactoe::board_iterator::BoardIterator;
use tictactoe::canonical::{get_true_board, simplified_board};
use tictactoe::classify::{all_boards, board_eval, classify};
use tictactoe::game_state::GameState;

#[test]
fn four_quarter_turns() {
    let b = GameState::from_str("X O XOXO ").unwrap();
    let turned = b.transform(1, false).transform(1, false).transform(1, false).transform(1, false);
    assert_eq!(turned, b);
    assert!(b.transform(3, true).is_valid());
    assert_eq!(b.transform(5, false), b.transform(1, false));
}

#[test]
fn canonical_same_for_all_images() {
    let b = GameState::from_str("XO  X   O").unwrap();
    let c = simplified_board(b);
    for t in 0..8 {
        let img = b.transform(t % 4, t > 3);
        assert_eq!(simplified_board(img), c);
        assert_eq!(get_true_board(img), c);
    }
    assert_eq!(simplified_board(c), c);
    for t in 0..8 {
        assert!(c.get_raw() <= b.transform(t % 4, t > 3).get_raw());
    }
}

#[test]
fn canonical_of_corner_opening() {
    let corner = GameState::from_str("X        ").unwrap();
    let other = GameState::from_str("        X").unwrap();
    assert_eq!(simplified_board(corner), simplified_board(other));
    assert_ne!(simplified_board(corner), GameState::from_str("    X    ").unwrap());
}

#[test]
fn enumeration_first_boards() {
    let mut it = BoardIterator::new();
    assert_eq!(it.next(), Some(GameState::new()));
    let first = it.next().unwrap();
    assert_eq!(first.empty_positions().len(), 8);
}

#[test]
fn enumeration_classes() {
    let mut it = BoardIterator::new();
    let mut states = Vec::new();
    while let Some(s) = it.next() {
        states.push(s);
    }
    let r = classify(&states);
    assert_eq!(r.total, 765);
    assert_eq!(r.first_wins, 91);
    assert_eq!(r.second_wins, 44);
    assert_eq!(r.ties, 3);
    assert_eq!(r.incomplete, 627);
    assert_eq!(r.total, r.first_wins + r.second_wins + r.ties + r.incomplete);
}

#[test]
fn classify_small_list() {
    let a = GameState::from_str("X        ").unwrap();
    let b = GameState::from_str("  X      ").unwrap();
    let c = GameState::from_str("XXXOO    ").unwrap();
    let r = classify(&vec![a, b, c, GameState::new()]);
    assert_eq!(r.total, 3);
    assert_eq!(r.first_wins, 1);
    assert_eq!(r.second_wins, 0);
    assert_eq!(r.ties, 0);
    assert_eq!(r.incomplete, 2);
}

#[test]
fn board_eval_counts_classes() {
    let r = board_eval();
    assert_eq!(r.total, 765);
    assert_eq!(r.first_wins, 91);
    assert_eq!(r.second_wins, 44);
    assert_eq!(r.ties, 3);
    assert_eq!(r.incomplete, 627);
}

#[test]
fn walk_stops_after_a_win() {
    let boards = all_boards();
    assert_eq!(boards[0], GameState::new());
    assert!(boards.len() <= 1 + 9 * 362880);
    for w in boards.windows(2) {
        let (prev, next) = (w[0], w[1]);
        if prev.is_winner(tictactoe::game_state::PlayerEnum::X)
            || prev.is_winner(tictactoe::game_state::PlayerEnum::O)
        {
            assert_eq!(next.empty_positions().len(), 8);
        }
    }
    let mut it = BoardIterator::new();
    let mut n = 0usize;
    while it.next().is_some() {
        n += 1;
    }
    assert_eq!(n, boards.len());
    assert_eq!(it.next(), None);
}
