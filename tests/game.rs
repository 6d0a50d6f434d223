use tictactoe::errors::TicTacToeError;
use tictactoe::game::{Game, GameStatus};
use tictactoe::game_state::PlayerEnum;

#[test]
fn game_moves_and_turns() {
    let mut g = Game::new();
    assert_eq!(g.turn(), PlayerEnum::X);
    assert_eq!(g.play_turn(4), Ok(()));
    assert_eq!(g.end_turn(), GameStatus::InProgress);
    assert_eq!(g.turn(), PlayerEnum::O);
    assert_eq!(g.play_turn(4), Err(TicTacToeError::IllegalMove));
    assert_eq!(g.play_turn(9), Err(TicTacToeError::IllegalMove));
    assert_eq!(g.game_state().to_string(), "    X    ");
    assert_eq!(g.play_turn(0), Ok(()));
    assert_eq!(g.game_state().to_string(), "O   X    ");
}

#[test]
fn game_ends_with_winner() {
    let mut g = Game::new();
    for pos in [0, 3, 1, 4] {
        g.play_turn(pos).unwrap();
        assert_eq!(g.end_turn(), GameStatus::InProgress);
    }
    g.play_turn(2).unwrap();
    assert_eq!(g.end_turn(), GameStatus::Won(PlayerEnum::X));
}

#[test]
fn game_ends_in_tie() {
    let mut g = Game::new();
    let moves = [0, 1, 2, 4, 3, 5, 7, 6, 8];
    for (i, pos) in moves.iter().enumerate() {
        g.play_turn(*pos).unwrap();
        let status = g.end_turn();
        if i < 8 {
            assert_eq!(status, GameStatus::InProgress);
        } else {
            assert_eq!(status, GameStatus::Tie);
        }
    }
    assert_eq!(g.game_state().to_string(), "XOXXOOOXX");
}
