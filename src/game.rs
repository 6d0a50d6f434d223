use vstd::prelude::*;
use crate::errors::TicTacToeError;
use crate::game_state::{tie, wins, GameState, PlayerEnum};

verus! {

/// Where a game stands after a turn.
#[derive(Debug, Clone, Copy, PartialEq, Eq, Structural)]
pub enum GameStatus {
    /// Nobody has won and a cell is free: the other player moves next.
    InProgress,
    /// The player has a whole row, column or diagonal.
    Won(PlayerEnum),
    /// Every cell is taken and nobody has won.
    Tie,
}

/// The outcome that a board shows, testing the first player's lines first.
pub open spec fn status_of(v: Seq<PlayerEnum>) -> GameStatus {
    if wins(v, PlayerEnum::X) {
        GameStatus::Won(PlayerEnum::X)
    } else if wins(v, PlayerEnum::O) {
        GameStatus::Won(PlayerEnum::O)
    } else if tie(v) {
        GameStatus::Tie
    } else {
        GameStatus::InProgress
    }
}

/// The other player.
pub open spec fn other(p: PlayerEnum) -> PlayerEnum {
    if p == PlayerEnum::X {
        PlayerEnum::O
    } else {
        PlayerEnum::X
    }
}

/// A game in play: the board and the player to move. Players are asked for moves elsewhere;
/// this decides what a move does and when the game ends.
pub struct Game {
    game_state: GameState,
    turn: PlayerEnum,
}

impl Game {
    /// The board.
    pub closed spec fn spec_state(&self) -> GameState {
        self.game_state
    }

    /// The player to move.
    pub closed spec fn spec_turn(&self) -> PlayerEnum {
        self.turn
    }

    /// The board is well formed and a player, not the empty mark, is to move.
    pub open spec fn wf(&self) -> bool {
        self.spec_state().wf() && self.spec_turn() != PlayerEnum::Empty
    }

    /// A game on the empty board, the first player to move.
    pub fn new() -> (r: Game)
        ensures
            r.wf(),
            r.spec_state().spec_raw() == 0,
            r.spec_turn() == PlayerEnum::X,
    {
        Game { game_state: GameState::new(), turn: PlayerEnum::X }
    }

    /// The board.
    pub fn game_state(&self) -> (r: GameState)
        ensures
            r == self.spec_state(),
    {
        self.game_state
    }

    /// The player to move.
    pub fn turn(&self) -> (r: PlayerEnum)
        ensures
            r == self.spec_turn(),
    {
        self.turn
    }

    /// The player to move takes cell `index`; a cell that is not free is an illegal move and
    /// leaves the game as it is.
    pub fn play_turn(&mut self, index: usize) -> (r: Result<(), TicTacToeError>)
        requires
            old(self).wf(),
        ensures
            final(self).wf(),
            final(self).spec_turn() == old(self).spec_turn(),
            (r is Ok) == (index < 9 && old(self).spec_state()@[index as int] == PlayerEnum::Empty),
            r is Ok ==> final(self).spec_state()@ == old(self).spec_state()@.update(
                index as int,
                old(self).spec_turn(),
            ),
            r is Err ==> r == Err::<(), TicTacToeError>(TicTacToeError::IllegalMove)
                && final(self).spec_state() == old(self).spec_state(),
    {
        let valid_moves = self.game_state.empty_positions();
        let ghost v = self.game_state@;
        proof {
            crate::game_state::lemma_empties(v, 9);
            lemma_empties_complete(v, 9);
        }
        let mut found = false;
        let mut k: usize = 0;
        while k < valid_moves.len()
            invariant
                valid_moves@ == crate::game_state::empties(v, 9),
                k <= valid_moves@.len(),
                found == exists|j: int| 0 <= j < k && valid_moves@[j] == index,
            decreases valid_moves@.len() - k,
        {
            if valid_moves[k] == index {
                found = true;
            }
            k += 1;
        }
        if !found {
            return Err(TicTacToeError::IllegalMove);
        }
        let _ = self.game_state.set(index, self.turn);
        Ok(())
    }

    /// Ends a turn: says whether a player has won or the board is full, and otherwise hands
    /// the move to the other player.
    pub fn end_turn(&mut self) -> (r: GameStatus)
        requires
            old(self).wf(),
        ensures
            final(self).wf(),
            r == status_of(old(self).spec_state()@),
            final(self).spec_state() == old(self).spec_state(),
            r == GameStatus::InProgress ==> final(self).spec_turn() == other(old(self).spec_turn()),
            r != GameStatus::InProgress ==> final(self).spec_turn() == old(self).spec_turn(),
    {
        if self.game_state.is_winner(PlayerEnum::X) {
            return GameStatus::Won(PlayerEnum::X);
        } else if self.game_state.is_winner(PlayerEnum::O) {
            return GameStatus::Won(PlayerEnum::O);
        } else if self.game_state.is_tie() {
            return GameStatus::Tie;
        }
        self.turn = match self.turn {
            PlayerEnum::X => PlayerEnum::O,
            _ => PlayerEnum::X,
        };
        GameStatus::InProgress
    }
}

/// Every empty cell among the first `n` is listed.
proof fn lemma_empties_complete(v: Seq<PlayerEnum>, n: int)
    requires
        0 <= n <= v.len(),
        n <= 9,
    ensures
        forall|c: int|
            0 <= c < n && v[c] == PlayerEnum::Empty ==> exists|j: int|
                0 <= j < crate::game_state::empties(v, n).len()
                    && crate::game_state::empties(v, n)[j] == c,
    decreases n,
{
    if n > 0 {
        lemma_empties_complete(v, n - 1);
        let prev = crate::game_state::empties(v, n - 1);
        assert forall|c: int|
            0 <= c < n && v[c] == PlayerEnum::Empty implies exists|j: int|
                0 <= j < crate::game_state::empties(v, n).len()
                    && crate::game_state::empties(v, n)[j] == c by {
            if c < n - 1 {
                let j = choose|j: int| 0 <= j < prev.len() && prev[j] == c;
                if v[n - 1] == PlayerEnum::Empty {
                    assert(crate::game_state::empties(v, n)[j] == c);
                } else {
                    assert(crate::game_state::empties(v, n)[j] == c);
                }
            } else {
                assert(crate::game_state::empties(v, n)[prev.len() as int] == c);
            }
        }
    }
}

} // verus!
