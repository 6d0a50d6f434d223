use vstd::prelude::*;
use itertools::structs::Permutations;
use itertools::Itertools;
use std::ops::Range;
use crate::encoding::BOARD_SIZE;
use crate::game_state::{
    count, lemma_count9, lemma_count_update, lemma_wins_update, turn, valid, wins, GameState,
    PlayerEnum,
};

verus! {

#[verifier::external_type_specification]
#[verifier::external_body]
#[verifier::reject_recursive_types(I)]
pub struct ExPermutations<I: Iterator>(Permutations<I>);

/// The orderings that a permutation source has still to hand out, in the order it hands them
/// out.
pub uninterp spec fn orderings_left(p: Permutations<Range<usize>>) -> Seq<Seq<usize>>;

/// The sequence lists `k` distinct values below `n`.
pub open spec fn is_ordering(o: Seq<usize>, n: nat, k: nat) -> bool {
    &&& o.len() == k
    &&& forall|j: int| 0 <= j < o.len() ==> #[trigger] o[j] < n
    &&& forall|a: int, b: int| 0 <= a < b < o.len() ==> o[a] != o[b]
}

/// The sequence lists each of the nine cells once.
pub open spec fn is_cell_order(o: Seq<usize>) -> bool {
    is_ordering(o, 9, 9)
}

/// Relies on `Itertools::permutations` over `0..n`: it hands out every sequence of `k`
/// distinct values of the range, each once.
#[verifier::external_body]
fn orderings(n: usize, k: usize) -> (r: Permutations<Range<usize>>)
    ensures
        orderings_left(r).no_duplicates(),
        forall|o: Seq<usize>| orderings_left(r).contains(o) <==> is_ordering(o, n as nat, k as nat),
{
    (0..n).permutations(k)
}

/// Relies on `Iterator::next` of itertools' `Permutations`: the first ordering left, or `None`
/// once none is left (it then stays exhausted).
#[verifier::external_body]
fn next_ordering(p: &mut Permutations<Range<usize>>) -> (r: Option<Vec<usize>>)
    ensures
        orderings_left(*old(p)).len() == 0 ==> r is None && orderings_left(*final(p)).len() == 0,
        orderings_left(*old(p)).len() > 0 ==> (r matches Some(v) && v@ == orderings_left(
            *old(p),
        )[0]) && orderings_left(*final(p)) == orderings_left(*old(p)).drop_first(),
{
    p.next()
}

/// The empty board.
pub open spec fn empty_board() -> Seq<PlayerEnum> {
    Seq::new(9, |i: int| PlayerEnum::Empty)
}

/// The mark of move `n`, counting from 0: the first player moves first.
pub open spec fn mover(n: int) -> PlayerEnum {
    if n % 2 == 0 {
        PlayerEnum::X
    } else {
        PlayerEnum::O
    }
}

/// The board after the first `n` moves of ordering `o`: move `j` marks cell `o[j]`.
pub open spec fn replay(o: Seq<usize>, n: int) -> Seq<PlayerEnum>
    decreases n,
{
    if n <= 0 {
        empty_board()
    } else {
        replay(o, n - 1).update(o[n - 1] as int, mover(n - 1))
    }
}

/// The boards of one game replayed from ordering `o`, from move `n` (counting from 1) on: each
/// move's board, up to the move that wins or fills the board.
pub open spec fn game_from(o: Seq<usize>, n: int) -> Seq<Seq<PlayerEnum>>
    decreases 10 - n,
{
    if n < 1 || n > 9 {
        Seq::empty()
    } else if wins(replay(o, n), mover(n - 1)) || n >= 9 {
        seq![replay(o, n)]
    } else {
        seq![replay(o, n)] + game_from(o, n + 1)
    }
}

/// The boards of the games replayed from each ordering in turn.
pub open spec fn walk(orders: Seq<Seq<usize>>) -> Seq<Seq<PlayerEnum>>
    decreases orders.len(),
{
    if orders.len() == 0 {
        Seq::empty()
    } else {
        game_from(orders[0], 1) + walk(orders.drop_first())
    }
}

/// The orderings are all the orderings of the nine cells, each once.
pub open spec fn all_cell_orders(orders: Seq<Seq<usize>>) -> bool {
    &&& orders.no_duplicates()
    &&& forall|o: Seq<usize>| orders.contains(o) <==> is_cell_order(o)
}

/// `s` is `base` with one more move, made by the player whose turn it is.
pub open spec fn one_move(base: Seq<PlayerEnum>, s: Seq<PlayerEnum>) -> bool {
    exists|pos: int|
        0 <= pos < 9 && base[pos] == PlayerEnum::Empty && s == base.update(pos, turn(base))
}

/// Walks every game of the board: each ordering of the nine cells is replayed as a sequence of
/// moves, the first player first, until a player wins; the board after each move is handed out,
/// and the empty board once before all of them.
pub struct BoardIterator {
    board: GameState,
    started: bool,
    permutations: Permutations<Range<usize>>,
    current_turn_order: Option<Vec<usize>>,
    turn_index: usize,
}

impl BoardIterator {
    /// The board that the last move produced.
    pub closed spec fn spec_board(&self) -> GameState {
        self.board
    }

    /// Whether the empty board has been handed out.
    pub closed spec fn spec_started(&self) -> bool {
        self.started
    }

    /// The orderings not yet begun, in the order they will be replayed.
    pub closed spec fn spec_left(&self) -> Seq<Seq<usize>> {
        orderings_left(self.permutations)
    }

    /// The ordering being replayed, if any.
    pub closed spec fn spec_current(&self) -> Option<Seq<usize>> {
        match self.current_turn_order {
            Some(v) => Some(v@),
            None => None,
        }
    }

    /// How many moves of the current ordering have been replayed.
    pub closed spec fn spec_turn_index(&self) -> nat {
        self.turn_index as nat
    }

    /// No move of the current ordering is left to replay: none is being replayed, or all nine
    /// cells are taken.
    pub open spec fn replay_done(&self) -> bool {
        self.spec_current() is None || self.spec_turn_index() >= 9
    }

    /// A bound on the boards still to come: nine for each ordering not begun, the moves left
    /// of the current one, and the empty board if it has not been handed out.
    pub open spec fn steps_left(&self) -> nat {
        (if self.spec_started() {
            0nat
        } else {
            1nat
        }) + 9 * self.spec_left().len() + if self.replay_done() {
            0nat
        } else {
            (9 - self.spec_turn_index()) as nat
        }
    }

    /// The boards still to come, in order: the empty board if it has not been handed out, the
    /// rest of the current game, then the games of the orderings left.
    pub open spec fn rest(&self) -> Seq<Seq<PlayerEnum>> {
        (if self.spec_started() {
            Seq::empty()
        } else {
            seq![empty_board()]
        }) + (if self.replay_done() {
            Seq::empty()
        } else {
            game_from(self.spec_current().unwrap(), self.spec_turn_index() + 1int)
        }) + walk(self.spec_left())
    }

    /// Every ordering left lists the nine cells once; while an ordering is being replayed the
    /// board is its replay so far, the cells still to come are empty, and nobody has won.
    pub closed spec fn wf(&self) -> bool {
        &&& self.board.wf()
        &&& !self.started ==> self.current_turn_order is None
        &&& forall|o: Seq<usize>|
            #[trigger] orderings_left(self.permutations).contains(o) ==> is_cell_order(o)
        &&& self.current_turn_order matches Some(order) ==> {
            &&& is_cell_order(order@)
            &&& self.turn_index <= 9
            &&& self.board@ == replay(order@, self.turn_index as int)
            &&& forall|j: int| self.turn_index <= j < 9 ==> #[trigger] self.board@[order@[j] as int]
                == PlayerEnum::Empty
            &&& count(self.board@, PlayerEnum::X) == (self.turn_index as nat + 1) / 2
            &&& count(self.board@, PlayerEnum::O) == self.turn_index as nat / 2
            &&& !wins(self.board@, PlayerEnum::X)
            &&& !wins(self.board@, PlayerEnum::O)
        }
    }

    /// A walk that has not begun: every ordering of the nine cells is left, each once.
    pub fn new() -> (r: BoardIterator)
        ensures
            r.wf(),
            !r.spec_started(),
            r.replay_done(),
            all_cell_orders(r.spec_left()),
            r.rest() == seq![empty_board()] + walk(r.spec_left()),
    {
        BoardIterator {
            board: GameState::new(),
            started: false,
            permutations: orderings(BOARD_SIZE, BOARD_SIZE),
            current_turn_order: None,
            turn_index: 0,
        }
    }

    /// The next board of the walk. The first call gives the empty board. Later calls go on
    /// with the current ordering: the next move's board, the ordering being dropped once that
    /// move wins. When it is done, the next ordering left is begun with its first move. Once
    /// no ordering is left the result is `None`. Every board handed out is valid.
    pub fn next(&mut self) -> (r: Option<GameState>)
        requires
            old(self).wf(),
        ensures
            final(self).wf(),
            final(self).spec_started(),
            r matches Some(s) ==> s.wf() && valid(s@) && s == final(self).spec_board(),
            r is Some ==> final(self).steps_left() < old(self).steps_left(),
            r matches Some(s) ==> old(self).rest() == seq![s@] + final(self).rest(),
            r is None ==> old(self).rest().len() == 0 && final(self).rest().len() == 0,
            r is None ==> old(self).spec_started() && old(self).replay_done() && old(
                self,
            ).spec_left().len() == 0,
            r is None ==> final(self).steps_left() == 0,
            !old(self).spec_started() ==> (r matches Some(s) && s@ == empty_board())
                && final(self).spec_left() == old(self).spec_left() && final(self).replay_done(),
            old(self).spec_started() && !old(self).replay_done() ==> ({
                let o = old(self).spec_current().unwrap();
                let ti = old(self).spec_turn_index() as int;
                &&& r matches Some(s) && s@ == replay(o, ti + 1)
                &&& final(self).spec_left() == old(self).spec_left()
                &&& final(self).spec_turn_index() == ti + 1
                &&& final(self).spec_current() == if wins(replay(o, ti + 1), mover(ti)) {
                    None
                } else {
                    Some(o)
                }
            }),
            old(self).spec_started() && old(self).replay_done() && old(self).spec_left().len()
                > 0 ==> ({
                let o = old(self).spec_left()[0];
                &&& r matches Some(s) && s@ == replay(o, 1)
                &&& final(self).spec_left() == old(self).spec_left().drop_first()
                &&& final(self).spec_turn_index() == 1
                &&& final(self).spec_current() == if wins(replay(o, 1), PlayerEnum::X) {
                    None
                } else {
                    Some(o)
                }
            }),
            old(self).spec_started() && (wins(old(self).spec_board()@, PlayerEnum::X) || wins(
                old(self).spec_board()@,
                PlayerEnum::O,
            )) ==> (r matches Some(s) ==> one_move(empty_board(), s@)),
    {
        if !self.started {
            self.started = true;
            self.board = GameState::new();
            let e = self.board;
            assert(e@ =~= empty_board());
            proof {
                lemma_count9(e@, PlayerEnum::X);
                lemma_count9(e@, PlayerEnum::O);
            }
            return Some(e);
        }
        if self.turn_index >= BOARD_SIZE {
            self.current_turn_order = None;
        }
        if self.current_turn_order.is_none() {
            let ghost left = orderings_left(self.permutations);
            self.turn_index = 0;
            self.board = GameState::new();
            let next = next_ordering(&mut self.permutations);
            match next {
                Some(order) => {
                    proof {
                        assert(left.contains(left[0]));
                        assert forall|o: Seq<usize>| #[trigger]
                            orderings_left(self.permutations).contains(o) implies is_cell_order(
                            o,
                        ) by {
                            let k = choose|k: int|
                                0 <= k < left.drop_first().len() && left.drop_first()[k] == o;
                            assert(left.drop_first()[k] == left[k + 1]);
                            assert(left.contains(left[k + 1]));
                        }
                    }
                    self.current_turn_order = Some(order);
                },
                None => {
                    return None;
                },
            }
            proof {
                assert(self.board@ =~= empty_board());
                assert(self.board@ =~= replay(self.current_turn_order.unwrap()@, 0));
                lemma_count9(self.board@, PlayerEnum::X);
                lemma_count9(self.board@, PlayerEnum::O);
            }
        }
        let ghost before = self.board;
        let ti = self.turn_index;
        let pos = match &self.current_turn_order {
            Some(order) => order[ti],
            None => 0,
        };
        let player_enum = if ti % 2 != 0 {
            PlayerEnum::O
        } else {
            PlayerEnum::X
        };
        proof {
            let order = self.current_turn_order.unwrap();
            assert(self.board@[order@[ti as int] as int] == PlayerEnum::Empty);
            assert(player_enum == turn(before@));
            assert(player_enum == mover(ti as int));
            lemma_count_update(before@, pos as int, player_enum, PlayerEnum::X);
            lemma_count_update(before@, pos as int, player_enum, PlayerEnum::O);
            lemma_wins_update(
                before@,
                pos as int,
                player_enum,
                if player_enum == PlayerEnum::X {
                    PlayerEnum::O
                } else {
                    PlayerEnum::X
                },
            );
        }
        let _ = self.board.set(pos, player_enum);
        proof {
            let order = self.current_turn_order.unwrap();
            assert forall|j: int| ti + 1 <= j < 9 implies #[trigger] self.board@[order@[j] as int]
                == PlayerEnum::Empty by {
                assert(order@[j] != order@[ti as int]);
            }
            assert(self.board@ == replay(order@, ti + 1));
            if ti == 0 {
                lemma_count9(before@, PlayerEnum::X);
                lemma_count9(before@, PlayerEnum::O);
                assert(before@ =~= empty_board());
                assert(one_move(empty_board(), self.board@));
            }
        }
        if self.board.is_winner(player_enum) {
            self.current_turn_order = None;
        }
        self.turn_index = ti + 1;
        Some(self.board)
    }
}

} // verus!
