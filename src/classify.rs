use vstd::prelude::*;
use itertools::Itertools;
use crate::canonical::{canonical_raw, get_true_board};
use crate::encoding::wf_raw;
use crate::board_iterator::{all_cell_orders, empty_board, walk, BoardIterator};
use crate::game_state::{tie, valid, view_of, wins, GameState, PlayerEnum};

verus! {

/// Relies on `Itertools::unique`: the values without repeats (the first of each kept, in
/// order).
#[verifier::external_body]
pub(crate) fn unique_values(v: Vec<u32>) -> (r: Vec<u32>)
    ensures
        r@.no_duplicates(),
        r@.to_set() == v@.to_set(),
{
    v.into_iter().unique().collect()
}

/// How many classes of positions fall into each outcome.
#[derive(Debug, Clone, Copy, PartialEq, Eq, Structural)]
pub struct Classification {
    /// Classes of positions in all.
    pub total: usize,
    /// Classes where the first player has won.
    pub first_wins: usize,
    /// Classes where the second player has won.
    pub second_wins: usize,
    /// Classes where the board is full and nobody has won.
    pub ties: usize,
    /// Classes of positions where the game goes on.
    pub incomplete: usize,
}

/// The canonical words of the given boards.
pub open spec fn canonical_classes(states: Seq<GameState>) -> Set<u32> {
    states.map_values(|s: GameState| canonical_raw(s.spec_raw())).to_set()
}

/// The first player has won on the board with this word.
pub open spec fn first_won() -> spec_fn(u32) -> bool {
    |c: u32| wins(view_of(c), PlayerEnum::X)
}

/// The second player has won on the board with this word.
pub open spec fn second_won() -> spec_fn(u32) -> bool {
    |c: u32| wins(view_of(c), PlayerEnum::O)
}

/// The board with this word is a tie.
pub open spec fn tied() -> spec_fn(u32) -> bool {
    |c: u32| tie(view_of(c))
}

/// The game on the board with this word goes on.
pub open spec fn unfinished() -> spec_fn(u32) -> bool {
    |c: u32| !wins(view_of(c), PlayerEnum::X) && !wins(view_of(c), PlayerEnum::O) && !tie(view_of(c))
}

/// Counting the filtered values of a prefix one element longer, in a list without repeats.
/// `r` counts the classes of symmetric positions among `states`, by outcome.
pub open spec fn classified(states: Seq<GameState>, r: Classification) -> bool {
    &&& r.total == canonical_classes(states).len()
    &&& r.first_wins == canonical_classes(states).filter(first_won()).len()
    &&& r.second_wins == canonical_classes(states).filter(second_won()).len()
    &&& r.ties == canonical_classes(states).filter(tied()).len()
    &&& r.incomplete == canonical_classes(states).filter(unfinished()).len()
    &&& r.total == r.first_wins + r.second_wins + r.ties + r.incomplete
}

proof fn lemma_prefix_filter(u: Seq<u32>, i: int, p: spec_fn(u32) -> bool)
    requires
        u.no_duplicates(),
        0 <= i < u.len(),
    ensures
        u.subrange(0, i + 1).to_set().filter(p).len() == u.subrange(0, i).to_set().filter(p).len()
            + if p(u[i]) {
            1nat
        } else {
            0nat
        },
{
    broadcast use vstd::seq_lib::seq_to_set_is_finite;

    let a = u.subrange(0, i);
    let b = u.subrange(0, i + 1);
    assert(b =~= a.push(u[i]));
    a.lemma_push_to_set_commute(u[i]);
    assert(!a.to_set().contains(u[i])) by {
        if a.to_set().contains(u[i]) {
            let k = choose|k: int| 0 <= k < a.len() && a[k] == u[i];
            assert(u[k] == u[i]);
        }
    }
    let fa = a.to_set().filter(p);
    assert(fa.finite()) by {
        vstd::set_lib::lemma_len_subset(fa, a.to_set());
    }
    if p(u[i]) {
        assert(b.to_set().filter(p) =~= fa.insert(u[i]));
    } else {
        assert(b.to_set().filter(p) =~= fa);
    }
}

/// Sorts the boards into classes of symmetric positions and counts the classes of each outcome.
pub fn classify(states: &Vec<GameState>) -> (r: Classification)
    requires
        forall|i: int| 0 <= i < states@.len() ==> (#[trigger] states@[i]).wf() && valid(states@[i]@),
    ensures
        classified(states@, r),
{
    broadcast use vstd::seq_lib::seq_to_set_is_finite;

    let mut raws: Vec<u32> = Vec::new();
    let mut i: usize = 0;
    while i < states.len()
        invariant
            i <= states@.len(),
            forall|j: int| 0 <= j < states@.len() ==> (#[trigger] states@[j]).wf() && valid(states@[j]@),
            raws@ =~= states@.subrange(0, i as int).map_values(
                |s: GameState| canonical_raw(s.spec_raw()),
            ),
            forall|j: int| 0 <= j < i ==> wf_raw(#[trigger] raws@[j]) && valid(view_of(raws@[j])),
        decreases states@.len() - i,
    {
        let c = get_true_board(states[i]);
        assert(states@[i as int].wf() && valid(states@[i as int]@));
        raws.push(c.get_raw());
        i += 1;
    }
    assert(states@.subrange(0, states@.len() as int) =~= states@);
    let ghost all = raws@;
    let uniq = unique_values(raws);
    let mut first_wins: usize = 0;
    let mut second_wins: usize = 0;
    let mut ties: usize = 0;
    let mut incomplete: usize = 0;
    let mut k: usize = 0;
    assert(uniq@.subrange(0, 0).to_set() =~= Set::<u32>::empty());
    assert(Set::<u32>::empty().filter(first_won()) =~= Set::<u32>::empty());
    assert(Set::<u32>::empty().filter(second_won()) =~= Set::<u32>::empty());
    assert(Set::<u32>::empty().filter(tied()) =~= Set::<u32>::empty());
    assert(Set::<u32>::empty().filter(unfinished()) =~= Set::<u32>::empty());
    while k < uniq.len()
        invariant
            k <= uniq@.len(),
            uniq@.no_duplicates(),
            uniq@.to_set() == all.to_set(),
            forall|j: int| 0 <= j < all.len() ==> wf_raw(#[trigger] all[j]) && valid(view_of(all[j])),
            first_wins == uniq@.subrange(0, k as int).to_set().filter(first_won()).len(),
            second_wins == uniq@.subrange(0, k as int).to_set().filter(second_won()).len(),
            ties == uniq@.subrange(0, k as int).to_set().filter(tied()).len(),
            incomplete == uniq@.subrange(0, k as int).to_set().filter(unfinished()).len(),
            first_wins + second_wins + ties + incomplete == k,
        decreases uniq@.len() - k,
    {
        let c = uniq[k];
        proof {
            assert(uniq@.to_set().contains(c));
            assert(all.to_set().contains(c));
            let j = choose|j: int| 0 <= j < all.len() && all[j] == c;
            assert(wf_raw(all[j]) && valid(view_of(all[j])));
            lemma_prefix_filter(uniq@, k as int, first_won());
            lemma_prefix_filter(uniq@, k as int, second_won());
            lemma_prefix_filter(uniq@, k as int, tied());
            lemma_prefix_filter(uniq@, k as int, unfinished());
        }
        let g = match GameState::try_from(c) {
            Ok(g) => g,
            Err(_) => {
                proof {
                    assert(false);
                }
                GameState::new()
            },
        };
        if g.is_winner(PlayerEnum::X) {
            first_wins += 1;
        } else if g.is_winner(PlayerEnum::O) {
            second_wins += 1;
        } else if g.is_tie() {
            ties += 1;
        } else {
            incomplete += 1;
        }
        k += 1;
    }
    assert(uniq@.subrange(0, uniq@.len() as int) =~= uniq@);
    proof {
        uniq@.unique_seq_to_set();
    }
    Classification { total: k, first_wins, second_wins, ties, incomplete }
}

/// The boards that the walk hands out, as cell sequences.
pub open spec fn views(states: Seq<GameState>) -> Seq<Seq<PlayerEnum>> {
    states.map_values(|s: GameState| s@)
}

/// Every board of every game, in the order of the walk: the empty board, then for each
/// ordering of the nine cells the board after each of its moves, up to the move that wins or
/// fills the board.
pub fn all_boards() -> (r: Vec<GameState>)
    ensures
        exists|orders: Seq<Seq<usize>>|
            all_cell_orders(orders) && views(r@) == seq![empty_board()] + walk(orders),
        forall|i: int| 0 <= i < r@.len() ==> (#[trigger] r@[i]).wf() && valid(r@[i]@),
{
    let mut it = BoardIterator::new();
    let ghost orders = it.spec_left();
    let mut states: Vec<GameState> = Vec::new();
    assert(views(states@) =~= Seq::<Seq<PlayerEnum>>::empty());
    loop
        invariant
            it.wf(),
            all_cell_orders(orders),
            views(states@) + it.rest() == seq![empty_board()] + walk(orders),
            forall|i: int| 0 <= i < states@.len() ==> (#[trigger] states@[i]).wf() && valid(states@[i]@),
        ensures
            all_cell_orders(orders),
            views(states@) == seq![empty_board()] + walk(orders),
            forall|i: int| 0 <= i < states@.len() ==> (#[trigger] states@[i]).wf() && valid(states@[i]@),
        decreases it.rest().len(),
    {
        let ghost before = states@;
        let ghost rest_before = it.rest();
        match it.next() {
            Some(s) => {
                states.push(s);
                proof {
                    assert(views(states@) =~= views(before).push(s@));
                    assert(views(states@) + it.rest() =~= views(before) + rest_before);
                }
            },
            None => {
                assert(views(states@) + rest_before =~= views(states@));
                assert(views(states@) + it.rest() =~= views(states@));
                break;
            },
        }
    }
    states
}

/// Walks every game and counts the classes of symmetric positions reached, by outcome.
pub fn board_eval() -> (r: Classification)
    ensures
        exists|states: Seq<GameState>, orders: Seq<Seq<usize>>|
            all_cell_orders(orders) && views(states) == seq![empty_board()] + walk(orders)
                && classified(states, r),
{
    let states = all_boards();
    classify(&states)
}

} // verus!
