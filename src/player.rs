use vstd::prelude::*;
use crate::canonical::{canonical_raw, simplified_board};
use crate::classify::unique_values;
use crate::encoding::wf_raw;
use crate::game_state::{
    empties, encode, lemma_empties, turn, valid, view_of, GameState, PlayerEnum,
};

verus! {

/// The boards one move on from `v`, one for each empty cell in ascending order.
pub open spec fn child_boards(v: Seq<PlayerEnum>) -> Seq<Seq<PlayerEnum>> {
    empties(v, 9).map_values(|e: usize| v.update(e as int, turn(v)))
}

/// The canonical words of the boards one move on from `v`.
pub open spec fn child_classes(v: Seq<PlayerEnum>) -> Set<u32> {
    child_boards(v).map_values(|c: Seq<PlayerEnum>| canonical_raw(encode(c))).to_set()
}

/// A position of the game tree, with the packed word of the position it came from.
pub struct BoardNode {
    game_state: GameState,
    parent: Option<u32>,
}

impl BoardNode {
    /// The position.
    pub closed spec fn spec_state(&self) -> GameState {
        self.game_state
    }

    /// The packed word of the position before, if any.
    pub closed spec fn spec_parent(&self) -> Option<u32> {
        self.parent
    }

    /// The position is well formed and the position before is a valid board.
    pub open spec fn wf(&self) -> bool {
        &&& self.spec_state().wf()
        &&& self.spec_parent() matches Some(p) ==> wf_raw(p) && valid(view_of(p))
    }

    /// The root (no parent: the empty board), or the position one move on from the valid board
    /// `parent`, the player to move taking cell `pos`.
    pub fn new(parent: Option<u32>, pos: usize) -> (r: BoardNode)
        requires
            parent matches Some(p) ==> wf_raw(p) && valid(view_of(p)) && pos < 9 && view_of(
                p,
            )[pos as int] == PlayerEnum::Empty,
        ensures
            r.wf(),
            r.spec_parent() == parent,
            parent is None ==> r.spec_state().spec_raw() == 0,
            parent matches Some(p) ==> r.spec_state()@ == view_of(p).update(
                pos as int,
                turn(view_of(p)),
            ),
    {
        if let Some(p) = parent {
            let mut parent_gs = match GameState::try_from(p) {
                Ok(g) => g,
                Err(_) => GameState::new(),
            };
            let _ = parent_gs.auto_set(pos);
            return BoardNode { game_state: parent_gs, parent: parent };
        }
        BoardNode { game_state: GameState::new(), parent: None }
    }

    /// The positions one move on, one for each empty cell in ascending order.
    pub fn children(&self) -> (r: Vec<GameState>)
        requires
            self.wf(),
        ensures
            r@.len() == child_boards(self.spec_state()@).len(),
            forall|k: int|
                0 <= k < r@.len() ==> (#[trigger] r@[k]).wf() && r@[k]@ == child_boards(
                    self.spec_state()@,
                )[k],
    {
        let ghost v = self.game_state@;
        let mut children: Vec<GameState> = Vec::new();
        let positions = self.game_state.empty_positions();
        proof {
            lemma_empties(v, 9);
        }
        let mut k: usize = 0;
        while k < positions.len()
            invariant
                self.wf(),
                v == self.game_state@,
                positions@ == empties(v, 9),
                k <= positions@.len(),
                children@.len() == k,
                forall|j: int|
                    0 <= j < k ==> (#[trigger] children@[j]).wf() && children@[j]@ == child_boards(
                        v,
                    )[j],
                forall|j: int|
                    0 <= j < empties(v, 9).len() ==> #[trigger] empties(v, 9)[j] < 9 && v[empties(
                        v,
                        9,
                    )[j] as int] == PlayerEnum::Empty,
            decreases positions@.len() - k,
        {
            let pos = positions[k];
            let mut child = self.game_state;
            let _ = child.auto_set(pos);
            children.push(child);
            k += 1;
        }
        children
    }

    /// The canonical forms of the positions one move on, each once.
    pub fn unique_children(&self) -> (r: Vec<GameState>)
        requires
            self.wf(),
        ensures
            forall|k: int| 0 <= k < r@.len() ==> (#[trigger] r@[k]).wf(),
            r@.map_values(|g: GameState| g.spec_raw()).no_duplicates(),
            r@.map_values(|g: GameState| g.spec_raw()).to_set() == child_classes(
                self.spec_state()@,
            ),
    {
        let children = self.children();
        let ghost v = self.game_state@;
        let mut raws: Vec<u32> = Vec::new();
        let mut i: usize = 0;
        while i < children.len()
            invariant
                i <= children@.len(),
                children@.len() == child_boards(v).len(),
                forall|k: int|
                    0 <= k < children@.len() ==> (#[trigger] children@[k]).wf() && children@[k]@
                        == child_boards(v)[k],
                raws@ =~= child_boards(v).subrange(0, i as int).map_values(
                    |c: Seq<PlayerEnum>| canonical_raw(encode(c)),
                ),
                forall|k: int| 0 <= k < i ==> wf_raw(#[trigger] raws@[k]),
            decreases children@.len() - i,
        {
            let child = children[i];
            let c = simplified_board(child);
            proof {
                GameState::lemma_from_own_view(child);
                GameState::lemma_from_view(child@);
            }
            raws.push(c.get_raw());
            i += 1;
        }
        assert(child_boards(v).subrange(0, child_boards(v).len() as int) =~= child_boards(v));
        let ghost all = raws@;
        let uniq = unique_values(raws);
        let mut out: Vec<GameState> = Vec::new();
        let mut k: usize = 0;
        while k < uniq.len()
            invariant
                k <= uniq@.len(),
                uniq@.to_set() == all.to_set(),
                forall|j: int| 0 <= j < all.len() ==> wf_raw(#[trigger] all[j]),
                out@.len() == k,
                forall|j: int| 0 <= j < k ==> (#[trigger] out@[j]).wf() && out@[j].spec_raw() == uniq@[j],
            decreases uniq@.len() - k,
        {
            let c = uniq[k];
            proof {
                assert(uniq@.to_set().contains(c));
                assert(all.to_set().contains(c));
            }
            out.push(GameState::from_wf_raw(c));
            k += 1;
        }
        assert(out@.map_values(|g: GameState| g.spec_raw()) =~= uniq@);
        out
    }

    /// The position before, if any.
    pub fn parent_board(&self) -> (r: Option<GameState>)
        requires
            self.wf(),
        ensures
            self.spec_parent() is None ==> r is None,
            self.spec_parent() matches Some(p) ==> (r matches Some(g) && g.spec_raw() == p && g.wf()),
    {
        if let Some(p) = self.parent {
            return match GameState::try_from(p) {
                Ok(g) => Some(g),
                Err(_) => None,
            };
        }
        None
    }

    /// The position.
    pub fn game_state(&self) -> (r: GameState)
        ensures
            r == self.spec_state(),
    {
        self.game_state
    }
}

} // verus!
