use vstd::prelude::*;
use vstd::string::*;
pub use crate::game_state::PlayerEnum;
use crate::encoding::{
    cell_code, inverted_raw, lemma_code_bound, lemma_inverted_field, lemma_line_mask,
    lemma_set_field, line_mask, BOARD_SIZE,
};
use crate::game_state::{
    code_of, count, draw_grid, grid_text, lemma_count_step, line_cell, mark_char, plain_cells,
    transform_raw, GameState,
};

verus! {

/// The mark that a field code shows on a plain board: codes 2 and 3 both show the second
/// player.
pub open spec fn board_mark(c: u32) -> PlayerEnum {
    if c == 0 {
        PlayerEnum::Empty
    } else if c == 1 {
        PlayerEnum::X
    } else {
        PlayerEnum::O
    }
}

/// The nine cells of a plain board word, in row-major order.
pub open spec fn board_cells(raw: u32) -> Seq<PlayerEnum> {
    Seq::new(9, |i: int| board_mark(cell_code(raw, i)))
}

/// Line `k` of the word is held by `player`: for `X` all three fields have their low bit set,
/// for any other mark all three fields hold code 2.
pub open spec fn board_line(raw: u32, k: int, player: PlayerEnum) -> bool {
    if player == PlayerEnum::X {
        &&& cell_code(raw, line_cell(k, 0)) & 1 == 1
        &&& cell_code(raw, line_cell(k, 1)) & 1 == 1
        &&& cell_code(raw, line_cell(k, 2)) & 1 == 1
    } else {
        &&& cell_code(raw, line_cell(k, 0)) == 2
        &&& cell_code(raw, line_cell(k, 1)) == 2
        &&& cell_code(raw, line_cell(k, 2)) == 2
    }
}

/// Some row, column or diagonal of the word is held by `player`.
pub open spec fn board_wins(raw: u32, player: PlayerEnum) -> bool {
    exists|k: int| 0 <= k < 8 && board_line(raw, k, player)
}

/// The board that text shows: cell `i` holds `X` or `O` where character `i` is one, and is empty
/// otherwise; characters past the ninth are ignored.
pub open spec fn cells_from_text(cs: Seq<char>) -> Seq<PlayerEnum> {
    Seq::new(
        9,
        |i: int|
            if i < cs.len() && cs[i] == 'X' {
                PlayerEnum::X
            } else if i < cs.len() && cs[i] == 'O' {
                PlayerEnum::O
            } else {
                PlayerEnum::Empty
            },
    )
}

/// A plain board word, cell `i` at bits `2i` and `2i + 1`, with no check on what it holds.
pub struct Board {
    raw: u32,
}

impl Board {
    /// The packed word.
    pub closed spec fn spec_raw(&self) -> u32 {
        self.raw
    }

    /// The empty board.
    pub fn new() -> (r: Board)
        ensures
            r.spec_raw() == 0,
    {
        Board { raw: 0 }
    }

    /// The board with the given word.
    pub fn from_raw(raw: u32) -> (r: Board)
        ensures
            r.spec_raw() == raw,
    {
        Board { raw }
    }

    /// The packed word.
    pub fn get_raw(&self) -> (r: u32)
        ensures
            r == self.spec_raw(),
    {
        self.raw
    }

    /// Replaces the packed word.
    pub fn set_raw(&mut self, raw: u32)
        ensures
            final(self).spec_raw() == raw,
    {
        self.raw = raw
    }

    /// The field code of cell `pos`.
    fn field(&self, pos: u8) -> (r: u32)
        requires
            pos < 9,
        ensures
            r == cell_code(self.spec_raw(), pos as int),
            r <= 3,
    {
        let raw = self.raw;
        let s: u32 = (2 * pos) as u32;
        let r = (raw >> s) & 3;
        assert(r <= 3) by (bit_vector)
            requires
                r == (raw >> s) & 3,
        ;
        r
    }

    /// The mark in cell `pos`.
    pub fn get(&self, pos: u8) -> (r: PlayerEnum)
        requires
            pos < 9,
        ensures
            r == board_cells(self.spec_raw())[pos as int],
    {
        let player = self.field(pos);
        if player == 0 {
            PlayerEnum::Empty
        } else if player == 1 {
            PlayerEnum::X
        } else {
            PlayerEnum::O
        }
    }

    /// Whether cell `pos` is empty.
    pub fn is_empty(&self, pos: u8) -> (r: bool)
        requires
            pos < 9,
        ensures
            r == (board_cells(self.spec_raw())[pos as int] == PlayerEnum::Empty),
    {
        match self.get(pos) {
            PlayerEnum::Empty => true,
            _ => false,
        }
    }

    /// Puts `value` into cell `pos` if that is a cell and it is empty, and says whether it did;
    /// otherwise the board is left as it is.
    pub fn set(&mut self, pos: u8, value: PlayerEnum) -> (r: bool)
        ensures
            r == (pos < 9 && cell_code(old(self).spec_raw(), pos as int) == 0),
            r ==> forall|j: int|
                0 <= j < 9 ==> #[trigger] cell_code(final(self).spec_raw(), j) == if j == pos {
                    code_of(value)
                } else {
                    cell_code(old(self).spec_raw(), j)
                },
            r ==> final(self).spec_raw() == old(self).spec_raw() | (code_of(value) << ((2 * pos) as u32)),
            !r ==> final(self).spec_raw() == old(self).spec_raw(),
    {
        if pos > 8 || !self.is_empty(pos) {
            return false;
        }
        let ghost before = self.raw;
        let c = value.code();
        let s: u32 = (2 * pos) as u32;
        proof {
            lemma_code_bound(before, pos as int);
        }
        self.raw = self.raw | (c << s);
        proof {
            assert forall|j: int| 0 <= j < 9 implies #[trigger] cell_code(self.raw, j) == if j
                == pos {
                c
            } else {
                cell_code(before, j)
            } by {
                lemma_set_field(before, pos as u32, c, j as u32);
            }
        }
        true
    }

    /// The board with the two players' marks swapped and empty cells kept.
    pub fn inverted(&self) -> (r: Board)
        ensures
            r.spec_raw() == inverted_raw(self.spec_raw()),
    {
        let raw = self.raw;
        let mut piece_mask = ((raw & 0x000AAAAA) >> 1) | (raw & 0x00055555);
        piece_mask |= piece_mask << 1;
        Board::from_raw(!raw & piece_mask)
    }

    /// The board turned `times` quarter turns clockwise.
    pub fn rotate(&self, times: i32) -> (r: Board)
        requires
            times >= 0,
        ensures
            r.spec_raw() == transform_raw(self.spec_raw(), times as int % 4),
    {
        let t: usize = (times % 4) as usize;
        let c0 = self.field(GameState::source_cell_exec(t, 0) as u8);
        let c1 = self.field(GameState::source_cell_exec(t, 1) as u8);
        let c2 = self.field(GameState::source_cell_exec(t, 2) as u8);
        let c3 = self.field(GameState::source_cell_exec(t, 3) as u8);
        let c4 = self.field(GameState::source_cell_exec(t, 4) as u8);
        let c5 = self.field(GameState::source_cell_exec(t, 5) as u8);
        let c6 = self.field(GameState::source_cell_exec(t, 6) as u8);
        let c7 = self.field(GameState::source_cell_exec(t, 7) as u8);
        let c8 = self.field(GameState::source_cell_exec(t, 8) as u8);
        let raw = c0 | (c1 << 2u32) | (c2 << 4u32) | (c3 << 6u32) | (c4 << 8u32) | (c5 << 10u32)
            | (c6 << 12u32) | (c7 << 14u32) | (c8 << 16u32);
        Board { raw }
    }

    /// The text of each cell, in row-major order.
    fn cell_texts(&self) -> (r: Vec<String>)
        ensures
            r@.len() == 9,
            forall|i: int| 0 <= i < 9 ==> #[trigger] r@[i]@ == plain_cells(board_cells(self.spec_raw()))[i],
    {
        let mut out: Vec<String> = Vec::with_capacity(BOARD_SIZE);
        let mut i: u8 = 0;
        while i < 9
            invariant
                i <= 9,
                out@.len() == i,
                forall|j: int| 0 <= j < i ==> #[trigger] out@[j]@ == plain_cells(board_cells(self.spec_raw()))[j],
            decreases 9 - i,
        {
            out.push(self.get(i).to_string());
            i += 1;
        }
        out
    }

    /// Draws the board as three rows of cells between bars and separator lines.
    pub fn get_display(&self) -> (r: String)
        ensures
            r@ == grid_text(plain_cells(board_cells(self.spec_raw()))),
    {
        let cells = self.cell_texts();
        proof {
            assert(cells@.map_values(|s: String| s@) =~= plain_cells(board_cells(self.spec_raw())));
        }
        draw_grid(&cells)
    }

    /// The text of the board: one character per cell, in row-major order.
    pub fn to_string(&self) -> (r: String)
        ensures
            r@ == Seq::new(9, |i: int| mark_char(board_cells(self.spec_raw())[i])),
    {
        let mut out = String::new();
        let mut i: u8 = 0;
        let ghost want = Seq::new(9, |i: int| mark_char(board_cells(self.spec_raw())[i]));
        while i < 9
            invariant
                i <= 9,
                want == Seq::new(9, |i: int| mark_char(board_cells(self.spec_raw())[i])),
                out@ == want.subrange(0, i as int),
            decreases 9 - i,
        {
            let piece = self.get(i).to_string();
            out.append(piece.as_str());
            assert(want.subrange(0, i + 1) =~= want.subrange(0, i as int) + seq![want[i as int]]);
            i += 1;
        }
        assert(want.subrange(0, 9) =~= want);
        out
    }

    /// Reads a board from text: `X` and `O` mark a cell, anything else leaves it empty.
    pub fn from_string(s: &str) -> (r: Board)
        ensures
            board_cells(r.spec_raw()) == cells_from_text(s@),
    {
        let mut board = Board::new();
        let len = s.unicode_len();
        let n: u8 = if len < 9 {
            len as u8
        } else {
            9
        };
        proof {
            assert forall|j: int| 0 <= j < 9 implies #[trigger] cell_code(0u32, j) == 0 by {
                let sh = (2 * j) as u32;
                assert((0u32 >> sh) & 3 == 0) by (bit_vector);
            }
        }
        let mut i: u8 = 0;
        while i < n
            invariant
                n <= 9,
                n as int == if s@.len() < 9 {
                    s@.len() as int
                } else {
                    9
                },
                i <= n,
                forall|j: int| 0 <= j < i ==> #[trigger] board_cells(board.spec_raw())[j]
                    == cells_from_text(s@)[j],
                forall|j: int| i <= j < 9 ==> #[trigger] cell_code(board.spec_raw(), j) == 0,
            decreases n - i,
        {
            let c = s.get_char(i as usize);
            let ghost before = board.spec_raw();
            if c == 'X' {
                board.set(i, PlayerEnum::X);
            } else if c == 'O' {
                board.set(i, PlayerEnum::O);
            }
            proof {
                assert forall|j: int| 0 <= j < 9 implies #[trigger] cell_code(board.spec_raw(), j)
                    == if j == i as int {
                    if c == 'X' {
                        1
                    } else if c == 'O' {
                        2
                    } else {
                        0
                    }
                } else {
                    cell_code(before, j)
                } by {}
                assert forall|j: int| 0 <= j < i + 1 implies #[trigger] board_cells(
                    board.spec_raw(),
                )[j] == cells_from_text(s@)[j] by {
                    if j < i as int {
                        assert(board_cells(before)[j] == cells_from_text(s@)[j]);
                    }
                }
            }
            i += 1;
        }
        proof {
            assert forall|j: int| 0 <= j < 9 implies #[trigger] board_cells(board.spec_raw())[j]
                == cells_from_text(s@)[j] by {
                if j >= n {
                    assert(cell_code(board.spec_raw(), j) == 0);
                }
            }
            assert(board_cells(board.spec_raw()) =~= cells_from_text(s@));
        }
        board
    }

    /// Whether `player` holds a whole row, column or diagonal.
    pub fn is_winner(&self, player: PlayerEnum) -> (r: bool)
        ensures
            r == board_wins(self.spec_raw(), player),
    {
        let raw = self.raw;
        let raw_board = if matches!(player, PlayerEnum::X) {
            raw
        } else {
            self.inverted().raw
        };
        proof {
            assert forall|j: int| 0 <= j < 9 implies (#[trigger] cell_code(raw_board, j) & 1 == 1)
                == if player == PlayerEnum::X {
                cell_code(raw, j) & 1 == 1
            } else {
                cell_code(raw, j) == 2
            } by {
                lemma_code_bound(raw, j);
                lemma_inverted_field(raw, j as u32);
                let c = cell_code(raw, j);
                assert(0u32 & 1 == 0 && 1u32 & 1 == 1 && 2u32 & 1 == 0) by (bit_vector);
            }
        }
        let mut k: usize = 0;
        while k < 8
            invariant
                k <= 8,
                raw == self.spec_raw(),
                forall|kk: int| 0 <= kk < k ==> !board_line(raw, kk, player),
                forall|j: int| 0 <= j < 9 ==> (#[trigger] cell_code(raw_board, j) & 1 == 1) == if player
                    == PlayerEnum::X {
                    cell_code(raw, j) & 1 == 1
                } else {
                    cell_code(raw, j) == 2
                },
            decreases 8 - k,
        {
            let a = if k < 3 { (3 * k) as u32 } else if k < 6 { (k - 3) as u32 } else if k == 6 { 0 } else { 2 };
            let b = if k < 3 { (3 * k + 1) as u32 } else if k < 6 { (k - 3 + 3) as u32 } else if k == 6 { 4 } else { 4 };
            let c = if k < 3 { (3 * k + 2) as u32 } else if k < 6 { (k - 3 + 6) as u32 } else if k == 6 { 8 } else { 6 };
            assert(a as int == line_cell(k as int, 0) && b as int == line_cell(k as int, 1) && c as int
                == line_cell(k as int, 2));
            let mask = (1u32 << (2 * a)) | (1u32 << (2 * b)) | (1u32 << (2 * c));
            proof {
                assert(mask == line_mask(a, b, c));
                lemma_line_mask(raw_board, a, b, c);
            }
            if (raw_board & mask) == mask {
                assert(board_line(raw, k as int, player));
                return true;
            }
            k += 1;
        }
        false
    }

    /// The move counts fit the alternation of turns and not both players have won.
    pub fn is_valid(&self) -> (r: bool)
        ensures
            r == ((count(board_cells(self.spec_raw()), PlayerEnum::X) == count(
                board_cells(self.spec_raw()),
                PlayerEnum::O,
            ) || count(board_cells(self.spec_raw()), PlayerEnum::X) == count(
                board_cells(self.spec_raw()),
                PlayerEnum::O,
            ) + 1) && !(board_wins(self.spec_raw(), PlayerEnum::X) && board_wins(
                self.spec_raw(),
                PlayerEnum::O,
            ))),
    {
        let ghost v = board_cells(self.spec_raw());
        let mut x_count: u32 = 0;
        let mut o_count: u32 = 0;
        let mut i: u8 = 0;
        while i < 9
            invariant
                v == board_cells(self.spec_raw()),
                i <= 9,
                x_count as nat == count(v.subrange(0, i as int), PlayerEnum::X),
                o_count as nat == count(v.subrange(0, i as int), PlayerEnum::O),
                x_count <= i,
                o_count <= i,
            decreases 9 - i,
        {
            proof {
                lemma_count_step(v, i as int, PlayerEnum::X);
                lemma_count_step(v, i as int, PlayerEnum::O);
            }
            match self.get(i) {
                PlayerEnum::X => x_count += 1,
                PlayerEnum::O => o_count += 1,
                PlayerEnum::Empty => {},
            }
            i += 1;
        }
        assert(v.subrange(0, 9) =~= v);
        (x_count == o_count || x_count == o_count + 1) && !(self.is_winner(PlayerEnum::X)
            && self.is_winner(PlayerEnum::O))
    }
}

} // verus!
