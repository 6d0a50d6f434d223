use vstd::prelude::*;
use vstd::string::*;
use crate::encoding::{
    cell_code, inverted_raw, lemma_code_bound, lemma_fields_determine, lemma_inverted_field,
    lemma_line_mask, lemma_low_bit, lemma_pack9, lemma_set_field, line_mask, pack9, wf_raw,
    BOARD_SIZE, RAW_LIMIT,
};
use crate::errors::TicTacToeError;

verus! {

/// The content of a cell: empty, or the mark of the first or the second player.
#[derive(Debug, Clone, Copy, PartialEq, Eq, Hash, Structural)]
pub enum PlayerEnum {
    Empty,
    X,
    O,
}

/// The 2-bit code of a mark.
pub open spec fn code_of(p: PlayerEnum) -> u32 {
    match p {
        PlayerEnum::Empty => 0,
        PlayerEnum::X => 1,
        PlayerEnum::O => 2,
    }
}

/// The mark that a 2-bit code stands for (the unused code 3 reads as empty).
pub open spec fn mark_of(c: u32) -> PlayerEnum {
    if c == 1 {
        PlayerEnum::X
    } else if c == 2 {
        PlayerEnum::O
    } else {
        PlayerEnum::Empty
    }
}

/// The character that shows a mark.
pub open spec fn mark_char(p: PlayerEnum) -> char {
    match p {
        PlayerEnum::Empty => ' ',
        PlayerEnum::X => 'X',
        PlayerEnum::O => 'O',
    }
}

/// The mark that a character shows, if any.
pub open spec fn char_mark(c: char) -> Option<PlayerEnum> {
    if c == ' ' {
        Some(PlayerEnum::Empty)
    } else if c == 'X' {
        Some(PlayerEnum::X)
    } else if c == 'O' {
        Some(PlayerEnum::O)
    } else {
        None
    }
}

/// The nine cells of a packed word, in row-major order.
pub open spec fn view_of(raw: u32) -> Seq<PlayerEnum> {
    Seq::new(9, |i: int| mark_of(cell_code(raw, i)))
}

/// Cell `j` (0, 1 or 2) of winning line `k`: three rows, three columns, two diagonals.
pub open spec fn line_cell(k: int, j: int) -> int {
    if k < 3 {
        3 * k + j
    } else if k < 6 {
        (k - 3) + 3 * j
    } else if k == 6 {
        4 * j
    } else {
        2 + 2 * j
    }
}

/// Player `p` holds all three cells of line `k`.
pub open spec fn line_full(v: Seq<PlayerEnum>, k: int, p: PlayerEnum) -> bool {
    &&& v[line_cell(k, 0)] == p
    &&& v[line_cell(k, 1)] == p
    &&& v[line_cell(k, 2)] == p
}

/// Player `p` holds a whole row, column or diagonal.
pub open spec fn wins(v: Seq<PlayerEnum>, p: PlayerEnum) -> bool {
    ||| line_full(v, 0, p)
    ||| line_full(v, 1, p)
    ||| line_full(v, 2, p)
    ||| line_full(v, 3, p)
    ||| line_full(v, 4, p)
    ||| line_full(v, 5, p)
    ||| line_full(v, 6, p)
    ||| line_full(v, 7, p)
}

/// How many cells of `v` hold `p`.
pub open spec fn count(v: Seq<PlayerEnum>, p: PlayerEnum) -> nat
    decreases v.len(),
{
    if v.len() == 0 {
        0
    } else {
        count(v.drop_last(), p) + if v.last() == p {
            1nat
        } else {
            0nat
        }
    }
}

/// The first player has made as many moves as the second, or one more, and not both have won.
pub open spec fn valid(v: Seq<PlayerEnum>) -> bool {
    &&& (count(v, PlayerEnum::X) == count(v, PlayerEnum::O) || count(v, PlayerEnum::X) == count(
        v,
        PlayerEnum::O,
    ) + 1)
    &&& !(wins(v, PlayerEnum::X) && wins(v, PlayerEnum::O))
}

/// Every cell is taken and nobody has won.
pub open spec fn tie(v: Seq<PlayerEnum>) -> bool {
    &&& forall|i: int| 0 <= i < 9 ==> v[i] != PlayerEnum::Empty
    &&& !wins(v, PlayerEnum::X)
    &&& !wins(v, PlayerEnum::O)
}

/// Whose move it is: the first player's when both have moved equally often.
pub open spec fn turn(v: Seq<PlayerEnum>) -> PlayerEnum {
    if count(v, PlayerEnum::X) == count(v, PlayerEnum::O) {
        PlayerEnum::X
    } else {
        PlayerEnum::O
    }
}

/// The player whose lines `is_winner(p)` tests: the first player for `X`, else the second.
pub open spec fn tested_player(p: PlayerEnum) -> PlayerEnum {
    if p == PlayerEnum::X {
        PlayerEnum::X
    } else {
        PlayerEnum::O
    }
}

/// The empty cells among the first `n`, in ascending order.
pub open spec fn empties(v: Seq<PlayerEnum>, n: int) -> Seq<usize>
    decreases n,
{
    if n <= 0 {
        Seq::empty()
    } else if v[n - 1] == PlayerEnum::Empty {
        empties(v, n - 1).push((n - 1) as usize)
    } else {
        empties(v, n - 1)
    }
}

/// The board with the two players' marks swapped.
pub open spec fn swapped(v: Seq<PlayerEnum>) -> Seq<PlayerEnum> {
    v.map_values(
        |m: PlayerEnum|
            match m {
                PlayerEnum::X => PlayerEnum::O,
                PlayerEnum::O => PlayerEnum::X,
                PlayerEnum::Empty => PlayerEnum::Empty,
            },
    )
}

/// Counting over a prefix one cell longer.
pub proof fn lemma_count_step(v: Seq<PlayerEnum>, i: int, p: PlayerEnum)
    requires
        0 <= i < v.len(),
    ensures
        count(v.subrange(0, i + 1), p) == count(v.subrange(0, i), p) + if v[i] == p {
            1nat
        } else {
            0nat
        },
{
    assert(v.subrange(0, i + 1).drop_last() =~= v.subrange(0, i));
}

/// The cell whose mark a quarter turn clockwise brings to cell `i`.
pub open spec fn rot_src(i: int) -> int {
    3 * (2 - i % 3) + i / 3
}

/// The cell whose mark turning the board upside down brings to cell `i`.
pub open spec fn flip_src(i: int) -> int {
    3 * (2 - i / 3) + i % 3
}

/// The cell whose mark symmetry `t` brings to cell `i`; `t` is `4 * flip + rotations`,
/// the board being turned upside down first and then turned clockwise.
#[verifier::opaque]
pub open spec fn source_cell(t: int, i: int) -> int {
    let r = t % 4;
    let turned = if r == 0 {
        i
    } else if r == 1 {
        rot_src(i)
    } else if r == 2 {
        rot_src(rot_src(i))
    } else {
        rot_src(rot_src(rot_src(i)))
    };
    if t >= 4 {
        flip_src(turned)
    } else {
        turned
    }
}

/// The board moved by symmetry `t`.
pub open spec fn permute(v: Seq<PlayerEnum>, t: int) -> Seq<PlayerEnum> {
    Seq::new(9, |i: int| v[source_cell(t, i)])
}

/// The packed word moved by symmetry `t`.
pub open spec fn transform_raw(raw: u32, t: int) -> u32 {
    pack9(
        cell_code(raw, source_cell(t, 0)),
        cell_code(raw, source_cell(t, 1)),
        cell_code(raw, source_cell(t, 2)),
        cell_code(raw, source_cell(t, 3)),
        cell_code(raw, source_cell(t, 4)),
        cell_code(raw, source_cell(t, 5)),
        cell_code(raw, source_cell(t, 6)),
        cell_code(raw, source_cell(t, 7)),
        cell_code(raw, source_cell(t, 8)),
    )
}

/// The symmetry that `transform(rotations, flip)` applies.
pub open spec fn transform_index(rotations: i32, flip: bool) -> int {
    (if flip {
        4int
    } else {
        0int
    }) + rotations as int % 4
}

/// The packed word of a board.
pub open spec fn encode(v: Seq<PlayerEnum>) -> u32 {
    pack9(
        code_of(v[0]),
        code_of(v[1]),
        code_of(v[2]),
        code_of(v[3]),
        code_of(v[4]),
        code_of(v[5]),
        code_of(v[6]),
        code_of(v[7]),
        code_of(v[8]),
    )
}

/// The text of a board: one character per cell, in row-major order.
pub open spec fn text(v: Seq<PlayerEnum>) -> Seq<char> {
    Seq::new(9, |i: int| mark_char(v[i]))
}

/// The board that nine mark characters show.
pub open spec fn marks(cs: Seq<char>) -> Seq<PlayerEnum> {
    Seq::new(9, |i: int| char_mark(cs[i]).unwrap())
}

/// The text is nine mark characters.
pub open spec fn is_board_text(cs: Seq<char>) -> bool {
    cs.len() == 9 && forall|i: int| 0 <= i < 9 ==> (#[trigger] char_mark(cs[i])) is Some
}

/// The result of reading a board from text.
pub open spec fn parse(cs: Seq<char>) -> Result<GameState, TicTacToeError> {
    if is_board_text(cs) && valid(marks(cs)) {
        Ok(GameState::from_view(marks(cs)))
    } else {
        Err(TicTacToeError::InvalidBoard)
    }
}

/// One row of the drawn board: three cell texts between bars.
pub open spec fn row_text(a: Seq<char>, b: Seq<char>, c: Seq<char>) -> Seq<char> {
    seq![' '] + a + seq![' ', '|', ' '] + b + seq![' ', '|', ' '] + c + seq![' ']
}

/// The line between two rows of the drawn board.
pub open spec fn row_separator() -> Seq<char> {
    seq!['\n', '-', '-', '-', '+', '-', '-', '-', '+', '-', '-', '-', '\n']
}

/// The drawn board, from the texts of its nine cells.
pub open spec fn grid_text(cells: Seq<Seq<char>>) -> Seq<char> {
    row_text(cells[0], cells[1], cells[2]) + row_separator() + row_text(cells[3], cells[4], cells[5])
        + row_separator() + row_text(cells[6], cells[7], cells[8])
}

/// The text of each cell for the plain drawing.
pub open spec fn plain_cells(v: Seq<PlayerEnum>) -> Seq<Seq<char>> {
    Seq::new(9, |i: int| seq![mark_char(v[i])])
}

/// The highlighted text of a mark for the numbered drawing.
pub open spec fn highlighted(c: char) -> Seq<char> {
    seq!['\u{1b}', '[', '9', '3', 'm', c, '\u{1b}', '[', '0', 'm']
}

/// The text of each cell for the numbered drawing: the number `i + 1` of an empty cell, a
/// highlighted mark otherwise.
pub open spec fn numbered_cells(v: Seq<PlayerEnum>) -> Seq<Seq<char>> {
    Seq::new(
        9,
        |i: int|
            if v[i] == PlayerEnum::Empty {
                seq![('1' as u8 + i) as char]
            } else {
                highlighted(mark_char(v[i]))
            },
    )
}

impl PlayerEnum {
    /// The one-character text of the mark.
    pub fn to_string(&self) -> (r: String)
        ensures
            r@ == seq![mark_char(*self)],
    {
        let r = match self {
            PlayerEnum::X => "X".to_string(),
            PlayerEnum::O => "O".to_string(),
            PlayerEnum::Empty => " ".to_string(),
        };
        proof {
            reveal_strlit("X");
            reveal_strlit("O");
            reveal_strlit(" ");
        }
        r
    }

    /// The 2-bit code of the mark.
    pub fn code(&self) -> (r: u32)
        ensures
            r == code_of(*self),
    {
        match self {
            PlayerEnum::Empty => 0,
            PlayerEnum::X => 1,
            PlayerEnum::O => 2,
        }
    }

    /// Decodes a 2-bit code; any value but 0, 1 and 2 is refused.
    pub fn try_from(value: u32) -> (r: Result<PlayerEnum, TicTacToeError>)
        ensures
            value <= 2 ==> r == Ok::<PlayerEnum, TicTacToeError>(mark_of(value)),
            value > 2 ==> r == Err::<PlayerEnum, TicTacToeError>(TicTacToeError::InvalidPlayerEnum),
    {
        match value {
            0 => Ok(PlayerEnum::Empty),
            1 => Ok(PlayerEnum::X),
            2 => Ok(PlayerEnum::O),
            _ => Err(TicTacToeError::InvalidPlayerEnum),
        }
    }

    /// Reads a one-character token: `" "`, `"X"` or `"O"`.
    pub fn from_str(value: &str) -> (r: Result<PlayerEnum, TicTacToeError>)
        ensures
            value@.len() == 1 && char_mark(value@[0]) is Some ==> r == Ok::<
                PlayerEnum,
                TicTacToeError,
            >(char_mark(value@[0]).unwrap()),
            !(value@.len() == 1 && char_mark(value@[0]) is Some) ==> r == Err::<
                PlayerEnum,
                TicTacToeError,
            >(TicTacToeError::InvalidPlayerEnum),
    {
        if value.unicode_len() != 1 {
            return Err(TicTacToeError::InvalidPlayerEnum);
        }
        let c = value.get_char(0);
        char_to_mark(c)
    }
}

/// Reads one character of board text.
fn char_to_mark(c: char) -> (r: Result<PlayerEnum, TicTacToeError>)
    ensures
        char_mark(c) is Some ==> r == Ok::<PlayerEnum, TicTacToeError>(char_mark(c).unwrap()),
        char_mark(c) is None ==> r == Err::<PlayerEnum, TicTacToeError>(
            TicTacToeError::InvalidPlayerEnum,
        ),
{
    if c == ' ' {
        Ok(PlayerEnum::Empty)
    } else if c == 'X' {
        Ok(PlayerEnum::X)
    } else if c == 'O' {
        Ok(PlayerEnum::O)
    } else {
        Err(TicTacToeError::InvalidPlayerEnum)
    }
}

/// A board packed into one word: two bits per cell, cell `i` at bits `2i` and `2i + 1`.
#[derive(Debug, Clone, Copy, PartialEq, Eq, Hash, Structural)]
pub struct GameState {
    raw: u32,
}

impl View for GameState {
    type V = Seq<PlayerEnum>;

    open spec fn view(&self) -> Seq<PlayerEnum> {
        view_of(self.spec_raw())
    }
}

impl GameState {
    /// The packed word.
    pub closed spec fn spec_raw(&self) -> u32 {
        self.raw
    }

    /// The board with the given nine cells.
    pub closed spec fn from_view(v: Seq<PlayerEnum>) -> GameState {
        GameState { raw: encode(v) }
    }

    /// The word holds nine fields and no unused code.
    pub open spec fn wf(&self) -> bool {
        wf_raw(self.spec_raw())
    }

    /// The empty board.
    pub fn new() -> (r: GameState)
        ensures
            r.wf(),
            r.spec_raw() == 0,
            forall|i: int| 0 <= i < 9 ==> r@[i] == PlayerEnum::Empty,
    {
        let r = GameState { raw: 0 };
        proof {
            assert forall|i: int| 0 <= i < 9 implies #[trigger] cell_code(0, i) == 0 by {
                let s = (2 * i) as u32;
                assert((0u32 >> s) & 3 == 0) by (bit_vector);
            }
        }
        r
    }

    /// The board with a packed word that is known to be well formed.
    pub(crate) fn from_wf_raw(raw: u32) -> (r: GameState)
        requires
            wf_raw(raw),
        ensures
            r.wf(),
            r.spec_raw() == raw,
    {
        GameState { raw }
    }

    /// The packed word.
    pub fn get_raw(&self) -> (r: u32)
        ensures
            r == self.spec_raw(),
    {
        self.raw
    }

    /// The 2-bit code of cell `pos`.
    fn code_at(&self, pos: usize) -> (r: u32)
        requires
            pos < 9,
        ensures
            r == cell_code(self.spec_raw(), pos as int),
            r <= 3,
    {
        let s: u32 = (2 * pos) as u32;
        let raw = self.raw;
        let r = (raw >> s) & 3;
        assert(r <= 3) by (bit_vector)
            requires
                r == (raw >> s) & 3,
        ;
        r
    }

    /// The mark in cell `pos`.
    pub fn get(&self, pos: usize) -> (r: Result<PlayerEnum, TicTacToeError>)
        requires
            self.wf(),
        ensures
            pos < 9 ==> r == Ok::<PlayerEnum, TicTacToeError>(self@[pos as int]),
            pos >= 9 ==> r == Err::<PlayerEnum, TicTacToeError>(TicTacToeError::OutOfBounds),
    {
        if pos > BOARD_SIZE - 1 {
            return Err(TicTacToeError::OutOfBounds);
        }
        let c = self.code_at(pos);
        assert(c != 3);
        PlayerEnum::try_from(c)
    }

    /// Writes `value` into cell `pos`, which the caller has seen to be empty.
    pub fn set(&mut self, pos: usize, value: PlayerEnum) -> (r: Result<(), TicTacToeError>)
        requires
            old(self).wf(),
            pos < 9 ==> old(self)@[pos as int] == PlayerEnum::Empty,
        ensures
            final(self).wf(),
            pos < 9 ==> r == Ok::<(), TicTacToeError>(()) && final(self)@ == old(self)@.update(
                pos as int,
                value,
            ),
            pos >= 9 ==> r == Err::<(), TicTacToeError>(TicTacToeError::OutOfBounds),
            pos >= 9 ==> final(self)@ == old(self)@,
            pos >= 9 ==> final(self).spec_raw() == old(self).spec_raw(),
    {
        if pos > BOARD_SIZE - 1 {
            return Err(TicTacToeError::OutOfBounds);
        }
        let ghost before = self.raw;
        let c = value.code();
        let s: u32 = (2 * pos) as u32;
        proof {
            assert(view_of(before)[pos as int] == mark_of(cell_code(before, pos as int)));
            assert(cell_code(before, pos as int) != 3);
            lemma_code_bound(before, pos as int);
            assert(cell_code(before, pos as int) == 0);
        }
        self.raw = self.raw | (c << s);
        proof {
            let p = pos as u32;
            assert forall|j: int| 0 <= j < 9 implies #[trigger] cell_code(self.raw, j) == if j
                == pos {
                c
            } else {
                cell_code(before, j)
            } by {
                lemma_set_field(before, p, c, j as u32);
            }
            lemma_set_field(before, p, c, 0);
            assert(view_of(self.raw) =~= view_of(before).update(pos as int, value));
        }
        Ok(())
    }

    /// Whether cell `pos` is empty.
    pub fn is_empty(&self, pos: usize) -> (r: Result<bool, TicTacToeError>)
        requires
            self.wf(),
        ensures
            pos < 9 ==> r == Ok::<bool, TicTacToeError>(self@[pos as int] == PlayerEnum::Empty),
            pos >= 9 ==> r == Err::<bool, TicTacToeError>(TicTacToeError::OutOfBounds),
    {
        match self.get(pos)? {
            PlayerEnum::Empty => Ok(true),
            _ => Ok(false),
        }
    }
    /// The cell of winning line `k` at place `j`.
    fn line_cell_exec(k: usize, j: usize) -> (r: u32)
        requires
            k < 8,
            j < 3,
        ensures
            r as int == line_cell(k as int, j as int),
            r < 9,
    {
        if k < 3 {
            (3 * k + j) as u32
        } else if k < 6 {
            ((k - 3) + 3 * j) as u32
        } else if k == 6 {
            (4 * j) as u32
        } else {
            (2 + 2 * j) as u32
        }
    }

    /// The board with the two players' marks swapped.
    pub fn inverted(&self) -> (r: GameState)
        requires
            self.wf(),
        ensures
            r.wf(),
            r@ == swapped(self@),
            r.spec_raw() == inverted_raw(self.spec_raw()),
    {
        let raw = self.raw;
        let mut piece_mask = ((raw & 0x000AAAAA) >> 1) | (raw & 0x00055555);
        piece_mask |= piece_mask << 1;
        let r = GameState { raw: !raw & piece_mask };
        proof {
            assert(r.raw == inverted_raw(raw));
            assert forall|j: int| 0 <= j < 9 implies #[trigger] view_of(r.raw)[j] == swapped(
                view_of(raw),
            )[j] by {
                lemma_inverted_field(raw, j as u32);
                lemma_code_bound(raw, j);
            }
            assert forall|j: int| 0 <= j < 9 implies #[trigger] cell_code(r.raw, j) != 3 by {
                lemma_inverted_field(raw, j as u32);
                lemma_code_bound(raw, j);
            }
            lemma_inverted_field(raw, 0);
            assert(view_of(r.raw) =~= swapped(view_of(raw)));
        }
        r
    }

    /// Whether `player` holds a whole row, column or diagonal; any mark but `X` tests the
    /// second player.
    pub fn is_winner(&self, player: PlayerEnum) -> (r: bool)
        requires
            self.wf(),
        ensures
            r == wins(self@, tested_player(player)),
    {
        let raw_board = if matches!(player, PlayerEnum::X) {
            self.raw
        } else {
            self.inverted().raw
        };
        let ghost target = tested_player(player);
        proof {
            assert forall|j: int| 0 <= j < 9 implies (#[trigger] cell_code(raw_board, j) & 1 == 1)
                == (self@[j] == target) by {
                lemma_code_bound(self.raw, j);
                lemma_inverted_field(self.raw, j as u32);
                lemma_low_bit(cell_code(raw_board, j));
            }
        }
        let mut k: usize = 0;
        while k < 8
            invariant
                k <= 8,
                target == tested_player(player),
                forall|kk: int| 0 <= kk < k ==> !line_full(self@, kk, target),
                forall|j: int| 0 <= j < 9 ==> (#[trigger] cell_code(raw_board, j) & 1 == 1) == (
                self@[j] == target),
            decreases 8 - k,
        {
            let a = Self::line_cell_exec(k, 0);
            let b = Self::line_cell_exec(k, 1);
            let c = Self::line_cell_exec(k, 2);
            let mask = (1u32 << (2 * a)) | (1u32 << (2 * b)) | (1u32 << (2 * c));
            proof {
                assert(mask == line_mask(a, b, c));
                lemma_line_mask(raw_board, a, b, c);
                assert(cell_code(raw_board, a as int) & 1 == 1 <==> self@[a as int] == target);
                assert(cell_code(raw_board, b as int) & 1 == 1 <==> self@[b as int] == target);
                assert(cell_code(raw_board, c as int) & 1 == 1 <==> self@[c as int] == target);
            }
            if (raw_board & mask) == mask {
                assert(line_full(self@, k as int, target));
                assert(wins(self@, target)) by {
                    assert(k == 0 || k == 1 || k == 2 || k == 3 || k == 4 || k == 5 || k == 6 || k
                        == 7);
                }
                return true;
            }
            k += 1;
        }
        false
    }

    /// The number of cells that hold `X` and that hold `O`.
    fn counts(&self) -> (r: (u32, u32))
        requires
            self.wf(),
        ensures
            r.0 as nat == count(self@, PlayerEnum::X),
            r.1 as nat == count(self@, PlayerEnum::O),
            r.0 <= 9,
            r.1 <= 9,
    {
        let mut x_count: u32 = 0;
        let mut o_count: u32 = 0;
        let mut i: usize = 0;
        while i < BOARD_SIZE
            invariant
                self.wf(),
                i <= 9,
                x_count as nat == count(self@.subrange(0, i as int), PlayerEnum::X),
                o_count as nat == count(self@.subrange(0, i as int), PlayerEnum::O),
                x_count <= i,
                o_count <= i,
            decreases 9 - i,
        {
            proof {
                lemma_count_step(self@, i as int, PlayerEnum::X);
                lemma_count_step(self@, i as int, PlayerEnum::O);
            }
            match self.get(i) {
                Ok(PlayerEnum::X) => x_count += 1,
                Ok(PlayerEnum::O) => o_count += 1,
                _ => {},
            }
            i += 1;
        }
        assert(self@.subrange(0, 9) =~= self@);
        (x_count, o_count)
    }

    /// Whose move it is.
    pub fn get_turn(&self) -> (r: PlayerEnum)
        requires
            self.wf(),
        ensures
            r == turn(self@),
    {
        let (x_count, o_count) = self.counts();
        if x_count == o_count {
            PlayerEnum::X
        } else {
            PlayerEnum::O
        }
    }

    /// Puts the mark of the player to move into cell `pos`, which the caller has seen to be
    /// empty.
    pub fn auto_set(&mut self, pos: usize) -> (r: Result<(), TicTacToeError>)
        requires
            old(self).wf(),
            pos < 9 ==> old(self)@[pos as int] == PlayerEnum::Empty,
        ensures
            final(self).wf(),
            pos < 9 ==> r == Ok::<(), TicTacToeError>(()) && final(self)@ == old(self)@.update(
                pos as int,
                turn(old(self)@),
            ),
            pos >= 9 ==> r == Err::<(), TicTacToeError>(TicTacToeError::OutOfBounds),
            pos >= 9 ==> final(self)@ == old(self)@,
            pos >= 9 ==> final(self).spec_raw() == old(self).spec_raw(),
    {
        let t = self.get_turn();
        self.set(pos, t)
    }

    /// The move counts fit the alternation of turns and not both players have won.
    pub fn is_valid(&self) -> (r: bool)
        requires
            self.wf(),
        ensures
            r == valid(self@),
    {
        let (x_count, o_count) = self.counts();
        (x_count == o_count || x_count == o_count + 1) && !(self.is_winner(PlayerEnum::X)
            && self.is_winner(PlayerEnum::O))
    }

    /// Every cell is taken and nobody has won.
    pub fn is_tie(&self) -> (r: bool)
        requires
            self.wf(),
        ensures
            r == tie(self@),
    {
        let mut i: usize = 0;
        while i < BOARD_SIZE
            invariant
                self.wf(),
                i <= 9,
                forall|j: int| 0 <= j < i ==> self@[j] != PlayerEnum::Empty,
            decreases 9 - i,
        {
            if matches!(self.get(i), Ok(PlayerEnum::Empty)) {
                return false;
            }
            i += 1;
        }
        !(self.is_winner(PlayerEnum::X) || self.is_winner(PlayerEnum::O))
    }

    /// The text of each cell, in row-major order.
    pub fn as_vec(&self) -> (r: Vec<String>)
        requires
            self.wf(),
        ensures
            r@.len() == 9,
            forall|i: int| 0 <= i < 9 ==> #[trigger] r@[i]@ == plain_cells(self@)[i],
    {
        let mut board_vec: Vec<String> = Vec::with_capacity(BOARD_SIZE);
        let mut i: usize = 0;
        while i < BOARD_SIZE
            invariant
                self.wf(),
                i <= 9,
                board_vec@.len() == i,
                forall|j: int| 0 <= j < i ==> #[trigger] board_vec@[j]@ == plain_cells(self@)[j],
            decreases 9 - i,
        {
            let m = match self.get(i) {
                Ok(m) => m,
                Err(_) => PlayerEnum::Empty,
            };
            board_vec.push(m.to_string());
            i += 1;
        }
        board_vec
    }

    /// Draws the board as three rows of cells between bars and separator lines.
    pub fn get_display(&self) -> (r: String)
        requires
            self.wf(),
        ensures
            r@ == grid_text(plain_cells(self@)),
    {
        let board_chars = self.as_vec();
        draw_grid(&board_chars)
    }

    /// Draws the board with each empty cell numbered `1` to `9` and each mark highlighted.
    pub fn get_numbered_display(&self) -> (r: String)
        requires
            self.wf(),
        ensures
            r@ == grid_text(numbered_cells(self@)),
    {
        let mut cells: Vec<String> = Vec::with_capacity(BOARD_SIZE);
        let mut i: usize = 0;
        while i < BOARD_SIZE
            invariant
                self.wf(),
                i <= 9,
                cells@.len() == i,
                forall|j: int| 0 <= j < i ==> #[trigger] cells@[j]@ == numbered_cells(self@)[j],
            decreases 9 - i,
        {
            let m = match self.get(i) {
                Ok(m) => m,
                Err(_) => PlayerEnum::Empty,
            };
            let text = match m {
                PlayerEnum::Empty => digit_text(i + 1),
                PlayerEnum::X => {
                    proof {
                        reveal_strlit("\x1b[93mX\x1b[0m");
                    }
                    "\x1b[93mX\x1b[0m".to_string()
                },
                PlayerEnum::O => {
                    proof {
                        reveal_strlit("\x1b[93mO\x1b[0m");
                    }
                    "\x1b[93mO\x1b[0m".to_string()
                },
            };
            proof {
                if m != PlayerEnum::Empty {
                    assert(text@ =~= highlighted(mark_char(m)));
                }
            }
            cells.push(text);
            i += 1;
        }
        draw_grid(&cells)
    }

    /// The empty cells, in ascending order.
    pub fn empty_positions(&self) -> (r: Vec<usize>)
        requires
            self.wf(),
        ensures
            r@ == empties(self@, 9),
    {
        let mut positions: Vec<usize> = Vec::with_capacity(BOARD_SIZE);
        let mut i: usize = 0;
        while i < BOARD_SIZE
            invariant
                self.wf(),
                i <= 9,
                positions@ == empties(self@, i as int),
            decreases 9 - i,
        {
            if matches!(self.is_empty(i), Ok(true)) {
                positions.push(i);
            }
            i += 1;
        }
        positions
    }
    /// A board is determined by its cells.
    pub proof fn lemma_view_determines(a: GameState, b: GameState)
        requires
            a.wf(),
            b.wf(),
            a@ == b@,
        ensures
            a == b,
    {
        assert forall|i: int| 0 <= i < 9 implies cell_code(a.raw, i) == cell_code(b.raw, i) by {
            assert(view_of(a.raw)[i] == view_of(b.raw)[i]);
            lemma_code_bound(a.raw, i);
            lemma_code_bound(b.raw, i);
            assert(cell_code(a.raw, i) != 3);
            assert(cell_code(b.raw, i) != 3);
        }
        lemma_fields_determine(a.raw, b.raw);
    }

    /// The board built from nine cells has those cells.
    pub proof fn lemma_from_view(v: Seq<PlayerEnum>)
        requires
            v.len() == 9,
        ensures
            GameState::from_view(v).wf(),
            GameState::from_view(v)@ == v,
            GameState::from_view(v).spec_raw() == encode(v),
    {
        let r = encode(v);
        lemma_pack9(
            code_of(v[0]),
            code_of(v[1]),
            code_of(v[2]),
            code_of(v[3]),
            code_of(v[4]),
            code_of(v[5]),
            code_of(v[6]),
            code_of(v[7]),
            code_of(v[8]),
        );
        assert forall|i: int| 0 <= i < 9 implies #[trigger] cell_code(r, i) == code_of(v[i]) by {
            assert(i == 0 || i == 1 || i == 2 || i == 3 || i == 4 || i == 5 || i == 6 || i == 7
                || i == 8);
        }
        assert(view_of(r) =~= v);
    }

    /// The board rebuilt from its own cells is the board.
    pub proof fn lemma_from_own_view(s: GameState)
        requires
            s.wf(),
        ensures
            GameState::from_view(s@) == s,
    {
        GameState::lemma_from_view(s@);
        GameState::lemma_view_determines(GameState::from_view(s@), s);
    }

    /// The cell whose mark symmetry `t` brings to cell `i`.
    pub(crate) fn source_cell_exec(t: usize, i: usize) -> (r: usize)
        requires
            t < 8,
            i < 9,
        ensures
            r as int == source_cell(t as int, i as int),
            r < 9,
    {
        reveal(source_cell);
        let rot = t % 4;
        let mut turned = i;
        let mut k: usize = 0;
        while k < rot
            invariant
                rot == t % 4,
                k <= rot,
                turned < 9,
                k == 0 ==> turned == i,
                k == 1 ==> turned as int == rot_src(i as int),
                k == 2 ==> turned as int == rot_src(rot_src(i as int)),
                k == 3 ==> turned as int == rot_src(rot_src(rot_src(i as int))),
            decreases rot - k,
        {
            turned = 3 * (2 - turned % 3) + turned / 3;
            k += 1;
        }
        if t >= 4 {
            3 * (2 - turned / 3) + turned % 3
        } else {
            turned
        }
    }

    /// The board moved by one of the eight symmetries: turned upside down first when `flip`
    /// holds, then turned `rotations` quarter turns clockwise.
    pub fn transform(&self, rotations: i32, flip: bool) -> (r: GameState)
        requires
            self.wf(),
            rotations >= 0,
        ensures
            r.wf(),
            r@ == permute(self@, transform_index(rotations, flip)),
            r.spec_raw() == transform_raw(self.spec_raw(), transform_index(rotations, flip)),
    {
        let t: usize = (if flip {
            4
        } else {
            0
        }) + (rotations % 4) as usize;
        let c0 = self.code_at(Self::source_cell_exec(t, 0));
        let c1 = self.code_at(Self::source_cell_exec(t, 1));
        let c2 = self.code_at(Self::source_cell_exec(t, 2));
        let c3 = self.code_at(Self::source_cell_exec(t, 3));
        let c4 = self.code_at(Self::source_cell_exec(t, 4));
        let c5 = self.code_at(Self::source_cell_exec(t, 5));
        let c6 = self.code_at(Self::source_cell_exec(t, 6));
        let c7 = self.code_at(Self::source_cell_exec(t, 7));
        let c8 = self.code_at(Self::source_cell_exec(t, 8));
        let raw = c0 | (c1 << 2u32) | (c2 << 4u32) | (c3 << 6u32) | (c4 << 8u32) | (c5 << 10u32)
            | (c6 << 12u32) | (c7 << 14u32) | (c8 << 16u32);
        let r = GameState { raw };
        proof {
            let ti = transform_index(rotations, flip);
            assert(t as int == ti);
            lemma_pack9(c0, c1, c2, c3, c4, c5, c6, c7, c8);
            assert forall|i: int| 0 <= i < 9 implies #[trigger] cell_code(raw, i) == cell_code(
                self.raw,
                source_cell(ti, i),
            ) by {
                assert(i == 0 || i == 1 || i == 2 || i == 3 || i == 4 || i == 5 || i == 6 || i
                    == 7 || i == 8);
            }
            assert forall|i: int| 0 <= i < 9 implies #[trigger] cell_code(raw, i) != 3 by {
                assert(0 <= source_cell(ti, i) < 9) by {
                    assert(i == 0 || i == 1 || i == 2 || i == 3 || i == 4 || i == 5 || i == 6
                        || i == 7 || i == 8);
                }
            }
            assert forall|i: int| 0 <= i < 9 implies #[trigger] view_of(raw)[i] == permute(
                view_of(self.raw),
                ti,
            )[i] by {
                assert(cell_code(raw, i) == cell_code(self.raw, source_cell(ti, i)));
                assert(0 <= source_cell(ti, i) < 9) by {
                    assert(i == 0 || i == 1 || i == 2 || i == 3 || i == 4 || i == 5 || i == 6
                        || i == 7 || i == 8);
                }
            }
            assert(view_of(raw) =~= permute(view_of(self.raw), ti));
        }
        r
    }

    /// The text of the board: one of `' '`, `'X'`, `'O'` per cell, in row-major order.
    pub fn to_string(&self) -> (r: String)
        requires
            self.wf(),
        ensures
            r@ == text(self@),
    {
        let mut out = String::new();
        let mut i: usize = 0;
        while i < BOARD_SIZE
            invariant
                self.wf(),
                i <= 9,
                out@ == text(self@).subrange(0, i as int),
            decreases 9 - i,
        {
            let m = match self.get(i) {
                Ok(m) => m,
                Err(_) => PlayerEnum::Empty,
            };
            let piece = m.to_string();
            out.append(piece.as_str());
            assert(text(self@).subrange(0, i + 1) =~= text(self@).subrange(0, i as int) + seq![
                mark_char(m),
            ]);
            i += 1;
        }
        assert(text(self@).subrange(0, 9) =~= text(self@));
        out
    }

    /// Reads a board from its text; refuses text that is not nine mark characters or that
    /// does not show a valid board.
    pub fn from_str(value: &str) -> (r: Result<GameState, TicTacToeError>)
        ensures
            r == parse(value@),
            r matches Ok(g) ==> g.wf(),
    {
        if value.unicode_len() != BOARD_SIZE {
            return Err(TicTacToeError::InvalidBoard);
        }
        let mut board = GameState::new();
        let mut i: usize = 0;
        while i < BOARD_SIZE
            invariant
                value@.len() == 9,
                board.wf(),
                i <= 9,
                forall|j: int| 0 <= j < i ==> (#[trigger] char_mark(value@[j])) is Some,
                forall|j: int| 0 <= j < i ==> board@[j] == marks(value@)[j],
                forall|j: int| i <= j < 9 ==> board@[j] == PlayerEnum::Empty,
            decreases 9 - i,
        {
            let m = match char_to_mark(value.get_char(i)) {
                Ok(m) => m,
                Err(_) => return Err(TicTacToeError::InvalidBoard),
            };
            let _ = board.set(i, m);
            i += 1;
        }
        assert(board@ =~= marks(value@));
        proof {
            GameState::lemma_from_own_view(board);
        }
        if !board.is_valid() {
            return Err(TicTacToeError::InvalidBoard);
        }
        Ok(board)
    }

    /// Reads a board from its packed word; refuses a word that holds more than nine fields,
    /// an unused code, or a board that is not valid.
    pub fn try_from(value: u32) -> (r: Result<GameState, TicTacToeError>)
        ensures
            wf_raw(value) && valid(view_of(value)) ==> (r matches Ok(g) && g.spec_raw() == value
                && g.wf()),
            !(wf_raw(value) && valid(view_of(value))) ==> r == Err::<GameState, TicTacToeError>(
                TicTacToeError::InvalidBoard,
            ),
    {
        if value >= RAW_LIMIT {
            return Err(TicTacToeError::InvalidBoard);
        }
        let probe = GameState { raw: value };
        let mut i: usize = 0;
        while i < BOARD_SIZE
            invariant
                probe.raw == value,
                i <= 9,
                forall|j: int| 0 <= j < i ==> #[trigger] cell_code(value, j) != 3,
            decreases 9 - i,
        {
            if probe.code_at(i) == 3 {
                return Err(TicTacToeError::InvalidBoard);
            }
            i += 1;
        }
        if !probe.is_valid() {
            return Err(TicTacToeError::InvalidBoard);
        }
        Ok(probe)
    }
}

/// One if the cell holds `p`.
pub open spec fn holds(m: PlayerEnum, p: PlayerEnum) -> nat {
    if m == p {
        1
    } else {
        0
    }
}

/// How many of the nine cells hold `p`, cell by cell.
#[verifier::rlimit(40)]
pub proof fn lemma_count9(v: Seq<PlayerEnum>, p: PlayerEnum)
    requires
        v.len() == 9,
    ensures
        count(v, p) == holds(v[0], p) + holds(v[1], p) + holds(v[2], p) + holds(v[3], p) + holds(
            v[4],
            p,
        ) + holds(v[5], p) + holds(v[6], p) + holds(v[7], p) + holds(v[8], p),
{
    assert(v.subrange(0, 0) =~= Seq::<PlayerEnum>::empty());
    let ghost mut acc: nat = 0;
    lemma_count_step(v, 0, p);
    acc = acc + holds(v[0], p);
    assert(count(v.subrange(0, 1), p) == acc);
    lemma_count_step(v, 1, p);
    acc = acc + holds(v[1], p);
    assert(count(v.subrange(0, 2), p) == acc);
    lemma_count_step(v, 2, p);
    acc = acc + holds(v[2], p);
    assert(count(v.subrange(0, 3), p) == acc);
    lemma_count_step(v, 3, p);
    acc = acc + holds(v[3], p);
    assert(count(v.subrange(0, 4), p) == acc);
    lemma_count_step(v, 4, p);
    acc = acc + holds(v[4], p);
    assert(count(v.subrange(0, 5), p) == acc);
    lemma_count_step(v, 5, p);
    acc = acc + holds(v[5], p);
    assert(count(v.subrange(0, 6), p) == acc);
    lemma_count_step(v, 6, p);
    acc = acc + holds(v[6], p);
    assert(count(v.subrange(0, 7), p) == acc);
    lemma_count_step(v, 7, p);
    acc = acc + holds(v[7], p);
    assert(count(v.subrange(0, 8), p) == acc);
    lemma_count_step(v, 8, p);
    acc = acc + holds(v[8], p);
    assert(count(v.subrange(0, 9), p) == acc);
    assert(v.subrange(0, 9) =~= v);
}

/// Marking an empty cell adds one to the count of the new mark and keeps the other counts.
pub proof fn lemma_count_update(v: Seq<PlayerEnum>, pos: int, m: PlayerEnum, p: PlayerEnum)
    requires
        v.len() == 9,
        0 <= pos < 9,
        v[pos] == PlayerEnum::Empty,
        m != PlayerEnum::Empty,
        p != PlayerEnum::Empty,
    ensures
        count(v.update(pos, m), p) == count(v, p) + holds(m, p),
{
    lemma_count9(v, p);
    lemma_count9(v.update(pos, m), p);
    assert(pos == 0 || pos == 1 || pos == 2 || pos == 3 || pos == 4 || pos == 5 || pos == 6 || pos
        == 7 || pos == 8);
}

/// Marking an empty cell gives no new line to anyone but the mover.
pub proof fn lemma_wins_update(v: Seq<PlayerEnum>, pos: int, m: PlayerEnum, p: PlayerEnum)
    requires
        v.len() == 9,
        0 <= pos < 9,
        v[pos] == PlayerEnum::Empty,
        m != p,
    ensures
        wins(v.update(pos, m), p) ==> wins(v, p),
{
    assert(pos == 0 || pos == 1 || pos == 2 || pos == 3 || pos == 4 || pos == 5 || pos == 6 || pos
        == 7 || pos == 8);
}

/// The one-digit text of `n`.
fn digit_text(n: usize) -> (r: String)
    requires
        1 <= n <= 9,
    ensures
        r@ == seq![('0' as u8 + n) as char],
{
    let r = match n {
        1 => "1".to_string(),
        2 => "2".to_string(),
        3 => "3".to_string(),
        4 => "4".to_string(),
        5 => "5".to_string(),
        6 => "6".to_string(),
        7 => "7".to_string(),
        8 => "8".to_string(),
        _ => "9".to_string(),
    };
    proof {
        reveal_strlit("1");
        reveal_strlit("2");
        reveal_strlit("3");
        reveal_strlit("4");
        reveal_strlit("5");
        reveal_strlit("6");
        reveal_strlit("7");
        reveal_strlit("8");
        reveal_strlit("9");
    }
    r
}

/// Draws nine cell texts as three rows between bars and separator lines.
pub(crate) fn draw_grid(cells: &Vec<String>) -> (r: String)
    requires
        cells@.len() == 9,
    ensures
        r@ == grid_text(cells@.map_values(|s: String| s@)),
{
    let mut out = String::new();
    let mut row: usize = 0;
    let ghost texts = cells@.map_values(|s: String| s@);
    while row < 3
        invariant
            cells@.len() == 9,
            texts == cells@.map_values(|s: String| s@),
            row <= 3,
            row == 0 ==> out@ == Seq::<char>::empty(),
            row == 1 ==> out@ == row_text(texts[0], texts[1], texts[2]),
            row == 2 ==> out@ == row_text(texts[0], texts[1], texts[2]) + row_separator() + row_text(
                texts[3],
                texts[4],
                texts[5],
            ),
            row == 3 ==> out@ == grid_text(texts),
        decreases 3 - row,
    {
        if row > 0 {
            out.append("\n---+---+---\n");
        }
        out.append(" ");
        out.append(cells[3 * row].as_str());
        out.append(" | ");
        out.append(cells[3 * row + 1].as_str());
        out.append(" | ");
        out.append(cells[3 * row + 2].as_str());
        out.append(" ");
        proof {
            reveal_strlit("\n---+---+---\n");
            reveal_strlit(" | ");
            reveal_strlit(" ");
            assert(row_separator() =~= "\n---+---+---\n"@);
            assert(seq![' ', '|', ' '] =~= " | "@);
            assert(seq![' '] =~= " "@);
        }
        row += 1;
        proof {
            if row == 1 {
                assert(out@ =~= row_text(texts[0], texts[1], texts[2]));
            } else if row == 2 {
                assert(out@ =~= row_text(texts[0], texts[1], texts[2]) + row_separator() + row_text(
                    texts[3],
                    texts[4],
                    texts[5],
                ));
            } else {
                assert(out@ =~= grid_text(texts));
            }
        }
    }
    out
}

/// The listed empty cells are cells, in range and empty.
pub proof fn lemma_empties(v: Seq<PlayerEnum>, n: int)
    requires
        0 <= n <= v.len(),
        n <= 9,
    ensures
        forall|k: int|
            0 <= k < empties(v, n).len() ==> #[trigger] empties(v, n)[k] < n && v[empties(
                v,
                n,
            )[k] as int] == PlayerEnum::Empty,
    decreases n,
{
    if n > 0 {
        lemma_empties(v, n - 1);
        let prev = empties(v, n - 1);
        if v[n - 1] == PlayerEnum::Empty {
            assert(empties(v, n) == prev.push((n - 1) as usize));
            assert forall|k: int| 0 <= k < empties(v, n).len() implies #[trigger] empties(v, n)[k]
                < n && v[empties(v, n)[k] as int] == PlayerEnum::Empty by {
                if k < prev.len() {
                    assert(empties(v, n)[k] == prev[k]);
                }
            }
        }
    }
}

/// No valid board has two winners.
pub proof fn lemma_winner_exclusive(s: GameState)
    requires
        s.wf(),
        valid(s@),
    ensures
        !(wins(s@, PlayerEnum::X) && wins(s@, PlayerEnum::O)),
{
}

/// Reading back the text of a valid board gives the board.
pub proof fn lemma_text_round_trip(s: GameState)
    requires
        s.wf(),
        valid(s@),
    ensures
        parse(text(s@)) == Ok::<GameState, TicTacToeError>(s),
{
    let v = s@;
    let cs = text(v);
    assert forall|i: int| 0 <= i < 9 implies (#[trigger] char_mark(cs[i])) is Some && char_mark(
        cs[i],
    ).unwrap() == v[i] by {
        assert(cs[i] == mark_char(v[i]));
    }
    assert(marks(cs) =~= v);
    GameState::lemma_from_own_view(s);
}

} // verus!
