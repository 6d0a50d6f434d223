use vstd::prelude::*;
use crate::encoding::{cell_code, lemma_code_bound, lemma_pack9, lemma_unpack9, RAW_LIMIT};
use crate::game_state::{
    count, lemma_count9, permute, source_cell, transform_index, transform_raw, valid, wins,
    GameState, PlayerEnum,
};

verus! {

/// The one symmetry that has the effect of applying `t` and then `u`:
/// `source_cell(compose(t, u), i)` is `source_cell(t, source_cell(u, i))`.
pub open spec fn compose(t: int, u: int) -> int {
    if t < 4 {
        if u < 4 {
            (t + u) % 4
        } else {
            4 + (u - 4 - t) % 4
        }
    } else {
        if u < 4 {
            4 + (t - 4 + u) % 4
        } else {
            (u - t) % 4
        }
    }
}

/// The symmetry `u` with `compose(t, u) == v`.
pub open spec fn solve(t: int, v: int) -> int {
    if t < 4 {
        if v < 4 {
            (v - t) % 4
        } else {
            4 + (v - 4 + t) % 4
        }
    } else {
        if v >= 4 {
            (v - t) % 4
        } else {
            4 + (t + v) % 4
        }
    }
}

/// The least packed word among the images of `raw` under symmetries `0 .. n`.
pub open spec fn least_image(raw: u32, n: int) -> u32
    decreases n,
{
    if n <= 1 {
        transform_raw(raw, 0)
    } else {
        let rest = least_image(raw, n - 1);
        let here = transform_raw(raw, n - 1);
        if here < rest {
            here
        } else {
            rest
        }
    }
}

/// The canonical word of a board: the least word among its eight symmetric images.
pub open spec fn canonical_raw(raw: u32) -> u32 {
    least_image(raw, 8)
}

/// Applying `t` and then `u` takes each cell from where `compose(t, u)` does.
#[verifier::rlimit(50)]
pub proof fn lemma_compose_table(t: int, u: int, i: int)
    requires
        0 <= t < 8,
        0 <= u < 8,
        0 <= i < 9,
    ensures
        0 <= source_cell(u, i) < 9,
        source_cell(t, source_cell(u, i)) == source_cell(compose(t, u), i),
        0 <= compose(t, u) < 8,
{
    lemma_source_range(u, i);
    let j = source_cell(u, i);
    lemma_source_values(t, j);
    lemma_source_values(u, i);
    lemma_compose_values(t, u);
    lemma_source_values(compose(t, u), i);
    assert(i == 0 || i == 1 || i == 2 || i == 3 || i == 4 || i == 5 || i == 6 || i == 7 || i
        == 8);
}

/// The composition table of the eight symmetries.
pub proof fn lemma_compose_values(t: int, u: int)
    requires
        0 <= t < 8,
        0 <= u < 8,
    ensures
        t == 0 ==> (u == 0 ==> compose(t, u) == 0) && (u == 1 ==> compose(t, u) == 1) && (u == 2 ==> compose(t, u) == 2) && (u == 3 ==> compose(t, u) == 3) && (u == 4 ==> compose(t, u) == 4) && (u == 5 ==> compose(t, u) == 5) && (u == 6 ==> compose(t, u) == 6) && (u == 7 ==> compose(t, u) == 7),
        t == 1 ==> (u == 0 ==> compose(t, u) == 1) && (u == 1 ==> compose(t, u) == 2) && (u == 2 ==> compose(t, u) == 3) && (u == 3 ==> compose(t, u) == 0) && (u == 4 ==> compose(t, u) == 7) && (u == 5 ==> compose(t, u) == 4) && (u == 6 ==> compose(t, u) == 5) && (u == 7 ==> compose(t, u) == 6),
        t == 2 ==> (u == 0 ==> compose(t, u) == 2) && (u == 1 ==> compose(t, u) == 3) && (u == 2 ==> compose(t, u) == 0) && (u == 3 ==> compose(t, u) == 1) && (u == 4 ==> compose(t, u) == 6) && (u == 5 ==> compose(t, u) == 7) && (u == 6 ==> compose(t, u) == 4) && (u == 7 ==> compose(t, u) == 5),
        t == 3 ==> (u == 0 ==> compose(t, u) == 3) && (u == 1 ==> compose(t, u) == 0) && (u == 2 ==> compose(t, u) == 1) && (u == 3 ==> compose(t, u) == 2) && (u == 4 ==> compose(t, u) == 5) && (u == 5 ==> compose(t, u) == 6) && (u == 6 ==> compose(t, u) == 7) && (u == 7 ==> compose(t, u) == 4),
        t == 4 ==> (u == 0 ==> compose(t, u) == 4) && (u == 1 ==> compose(t, u) == 5) && (u == 2 ==> compose(t, u) == 6) && (u == 3 ==> compose(t, u) == 7) && (u == 4 ==> compose(t, u) == 0) && (u == 5 ==> compose(t, u) == 1) && (u == 6 ==> compose(t, u) == 2) && (u == 7 ==> compose(t, u) == 3),
        t == 5 ==> (u == 0 ==> compose(t, u) == 5) && (u == 1 ==> compose(t, u) == 6) && (u == 2 ==> compose(t, u) == 7) && (u == 3 ==> compose(t, u) == 4) && (u == 4 ==> compose(t, u) == 3) && (u == 5 ==> compose(t, u) == 0) && (u == 6 ==> compose(t, u) == 1) && (u == 7 ==> compose(t, u) == 2),
        t == 6 ==> (u == 0 ==> compose(t, u) == 6) && (u == 1 ==> compose(t, u) == 7) && (u == 2 ==> compose(t, u) == 4) && (u == 3 ==> compose(t, u) == 5) && (u == 4 ==> compose(t, u) == 2) && (u == 5 ==> compose(t, u) == 3) && (u == 6 ==> compose(t, u) == 0) && (u == 7 ==> compose(t, u) == 1),
        t == 7 ==> (u == 0 ==> compose(t, u) == 7) && (u == 1 ==> compose(t, u) == 4) && (u == 2 ==> compose(t, u) == 5) && (u == 3 ==> compose(t, u) == 6) && (u == 4 ==> compose(t, u) == 1) && (u == 5 ==> compose(t, u) == 2) && (u == 6 ==> compose(t, u) == 3) && (u == 7 ==> compose(t, u) == 0),
{
    assert(u == 0 || u == 1 || u == 2 || u == 3 || u == 4 || u == 5 || u == 6 || u == 7);
    assert(t == 0 || t == 1 || t == 2 || t == 3 || t == 4 || t == 5 || t == 6 || t == 7);
}

/// Where each symmetry takes each cell from.
pub proof fn lemma_source_values(t: int, i: int)
    requires
        0 <= t < 8,
        0 <= i < 9,
    ensures
        t == 0 ==> (i == 0 ==> source_cell(t, i) == 0) && (i == 1 ==> source_cell(t, i) == 1) && (i == 2 ==> source_cell(t, i) == 2) && (i == 3 ==> source_cell(t, i) == 3) && (i == 4 ==> source_cell(t, i) == 4) && (i == 5 ==> source_cell(t, i) == 5) && (i == 6 ==> source_cell(t, i) == 6) && (i == 7 ==> source_cell(t, i) == 7) && (i == 8 ==> source_cell(t, i) == 8),
        t == 1 ==> (i == 0 ==> source_cell(t, i) == 6) && (i == 1 ==> source_cell(t, i) == 3) && (i == 2 ==> source_cell(t, i) == 0) && (i == 3 ==> source_cell(t, i) == 7) && (i == 4 ==> source_cell(t, i) == 4) && (i == 5 ==> source_cell(t, i) == 1) && (i == 6 ==> source_cell(t, i) == 8) && (i == 7 ==> source_cell(t, i) == 5) && (i == 8 ==> source_cell(t, i) == 2),
        t == 2 ==> (i == 0 ==> source_cell(t, i) == 8) && (i == 1 ==> source_cell(t, i) == 7) && (i == 2 ==> source_cell(t, i) == 6) && (i == 3 ==> source_cell(t, i) == 5) && (i == 4 ==> source_cell(t, i) == 4) && (i == 5 ==> source_cell(t, i) == 3) && (i == 6 ==> source_cell(t, i) == 2) && (i == 7 ==> source_cell(t, i) == 1) && (i == 8 ==> source_cell(t, i) == 0),
        t == 3 ==> (i == 0 ==> source_cell(t, i) == 2) && (i == 1 ==> source_cell(t, i) == 5) && (i == 2 ==> source_cell(t, i) == 8) && (i == 3 ==> source_cell(t, i) == 1) && (i == 4 ==> source_cell(t, i) == 4) && (i == 5 ==> source_cell(t, i) == 7) && (i == 6 ==> source_cell(t, i) == 0) && (i == 7 ==> source_cell(t, i) == 3) && (i == 8 ==> source_cell(t, i) == 6),
        t == 4 ==> (i == 0 ==> source_cell(t, i) == 6) && (i == 1 ==> source_cell(t, i) == 7) && (i == 2 ==> source_cell(t, i) == 8) && (i == 3 ==> source_cell(t, i) == 3) && (i == 4 ==> source_cell(t, i) == 4) && (i == 5 ==> source_cell(t, i) == 5) && (i == 6 ==> source_cell(t, i) == 0) && (i == 7 ==> source_cell(t, i) == 1) && (i == 8 ==> source_cell(t, i) == 2),
        t == 5 ==> (i == 0 ==> source_cell(t, i) == 0) && (i == 1 ==> source_cell(t, i) == 3) && (i == 2 ==> source_cell(t, i) == 6) && (i == 3 ==> source_cell(t, i) == 1) && (i == 4 ==> source_cell(t, i) == 4) && (i == 5 ==> source_cell(t, i) == 7) && (i == 6 ==> source_cell(t, i) == 2) && (i == 7 ==> source_cell(t, i) == 5) && (i == 8 ==> source_cell(t, i) == 8),
        t == 6 ==> (i == 0 ==> source_cell(t, i) == 2) && (i == 1 ==> source_cell(t, i) == 1) && (i == 2 ==> source_cell(t, i) == 0) && (i == 3 ==> source_cell(t, i) == 5) && (i == 4 ==> source_cell(t, i) == 4) && (i == 5 ==> source_cell(t, i) == 3) && (i == 6 ==> source_cell(t, i) == 8) && (i == 7 ==> source_cell(t, i) == 7) && (i == 8 ==> source_cell(t, i) == 6),
        t == 7 ==> (i == 0 ==> source_cell(t, i) == 8) && (i == 1 ==> source_cell(t, i) == 5) && (i == 2 ==> source_cell(t, i) == 2) && (i == 3 ==> source_cell(t, i) == 7) && (i == 4 ==> source_cell(t, i) == 4) && (i == 5 ==> source_cell(t, i) == 1) && (i == 6 ==> source_cell(t, i) == 6) && (i == 7 ==> source_cell(t, i) == 3) && (i == 8 ==> source_cell(t, i) == 0),
{
    reveal(source_cell);
    assert(i == 0 || i == 1 || i == 2 || i == 3 || i == 4 || i == 5 || i == 6 || i == 7 || i
        == 8);
}

/// Each symmetry takes each cell from a cell.
proof fn lemma_source_range(t: int, i: int)
    requires
        0 <= t < 8,
        0 <= i < 9,
    ensures
        0 <= source_cell(t, i) < 9,
{
    reveal(source_cell);
    assert(i == 0 || i == 1 || i == 2 || i == 3 || i == 4 || i == 5 || i == 6 || i == 7 || i
        == 8);
}

/// `solve(t, v)` is the symmetry that, composed after `t`, gives `v`.
pub proof fn lemma_solve(t: int, v: int)
    requires
        0 <= t < 8,
        0 <= v < 8,
    ensures
        0 <= solve(t, v) < 8,
        compose(t, solve(t, v)) == v,
{
    assert(v == 0 || v == 1 || v == 2 || v == 3 || v == 4 || v == 5 || v == 6 || v == 7);
    assert(t == 0 || t == 1 || t == 2 || t == 3 || t == 4 || t == 5 || t == 6 || t == 7);
}

/// Applying symmetry `t` and then `u` is applying one symmetry.
pub proof fn lemma_transform_compose(raw: u32, t: int, u: int)
    requires
        0 <= t < 8,
        0 <= u < 8,
    ensures
        transform_raw(transform_raw(raw, t), u) == transform_raw(raw, compose(t, u)),
{
    let w = transform_raw(raw, t);
    assert forall|j: int| 0 <= j < 9 implies cell_code(raw, source_cell(t, j)) <= 3 by {
        lemma_code_bound(raw, source_cell(t, j));
    }
    lemma_pack9(
        cell_code(raw, source_cell(t, 0)),
        cell_code(raw, source_cell(t, 1)),
        cell_code(raw, source_cell(t, 2)),
        cell_code(raw, source_cell(t, 3)),
        cell_code(raw, source_cell(t, 4)),
        cell_code(raw, source_cell(t, 5)),
        cell_code(raw, source_cell(t, 6)),
        cell_code(raw, source_cell(t, 7)),
        cell_code(raw, source_cell(t, 8)),
    );
    assert forall|i: int| 0 <= i < 9 implies #[trigger] cell_code(w, source_cell(u, i))
        == cell_code(raw, source_cell(compose(t, u), i)) by {
        lemma_compose_table(t, u, i);
        let j = source_cell(u, i);
        assert(cell_code(w, j) == cell_code(raw, source_cell(t, j))) by {
            assert(j == 0 || j == 1 || j == 2 || j == 3 || j == 4 || j == 5 || j == 6 || j == 7
                || j == 8);
        }
    }
    assert(cell_code(w, source_cell(u, 0)) == cell_code(raw, source_cell(compose(t, u), 0)));
    assert(cell_code(w, source_cell(u, 1)) == cell_code(raw, source_cell(compose(t, u), 1)));
    assert(cell_code(w, source_cell(u, 2)) == cell_code(raw, source_cell(compose(t, u), 2)));
    assert(cell_code(w, source_cell(u, 3)) == cell_code(raw, source_cell(compose(t, u), 3)));
    assert(cell_code(w, source_cell(u, 4)) == cell_code(raw, source_cell(compose(t, u), 4)));
    assert(cell_code(w, source_cell(u, 5)) == cell_code(raw, source_cell(compose(t, u), 5)));
    assert(cell_code(w, source_cell(u, 6)) == cell_code(raw, source_cell(compose(t, u), 6)));
    assert(cell_code(w, source_cell(u, 7)) == cell_code(raw, source_cell(compose(t, u), 7)));
    assert(cell_code(w, source_cell(u, 8)) == cell_code(raw, source_cell(compose(t, u), 8)));
}

/// The least image is one of the images and lies below all of them.
proof fn lemma_least_image(raw: u32, n: int)
    requires
        1 <= n,
    ensures
        forall|v: int| 0 <= v < n ==> least_image(raw, n) <= #[trigger] transform_raw(raw, v),
        exists|v: int| 0 <= v < n && least_image(raw, n) == #[trigger] transform_raw(raw, v),
    decreases n,
{
    if n == 1 {
        assert(least_image(raw, n) == transform_raw(raw, 0));
    } else {
        lemma_least_image(raw, n - 1);
        let w = choose|v: int| 0 <= v < n - 1 && least_image(raw, n - 1) == #[trigger] transform_raw(raw, v);
        if transform_raw(raw, n - 1) < least_image(raw, n - 1) {
            assert(least_image(raw, n) == transform_raw(raw, n - 1));
        } else {
            assert(least_image(raw, n) == transform_raw(raw, w));
        }
    }
}


/// Symmetry 0 leaves a word below the limit as it is.
proof fn lemma_identity(raw: u32)
    requires
        raw < RAW_LIMIT,
    ensures
        transform_raw(raw, 0) == raw,
{
    lemma_source_values(0, 0);
    lemma_source_values(0, 1);
    lemma_source_values(0, 2);
    lemma_source_values(0, 3);
    lemma_source_values(0, 4);
    lemma_source_values(0, 5);
    lemma_source_values(0, 6);
    lemma_source_values(0, 7);
    lemma_source_values(0, 8);
    lemma_unpack9(raw);
}

/// Four quarter turns bring every board back to itself.
pub proof fn lemma_four_quarter_turns(s: GameState)
    requires
        s.wf(),
    ensures
        transform_raw(transform_raw(transform_raw(transform_raw(s.spec_raw(), 1), 1), 1), 1)
            == s.spec_raw(),
{
    let raw = s.spec_raw();
    lemma_transform_compose(raw, 1, 1);
    lemma_compose_values(1, 1);
    lemma_transform_compose(raw, 2, 1);
    lemma_compose_values(2, 1);
    lemma_transform_compose(raw, 3, 1);
    lemma_compose_values(3, 1);
    lemma_identity(raw);
}

/// The cells of a board moved by symmetry `t`, one by one.
proof fn lemma_permute_cells(v: Seq<PlayerEnum>, t: int)
    requires
        v.len() == 9,
        0 <= t < 8,
    ensures
        permute(v, t).len() == 9,
        permute(v, t)[0] == v[source_cell(t, 0)],
        permute(v, t)[1] == v[source_cell(t, 1)],
        permute(v, t)[2] == v[source_cell(t, 2)],
        permute(v, t)[3] == v[source_cell(t, 3)],
        permute(v, t)[4] == v[source_cell(t, 4)],
        permute(v, t)[5] == v[source_cell(t, 5)],
        permute(v, t)[6] == v[source_cell(t, 6)],
        permute(v, t)[7] == v[source_cell(t, 7)],
        permute(v, t)[8] == v[source_cell(t, 8)],
{
}

/// A symmetry keeps who holds a line.
proof fn lemma_permute_wins(v: Seq<PlayerEnum>, t: int, p: PlayerEnum)
    requires
        v.len() == 9,
        0 <= t < 8,
    ensures
        wins(permute(v, t), p) == wins(v, p),
{
    lemma_permute_cells(v, t);
    lemma_source_values(t, 0);
    lemma_source_values(t, 1);
    lemma_source_values(t, 2);
    lemma_source_values(t, 3);
    lemma_source_values(t, 4);
    lemma_source_values(t, 5);
    lemma_source_values(t, 6);
    lemma_source_values(t, 7);
    lemma_source_values(t, 8);
    if t == 0 {
    } else if t == 1 {
    } else if t == 2 {
    } else if t == 3 {
    } else if t == 4 {
    } else if t == 5 {
    } else if t == 6 {
    } else {
    }
}

/// A symmetry keeps the number of each mark.
#[verifier::rlimit(80)]
proof fn lemma_permute_count(v: Seq<PlayerEnum>, t: int, p: PlayerEnum)
    requires
        v.len() == 9,
        0 <= t < 8,
    ensures
        count(permute(v, t), p) == count(v, p),
{
    lemma_permute_cells(v, t);
    lemma_source_values(t, 0);
    lemma_source_values(t, 1);
    lemma_source_values(t, 2);
    lemma_source_values(t, 3);
    lemma_source_values(t, 4);
    lemma_source_values(t, 5);
    lemma_source_values(t, 6);
    lemma_source_values(t, 7);
    lemma_source_values(t, 8);
    lemma_count9(v, p);
    lemma_count9(permute(v, t), p);
    if t == 0 {
    } else if t == 1 {
    } else if t == 2 {
    } else if t == 3 {
    } else if t == 4 {
    } else if t == 5 {
    } else if t == 6 {
    } else {
    }
}

/// Each of the eight symmetries takes a valid board to a valid board: it keeps the number of
/// each mark and who holds a line.
pub proof fn lemma_transform_valid(s: GameState, t: int)
    requires
        s.wf(),
        valid(s@),
        0 <= t < 8,
    ensures
        valid(permute(s@, t)),
        wins(permute(s@, t), PlayerEnum::X) == wins(s@, PlayerEnum::X),
        wins(permute(s@, t), PlayerEnum::O) == wins(s@, PlayerEnum::O),
        count(permute(s@, t), PlayerEnum::X) == count(s@, PlayerEnum::X),
        count(permute(s@, t), PlayerEnum::O) == count(s@, PlayerEnum::O),
{
    lemma_permute_wins(s@, t, PlayerEnum::X);
    lemma_permute_wins(s@, t, PlayerEnum::O);
    lemma_permute_count(s@, t, PlayerEnum::X);
    lemma_permute_count(s@, t, PlayerEnum::O);
}

/// A board and each of its eight symmetric images have the same canonical word.
pub proof fn lemma_canonical_invariant(s: GameState, t: int)
    requires
        s.wf(),
        0 <= t < 8,
    ensures
        canonical_raw(transform_raw(s.spec_raw(), t)) == canonical_raw(s.spec_raw()),
{
    let raw = s.spec_raw();
    let img = transform_raw(raw, t);
    lemma_least_image(raw, 8);
    lemma_least_image(img, 8);
    let u0 = choose|v: int| 0 <= v < 8 && least_image(img, 8) == #[trigger] transform_raw(img, v);
    lemma_transform_compose(raw, t, u0);
    lemma_compose_table(t, u0, 0);
    assert(canonical_raw(img) >= canonical_raw(raw));
    let v0 = choose|v: int| 0 <= v < 8 && least_image(raw, 8) == #[trigger] transform_raw(raw, v);
    let u1 = solve(t, v0);
    lemma_solve(t, v0);
    lemma_transform_compose(raw, t, u1);
    assert(transform_raw(img, u1) == transform_raw(raw, v0));
    assert(canonical_raw(img) <= canonical_raw(raw));
}

/// Taking the canonical word twice gives the canonical word.
pub proof fn lemma_canonical_idempotent(s: GameState)
    requires
        s.wf(),
    ensures
        canonical_raw(canonical_raw(s.spec_raw())) == canonical_raw(s.spec_raw()),
{
    let raw = s.spec_raw();
    lemma_least_image(raw, 8);
    let v0 = choose|v: int| 0 <= v < 8 && least_image(raw, 8) == #[trigger] transform_raw(raw, v);
    lemma_canonical_invariant(s, v0);
}

/// The canonical form of a board: the image, among its eight symmetric images, with the least
/// packed word.
pub fn simplified_board(board: GameState) -> (r: GameState)
    requires
        board.wf(),
    ensures
        r.wf(),
        r.spec_raw() == canonical_raw(board.spec_raw()),
        valid(board@) ==> valid(r@),
{
    let num_transformations: i32 = 8;
    let mut min_board = board;
    proof {
        lemma_identity(board.spec_raw());
    }
    let mut i: i32 = 0;
    while i < num_transformations
        invariant
            board.wf(),
            min_board.wf(),
            0 <= i <= 8,
            num_transformations == 8,
            min_board.spec_raw() == least_image(board.spec_raw(), i as int),
            valid(board@) ==> valid(min_board@),
        decreases 8 - i,
    {
        let transformed_board = board.transform(i % 4, i > 3);
        assert(transform_index(i % 4, i > 3) == i as int);
        proof {
            if valid(board@) {
                lemma_transform_valid(board, i as int);
            }
        }
        if transformed_board.get_raw() < min_board.get_raw() {
            min_board = transformed_board;
        }
        i += 1;
    }
    min_board
}

/// The canonical form of a board, which stands for its whole class of symmetric images.
pub fn get_true_board(board: GameState) -> (r: GameState)
    requires
        board.wf(),
    ensures
        r.wf(),
        r.spec_raw() == canonical_raw(board.spec_raw()),
        valid(board@) ==> valid(r@),
{
    simplified_board(board)
}

} // verus!
