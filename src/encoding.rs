use vstd::prelude::*;

verus! {

/// Number of cells on the board.
pub const BOARD_SIZE: usize = 9;

/// Largest packed word plus one: nine 2-bit fields.
pub const RAW_LIMIT: u32 = 0x40000;

/// The 2-bit field of cell `i` (row-major) in a packed word.
pub open spec fn cell_code(raw: u32, i: int) -> u32 {
    (raw >> ((2 * i) as u32)) & 3u32
}

/// A packed word that holds nine fields, none of them the unused code 3.
pub open spec fn wf_raw(raw: u32) -> bool {
    &&& raw < RAW_LIMIT
    &&& forall|i: int| 0 <= i < 9 ==> #[trigger] cell_code(raw, i) != 3
}

/// The word whose nine fields are `c0 .. c8`, in cell order.
pub open spec fn pack9(
    c0: u32,
    c1: u32,
    c2: u32,
    c3: u32,
    c4: u32,
    c5: u32,
    c6: u32,
    c7: u32,
    c8: u32,
) -> u32 {
    c0 | (c1 << 2u32) | (c2 << 4u32) | (c3 << 6u32) | (c4 << 8u32) | (c5 << 10u32) | (c6
        << 12u32) | (c7 << 14u32) | (c8 << 16u32)
}

/// Packing nine 2-bit codes gives a word whose fields are those codes.
pub proof fn lemma_pack9(
    c0: u32,
    c1: u32,
    c2: u32,
    c3: u32,
    c4: u32,
    c5: u32,
    c6: u32,
    c7: u32,
    c8: u32,
)
    requires
        c0 <= 3,
        c1 <= 3,
        c2 <= 3,
        c3 <= 3,
        c4 <= 3,
        c5 <= 3,
        c6 <= 3,
        c7 <= 3,
        c8 <= 3,
    ensures
        cell_code(pack9(c0, c1, c2, c3, c4, c5, c6, c7, c8), 0) == c0,
        cell_code(pack9(c0, c1, c2, c3, c4, c5, c6, c7, c8), 1) == c1,
        cell_code(pack9(c0, c1, c2, c3, c4, c5, c6, c7, c8), 2) == c2,
        cell_code(pack9(c0, c1, c2, c3, c4, c5, c6, c7, c8), 3) == c3,
        cell_code(pack9(c0, c1, c2, c3, c4, c5, c6, c7, c8), 4) == c4,
        cell_code(pack9(c0, c1, c2, c3, c4, c5, c6, c7, c8), 5) == c5,
        cell_code(pack9(c0, c1, c2, c3, c4, c5, c6, c7, c8), 6) == c6,
        cell_code(pack9(c0, c1, c2, c3, c4, c5, c6, c7, c8), 7) == c7,
        cell_code(pack9(c0, c1, c2, c3, c4, c5, c6, c7, c8), 8) == c8,
        pack9(c0, c1, c2, c3, c4, c5, c6, c7, c8) < RAW_LIMIT,
{
    let r = pack9(c0, c1, c2, c3, c4, c5, c6, c7, c8);
    assert(r & 3 == c0 && (r >> 2) & 3 == c1 && (r >> 4) & 3 == c2 && (r >> 6) & 3 == c3 && (r
        >> 8) & 3 == c4 && (r >> 10) & 3 == c5 && (r >> 12) & 3 == c6 && (r >> 14) & 3 == c7 && (r
        >> 16) & 3 == c8 && r < 0x40000) by (bit_vector)
        requires
            c0 <= 3,
            c1 <= 3,
            c2 <= 3,
            c3 <= 3,
            c4 <= 3,
            c5 <= 3,
            c6 <= 3,
            c7 <= 3,
            c8 <= 3,
            r == c0 | (c1 << 2u32) | (c2 << 4u32) | (c3 << 6u32) | (c4 << 8u32) | (c5 << 10u32)
                | (c6 << 12u32) | (c7 << 14u32) | (c8 << 16u32),
    ;
    assert(r >> 0u32 == r) by (bit_vector);
}

/// A field holds one of four codes.
pub proof fn lemma_code_bound(raw: u32, i: int)
    ensures
        cell_code(raw, i) <= 3,
{
    let s = (2 * i) as u32;
    assert((raw >> s) & 3 <= 3) by (bit_vector);
}

/// The word that swaps the two players' marks and keeps empty cells empty.
pub open spec fn inverted_raw(raw: u32) -> u32 {
    let half = ((raw & 0xAAAAAu32) >> 1u32) | (raw & 0x55555u32);
    let pieces = half | (half << 1u32);
    !raw & pieces
}

/// Field `j` of the swapped word, from field `j` of the word.
pub proof fn lemma_inverted_field(raw: u32, j: u32)
    requires
        j < 9,
    ensures
        cell_code(raw, j as int) == 0 ==> cell_code(inverted_raw(raw), j as int) == 0,
        cell_code(raw, j as int) == 1 ==> cell_code(inverted_raw(raw), j as int) == 2,
        cell_code(raw, j as int) == 2 ==> cell_code(inverted_raw(raw), j as int) == 1,
        cell_code(raw, j as int) == 3 ==> cell_code(inverted_raw(raw), j as int) == 0,
        raw < RAW_LIMIT ==> inverted_raw(raw) < RAW_LIMIT,
{
    let sj: u32 = (2 * j) as u32;
    let inv = inverted_raw(raw);
    assert({
        let c = (raw >> sj) & 3;
        let ic = (inv >> sj) & 3;
        &&& (c == 0 ==> ic == 0)
        &&& (c == 1 ==> ic == 2)
        &&& (c == 2 ==> ic == 1)
        &&& (c == 3 ==> ic == 0)
        &&& (raw < 0x40000 ==> inv < 0x40000)
    }) by (bit_vector)
        requires
            j < 9,
            sj == j + j,
            inv == !raw & ((((raw & 0xAAAAAu32) >> 1u32) | (raw & 0x55555u32)) | ((((raw
                & 0xAAAAAu32) >> 1u32) | (raw & 0x55555u32)) << 1u32)),
    ;
}

/// The mask with the low bit of the fields of cells `a`, `b` and `c`.
pub open spec fn line_mask(a: u32, b: u32, c: u32) -> u32 {
    (1u32 << ((2 * a) as u32)) | (1u32 << ((2 * b) as u32)) | (1u32 << ((2 * c) as u32))
}

/// A word covers a line mask exactly when the three fields have their low bit set.
pub proof fn lemma_line_mask(raw: u32, a: u32, b: u32, c: u32)
    requires
        a < 9,
        b < 9,
        c < 9,
    ensures
        ((raw & line_mask(a, b, c)) == line_mask(a, b, c)) == (cell_code(raw, a as int) & 1 == 1
            && cell_code(raw, b as int) & 1 == 1 && cell_code(raw, c as int) & 1 == 1),
{
    let sa: u32 = (2 * a) as u32;
    let sb: u32 = (2 * b) as u32;
    let sc: u32 = (2 * c) as u32;
    let m = line_mask(a, b, c);
    assert(((raw & m) == m) == (((raw >> sa) & 3) & 1 == 1 && ((raw >> sb) & 3) & 1 == 1 && ((raw
        >> sc) & 3) & 1 == 1)) by (bit_vector)
        requires
            a < 9,
            b < 9,
            c < 9,
            sa == a + a,
            sb == b + b,
            sc == c + c,
            m == (1u32 << sa) | (1u32 << sb) | (1u32 << sc),
    ;
}

/// Among the codes 0, 1 and 2, only 1 has its low bit set.
pub proof fn lemma_low_bit(c: u32)
    requires
        c <= 2,
    ensures
        (c & 1 == 1) == (c == 1),
{
    assert((c & 1 == 1) == (c == 1)) by (bit_vector)
        requires
            c <= 2,
    ;
}

/// A word below the limit is the packing of its own nine fields.
pub proof fn lemma_unpack9(raw: u32)
    requires
        raw < RAW_LIMIT,
    ensures
        raw == pack9(
            cell_code(raw, 0),
            cell_code(raw, 1),
            cell_code(raw, 2),
            cell_code(raw, 3),
            cell_code(raw, 4),
            cell_code(raw, 5),
            cell_code(raw, 6),
            cell_code(raw, 7),
            cell_code(raw, 8),
        ),
{
    assert(raw == (raw & 3) | (((raw >> 2) & 3) << 2u32) | (((raw >> 4) & 3) << 4u32) | (((raw
        >> 6) & 3) << 6u32) | (((raw >> 8) & 3) << 8u32) | (((raw >> 10) & 3) << 10u32) | (((raw
        >> 12) & 3) << 12u32) | (((raw >> 14) & 3) << 14u32) | (((raw >> 16) & 3) << 16u32))
        by (bit_vector)
        requires
            raw < 0x40000,
    ;
    assert(raw >> 0u32 == raw) by (bit_vector);
}

/// Two words below the limit with the same nine fields are equal.
pub proof fn lemma_fields_determine(a: u32, b: u32)
    requires
        a < RAW_LIMIT,
        b < RAW_LIMIT,
        forall|i: int| 0 <= i < 9 ==> cell_code(a, i) == cell_code(b, i),
    ensures
        a == b,
{
    lemma_unpack9(a);
    lemma_unpack9(b);
    assert(cell_code(a, 0) == cell_code(b, 0));
    assert(cell_code(a, 1) == cell_code(b, 1));
    assert(cell_code(a, 2) == cell_code(b, 2));
    assert(cell_code(a, 3) == cell_code(b, 3));
    assert(cell_code(a, 4) == cell_code(b, 4));
    assert(cell_code(a, 5) == cell_code(b, 5));
    assert(cell_code(a, 6) == cell_code(b, 6));
    assert(cell_code(a, 7) == cell_code(b, 7));
    assert(cell_code(a, 8) == cell_code(b, 8));
}

/// Or-ing a code into an empty field sets that field and keeps the others.
pub proof fn lemma_set_field(raw: u32, p: u32, c: u32, j: u32)
    requires
        p < 9,
        j < 9,
        c <= 3,
        cell_code(raw, p as int) == 0,
    ensures
        cell_code(raw | (c << ((2 * p) as u32)), j as int) == if j == p {
            c
        } else {
            cell_code(raw, j as int)
        },
        raw < RAW_LIMIT ==> (raw | (c << ((2 * p) as u32))) < RAW_LIMIT,
{
    let sp: u32 = (2 * p) as u32;
    let sj: u32 = (2 * j) as u32;
    assert((raw >> sp) & 3 == 0);
    assert(((raw | (c << sp)) >> sj) & 3 == if j == p {
        c
    } else {
        (raw >> sj) & 3
    }) by (bit_vector)
        requires
            p < 9,
            j < 9,
            sp == p + p,
            sj == j + j,
            c <= 3,
            (raw >> sp) & 3 == 0,
    ;
    assert(raw < 0x40000 ==> (raw | (c << sp)) < 0x40000) by (bit_vector)
        requires
            p < 9,
            sp == p + p,
            c <= 3,
    ;
}

} // verus!
