use vstd::prelude::*;
use vstd::string::*;
use std::collections::HashMap;
use crate::canonical::{
    compose, lemma_compose_table, lemma_compose_values, lemma_solve, lemma_source_values, solve,
};
use crate::game_state::{line_cell, source_cell};

verus! {

/// The table `mapping` moved by symmetry `t`: entry `i` is the entry that `t` brings to cell
/// `i`.
pub open spec fn moved(mapping: Seq<i32>, t: int) -> Seq<i32> {
    Seq::new(9, |i: int| mapping[source_cell(t, i)])
}

/// A cell table turned `repeated_num` quarter turns clockwise: entry `i` of the result is the
/// entry that the turns bring to cell `i`.
pub fn rotated_mapping(mapping: &[i32; 9], repeated_num: u32) -> (r: [i32; 9])
    ensures
        r@ == moved(mapping@, repeated_num as int % 4),
{
    let turns = repeated_num % 4;
    let mut temp: [i32; 9] = *mapping;
    let mut k: u32 = 0;
    proof {
        lemma_source_values(0, 0);
        lemma_source_values(0, 1);
        lemma_source_values(0, 2);
        lemma_source_values(0, 3);
        lemma_source_values(0, 4);
        lemma_source_values(0, 5);
        lemma_source_values(0, 6);
        lemma_source_values(0, 7);
        lemma_source_values(0, 8);
        assert(temp@ =~= moved(mapping@, 0));
    }
    while k < turns
        invariant
            turns == repeated_num % 4,
            k <= turns,
            temp@ == moved(mapping@, k as int),
        decreases turns - k,
    {
        let rotated: [i32; 9] = [
            temp[6],
            temp[3],
            temp[0],
            temp[7],
            temp[4],
            temp[1],
            temp[8],
            temp[5],
            temp[2],
        ];
        proof {
            lemma_compose_values(k as int, 1);
            assert forall|i: int| 0 <= i < 9 implies #[trigger] rotated@[i] == moved(
                mapping@,
                k + 1,
            )[i] by {
                lemma_compose_table(k as int, 1, i);
                lemma_source_values(1, i);
            }
            assert(rotated@ =~= moved(mapping@, k + 1));
        }
        temp = rotated;
        k += 1;
    }
    temp
}

/// The eight images of a cell table under the symmetries, in the order of `source_cell`: the
/// table itself, its three quarter turns, then the table turned upside down and its three
/// quarter turns.
pub fn get_equivalent_mappings(mapping: &[i32; 9]) -> (r: [[i32; 9]; 8])
    ensures
        forall|t: int| 0 <= t < 8 ==> (#[trigger] r@[t])@ == moved(mapping@, t),
{
    let flipped = flipped_mapping(mapping);
    let r: [[i32; 9]; 8] = [
        rotated_mapping(mapping, 0),
        rotated_mapping(mapping, 1),
        rotated_mapping(mapping, 2),
        rotated_mapping(mapping, 3),
        flipped,
        rotated_mapping(&flipped, 1),
        rotated_mapping(&flipped, 2),
        rotated_mapping(&flipped, 3),
    ];
    proof {
        assert forall|t: int| 4 <= t < 8 implies (#[trigger] r@[t])@ == moved(mapping@, t) by {
            assert forall|i: int| 0 <= i < 9 implies #[trigger] r@[t]@[i] == moved(mapping@, t)[i] by {
                lemma_compose_table(4, t - 4, i);
                lemma_compose_values(4, t - 4);
            }
            assert(r@[t]@ =~= moved(mapping@, t));
        }
    }
    r
}

/// A cell table turned upside down: entry `i` of the result is the entry that the turn brings
/// to cell `i`.
pub fn flipped_mapping(mapping: &[i32; 9]) -> (r: [i32; 9])
    ensures
        r@ == moved(mapping@, 4),
{
    let flipped: [i32; 9] = [
        mapping[6],
        mapping[7],
        mapping[8],
        mapping[3],
        mapping[4],
        mapping[5],
        mapping[0],
        mapping[1],
        mapping[2],
    ];
    proof {
        assert forall|i: int| 0 <= i < 9 implies #[trigger] flipped@[i] == moved(mapping@, 4)[i] by {
            lemma_source_values(4, i);
        }
        assert(flipped@ =~= moved(mapping@, 4));
    }
    flipped
}

/// The text of a Rust constant declaration.
pub fn const_str(name: &str, var_type: &str, value: &str) -> (r: String)
    ensures
        r@ == "pub const "@ + name@ + ": "@ + var_type@ + " = "@ + value@ + ";"@,
{
    let mut out = "pub const ".to_string();
    out.append(name);
    out.append(": ");
    out.append(var_type);
    out.append(" = ");
    out.append(value);
    out.append(";");
    out
}

/// The word with the low bit set in the field of each cell of winning line `k`, where
/// `mapping` gives each cell its field.
pub open spec fn win_mask_of(mapping: Seq<i32>, k: int) -> u32 {
    (1u32 << (2 * mapping[line_cell(k, 0)]) as u32) | (1u32 << (2 * mapping[line_cell(k, 1)]) as u32)
        | (1u32 << (2 * mapping[line_cell(k, 2)]) as u32)
}

/// The text that `{:#020b}` gives for a value below 2^18: `0b` and eighteen binary digits.
pub open spec fn binary_text(v: u32) -> Seq<char> {
    seq!['0', 'b'] + Seq::new(
        18,
        |i: int|
            if (v >> (17 - i) as u32) & 1 == 1 {
                '1'
            } else {
                '0'
            },
    )
}

/// The text that `{:#020b}` gives for a value below 2^18: `0b` and eighteen binary digits.
fn binary_literal(v: u32) -> (r: String)
    ensures
        r@ == binary_text(v),
{
    let mut out = "0b".to_string();
    proof {
        reveal_strlit("0b");
        reveal_strlit("0");
        reveal_strlit("1");
        assert(out@ =~= binary_text(v).subrange(0, 2));
    }
    let mut i: u32 = 0;
    while i < 18
        invariant
            i <= 18,
            out@ == binary_text(v).subrange(0, 2 + i as int),
        decreases 18 - i,
    {
        let bit = (v >> (17 - i)) & 1;
        if bit == 1 {
            out.append("1");
        } else {
            out.append("0");
        }
        proof {
            reveal_strlit("0");
            reveal_strlit("1");
            assert(binary_text(v)[2 + i as int] == if (v >> (17 - i) as u32) & 1 == 1 {
                '1'
            } else {
                '0'
            });
            assert(out@ =~= binary_text(v).subrange(0, 2 + i + 1));
        }
        i += 1;
    }
    assert(binary_text(v).subrange(0, 20) =~= binary_text(v));
    out
}

/// The eight win masks, written out as a list of binary literals.
pub open spec fn mask_list_text(mapping: Seq<i32>) -> Seq<char> {
    seq!['['] + binary_text(win_mask_of(mapping, 0)) + seq![',', ' '] + binary_text(
        win_mask_of(mapping, 1),
    ) + seq![',', ' '] + binary_text(win_mask_of(mapping, 2)) + seq![',', ' '] + binary_text(
        win_mask_of(mapping, 3),
    ) + seq![',', ' '] + binary_text(win_mask_of(mapping, 4)) + seq![',', ' '] + binary_text(
        win_mask_of(mapping, 5),
    ) + seq![',', ' '] + binary_text(win_mask_of(mapping, 6)) + seq![',', ' '] + binary_text(
        win_mask_of(mapping, 7),
    ) + seq![']']
}

/// The declaration of the win masks for a board whose cell `i` sits in field `mapping[i]`.
pub fn codegen_is_win_masks(mapping: &[i32; 9]) -> (r: String)
    requires
        forall|i: int| 0 <= i < 9 ==> 0 <= #[trigger] mapping@[i] < 9,
    ensures
        r@ == "pub const "@ + "WIN_MASKS"@ + ": "@ + "[u32; 8]"@ + " = "@ + mask_list_text(
            mapping@,
        ) + ";"@,
{
    let mut win_str = "[".to_string();
    proof {
        reveal_strlit("[");
        reveal_strlit(", ");
        reveal_strlit("]");
    }
    let mut k: usize = 0;
    while k < 8
        invariant
            forall|i: int| 0 <= i < 9 ==> 0 <= #[trigger] mapping@[i] < 9,
            k <= 8,
            k == 0 ==> win_str@ == seq!['['],
            k > 0 ==> win_str@ == mask_list_text(mapping@).subrange(0, 1 + 22 * k - 2),
        decreases 8 - k,
    {
        let a = mapping[line_cell_exec(k, 0)];
        let b = mapping[line_cell_exec(k, 1)];
        let c = mapping[line_cell_exec(k, 2)];
        let mask = (1u32 << (2 * a) as u32) | (1u32 << (2 * b) as u32) | (1u32 << (2 * c) as u32);
        if k > 0 {
            win_str.append(", ");
        }
        let lit = binary_literal(mask);
        win_str.append(lit.as_str());
        proof {
            assert(mask == win_mask_of(mapping@, k as int));
            reveal_strlit(", ");
            assert(mask_list_text(mapping@).subrange(0, 1 + 22 * (k + 1) - 2) =~= if k == 0 {
                seq!['['] + binary_text(win_mask_of(mapping@, 0))
            } else {
                mask_list_text(mapping@).subrange(0, 1 + 22 * k - 2) + seq![',', ' '] + binary_text(
                    win_mask_of(mapping@, k as int),
                )
            });
        }
        k += 1;
    }
    win_str.append("]");
    proof {
        assert(win_str@ =~= mask_list_text(mapping@));
    }
    const_str("WIN_MASKS", "[u32; 8]", win_str.as_str())
}

/// The cell of winning line `k` at place `j`.
fn line_cell_exec(k: usize, j: usize) -> (r: usize)
    requires
        k < 8,
        j < 3,
    ensures
        r as int == line_cell(k as int, j as int),
        r < 9,
{
    if k < 3 {
        3 * k + j
    } else if k < 6 {
        (k - 3) + 3 * j
    } else if k == 6 {
        4 * j
    } else {
        2 + 2 * j
    }
}

/// The first place of `value` among the nine entries of `table`.
pub open spec fn place_of(table: Seq<i32>, value: i32) -> int {
    choose|p: int| 0 <= p < 9 && table[p] == value && forall|q: int| 0 <= q < p ==> table[q] != value
}

/// How far the mark of cell `i` moves when the layout `initial` becomes `transformed`.
pub open spec fn offset_of(initial: Seq<i32>, transformed: Seq<i32>, i: int) -> int {
    i - place_of(transformed, initial[i])
}

/// The fields of the cells among the first `n` that move by `d`.
pub open spec fn shift_bits(initial: Seq<i32>, transformed: Seq<i32>, d: int, n: int) -> u32
    decreases n,
{
    if n <= 0 {
        0
    } else {
        shift_bits(initial, transformed, d, n - 1) | if offset_of(initial, transformed, n - 1)
            == d {
            3u32 << (2 * (n - 1)) as u32
        } else {
            0u32
        }
    }
}

/// `value` stands among the nine entries of `table`.
pub open spec fn stands_in(table: Seq<i32>, value: i32) -> bool {
    exists|p: int| 0 <= p < 9 && table[p] == value
}

/// Every entry of `initial` stands somewhere in `transformed`.
pub open spec fn covers(initial: Seq<i32>, transformed: Seq<i32>) -> bool {
    forall|i: int| 0 <= i < 9 ==> stands_in(transformed, #[trigger] initial[i])
}

/// No cell moves by `d`, so no field is collected for it.
proof fn lemma_shift_bits_absent(initial: Seq<i32>, transformed: Seq<i32>, d: int, n: int)
    requires
        forall|i: int| 0 <= i < n ==> offset_of(initial, transformed, i) != d,
    ensures
        shift_bits(initial, transformed, d, n) == 0,
    decreases n,
{
    if n > 0 {
        lemma_shift_bits_absent(initial, transformed, d, n - 1);
        assert(0u32 | 0u32 == 0u32) by (bit_vector);
    }
}

/// The place of `value` in `table`.
fn position(table: &[i32; 9], value: i32) -> (r: usize)
    requires
        stands_in(table@, value),
    ensures
        r as int == place_of(table@, value),
        r < 9,
{
    let mut p: usize = 0;
    while p < 9
        invariant
            p <= 9,
            stands_in(table@, value),
            forall|q: int| 0 <= q < p ==> table@[q] != value,
        decreases 9 - p,
    {
        if table[p] == value {
            let ghost c = place_of(table@, value);
            assert(0 <= c < 9 && table@[c] == value && forall|q: int| 0 <= q < c ==> table@[q]
                != value);
            assert(c == p as int) by {
                if c < p as int {
                } else if c > p as int {
                }
            }
            return p;
        }
        p += 1;
    }
    assert(false);
    0
}

/// For each distance a mark moves when the layout `initial` becomes `transformed`, the fields
/// of the cells that move that far.
pub open spec fn shift_map_of(initial: Seq<i32>, transformed: Seq<i32>) -> Map<i32, u32> {
    Map::new(
        |d: i32| exists|i: int| 0 <= i < 9 && offset_of(initial, transformed, i) == d as int,
        |d: i32| shift_bits(initial, transformed, d as int, 9),
    )
}

/// Every entry of a table stands in each of its symmetric images.
proof fn lemma_moved_covers(mapping: Seq<i32>, t: int)
    requires
        mapping.len() == 9,
        0 <= t < 8,
    ensures
        covers(mapping, moved(mapping, t)),
{
    let u = solve(t, 0);
    lemma_solve(t, 0);
    assert forall|i: int| 0 <= i < 9 implies stands_in(moved(mapping, t), #[trigger] mapping[i]) by {
        lemma_compose_table(t, u, i);
        lemma_source_values(0, i);
        let p = source_cell(u, i);
        assert(moved(mapping, t)[p] == mapping[i]);
    }
}

/// The shift maps of the eight symmetric images of `mapping`, in the order of `source_cell`.
pub fn get_all_shift_maps(mapping: &[i32; 9]) -> (r: Vec<HashMap<i32, u32>>)
    ensures
        r@.len() == 8,
        forall|t: int| 0 <= t < 8 ==> (#[trigger] r@[t])@ == shift_map_of(mapping@, moved(mapping@, t)),
{
    let eq = get_equivalent_mappings(mapping);
    let mut shift_maps: Vec<HashMap<i32, u32>> = Vec::new();
    let mut t: usize = 0;
    while t < 8
        invariant
            t <= 8,
            forall|u: int| 0 <= u < 8 ==> (#[trigger] eq@[u])@ == moved(mapping@, u),
            shift_maps@.len() == t,
            forall|u: int| 0 <= u < t ==> (#[trigger] shift_maps@[u])@ == shift_map_of(mapping@, moved(mapping@, u)),
        decreases 8 - t,
    {
        proof {
            lemma_moved_covers(mapping@, t as int);
        }
        shift_maps.push(get_shift_map(mapping, &eq[t]));
        t += 1;
    }
    shift_maps
}

/// For each distance a mark moves when the layout `initial_mapping` becomes
/// `transform_mapping`, the fields of the cells that move that far.
pub fn get_shift_map(initial_mapping: &[i32; 9], transform_mapping: &[i32; 9]) -> (r: HashMap<
    i32,
    u32,
>)
    requires
        covers(initial_mapping@, transform_mapping@),
    ensures
        r@ == shift_map_of(initial_mapping@, transform_mapping@),
{
    let ghost init = initial_mapping@;
    let ghost tr = transform_mapping@;
    let mut shift_map: HashMap<i32, u32> = HashMap::new();
    let mut board_index: usize = 0;
    proof {
        assert(shift_map@ =~= Map::new(
            |d: i32| exists|i: int| 0 <= i < 0 && offset_of(init, tr, i) == d as int,
            |d: i32| shift_bits(init, tr, d as int, 0),
        ));
    }
    while board_index < 9
        invariant
            init == initial_mapping@,
            tr == transform_mapping@,
            covers(init, tr),
            board_index <= 9,
            shift_map@ == Map::new(
                |d: i32| exists|i: int| 0 <= i < board_index && offset_of(init, tr, i) == d as int,
                |d: i32| shift_bits(init, tr, d as int, board_index as int),
            ),
        decreases 9 - board_index,
    {
        let k = board_index;
        proof {
            let ki = k as int;
            assert(0 <= ki < 9);
            assert(covers(init, tr));
            assert(stands_in(tr, init[ki]));
        }
        let p = position(transform_mapping, initial_mapping[k]);
        let offset: i32 = k as i32 - p as i32;
        let bits: u32 = 3u32 << (2 * k) as u32;
        let cur: u32 = match shift_map.get(&offset) {
            Some(v) => *v,
            None => 0,
        };
        shift_map.insert(offset, cur | bits);
        proof {
            let km = k as int;
            assert(offset as int == offset_of(init, tr, km));
            if !(exists|i: int| 0 <= i < km && offset_of(init, tr, i) == offset as int) {
                lemma_shift_bits_absent(init, tr, offset as int, km);
            }
            assert forall|d: i32| d != offset implies #[trigger] shift_bits(init, tr, d as int, km + 1)
                == shift_bits(init, tr, d as int, km) by {
                let x = shift_bits(init, tr, d as int, km);
                assert(x | 0u32 == x) by (bit_vector);
            }
            assert(shift_map@ =~= Map::new(
                |d: i32| exists|i: int| 0 <= i < km + 1 && offset_of(init, tr, i) == d as int,
                |d: i32| shift_bits(init, tr, d as int, km + 1),
            ));
        }
        board_index += 1;
    }
    shift_map
}

} // verus!
