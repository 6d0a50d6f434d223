use std::collections::HashMap;
use tictactoe::codegen::{
    codegen_is_win_masks, const_str, flipped_mapping, get_all_shift_maps, get_equivalent_mappings,
    get_shift_map, rotated_mapping,
};

#[test]
fn test_rotated_mapping() {
    let test_cases = vec![
        (&[0, 1, 2, 3, 4, 5, 6, 7, 8], 1, [6, 3, 0, 7, 4, 1, 8, 5, 2]),
        (&[0, 1, 2, 3, 4, 5, 6, 7, 8], 2, [8, 7, 6, 5, 4, 3, 2, 1, 0]),
        (&[0, 1, 2, 3, 4, 5, 6, 7, 8], 3, [2, 5, 8, 1, 4, 7, 0, 3, 6]),
        (&[0, 1, 2, 3, 4, 5, 6, 7, 8], 4, [0, 1, 2, 3, 4, 5, 6, 7, 8]),
        (&[0, 1, 2, 3, 4, 5, 6, 7, 8], 5, [6, 3, 0, 7, 4, 1, 8, 5, 2]),
    ];
    for (initial_mapping, num_rotations, result_mapping) in test_cases {
        let mapping = rotated_mapping(initial_mapping, num_rotations);
        assert_eq!(mapping, result_mapping)
    }
}

#[test]
fn test_flipped_mapping() {
    let test_cases = vec![
        (&[0, 1, 2, 3, 4, 5, 6, 7, 8], [6, 7, 8, 3, 4, 5, 0, 1, 2]),
        (&[8, 7, 4, 1, 0, 3, 2, 5, 6], [2, 5, 6, 1, 0, 3, 8, 7, 4]),
    ];
    for (initial_mapping, result_mapping) in test_cases {
        let mapping = flipped_mapping(initial_mapping);
        assert_eq!(mapping, result_mapping)
    }
}

#[test]
fn const_declaration_text() {
    assert_eq!(const_str("BOARD_SIZE", "usize", "9"), "pub const BOARD_SIZE: usize = 9;");
}

#[test]
fn win_masks_row_major() {
    let text = codegen_is_win_masks(&[0, 1, 2, 3, 4, 5, 6, 7, 8]);
    assert_eq!(
        text,
        "pub const WIN_MASKS: [u32; 8] = [0b000000000000010101, 0b000000010101000000, \
0b010101000000000000, 0b000001000001000001, 0b000100000100000100, 0b010000010000010000, \
0b010000000100000001, 0b000001000100010000];"
    );
}

#[test]
fn shift_map_quarter_turn() {
    let initial = [0, 1, 2, 3, 4, 5, 6, 7, 8];
    let turned = rotated_mapping(&initial, 1);
    let map = get_shift_map(&initial, &turned);
    let mut expected: HashMap<i32, u32> = HashMap::new();
    expected.insert(-2, 3 | (3 << 10));
    expected.insert(-4, 3 << 2);
    expected.insert(-6, 3 << 4);
    expected.insert(2, (3 << 6) | (3 << 16));
    expected.insert(0, 3 << 8);
    expected.insert(6, 3 << 12);
    expected.insert(4, 3 << 14);
    assert_eq!(map, expected);
    let same = get_shift_map(&initial, &initial);
    assert_eq!(same.len(), 1);
    assert_eq!(same[&0], 0x3FFFF);
}

#[test]
fn all_shift_maps_of_row_major_layout() {
    let initial = [0, 1, 2, 3, 4, 5, 6, 7, 8];
    let maps = get_all_shift_maps(&initial);
    assert_eq!(maps.len(), 8);
    assert_eq!(maps[0].len(), 1);
    assert_eq!(maps[0][&0], 0x3FFFF);
    assert_eq!(maps[1], get_shift_map(&initial, &rotated_mapping(&initial, 1)));
    let eq = get_equivalent_mappings(&initial);
    assert_eq!(eq[4], flipped_mapping(&initial));
    assert_eq!(eq[5], rotated_mapping(&flipped_mapping(&initial), 1));
}
