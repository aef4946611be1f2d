use layout_optimizer::keyboard::error::KeyboardError;
use layout_optimizer::keyboard::key::KeycodeKey;
use layout_optimizer::text_processor::keycode::Keycode::{_A, _B, _C, _D, _E, _NO, _SFT};
use layout_optimizer::keyboard::layer::Layer;
use layout_optimizer::keyboard::LayoutPosition;
use rand::rngs::StdRng;
use rand::SeedableRng;

// Square dimensions are avoided where they could hide a mix-up of rows and
// columns.

fn key(value: layout_optimizer::text_processor::keycode::Keycode, moveable: bool, symmetric: bool) -> KeycodeKey {
    KeycodeKey { value, moveable, symmetric }
}

#[test]
fn test_keycode_key_layer() {
    let l = LayoutPosition::for_layer(0, 1);
    let key1: KeycodeKey = KeycodeKey::from_keycode(_A);
    let key2: KeycodeKey = KeycodeKey::from_keycode(_B);
    let key3: KeycodeKey = KeycodeKey::from_keycode(_C);
    let key4: KeycodeKey = KeycodeKey::from_keycode(_D);
    let key5: KeycodeKey = KeycodeKey::from_keycode(_E);
    let key1again = key1.clone();
    let vec_vec_layer: Vec<Vec<KeycodeKey>> =
        vec![vec![key1, key2, key3], vec![key5, key4, key1again]];
    let mut expected_layer = Layer::<2, 3, KeycodeKey>::init_blank();
    expected_layer.set(0, 0, key1).unwrap();
    expected_layer.set(0, 1, key2).unwrap();
    expected_layer.set(0, 2, key3).unwrap();
    expected_layer.set(1, 0, key5).unwrap();
    expected_layer.set(1, 1, key4).unwrap();
    expected_layer.set(1, 2, key1again).unwrap();
    let expected_layer_again = expected_layer.clone();
    assert_eq!(Layer::<2, 3, KeycodeKey>::from_rows(&vec_vec_layer).unwrap(), expected_layer);
    assert_eq!(
        expected_layer_again.get_from_layout_position(&l).unwrap(),
        KeycodeKey::from_keycode(_B)
    );
}

#[test]
fn test_init_random() {
    let random_layer = Layer::<2, 3, KeycodeKey>::init_blank();
    assert_eq!(random_layer.get(0, 0).unwrap().value(), _NO);
}

#[test]
fn test_symmetry() {
    let layer = Layer::<4, 6, KeycodeKey>::init_blank();
    let query_layout_pos = LayoutPosition { layer_index: 0, row_index: 2, col_index: 5 };
    let expected_layout_pos = LayoutPosition { layer_index: 0, row_index: 2, col_index: 0 };
    assert_eq!(layer.symmetric_position(query_layout_pos.clone()), expected_layout_pos.clone());
    assert_eq!(layer.symmetric_position(expected_layout_pos.clone()), query_layout_pos.clone());
}

#[test]
fn test_randomize() {
    let mut rng = StdRng::seed_from_u64(0);
    let mut layer = Layer::<2, 2, KeycodeKey>::init_blank();
    layer.get_mut(0, 0).unwrap().set_is_symmetric(true);
    assert_eq!(
        layer.randomize(&mut rng, vec![_E]).unwrap_err(),
        KeyboardError::SymmetryError(0, 0, 0, 1)
    );
    layer.get_mut(0, 1).unwrap().set_is_symmetric(true);
    layer.get_mut(1, 1).unwrap().set_is_moveable(false);
    layer.randomize(&mut rng, vec![_E]).unwrap();
    assert_eq!(layer.get(0, 0).unwrap().value(), _NO);
    assert_eq!(layer.get(0, 1).unwrap().value(), _NO);
    assert_eq!(layer.get(1, 1).unwrap().value(), _NO);
    assert_eq!(layer.get(1, 0).unwrap().value(), _E);
}

#[test]
fn test_displaying_things() {
    let mut rng = StdRng::seed_from_u64(0);
    let mut layer = Layer::<5, 6, KeycodeKey>::init_blank();
    layer.randomize(&mut rng, vec![_A, _B, _C, _D, _E]).unwrap();
    layer.get_mut(3, 5).unwrap().set_is_moveable(false);
    let text = layer.to_text();
    let bits = layer.to_binary_text();
    println!("{}", text);
    println!("{}", bits);
    assert_eq!(text.lines().count(), 7);
    assert_eq!(text.lines().next().unwrap(), "    0   1   2   3   4   5 ");
    assert_eq!(bits.lines().count(), 7);
    assert_eq!(bits.lines().next().unwrap(), "    0      1      2      3      4      5    ");
    let row3 = bits.lines().nth(5).unwrap();
    assert!(row3.starts_with("3|"));
    assert!(row3.trim_end().ends_with("_00"));
}

#[test]
fn test_from_string() {
    let layer_string = "
			A_11 B_10 C_11
			D_00 __01 E_10
		";
    let layer = Layer::<2, 3, KeycodeKey>::try_from(layer_string).unwrap();
    println!("{}", layer.to_binary_text());
    assert_eq!(layer.get(0, 0).unwrap(), key(_A, true, true));
    assert_eq!(layer.get(0, 1).unwrap(), key(_B, true, false));
    assert_eq!(layer.get(0, 2).unwrap(), key(_C, true, true));
    assert_eq!(layer.get(1, 0).unwrap(), key(_D, false, false));
    assert_eq!(layer.get(1, 1).unwrap(), key(_NO, false, true));
    assert_eq!(layer.get(1, 2).unwrap(), key(_E, true, false));
}

#[test]
fn blank_layer_has_free_noop_keys_everywhere() {
    let layer = Layer::<2, 3, KeycodeKey>::init_blank();
    for r in 0..2 {
        for c in 0..3 {
            assert_eq!(layer.get(r, c).unwrap(), key(_NO, true, false));
        }
    }
    assert_eq!(layer.num_rows(), 2);
    assert_eq!(layer.num_columns(), 3);
}

#[test]
fn get_and_set_report_cells_out_of_bounds() {
    let mut layer = Layer::<2, 3, KeycodeKey>::init_blank();
    assert_eq!(layer.get(2, 0).unwrap_err(), KeyboardError::IndicesOutOfBounds(2, 0));
    assert_eq!(layer.get(0, 3).unwrap_err(), KeyboardError::IndicesOutOfBounds(0, 3));
    assert_eq!(layer.get(1, 2).unwrap(), key(_NO, true, false));
    assert_eq!(
        layer.set(2, 3, KeycodeKey::from_keycode(_A)).unwrap_err(),
        KeyboardError::IndicesOutOfBounds(2, 3)
    );
    assert_eq!(layer.get_mut(5, 1).unwrap_err(), KeyboardError::IndicesOutOfBounds(5, 1));
    assert_eq!(
        layer.get_from_layout_position(&LayoutPosition::for_layer(0, 7)).unwrap_err(),
        KeyboardError::IndicesOutOfBounds(0, 7)
    );
    assert_eq!(layer, Layer::<2, 3, KeycodeKey>::init_blank());
}

#[test]
fn set_changes_one_cell_only() {
    let mut layer = Layer::<2, 3, KeycodeKey>::init_blank();
    layer.set(1, 2, key(_C, false, true)).unwrap();
    for r in 0..2 {
        for c in 0..3 {
            let expected = if (r, c) == (1, 2) { key(_C, false, true) } else { key(_NO, true, false) };
            assert_eq!(layer.get(r, c).unwrap(), expected);
        }
    }
}

#[test]
fn get_mut_writes_through_to_the_layer() {
    let mut layer = Layer::<2, 3, KeycodeKey>::init_blank();
    {
        let cell = layer.get_mut(0, 2).unwrap();
        assert_eq!(*cell, key(_NO, true, false));
        cell.set_value(_D);
        cell.set_is_moveable(false);
    }
    assert_eq!(layer.get(0, 2).unwrap(), key(_D, false, false));
    assert_eq!(layer.get(0, 1).unwrap(), key(_NO, true, false));
}

#[test]
fn from_rows_checks_the_shape() {
    let k = KeycodeKey::from_keycode(_A);
    let one_row = vec![vec![k, k, k]];
    assert_eq!(
        Layer::<2, 3, KeycodeKey>::from_rows(&one_row).unwrap_err(),
        KeyboardError::RowMismatchError(2, 1)
    );
    let short_second = vec![vec![k, k, k], vec![k, k]];
    assert_eq!(
        Layer::<2, 3, KeycodeKey>::from_rows(&short_second).unwrap_err(),
        KeyboardError::ColMismatchError(3, 2)
    );
    let both_long = vec![vec![k, k, k, k], vec![k, k, k, k]];
    assert_eq!(
        Layer::<2, 3, KeycodeKey>::from_rows(&both_long).unwrap_err(),
        KeyboardError::ColMismatchError(3, 4)
    );
    let none: Vec<Vec<KeycodeKey>> = vec![];
    assert!(Layer::<0, 3, KeycodeKey>::from_rows(&none).is_ok());
    let empty_rows: Vec<Vec<KeycodeKey>> = vec![vec![], vec![]];
    assert!(Layer::<2, 0, KeycodeKey>::from_rows(&empty_rows).is_ok());
}

#[test]
fn mirroring_twice_gives_the_position_back() {
    let layer = Layer::<3, 5, KeycodeKey>::init_blank();
    for layer_index in 0..3 {
        for r in 0..3 {
            for c in 0..5 {
                let p = LayoutPosition { layer_index, row_index: r, col_index: c };
                let m = layer.symmetric_position(p);
                assert_eq!(m, LayoutPosition { layer_index, row_index: r, col_index: 4 - c });
                assert_eq!(layer.symmetric_position(m), p);
            }
        }
    }
    let middle = LayoutPosition { layer_index: 0, row_index: 1, col_index: 2 };
    assert_eq!(layer.symmetric_position(middle), middle);
}

#[test]
fn mirror_of_the_corner_of_two_by_three() {
    let tokens = "A_11 B_10 C_11\nE_10 D_00 A_11";
    let layer = Layer::<2, 3, KeycodeKey>::try_from(tokens).unwrap();
    assert_eq!(
        layer.symmetric_position(LayoutPosition { layer_index: 0, row_index: 0, col_index: 0 }),
        LayoutPosition { layer_index: 0, row_index: 0, col_index: 2 }
    );
    assert_eq!(
        layer.symmetric_position(LayoutPosition { layer_index: 0, row_index: 0, col_index: 1 }),
        LayoutPosition { layer_index: 0, row_index: 0, col_index: 1 }
    );
    assert_eq!(layer.get(1, 1).unwrap(), key(_D, false, false));
    assert_eq!(layer.get(1, 2).unwrap(), key(_A, true, true));
}

#[test]
fn randomize_reports_the_first_unpaired_cell() {
    let mut rng = StdRng::seed_from_u64(7);
    let mut layer = Layer::<2, 3, KeycodeKey>::init_blank();
    layer.get_mut(1, 2).unwrap().set_is_symmetric(true);
    layer.get_mut(0, 2).unwrap().set_is_symmetric(true);
    let before_last_row: Vec<KeycodeKey> = (0..3).map(|c| layer.get(1, c).unwrap()).collect();
    assert_eq!(
        layer.randomize(&mut rng, vec![_E]).unwrap_err(),
        KeyboardError::SymmetryError(0, 2, 0, 0)
    );
    // the two cells before the failing one were redrawn, nothing after it was
    assert_eq!(layer.get(0, 0).unwrap(), key(_E, true, false));
    assert_eq!(layer.get(0, 1).unwrap(), key(_E, true, false));
    assert_eq!(layer.get(0, 2).unwrap(), key(_NO, true, true));
    for c in 0..3 {
        assert_eq!(layer.get(1, c).unwrap(), before_last_row[c]);
    }
}

#[test]
fn randomize_keeps_fixed_and_symmetric_keys() {
    let mut rng = StdRng::seed_from_u64(3);
    let text = "A_11 B_10 C_11\nE_10 D_00 A_10";
    let mut layer = Layer::<2, 3, KeycodeKey>::try_from(text).unwrap();
    let candidates = vec![_SFT, _D];
    layer.randomize(&mut rng, candidates.clone()).unwrap();
    assert_eq!(layer.get(0, 0).unwrap(), key(_A, true, true));
    assert_eq!(layer.get(0, 2).unwrap(), key(_C, true, true));
    assert_eq!(layer.get(1, 1).unwrap(), key(_D, false, false));
    for (r, c) in [(0, 1), (1, 0), (1, 2)] {
        let k = layer.get(r, c).unwrap();
        assert!(candidates.contains(&k.value()));
        assert!(k.is_moveable());
        assert!(!k.is_symmetric());
    }
}

#[test]
fn randomize_without_candidates_changes_nothing() {
    let mut rng = StdRng::seed_from_u64(3);
    let text = "A_11 B_10 C_11\nE_10 D_00 A_10";
    let mut layer = Layer::<2, 3, KeycodeKey>::try_from(text).unwrap();
    let before = layer.clone();
    layer.randomize(&mut rng, vec![]).unwrap();
    assert_eq!(layer, before);
}

#[test]
fn randomize_draws_differ_from_the_blank() {
    let mut rng = StdRng::seed_from_u64(11);
    let mut layer = Layer::<3, 4, KeycodeKey>::init_blank();
    layer.randomize(&mut rng, vec![_A, _B]).unwrap();
    for r in 0..3 {
        for c in 0..4 {
            let v = layer.get(r, c).unwrap().value();
            assert!(v == _A || v == _B);
        }
    }
}

#[test]
fn check_cell_and_place_pick_decide_one_cell() {
    let text = "A_11 B_10 C_01\nE_10 D_00 A_10";
    let mut layer = Layer::<2, 3, KeycodeKey>::try_from(text).unwrap();
    assert_eq!(layer.check_cell(0, 0).unwrap(), false);
    assert_eq!(layer.check_cell(0, 1).unwrap(), true);
    assert_eq!(layer.check_cell(1, 1).unwrap(), false);
    layer.get_mut(0, 0).unwrap().set_is_symmetric(false);
    assert_eq!(layer.check_cell(0, 2).unwrap_err(), KeyboardError::SymmetryError(0, 2, 0, 0));
    layer.place_pick(1, 0, Some(_SFT));
    assert_eq!(layer.get(1, 0).unwrap(), key(_SFT, true, false));
    layer.place_pick(1, 1, None);
    assert_eq!(layer.get(1, 1).unwrap(), key(_D, false, false));
}

#[test]
fn wrong_row_count_is_a_row_mismatch() {
    let text = "A_11 B_10 C_11\n";
    assert_eq!(
        Layer::<2, 3, KeycodeKey>::try_from(text).unwrap_err(),
        KeyboardError::RowMismatchError(2, 1)
    );
    let three = "A_11 B_10 C_11\n\nA_11 B_10 C_11\n   \nA_11 B_10 C_11";
    assert_eq!(
        Layer::<2, 3, KeycodeKey>::try_from(three).unwrap_err(),
        KeyboardError::RowMismatchError(2, 3)
    );
    assert_eq!(
        Layer::<2, 3, KeycodeKey>::try_from("").unwrap_err(),
        KeyboardError::RowMismatchError(2, 0)
    );
}

#[test]
fn wrong_column_count_is_a_column_mismatch() {
    let text = "A_11 B_10 C_11\nA_11 B_10";
    assert_eq!(
        Layer::<2, 3, KeycodeKey>::try_from(text).unwrap_err(),
        KeyboardError::ColMismatchError(3, 2)
    );
    let long = "A_11 B_10 C_11 D_00\nA_11 B_10 C_11";
    assert_eq!(
        Layer::<2, 3, KeycodeKey>::try_from(long).unwrap_err(),
        KeyboardError::ColMismatchError(3, 4)
    );
}

#[test]
fn the_first_fault_in_reading_order_wins() {
    let text = "A_11 X_10 C_11\nA_11 B_10";
    assert_eq!(
        Layer::<2, 3, KeycodeKey>::try_from(text).unwrap_err(),
        KeyboardError::InvalidKeyFromString(String::from("X_10"))
    );
    let text = "A_11 B_10\nA_11 X_10 C_11";
    assert_eq!(
        Layer::<2, 3, KeycodeKey>::try_from(text).unwrap_err(),
        KeyboardError::ColMismatchError(3, 2)
    );
}

#[test]
fn malformed_tokens_are_named() {
    for bad in ["A", "A_1", "A_111", "A_1x", "A_21", "Q_11", "_", "__", "__1", "_11", "A__11", "a_11"] {
        let text = format!("{} B_10", bad);
        assert_eq!(
            Layer::<1, 2, KeycodeKey>::try_from(&text).unwrap_err(),
            KeyboardError::InvalidKeyFromString(String::from(bad)),
            "token {}",
            bad
        );
    }
}

#[test]
fn tokens_are_read_field_by_field() {
    let layer = Layer::<1, 5, KeycodeKey>::try_from("NO_10 _A_01 A_11_zz SFT_00 PLACEHOLDER_11").unwrap();
    assert_eq!(layer.get(0, 0).unwrap(), key(_NO, true, false));
    assert_eq!(layer.get(0, 1).unwrap(), key(_NO, false, true));
    assert_eq!(layer.get(0, 2).unwrap(), key(_A, true, true));
    assert_eq!(layer.get(0, 3).unwrap(), key(_SFT, false, false));
    assert_eq!(
        layer.get(0, 4).unwrap(),
        key(layout_optimizer::text_processor::keycode::Keycode::_PLACEHOLDER, true, true)
    );
}

#[test]
fn white_space_of_any_kind_separates_tokens() {
    let text = "\u{3000}A_11\tB_10\u{a0}C_11\r\n \t \r\n\u{2003}D_00\u{85}__01  E_10\u{2028}";
    let layer = Layer::<2, 3, KeycodeKey>::try_from(text).unwrap();
    assert_eq!(layer.get(0, 2).unwrap(), key(_C, true, true));
    assert_eq!(layer.get(1, 0).unwrap(), key(_D, false, false));
    assert_eq!(layer.get(1, 2).unwrap(), key(_E, true, false));
}

#[test]
fn tables_are_laid_out_exactly() {
    let mut layer = Layer::<2, 3, KeycodeKey>::init_blank();
    layer.set(0, 1, key(_SFT, false, true)).unwrap();
    layer.set(1, 2, key(_A, true, true)).unwrap();
    assert_eq!(
        layer.to_text(),
        "    0   1   2 \n    -   -   - \n0|_   SFT _   \n1|_   _   A   \n"
    );
    assert_eq!(
        layer.to_binary_text(),
        "    0      1      2    \n    -      -      -    \n0|__10   SFT_01 __10   \n1|__10   __10   A_11   \n"
    );
    assert_eq!(layer.to_tokens(), "__10 SFT_01 __10 \n__10 __10 A_11 \n");
}

#[test]
fn a_table_without_cells_has_its_two_head_lines() {
    let layer = Layer::<0, 2, KeycodeKey>::init_blank();
    assert_eq!(layer.to_text(), "    0   1 \n    -   - \n");
    assert_eq!(layer.to_tokens(), "");
    let layer = Layer::<2, 0, KeycodeKey>::init_blank();
    assert_eq!(layer.to_text(), "  \n  \n0|\n1|\n");
    assert_eq!(layer.to_tokens(), "\n\n");
}

#[test]
fn long_names_and_wide_tables_are_not_cut() {
    let mut layer = Layer::<1, 11, KeycodeKey>::init_blank();
    layer.set(0, 10, key(layout_optimizer::text_processor::keycode::Keycode::_PLACEHOLDER, true, false)).unwrap();
    let text = layer.to_text();
    let mut lines = text.lines();
    assert_eq!(lines.next().unwrap(), "    0   1   2   3   4   5   6   7   8   9  10 ");
    lines.next();
    assert!(lines.next().unwrap().ends_with("_   PLACEHOLDER "));
    assert!(layer.to_binary_text().ends_with("__10   PLACEHOLDER_10 \n"));
}

#[test]
fn writing_and_reading_gives_the_layer_back() {
    let mut rng = StdRng::seed_from_u64(5);
    let mut layer = Layer::<3, 4, KeycodeKey>::init_blank();
    layer.randomize(&mut rng, layout_optimizer::text_processor::keycode::Keycode::all()).unwrap();
    layer.get_mut(0, 0).unwrap().set_is_symmetric(true);
    layer.get_mut(0, 3).unwrap().set_is_symmetric(true);
    layer.get_mut(2, 1).unwrap().set_is_moveable(false);
    layer.set(1, 1, key(_NO, false, true)).unwrap();
    let text = layer.to_tokens();
    assert_eq!(Layer::<3, 4, KeycodeKey>::try_from(&text).unwrap(), layer);
    let no_rows: Vec<Vec<KeycodeKey>> = vec![];
    let none = Layer::<0, 4, KeycodeKey>::from_rows(&no_rows).unwrap();
    assert_eq!(none.to_tokens(), "");
    assert_eq!(Layer::<0, 4, KeycodeKey>::try_from(&none.to_tokens()).unwrap(), none);
}

#[test]
fn rows_without_keys_are_not_read_back() {
    let layer = Layer::<2, 0, KeycodeKey>::init_blank();
    assert_eq!(
        Layer::<2, 0, KeycodeKey>::try_from(&layer.to_tokens()).unwrap_err(),
        KeyboardError::RowMismatchError(2, 0)
    );
}

#[test]
fn every_key_code_is_read_back_from_its_token() {
    for value in layout_optimizer::text_processor::keycode::Keycode::all() {
        for (moveable, symmetric) in [(false, false), (false, true), (true, false), (true, true)] {
            let k = key(value, moveable, symmetric);
            let token: String = k.token().into_iter().collect();
            assert_eq!(KeycodeKey::from_token(&token.chars().collect()), Some(k), "{}", token);
        }
    }
}
