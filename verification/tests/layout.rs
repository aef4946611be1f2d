use layout_optimizer::keyboard::error::KeyboardError;
use layout_optimizer::keyboard::key::KeycodeKey;
use layout_optimizer::text_processor::keycode::Keycode;
use layout_optimizer::keyboard::layer::Layer;
use layout_optimizer::keyboard::layout::Layout;
use layout_optimizer::keyboard::layout_presets::{FOUR_BY_TEN_LAYOUT, FOUR_BY_TWELVE_LAYOUT};
use layout_optimizer::keyboard::LayoutPosition;
use rand::rngs::StdRng;
use rand::SeedableRng;

fn at(layer_index: usize, row_index: usize, col_index: usize) -> LayoutPosition {
    LayoutPosition { layer_index, row_index, col_index }
}

#[test]
fn the_preset_of_four_by_ten_is_read() {
    let layout = Layout::<4, 10>::try_from(FOUR_BY_TEN_LAYOUT).unwrap();
    assert_eq!(layout.num_layers(), 4);
    assert_eq!(
        layout.get(&at(0, 2, 0)).unwrap(),
        KeycodeKey { value: Keycode::_SFT, moveable: true, symmetric: true }
    );
    assert_eq!(
        layout.get(&at(0, 3, 5)).unwrap(),
        KeycodeKey { value: Keycode::_BSPC, moveable: false, symmetric: false }
    );
    assert_eq!(
        layout.get(&at(1, 1, 8)).unwrap(),
        KeycodeKey { value: Keycode::_RCBR, moveable: false, symmetric: false }
    );
    assert_eq!(
        layout.get(&at(2, 1, 4)).unwrap(),
        KeycodeKey { value: Keycode::_ZERO, moveable: false, symmetric: false }
    );
    assert_eq!(
        layout.get(&at(3, 3, 9)).unwrap(),
        KeycodeKey { value: Keycode::_NO, moveable: false, symmetric: false }
    );
}

#[test]
fn positions_outside_the_layout_are_reported() {
    let layout = Layout::<4, 10>::try_from(FOUR_BY_TEN_LAYOUT).unwrap();
    assert_eq!(layout.get(&at(4, 0, 0)).unwrap_err(), KeyboardError::LayerOutOfBounds(4, 4));
    assert_eq!(layout.get(&at(9, 9, 99)).unwrap_err(), KeyboardError::LayerOutOfBounds(9, 4));
    assert_eq!(layout.get(&at(3, 4, 0)).unwrap_err(), KeyboardError::IndicesOutOfBounds(4, 0));
    assert_eq!(layout.get(&at(0, 0, 10)).unwrap_err(), KeyboardError::IndicesOutOfBounds(0, 10));
}

#[test]
fn the_table_form_of_four_by_twelve_is_not_the_layer_grammar() {
    assert_eq!(
        Layout::<4, 12>::try_from(FOUR_BY_TWELVE_LAYOUT).unwrap_err(),
        KeyboardError::RowMismatchError(4, 5)
    );
}

#[test]
fn text_before_the_first_heading_belongs_to_no_layer() {
    let text = "some title\n___Layer 0___\nA_10 B_10\n\n  ___Layer one\nC_10 D_10\n";
    let layout = Layout::<1, 2>::try_from(text).unwrap();
    assert_eq!(layout.num_layers(), 2);
    assert_eq!(layout.get(&at(0, 0, 1)).unwrap().value(), Keycode::_B);
    assert_eq!(layout.get(&at(1, 0, 0)).unwrap().value(), Keycode::_C);
    assert_eq!(Layout::<1, 2>::try_from("A_10 B_10").unwrap().num_layers(), 0);
}

#[test]
fn the_first_faulty_layer_is_reported() {
    let text = "___Layer 0___\nA_10 B_10\n___Layer 1___\nC_10\n___Layer 2___\nX_10 D_10\n";
    assert_eq!(
        Layout::<1, 2>::try_from(text).unwrap_err(),
        KeyboardError::ColMismatchError(2, 1)
    );
    let text = "___Layer 0___\n___Layer 1___\nC_10 D_10\n";
    assert_eq!(
        Layout::<1, 2>::try_from(text).unwrap_err(),
        KeyboardError::RowMismatchError(1, 0)
    );
}

#[test]
fn layouts_mirror_within_a_layer() {
    let layout = Layout::<4, 10>::try_from(FOUR_BY_TEN_LAYOUT).unwrap();
    assert_eq!(layout.symmetric_position(at(2, 1, 3)), at(2, 1, 6));
    assert_eq!(layout.symmetric_position(layout.symmetric_position(at(2, 1, 3))), at(2, 1, 3));
}

#[test]
fn a_layout_is_randomized_layer_by_layer() {
    let mut rng = StdRng::seed_from_u64(1);
    let mut layout = Layout::<4, 10>::try_from(FOUR_BY_TEN_LAYOUT).unwrap();
    let before = Layout::<4, 10>::try_from(FOUR_BY_TEN_LAYOUT).unwrap();
    let candidates = vec![Keycode::_A, Keycode::_B, Keycode::_C];
    layout.randomize(&mut rng, &candidates).unwrap();
    for l in 0..4 {
        for r in 0..4 {
            for c in 0..10 {
                let old = before.get(&at(l, r, c)).unwrap();
                let new = layout.get(&at(l, r, c)).unwrap();
                assert_eq!(new.is_moveable(), old.is_moveable());
                assert_eq!(new.is_symmetric(), old.is_symmetric());
                if old.is_moveable() && !old.is_symmetric() {
                    assert!(candidates.contains(&new.value()));
                } else {
                    assert_eq!(new, old);
                }
            }
        }
    }
}

#[test]
fn randomizing_stops_at_the_first_unpaired_layer() {
    let mut rng = StdRng::seed_from_u64(1);
    let first = Layer::<1, 2, KeycodeKey>::try_from("A_10 B_10").unwrap();
    let second = Layer::<1, 2, KeycodeKey>::try_from("A_10 B_11").unwrap();
    let third = Layer::<1, 2, KeycodeKey>::try_from("A_10 B_10").unwrap();
    let mut layout = Layout::<1, 2>::from_layers(vec![first, second, third]);
    assert_eq!(
        layout.randomize(&mut rng, &vec![Keycode::_E]).unwrap_err(),
        KeyboardError::SymmetryError(0, 1, 0, 0)
    );
    assert_eq!(layout.get(&at(0, 0, 0)).unwrap().value(), Keycode::_E);
    assert_eq!(layout.get(&at(0, 0, 1)).unwrap().value(), Keycode::_E);
    assert_eq!(layout.get(&at(1, 0, 0)).unwrap().value(), Keycode::_E);
    assert_eq!(layout.get(&at(1, 0, 1)).unwrap().value(), Keycode::_B);
    assert_eq!(layout.get(&at(2, 0, 0)).unwrap().value(), Keycode::_A);
    assert_eq!(layout.get(&at(2, 0, 1)).unwrap().value(), Keycode::_B);
}
