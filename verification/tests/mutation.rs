use layout_optimizer::keyboard::error::KeyboardError;
use layout_optimizer::keyboard::key::KeycodeKey;
use layout_optimizer::keyboard::layout::Layout;
use layout_optimizer::keyboard::LayoutPosition;
use layout_optimizer::text_processor::keycode::Keycode;
use rand::rngs::StdRng;
use rand::SeedableRng;

fn at(layer_index: usize, row_index: usize, col_index: usize) -> LayoutPosition {
    LayoutPosition { layer_index, row_index, col_index }
}

fn key(value: Keycode, moveable: bool, symmetric: bool) -> KeycodeKey {
    KeycodeKey { value, moveable, symmetric }
}

const TWO_LAYERS: &str = "___Layer 0___\nSFT_11 A_10 B_10 SFT_11\nC_00 D_10 E_11 __10\n___Layer 1___\n1_10 2_00 3_01 4_01\n5_11 6_10 7_10 8_01\n";

fn two_layers() -> Layout<2, 4> {
    Layout::<2, 4>::try_from(TWO_LAYERS).unwrap()
}

fn keys(layout: &Layout<2, 4>) -> Vec<KeycodeKey> {
    let mut all = vec![];
    for l in 0..2 {
        for r in 0..2 {
            for c in 0..4 {
                all.push(layout.get(&at(l, r, c)).unwrap());
            }
        }
    }
    all
}

#[test]
fn set_puts_a_key_at_a_position() {
    let mut layout = two_layers();
    layout.set(&at(1, 0, 2), key(Keycode::_UP, true, false)).unwrap();
    assert_eq!(layout.get(&at(1, 0, 2)).unwrap(), key(Keycode::_UP, true, false));
    assert_eq!(layout.get(&at(0, 0, 2)).unwrap(), key(Keycode::_B, true, false));
    assert_eq!(
        layout.set(&at(2, 0, 0), key(Keycode::_UP, true, false)).unwrap_err(),
        KeyboardError::LayerOutOfBounds(2, 2)
    );
    assert_eq!(
        layout.set(&at(1, 2, 0), key(Keycode::_UP, true, false)).unwrap_err(),
        KeyboardError::IndicesOutOfBounds(2, 0)
    );
}

#[test]
fn replaceable_keys_exchange_their_values() {
    let mut layout = two_layers();
    let before = keys(&layout);
    assert!(layout.swap_values(&at(0, 0, 1), &at(1, 1, 2)));
    assert_eq!(layout.get(&at(0, 0, 1)).unwrap(), key(Keycode::_7, true, false));
    assert_eq!(layout.get(&at(1, 1, 2)).unwrap(), key(Keycode::_A, true, false));
    let after = keys(&layout);
    for (i, (old, new)) in before.iter().zip(after.iter()).enumerate() {
        if i != 1 && i != 14 {
            assert_eq!(old, new);
        }
    }
    assert!(layout.swap_values(&at(0, 0, 2), &at(0, 0, 2)));
    assert_eq!(layout.get(&at(0, 0, 2)).unwrap(), key(Keycode::_B, true, false));
}

#[test]
fn other_keys_do_not_exchange_their_values() {
    let mut layout = two_layers();
    let before = keys(&layout);
    assert!(!layout.swap_values(&at(0, 0, 0), &at(0, 0, 1)));
    assert!(!layout.swap_values(&at(0, 0, 1), &at(0, 1, 0)));
    assert!(!layout.swap_values(&at(0, 0, 1), &at(1, 0, 2)));
    assert!(!layout.swap_values(&at(0, 0, 1), &at(2, 0, 1)));
    assert!(!layout.swap_values(&at(0, 2, 1), &at(0, 0, 1)));
    assert!(!layout.swap_values(&at(0, 0, 4), &at(0, 0, 1)));
    assert_eq!(keys(&layout), before);
}

#[test]
fn a_symmetric_pair_is_replaced_together() {
    let mut layout = two_layers();
    assert_eq!(layout.replace_value(&at(0, 0, 3), Keycode::_SPC), Ok(true));
    assert_eq!(layout.get(&at(0, 0, 0)).unwrap(), key(Keycode::_SPC, true, true));
    assert_eq!(layout.get(&at(0, 0, 3)).unwrap(), key(Keycode::_SPC, true, true));
    assert_eq!(layout.replace_value(&at(0, 0, 1), Keycode::_UP), Ok(true));
    assert_eq!(layout.get(&at(0, 0, 1)).unwrap(), key(Keycode::_UP, true, false));
    assert_eq!(layout.get(&at(0, 0, 2)).unwrap(), key(Keycode::_B, true, false));
}

#[test]
fn fixed_keys_and_broken_pairs_are_not_replaced() {
    let mut layout = two_layers();
    let before = keys(&layout);
    assert_eq!(layout.replace_value(&at(0, 1, 0), Keycode::_UP), Ok(false));
    assert_eq!(layout.replace_value(&at(1, 0, 1), Keycode::_UP), Ok(false));
    assert_eq!(layout.replace_value(&at(1, 0, 2), Keycode::_UP), Ok(false));
    assert_eq!(layout.replace_value(&at(5, 0, 0), Keycode::_UP), Ok(false));
    assert_eq!(layout.replace_value(&at(0, 0, 9), Keycode::_UP), Ok(false));
    // moveable, symmetric, and the mirror image is symmetric but fixed
    assert_eq!(layout.replace_value(&at(1, 1, 0), Keycode::_UP), Ok(false));
    // moveable, symmetric, and the mirror image is not symmetric
    assert_eq!(
        layout.replace_value(&at(0, 1, 2), Keycode::_UP),
        Err(KeyboardError::SymmetryError(1, 2, 1, 1))
    );
    assert_eq!(keys(&layout), before);
}

#[test]
fn eligible_keys_are_listed_in_reading_order() {
    let layout = two_layers();
    assert_eq!(
        layout.eligible_positions(true),
        vec![at(0, 0, 1), at(0, 0, 2), at(0, 1, 1), at(0, 1, 3), at(1, 0, 0), at(1, 1, 1), at(1, 1, 2)]
    );
    assert_eq!(
        layout.eligible_positions(false),
        vec![
            at(0, 0, 0),
            at(0, 0, 1),
            at(0, 0, 2),
            at(0, 0, 3),
            at(0, 1, 1),
            at(0, 1, 2),
            at(0, 1, 3),
            at(1, 0, 0),
            at(1, 1, 0),
            at(1, 1, 1),
            at(1, 1, 2)
        ]
    );
}

#[test]
fn a_random_swap_keeps_flags_and_values() {
    let mut rng = StdRng::seed_from_u64(9);
    for _ in 0..50 {
        let mut layout = two_layers();
        let before = keys(&layout);
        assert!(layout.mutate_swap(&mut rng));
        let after = keys(&layout);
        let mut old_values: Vec<String> = before.iter().map(|k| format!("{:?}", k.value)).collect();
        let mut new_values: Vec<String> = after.iter().map(|k| format!("{:?}", k.value)).collect();
        old_values.sort();
        new_values.sort();
        assert_eq!(old_values, new_values);
        // all replaceable keys of this layout differ in value, and two different ones are drawn
        let changed: Vec<usize> = (0..16).filter(|i| before[*i] != after[*i]).collect();
        assert_eq!(changed.len(), 2);
        assert_eq!(after[changed[0]].value, before[changed[1]].value);
        assert_eq!(after[changed[1]].value, before[changed[0]].value);
        for i in 0..16 {
            assert_eq!(before[i].moveable, after[i].moveable);
            assert_eq!(before[i].symmetric, after[i].symmetric);
            if !(before[i].moveable && !before[i].symmetric) {
                assert_eq!(before[i], after[i]);
            }
        }
    }
    let mut fixed = Layout::<1, 2>::try_from("___Layer 0___\nA_00 B_11").unwrap();
    assert!(!fixed.mutate_swap(&mut rng));
}

#[test]
fn a_random_replacement_draws_from_the_candidates() {
    let mut rng = StdRng::seed_from_u64(4);
    let candidates = vec![Keycode::_HOME, Keycode::_END];
    let mut reported = 0;
    let mut changed = 0;
    for _ in 0..200 {
        let mut layout = two_layers();
        let before = keys(&layout);
        match layout.mutate_replace(&mut rng, &candidates) {
            Ok(true) => {
                changed += 1;
                let after = keys(&layout);
                let differing: Vec<usize> = (0..16).filter(|i| before[*i] != after[*i]).collect();
                assert!(differing.len() == 1 || differing.len() == 2);
                for i in differing {
                    assert!(candidates.contains(&after[i].value));
                    assert!(before[i].moveable);
                    assert_eq!(before[i].moveable, after[i].moveable);
                    assert_eq!(before[i].symmetric, after[i].symmetric);
                }
                if after[0] != before[0] || after[3] != before[3] {
                    assert_eq!(after[0].value, after[3].value);
                }
            },
            Ok(false) => assert_eq!(keys(&layout), before),
            Err(e) => {
                reported += 1;
                assert_eq!(e, KeyboardError::SymmetryError(1, 2, 1, 1));
                assert_eq!(keys(&layout), before);
            },
        }
    }
    assert!(changed > 0);
    assert!(reported > 0);
    let mut layout = two_layers();
    assert_eq!(layout.mutate_replace(&mut rng, &vec![]), Ok(false));
}

#[test]
fn a_copy_is_a_layout_of_its_own() {
    let layout = two_layers();
    let mut copy = layout.clone();
    assert_eq!(copy, layout);
    copy.set(&at(0, 0, 1), key(Keycode::_UP, true, false)).unwrap();
    assert_eq!(layout.get(&at(0, 0, 1)).unwrap(), key(Keycode::_A, true, false));
    assert_ne!(copy, layout);
}

#[test]
fn a_replacement_is_made_whenever_every_moveable_key_can_take_one() {
    let mut rng = StdRng::seed_from_u64(8);
    let candidates = vec![Keycode::_HOME];
    for _ in 0..50 {
        let mut layout =
            Layout::<1, 4>::try_from("___Layer 0___\nA_11 B_10 C_00 D_11").unwrap();
        assert_eq!(layout.mutate_replace(&mut rng, &candidates), Ok(true));
        let values: Vec<Keycode> =
            (0..4).map(|c| layout.get(&at(0, 0, c)).unwrap().value).collect();
        assert_eq!(values.iter().filter(|v| **v == Keycode::_HOME).count() > 0, true);
        assert_eq!(values[2], Keycode::_C);
        assert_eq!(values[0] == Keycode::_HOME, values[3] == Keycode::_HOME);
    }
    let mut fixed = Layout::<1, 2>::try_from("___Layer 0___\nA_00 B_01").unwrap();
    assert_eq!(fixed.mutate_replace(&mut rng, &candidates), Ok(false));
    let mut held = Layout::<1, 2>::try_from("___Layer 0___\nA_11 B_01").unwrap();
    assert_eq!(held.mutate_replace(&mut rng, &candidates), Ok(false));
    assert_eq!(held.get(&at(0, 0, 0)).unwrap().value, Keycode::_A);
}

#[test]
fn a_random_swap_needs_two_replaceable_keys() {
    let mut rng = StdRng::seed_from_u64(10);
    let mut one = Layout::<1, 3>::try_from("___Layer 0___\nA_10 B_00 C_11").unwrap();
    let before = one.clone();
    assert!(!one.mutate_swap(&mut rng));
    assert_eq!(one, before);
    let mut two = Layout::<1, 3>::try_from("___Layer 0___\nA_10 B_00 C_10").unwrap();
    assert!(two.mutate_swap(&mut rng));
    assert_eq!(two.get(&at(0, 0, 0)).unwrap(), key(Keycode::_C, true, false));
    assert_eq!(two.get(&at(0, 0, 2)).unwrap(), key(Keycode::_A, true, false));
}
