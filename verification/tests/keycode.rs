use layout_optimizer::text_processor::keycode::Keycode::{_A, _B, _C, _D, _E, _PLACEHOLDER, _SFT};
use layout_optimizer::text_processor::keycode::{char_to_keycode, keycodes_for_case, string_to_keycode, Keycode};

#[test]
fn a_to_keycode() {
    let res: Vec<Keycode> = vec![_A];
    assert_eq!(char_to_keycode('a'), res);
}

#[test]
fn cap_e_to_keycode() {
    let res: Vec<Keycode> = vec![_SFT, _E];
    assert_eq!(char_to_keycode('E'), res);
}

#[test]
fn acb_to_keycodes() {
    let res: Vec<Keycode> = vec![_A, _SFT, _C, _B];
    assert_eq!(string_to_keycode("aCb"), res);
}

#[test]
fn characters_without_a_key_are_placeholders() {
    assert_eq!(char_to_keycode('z'), vec![_PLACEHOLDER]);
    assert_eq!(char_to_keycode('Z'), vec![_SFT, _PLACEHOLDER]);
    assert_eq!(char_to_keycode(' '), vec![_PLACEHOLDER]);
    assert_eq!(char_to_keycode('1'), vec![_PLACEHOLDER]);
    assert_eq!(char_to_keycode('\u{c9}'), vec![_SFT, _PLACEHOLDER]);
}

#[test]
fn every_letter_with_a_key() {
    assert_eq!(string_to_keycode("abcde"), vec![_A, _B, _C, _D, _E]);
    assert_eq!(
        string_to_keycode("ABCDE"),
        vec![_SFT, _A, _SFT, _B, _SFT, _C, _SFT, _D, _SFT, _E]
    );
    assert_eq!(string_to_keycode(""), Vec::<Keycode>::new());
}

#[test]
fn keycodes_follow_from_case_and_lowercase_form() {
    assert_eq!(keycodes_for_case(false, 'a'), vec![_A]);
    assert_eq!(keycodes_for_case(true, 'd'), vec![_SFT, _D]);
    assert_eq!(keycodes_for_case(true, 'x'), vec![_SFT, _PLACEHOLDER]);
    assert_eq!(keycodes_for_case(false, 'A'), vec![_PLACEHOLDER]);
}

#[test]
fn names_and_key_codes_go_both_ways() {
    let all = Keycode::all();
    assert_eq!(all.len(), 37);
    for k in all {
        let name: Vec<char> = k.name().chars().collect();
        assert_eq!(Keycode::from_name(&name), Some(k));
    }
    assert_eq!(Keycode::from_name(&"SFT".chars().collect()), Some(_SFT));
    assert_eq!(Keycode::from_name(&"9".chars().collect()), Some(Keycode::_9));
    assert_eq!(Keycode::from_name(&"sft".chars().collect()), None);
    assert_eq!(Keycode::from_name(&"".chars().collect()), None);
    assert_eq!(Keycode::from_name(&"_A".chars().collect()), None);
}
