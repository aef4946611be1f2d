//! Key codes: the symbols a key can send, and the key presses that type a
//! character.

use vstd::prelude::*;
use crate::text::spells;

verus! {

/// A symbol that a key can be assigned.
#[allow(non_camel_case_types)]
#[derive(Debug, Clone, Copy, PartialEq, Eq, Hash, Structural)]
pub enum Keycode {
    /// The no-op key: a cell that sends nothing.
    _NO,
    _A,
    _B,
    _C,
    _D,
    _E,
    _1,
    _2,
    _3,
    _4,
    _5,
    _6,
    _7,
    _8,
    _9,
    _ZERO,
    /// The shift modifier.
    _SFT,
    /// Switches to layer 1 while held.
    _LS1,
    /// Switches to layer 2 while held.
    _LS2,
    /// Switches to layer 3 while held.
    _LS3,
    _SPC,
    _BSPC,
    _LCBR,
    _LBRC,
    _LPRN,
    _RPRN,
    _RBRC,
    _RCBR,
    _LEFT,
    _DOWN,
    _UP,
    _RGHT,
    _HOME,
    _PGDN,
    _PGUP,
    _END,
    /// Stands for every character that has no key code of its own.
    _PLACEHOLDER,
}

impl Keycode {
    /// The name by which a key token refers to the key code.
    pub open spec fn spec_name(self) -> Seq<char> {
        match self {
            Keycode::_NO => "NO"@,
            Keycode::_A => "A"@,
            Keycode::_B => "B"@,
            Keycode::_C => "C"@,
            Keycode::_D => "D"@,
            Keycode::_E => "E"@,
            Keycode::_1 => "1"@,
            Keycode::_2 => "2"@,
            Keycode::_3 => "3"@,
            Keycode::_4 => "4"@,
            Keycode::_5 => "5"@,
            Keycode::_6 => "6"@,
            Keycode::_7 => "7"@,
            Keycode::_8 => "8"@,
            Keycode::_9 => "9"@,
            Keycode::_ZERO => "ZERO"@,
            Keycode::_SFT => "SFT"@,
            Keycode::_LS1 => "LS1"@,
            Keycode::_LS2 => "LS2"@,
            Keycode::_LS3 => "LS3"@,
            Keycode::_SPC => "SPC"@,
            Keycode::_BSPC => "BSPC"@,
            Keycode::_LCBR => "LCBR"@,
            Keycode::_LBRC => "LBRC"@,
            Keycode::_LPRN => "LPRN"@,
            Keycode::_RPRN => "RPRN"@,
            Keycode::_RBRC => "RBRC"@,
            Keycode::_RCBR => "RCBR"@,
            Keycode::_LEFT => "LEFT"@,
            Keycode::_DOWN => "DOWN"@,
            Keycode::_UP => "UP"@,
            Keycode::_RGHT => "RGHT"@,
            Keycode::_HOME => "HOME"@,
            Keycode::_PGDN => "PGDN"@,
            Keycode::_PGUP => "PGUP"@,
            Keycode::_END => "END"@,
            Keycode::_PLACEHOLDER => "PLACEHOLDER"@,
        }
    }

    /// The name by which a key token refers to the key code.
    pub fn name(&self) -> (name: &'static str)
        ensures
            name@ == self.spec_name(),
    {
        match self {
            Keycode::_NO => "NO",
            Keycode::_A => "A",
            Keycode::_B => "B",
            Keycode::_C => "C",
            Keycode::_D => "D",
            Keycode::_E => "E",
            Keycode::_1 => "1",
            Keycode::_2 => "2",
            Keycode::_3 => "3",
            Keycode::_4 => "4",
            Keycode::_5 => "5",
            Keycode::_6 => "6",
            Keycode::_7 => "7",
            Keycode::_8 => "8",
            Keycode::_9 => "9",
            Keycode::_ZERO => "ZERO",
            Keycode::_SFT => "SFT",
            Keycode::_LS1 => "LS1",
            Keycode::_LS2 => "LS2",
            Keycode::_LS3 => "LS3",
            Keycode::_SPC => "SPC",
            Keycode::_BSPC => "BSPC",
            Keycode::_LCBR => "LCBR",
            Keycode::_LBRC => "LBRC",
            Keycode::_LPRN => "LPRN",
            Keycode::_RPRN => "RPRN",
            Keycode::_RBRC => "RBRC",
            Keycode::_RCBR => "RCBR",
            Keycode::_LEFT => "LEFT",
            Keycode::_DOWN => "DOWN",
            Keycode::_UP => "UP",
            Keycode::_RGHT => "RGHT",
            Keycode::_HOME => "HOME",
            Keycode::_PGDN => "PGDN",
            Keycode::_PGUP => "PGUP",
            Keycode::_END => "END",
            Keycode::_PLACEHOLDER => "PLACEHOLDER",
        }
    }

    /// Every key code, in declaration order.
    pub fn all() -> (all: Vec<Keycode>)
        ensures
            all@ == all_keycodes(),
    {
        let mut all: Vec<Keycode> = Vec::new();
        all.push(Keycode::_NO);
        all.push(Keycode::_A);
        all.push(Keycode::_B);
        all.push(Keycode::_C);
        all.push(Keycode::_D);
        all.push(Keycode::_E);
        all.push(Keycode::_1);
        all.push(Keycode::_2);
        all.push(Keycode::_3);
        all.push(Keycode::_4);
        all.push(Keycode::_5);
        all.push(Keycode::_6);
        all.push(Keycode::_7);
        all.push(Keycode::_8);
        all.push(Keycode::_9);
        all.push(Keycode::_ZERO);
        all.push(Keycode::_SFT);
        all.push(Keycode::_LS1);
        all.push(Keycode::_LS2);
        all.push(Keycode::_LS3);
        all.push(Keycode::_SPC);
        all.push(Keycode::_BSPC);
        all.push(Keycode::_LCBR);
        all.push(Keycode::_LBRC);
        all.push(Keycode::_LPRN);
        all.push(Keycode::_RPRN);
        all.push(Keycode::_RBRC);
        all.push(Keycode::_RCBR);
        all.push(Keycode::_LEFT);
        all.push(Keycode::_DOWN);
        all.push(Keycode::_UP);
        all.push(Keycode::_RGHT);
        all.push(Keycode::_HOME);
        all.push(Keycode::_PGDN);
        all.push(Keycode::_PGUP);
        all.push(Keycode::_END);
        all.push(Keycode::_PLACEHOLDER);
        assert(all@ =~= all_keycodes());
        all
    }

    /// The key code that goes by `name`, if there is one.
    pub fn from_name(name: &Vec<char>) -> (keycode: Option<Keycode>)
        ensures
            keycode == keycode_named(name@),
    {
        let all = Keycode::all();
        let mut i: usize = 0;
        assert(all@.skip(0) =~= all@);
        while i < all.len()
            invariant
                i <= all.len(),
                all@ == all_keycodes(),
                named_among(all@.skip(i as int), name@) == keycode_named(name@),
            decreases all.len() - i,
        {
            assert(all@.skip(i as int).skip(1) =~= all@.skip(i + 1));
            if spells(name, all[i].name()) {
                return Some(all[i]);
            }
            i += 1;
        }
        None
    }
}

/// Every key code, in declaration order.
pub open spec fn all_keycodes() -> Seq<Keycode> {
    seq![
        Keycode::_NO,
        Keycode::_A,
        Keycode::_B,
        Keycode::_C,
        Keycode::_D,
        Keycode::_E,
        Keycode::_1,
        Keycode::_2,
        Keycode::_3,
        Keycode::_4,
        Keycode::_5,
        Keycode::_6,
        Keycode::_7,
        Keycode::_8,
        Keycode::_9,
        Keycode::_ZERO,
        Keycode::_SFT,
        Keycode::_LS1,
        Keycode::_LS2,
        Keycode::_LS3,
        Keycode::_SPC,
        Keycode::_BSPC,
        Keycode::_LCBR,
        Keycode::_LBRC,
        Keycode::_LPRN,
        Keycode::_RPRN,
        Keycode::_RBRC,
        Keycode::_RCBR,
        Keycode::_LEFT,
        Keycode::_DOWN,
        Keycode::_UP,
        Keycode::_RGHT,
        Keycode::_HOME,
        Keycode::_PGDN,
        Keycode::_PGUP,
        Keycode::_END,
        Keycode::_PLACEHOLDER,
    ]
}

/// The first of `keycodes` that goes by `name`.
pub open spec fn named_among(keycodes: Seq<Keycode>, name: Seq<char>) -> Option<Keycode>
    decreases keycodes.len(),
{
    if keycodes.len() == 0 {
        None
    } else if keycodes[0].spec_name() == name {
        Some(keycodes[0])
    } else {
        named_among(keycodes.skip(1), name)
    }
}

/// The key code that goes by `name`.
pub open spec fn keycode_named(name: Seq<char>) -> Option<Keycode> {
    named_among(all_keycodes(), name)
}

/// Whether `c` has the Unicode `Uppercase` property.
pub uninterp spec fn char_is_uppercase(c: char) -> bool;

/// The Unicode lowercase mapping of `c`: one character or more.
pub uninterp spec fn char_lowercase(c: char) -> Seq<char>;

/// `char::is_uppercase`: the answer is the character's Unicode `Uppercase`
/// property, which this library names and does not spell out.
#[verifier::external_body]
fn is_uppercase(c: char) -> (b: bool)
    ensures
        b == char_is_uppercase(c),
{
    c.is_uppercase()
}

/// `char::to_lowercase`, collected: the characters of the lowercase mapping.
/// The standard library documents that there is at least one.
#[verifier::external_body]
fn to_lowercase(c: char) -> (l: Vec<char>)
    ensures
        l@ == char_lowercase(c),
        l@.len() >= 1,
{
    c.to_lowercase().collect()
}

/// The key code of a lowercase letter; every other character is a placeholder.
pub open spec fn letter_keycode(l: char) -> Keycode {
    if l == 'a' {
        Keycode::_A
    } else if l == 'b' {
        Keycode::_B
    } else if l == 'c' {
        Keycode::_C
    } else if l == 'd' {
        Keycode::_D
    } else if l == 'e' {
        Keycode::_E
    } else {
        Keycode::_PLACEHOLDER
    }
}

/// The key presses for a character, given whether it is uppercase and what
/// its lowercase form starts with: shift first if uppercase, then the letter.
pub open spec fn case_keycodes(upper: bool, lower: char) -> Seq<Keycode> {
    if upper {
        seq![Keycode::_SFT, letter_keycode(lower)]
    } else {
        seq![letter_keycode(lower)]
    }
}

/// The key presses that type `c`.
pub open spec fn char_keycodes(c: char) -> Seq<Keycode> {
    case_keycodes(char_is_uppercase(c), char_lowercase(c)[0])
}

/// The key presses that type every character of `s` in turn.
pub open spec fn string_keycodes(s: Seq<char>) -> Seq<Keycode>
    decreases s.len(),
{
    if s.len() == 0 {
        Seq::empty()
    } else {
        string_keycodes(s.drop_last()) + char_keycodes(s.last())
    }
}

/// The key presses for a character whose case and lowercase head are known.
pub fn keycodes_for_case(upper: bool, lower: char) -> (keycodes: Vec<Keycode>)
    ensures
        keycodes@ == case_keycodes(upper, lower),
{
    let mut keycodes: Vec<Keycode> = Vec::new();
    if upper {
        keycodes.push(Keycode::_SFT);
    }
    let letter = if lower == 'a' {
        Keycode::_A
    } else if lower == 'b' {
        Keycode::_B
    } else if lower == 'c' {
        Keycode::_C
    } else if lower == 'd' {
        Keycode::_D
    } else if lower == 'e' {
        Keycode::_E
    } else {
        Keycode::_PLACEHOLDER
    };
    keycodes.push(letter);
    assert(keycodes@ =~= case_keycodes(upper, lower));
    keycodes
}

/// The key presses that type `c`: shift for an uppercase character, then the
/// key of its lowercase form.
pub fn char_to_keycode(c: char) -> (keycodes: Vec<Keycode>)
    ensures
        keycodes@ == char_keycodes(c),
{
    let upper = is_uppercase(c);
    let lower = to_lowercase(c);
    keycodes_for_case(upper, lower[0])
}

/// The key presses that type `s`, character by character.
pub fn string_to_keycode(s: &str) -> (keycodes: Vec<Keycode>)
    ensures
        keycodes@ == string_keycodes(s@),
{
    let mut keycodes: Vec<Keycode> = Vec::new();
    for c in it: s.chars()
        invariant
            it.seq() == s@,
            keycodes@ == string_keycodes(it.seq().take(it.index())),
    {
        let mut presses = char_to_keycode(c);
        proof {
            let done = it.seq().take(it.index() + 1);
            assert(done.drop_last() =~= it.seq().take(it.index()));
            assert(done.last() == c);
        }
        keycodes.append(&mut presses);
    }
    assert(s@.take(s@.len() as int) =~= s@);
    keycodes
}

} // verus!
