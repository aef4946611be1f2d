//! A single key cell: its key code and the two flags that constrain a search;
//! and the hand and finger that press a key.

use vstd::prelude::*;
use crate::text_processor::keycode::{keycode_named, Keycode};
use crate::text::{chars_of, lemma_split_nonempty, split, split_at_char, views};

verus! {

/// One cell of a key layer.
///
/// A search may replace the value of a moveable key only. A symmetric key is
/// paired with the key at the mirrored column of its row.
#[derive(Debug, Clone, Copy, PartialEq, Eq, Structural)]
pub struct KeycodeKey {
    pub value: Keycode,
    pub moveable: bool,
    pub symmetric: bool,
}

/// What a flag character says: `0` is no, `1` is yes, nothing else is a flag.
pub open spec fn flag_of(c: char) -> Option<bool> {
    if c == '0' {
        Some(false)
    } else if c == '1' {
        Some(true)
    } else {
        None
    }
}

/// The character that spells a flag.
pub open spec fn flag_char(flag: bool) -> char {
    if flag {
        '1'
    } else {
        '0'
    }
}

/// The two flags that a flag field spells, first moveable, then symmetric.
pub open spec fn flags_of(field: Seq<char>) -> Option<(bool, bool)> {
    if field.len() == 2 && flag_of(field[0]) is Some && flag_of(field[1]) is Some {
        Some((flag_of(field[0]).unwrap(), flag_of(field[1]).unwrap()))
    } else {
        None
    }
}

/// The key that a token spells.
///
/// A token is made of fields separated by underscores. Usually the first
/// field names the key code and the second holds the two flags. A token that
/// starts with an underscore stands for the no-op key: its second field is
/// not looked at, and its third holds the flags. Fields after the flags are
/// not looked at either.
pub open spec fn token_key(token: Seq<char>) -> Option<KeycodeKey> {
    let fields = split(token, '_');
    let blank_key = token.len() > 0 && token[0] == '_';
    let value = if blank_key {
        Some(Keycode::_NO)
    } else {
        keycode_named(fields[0])
    };
    let at = if blank_key {
        2int
    } else {
        1int
    };
    if value is Some && at < fields.len() && flags_of(fields[at]) is Some {
        Some(
            KeycodeKey {
                value: value.unwrap(),
                moveable: flags_of(fields[at]).unwrap().0,
                symmetric: flags_of(fields[at]).unwrap().1,
            },
        )
    } else {
        None
    }
}

/// What a flag character says.
pub fn parse_flag(c: char) -> (flag: Option<bool>)
    ensures
        flag == flag_of(c),
{
    if c == '0' {
        Some(false)
    } else if c == '1' {
        Some(true)
    } else {
        None
    }
}

impl KeycodeKey {
    /// The key that `token` spells, if it spells one.
    pub fn from_token(token: &Vec<char>) -> (key: Option<KeycodeKey>)
        ensures
            key == token_key(token@),
    {
        let fields = split_at_char(token, '_');
        proof {
            lemma_split_nonempty(token@, '_');
        }
        let blank_key = token.len() > 0 && token[0] == '_';
        let value = if blank_key {
            Keycode::_NO
        } else {
            assert(views(fields@)[0] == fields@[0]@);
            match Keycode::from_name(&fields[0]) {
                Some(value) => value,
                None => {
                    return None;
                },
            }
        };
        let at: usize = if blank_key {
            2
        } else {
            1
        };
        if at >= fields.len() {
            return None;
        }
        let field = &fields[at];
        assert(views(fields@)[at as int] == field@);
        if field.len() != 2 {
            return None;
        }
        match (parse_flag(field[0]), parse_flag(field[1])) {
            (Some(moveable), Some(symmetric)) => Some(KeycodeKey { value, moveable, symmetric }),
            _ => None,
        }
    }

    /// How a token names the key's value: a lone underscore for the no-op
    /// key, else the name of the key code.
    pub open spec fn spec_value_name(self) -> Seq<char> {
        if self.value == Keycode::_NO {
            seq!['_']
        } else {
            self.value.spec_name()
        }
    }

    /// The token that spells the key: the name of its value, an underscore,
    /// and the two flags, first moveable, then symmetric.
    pub open spec fn token_text(self) -> Seq<char> {
        self.spec_value_name() + seq!['_', flag_char(self.moveable), flag_char(self.symmetric)]
    }

    /// How a token names the key's value.
    pub fn value_name(&self) -> (name: Vec<char>)
        ensures
            name@ == self.spec_value_name(),
    {
        if self.value == Keycode::_NO {
            let mut name: Vec<char> = Vec::new();
            name.push('_');
            assert(name@ =~= seq!['_']);
            name
        } else {
            chars_of(self.value.name())
        }
    }

    /// The token that spells the key.
    pub fn token(&self) -> (token: Vec<char>)
        ensures
            token@ == self.token_text(),
    {
        let mut token = self.value_name();
        token.push('_');
        token.push(if self.moveable { '1' } else { '0' });
        token.push(if self.symmetric { '1' } else { '0' });
        assert(token@ =~= self.token_text());
        token
    }

    /// A moveable, unpaired key that sends `value`.
    pub open spec fn free(value: Keycode) -> KeycodeKey {
        KeycodeKey { value, moveable: true, symmetric: false }
    }

    /// A moveable, unpaired key that sends `value`.
    pub fn from_keycode(value: Keycode) -> (key: KeycodeKey)
        ensures
            key == KeycodeKey::free(value),
    {
        KeycodeKey { value, moveable: true, symmetric: false }
    }

    /// The key code that the key sends.
    pub fn value(&self) -> (value: Keycode)
        ensures
            value == self.value,
    {
        self.value
    }

    /// Whether a search may give the key another value.
    pub fn is_moveable(&self) -> (moveable: bool)
        ensures
            moveable == self.moveable,
    {
        self.moveable
    }

    /// Whether the key is one of a pair, with its mirror image.
    pub fn is_symmetric(&self) -> (symmetric: bool)
        ensures
            symmetric == self.symmetric,
    {
        self.symmetric
    }

    /// Gives the key another value; its flags stay.
    pub fn set_value(&mut self, value: Keycode)
        ensures
            *final(self) == (KeycodeKey { value, ..*old(self) }),
    {
        self.value = value;
    }

    /// Sets or clears the flag that lets a search change the key.
    pub fn set_is_moveable(&mut self, moveable: bool)
        ensures
            *final(self) == (KeycodeKey { moveable, ..*old(self) }),
    {
        self.moveable = moveable;
    }

    /// Sets or clears the flag that pairs the key with its mirror image.
    pub fn set_is_symmetric(&mut self, symmetric: bool)
        ensures
            *final(self) == (KeycodeKey { symmetric, ..*old(self) }),
    {
        self.symmetric = symmetric;
    }
}

/// The hand that presses a key.
#[derive(Debug, Clone, Copy, PartialEq, Eq, Structural)]
pub enum Hand {
    Left,
    Right,
}

/// The finger, or part of the hand, that presses a key.
#[derive(Debug, Clone, Copy, PartialEq, Eq, Structural)]
pub enum Finger {
    Thumb,
    Index,
    Middle,
    Ring,
    Pinkie,
    /// Where the pinkie meets the palm.
    Joint,
}

/// The hand and finger that press a key.
#[derive(Debug, Clone, Copy, PartialEq, Eq, Structural)]
pub struct PhalanxKey {
    pub hand: Hand,
    pub finger: Finger,
}

/// The hand that a letter stands for.
pub open spec fn hand_of(c: char) -> Option<Hand> {
    if c == 'L' {
        Some(Hand::Left)
    } else if c == 'R' {
        Some(Hand::Right)
    } else {
        None
    }
}

/// The finger that a letter stands for.
pub open spec fn finger_of(c: char) -> Option<Finger> {
    if c == 'T' {
        Some(Finger::Thumb)
    } else if c == 'I' {
        Some(Finger::Index)
    } else if c == 'M' {
        Some(Finger::Middle)
    } else if c == 'R' {
        Some(Finger::Ring)
    } else if c == 'P' {
        Some(Finger::Pinkie)
    } else if c == 'J' {
        Some(Finger::Joint)
    } else {
        None
    }
}

/// The hand and finger that a token spells: the letter of the hand, a colon,
/// the letter of the finger.
pub open spec fn token_phalanx(token: Seq<char>) -> Option<PhalanxKey> {
    if token.len() == 3 && token[1] == ':' && hand_of(token[0]) is Some && finger_of(token[2]) is Some {
        Some(PhalanxKey { hand: hand_of(token[0]).unwrap(), finger: finger_of(token[2]).unwrap() })
    } else {
        None
    }
}

impl PhalanxKey {
    /// The hand and finger that `token` spells, if it spells any.
    pub fn from_token(token: &Vec<char>) -> (key: Option<PhalanxKey>)
        ensures
            key == token_phalanx(token@),
    {
        if token.len() != 3 || token[1] != ':' {
            return None;
        }
        let hand = if token[0] == 'L' {
            Hand::Left
        } else if token[0] == 'R' {
            Hand::Right
        } else {
            return None;
        };
        let c = token[2];
        let finger = if c == 'T' {
            Finger::Thumb
        } else if c == 'I' {
            Finger::Index
        } else if c == 'M' {
            Finger::Middle
        } else if c == 'R' {
            Finger::Ring
        } else if c == 'P' {
            Finger::Pinkie
        } else if c == 'J' {
            Finger::Joint
        } else {
            return None;
        };
        Some(PhalanxKey { hand, finger })
    }
}

} // verus!
