//! What can go wrong when a layer is built, read or rearranged.

use vstd::prelude::*;
use crate::text::{decimal, decimal_of, push_chars, push_str, string_of};

verus! {

/// A failure reported by a layer or a layout.
#[derive(Debug, PartialEq)]
pub enum KeyboardError {
    /// The cell at the first row and column is flagged symmetric, the cell
    /// at the second row and column, its mirror image, is not.
    SymmetryError(usize, usize, usize, usize),
    /// So many rows were expected, so many found.
    RowMismatchError(usize, usize),
    /// So many columns were expected, so many found.
    ColMismatchError(usize, usize),
    /// The text is not a key token.
    InvalidKeyFromString(String),
    /// There is no cell at this row and column.
    IndicesOutOfBounds(usize, usize),
    /// There is no layer of this index among so many.
    LayerOutOfBounds(usize, usize),
}

/// A failure as a mathematical value: the same cases, with text as a
/// sequence of characters.
pub enum Failure {
    Symmetry(usize, usize, usize, usize),
    RowMismatch(usize, usize),
    ColMismatch(usize, usize),
    InvalidKey(Seq<char>),
    IndicesOutOfBounds(usize, usize),
    LayerOutOfBounds(usize, usize),
}

impl View for KeyboardError {
    type V = Failure;

    open spec fn view(&self) -> Failure {
        match self {
            KeyboardError::SymmetryError(r1, c1, r2, c2) => Failure::Symmetry(*r1, *c1, *r2, *c2),
            KeyboardError::RowMismatchError(expected, found) => Failure::RowMismatch(
                *expected,
                *found,
            ),
            KeyboardError::ColMismatchError(expected, found) => Failure::ColMismatch(
                *expected,
                *found,
            ),
            KeyboardError::InvalidKeyFromString(token) => Failure::InvalidKey(token@),
            KeyboardError::IndicesOutOfBounds(r, c) => Failure::IndicesOutOfBounds(*r, *c),
            KeyboardError::LayerOutOfBounds(index, count) => Failure::LayerOutOfBounds(
                *index,
                *count,
            ),
        }
    }
}

impl Failure {
    /// The failure in words.
    pub open spec fn message_text(self) -> Seq<char> {
        match self {
            Failure::Symmetry(r1, c1, r2, c2) => "Position ("@ + decimal(r1 as nat) + ", "@
                + decimal(c1 as nat)
                + ") is marked as symmetric but its corresponding symmetric position ("@ + decimal(
                r2 as nat,
            ) + ", "@ + decimal(c2 as nat) + ") is not."@,
            Failure::RowMismatch(expected, found) => "Expected "@ + decimal(expected as nat)
                + " rows but found "@ + decimal(found as nat) + " rows."@,
            Failure::ColMismatch(expected, found) => "Expected "@ + decimal(expected as nat)
                + " columns but found "@ + decimal(found as nat) + " columns."@,
            Failure::InvalidKey(token) => token + " cannot be parsed into a KeycodeKey."@,
            Failure::IndicesOutOfBounds(r, c) => "Indices ("@ + decimal(r as nat) + ", "@
                + decimal(c as nat) + ") are out of bounds."@,
            Failure::LayerOutOfBounds(index, count) => "Layer "@ + decimal(index as nat)
                + " is out of bounds: there are "@ + decimal(count as nat) + " layers."@,
        }
    }
}

impl KeyboardError {
    /// The failure in words, for a person to read.
    pub fn message(&self) -> (text: String)
        ensures
            text@ == self@.message_text(),
    {
        let mut out: Vec<char> = Vec::new();
        match self {
            KeyboardError::SymmetryError(r1, c1, r2, c2) => {
                push_str(&mut out, "Position (");
                push_chars(&mut out, &decimal_of(*r1));
                push_str(&mut out, ", ");
                push_chars(&mut out, &decimal_of(*c1));
                push_str(
                    &mut out,
                    ") is marked as symmetric but its corresponding symmetric position (",
                );
                push_chars(&mut out, &decimal_of(*r2));
                push_str(&mut out, ", ");
                push_chars(&mut out, &decimal_of(*c2));
                push_str(&mut out, ") is not.");
            },
            KeyboardError::RowMismatchError(expected, found) => {
                push_str(&mut out, "Expected ");
                push_chars(&mut out, &decimal_of(*expected));
                push_str(&mut out, " rows but found ");
                push_chars(&mut out, &decimal_of(*found));
                push_str(&mut out, " rows.");
            },
            KeyboardError::ColMismatchError(expected, found) => {
                push_str(&mut out, "Expected ");
                push_chars(&mut out, &decimal_of(*expected));
                push_str(&mut out, " columns but found ");
                push_chars(&mut out, &decimal_of(*found));
                push_str(&mut out, " columns.");
            },
            KeyboardError::InvalidKeyFromString(token) => {
                push_str(&mut out, token.as_str());
                push_str(&mut out, " cannot be parsed into a KeycodeKey.");
            },
            KeyboardError::IndicesOutOfBounds(r, c) => {
                push_str(&mut out, "Indices (");
                push_chars(&mut out, &decimal_of(*r));
                push_str(&mut out, ", ");
                push_chars(&mut out, &decimal_of(*c));
                push_str(&mut out, ") are out of bounds.");
            },
            KeyboardError::LayerOutOfBounds(index, count) => {
                push_str(&mut out, "Layer ");
                push_chars(&mut out, &decimal_of(*index));
                push_str(&mut out, " is out of bounds: there are ");
                push_chars(&mut out, &decimal_of(*count));
                push_str(&mut out, " layers.");
            },
        }
        assert(out@ =~= self@.message_text());
        string_of(&out)
    }
}

} // verus!
