//! What the effort of typing depends on besides the keys themselves: which
//! hand and finger presses each key, and the runs of key presses that are
//! easier or harder than their keys alone would say.

use vstd::prelude::*;
use crate::keyboard::error::{Failure, KeyboardError};
use crate::keyboard::grid::row_views;
use crate::keyboard::key::{token_phalanx, Finger, Hand, PhalanxKey};
use crate::keyboard::layer::{has_shape, Layer};
use crate::keyboard::layer_text::{row_lines, row_lines_of};
use crate::keyboard::LayoutPosition;
use crate::text::{chars_of, split, split_at_char, string_of, views, words, words_of};

verus! {

/// One key press, as far as its effort depends on its neighbours: the hand
/// and finger that make it, and the row of the key.
#[derive(Debug, Clone, Copy, PartialEq, Eq, Structural)]
pub struct Stroke {
    pub hand: Hand,
    pub finger: Finger,
    pub row: usize,
}

/// The hands and fingers that the tokens spell, or the first token that
/// spells none.
pub open spec fn parse_phalanx_tokens(tokens: Seq<Seq<char>>) -> Result<Seq<PhalanxKey>, Failure>
    decreases tokens.len(),
{
    if tokens.len() == 0 {
        Ok(Seq::empty())
    } else {
        match parse_phalanx_tokens(tokens.drop_last()) {
            Err(failure) => Err(failure),
            Ok(keys) => match token_phalanx(tokens.last()) {
                None => Err(Failure::InvalidKey(tokens.last())),
                Some(key) => Ok(keys.push(key)),
            },
        }
    }
}

/// The rows that the lines spell, each of `num_columns` tokens, or what is
/// wrong with the first line that spells none.
pub open spec fn parse_phalanx_rows(lines: Seq<Seq<char>>, num_columns: usize) -> Result<
    Seq<Seq<PhalanxKey>>,
    Failure,
>
    decreases lines.len(),
{
    if lines.len() == 0 {
        Ok(Seq::empty())
    } else {
        match parse_phalanx_rows(lines.drop_last(), num_columns) {
            Err(failure) => Err(failure),
            Ok(rows) => if words(lines.last()).len() != num_columns {
                Err(Failure::ColMismatch(num_columns, words(lines.last()).len() as usize))
            } else {
                match parse_phalanx_tokens(words(lines.last())) {
                    Err(failure) => Err(failure),
                    Ok(row) => Ok(rows.push(row)),
                }
            },
        }
    }
}

/// The grid of hands and fingers that a text spells: `num_rows` lines that
/// are not blank, each of `num_columns` tokens between white space. Faults
/// are found in the order in which a layer of keys finds them.
pub open spec fn parse_phalanx_layer(text: Seq<char>, num_rows: usize, num_columns: usize) -> Result<
    Seq<Seq<PhalanxKey>>,
    Failure,
> {
    let lines = row_lines(split(text, '\n'));
    if lines.len() != num_rows {
        Err(Failure::RowMismatch(num_rows, lines.len() as usize))
    } else {
        parse_phalanx_rows(lines, num_columns)
    }
}

/// Which hand and finger presses each key of a keyboard of `R` rows and `C`
/// columns: a layer of hands and fingers.
pub type PhalanxLayer<const R: usize, const C: usize> = Layer<R, C, PhalanxKey>;

impl<const R: usize, const C: usize> Layer<R, C, PhalanxKey> {
    /// Reads the layer from its text.
    pub fn try_from(text: &str) -> (res: Result<Self, KeyboardError>)
        ensures
            match parse_phalanx_layer(text@, R, C) {
                Ok(rows) => res is Ok && res.unwrap().wf() && res.unwrap()@ == rows,
                Err(failure) => res is Err && res.unwrap_err()@ == failure,
            },
    {
        let chars = chars_of(text);
        let lines = row_lines_of(&split_at_char(&chars, '\n'));
        if lines.len() != R {
            return Err(KeyboardError::RowMismatchError(R, lines.len()));
        }
        let mut rows: Vec<Vec<PhalanxKey>> = Vec::new();
        let mut i: usize = 0;
        assert(views(lines@).take(0) =~= Seq::<Seq<char>>::empty());
        assert(row_views(rows@) =~= Seq::<Seq<PhalanxKey>>::empty());
        while i < lines.len()
            invariant
                i <= lines.len(),
                lines@.len() == R,
                views(lines@) == row_lines(split(text@, '\n')),
                rows@.len() == i,
                forall|r: int| 0 <= r < i ==> (#[trigger] rows@[r])@.len() == C,
                parse_phalanx_rows(views(lines@).take(i as int), C) == Ok::<
                    Seq<Seq<PhalanxKey>>,
                    Failure,
                >(row_views(rows@)),
            decreases lines.len() - i,
        {
            proof {
                let done = views(lines@).take(i + 1);
                assert(done.drop_last() =~= views(lines@).take(i as int));
                assert(done.last() == lines@[i as int]@);
                lemma_phalanx_rows_prefix(views(lines@), C, i + 1);
            }
            let tokens = words_of(&lines[i]);
            if tokens.len() != C {
                return Err(KeyboardError::ColMismatchError(C, tokens.len()));
            }
            let mut row: Vec<PhalanxKey> = Vec::new();
            let mut j: usize = 0;
            assert(views(tokens@).take(0) =~= Seq::<Seq<char>>::empty());
            while j < tokens.len()
                invariant
                    j <= tokens.len(),
                    i < lines.len(),
                    lines@.len() == R,
                    tokens@.len() == C,
                    views(tokens@) == words(lines@[i as int]@),
                    views(lines@) == row_lines(split(text@, '\n')),
                    views(lines@).take(i + 1).drop_last() == views(lines@).take(i as int),
                    views(lines@).take(i + 1).last() == lines@[i as int]@,
                    parse_phalanx_rows(views(lines@).take(i + 1), C) is Err
                        ==> parse_phalanx_rows(views(lines@), C) == parse_phalanx_rows(
                        views(lines@).take(i + 1),
                        C,
                    ),
                    parse_phalanx_rows(views(lines@).take(i as int), C) == Ok::<
                        Seq<Seq<PhalanxKey>>,
                        Failure,
                    >(row_views(rows@)),
                    row@.len() == j,
                    parse_phalanx_tokens(views(tokens@).take(j as int)) == Ok::<
                        Seq<PhalanxKey>,
                        Failure,
                    >(row@),
                decreases tokens.len() - j,
            {
                proof {
                    let done = views(tokens@).take(j + 1);
                    assert(done.drop_last() =~= views(tokens@).take(j as int));
                    assert(done.last() == tokens@[j as int]@);
                    lemma_phalanx_tokens_prefix(views(tokens@), j + 1);
                }
                match PhalanxKey::from_token(&tokens[j]) {
                    Some(key) => {
                        row.push(key);
                    },
                    None => {
                        return Err(KeyboardError::InvalidKeyFromString(string_of(&tokens[j])));
                    },
                }
                j += 1;
            }
            assert(views(tokens@).take(tokens@.len() as int) =~= views(tokens@));
            let ghost before = row_views(rows@);
            rows.push(row);
            assert(row_views(rows@) =~= before.push(rows@.last()@));
            i += 1;
        }
        assert(views(lines@).take(lines@.len() as int) =~= views(lines@));
        assert(has_shape(row_views(rows@), R as int, C as int)) by {
            assert forall|r: int| 0 <= r < R implies (#[trigger] row_views(rows@)[r]).len() == C by {
                assert(row_views(rows@)[r] == rows@[r]@);
            }
        }
        Self::from_rows(rows.as_slice())
    }

    /// The key presses at the given positions, or the first position that
    /// is not on the keyboard. The layer of a position is not looked at: all
    /// layers are pressed on the same keys.
    pub fn strokes(&self, positions: &Vec<LayoutPosition>) -> (res: Result<
        Vec<Stroke>,
        KeyboardError,
    >)
        requires
            self.wf(),
        ensures
            match res {
                Ok(strokes) => {
                    &&& strokes@.len() == positions@.len()
                    &&& forall|i: int|
                        0 <= i < positions@.len() ==> on_board(positions@[i], R, C)
                            && #[trigger] strokes@[i] == stroke_at(self@, positions@[i])
                },
                Err(e) => exists|i: int|
                    0 <= i < positions@.len() && !on_board(#[trigger] positions@[i], R, C) && e
                        == KeyboardError::IndicesOutOfBounds(
                        positions@[i].row_index,
                        positions@[i].col_index,
                    ) && forall|j: int| 0 <= j < i ==> on_board(#[trigger] positions@[j], R, C),
            },
    {
        let mut strokes: Vec<Stroke> = Vec::new();
        let mut i: usize = 0;
        while i < positions.len()
            invariant
                i <= positions.len(),
                self.wf(),
                strokes@.len() == i,
                forall|j: int| 0 <= j < i ==> on_board(#[trigger] positions@[j], R, C),
                forall|j: int|
                    0 <= j < i ==> #[trigger] strokes@[j] == stroke_at(self@, positions@[j]),
            decreases positions.len() - i,
        {
            let p = positions[i];
            match self.get(p.row_index, p.col_index) {
                Ok(key) => {
                    strokes.push(Stroke { hand: key.hand, finger: key.finger, row: p.row_index });
                },
                Err(e) => {
                    assert(!on_board(positions@[i as int], R, C));
                    assert(e == KeyboardError::IndicesOutOfBounds(
                        positions@[i as int].row_index,
                        positions@[i as int].col_index,
                    ));
                    return Err(e);
                },
            }
            i += 1;
        }
        Ok(strokes)
    }
}

/// Whether a position is on a keyboard of `num_rows` rows and `num_columns`
/// columns.
pub open spec fn on_board(p: LayoutPosition, num_rows: usize, num_columns: usize) -> bool {
    p.row_index < num_rows && p.col_index < num_columns
}

/// The key press at a position.
pub open spec fn stroke_at(rows: Seq<Seq<PhalanxKey>>, p: LayoutPosition) -> Stroke {
    Stroke {
        hand: rows[p.row_index as int][p.col_index as int].hand,
        finger: rows[p.row_index as int][p.col_index as int].finger,
        row: p.row_index,
    }
}

/// A fault among the first tokens is the fault of them all.
pub proof fn lemma_phalanx_tokens_prefix(tokens: Seq<Seq<char>>, n: int)
    requires
        0 <= n <= tokens.len(),
    ensures
        parse_phalanx_tokens(tokens.take(n)) is Err ==> parse_phalanx_tokens(tokens)
            == parse_phalanx_tokens(tokens.take(n)),
    decreases tokens.len(),
{
    if n < tokens.len() {
        assert(tokens.drop_last().take(n) =~= tokens.take(n));
        lemma_phalanx_tokens_prefix(tokens.drop_last(), n);
    } else {
        assert(tokens.take(n) =~= tokens);
    }
}

/// A fault among the first lines is the fault of them all.
pub proof fn lemma_phalanx_rows_prefix(lines: Seq<Seq<char>>, num_columns: usize, n: int)
    requires
        0 <= n <= lines.len(),
    ensures
        parse_phalanx_rows(lines.take(n), num_columns) is Err ==> parse_phalanx_rows(
            lines,
            num_columns,
        ) == parse_phalanx_rows(lines.take(n), num_columns),
    decreases lines.len(),
{
    if n < lines.len() {
        assert(lines.drop_last().take(n) =~= lines.take(n));
        lemma_phalanx_rows_prefix(lines.drop_last(), num_columns, n);
    } else {
        assert(lines.take(n) =~= lines);
    }
}

} // verus!
