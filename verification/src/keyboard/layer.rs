//! A layer: one full grid of keys, for one shift state of the keyboard.

use vstd::prelude::*;
use array2d::Array2D;
use crate::keyboard::error::KeyboardError;
use crate::keyboard::grid::{
    grid_clone, grid_filled_with, grid_from_rows, grid_get, grid_get_mut, grid_rows, grid_set,
    phalanx_grid_from_rows, phalanx_grid_get, phalanx_rows, row_views, with_cell,
};
use crate::keyboard::key::{KeycodeKey, PhalanxKey};
use crate::keyboard::LayoutPosition;
use crate::text_processor::keycode::Keycode;

verus! {

/// A grid of `R` rows and `C` columns of keys.
#[verifier::reject_recursive_types(K)]
#[derive(Debug, PartialEq)]
pub struct Layer<const R: usize, const C: usize, K> {
    layer: Array2D<K>,
}

/// Whether `rows` are `num_rows` rows of `num_columns` cells each.
pub open spec fn has_shape<K>(rows: Seq<Seq<K>>, num_rows: int, num_columns: int) -> bool {
    &&& rows.len() == num_rows
    &&& forall|r: int| 0 <= r < num_rows ==> (#[trigger] rows[r]).len() == num_columns
}

/// The position in the mirrored column: the same layer and row, as far from
/// the right edge of `num_columns` columns as `p` is from the left.
pub open spec fn mirrored(p: LayoutPosition, num_columns: int) -> LayoutPosition {
    LayoutPosition {
        layer_index: p.layer_index,
        row_index: p.row_index,
        col_index: (num_columns - 1 - p.col_index) as usize,
    }
}

/// Whether row `r` is the first of `rows` that is not `num_columns` long.
pub open spec fn first_odd_row<K>(rows: Seq<Seq<K>>, num_columns: int, r: int) -> bool {
    &&& 0 <= r < rows.len()
    &&& rows[r].len() != num_columns
    &&& forall|q: int| 0 <= q < r ==> (#[trigger] rows[q]).len() == num_columns
}

impl<const R: usize, const C: usize> Layer<R, C, KeycodeKey> {
    /// The rows of the layer from top to bottom, each from left to right.
    pub closed spec fn view(&self) -> Seq<Seq<KeycodeKey>> {
        grid_rows(self.layer)
    }

    /// The layer has exactly `R` rows of `C` cells. Every layer that this
    /// library hands out has, and no operation changes it.
    pub open spec fn wf(&self) -> bool {
        has_shape(self@, R as int, C as int)
    }

    /// Builds a layer from its rows.
    pub fn from_rows(elements: &[Vec<KeycodeKey>]) -> (res: Result<Self, KeyboardError>)
        ensures
            elements@.len() != R ==> res is Err && res.unwrap_err()
                == KeyboardError::RowMismatchError(R, elements@.len() as usize),
            forall|r: int|
                elements@.len() == R && #[trigger] first_odd_row(row_views(elements@), C as int, r)
                    ==> res is Err && res.unwrap_err() == KeyboardError::ColMismatchError(
                    C,
                    elements@[r].len(),
                ),
            has_shape(row_views(elements@), R as int, C as int) ==> res is Ok && res.unwrap().wf()
                && res.unwrap()@ == row_views(elements@),
    {
        let ghost rows = row_views(elements@);
        if elements.len() != R {
            return Err(KeyboardError::RowMismatchError(R, elements.len()));
        }
        let mut r: usize = 0;
        while r < R
            invariant
                r <= R,
                elements@.len() == R,
                rows == row_views(elements@),
                forall|q: int| 0 <= q < r ==> (#[trigger] rows[q]).len() == C,
            decreases R - r,
        {
            if elements[r].len() != C {
                assert(first_odd_row(rows, C as int, r as int));
                assert forall|p: int| #[trigger] first_odd_row(rows, C as int, p) implies p == r by {
                    if p < r {
                        assert(rows[p].len() == C);
                    } else if r < p {
                        assert(rows[r as int].len() == C);
                    }
                }
                return Err(KeyboardError::ColMismatchError(C, elements[r].len()));
            }
            r += 1;
        }
        match grid_from_rows(elements) {
            Ok(layer) => Ok(Layer { layer }),
            Err(_) => {
                // Not reached: rows of one length always make an array.
                assert(false);
                Err(KeyboardError::ColMismatchError(C, 0))
            },
        }
    }

    /// The key at row `r` and column `c`.
    pub fn get(&self, r: usize, c: usize) -> (res: Result<KeycodeKey, KeyboardError>)
        requires
            self.wf(),
        ensures
            r < R && c < C ==> res == Ok::<KeycodeKey, KeyboardError>(self@[r as int][c as int]),
            !(r < R && c < C) ==> res == Err::<KeycodeKey, KeyboardError>(
                KeyboardError::IndicesOutOfBounds(r, c),
            ),
    {
        match grid_get(&self.layer, r, c) {
            Some(key) => Ok(*key),
            None => Err(KeyboardError::IndicesOutOfBounds(r, c)),
        }
    }

    /// The key at row `r` and column `c`, to be changed in place.
    pub fn get_mut(&mut self, r: usize, c: usize) -> (res: Result<&mut KeycodeKey, KeyboardError>)
        requires
            old(self).wf(),
        ensures
            final(self).wf(),
            res is Ok <==> r < R && c < C,
            match res {
                Ok(key) => *key == old(self)@[r as int][c as int] && final(self)@ == with_cell(
                    old(self)@,
                    r as int,
                    c as int,
                    *final(key),
                ),
                Err(e) => e == KeyboardError::IndicesOutOfBounds(r, c) && final(self)@ == old(
                    self,
                )@,
            },
    {
        match grid_get_mut(&mut self.layer, r, c) {
            Some(key) => Ok(key),
            None => Err(KeyboardError::IndicesOutOfBounds(r, c)),
        }
    }

    /// Puts `element` at row `row` and column `col`.
    pub fn set(&mut self, row: usize, col: usize, element: KeycodeKey) -> (res: Result<
        (),
        KeyboardError,
    >)
        requires
            old(self).wf(),
        ensures
            final(self).wf(),
            row < R && col < C ==> res == Ok::<(), KeyboardError>(()) && final(self)@ == with_cell(
                old(self)@,
                row as int,
                col as int,
                element,
            ),
            !(row < R && col < C) ==> res == Err::<(), KeyboardError>(
                KeyboardError::IndicesOutOfBounds(row, col),
            ) && final(self)@ == old(self)@,
    {
        match grid_set(&mut self.layer, row, col, element) {
            Ok(_) => Ok(()),
            Err(_) => Err(KeyboardError::IndicesOutOfBounds(row, col)),
        }
    }

    /// The key at the row and column of `l`; the layer index of `l` is not
    /// looked at.
    pub fn get_from_layout_position(&self, l: &LayoutPosition) -> (res: Result<
        KeycodeKey,
        KeyboardError,
    >)
        requires
            self.wf(),
        ensures
            l.row_index < R && l.col_index < C ==> res == Ok::<KeycodeKey, KeyboardError>(
                self@[l.row_index as int][l.col_index as int],
            ),
            !(l.row_index < R && l.col_index < C) ==> res == Err::<KeycodeKey, KeyboardError>(
                KeyboardError::IndicesOutOfBounds(l.row_index, l.col_index),
            ),
    {
        self.get(l.row_index, l.col_index)
    }

    /// The number of rows.
    pub fn num_rows(&self) -> (n: usize)
        ensures
            n == R,
    {
        R
    }

    /// The number of columns.
    pub fn num_columns(&self) -> (n: usize)
        ensures
            n == C,
    {
        C
    }

    /// The position that mirrors `l` left to right.
    pub fn symmetric_position(&self, l: LayoutPosition) -> (m: LayoutPosition)
        requires
            l.col_index < C,
        ensures
            m == mirrored(l, C as int),
    {
        let num_cols = self.num_columns();
        let symm_col = (num_cols - 1) - l.col_index;
        LayoutPosition { layer_index: l.layer_index, row_index: l.row_index, col_index: symm_col }
    }

    /// A layer of no-op keys, each moveable and unpaired.
    pub fn init_blank() -> (layer: Self)
        requires
            R * C <= usize::MAX,
        ensures
            layer.wf(),
            forall|r: int, c: int|
                0 <= r < R && 0 <= c < C ==> (#[trigger] layer@[r][c]) == KeycodeKey::free(
                    Keycode::_NO,
                ),
    {
        let default_key = KeycodeKey::from_keycode(Keycode::_NO);
        Layer { layer: grid_filled_with(default_key, R, C) }
    }
}

impl<const R: usize, const C: usize> Clone for Layer<R, C, KeycodeKey> {
    /// A layer with the same keys.
    fn clone(&self) -> (res: Self)
        ensures
            res@ == self@,
    {
        Layer { layer: grid_clone(&self.layer) }
    }
}

impl<const R: usize, const C: usize> Layer<R, C, PhalanxKey> {
    /// The rows of the layer from top to bottom, each from left to right.
    pub closed spec fn view(&self) -> Seq<Seq<PhalanxKey>> {
        phalanx_rows(self.layer)
    }

    /// The layer has exactly `R` rows of `C` cells. Every layer that this
    /// library hands out has, and no operation changes it.
    pub open spec fn wf(&self) -> bool {
        has_shape(self@, R as int, C as int)
    }

    /// Builds a layer of hands and fingers from its rows.
    pub fn from_rows(elements: &[Vec<PhalanxKey>]) -> (res: Result<Self, KeyboardError>)
        ensures
            elements@.len() != R ==> res is Err && res.unwrap_err()
                == KeyboardError::RowMismatchError(R, elements@.len() as usize),
            forall|r: int|
                elements@.len() == R && #[trigger] first_odd_row(row_views(elements@), C as int, r)
                    ==> res is Err && res.unwrap_err() == KeyboardError::ColMismatchError(
                    C,
                    elements@[r].len(),
                ),
            has_shape(row_views(elements@), R as int, C as int) ==> res is Ok && res.unwrap().wf()
                && res.unwrap()@ == row_views(elements@),
    {
        let ghost rows = row_views(elements@);
        if elements.len() != R {
            return Err(KeyboardError::RowMismatchError(R, elements.len()));
        }
        let mut r: usize = 0;
        while r < R
            invariant
                r <= R,
                elements@.len() == R,
                rows == row_views(elements@),
                forall|q: int| 0 <= q < r ==> (#[trigger] rows[q]).len() == C,
            decreases R - r,
        {
            if elements[r].len() != C {
                assert(first_odd_row(rows, C as int, r as int));
                assert forall|p: int| #[trigger] first_odd_row(rows, C as int, p) implies p == r by {
                    if p < r {
                        assert(rows[p].len() == C);
                    } else if r < p {
                        assert(rows[r as int].len() == C);
                    }
                }
                return Err(KeyboardError::ColMismatchError(C, elements[r].len()));
            }
            r += 1;
        }
        match phalanx_grid_from_rows(elements) {
            Ok(layer) => Ok(Layer { layer }),
            Err(_) => {
                // Not reached: rows of one length always make an array.
                assert(false);
                Err(KeyboardError::ColMismatchError(C, 0))
            },
        }
    }

    /// The hand and finger for the key at row `r` and column `c`.
    pub fn get(&self, r: usize, c: usize) -> (res: Result<PhalanxKey, KeyboardError>)
        requires
            self.wf(),
        ensures
            r < R && c < C ==> res == Ok::<PhalanxKey, KeyboardError>(self@[r as int][c as int]),
            !(r < R && c < C) ==> res == Err::<PhalanxKey, KeyboardError>(
                KeyboardError::IndicesOutOfBounds(r, c),
            ),
    {
        match phalanx_grid_get(&self.layer, r, c) {
            Some(key) => Ok(*key),
            None => Err(KeyboardError::IndicesOutOfBounds(r, c)),
        }
    }

    /// The hand and finger for the key at the row and column of `l`; the
    /// layer index of `l` is not looked at.
    pub fn get_from_layout_position(&self, l: &LayoutPosition) -> (res: Result<
        PhalanxKey,
        KeyboardError,
    >)
        requires
            self.wf(),
        ensures
            l.row_index < R && l.col_index < C ==> res == Ok::<PhalanxKey, KeyboardError>(
                self@[l.row_index as int][l.col_index as int],
            ),
            !(l.row_index < R && l.col_index < C) ==> res == Err::<PhalanxKey, KeyboardError>(
                KeyboardError::IndicesOutOfBounds(l.row_index, l.col_index),
            ),
    {
        self.get(l.row_index, l.col_index)
    }
}

/// Mirroring a position twice gives the position back.
pub proof fn lemma_mirror_involution(p: LayoutPosition, num_columns: usize)
    requires
        p.col_index < num_columns,
    ensures
        mirrored(mirrored(p, num_columns as int), num_columns as int) == p,
{
}

} // verus!
