//! The two-dimensional array that stores a layer's cells.

use vstd::prelude::*;
use array2d::Array2D;
use crate::keyboard::key::{KeycodeKey, PhalanxKey};

verus! {

#[verifier::external_type_specification]
#[verifier::external_body]
#[verifier::reject_recursive_types(T)]
pub struct ExArray2D<T>(Array2D<T>);

#[verifier::external_type_specification]
#[verifier::external_body]
pub struct ExArray2DError(array2d::Error);

/// The rows of the array from top to bottom, each row from left to right.
///
/// All rows are of one length, as `Array2D` keeps one column count for them.
/// Of an array without rows the column count does not show here: it has no
/// cell to get or set, whatever the count.
pub uninterp spec fn grid_rows(a: Array2D<KeycodeKey>) -> Seq<Seq<KeycodeKey>>;

/// Whether the array has a cell at `row` and `column`.
pub open spec fn grid_has(a: Array2D<KeycodeKey>, row: usize, column: usize) -> bool {
    row < grid_rows(a).len() && column < grid_rows(a)[row as int].len()
}

/// The rows with the cell at `row` and `column` replaced.
pub open spec fn with_cell(
    rows: Seq<Seq<KeycodeKey>>,
    row: int,
    column: int,
    key: KeycodeKey,
) -> Seq<Seq<KeycodeKey>> {
    rows.update(row, rows[row].update(column, key))
}

/// Whether every row is as long as the first.
pub open spec fn rectangular<K>(rows: Seq<Seq<K>>) -> bool {
    forall|r: int| 0 <= r < rows.len() ==> (#[trigger] rows[r]).len() == rows[0].len()
}

/// The contents of a slice of rows.
pub open spec fn row_views<K>(rows: Seq<Vec<K>>) -> Seq<Seq<K>> {
    rows.map_values(|row: Vec<K>| row@)
}

/// The rows of an array of hands and fingers, from top to bottom, each row
/// from left to right. All rows are of one length; of an array without rows
/// the column count does not show here.
pub uninterp spec fn phalanx_rows(a: Array2D<PhalanxKey>) -> Seq<Seq<PhalanxKey>>;

/// `Array2D::filled_with`: an array of `num_rows` rows and `num_columns`
/// columns with a copy of `element` in every cell. The product of the two
/// counts must fit, as the array allocates that many cells.
#[verifier::external_body]
pub(crate) fn grid_filled_with(element: KeycodeKey, num_rows: usize, num_columns: usize) -> (a:
    Array2D<KeycodeKey>)
    requires
        num_rows * num_columns <= usize::MAX,
    ensures
        grid_rows(a) == Seq::new(
            num_rows as nat,
            |r: int| Seq::new(num_columns as nat, |c: int| element),
        ),
{
    Array2D::filled_with(element, num_rows, num_columns)
}

/// `Array2D::from_rows`: succeeds exactly when all rows have one length, and
/// the array then holds a copy of each key, row by row as given.
#[verifier::external_body]
pub(crate) fn grid_from_rows(elements: &[Vec<KeycodeKey>]) -> (r: Result<
    Array2D<KeycodeKey>,
    array2d::Error,
>)
    ensures
        r is Ok <==> rectangular(row_views(elements@)),
        r is Ok ==> grid_rows(r.unwrap()) == row_views(elements@),
{
    Array2D::from_rows(elements)
}

/// `Array2D::get`: the cell at `row` and `column`, if there is one.
#[verifier::external_body]
pub(crate) fn grid_get(a: &Array2D<KeycodeKey>, row: usize, column: usize) -> (k: Option<
    &KeycodeKey,
>)
    ensures
        k is Some <==> grid_has(*a, row, column),
        k is Some ==> *k.unwrap() == grid_rows(*a)[row as int][column as int],
{
    a.get(row, column)
}

/// `Array2D::get_mut`: the cell at `row` and `column`, if there is one, to
/// be written in place. No other cell changes, and without a cell nothing
/// does.
#[verifier::external_body]
pub(crate) fn grid_get_mut(a: &mut Array2D<KeycodeKey>, row: usize, column: usize) -> (k: Option<
    &mut KeycodeKey,
>)
    ensures
        k is Some <==> grid_has(*old(a), row, column),
        match k {
            Some(k) => *k == grid_rows(*old(a))[row as int][column as int] && grid_rows(*final(a))
                == with_cell(grid_rows(*old(a)), row as int, column as int, *final(k)),
            None => grid_rows(*final(a)) == grid_rows(*old(a)),
        },
{
    a.get_mut(row, column)
}

/// `Array2D::set`: writes `element` to the cell at `row` and `column` and
/// succeeds, or fails without a change if there is no such cell.
#[verifier::external_body]
pub(crate) fn grid_set(
    a: &mut Array2D<KeycodeKey>,
    row: usize,
    column: usize,
    element: KeycodeKey,
) -> (r: Result<(), array2d::Error>)
    ensures
        r is Ok <==> grid_has(*old(a), row, column),
        r is Ok ==> grid_rows(*final(a)) == with_cell(
            grid_rows(*old(a)),
            row as int,
            column as int,
            element,
        ),
        r is Err ==> grid_rows(*final(a)) == grid_rows(*old(a)),
{
    a.set(row, column, element)
}

/// `Array2D::clone`: an array with the same cells.
#[verifier::external_body]
pub(crate) fn grid_clone(a: &Array2D<KeycodeKey>) -> (b: Array2D<KeycodeKey>)
    ensures
        grid_rows(b) == grid_rows(*a),
{
    a.clone()
}

/// Whether the array of hands and fingers has a cell at `row` and `column`.
pub open spec fn phalanx_has(a: Array2D<PhalanxKey>, row: usize, column: usize) -> bool {
    row < phalanx_rows(a).len() && column < phalanx_rows(a)[row as int].len()
}

/// `Array2D::from_rows` on hands and fingers: succeeds exactly when all rows
/// have one length, and the array then holds a copy of each cell, row by row
/// as given.
#[verifier::external_body]
pub(crate) fn phalanx_grid_from_rows(elements: &[Vec<PhalanxKey>]) -> (r: Result<
    Array2D<PhalanxKey>,
    array2d::Error,
>)
    ensures
        r is Ok <==> rectangular(row_views(elements@)),
        r is Ok ==> phalanx_rows(r.unwrap()) == row_views(elements@),
{
    Array2D::from_rows(elements)
}

/// `Array2D::get` on hands and fingers: the cell at `row` and `column`, if
/// there is one.
#[verifier::external_body]
pub(crate) fn phalanx_grid_get(a: &Array2D<PhalanxKey>, row: usize, column: usize) -> (k: Option<
    &PhalanxKey,
>)
    ensures
        k is Some <==> phalanx_has(*a, row, column),
        k is Some ==> *k.unwrap() == phalanx_rows(*a)[row as int][column as int],
{
    a.get(row, column)
}

} // verus!
