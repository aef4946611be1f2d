//! Giving the replaceable keys of a layer new values at random, under the
//! rule that symmetric keys come in pairs.

use vstd::prelude::*;
use rand::rngs::StdRng;
use crate::keyboard::error::KeyboardError;
use crate::keyboard::grid::with_cell;
use crate::keyboard::key::KeycodeKey;
use crate::keyboard::layer::Layer;
use crate::keyboard::LayoutPosition;
use crate::random::choose_one;
use crate::text_processor::keycode::Keycode;

verus! {

/// Whether the cell at row `r` and column `c` is flagged symmetric while its
/// mirror image is not.
pub open spec fn unpaired(rows: Seq<Seq<KeycodeKey>>, num_columns: int, r: int, c: int) -> bool {
    rows[r][c].symmetric && !rows[r][num_columns - 1 - c].symmetric
}

/// Whether no cell of the layer breaks the pairing of symmetric keys.
pub open spec fn paired(rows: Seq<Seq<KeycodeKey>>, num_rows: int, num_columns: int) -> bool {
    forall|r: int, c: int|
        0 <= r < num_rows && 0 <= c < num_columns ==> !#[trigger] unpaired(rows, num_columns, r, c)
}

/// Row-major order: whether the first cell is visited before the second.
pub open spec fn precedes(r1: int, c1: int, r2: int, c2: int) -> bool {
    r1 < r2 || (r1 == r2 && c1 < c2)
}

/// Whether the cell at row `r` and column `c` is the first, in row-major
/// order, that breaks the pairing of symmetric keys.
pub open spec fn first_unpaired(
    rows: Seq<Seq<KeycodeKey>>,
    num_rows: int,
    num_columns: int,
    r: int,
    c: int,
) -> bool {
    &&& 0 <= r < num_rows && 0 <= c < num_columns
    &&& unpaired(rows, num_columns, r, c)
    &&& forall|r2: int, c2: int|
        0 <= r2 < num_rows && 0 <= c2 < num_columns && precedes(r2, c2, r, c) ==> !#[trigger] unpaired(
            rows,
            num_columns,
            r2,
            c2,
        )
}

/// Whether a search may give the key another value: it is moveable and not
/// half of a symmetric pair.
pub open spec fn replaceable(key: KeycodeKey) -> bool {
    key.moveable && !key.symmetric
}

/// Whether `after` can come of redrawing the key `before` from
/// `candidates`: one of the candidates on a moveable, unpaired key, or the
/// key as it was if there are no candidates.
pub open spec fn redrawn(before: KeycodeKey, after: KeycodeKey, candidates: Seq<Keycode>) -> bool {
    if candidates.len() == 0 {
        after == before
    } else {
        candidates.contains(after.value) && after == KeycodeKey::free(after.value)
    }
}

/// Whether `res` is how a randomization of `rows` ends: well if no cell
/// breaks the pairing of symmetric keys, else with the first cell that does,
/// in row-major order, and its mirror image.
pub open spec fn randomize_outcome(
    rows: Seq<Seq<KeycodeKey>>,
    num_rows: int,
    num_columns: int,
    res: Result<(), KeyboardError>,
) -> bool {
    &&& paired(rows, num_rows, num_columns) <==> res is Ok
    &&& forall|r: int, c: int| #[trigger]
        first_unpaired(rows, num_rows, num_columns, r, c) ==> res == Err::<(), KeyboardError>(
            KeyboardError::SymmetryError(
                r as usize,
                c as usize,
                r as usize,
                (num_columns - 1 - c) as usize,
            ),
        )
    &&& res is Err ==> exists|r: int, c: int| #[trigger]
        first_unpaired(rows, num_rows, num_columns, r, c)
}

/// Whether `after` can come of a randomization of `before` that ended in
/// `res`.
///
/// No key has changed its flags. A key that is not moveable, or that is
/// flagged symmetric, has kept its value. Each replaceable key that was
/// reached has been redrawn, and no key beyond has changed.
pub open spec fn redrawn_rows(
    before: Seq<Seq<KeycodeKey>>,
    after: Seq<Seq<KeycodeKey>>,
    candidates: Seq<Keycode>,
    res: Result<(), KeyboardError>,
    num_rows: int,
    num_columns: int,
) -> bool {
    forall|r: int, c: int|
        0 <= r < num_rows && 0 <= c < num_columns ==> {
            let old_key = before[r][c];
            let new_key = #[trigger] after[r][c];
            &&& new_key.moveable == old_key.moveable
            &&& new_key.symmetric == old_key.symmetric
            &&& !old_key.moveable ==> new_key == old_key
            &&& old_key.symmetric ==> new_key == old_key
            &&& replaceable(old_key) && reached(res, r, c) ==> redrawn(old_key, new_key, candidates)
            &&& !reached(res, r, c) ==> new_key == old_key
        }
}

/// Whether a randomization that ended in `res` got as far as redrawing the
/// cell at row `r` and column `c`: all of them if it succeeded, else those
/// before the cell it failed at.
pub open spec fn reached(res: Result<(), KeyboardError>, r: int, c: int) -> bool {
    match res {
        Ok(_) => true,
        Err(KeyboardError::SymmetryError(r1, c1, _, _)) => precedes(r, c, r1 as int, c1 as int),
        Err(_) => false,
    }
}

impl<const R: usize, const C: usize> Layer<R, C, KeycodeKey> {
    /// What visiting the cell at row `r` and column `c` asks for: `true` if
    /// its value is to be redrawn, `false` if it stays, and a failure if it
    /// is flagged symmetric while its mirror image is not.
    pub fn check_cell(&self, r: usize, c: usize) -> (res: Result<bool, KeyboardError>)
        requires
            self.wf(),
            r < R,
            c < C,
        ensures
            unpaired(self@, C as int, r as int, c as int) ==> res == Err::<bool, KeyboardError>(
                KeyboardError::SymmetryError(r, c, r, (C - 1 - c) as usize),
            ),
            !unpaired(self@, C as int, r as int, c as int) ==> res == Ok::<bool, KeyboardError>(
                replaceable(self@[r as int][c as int]),
            ),
    {
        let key = self.get(r, c).unwrap();
        if key.is_symmetric() {
            let symm_lp = self.symmetric_position(LayoutPosition::for_layer(r, c));
            let symm_key = self.get_from_layout_position(&symm_lp).unwrap();
            if !symm_key.is_symmetric() {
                Err(KeyboardError::SymmetryError(r, c, symm_lp.row_index, symm_lp.col_index))
            } else {
                Ok(false)
            }
        } else {
            Ok(key.is_moveable())
        }
    }

    /// Puts a pick at row `r` and column `c`: a moveable, unpaired key with
    /// the picked value. Without a pick the cell stays as it is.
    pub fn place_pick(&mut self, r: usize, c: usize, pick: Option<Keycode>)
        requires
            old(self).wf(),
            r < R,
            c < C,
        ensures
            final(self).wf(),
            final(self)@ == match pick {
                Some(value) => with_cell(old(self)@, r as int, c as int, KeycodeKey::free(value)),
                None => old(self)@,
            },
    {
        if let Some(value) = pick {
            let _ = self.set(r, c, KeycodeKey::from_keycode(value));
        }
    }

    /// Gives every replaceable key a value drawn from `valid_keycodes`,
    /// visiting the cells row by row, each row from left to right.
    ///
    /// A key that is not moveable, or that is flagged symmetric, keeps its
    /// value, and no key changes its flags. The visit stops at the first cell
    /// that is flagged symmetric while its mirror image is not, and reports
    /// both positions; the cells before it have been redrawn by then.
    pub fn randomize(&mut self, rng: &mut StdRng, valid_keycodes: Vec<Keycode>) -> (res: Result<
        (),
        KeyboardError,
    >)
        requires
            old(self).wf(),
        ensures
            final(self).wf(),
            randomize_outcome(old(self)@, R as int, C as int, res),
            redrawn_rows(old(self)@, final(self)@, valid_keycodes@, res, R as int, C as int),
    {
        let mut i: usize = 0;
        while i < R
            invariant
                i <= R,
                self.wf(),
                old(self).wf(),
                forall|r: int, c: int|
                    0 <= r < i && 0 <= c < C ==> !#[trigger] unpaired(old(self)@, C as int, r, c),
                forall|r: int, c: int|
                    0 <= r < R && 0 <= c < C ==> {
                        let before = old(self)@[r][c];
                        let after = #[trigger] self@[r][c];
                        &&& after.moveable == before.moveable
                        &&& after.symmetric == before.symmetric
                        &&& !replaceable(before) ==> after == before
                        &&& replaceable(before) && r < i ==> redrawn(before, after, valid_keycodes@)
                        &&& r >= i ==> after == before
                    },
            decreases R - i,
        {
            let mut j: usize = 0;
            while j < C
                invariant
                    i < R,
                    j <= C,
                    self.wf(),
                    old(self).wf(),
                    forall|r: int, c: int|
                        0 <= r < R && 0 <= c < C && precedes(r, c, i as int, j as int)
                            ==> !#[trigger] unpaired(old(self)@, C as int, r, c),
                    forall|r: int, c: int|
                        0 <= r < R && 0 <= c < C ==> {
                            let before = old(self)@[r][c];
                            let after = #[trigger] self@[r][c];
                            &&& after.moveable == before.moveable
                            &&& after.symmetric == before.symmetric
                            &&& !replaceable(before) ==> after == before
                            &&& replaceable(before) && precedes(r, c, i as int, j as int)
                                ==> redrawn(before, after, valid_keycodes@)
                            &&& !precedes(r, c, i as int, j as int) ==> after == before
                        },
                decreases C - j,
            {
                assert(self@[i as int][j as int].symmetric == old(self)@[i as int][j as int].symmetric);
                assert(self@[i as int][C - 1 - j].symmetric == old(self)@[i as int][C - 1
                    - j].symmetric);
                match self.check_cell(i, j) {
                    Err(e) => {
                        assert(unpaired(old(self)@, C as int, i as int, j as int));
                        assert(first_unpaired(old(self)@, R as int, C as int, i as int, j as int));
                        assert(!paired(old(self)@, R as int, C as int));
                        assert forall|r: int, c: int| #[trigger]
                            first_unpaired(old(self)@, R as int, C as int, r, c) implies r == i
                            && c == j by {
                            if precedes(r, c, i as int, j as int) {
                                assert(!unpaired(old(self)@, C as int, r, c));
                            } else if precedes(i as int, j as int, r, c) {
                                assert(!unpaired(old(self)@, C as int, i as int, j as int));
                            }
                        }
                        return Err(e);
                    },
                    Ok(redraw) => {
                        if redraw {
                            let pick = choose_one(rng, &valid_keycodes);
                            self.place_pick(i, j, pick);
                        }
                    },
                }
                j += 1;
            }
            i += 1;
        }
        assert(paired(old(self)@, R as int, C as int));
        Ok(())
    }
}

/// One cell that is flagged symmetric while its mirror image is not makes
/// the randomization of its layer fail, and a randomization fails in no
/// other way than by reporting such a cell.
pub proof fn lemma_unpaired_cell_fails(
    rows: Seq<Seq<KeycodeKey>>,
    num_rows: int,
    num_columns: int,
    res: Result<(), KeyboardError>,
    r: int,
    c: int,
)
    requires
        num_rows <= usize::MAX,
        num_columns <= usize::MAX,
        randomize_outcome(rows, num_rows, num_columns, res),
        0 <= r < num_rows,
        0 <= c < num_columns,
        unpaired(rows, num_columns, r, c),
    ensures
        res matches Err(KeyboardError::SymmetryError(r1, c1, r2, c2)) && r1 == r2 && c2
            == num_columns - 1 - c1 && unpaired(rows, num_columns, r1 as int, c1 as int),
{
    assert(!paired(rows, num_rows, num_columns));
    let (r1, c1) = choose|r1: int, c1: int| #[trigger]
        first_unpaired(rows, num_rows, num_columns, r1, c1);
    assert(first_unpaired(rows, num_rows, num_columns, r1, c1));
}

} // verus!
