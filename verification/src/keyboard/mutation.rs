//! The two changes that a search makes to a layout: two keys exchange their
//! values, or one key gets a new value. Neither touches a flag, and both keep
//! the two keys of a symmetric pair at one value.

use vstd::prelude::*;
use rand::rngs::StdRng;
use crate::keyboard::error::KeyboardError;
use crate::keyboard::key::KeycodeKey;
use crate::keyboard::layer::{has_shape, mirrored};
use crate::keyboard::layout::{in_layout, key_at, with_key, Layout};
use crate::keyboard::randomize::{redrawn_rows, replaceable};
use crate::keyboard::LayoutPosition;
use crate::random::choose_one;
use crate::text_processor::keycode::Keycode;

verus! {

/// Whether the symmetric keys of a layer hold together: the mirror image of
/// each key flagged symmetric is flagged symmetric too and has the same
/// value.
pub open spec fn in_step(rows: Seq<Seq<KeycodeKey>>, num_rows: int, num_columns: int) -> bool {
    forall|r: int, c: int|
        0 <= r < num_rows && 0 <= c < num_columns && (#[trigger] rows[r][c]).symmetric ==> {
            &&& rows[r][num_columns - 1 - c].symmetric
            &&& rows[r][num_columns - 1 - c].value == rows[r][c].value
        }
}

/// Whether the symmetric keys of every layer hold together.
pub open spec fn layers_in_step(
    layers: Seq<Seq<Seq<KeycodeKey>>>,
    num_rows: int,
    num_columns: int,
) -> bool {
    forall|k: int| 0 <= k < layers.len() ==> in_step(#[trigger] layers[k], num_rows, num_columns)
}

/// Whether every key of `after` has the flags that it has in `before`.
pub open spec fn same_flags(
    before: Seq<Seq<Seq<KeycodeKey>>>,
    after: Seq<Seq<Seq<KeycodeKey>>>,
    num_rows: int,
    num_columns: int,
) -> bool {
    &&& after.len() == before.len()
    &&& forall|k: int, r: int, c: int|
        0 <= k < before.len() && 0 <= r < num_rows && 0 <= c < num_columns ==> {
            &&& (#[trigger] after[k][r][c]).moveable == before[k][r][c].moveable
            &&& after[k][r][c].symmetric == before[k][r][c].symmetric
        }
}

/// Whether every layer has `num_rows` rows of `num_columns` cells.
pub open spec fn all_shaped(layers: Seq<Seq<Seq<KeycodeKey>>>, num_rows: int, num_columns: int) -> bool {
    forall|k: int| 0 <= k < layers.len() ==> has_shape(#[trigger] layers[k], num_rows, num_columns)
}

/// The layers with another value for the key at position `p`; its flags stay.
pub open spec fn with_value(layers: Seq<Seq<Seq<KeycodeKey>>>, p: LayoutPosition, value: Keycode) -> Seq<
    Seq<Seq<KeycodeKey>>,
> {
    with_key(layers, p, KeycodeKey { value, ..key_at(layers, p) })
}

/// Whether the keys at `a` and `b` may exchange their values: both are
/// there, and both are replaceable.
pub open spec fn can_swap(
    layers: Seq<Seq<Seq<KeycodeKey>>>,
    a: LayoutPosition,
    b: LayoutPosition,
    num_rows: int,
    num_columns: int,
) -> bool {
    &&& in_layout(layers, a, num_rows, num_columns)
    &&& in_layout(layers, b, num_rows, num_columns)
    &&& replaceable(key_at(layers, a))
    &&& replaceable(key_at(layers, b))
}

/// The layers after the keys at `a` and `b` have exchanged their values.
pub open spec fn swapped(layers: Seq<Seq<Seq<KeycodeKey>>>, a: LayoutPosition, b: LayoutPosition) -> Seq<
    Seq<Seq<KeycodeKey>>,
> {
    with_value(with_value(layers, a, key_at(layers, b).value), b, key_at(layers, a).value)
}

/// Whether replacing the value at `p` would break a pair: the key is
/// moveable and flagged symmetric, and its mirror image is not flagged.
pub open spec fn breaks_pair(
    layers: Seq<Seq<Seq<KeycodeKey>>>,
    p: LayoutPosition,
    num_rows: int,
    num_columns: int,
) -> bool {
    &&& in_layout(layers, p, num_rows, num_columns)
    &&& key_at(layers, p).moveable
    &&& key_at(layers, p).symmetric
    &&& !key_at(layers, mirrored(p, num_columns)).symmetric
}

/// Whether the key at `p` may get another value: it is there and moveable,
/// and if it is flagged symmetric, its mirror image is flagged too and is
/// moveable as well.
pub open spec fn can_replace(
    layers: Seq<Seq<Seq<KeycodeKey>>>,
    p: LayoutPosition,
    num_rows: int,
    num_columns: int,
) -> bool {
    &&& in_layout(layers, p, num_rows, num_columns)
    &&& key_at(layers, p).moveable
    &&& key_at(layers, p).symmetric ==> {
        &&& key_at(layers, mirrored(p, num_columns)).symmetric
        &&& key_at(layers, mirrored(p, num_columns)).moveable
    }
}

/// Whether there is a moveable key among the layers.
pub open spec fn has_moveable(
    layers: Seq<Seq<Seq<KeycodeKey>>>,
    num_rows: int,
    num_columns: int,
) -> bool {
    exists|p: LayoutPosition|
        in_layout(layers, p, num_rows, num_columns) && (#[trigger] key_at(layers, p)).moveable
}

/// Whether the key at `p` is moveable and yet held in place: it is one of a
/// symmetric pair, and the other key of the pair is not moveable.
pub open spec fn held(
    layers: Seq<Seq<Seq<KeycodeKey>>>,
    p: LayoutPosition,
    num_rows: int,
    num_columns: int,
) -> bool {
    &&& in_layout(layers, p, num_rows, num_columns)
    &&& key_at(layers, p).moveable
    &&& key_at(layers, p).symmetric
    &&& key_at(layers, mirrored(p, num_columns)).symmetric
    &&& !key_at(layers, mirrored(p, num_columns)).moveable
}

/// The layers after the key at `p` has got the value `value`, and with it
/// its mirror image if the key is flagged symmetric.
pub open spec fn replaced(
    layers: Seq<Seq<Seq<KeycodeKey>>>,
    p: LayoutPosition,
    value: Keycode,
    num_columns: int,
) -> Seq<Seq<Seq<KeycodeKey>>> {
    if key_at(layers, p).symmetric {
        with_value(with_value(layers, p, value), mirrored(p, num_columns), value)
    } else {
        with_value(layers, p, value)
    }
}

/// Whether there are two different keys that may exchange their values.
pub open spec fn has_pair_to_swap(
    layers: Seq<Seq<Seq<KeycodeKey>>>,
    num_rows: int,
    num_columns: int,
) -> bool {
    exists|a: LayoutPosition, b: LayoutPosition|
        a != b && #[trigger] can_swap(layers, a, b, num_rows, num_columns)
}

/// The positions among `positions` that are not `p`, in their order.
pub fn positions_other_than(positions: &Vec<LayoutPosition>, p: LayoutPosition) -> (others: Vec<
    LayoutPosition,
>)
    ensures
        others@ == positions@.filter(|q: LayoutPosition| q != p),
        forall|q: LayoutPosition| others@.contains(q) <==> positions@.contains(q) && q != p,
{
    let ghost keep = |q: LayoutPosition| q != p;
    let mut others: Vec<LayoutPosition> = Vec::new();
    let mut i: usize = 0;
    assert(positions@.take(0) =~= Seq::<LayoutPosition>::empty());
    while i < positions.len()
        invariant
            i <= positions.len(),
            keep == |q: LayoutPosition| q != p,
            others@ == positions@.take(i as int).filter(keep),
        decreases positions.len() - i,
    {
        proof {
            let done = positions@.take(i + 1);
            assert(done.drop_last() =~= positions@.take(i as int));
            assert(done.last() == positions@[i as int]);
            reveal(Seq::filter);
        }
        if positions[i] != p {
            others.push(positions[i]);
        }
        i += 1;
    }
    proof {
        assert(positions@.take(positions@.len() as int) =~= positions@);
        assert forall|q: LayoutPosition| others@.contains(q) <==> positions@.contains(q) && q
            != p by {
            if others@.contains(q) {
                positions@.lemma_filter_contains_rev(keep, q);
                let i = choose|i: int| 0 <= i < others@.len() && others@[i] == q;
                positions@.lemma_filter_pred(keep, i);
            }
            if positions@.contains(q) && q != p {
                let i = choose|i: int| 0 <= i < positions@.len() && positions@[i] == q;
                positions@.lemma_filter_contains(keep, i);
            }
        }
    }
    others
}

/// Reading order: layer by layer, each row by row from the left.
pub open spec fn reads_before(a: LayoutPosition, b: LayoutPosition) -> bool {
    ||| a.layer_index < b.layer_index
    ||| a.layer_index == b.layer_index && a.row_index < b.row_index
    ||| a.layer_index == b.layer_index && a.row_index == b.row_index && a.col_index < b.col_index
}

/// Whether a search may pick the key: it must be moveable, and where only
/// unpaired keys are wanted, not flagged symmetric.
pub open spec fn eligible(key: KeycodeKey, unpaired_only: bool) -> bool {
    key.moveable && (unpaired_only ==> !key.symmetric)
}

/// Whether `positions` are the positions of all eligible keys, in reading
/// order.
pub open spec fn lists_eligible(
    layers: Seq<Seq<Seq<KeycodeKey>>>,
    positions: Seq<LayoutPosition>,
    unpaired_only: bool,
    num_rows: int,
    num_columns: int,
) -> bool {
    &&& forall|p: LayoutPosition|
        positions.contains(p) <==> in_layout(layers, p, num_rows, num_columns) && eligible(
            #[trigger] key_at(layers, p),
            unpaired_only,
        )
    &&& forall|i: int, j: int|
        0 <= i < j < positions.len() ==> reads_before(#[trigger] positions[i], #[trigger] positions[j])
}

/// Changing the value of a key that is not flagged symmetric keeps the
/// symmetric keys together.
pub proof fn lemma_value_keeps_step(
    layers: Seq<Seq<Seq<KeycodeKey>>>,
    p: LayoutPosition,
    value: Keycode,
    num_rows: int,
    num_columns: int,
)
    requires
        all_shaped(layers, num_rows, num_columns),
        in_layout(layers, p, num_rows, num_columns),
        !key_at(layers, p).symmetric,
        layers_in_step(layers, num_rows, num_columns),
    ensures
        layers_in_step(with_value(layers, p, value), num_rows, num_columns),
        all_shaped(with_value(layers, p, value), num_rows, num_columns),
        same_flags(layers, with_value(layers, p, value), num_rows, num_columns),
{
    let after = with_value(layers, p, value);
    assert forall|k: int| 0 <= k < after.len() implies in_step(
        #[trigger] after[k],
        num_rows,
        num_columns,
    ) by {
        assert(in_step(layers[k], num_rows, num_columns));
        assert forall|r: int, c: int|
            0 <= r < num_rows && 0 <= c < num_columns && (#[trigger] after[k][r][c]).symmetric implies {
            &&& after[k][r][num_columns - 1 - c].symmetric
            &&& after[k][r][num_columns - 1 - c].value == after[k][r][c].value
        } by {
            assert(has_shape(layers[k], num_rows, num_columns));
            assert(layers[k][r][c].symmetric);
            assert(layers[k][r][num_columns - 1 - c].symmetric);
        }
    }
    assert forall|k: int| 0 <= k < after.len() implies has_shape(
        #[trigger] after[k],
        num_rows,
        num_columns,
    ) by {
        assert(has_shape(layers[k], num_rows, num_columns));
    }
    assert forall|k: int, r: int, c: int|
        0 <= k < layers.len() && 0 <= r < num_rows && 0 <= c < num_columns implies {
        &&& (#[trigger] after[k][r][c]).moveable == layers[k][r][c].moveable
        &&& after[k][r][c].symmetric == layers[k][r][c].symmetric
    } by {
        assert(has_shape(layers[k], num_rows, num_columns));
    }
}

/// Giving both keys of a symmetric pair one value keeps the symmetric keys
/// together.
pub proof fn lemma_pair_keeps_step(
    layers: Seq<Seq<Seq<KeycodeKey>>>,
    p: LayoutPosition,
    value: Keycode,
    num_rows: int,
    num_columns: int,
)
    requires
        num_columns <= usize::MAX,
        all_shaped(layers, num_rows, num_columns),
        in_layout(layers, p, num_rows, num_columns),
        key_at(layers, p).symmetric,
        key_at(layers, mirrored(p, num_columns)).symmetric,
        layers_in_step(layers, num_rows, num_columns),
    ensures
        layers_in_step(replaced(layers, p, value, num_columns), num_rows, num_columns),
        all_shaped(replaced(layers, p, value, num_columns), num_rows, num_columns),
        same_flags(layers, replaced(layers, p, value, num_columns), num_rows, num_columns),
{
    let m = mirrored(p, num_columns);
    let mid = with_value(layers, p, value);
    let after = replaced(layers, p, value, num_columns);
    assert(has_shape(layers[p.layer_index as int], num_rows, num_columns));
    assert forall|k: int| 0 <= k < after.len() implies has_shape(
        #[trigger] after[k],
        num_rows,
        num_columns,
    ) by {
        assert(has_shape(layers[k], num_rows, num_columns));
    }
    assert forall|k: int, r: int, c: int|
        0 <= k < layers.len() && 0 <= r < num_rows && 0 <= c < num_columns implies {
        &&& (#[trigger] after[k][r][c]).moveable == layers[k][r][c].moveable
        &&& after[k][r][c].symmetric == layers[k][r][c].symmetric
    } by {
        assert(has_shape(layers[k], num_rows, num_columns));
    }
    assert forall|k: int| 0 <= k < after.len() implies in_step(
        #[trigger] after[k],
        num_rows,
        num_columns,
    ) by {
        assert(in_step(layers[k], num_rows, num_columns));
        assert(has_shape(layers[k], num_rows, num_columns));
        assert forall|r: int, c: int|
            0 <= r < num_rows && 0 <= c < num_columns && (#[trigger] after[k][r][c]).symmetric implies {
            &&& after[k][r][num_columns - 1 - c].symmetric
            &&& after[k][r][num_columns - 1 - c].value == after[k][r][c].value
        } by {
            let pc = p.col_index as int;
            let mc = num_columns - 1 - pc;
            let other = num_columns - 1 - c;
            if k == p.layer_index && r == p.row_index {
                assert(mid[k][r] == layers[k][r].update(pc, mid[k][r][pc]));
                assert(after[k][r] == mid[k][r].update(mc, after[k][r][mc]));
                assert(after[k][r][pc].value == value);
                assert(after[k][r][mc].value == value);
                if c != pc && c != mc {
                    assert(other != pc && other != mc);
                    assert(after[k][r][c] == layers[k][r][c]);
                    assert(after[k][r][other] == layers[k][r][other]);
                }
            } else {
                assert(after[k][r][c] == layers[k][r][c]);
                assert(after[k][r][other] == layers[k][r][other]);
            }
            assert(layers[k][r][c].symmetric);
            assert(layers[k][r][other].symmetric);
        }
    }
}

/// A randomization keeps the symmetric keys of a layer together: it leaves
/// every key alone that is flagged symmetric.
pub proof fn lemma_randomize_keeps_step(
    before: Seq<Seq<KeycodeKey>>,
    after: Seq<Seq<KeycodeKey>>,
    candidates: Seq<Keycode>,
    res: Result<(), KeyboardError>,
    num_rows: int,
    num_columns: int,
)
    requires
        redrawn_rows(before, after, candidates, res, num_rows, num_columns),
        in_step(before, num_rows, num_columns),
    ensures
        in_step(after, num_rows, num_columns),
{
    assert forall|r: int, c: int|
        0 <= r < num_rows && 0 <= c < num_columns && (#[trigger] after[r][c]).symmetric implies {
        &&& after[r][num_columns - 1 - c].symmetric
        &&& after[r][num_columns - 1 - c].value == after[r][c].value
    } by {
        let m = num_columns - 1 - c;
        assert(before[r][c].symmetric);
        assert(before[r][m].symmetric);
        assert(after[r][m] == before[r][m]);
    }
}

impl<const R: usize, const C: usize> Layout<R, C> {
    /// Lets the keys at `a` and `b` exchange their values, if both are there
    /// and replaceable, and says whether they did.
    pub fn swap_values(&mut self, a: &LayoutPosition, b: &LayoutPosition) -> (done: bool)
        requires
            old(self).wf(),
        ensures
            final(self).wf(),
            done == can_swap(old(self)@, *a, *b, R as int, C as int),
            done ==> final(self)@ == swapped(old(self)@, *a, *b),
            !done ==> final(self)@ == old(self)@,
            same_flags(old(self)@, final(self)@, R as int, C as int),
            layers_in_step(old(self)@, R as int, C as int) ==> layers_in_step(
                final(self)@,
                R as int,
                C as int,
            ),
    {
        let first = match self.get(a) {
            Ok(key) => key,
            Err(_) => {
                return false;
            },
        };
        let second = match self.get(b) {
            Ok(key) => key,
            Err(_) => {
                return false;
            },
        };
        if !(first.moveable && !first.symmetric && second.moveable && !second.symmetric) {
            return false;
        }
        proof {
            let mid = with_value(old(self)@, *a, second.value);
            if layers_in_step(old(self)@, R as int, C as int) {
                lemma_value_keeps_step(old(self)@, *a, second.value, R as int, C as int);
                assert(has_shape(old(self)@[b.layer_index as int], R as int, C as int));
                assert(has_shape(old(self)@[a.layer_index as int], R as int, C as int));
                assert(!key_at(mid, *b).symmetric);
                lemma_value_keeps_step(mid, *b, first.value, R as int, C as int);
            }
        }
        let _ = self.set(a, KeycodeKey { value: second.value, ..first });
        proof {
            assert(has_shape(old(self)@[b.layer_index as int], R as int, C as int));
            assert(has_shape(old(self)@[a.layer_index as int], R as int, C as int));
        }
        let now = self.get(b).unwrap();
        let _ = self.set(b, KeycodeKey { value: first.value, ..now });
        assert(same_flags(old(self)@, self@, R as int, C as int)) by {
            assert forall|k: int, r: int, c: int|
                0 <= k < old(self)@.len() && 0 <= r < R && 0 <= c < C implies {
                &&& (#[trigger] self@[k][r][c]).moveable == old(self)@[k][r][c].moveable
                &&& self@[k][r][c].symmetric == old(self)@[k][r][c].symmetric
            } by {
                assert(has_shape(old(self)@[k], R as int, C as int));
            }
        }
        true
    }

    /// Gives the key at `p` the value `value`, and with it the mirror image
    /// of a key that is flagged symmetric.
    ///
    /// Nothing changes, and the answer is no, if there is no key at `p`, if
    /// the key is not moveable, or if its mirror image would have to change
    /// and is not moveable. A moveable key that is flagged symmetric while
    /// its mirror image is not is reported, with both positions.
    pub fn replace_value(&mut self, p: &LayoutPosition, value: Keycode) -> (res: Result<
        bool,
        KeyboardError,
    >)
        requires
            old(self).wf(),
        ensures
            final(self).wf(),
            breaks_pair(old(self)@, *p, R as int, C as int) ==> res == Err::<bool, KeyboardError>(
                KeyboardError::SymmetryError(
                    p.row_index,
                    p.col_index,
                    p.row_index,
                    (C - 1 - p.col_index) as usize,
                ),
            ),
            !breaks_pair(old(self)@, *p, R as int, C as int) ==> res == Ok::<bool, KeyboardError>(
                can_replace(old(self)@, *p, R as int, C as int),
            ),
            res == Ok::<bool, KeyboardError>(true) ==> final(self)@ == replaced(
                old(self)@,
                *p,
                value,
                C as int,
            ),
            res != Ok::<bool, KeyboardError>(true) ==> final(self)@ == old(self)@,
            same_flags(old(self)@, final(self)@, R as int, C as int),
            layers_in_step(old(self)@, R as int, C as int) ==> layers_in_step(
                final(self)@,
                R as int,
                C as int,
            ),
    {
        let key = match self.get(p) {
            Ok(key) => key,
            Err(_) => {
                return Ok(false);
            },
        };
        if !key.moveable {
            return Ok(false);
        }
        proof {
            assert(has_shape(old(self)@[p.layer_index as int], R as int, C as int));
        }
        if !key.symmetric {
            proof {
                if layers_in_step(old(self)@, R as int, C as int) {
                    lemma_value_keeps_step(old(self)@, *p, value, R as int, C as int);
                }
                assert(same_flags(
                    old(self)@,
                    with_value(old(self)@, *p, value),
                    R as int,
                    C as int,
                )) by {
                    assert forall|k: int, r: int, c: int|
                        0 <= k < old(self)@.len() && 0 <= r < R && 0 <= c < C implies {
                        &&& (#[trigger] with_value(old(self)@, *p, value)[k][r][c]).moveable
                            == old(self)@[k][r][c].moveable
                        &&& with_value(old(self)@, *p, value)[k][r][c].symmetric
                            == old(self)@[k][r][c].symmetric
                    } by {
                        assert(has_shape(old(self)@[k], R as int, C as int));
                    }
                }
            }
            let _ = self.set(p, KeycodeKey { value, ..key });
            return Ok(true);
        }
        let m = self.symmetric_position(*p);
        let partner = self.get(&m).unwrap();
        if !partner.symmetric {
            return Err(
                KeyboardError::SymmetryError(p.row_index, p.col_index, m.row_index, m.col_index),
            );
        }
        if !partner.moveable {
            return Ok(false);
        }
        proof {
            if layers_in_step(old(self)@, R as int, C as int) {
                lemma_pair_keeps_step(old(self)@, *p, value, R as int, C as int);
            }
        }
        let _ = self.set(p, KeycodeKey { value, ..key });
        let now = self.get(&m).unwrap();
        let _ = self.set(&m, KeycodeKey { value, ..now });
        assert(same_flags(old(self)@, self@, R as int, C as int)) by {
            assert forall|k: int, r: int, c: int|
                0 <= k < old(self)@.len() && 0 <= r < R && 0 <= c < C implies {
                &&& (#[trigger] self@[k][r][c]).moveable == old(self)@[k][r][c].moveable
                &&& self@[k][r][c].symmetric == old(self)@[k][r][c].symmetric
            } by {
                assert(has_shape(old(self)@[k], R as int, C as int));
            }
        }
        Ok(true)
    }

    /// The positions of the keys that a search may pick, in reading order:
    /// the moveable keys, or of these only the ones not flagged symmetric.
    pub fn eligible_positions(&self, unpaired_only: bool) -> (positions: Vec<LayoutPosition>)
        requires
            self.wf(),
        ensures
            lists_eligible(self@, positions@, unpaired_only, R as int, C as int),
    {
        let mut positions: Vec<LayoutPosition> = Vec::new();
        let n = self.num_layers();
        let mut k: usize = 0;
        while k < n
            invariant
                k <= n,
                n == self@.len(),
                self.wf(),
                listed_up_to(
                    self@,
                    positions@,
                    unpaired_only,
                    R as int,
                    C as int,
                    LayoutPosition { layer_index: k, row_index: 0, col_index: 0 },
                ),
            decreases n - k,
        {
            let mut r: usize = 0;
            while r < R
                invariant
                    k < n,
                    r <= R,
                    n == self@.len(),
                    self.wf(),
                    listed_up_to(
                        self@,
                        positions@,
                        unpaired_only,
                        R as int,
                        C as int,
                        LayoutPosition { layer_index: k, row_index: r, col_index: 0 },
                    ),
                decreases R - r,
            {
                let mut c: usize = 0;
                while c < C
                    invariant
                        k < n,
                        r < R,
                        c <= C,
                        n == self@.len(),
                        self.wf(),
                        listed_up_to(
                            self@,
                            positions@,
                            unpaired_only,
                            R as int,
                            C as int,
                            LayoutPosition { layer_index: k, row_index: r, col_index: c },
                        ),
                    decreases C - c,
                {
                    let here = LayoutPosition { layer_index: k, row_index: r, col_index: c };
                    let key = self.get(&here).unwrap();
                    let ghost before = positions@;
                    let ghost next = LayoutPosition {
                        layer_index: k,
                        row_index: r,
                        col_index: (c + 1) as usize,
                    };
                    if key.moveable && (!unpaired_only || !key.symmetric) {
                        positions.push(here);
                        proof {
                            assert(positions@.last() == here);
                            assert(positions@[before.len() as int] == here);
                            assert forall|p: LayoutPosition| positions@.contains(p) implies p
                                == here || before.contains(p) by {
                                let i = choose|i: int| 0 <= i < positions@.len() && positions@[i] == p;
                                if i < before.len() {
                                    assert(before[i] == p);
                                }
                            }
                            assert forall|p: LayoutPosition| before.contains(p) implies positions@.contains(
                                p,
                            ) by {
                                let i = choose|i: int| 0 <= i < before.len() && before[i] == p;
                                assert(positions@[i] == p);
                            }
                            assert forall|i: int, j: int| 0 <= i < j < positions@.len() implies reads_before(
                                #[trigger] positions@[i],
                                #[trigger] positions@[j],
                            ) by {
                                if j < before.len() {
                                    assert(reads_before(before[i], before[j]));
                                } else {
                                    assert(before[i] == positions@[i]);
                                    assert(before.contains(before[i]));
                                    assert(eligible(key_at(self@, before[i]), unpaired_only));
                                }
                            }
                        }
                    }
                    proof {
                        assert forall|p: LayoutPosition|
                            positions@.contains(p) <==> in_layout(self@, p, R as int, C as int)
                                && eligible(#[trigger] key_at(self@, p), unpaired_only)
                                && reads_before(p, next) by {
                            if p == here {
                                assert(key_at(self@, p) == key);
                            } else {
                                assert(reads_before(p, next) <==> reads_before(p, here));
                            }
                        }
                    }
                    c += 1;
                }
                proof {
                    let done = LayoutPosition { layer_index: k, row_index: r, col_index: C };
                    let next = LayoutPosition {
                        layer_index: k,
                        row_index: (r + 1) as usize,
                        col_index: 0,
                    };
                    assert forall|p: LayoutPosition|
                        in_layout(self@, p, R as int, C as int) implies (reads_before(p, done)
                        <==> reads_before(p, next)) by {}
                    assert forall|p: LayoutPosition|
                        positions@.contains(p) <==> in_layout(self@, p, R as int, C as int)
                            && eligible(#[trigger] key_at(self@, p), unpaired_only) && reads_before(
                            p,
                            next,
                        ) by {
                        if in_layout(self@, p, R as int, C as int) {
                            assert(reads_before(p, done) <==> reads_before(p, next));
                        }
                    }
                }
                r += 1;
            }
            proof {
                let done = LayoutPosition { layer_index: k, row_index: R, col_index: 0 };
                let next = LayoutPosition {
                    layer_index: (k + 1) as usize,
                    row_index: 0,
                    col_index: 0,
                };
                assert forall|p: LayoutPosition|
                    positions@.contains(p) <==> in_layout(self@, p, R as int, C as int) && eligible(
                        #[trigger] key_at(self@, p),
                        unpaired_only,
                    ) && reads_before(p, next) by {
                    if in_layout(self@, p, R as int, C as int) {
                        assert(reads_before(p, done) <==> reads_before(p, next));
                    }
                }
            }
            k += 1;
        }
        proof {
            let done = LayoutPosition { layer_index: n, row_index: 0, col_index: 0 };
            assert forall|p: LayoutPosition|
                positions@.contains(p) <==> in_layout(self@, p, R as int, C as int) && eligible(
                    #[trigger] key_at(self@, p),
                    unpaired_only,
                ) by {
                if in_layout(self@, p, R as int, C as int) {
                    assert(reads_before(p, done));
                }
            }
        }
        positions
    }

    /// Lets two different replaceable keys, picked at random, exchange their
    /// values, and says whether there were two such keys to pick.
    pub fn mutate_swap(&mut self, rng: &mut StdRng) -> (done: bool)
        requires
            old(self).wf(),
        ensures
            final(self).wf(),
            done <==> has_pair_to_swap(old(self)@, R as int, C as int),
            done ==> exists|a: LayoutPosition, b: LayoutPosition|
                a != b && can_swap(old(self)@, a, b, R as int, C as int) && final(self)@
                    == #[trigger] swapped(old(self)@, a, b),
            !done ==> final(self)@ == old(self)@,
            same_flags(old(self)@, final(self)@, R as int, C as int),
            layers_in_step(old(self)@, R as int, C as int) ==> layers_in_step(
                final(self)@,
                R as int,
                C as int,
            ),
    {
        let positions = self.eligible_positions(true);
        let first = match choose_one(rng, &positions) {
            Some(a) => a,
            None => {
                proof {
                    assert forall|a: LayoutPosition, b: LayoutPosition| a != b implies !#[trigger] can_swap(
                        self@,
                        a,
                        b,
                        R as int,
                        C as int,
                    ) by {
                        if can_swap(self@, a, b, R as int, C as int) {
                            assert(eligible(key_at(self@, a), true));
                            assert(positions@.contains(a));
                        }
                    }
                    assert(same_flags(self@, self@, R as int, C as int));
                }
                return false;
            },
        };
        let others = positions_other_than(&positions, first);
        let second = match choose_one(rng, &others) {
            Some(b) => b,
            None => {
                proof {
                    assert forall|a: LayoutPosition, b: LayoutPosition| a != b implies !#[trigger] can_swap(
                        self@,
                        a,
                        b,
                        R as int,
                        C as int,
                    ) by {
                        if can_swap(self@, a, b, R as int, C as int) {
                            assert(eligible(key_at(self@, a), true));
                            assert(eligible(key_at(self@, b), true));
                            assert(positions@.contains(a) && positions@.contains(b));
                            if a != first {
                                assert(others@.contains(a));
                            } else {
                                assert(others@.contains(b));
                            }
                        }
                    }
                    assert(same_flags(self@, self@, R as int, C as int));
                }
                return false;
            },
        };
        proof {
            assert(positions@.contains(first));
            assert(others@.contains(second));
            assert(positions@.contains(second) && second != first);
            assert(eligible(key_at(self@, first), true));
            assert(eligible(key_at(self@, second), true));
            assert(can_swap(self@, first, second, R as int, C as int));
        }
        self.swap_values(&first, &second)
    }

    /// Gives a moveable key, picked at random, a value picked at random from
    /// `candidates`, and says whether a key changed.
    ///
    /// Nothing changes without a moveable key or without candidates, nor if
    /// the pick is one of a symmetric pair whose other key is not moveable.
    /// A pick that is flagged symmetric while its mirror image is not is
    /// reported. So a key does change whenever there is a candidate and a
    /// moveable key, and every moveable key can take a value.
    pub fn mutate_replace(&mut self, rng: &mut StdRng, candidates: &Vec<Keycode>) -> (res: Result<
        bool,
        KeyboardError,
    >)
        requires
            old(self).wf(),
        ensures
            final(self).wf(),
            candidates@.len() == 0 || !has_moveable(old(self)@, R as int, C as int) ==> res == Ok::<
                bool,
                KeyboardError,
            >(false),
            candidates@.len() > 0 && has_moveable(old(self)@, R as int, C as int) && (forall|
                p: LayoutPosition,
            |
                in_layout(old(self)@, p, R as int, C as int) && (#[trigger] key_at(
                    old(self)@,
                    p,
                )).moveable ==> can_replace(old(self)@, p, R as int, C as int)) ==> res == Ok::<
                bool,
                KeyboardError,
            >(true),
            res == Ok::<bool, KeyboardError>(false) ==> candidates@.len() == 0 || !has_moveable(
                old(self)@,
                R as int,
                C as int,
            ) || exists|p: LayoutPosition| #[trigger] held(old(self)@, p, R as int, C as int),
            res == Ok::<bool, KeyboardError>(true) ==> exists|p: LayoutPosition, value: Keycode|
                can_replace(old(self)@, p, R as int, C as int) && candidates@.contains(value)
                    && final(self)@ == #[trigger] replaced(old(self)@, p, value, C as int),
            res != Ok::<bool, KeyboardError>(true) ==> final(self)@ == old(self)@,
            res is Err ==> exists|p: LayoutPosition| #[trigger]
                breaks_pair(old(self)@, p, R as int, C as int) && res == Err::<bool, KeyboardError>(
                    KeyboardError::SymmetryError(
                        p.row_index,
                        p.col_index,
                        p.row_index,
                        (C - 1 - p.col_index) as usize,
                    ),
                ),
            same_flags(old(self)@, final(self)@, R as int, C as int),
            layers_in_step(old(self)@, R as int, C as int) ==> layers_in_step(
                final(self)@,
                R as int,
                C as int,
            ),
    {
        let positions = self.eligible_positions(false);
        proof {
            if has_moveable(self@, R as int, C as int) {
                let p = choose|p: LayoutPosition|
                    in_layout(self@, p, R as int, C as int) && (#[trigger] key_at(self@, p)).moveable;
                assert(positions@.contains(p));
            }
        }
        let target = match choose_one(rng, &positions) {
            Some(p) => p,
            None => {
                assert(same_flags(self@, self@, R as int, C as int));
                return Ok(false);
            },
        };
        assert(positions@.contains(target));
        assert(in_layout(self@, target, R as int, C as int) && key_at(self@, target).moveable);
        let value = match choose_one(rng, candidates) {
            Some(value) => value,
            None => {
                assert(same_flags(self@, self@, R as int, C as int));
                return Ok(false);
            },
        };
        let res = self.replace_value(&target, value);
        proof {
            if res is Err {
                assert(breaks_pair(old(self)@, target, R as int, C as int));
            }
            if res == Ok::<bool, KeyboardError>(false) {
                assert(held(old(self)@, target, R as int, C as int));
            }
        }
        res
    }
}

/// Whether `positions` are the positions of the eligible keys before
/// `cursor` in reading order, in that order.
pub open spec fn listed_up_to(
    layers: Seq<Seq<Seq<KeycodeKey>>>,
    positions: Seq<LayoutPosition>,
    unpaired_only: bool,
    num_rows: int,
    num_columns: int,
    cursor: LayoutPosition,
) -> bool {
    &&& forall|p: LayoutPosition|
        positions.contains(p) <==> in_layout(layers, p, num_rows, num_columns) && eligible(
            #[trigger] key_at(layers, p),
            unpaired_only,
        ) && reads_before(p, cursor)
    &&& forall|i: int, j: int|
        0 <= i < j < positions.len() ==> reads_before(#[trigger] positions[i], #[trigger] positions[j])
}

} // verus!
