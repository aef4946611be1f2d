//! A layout: the layers of one keyboard, addressed together.

use vstd::prelude::*;
use rand::rngs::StdRng;
use crate::keyboard::error::{Failure, KeyboardError};
use crate::keyboard::grid::with_cell;
use crate::keyboard::key::KeycodeKey;
use crate::text_processor::keycode::Keycode;
use crate::keyboard::layer::{has_shape, mirrored, Layer};
use crate::keyboard::layer_text::parse_lines;
use crate::keyboard::randomize::{paired, randomize_outcome, redrawn_rows};
use crate::keyboard::LayoutPosition;
use crate::text::{chars_of, spells, split, split_at_char, views, words, words_of};

verus! {

/// The layers of a keyboard, each of `R` rows and `C` columns.
#[derive(Debug, PartialEq)]
pub struct Layout<const R: usize, const C: usize> {
    layers: Vec<Layer<R, C, KeycodeKey>>,
}

/// The word that starts the heading of a layer in a layout's text.
pub const LAYER_HEADING: &'static str = "___Layer";

/// Whether a line is the heading of a layer: its first word is the heading
/// word. What follows on the line, by custom the number of the layer and
/// three underscores, is not looked at.
pub open spec fn is_heading(line: Seq<char>) -> bool {
    words(line).len() > 0 && words(line)[0] == LAYER_HEADING@
}

/// The lines of each layer: those after its heading, up to the next heading.
/// Lines before the first heading belong to no layer.
pub open spec fn layer_blocks(lines: Seq<Seq<char>>) -> Seq<Seq<Seq<char>>>
    decreases lines.len(),
{
    if lines.len() == 0 {
        Seq::empty()
    } else {
        let before = layer_blocks(lines.drop_last());
        if is_heading(lines.last()) {
            before.push(Seq::empty())
        } else if before.len() == 0 {
            before
        } else {
            before.drop_last().push(before.last().push(lines.last()))
        }
    }
}

/// The layers that the blocks spell, or what is wrong with the first block
/// that spells none.
pub open spec fn parse_blocks(blocks: Seq<Seq<Seq<char>>>, num_rows: usize, num_columns: usize) -> Result<
    Seq<Seq<Seq<KeycodeKey>>>,
    Failure,
>
    decreases blocks.len(),
{
    if blocks.len() == 0 {
        Ok(Seq::empty())
    } else {
        match parse_blocks(blocks.drop_last(), num_rows, num_columns) {
            Err(failure) => Err(failure),
            Ok(layers) => match parse_lines(blocks.last(), num_rows, num_columns) {
                Err(failure) => Err(failure),
                Ok(layer) => Ok(layers.push(layer)),
            },
        }
    }
}

/// The layout that a text spells: after each heading line, the text of one
/// layer.
pub open spec fn parse_layout(text: Seq<char>, num_rows: usize, num_columns: usize) -> Result<
    Seq<Seq<Seq<KeycodeKey>>>,
    Failure,
> {
    parse_blocks(layer_blocks(split(text, '\n')), num_rows, num_columns)
}

/// Whether the layers have a cell at position `p`.
pub open spec fn in_layout(
    layers: Seq<Seq<Seq<KeycodeKey>>>,
    p: LayoutPosition,
    num_rows: int,
    num_columns: int,
) -> bool {
    p.layer_index < layers.len() && p.row_index < num_rows && p.col_index < num_columns
}

/// The key at position `p`.
pub open spec fn key_at(layers: Seq<Seq<Seq<KeycodeKey>>>, p: LayoutPosition) -> KeycodeKey {
    layers[p.layer_index as int][p.row_index as int][p.col_index as int]
}

/// The layers with the key at position `p` replaced.
pub open spec fn with_key(layers: Seq<Seq<Seq<KeycodeKey>>>, p: LayoutPosition, key: KeycodeKey) -> Seq<
    Seq<Seq<KeycodeKey>>,
> {
    layers.update(
        p.layer_index as int,
        with_cell(layers[p.layer_index as int], p.row_index as int, p.col_index as int, key),
    )
}

/// The lines of each block.
pub open spec fn block_views(blocks: Seq<Vec<Vec<char>>>) -> Seq<Seq<Seq<char>>> {
    Seq::new(blocks.len(), |i: int| views(blocks[i]@))
}

/// Whether layer `k` is the first that breaks the pairing of symmetric keys.
pub open spec fn first_unpaired_layer(
    layers: Seq<Seq<Seq<KeycodeKey>>>,
    num_rows: int,
    num_columns: int,
    k: int,
) -> bool {
    &&& 0 <= k < layers.len()
    &&& !paired(layers[k], num_rows, num_columns)
    &&& forall|j: int| 0 <= j < k ==> paired(#[trigger] layers[j], num_rows, num_columns)
}

/// Whether `after` can come of randomizing the layers of `before` in turn
/// and stopping at layer `stop`, where the randomization ended in `res`.
pub open spec fn redrawn_layers(
    before: Seq<Seq<Seq<KeycodeKey>>>,
    after: Seq<Seq<Seq<KeycodeKey>>>,
    candidates: Seq<Keycode>,
    res: Result<(), KeyboardError>,
    stop: int,
    num_rows: int,
    num_columns: int,
) -> bool {
    &&& after.len() == before.len()
    &&& forall|j: int|
        0 <= j < before.len() && j < stop ==> redrawn_rows(
            before[j],
            #[trigger] after[j],
            candidates,
            Ok(()),
            num_rows,
            num_columns,
        )
    &&& 0 <= stop < before.len() ==> redrawn_rows(
        before[stop],
        after[stop],
        candidates,
        res,
        num_rows,
        num_columns,
    )
    &&& forall|j: int| stop < j < before.len() ==> #[trigger] after[j] == before[j]
}

/// Whether a line is the heading of a layer.
pub fn heads_layer(line: &Vec<char>) -> (b: bool)
    ensures
        b == is_heading(line@),
{
    let ws = words_of(line);
    if ws.len() == 0 {
        return false;
    }
    assert(views(ws@)[0] == ws@[0]@);
    spells(&ws[0], LAYER_HEADING)
}

/// Groups the lines of a layout's text by layer.
pub fn blocks_of(lines: &Vec<Vec<char>>) -> (blocks: Vec<Vec<Vec<char>>>)
    ensures
        block_views(blocks@) == layer_blocks(views(lines@)),
{
    let mut blocks: Vec<Vec<Vec<char>>> = Vec::new();
    let mut i: usize = 0;
    assert(block_views(blocks@) =~= Seq::empty());
    assert(views(lines@).take(0) =~= Seq::<Seq<char>>::empty());
    while i < lines.len()
        invariant
            i <= lines.len(),
            block_views(blocks@) == layer_blocks(views(lines@).take(i as int)),
        decreases lines.len() - i,
    {
        proof {
            let done = views(lines@).take(i + 1);
            assert(done.drop_last() =~= views(lines@).take(i as int));
            assert(done.last() == lines@[i as int]@);
        }
        let ghost before = block_views(blocks@);
        if heads_layer(&lines[i]) {
            blocks.push(Vec::new());
            assert(views(blocks@.last()@) =~= Seq::empty());
            assert(block_views(blocks@) =~= before.push(Seq::empty()));
        } else if blocks.len() > 0 {
            let mut block = blocks.pop().unwrap();
            assert(block_views(blocks@) =~= before.drop_last());
            assert(views(block@) == before.last());
            let ghost old_block = views(block@);
            block.push(lines[i].clone());
            assert(views(block@) =~= old_block.push(lines@[i as int]@));
            let ghost popped = block_views(blocks@);
            blocks.push(block);
            assert(block_views(blocks@) =~= popped.push(views(blocks@.last()@)));
        }
        i += 1;
    }
    assert(views(lines@).take(lines@.len() as int) =~= views(lines@));
    blocks
}

impl<const R: usize, const C: usize> Layout<R, C> {
    /// The layers in order, each as its rows.
    pub closed spec fn view(&self) -> Seq<Seq<Seq<KeycodeKey>>> {
        Seq::new(self.layers@.len(), |i: int| self.layers@[i]@)
    }

    /// Every layer has exactly `R` rows of `C` cells. Every layout that this
    /// library hands out has that, and no operation changes it.
    pub open spec fn wf(&self) -> bool {
        forall|i: int| 0 <= i < self@.len() ==> has_shape(#[trigger] self@[i], R as int, C as int)
    }

    /// A layout of the given layers.
    pub fn from_layers(layers: Vec<Layer<R, C, KeycodeKey>>) -> (layout: Self)
        requires
            forall|i: int| 0 <= i < layers@.len() ==> (#[trigger] layers@[i]).wf(),
        ensures
            layout.wf(),
            layout@.len() == layers@.len(),
            forall|i: int| 0 <= i < layers@.len() ==> #[trigger] layout@[i] == layers@[i]@,
    {
        Layout { layers }
    }

    /// The number of layers.
    pub fn num_layers(&self) -> (n: usize)
        ensures
            n == self@.len(),
    {
        self.layers.len()
    }

    /// The key at a position of the layout.
    pub fn get(&self, l: &LayoutPosition) -> (res: Result<KeycodeKey, KeyboardError>)
        requires
            self.wf(),
        ensures
            l.layer_index >= self@.len() ==> res == Err::<KeycodeKey, KeyboardError>(
                KeyboardError::LayerOutOfBounds(l.layer_index, self@.len() as usize),
            ),
            l.layer_index < self@.len() && !(l.row_index < R && l.col_index < C) ==> res == Err::<
                KeycodeKey,
                KeyboardError,
            >(KeyboardError::IndicesOutOfBounds(l.row_index, l.col_index)),
            l.layer_index < self@.len() && l.row_index < R && l.col_index < C ==> res == Ok::<
                KeycodeKey,
                KeyboardError,
            >(key_at(self@, *l)),
    {
        if l.layer_index >= self.layers.len() {
            return Err(KeyboardError::LayerOutOfBounds(l.layer_index, self.layers.len()));
        }
        assert(self@[l.layer_index as int] == self.layers@[l.layer_index as int]@);
        self.layers[l.layer_index].get_from_layout_position(l)
    }

    /// Puts `key` at a position of the layout.
    pub fn set(&mut self, l: &LayoutPosition, key: KeycodeKey) -> (res: Result<(), KeyboardError>)
        requires
            old(self).wf(),
        ensures
            final(self).wf(),
            l.layer_index >= old(self)@.len() ==> res == Err::<(), KeyboardError>(
                KeyboardError::LayerOutOfBounds(l.layer_index, old(self)@.len() as usize),
            ) && final(self)@ == old(self)@,
            l.layer_index < old(self)@.len() && !(l.row_index < R && l.col_index < C) ==> res
                == Err::<(), KeyboardError>(
                KeyboardError::IndicesOutOfBounds(l.row_index, l.col_index),
            ) && final(self)@ == old(self)@,
            in_layout(old(self)@, *l, R as int, C as int) ==> res == Ok::<(), KeyboardError>(())
                && final(self)@ == with_key(old(self)@, *l, key),
    {
        if l.layer_index >= self.layers.len() {
            return Err(KeyboardError::LayerOutOfBounds(l.layer_index, self.layers.len()));
        }
        let ghost before = self@;
        assert(before[l.layer_index as int] == self.layers@[l.layer_index as int]@);
        let res = self.layers[l.layer_index].set(l.row_index, l.col_index, key);
        proof {
            assert(self@[l.layer_index as int] == self.layers@[l.layer_index as int]@);
            if res is Ok {
                assert(self@ =~= with_key(before, *l, key));
            } else {
                assert(self@ =~= before);
            }
        }
        res
    }

    /// The position that mirrors `l` left to right, on the same layer.
    pub fn symmetric_position(&self, l: LayoutPosition) -> (m: LayoutPosition)
        requires
            l.col_index < C,
        ensures
            m == mirrored(l, C as int),
    {
        LayoutPosition {
            layer_index: l.layer_index,
            row_index: l.row_index,
            col_index: (C - 1) - l.col_index,
        }
    }

    /// Randomizes the layers in turn, and stops at the first that breaks the
    /// pairing of symmetric keys.
    pub fn randomize(&mut self, rng: &mut StdRng, valid_keycodes: &Vec<Keycode>) -> (res: Result<
        (),
        KeyboardError,
    >)
        requires
            old(self).wf(),
        ensures
            final(self).wf(),
            res is Ok <==> forall|k: int|
                0 <= k < old(self)@.len() ==> paired(#[trigger] old(self)@[k], R as int, C as int),
            res is Ok ==> redrawn_layers(
                old(self)@,
                final(self)@,
                valid_keycodes@,
                res,
                old(self)@.len() as int,
                R as int,
                C as int,
            ),
            forall|k: int| #[trigger]
                first_unpaired_layer(old(self)@, R as int, C as int, k) ==> randomize_outcome(
                    old(self)@[k],
                    R as int,
                    C as int,
                    res,
                ) && redrawn_layers(
                    old(self)@,
                    final(self)@,
                    valid_keycodes@,
                    res,
                    k,
                    R as int,
                    C as int,
                ),
    {
        let mut k: usize = 0;
        while k < self.layers.len()
            invariant
                k <= self.layers@.len(),
                self.wf(),
                old(self).wf(),
                self@.len() == old(self)@.len(),
                forall|j: int| 0 <= j < k ==> paired(#[trigger] old(self)@[j], R as int, C as int),
                forall|j: int|
                    0 <= j < k ==> redrawn_rows(
                        old(self)@[j],
                        #[trigger] self@[j],
                        valid_keycodes@,
                        Ok(()),
                        R as int,
                        C as int,
                    ),
                forall|j: int| k <= j < self@.len() ==> #[trigger] self@[j] == old(self)@[j],
            decreases self.layers@.len() - k,
        {
            let ghost before = self@;
            assert(before[k as int] == self.layers@[k as int]@);
            assert(has_shape(before[k as int], R as int, C as int));
            let res = self.layers[k].randomize(rng, valid_keycodes.clone());
            proof {
                assert(self@.len() == before.len());
                assert(self@[k as int] == self.layers@[k as int]@);
                assert forall|j: int| 0 <= j < self@.len() && j != k implies #[trigger] self@[j]
                    == before[j] by {}
            }
            if res.is_err() {
                proof {
                    assert(first_unpaired_layer(old(self)@, R as int, C as int, k as int));
                    assert forall|q: int| #[trigger]
                        first_unpaired_layer(old(self)@, R as int, C as int, q) implies q == k by {
                        if q < k {
                            assert(paired(old(self)@[q], R as int, C as int));
                        } else if k < q {
                            assert(paired(old(self)@[k as int], R as int, C as int));
                        }
                    }
                }
                return res;
            }
            k += 1;
        }
        Ok(())
    }

    /// Reads a layout from its text: after each heading line, the lines of
    /// one layer.
    pub fn try_from(layout_string: &str) -> (res: Result<Self, KeyboardError>)
        ensures
            match parse_layout(layout_string@, R, C) {
                Ok(layers) => res is Ok && res.unwrap().wf() && res.unwrap()@ == layers,
                Err(failure) => res is Err && res.unwrap_err()@ == failure,
            },
    {
        let text = chars_of(layout_string);
        let blocks = blocks_of(&split_at_char(&text, '\n'));
        let mut layers: Vec<Layer<R, C, KeycodeKey>> = Vec::new();
        let ghost mut parsed: Seq<Seq<Seq<KeycodeKey>>> = Seq::empty();
        let mut i: usize = 0;
        assert(block_views(blocks@).take(0) =~= Seq::<Seq<Seq<char>>>::empty());
        while i < blocks.len()
            invariant
                i <= blocks.len(),
                block_views(blocks@) == layer_blocks(split(layout_string@, '\n')),
                parse_blocks(block_views(blocks@).take(i as int), R, C) == Ok::<
                    Seq<Seq<Seq<KeycodeKey>>>,
                    Failure,
                >(parsed),
                parsed.len() == layers@.len(),
                forall|j: int|
                    0 <= j < layers@.len() ==> (#[trigger] layers@[j]).wf() && layers@[j]@
                        == parsed[j],
            decreases blocks.len() - i,
        {
            proof {
                let done = block_views(blocks@).take(i + 1);
                assert(done.drop_last() =~= block_views(blocks@).take(i as int));
                assert(done.last() == views(blocks@[i as int]@));
                lemma_parse_blocks_prefix(block_views(blocks@), R, C, i + 1);
            }
            match Layer::<R, C, KeycodeKey>::from_lines(&blocks[i]) {
                Ok(layer) => {
                    proof {
                        parsed = parsed.push(layer@);
                    }
                    layers.push(layer);
                },
                Err(e) => {
                    return Err(e);
                },
            }
            i += 1;
        }
        assert(block_views(blocks@).take(blocks@.len() as int) =~= block_views(blocks@));
        let layout = Layout { layers };
        assert(layout@ =~= parsed);
        Ok(layout)
    }
}

impl<const R: usize, const C: usize> Clone for Layout<R, C> {
    /// A layout with the same keys.
    fn clone(&self) -> (res: Self)
        ensures
            res@ == self@,
    {
        let mut layers: Vec<Layer<R, C, KeycodeKey>> = Vec::new();
        let mut i: usize = 0;
        while i < self.layers.len()
            invariant
                i <= self.layers@.len(),
                layers@.len() == i,
                forall|j: int| 0 <= j < i ==> (#[trigger] layers@[j])@ == self.layers@[j]@,
            decreases self.layers@.len() - i,
        {
            layers.push(self.layers[i].clone());
            i += 1;
        }
        let res = Layout { layers };
        assert(res@ =~= self@);
        res
    }
}

/// A fault among the first blocks is the fault of them all.
pub proof fn lemma_parse_blocks_prefix(
    blocks: Seq<Seq<Seq<char>>>,
    num_rows: usize,
    num_columns: usize,
    n: int,
)
    requires
        0 <= n <= blocks.len(),
    ensures
        parse_blocks(blocks.take(n), num_rows, num_columns) is Err ==> parse_blocks(
            blocks,
            num_rows,
            num_columns,
        ) == parse_blocks(blocks.take(n), num_rows, num_columns),
    decreases blocks.len(),
{
    if n < blocks.len() {
        assert(blocks.drop_last().take(n) =~= blocks.take(n));
        lemma_parse_blocks_prefix(blocks.drop_last(), num_rows, num_columns, n);
    } else {
        assert(blocks.take(n) =~= blocks);
    }
}

} // verus!
