//! Layers as text: the tokens that spell a layer, and the tables that show
//! one.

use vstd::prelude::*;
use crate::keyboard::error::{Failure, KeyboardError};
use crate::keyboard::grid::row_views;
use crate::keyboard::key::{token_key, KeycodeKey};
use crate::keyboard::layer::{has_shape, Layer};
use crate::text::{
    blank, chars_of, decimal, decimal_of, is_blank, pad_left, pad_right, push_chars,
    push_padded_left, push_padded_right, push_spaces, spaces, split, split_at_char, string_of,
    views, words, words_of,
};

verus! {

/// The keys that the tokens spell, or the first token that spells none.
pub open spec fn parse_tokens(tokens: Seq<Seq<char>>) -> Result<Seq<KeycodeKey>, Failure>
    decreases tokens.len(),
{
    if tokens.len() == 0 {
        Ok(Seq::empty())
    } else {
        match parse_tokens(tokens.drop_last()) {
            Err(failure) => Err(failure),
            Ok(keys) => match token_key(tokens.last()) {
                None => Err(Failure::InvalidKey(tokens.last())),
                Some(key) => Ok(keys.push(key)),
            },
        }
    }
}

/// The keys of one line of a layer text: its words must be `num_columns`
/// tokens.
pub open spec fn parse_row(line: Seq<char>, num_columns: usize) -> Result<Seq<KeycodeKey>, Failure> {
    let tokens = words(line);
    if tokens.len() != num_columns {
        Err(Failure::ColMismatch(num_columns, tokens.len() as usize))
    } else {
        parse_tokens(tokens)
    }
}

/// The rows that the lines spell, or what is wrong with the first line that
/// spells none.
pub open spec fn parse_rows(lines: Seq<Seq<char>>, num_columns: usize) -> Result<
    Seq<Seq<KeycodeKey>>,
    Failure,
>
    decreases lines.len(),
{
    if lines.len() == 0 {
        Ok(Seq::empty())
    } else {
        match parse_rows(lines.drop_last(), num_columns) {
            Err(failure) => Err(failure),
            Ok(rows) => match parse_row(lines.last(), num_columns) {
                Err(failure) => Err(failure),
                Ok(row) => Ok(rows.push(row)),
            },
        }
    }
}

/// The lines that count: those that are not blank.
pub open spec fn row_lines(lines: Seq<Seq<char>>) -> Seq<Seq<char>> {
    lines.filter(|line: Seq<char>| !blank(line))
}

/// The layer that the lines spell: `num_rows` lines that are not blank, each
/// of `num_columns` key tokens between white space.
///
/// A wrong number of lines is reported before anything else. After that the
/// lines are read from the top, each from the left, and the first fault wins:
/// a line with a wrong number of tokens, or a token that spells no key.
pub open spec fn parse_lines(lines: Seq<Seq<char>>, num_rows: usize, num_columns: usize) -> Result<
    Seq<Seq<KeycodeKey>>,
    Failure,
> {
    let rows = row_lines(lines);
    if rows.len() != num_rows {
        Err(Failure::RowMismatch(num_rows, rows.len() as usize))
    } else {
        parse_rows(rows, num_columns)
    }
}

/// The layer that a text spells: its lines are what stands between line
/// feeds.
pub open spec fn parse_layer(text: Seq<char>, num_rows: usize, num_columns: usize) -> Result<
    Seq<Seq<KeycodeKey>>,
    Failure,
> {
    parse_lines(split(text, '\n'), num_rows, num_columns)
}

/// The lines among `pieces` that are not blank.
pub fn row_lines_of(pieces: &Vec<Vec<char>>) -> (lines: Vec<Vec<char>>)
    ensures
        views(lines@) == row_lines(views(pieces@)),
{
    let mut lines: Vec<Vec<char>> = Vec::new();
    let ghost keep = |line: Seq<char>| !blank(line);
    let mut i: usize = 0;
    while i < pieces.len()
        invariant
            i <= pieces.len(),
            keep == |line: Seq<char>| !blank(line),
            views(lines@) == views(pieces@).take(i as int).filter(keep),
        decreases pieces.len() - i,
    {
        proof {
            let done = views(pieces@).take(i + 1);
            assert(done.drop_last() =~= views(pieces@).take(i as int));
            assert(done.last() == pieces@[i as int]@);
            reveal(Seq::filter);
        }
        if !is_blank(&pieces[i]) {
            let ghost before = views(lines@);
            lines.push(pieces[i].clone());
            assert(views(lines@) =~= before.push(pieces@[i as int]@));
        }
        i += 1;
    }
    assert(views(pieces@).take(pieces@.len() as int) =~= views(pieces@));
    lines
}

/// The keys that the tokens spell.
pub fn keys_of_tokens(tokens: &Vec<Vec<char>>) -> (res: Result<Vec<KeycodeKey>, KeyboardError>)
    ensures
        match parse_tokens(views(tokens@)) {
            Ok(keys) => res is Ok && res.unwrap()@ == keys,
            Err(failure) => res is Err && res.unwrap_err()@ == failure,
        },
{
    let mut keys: Vec<KeycodeKey> = Vec::new();
    let mut j: usize = 0;
    assert(views(tokens@).take(0).len() == 0);
    while j < tokens.len()
        invariant
            j <= tokens.len(),
            parse_tokens(views(tokens@).take(j as int)) == Ok::<Seq<KeycodeKey>, Failure>(keys@),
        decreases tokens.len() - j,
    {
        proof {
            let done = views(tokens@).take(j + 1);
            assert(done.drop_last() =~= views(tokens@).take(j as int));
            assert(done.last() == tokens@[j as int]@);
            lemma_parse_tokens_prefix(views(tokens@), j + 1);
        }
        match KeycodeKey::from_token(&tokens[j]) {
            Some(key) => {
                keys.push(key);
            },
            None => {
                return Err(KeyboardError::InvalidKeyFromString(string_of(&tokens[j])));
            },
        }
        j += 1;
    }
    assert(views(tokens@).take(tokens@.len() as int) =~= views(tokens@));
    Ok(keys)
}

/// As many keys are spelled as there are tokens.
pub proof fn lemma_parse_tokens_len(tokens: Seq<Seq<char>>)
    ensures
        parse_tokens(tokens) matches Ok(keys) ==> keys.len() == tokens.len(),
    decreases tokens.len(),
{
    if tokens.len() > 0 {
        lemma_parse_tokens_len(tokens.drop_last());
    }
}

/// A text with another number of lines that count than the layer has rows
/// spells no layer, whatever the lines hold: the two numbers are reported.
pub proof fn lemma_wrong_row_count(text: Seq<char>, num_rows: usize, num_columns: usize)
    requires
        row_lines(split(text, '\n')).len() != num_rows,
    ensures
        parse_layer(text, num_rows, num_columns) == Err::<Seq<Seq<KeycodeKey>>, Failure>(
            Failure::RowMismatch(num_rows, row_lines(split(text, '\n')).len() as usize),
        ),
{
}

/// A line with another number of tokens than the layer has columns spells
/// no row: if the number of lines is right and the lines before it spell
/// rows, the two numbers are reported.
pub proof fn lemma_wrong_column_count(
    text: Seq<char>,
    num_rows: usize,
    num_columns: usize,
    line: int,
)
    requires
        row_lines(split(text, '\n')).len() == num_rows,
        0 <= line < num_rows,
        words(row_lines(split(text, '\n'))[line]).len() != num_columns,
        parse_rows(row_lines(split(text, '\n')).take(line), num_columns) is Ok,
    ensures
        parse_layer(text, num_rows, num_columns) == Err::<Seq<Seq<KeycodeKey>>, Failure>(
            Failure::ColMismatch(
                num_columns,
                words(row_lines(split(text, '\n'))[line]).len() as usize,
            ),
        ),
{
    let lines = row_lines(split(text, '\n'));
    let upto = lines.take(line + 1);
    assert(upto.drop_last() =~= lines.take(line));
    assert(upto.last() == lines[line]);
    lemma_parse_rows_prefix(lines, num_columns, line + 1);
}

/// A text in which some line has another number of tokens than the layer
/// has columns spells no layer.
pub proof fn lemma_odd_line_spells_no_layer(
    text: Seq<char>,
    num_rows: usize,
    num_columns: usize,
    line: int,
)
    requires
        0 <= line < row_lines(split(text, '\n')).len(),
        words(row_lines(split(text, '\n'))[line]).len() != num_columns,
    ensures
        parse_layer(text, num_rows, num_columns) is Err,
{
    let lines = row_lines(split(text, '\n'));
    if lines.len() == num_rows {
        let upto = lines.take(line + 1);
        assert(upto.drop_last() =~= lines.take(line));
        assert(upto.last() == lines[line]);
        lemma_parse_rows_prefix(lines, num_columns, line + 1);
    }
}

/// A fault among the first tokens is the fault of them all.
pub proof fn lemma_parse_tokens_prefix(tokens: Seq<Seq<char>>, n: int)
    requires
        0 <= n <= tokens.len(),
    ensures
        parse_tokens(tokens.take(n)) is Err ==> parse_tokens(tokens) == parse_tokens(
            tokens.take(n),
        ),
    decreases tokens.len(),
{
    if n < tokens.len() {
        assert(tokens.drop_last().take(n) =~= tokens.take(n));
        lemma_parse_tokens_prefix(tokens.drop_last(), n);
    } else {
        assert(tokens.take(n) =~= tokens);
    }
}

/// A fault among the first lines is the fault of them all.
pub proof fn lemma_parse_rows_prefix(lines: Seq<Seq<char>>, num_columns: usize, n: int)
    requires
        0 <= n <= lines.len(),
    ensures
        parse_rows(lines.take(n), num_columns) is Err ==> parse_rows(lines, num_columns)
            == parse_rows(lines.take(n), num_columns),
    decreases lines.len(),
{
    if n < lines.len() {
        assert(lines.drop_last().take(n) =~= lines.take(n));
        lemma_parse_rows_prefix(lines.drop_last(), num_columns, n);
    } else {
        assert(lines.take(n) =~= lines);
    }
}

/// How a cell is shown: its token in a table of bits, else the name of its
/// value, with spaces after it up to the width of a column.
pub open spec fn cell_text(key: KeycodeKey, bits: bool) -> Seq<char> {
    if bits {
        pad_right(key.token_text(), 6)
    } else {
        pad_right(key.spec_value_name(), 3)
    }
}

/// The spaces between two column heads.
pub open spec fn head_gap(bits: bool) -> nat {
    if bits {
        4
    } else {
        1
    }
}

/// The numbers of the first `n` columns, each three characters wide or
/// more and followed by the gap.
pub open spec fn heads_text(n: nat, bits: bool) -> Seq<char>
    decreases n,
{
    if n == 0 {
        Seq::empty()
    } else {
        heads_text((n - 1) as nat, bits) + pad_left(decimal((n - 1) as nat), 3) + spaces(
            head_gap(bits),
        )
    }
}

/// A dash under each of the first `n` column heads.
pub open spec fn rules_text(n: nat, bits: bool) -> Seq<char>
    decreases n,
{
    if n == 0 {
        Seq::empty()
    } else {
        rules_text((n - 1) as nat, bits) + pad_left(seq!['-'], 3) + spaces(head_gap(bits))
    }
}

/// The cells of a row, each followed by a space.
pub open spec fn cells_text(row: Seq<KeycodeKey>, bits: bool) -> Seq<char>
    decreases row.len(),
{
    if row.len() == 0 {
        Seq::empty()
    } else {
        cells_text(row.drop_last(), bits) + cell_text(row.last(), bits) + seq![' ']
    }
}

/// The rows of a table, one to a line: the row's number, a bar, its cells.
pub open spec fn rows_text(rows: Seq<Seq<KeycodeKey>>, bits: bool) -> Seq<char>
    decreases rows.len(),
{
    if rows.len() == 0 {
        Seq::empty()
    } else {
        rows_text(rows.drop_last(), bits) + decimal((rows.len() - 1) as nat) + seq!['|']
            + cells_text(rows.last(), bits) + seq!['\n']
    }
}

/// A layer as a table: a line of column numbers, a line of dashes under
/// them, then the rows.
pub open spec fn table_text(rows: Seq<Seq<KeycodeKey>>, num_columns: nat, bits: bool) -> Seq<char> {
    seq![' ', ' '] + heads_text(num_columns, bits) + seq!['\n'] + seq![' ', ' '] + rules_text(
        num_columns,
        bits,
    ) + seq!['\n'] + rows_text(rows, bits)
}

/// The tokens of a row, each followed by a space.
pub open spec fn tokens_line(row: Seq<KeycodeKey>) -> Seq<char>
    decreases row.len(),
{
    if row.len() == 0 {
        Seq::empty()
    } else {
        tokens_line(row.drop_last()) + row.last().token_text() + seq![' ']
    }
}

/// A layer as the text that spells it: the tokens of each row on a line of
/// their own.
pub open spec fn tokens_text(rows: Seq<Seq<KeycodeKey>>) -> Seq<char>
    decreases rows.len(),
{
    if rows.len() == 0 {
        Seq::empty()
    } else {
        tokens_text(rows.drop_last()) + tokens_line(rows.last()) + seq!['\n']
    }
}

impl<const R: usize, const C: usize> Layer<R, C, KeycodeKey> {
    /// Reads a layer from its text: one line for each row, one key token for
    /// each cell; blank lines and the white space around tokens do not count.
    pub fn try_from(layer_string: &str) -> (res: Result<Self, KeyboardError>)
        ensures
            match parse_layer(layer_string@, R, C) {
                Ok(rows) => res is Ok && res.unwrap().wf() && res.unwrap()@ == rows,
                Err(failure) => res is Err && res.unwrap_err()@ == failure,
            },
    {
        let text = chars_of(layer_string);
        Self::from_lines(&split_at_char(&text, '\n'))
    }

    /// Reads a layer from the lines of its text.
    pub fn from_lines(text_lines: &Vec<Vec<char>>) -> (res: Result<Self, KeyboardError>)
        ensures
            match parse_lines(views(text_lines@), R, C) {
                Ok(rows) => res is Ok && res.unwrap().wf() && res.unwrap()@ == rows,
                Err(failure) => res is Err && res.unwrap_err()@ == failure,
            },
    {
        let lines = row_lines_of(text_lines);
        if lines.len() != R {
            return Err(KeyboardError::RowMismatchError(R, lines.len()));
        }
        let mut rows: Vec<Vec<KeycodeKey>> = Vec::new();
        let mut i: usize = 0;
        assert(row_views(rows@) =~= Seq::empty());
        while i < lines.len()
            invariant
                i <= lines.len(),
                lines@.len() == R,
                views(lines@) == row_lines(views(text_lines@)),
                parse_rows(views(lines@).take(i as int), C) == Ok::<Seq<Seq<KeycodeKey>>, Failure>(
                    row_views(rows@),
                ),
                has_shape(row_views(rows@), i as int, C as int),
            decreases lines.len() - i,
        {
            proof {
                let done = views(lines@).take(i + 1);
                assert(done.drop_last() =~= views(lines@).take(i as int));
                assert(done.last() == lines@[i as int]@);
                lemma_parse_rows_prefix(views(lines@), C, i + 1);
            }
            let tokens = words_of(&lines[i]);
            if tokens.len() != C {
                return Err(KeyboardError::ColMismatchError(C, tokens.len()));
            }
            let ghost before = row_views(rows@);
            match keys_of_tokens(&tokens) {
                Ok(keys) => {
                    proof {
                        lemma_parse_tokens_len(views(tokens@));
                    }
                    rows.push(keys);
                },
                Err(e) => {
                    return Err(e);
                },
            }
            assert(row_views(rows@) =~= before.push(rows@.last()@));
            i += 1;
        }
        assert(views(lines@).take(lines@.len() as int) =~= views(lines@));
        Self::from_rows(rows.as_slice())
    }

    /// The layer as a table of key names, or of key tokens if `bits` is set.
    fn table(&self, bits: bool) -> (out: Vec<char>)
        requires
            self.wf(),
        ensures
            out@ == table_text(self@, C as nat, bits),
    {
        let gap: usize = if bits {
            4
        } else {
            1
        };
        let mut dash: Vec<char> = Vec::new();
        dash.push('-');
        assert(dash@ =~= seq!['-']);
        let mut out: Vec<char> = Vec::new();
        out.push(' ');
        out.push(' ');
        let ghost start = out@;
        assert(start =~= seq![' ', ' ']);
        let mut k: usize = 0;
        assert(out@ =~= start + heads_text(0, bits));
        while k < C
            invariant
                k <= C,
                gap == head_gap(bits),
                out@ == start + heads_text(k as nat, bits),
            decreases C - k,
        {
            let ghost before = out@;
            push_padded_left(&mut out, &decimal_of(k), 3);
            push_spaces(&mut out, gap);
            k += 1;
            assert(out@ =~= start + heads_text(k as nat, bits));
        }
        out.push('\n');
        out.push(' ');
        out.push(' ');
        let ghost start = out@;
        assert(start =~= seq![' ', ' '] + heads_text(C as nat, bits) + seq!['\n'] + seq![' ', ' ']);
        let mut k: usize = 0;
        assert(out@ =~= start + rules_text(0, bits));
        while k < C
            invariant
                k <= C,
                gap == head_gap(bits),
                dash@ == seq!['-'],
                out@ == start + rules_text(k as nat, bits),
            decreases C - k,
        {
            push_padded_left(&mut out, &dash, 3);
            push_spaces(&mut out, gap);
            k += 1;
            assert(out@ =~= start + rules_text(k as nat, bits));
        }
        out.push('\n');
        let ghost start = out@;
        assert(start =~= seq![' ', ' '] + heads_text(C as nat, bits) + seq!['\n'] + seq![' ', ' ']
            + rules_text(C as nat, bits) + seq!['\n']);
        let mut i: usize = 0;
        assert(self@.take(0) =~= Seq::<Seq<KeycodeKey>>::empty());
        assert(out@ =~= start + rows_text(self@.take(0), bits));
        while i < R
            invariant
                i <= R,
                self.wf(),
                out@ == start + rows_text(self@.take(i as int), bits),
            decreases R - i,
        {
            let ghost row_start = out@;
            push_chars(&mut out, &decimal_of(i));
            out.push('|');
            let ghost cells_start = out@;
            let mut j: usize = 0;
            assert(self@[i as int].take(0) =~= Seq::<KeycodeKey>::empty());
            assert(out@ =~= cells_start + cells_text(self@[i as int].take(0), bits));
            while j < C
                invariant
                    i < R,
                    j <= C,
                    self.wf(),
                    out@ == cells_start + cells_text(self@[i as int].take(j as int), bits),
                decreases C - j,
            {
                let key = self.get(i, j).unwrap();
                if bits {
                    push_padded_right(&mut out, &key.token(), 6);
                } else {
                    push_padded_right(&mut out, &key.value_name(), 3);
                }
                out.push(' ');
                proof {
                    let done = self@[i as int].take(j + 1);
                    assert(done.drop_last() =~= self@[i as int].take(j as int));
                    assert(done.last() == key);
                    assert(out@ =~= cells_start + cells_text(done, bits));
                }
                j += 1;
            }
            out.push('\n');
            proof {
                assert(self@[i as int].take(C as int) =~= self@[i as int]);
                let done = self@.take(i + 1);
                assert(done.drop_last() =~= self@.take(i as int));
                assert(done.last() == self@[i as int]);
                assert(out@ =~= start + rows_text(done, bits));
            }
            i += 1;
        }
        assert(self@.take(R as int) =~= self@);
        out
    }

    /// The layer as a table of key names: a line of column numbers, a line
    /// of dashes, then each row after its number.
    pub fn to_text(&self) -> (text: String)
        requires
            self.wf(),
        ensures
            text@ == table_text(self@, C as nat, false),
    {
        string_of(&self.table(false))
    }

    /// The layer as a table of key tokens, which show the flags of each key.
    pub fn to_binary_text(&self) -> (text: String)
        requires
            self.wf(),
        ensures
            text@ == table_text(self@, C as nat, true),
    {
        string_of(&self.table(true))
    }

    /// The text that spells the layer: the tokens of each row on a line.
    pub fn to_tokens(&self) -> (text: String)
        requires
            self.wf(),
        ensures
            text@ == tokens_text(self@),
    {
        let mut out: Vec<char> = Vec::new();
        let mut i: usize = 0;
        assert(self@.take(0) =~= Seq::<Seq<KeycodeKey>>::empty());
        while i < R
            invariant
                i <= R,
                self.wf(),
                out@ == tokens_text(self@.take(i as int)),
            decreases R - i,
        {
            let ghost row_start = out@;
            let mut j: usize = 0;
            assert(self@[i as int].take(0) =~= Seq::<KeycodeKey>::empty());
            assert(out@ =~= row_start + tokens_line(self@[i as int].take(0)));
            while j < C
                invariant
                    i < R,
                    j <= C,
                    self.wf(),
                    out@ == row_start + tokens_line(self@[i as int].take(j as int)),
                decreases C - j,
            {
                let key = self.get(i, j).unwrap();
                push_chars(&mut out, &key.token());
                out.push(' ');
                proof {
                    let done = self@[i as int].take(j + 1);
                    assert(done.drop_last() =~= self@[i as int].take(j as int));
                    assert(done.last() == key);
                    assert(out@ =~= row_start + tokens_line(done));
                }
                j += 1;
            }
            out.push('\n');
            proof {
                assert(self@[i as int].take(C as int) =~= self@[i as int]);
                let done = self@.take(i + 1);
                assert(done.drop_last() =~= self@.take(i as int));
                assert(done.last() == self@[i as int]);
            }
            i += 1;
        }
        assert(self@.take(R as int) =~= self@);
        string_of(&out)
    }
}

} // verus!
