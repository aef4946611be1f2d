//! Writing a layer as text and reading the text gives the layer back.

use vstd::prelude::*;
use crate::keyboard::error::Failure;
use crate::keyboard::key::{flag_char, flags_of, token_key, KeycodeKey};
use crate::text_processor::keycode::{all_keycodes, keycode_named, named_among, Keycode};
use crate::keyboard::layer::has_shape;
use crate::keyboard::layer_text::{
    parse_layer, parse_rows, parse_tokens, row_lines, tokens_line, tokens_text,
};
use crate::text::{blank, is_space, lemma_split_nonempty, scan_words, split, words};

verus! {

/// A word: at least one character, none of them white space.
pub open spec fn solid(s: Seq<char>) -> bool {
    s.len() > 0 && forall|i: int| 0 <= i < s.len() ==> !is_space(#[trigger] s[i])
}

/// Whether `c` does not occur in `s`.
pub open spec fn free_of(s: Seq<char>, c: char) -> bool {
    forall|i: int| 0 <= i < s.len() ==> #[trigger] s[i] != c
}

/// The tokens that spell the keys of a row.
pub open spec fn token_texts(row: Seq<KeycodeKey>) -> Seq<Seq<char>> {
    Seq::new(row.len(), |j: int| row[j].token_text())
}

/// The lines that spell the rows of a layer.
pub open spec fn token_lines(rows: Seq<Seq<KeycodeKey>>) -> Seq<Seq<char>> {
    Seq::new(rows.len(), |i: int| tokens_line(rows[i]))
}

/// The names of the key codes, character by character: each is a word
/// without an underscore, and no two are the same.
pub proof fn lemma_names(k1: Keycode, k2: Keycode)
    ensures
        solid(k1.spec_name()),
        free_of(k1.spec_name(), '_'),
        k1.spec_name() == k2.spec_name() ==> k1 == k2,
{
    reveal_strlit("NO");
    reveal_strlit("A");
    reveal_strlit("B");
    reveal_strlit("C");
    reveal_strlit("D");
    reveal_strlit("E");
    reveal_strlit("1");
    reveal_strlit("2");
    reveal_strlit("3");
    reveal_strlit("4");
    reveal_strlit("5");
    reveal_strlit("6");
    reveal_strlit("7");
    reveal_strlit("8");
    reveal_strlit("9");
    reveal_strlit("ZERO");
    reveal_strlit("SFT");
    reveal_strlit("LS1");
    reveal_strlit("LS2");
    reveal_strlit("LS3");
    reveal_strlit("SPC");
    reveal_strlit("BSPC");
    reveal_strlit("LCBR");
    reveal_strlit("LBRC");
    reveal_strlit("LPRN");
    reveal_strlit("RPRN");
    reveal_strlit("RBRC");
    reveal_strlit("RCBR");
    reveal_strlit("LEFT");
    reveal_strlit("DOWN");
    reveal_strlit("UP");
    reveal_strlit("RGHT");
    reveal_strlit("HOME");
    reveal_strlit("PGDN");
    reveal_strlit("PGUP");
    reveal_strlit("END");
    reveal_strlit("PLACEHOLDER");
    assert("NO"@.len() == 2 && "NO"@[0] == 'N' && "NO"@[1] == 'O');
    assert("A"@.len() == 1 && "A"@[0] == 'A');
    assert("B"@.len() == 1 && "B"@[0] == 'B');
    assert("C"@.len() == 1 && "C"@[0] == 'C');
    assert("D"@.len() == 1 && "D"@[0] == 'D');
    assert("E"@.len() == 1 && "E"@[0] == 'E');
    assert("1"@.len() == 1 && "1"@[0] == '1');
    assert("2"@.len() == 1 && "2"@[0] == '2');
    assert("3"@.len() == 1 && "3"@[0] == '3');
    assert("4"@.len() == 1 && "4"@[0] == '4');
    assert("5"@.len() == 1 && "5"@[0] == '5');
    assert("6"@.len() == 1 && "6"@[0] == '6');
    assert("7"@.len() == 1 && "7"@[0] == '7');
    assert("8"@.len() == 1 && "8"@[0] == '8');
    assert("9"@.len() == 1 && "9"@[0] == '9');
    assert("ZERO"@.len() == 4 && "ZERO"@[0] == 'Z' && "ZERO"@[1] == 'E' && "ZERO"@[2] == 'R' && "ZERO"@[3] == 'O');
    assert("SFT"@.len() == 3 && "SFT"@[0] == 'S' && "SFT"@[1] == 'F' && "SFT"@[2] == 'T');
    assert("LS1"@.len() == 3 && "LS1"@[0] == 'L' && "LS1"@[1] == 'S' && "LS1"@[2] == '1');
    assert("LS2"@.len() == 3 && "LS2"@[0] == 'L' && "LS2"@[1] == 'S' && "LS2"@[2] == '2');
    assert("LS3"@.len() == 3 && "LS3"@[0] == 'L' && "LS3"@[1] == 'S' && "LS3"@[2] == '3');
    assert("SPC"@.len() == 3 && "SPC"@[0] == 'S' && "SPC"@[1] == 'P' && "SPC"@[2] == 'C');
    assert("BSPC"@.len() == 4 && "BSPC"@[0] == 'B' && "BSPC"@[1] == 'S' && "BSPC"@[2] == 'P' && "BSPC"@[3] == 'C');
    assert("LCBR"@.len() == 4 && "LCBR"@[0] == 'L' && "LCBR"@[1] == 'C' && "LCBR"@[2] == 'B' && "LCBR"@[3] == 'R');
    assert("LBRC"@.len() == 4 && "LBRC"@[0] == 'L' && "LBRC"@[1] == 'B' && "LBRC"@[2] == 'R' && "LBRC"@[3] == 'C');
    assert("LPRN"@.len() == 4 && "LPRN"@[0] == 'L' && "LPRN"@[1] == 'P' && "LPRN"@[2] == 'R' && "LPRN"@[3] == 'N');
    assert("RPRN"@.len() == 4 && "RPRN"@[0] == 'R' && "RPRN"@[1] == 'P' && "RPRN"@[2] == 'R' && "RPRN"@[3] == 'N');
    assert("RBRC"@.len() == 4 && "RBRC"@[0] == 'R' && "RBRC"@[1] == 'B' && "RBRC"@[2] == 'R' && "RBRC"@[3] == 'C');
    assert("RCBR"@.len() == 4 && "RCBR"@[0] == 'R' && "RCBR"@[1] == 'C' && "RCBR"@[2] == 'B' && "RCBR"@[3] == 'R');
    assert("LEFT"@.len() == 4 && "LEFT"@[0] == 'L' && "LEFT"@[1] == 'E' && "LEFT"@[2] == 'F' && "LEFT"@[3] == 'T');
    assert("DOWN"@.len() == 4 && "DOWN"@[0] == 'D' && "DOWN"@[1] == 'O' && "DOWN"@[2] == 'W' && "DOWN"@[3] == 'N');
    assert("UP"@.len() == 2 && "UP"@[0] == 'U' && "UP"@[1] == 'P');
    assert("RGHT"@.len() == 4 && "RGHT"@[0] == 'R' && "RGHT"@[1] == 'G' && "RGHT"@[2] == 'H' && "RGHT"@[3] == 'T');
    assert("HOME"@.len() == 4 && "HOME"@[0] == 'H' && "HOME"@[1] == 'O' && "HOME"@[2] == 'M' && "HOME"@[3] == 'E');
    assert("PGDN"@.len() == 4 && "PGDN"@[0] == 'P' && "PGDN"@[1] == 'G' && "PGDN"@[2] == 'D' && "PGDN"@[3] == 'N');
    assert("PGUP"@.len() == 4 && "PGUP"@[0] == 'P' && "PGUP"@[1] == 'G' && "PGUP"@[2] == 'U' && "PGUP"@[3] == 'P');
    assert("END"@.len() == 3 && "END"@[0] == 'E' && "END"@[1] == 'N' && "END"@[2] == 'D');
    assert("PLACEHOLDER"@.len() == 11 && "PLACEHOLDER"@[0] == 'P' && "PLACEHOLDER"@[1] == 'L' && "PLACEHOLDER"@[2] == 'A' && "PLACEHOLDER"@[3] == 'C' && "PLACEHOLDER"@[4] == 'E' && "PLACEHOLDER"@[5] == 'H' && "PLACEHOLDER"@[6] == 'O' && "PLACEHOLDER"@[7] == 'L' && "PLACEHOLDER"@[8] == 'D' && "PLACEHOLDER"@[9] == 'E' && "PLACEHOLDER"@[10] == 'R');
}

/// The name of a key code is a word without an underscore.
pub proof fn lemma_name_is_word(k: Keycode)
    ensures
        solid(k.spec_name()),
        free_of(k.spec_name(), '_'),
{
    lemma_names(k, k);
}

/// No two key codes have the same name.
pub proof fn lemma_names_differ(k1: Keycode, k2: Keycode)
    requires
        k1.spec_name() == k2.spec_name(),
    ensures
        k1 == k2,
{
    lemma_names(k1, k2);
}

/// A key code is found by its name among key codes that it is one of.
pub proof fn lemma_named_among(keycodes: Seq<Keycode>, k: Keycode)
    requires
        keycodes.contains(k),
    ensures
        named_among(keycodes, k.spec_name()) == Some(k),
    decreases keycodes.len(),
{
    if keycodes[0].spec_name() == k.spec_name() {
        lemma_names_differ(keycodes[0], k);
    } else {
        let i = choose|i: int| 0 <= i < keycodes.len() && keycodes[i] == k;
        assert(keycodes.skip(1)[i - 1] == k);
        lemma_named_among(keycodes.skip(1), k);
    }
}

/// Every key code is found by its name.
pub proof fn lemma_keycode_named(k: Keycode)
    ensures
        keycode_named(k.spec_name()) == Some(k),
{
    let all = all_keycodes();
    match k {
        Keycode::_NO => assert(all[0] == k),
        Keycode::_A => assert(all[1] == k),
        Keycode::_B => assert(all[2] == k),
        Keycode::_C => assert(all[3] == k),
        Keycode::_D => assert(all[4] == k),
        Keycode::_E => assert(all[5] == k),
        Keycode::_1 => assert(all[6] == k),
        Keycode::_2 => assert(all[7] == k),
        Keycode::_3 => assert(all[8] == k),
        Keycode::_4 => assert(all[9] == k),
        Keycode::_5 => assert(all[10] == k),
        Keycode::_6 => assert(all[11] == k),
        Keycode::_7 => assert(all[12] == k),
        Keycode::_8 => assert(all[13] == k),
        Keycode::_9 => assert(all[14] == k),
        Keycode::_ZERO => assert(all[15] == k),
        Keycode::_SFT => assert(all[16] == k),
        Keycode::_LS1 => assert(all[17] == k),
        Keycode::_LS2 => assert(all[18] == k),
        Keycode::_LS3 => assert(all[19] == k),
        Keycode::_SPC => assert(all[20] == k),
        Keycode::_BSPC => assert(all[21] == k),
        Keycode::_LCBR => assert(all[22] == k),
        Keycode::_LBRC => assert(all[23] == k),
        Keycode::_LPRN => assert(all[24] == k),
        Keycode::_RPRN => assert(all[25] == k),
        Keycode::_RBRC => assert(all[26] == k),
        Keycode::_RCBR => assert(all[27] == k),
        Keycode::_LEFT => assert(all[28] == k),
        Keycode::_DOWN => assert(all[29] == k),
        Keycode::_UP => assert(all[30] == k),
        Keycode::_RGHT => assert(all[31] == k),
        Keycode::_HOME => assert(all[32] == k),
        Keycode::_PGDN => assert(all[33] == k),
        Keycode::_PGUP => assert(all[34] == k),
        Keycode::_END => assert(all[35] == k),
        Keycode::_PLACEHOLDER => assert(all[36] == k),
    }
    lemma_named_among(all, k);
}

/// Splitting a text that ends in a stretch without the separator: the
/// stretch goes to the last piece.
pub proof fn lemma_split_append(s: Seq<char>, tail: Seq<char>, sep: char)
    requires
        free_of(tail, sep),
    ensures
        split(s, sep).len() >= 1,
        split(s + tail, sep) == split(s, sep).drop_last().push(split(s, sep).last() + tail),
    decreases tail.len(),
{
    lemma_split_nonempty(s, sep);
    let pieces = split(s, sep);
    if tail.len() == 0 {
        assert(s + tail =~= s);
        assert(pieces.last() + tail =~= pieces.last());
        assert(pieces.drop_last().push(pieces.last()) =~= pieces);
    } else {
        let shorter = tail.drop_last();
        assert((s + tail).drop_last() =~= s + shorter);
        assert((s + tail).last() == tail.last());
        assert(tail.last() == tail[tail.len() - 1]);
        lemma_split_append(s, shorter, sep);
        let before = split(s + shorter, sep);
        assert(before.drop_last() =~= pieces.drop_last());
        assert(before.last() == pieces.last() + shorter);
        assert((pieces.last() + shorter).push(tail.last()) =~= pieces.last() + tail);
    }
}

/// Splitting a text that ends in the separator: an empty piece comes last.
pub proof fn lemma_split_separator(s: Seq<char>, sep: char)
    ensures
        split(s.push(sep), sep) == split(s, sep).push(Seq::empty()),
{
    assert(s.push(sep).drop_last() =~= s);
}

/// Reading on through a word: it is added to the open word.
pub proof fn lemma_scan_word(s: Seq<char>, word: Seq<char>)
    requires
        forall|i: int| 0 <= i < word.len() ==> !is_space(#[trigger] word[i]),
    ensures
        scan_words(s + word) == (scan_words(s).0, scan_words(s).1 + word),
    decreases word.len(),
{
    if word.len() == 0 {
        assert(s + word =~= s);
        assert(scan_words(s).1 + word =~= scan_words(s).1);
    } else {
        let shorter = word.drop_last();
        assert((s + word).drop_last() =~= s + shorter);
        assert((s + word).last() == word[word.len() - 1]);
        lemma_scan_word(s, shorter);
        assert((scan_words(s).1 + shorter).push(word.last()) =~= scan_words(s).1 + word);
    }
}

/// A token is a word, and there is no line feed in it.
pub proof fn lemma_token_is_word(key: KeycodeKey)
    ensures
        solid(key.token_text()),
{
    lemma_name_is_word(key.value);
    let token = key.token_text();
    let name = key.spec_value_name();
    assert forall|i: int| 0 <= i < token.len() implies !is_space(#[trigger] token[i]) by {
        if i < name.len() {
            assert(token[i] == name[i]);
        }
    }
}

/// The words of a line of tokens are the tokens.
pub proof fn lemma_words_of_tokens(row: Seq<KeycodeKey>)
    ensures
        scan_words(tokens_line(row)) == (token_texts(row), Seq::<char>::empty()),
        words(tokens_line(row)) == token_texts(row),
        free_of(tokens_line(row), '\n'),
        row.len() > 0 ==> !blank(tokens_line(row)),
    decreases row.len(),
{
    if row.len() == 0 {
        assert(token_texts(row) =~= Seq::empty());
    } else {
        let init = row.drop_last();
        let token = row.last().token_text();
        lemma_words_of_tokens(init);
        lemma_token_is_word(row.last());
        lemma_scan_word(tokens_line(init), token);
        let line = tokens_line(row);
        assert(line == (tokens_line(init) + token).push(' '));
        assert(line.drop_last() =~= tokens_line(init) + token);
        assert(Seq::<char>::empty() + token =~= token);
        assert(token_texts(init).push(token) =~= token_texts(row));
        assert forall|i: int| 0 <= i < line.len() implies #[trigger] line[i] != '\n' by {
            if i < tokens_line(init).len() {
                assert(line[i] == tokens_line(init)[i]);
            } else if i < tokens_line(init).len() + token.len() {
                assert(line[i] == token[i - tokens_line(init).len()]);
            }
        }
        assert(line[tokens_line(init).len() as int] == token[0]);
    }
}

/// The token of a key spells the key.
pub proof fn lemma_token_spells_key(key: KeycodeKey)
    ensures
        token_key(key.token_text()) == Some(key),
{
    let token = key.token_text();
    let name = key.spec_value_name();
    let m = flag_char(key.moveable);
    let s = flag_char(key.symmetric);
    let flags = seq![m, s];
    assert(flags_of(flags) == Some((key.moveable, key.symmetric)));
    let empty = Seq::<char>::empty();
    if key.value == Keycode::_NO {
        assert(token =~= seq!['_', '_', m, s]);
        assert(split(empty, '_') =~= seq![empty]);
        lemma_split_separator(empty, '_');
        lemma_split_separator(seq!['_'], '_');
        assert(empty.push('_') =~= seq!['_']);
        assert(seq!['_'].push('_') =~= seq!['_', '_']);
        lemma_split_append(seq!['_', '_'], flags, '_');
        assert(seq!['_', '_'] + flags =~= token);
        assert(split(token, '_') =~= seq![empty, empty, empty + flags]);
        assert(empty + flags =~= flags);
    } else {
        lemma_name_is_word(key.value);
        lemma_keycode_named(key.value);
        assert(split(empty, '_') =~= seq![empty]);
        lemma_split_append(empty, name, '_');
        assert(empty + name =~= name);
        assert(split(name, '_') =~= seq![name]);
        lemma_split_separator(name, '_');
        lemma_split_append(name.push('_'), flags, '_');
        assert(name.push('_') + flags =~= token);
        assert(split(token, '_') =~= seq![name, empty + flags]);
        assert(empty + flags =~= flags);
        assert(token[0] == name[0]);
    }
}

/// The tokens of a row spell its keys.
pub proof fn lemma_tokens_spell_row(row: Seq<KeycodeKey>)
    ensures
        parse_tokens(token_texts(row)) == Ok::<Seq<KeycodeKey>, Failure>(row),
    decreases row.len(),
{
    if row.len() == 0 {
        assert(row =~= Seq::empty());
    } else {
        assert(token_texts(row).drop_last() =~= token_texts(row.drop_last()));
        lemma_tokens_spell_row(row.drop_last());
        lemma_token_spells_key(row.last());
        assert(row.drop_last().push(row.last()) =~= row);
    }
}

/// The lines of a layer's text are the token lines of its rows, and an
/// empty piece after the last line feed.
pub proof fn lemma_lines_of_text(rows: Seq<Seq<KeycodeKey>>)
    ensures
        split(tokens_text(rows), '\n') == token_lines(rows).push(Seq::empty()),
    decreases rows.len(),
{
    let empty = Seq::<char>::empty();
    if rows.len() == 0 {
        assert(token_lines(rows).push(empty) =~= seq![empty]);
    } else {
        let init = rows.drop_last();
        let line = tokens_line(rows.last());
        lemma_lines_of_text(init);
        lemma_words_of_tokens(rows.last());
        lemma_split_append(tokens_text(init), line, '\n');
        lemma_split_separator(tokens_text(init) + line, '\n');
        assert(tokens_text(rows) =~= (tokens_text(init) + line).push('\n'));
        assert(empty + line =~= line);
        assert(token_lines(init).push(empty).drop_last() =~= token_lines(init));
        assert(token_lines(init).push(line) =~= token_lines(rows));
    }
}

/// Lines that are not blank all count.
pub proof fn lemma_all_lines_count(lines: Seq<Seq<char>>)
    requires
        forall|i: int| 0 <= i < lines.len() ==> !blank(#[trigger] lines[i]),
    ensures
        lines.filter(|line: Seq<char>| !blank(line)) == lines,
    decreases lines.len(),
{
    reveal(Seq::filter);
    if lines.len() > 0 {
        lemma_all_lines_count(lines.drop_last());
        assert(lines.drop_last().push(lines.last()) =~= lines);
    }
}

/// The token lines of rows of `num_columns` keys spell the rows.
pub proof fn lemma_lines_spell_rows(rows: Seq<Seq<KeycodeKey>>, num_columns: usize)
    requires
        has_shape(rows, rows.len() as int, num_columns as int),
    ensures
        parse_rows(token_lines(rows), num_columns) == Ok::<Seq<Seq<KeycodeKey>>, Failure>(rows),
    decreases rows.len(),
{
    if rows.len() == 0 {
        assert(rows =~= Seq::empty());
    } else {
        let init = rows.drop_last();
        assert(token_lines(rows).drop_last() =~= token_lines(init));
        lemma_lines_spell_rows(init, num_columns);
        lemma_words_of_tokens(rows.last());
        lemma_tokens_spell_row(rows.last());
        assert(rows.last() == rows[rows.len() - 1]);
        assert(init.push(rows.last()) =~= rows);
    }
}

/// Writing a layer as tokens and reading the text gives the layer back.
///
/// This holds of every layer with at least one column, and of the layer
/// without rows. Rows without keys are written as blank lines, which a
/// reader does not count.
pub proof fn lemma_tokens_round_trip(
    rows: Seq<Seq<KeycodeKey>>,
    num_rows: usize,
    num_columns: usize,
)
    requires
        has_shape(rows, num_rows as int, num_columns as int),
        num_rows == 0 || num_columns > 0,
    ensures
        parse_layer(tokens_text(rows), num_rows, num_columns) == Ok::<
            Seq<Seq<KeycodeKey>>,
            Failure,
        >(rows),
{
    let lines = token_lines(rows);
    let keep = |line: Seq<char>| !blank(line);
    lemma_lines_of_text(rows);
    assert forall|i: int| 0 <= i < lines.len() implies !blank(#[trigger] lines[i]) by {
        lemma_words_of_tokens(rows[i]);
    }
    lemma_all_lines_count(lines);
    reveal(Seq::filter);
    assert(lines.push(Seq::empty()).drop_last() =~= lines);
    assert(blank(Seq::<char>::empty()));
    assert(lines.push(Seq::empty()).filter(keep) == lines.filter(keep));
    assert(row_lines(split(tokens_text(rows), '\n')) == lines);
    lemma_lines_spell_rows(rows, num_columns);
}

} // verus!
