//! The text of the optimizer's configuration file: what each option means,
//! and the document that is written out with the options explained.

use vstd::prelude::*;
use crate::keyboard::layout_presets::{
    preset_names, LayoutPreset, FOUR_BY_TEN_EFFORT, FOUR_BY_TEN_LAYOUT, FOUR_BY_TEN_PHALANX,
};
use crate::optimizer::pattern::{capture_group, regex_capture};
use crate::text::{
    blank, chars_of, is_blank, lines, lines_of, push_chars, push_str, remove_char, remove_pair,
    spells, string_of, views, without_char, without_pair,
};

verus! {

pub const POPULATION_SIZE_HELP: &'static str =
    "Number of layouts per generation.";

pub const GENERATION_COUNT_HELP: &'static str =
    "Number of generations.";

pub const FITNESS_CUTOFF_HELP: &'static str =
    "Keep this proportion of best layouts per generation.";

pub const SWAP_WEIGHT_HELP: &'static str =
    "swap_weight:replace_weight represents the ratio of swap mutations (i.e., swapping two keys) to replace mutations (i.e., replacing one key with another). For example, 2:1 means 2/(2 + 1) of the mutations will be swaps and the remaining 1/(2 + 1) will be replaces.";

pub const REPLACE_WEIGHT_HELP: &'static str =
    "See swap_weight.";

pub const INCLUDE_ALPHAS_HELP: &'static str =
    "Whether to include alphabet keycodes. Should generally be set to true.";

pub const INCLUDE_NUMBERS_HELP: &'static str =
    "Whether to include number keycodes. Recommended to set this to false and manually place numbers yourself since optimized layouts cannot currently guarantee numbers to be arranged in order.";

pub const INCLUDE_NUMBER_SYMBOLS_HELP: &'static str =
    "Whether to include shifted numbers (!@#$ etc.). Recommended to set this to false for similar reasons as numbers. For specific symbols, such as ones common to programming languages, include them in `explicit_inclusionss`.";

pub const INCLUDE_BRACKETS_HELP: &'static str =
    "Whether to include ()[]{}<>. Recommended to set to false and manually place brackets yourself, as optimized layouts cannot guarantee corresponding brackets will appear next to each other.";

pub const INCLUDE_MISC_SYMBOLS_HELP: &'static str =
    "Whether to include -=\\;'`/[]. Recommended to set to true, as these are generally needed for typing.";

pub const INCLUDE_MISC_SYMBOLS_SHIFTED_HELP: &'static str =
    "Whether to include shifted versions of misc. symbols, i.e., _+|:\"~?{}. Recommended to set to false and access through shift.";

pub const EXPLICIT_INCLUSIONS_HELP: &'static str =
    "Keycodes to explicitly include. If no combination of options cover exactly what you want, add them here.";

pub const DATASET_PATHS_HELP: &'static str =
    "Path to directories containing files of text data. Currently only looks in the immediate directory and does not look recursively. Eventually will have presets.";

pub const DATASET_WEIGHTS_HELP: &'static str =
    "Ratio of datasets' importance. For example, with two datasets at a 2:1 ratio, the first dataset will constitute 2/(2 + 1) of the score and the second will constitute 1/(2 + 1).";

pub const MAX_NGRAM_SIZE_HELP: &'static str =
    "Maximum length of ngrams to extract from text.";

pub const TOP_N_NGRAMS_TO_TAKE_HELP: &'static str =
    "Number of most frequent ngrams to include. Some ngrams barely occur, thus having very little impact on overall score, so excluding them can decrease runtime. Applies to all ngrams. For example, if this value is 50, then we take the top 50 characters, top 50 bigrams, top 50 trigrams, etc.";

pub const HAND_ALTERNATION_WEIGHT_HELP: &'static str =
    "hand_alteration_weight:finger_roll_weight represents the importance of hand alternating vs. finger rolls.";

pub const HAND_ALTERNATION_REDUCTION_FACTOR_HELP: &'static str =
    "When a sequence of at least 3 keys alternates hands, multiply the effort of that sequence by this factor.";

pub const FINGER_ROLL_WEIGHT_HELP: &'static str =
    "See `hand_alteration_weight`.";

pub const FINGER_ROLL_REDUCTION_FACTOR_HELP: &'static str =
    "When a sequence of at least 3 keys is a finger roll, multiply the effort of that sequence by this factor. Sequential keys that cross two or more rows are not eligible for rolls. Inner and outer rolls are weighed the same (for now).";

pub const FINGER_ROLL_SAME_ROW_REDUCTION_FACTOR_HELP: &'static str =
    "If a roll occurs where all fingers are in the same row, multiply the effort of that sequence by this factor, on top of the standard roll reduction factor. In other words, rolls where all keys are in the same row are extra favorable.";

pub const SAME_FINGER_PENALTY_FACTOR_HELP: &'static str =
    "If the same finger (on the same hand, of course) is used twice in a row, multiply the effort by this factor. In other words, repeating the same finger is unfavorable.";

pub const EXTRA_LENGTH_PENALTY_HELP: &'static str =
    "If the keycode sequence is longer than the ngram (e.g., from layer switches or shifting), apply this penalty for each additional key, exponentially.";

pub const VALID_KEYCODES_HELP: &'static str =
    "Recommended to leave empty, as these will be generated from keycode options. If keycodes are supplied here, they will override keycode options; however, you can simply use the options + `explicit_inclusions` to fine tune the set you want, rather than having to list everything out here.";

/// The pattern of a line that sets an option: the option's name, then an
/// equals sign between two spaces, then the value.
pub const OPTION_LINE: &'static str = "(?<option_name>.*) = (.*)";

/// The group of `OPTION_LINE` that holds the option's name.
pub const OPTION_NAME: &'static str = "option_name";

/// The first line under the layout heading of a written configuration.
pub const SEE_COMMENTS: &'static str = "# See ending comments for option information.\n";

/// The explanation of the layout section, up to the list of presets.
pub const LAYOUT_NOTES_HEAD: &'static str =
    "# [layout_info]\n# name: Name of a preset. If left out, will use `num_rows` and `num_cols` instead. Available options: ";

/// The explanation of the layout section, after the list of presets.
pub const LAYOUT_NOTES_TAIL: &'static str =
    "\n# num_rows: If preset is not used, specify the number of rows in the layout.\n# num_cols: If preset is not used, specify the number of columns in the layout.\n# layout: Collection of layers. Each key is of the format {keycode}_{moveability flag}{symmetry flag}. Keycode reference should be available here: . Moveability of 1 means the optimizer can change the key in the given position; otherwise, the key will be fixed. Symmetry of 1 means it and its corresponding symmetric key will be locked in symmetry -- if one moves, the other will be moved to the corresponding symmetric location.\n# effort_layer: Specify the relative effort required to reach each key position. Smaller number means lower effort. Recommended to make the most accessible keys a weight of 1 and scale other keys accordingly. Does require some tinkering to create a grid that works for you.\n# phalanx_layer: Specify which hand and finger you want to use for each key. Used in calculating hand alternation bonuses, roll bonuses, and same finger penalties. Format is {hand}:{finger}, with hand options (L)eft and (R)ight and finger options (T)humb, (I)ndex, (M)iddle, (R)ing, (P)inkie, and (J)oint. Joint refers to where your pinkie meets your palm; some users use this part of their hand to hit the bottom left- / bottom right-most keys.\n\n";

/// The line between the written options and their explanation.
pub const OPTION_INFO: &'static str =
    "\n# Option info (note: some descriptions may not be totally accurate due to complexity, but the general idea should be there.)\n";

/// A failure to write the configuration.
#[derive(Debug, PartialEq, Eq)]
pub enum ConfigError {
    /// The pattern for option lines is no regular expression.
    InvalidPattern,
}

/// The layout section of a configuration: a preset by name, or a size of
/// one's own, and the layers as text.
#[derive(Debug, PartialEq)]
pub struct LayoutInfoToml {
    pub num_rows: Option<usize>,
    pub num_cols: Option<usize>,
    pub name: Option<LayoutPreset>,
    pub layout: String,
    pub effort_layer: String,
    pub phalanx_layer: String,
}

impl Default for LayoutInfoToml {
    /// The preset for the Ferris Sweep, a keyboard of four rows and ten
    /// columns, with its layers tidied.
    fn default() -> (info: Self)
        ensures
            info.num_rows is None,
            info.num_cols is None,
            info.name == Some(LayoutPreset::FerrisSweep),
            info.layout@ == prettified(FOUR_BY_TEN_LAYOUT@),
            info.effort_layer@ == prettified(FOUR_BY_TEN_EFFORT@),
            info.phalanx_layer@ == prettified(FOUR_BY_TEN_PHALANX@),
    {
        LayoutInfoToml {
            num_rows: None,
            num_cols: None,
            name: Some(LayoutPreset::FerrisSweep),
            layout: prettify_layer_string(String::from_str(FOUR_BY_TEN_LAYOUT)),
            effort_layer: prettify_layer_string(String::from_str(FOUR_BY_TEN_EFFORT)),
            phalanx_layer: prettify_layer_string(String::from_str(FOUR_BY_TEN_PHALANX)),
        }
    }
}

/// Every option by name, with what it means.
pub open spec fn described_options() -> Seq<(Seq<char>, Seq<char>)> {
    seq![
        ("population_size"@, POPULATION_SIZE_HELP@),
        ("generation_count"@, GENERATION_COUNT_HELP@),
        ("fitness_cutoff"@, FITNESS_CUTOFF_HELP@),
        ("swap_weight"@, SWAP_WEIGHT_HELP@),
        ("replace_weight"@, REPLACE_WEIGHT_HELP@),
        ("include_alphas"@, INCLUDE_ALPHAS_HELP@),
        ("include_numbers"@, INCLUDE_NUMBERS_HELP@),
        ("include_number_symbols"@, INCLUDE_NUMBER_SYMBOLS_HELP@),
        ("include_brackets"@, INCLUDE_BRACKETS_HELP@),
        ("include_misc_symbols"@, INCLUDE_MISC_SYMBOLS_HELP@),
        ("include_misc_symbols_shifted"@, INCLUDE_MISC_SYMBOLS_SHIFTED_HELP@),
        ("explicit_inclusions"@, EXPLICIT_INCLUSIONS_HELP@),
        ("dataset_paths"@, DATASET_PATHS_HELP@),
        ("dataset_weights"@, DATASET_WEIGHTS_HELP@),
        ("max_ngram_size"@, MAX_NGRAM_SIZE_HELP@),
        ("top_n_ngrams_to_take"@, TOP_N_NGRAMS_TO_TAKE_HELP@),
        ("hand_alternation_weight"@, HAND_ALTERNATION_WEIGHT_HELP@),
        ("hand_alternation_reduction_factor"@, HAND_ALTERNATION_REDUCTION_FACTOR_HELP@),
        ("finger_roll_weight"@, FINGER_ROLL_WEIGHT_HELP@),
        ("finger_roll_reduction_factor"@, FINGER_ROLL_REDUCTION_FACTOR_HELP@),
        ("finger_roll_same_row_reduction_factor"@, FINGER_ROLL_SAME_ROW_REDUCTION_FACTOR_HELP@),
        ("same_finger_penalty_factor"@, SAME_FINGER_PENALTY_FACTOR_HELP@),
        ("extra_length_penalty"@, EXTRA_LENGTH_PENALTY_HELP@),
        ("valid_keycodes"@, VALID_KEYCODES_HELP@),
    ]
}

/// The names and descriptions as sequences of characters.
pub open spec fn entry_views(entries: Seq<(String, String)>) -> Seq<(Seq<char>, Seq<char>)> {
    Seq::new(entries.len(), |i: int| (entries[i].0@, entries[i].1@))
}

/// Every option by name, with what it means. No name occurs twice.
pub fn option_descriptions() -> (options: Vec<(String, String)>)
    ensures
        entry_views(options@) == described_options(),
{
    let mut options: Vec<(String, String)> = Vec::new();
    options.push((String::from_str("population_size"), String::from_str(POPULATION_SIZE_HELP)));
    options.push((String::from_str("generation_count"), String::from_str(GENERATION_COUNT_HELP)));
    options.push((String::from_str("fitness_cutoff"), String::from_str(FITNESS_CUTOFF_HELP)));
    options.push((String::from_str("swap_weight"), String::from_str(SWAP_WEIGHT_HELP)));
    options.push((String::from_str("replace_weight"), String::from_str(REPLACE_WEIGHT_HELP)));
    options.push((String::from_str("include_alphas"), String::from_str(INCLUDE_ALPHAS_HELP)));
    options.push((String::from_str("include_numbers"), String::from_str(INCLUDE_NUMBERS_HELP)));
    options.push((String::from_str("include_number_symbols"), String::from_str(INCLUDE_NUMBER_SYMBOLS_HELP)));
    options.push((String::from_str("include_brackets"), String::from_str(INCLUDE_BRACKETS_HELP)));
    options.push((String::from_str("include_misc_symbols"), String::from_str(INCLUDE_MISC_SYMBOLS_HELP)));
    options.push((String::from_str("include_misc_symbols_shifted"), String::from_str(INCLUDE_MISC_SYMBOLS_SHIFTED_HELP)));
    options.push((String::from_str("explicit_inclusions"), String::from_str(EXPLICIT_INCLUSIONS_HELP)));
    options.push((String::from_str("dataset_paths"), String::from_str(DATASET_PATHS_HELP)));
    options.push((String::from_str("dataset_weights"), String::from_str(DATASET_WEIGHTS_HELP)));
    options.push((String::from_str("max_ngram_size"), String::from_str(MAX_NGRAM_SIZE_HELP)));
    options.push((String::from_str("top_n_ngrams_to_take"), String::from_str(TOP_N_NGRAMS_TO_TAKE_HELP)));
    options.push((String::from_str("hand_alternation_weight"), String::from_str(HAND_ALTERNATION_WEIGHT_HELP)));
    options.push((String::from_str("hand_alternation_reduction_factor"), String::from_str(HAND_ALTERNATION_REDUCTION_FACTOR_HELP)));
    options.push((String::from_str("finger_roll_weight"), String::from_str(FINGER_ROLL_WEIGHT_HELP)));
    options.push((String::from_str("finger_roll_reduction_factor"), String::from_str(FINGER_ROLL_REDUCTION_FACTOR_HELP)));
    options.push((String::from_str("finger_roll_same_row_reduction_factor"), String::from_str(FINGER_ROLL_SAME_ROW_REDUCTION_FACTOR_HELP)));
    options.push((String::from_str("same_finger_penalty_factor"), String::from_str(SAME_FINGER_PENALTY_FACTOR_HELP)));
    options.push((String::from_str("extra_length_penalty"), String::from_str(EXTRA_LENGTH_PENALTY_HELP)));
    options.push((String::from_str("valid_keycodes"), String::from_str(VALID_KEYCODES_HELP)));
    assert(entry_views(options@) =~= described_options());
    options
}

/// What the first entry of that name says; nothing if there is no such entry.
pub open spec fn description_of(entries: Seq<(Seq<char>, Seq<char>)>, name: Seq<char>) -> Seq<char>
    decreases entries.len(),
{
    if entries.len() == 0 {
        Seq::empty()
    } else if entries[0].0 == name {
        entries[0].1
    } else {
        description_of(entries.skip(1), name)
    }
}

/// What the first entry of that name says; nothing if there is no such entry.
pub fn describe(entries: &Vec<(String, String)>, name: &str) -> (description: Vec<char>)
    ensures
        description@ == description_of(entry_views(entries@), name@),
{
    let wanted = chars_of(name);
    let mut i: usize = 0;
    assert(entry_views(entries@).skip(0) =~= entry_views(entries@));
    while i < entries.len()
        invariant
            i <= entries.len(),
            wanted@ == name@,
            description_of(entry_views(entries@).skip(i as int), name@) == description_of(
                entry_views(entries@),
                name@,
            ),
        decreases entries.len() - i,
    {
        assert(entry_views(entries@).skip(i as int).skip(1) =~= entry_views(entries@).skip(i + 1));
        assert(entry_views(entries@).skip(i as int)[0] == (entries@[i as int].0@, entries@[i as int].1@));
        if spells(&wanted, entries[i].0.as_str()) {
            return chars_of(entries[i].1.as_str());
        }
        i += 1;
    }
    Vec::new()
}

/// The text that one line contributes to a tidied layer string: nothing if
/// the line is blank, else the line without tab escapes (a backslash followed
/// by `t`) and then without tab characters, ended by a line feed.
pub open spec fn tidy_line(line: Seq<char>) -> Seq<char> {
    if blank(line) {
        Seq::empty()
    } else {
        without_char(without_pair(line, '\\', 't'), '\t').push('\n')
    }
}

/// The tidied lines, one after the other.
pub open spec fn tidy_lines(ls: Seq<Seq<char>>) -> Seq<char>
    decreases ls.len(),
{
    if ls.len() == 0 {
        Seq::empty()
    } else {
        tidy_lines(ls.drop_last()) + tidy_line(ls.last())
    }
}

/// A layer string as it is written to a configuration file: blank lines
/// dropped, tabs and tab escapes removed, every line ended by a line feed.
pub open spec fn prettified(s: Seq<char>) -> Seq<char> {
    tidy_lines(lines(s))
}

/// Tidies the characters of a layer string.
pub fn prettify_chars(chars: &Vec<char>) -> (out: Vec<char>)
    ensures
        out@ == prettified(chars@),
{
    let ls = lines_of(chars);
    let mut out: Vec<char> = Vec::new();
    let mut i: usize = 0;
    while i < ls.len()
        invariant
            i <= ls.len(),
            out@ == tidy_lines(views(ls@).take(i as int)),
        decreases ls.len() - i,
    {
        proof {
            let done = views(ls@).take(i + 1);
            assert(done.drop_last() =~= views(ls@).take(i as int));
            assert(done.last() == ls@[i as int]@);
        }
        if !is_blank(&ls[i]) {
            let unescaped = remove_pair(&ls[i], '\\', 't');
            let mut cleaned = remove_char(&unescaped, '\t');
            cleaned.push('\n');
            out.append(&mut cleaned);
        } else {
            assert(out@ + Seq::<char>::empty() =~= out@);
        }
        i += 1;
    }
    assert(views(ls@).take(ls@.len() as int) =~= views(ls@));
    out
}

/// Tidies a layer string for a configuration file.
pub fn prettify_layer_string(s: String) -> (out: String)
    ensures
        out@ == prettified(s@),
{
    string_of(&prettify_chars(&chars_of(s.as_str())))
}

/// The items in a row, with `sep` between each two.
pub open spec fn joined(items: Seq<Seq<char>>, sep: Seq<char>) -> Seq<char>
    decreases items.len(),
{
    if items.len() == 0 {
        Seq::empty()
    } else if items.len() == 1 {
        items[0]
    } else {
        joined(items.drop_last(), sep) + sep + items.last()
    }
}

/// The explanation that belongs to one line of the written options.
///
/// For a line that sets an option, `captured` is the option's name, and the
/// explanation is the name and what the option means. Any other line is
/// repeated as a comment; a blank one is repeated as it is.
pub open spec fn option_note(
    line: Seq<char>,
    captured: Option<Seq<char>>,
    entries: Seq<(Seq<char>, Seq<char>)>,
) -> Seq<char> {
    match captured {
        Some(name) => "# "@ + name + ": "@ + description_of(entries, name) + "\n"@,
        None => if blank(line) {
            line + "\n"@
        } else {
            "# "@ + line + "\n"@
        },
    }
}

/// The explanations of all lines, where a line sets an option if `pattern`
/// matches it, and the option's name is what the group `group` holds then.
/// There are no explanations if a line is met and `pattern` is no regular
/// expression.
pub open spec fn option_notes(
    lines: Seq<Seq<char>>,
    entries: Seq<(Seq<char>, Seq<char>)>,
    pattern: Seq<char>,
    group: Seq<char>,
) -> Option<Seq<char>>
    decreases lines.len(),
{
    if lines.len() == 0 {
        Some(Seq::empty())
    } else {
        match (
            option_notes(lines.drop_last(), entries, pattern, group),
            regex_capture(pattern, group, lines.last()),
        ) {
            (Some(before), Some(captured)) => Some(
                before + option_note(lines.last(), captured, entries),
            ),
            _ => None,
        }
    }
}

/// The written configuration: the layout section, tidied, the options, and
/// after them, as comments, what the sections and each option mean.
pub open spec fn document_text(layout_info: Seq<char>, options: Seq<char>) -> Option<Seq<char>> {
    match option_notes(lines(options), described_options(), OPTION_LINE@, OPTION_NAME@) {
        Some(notes) => Some(
            "[layout_info]\n"@ + SEE_COMMENTS@ + prettified(layout_info)
                + "\n[layout_optimizer_config]\n"@ + options + OPTION_INFO@ + LAYOUT_NOTES_HEAD@
                + joined(preset_names(), ", "@) + LAYOUT_NOTES_TAIL@
                + "# [layout_optimizer_config]\n"@ + notes,
        ),
        None => None,
    }
}

/// The explanation that belongs to one line of the written options, given
/// the option name that was found in the line, if one was.
pub fn note_for_line(line: &Vec<char>, captured: Option<String>, entries: &Vec<(String, String)>) -> (note:
    Vec<char>)
    ensures
        note@ == option_note(
            line@,
            match captured {
                Some(name) => Some(name@),
                None => None,
            },
            entry_views(entries@),
        ),
{
    let mut note: Vec<char> = Vec::new();
    match captured {
        Some(name) => {
            push_str(&mut note, "# ");
            push_str(&mut note, name.as_str());
            push_str(&mut note, ": ");
            push_chars(&mut note, &describe(entries, name.as_str()));
            push_str(&mut note, "\n");
            assert(note@ =~= "# "@ + name@ + ": "@ + description_of(entry_views(entries@), name@)
                + "\n"@);
        },
        None => {
            if !is_blank(line) {
                push_str(&mut note, "# ");
            }
            push_chars(&mut note, line);
            push_str(&mut note, "\n");
            assert(note@ =~= if blank(line@) {
                line@ + "\n"@
            } else {
                "# "@ + line@ + "\n"@
            });
        },
    }
    note
}

/// The explanations of the lines of `options`, where a line sets an option
/// if `pattern` matches it and names the option in its group `group`.
pub fn explain_options(
    options: &Vec<char>,
    entries: &Vec<(String, String)>,
    pattern: &str,
    group: &str,
) -> (res: Result<Vec<char>, ConfigError>)
    ensures
        match option_notes(lines(options@), entry_views(entries@), pattern@, group@) {
            Some(notes) => res is Ok && res.unwrap()@ == notes,
            None => res == Err::<Vec<char>, ConfigError>(ConfigError::InvalidPattern),
        },
{
    let ls = lines_of(options);
    let mut notes: Vec<char> = Vec::new();
    let mut i: usize = 0;
    assert(views(ls@).take(0) =~= Seq::<Seq<char>>::empty());
    while i < ls.len()
        invariant
            i <= ls.len(),
            views(ls@) == lines(options@),
            option_notes(views(ls@).take(i as int), entry_views(entries@), pattern@, group@)
                == Some(notes@),
        decreases ls.len() - i,
    {
        proof {
            let done = views(ls@).take(i + 1);
            assert(done.drop_last() =~= views(ls@).take(i as int));
            assert(done.last() == ls@[i as int]@);
            lemma_option_notes_prefix(views(ls@), entry_views(entries@), pattern@, group@, i + 1);
        }
        let line = string_of(&ls[i]);
        match capture_group(pattern, group, line.as_str()) {
            Ok(captured) => {
                let mut note = note_for_line(&ls[i], captured, entries);
                notes.append(&mut note);
            },
            Err(_) => {
                return Err(ConfigError::InvalidPattern);
            },
        }
        i += 1;
    }
    assert(views(ls@).take(ls@.len() as int) =~= views(ls@));
    Ok(notes)
}

/// Writes the configuration: `layout_info` and `options` are the two
/// sections as serialized; the explanations are added as comments.
pub fn toml_document(layout_info: &str, options: &str) -> (res: Result<String, ConfigError>)
    ensures
        match document_text(layout_info@, options@) {
            Some(text) => res is Ok && res.unwrap()@ == text,
            None => res == Err::<String, ConfigError>(ConfigError::InvalidPattern),
        },
{
    let entries = option_descriptions();
    let option_chars = chars_of(options);
    let notes = match explain_options(&option_chars, &entries, OPTION_LINE, OPTION_NAME) {
        Ok(notes) => notes,
        Err(e) => {
            return Err(e);
        },
    };
    let mut out: Vec<char> = Vec::new();
    push_str(&mut out, "[layout_info]\n");
    push_str(&mut out, SEE_COMMENTS);
    push_chars(&mut out, &prettify_chars(&chars_of(layout_info)));
    push_str(&mut out, "\n[layout_optimizer_config]\n");
    push_chars(&mut out, &option_chars);
    push_str(&mut out, OPTION_INFO);
    push_str(&mut out, LAYOUT_NOTES_HEAD);
    push_chars(&mut out, &join_names(&LayoutPreset::all()));
    push_str(&mut out, LAYOUT_NOTES_TAIL);
    push_str(&mut out, "# [layout_optimizer_config]\n");
    push_chars(&mut out, &notes);
    assert(out@ =~= document_text(layout_info@, options@).unwrap());
    Ok(string_of(&out))
}

/// The names of the presets, with a comma and a space between each two.
pub fn join_names(presets: &Vec<LayoutPreset>) -> (out: Vec<char>)
    ensures
        out@ == joined(Seq::new(presets@.len(), |i: int| presets@[i].spec_name()), ", "@),
{
    let ghost names = Seq::new(presets@.len(), |i: int| presets@[i].spec_name());
    let mut out: Vec<char> = Vec::new();
    let mut i: usize = 0;
    assert(names.take(0) =~= Seq::<Seq<char>>::empty());
    while i < presets.len()
        invariant
            i <= presets.len(),
            names == Seq::new(presets@.len(), |i: int| presets@[i].spec_name()),
            out@ == joined(names.take(i as int), ", "@),
        decreases presets.len() - i,
    {
        proof {
            let done = names.take(i + 1);
            assert(done.drop_last() =~= names.take(i as int));
            assert(done.last() == presets@[i as int].spec_name());
        }
        if i > 0 {
            push_str(&mut out, ", ");
        }
        push_str(&mut out, presets[i].name());
        proof {
            if i == 0 {
                assert(out@ =~= names.take(1)[0]);
            } else {
                assert(out@ =~= joined(names.take(i as int), ", "@) + ", "@ + presets@[i as int].spec_name());
            }
        }
        i += 1;
    }
    assert(names.take(presets@.len() as int) =~= names);
    out
}

/// If the first lines cannot be explained, neither can they all.
pub proof fn lemma_option_notes_prefix(
    lines: Seq<Seq<char>>,
    entries: Seq<(Seq<char>, Seq<char>)>,
    pattern: Seq<char>,
    group: Seq<char>,
    n: int,
)
    requires
        0 <= n <= lines.len(),
    ensures
        option_notes(lines.take(n), entries, pattern, group) is None ==> option_notes(
            lines,
            entries,
            pattern,
            group,
        ) is None,
    decreases lines.len(),
{
    if n < lines.len() {
        assert(lines.drop_last().take(n) =~= lines.take(n));
        lemma_option_notes_prefix(lines.drop_last(), entries, pattern, group, n);
    } else {
        assert(lines.take(n) =~= lines);
    }
}

} // verus!
