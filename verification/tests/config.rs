use layout_optimizer::optimizer::config::{
    describe, explain_options, note_for_line, option_descriptions, prettify_layer_string,
    toml_document, ConfigError, LayoutInfoToml, LAYOUT_NOTES_HEAD, LAYOUT_NOTES_TAIL, OPTION_INFO,
    OPTION_LINE, OPTION_NAME,
};
use layout_optimizer::keyboard::layout_presets::{
    get_all_layout_size_presets, LayoutPreset, LayoutSizePresets,
};

#[test]
fn prettify_drops_blank_lines_and_tabs() {
    let s = String::from("\n\t\tA_11 B_10\n\t\t\n  \nC_11\\tD_00\r\n\t\t");
    assert_eq!(prettify_layer_string(s), "A_11 B_10\nC_11D_00\n");
    assert_eq!(prettify_layer_string(String::from("")), "");
    assert_eq!(prettify_layer_string(String::from("a\r")), "a\r\n");
    assert_eq!(prettify_layer_string(String::from("x\\\tty")), "x\\ty\n");
}

#[test]
fn all_sizes_in_declaration_order() {
    assert_eq!(
        get_all_layout_size_presets(),
        vec![LayoutSizePresets::FourByTen, LayoutSizePresets::FourByTwelve]
    );
    assert_eq!(LayoutPreset::all(), vec![LayoutPreset::FerrisSweep]);
    assert_eq!(LayoutPreset::FerrisSweep.name(), "FerrisSweep");
}

#[test]
fn every_option_is_described_once() {
    let options = option_descriptions();
    assert_eq!(options.len(), 24);
    for (i, (name, _)) in options.iter().enumerate() {
        for (other, _) in &options[i + 1..] {
            assert_ne!(name, other);
        }
    }
    assert_eq!(options[0].0, "population_size");
    assert_eq!(options[0].1, "Number of layouts per generation.");
    assert_eq!(options[23].0, "valid_keycodes");
    let found: String = describe(&options, "replace_weight").into_iter().collect();
    assert_eq!(found, "See swap_weight.");
    let found: String = describe(&options, "include_misc_symbols").into_iter().collect();
    assert_eq!(
        found,
        "Whether to include -=\\;'`/[]. Recommended to set to true, as these are generally needed for typing."
    );
    assert_eq!(describe(&options, "no_such_option"), Vec::<char>::new());
}

#[test]
fn notes_for_single_lines() {
    let options = option_descriptions();
    let line: Vec<char> = "generation_count = 1".chars().collect();
    let note: String =
        note_for_line(&line, Some(String::from("generation_count")), &options).into_iter().collect();
    assert_eq!(note, "# generation_count: Number of generations.\n");
    let note: String =
        note_for_line(&line, Some(String::from("unheard_of")), &options).into_iter().collect();
    assert_eq!(note, "# unheard_of: \n");
    let line: Vec<char> = "[genetic_options]".chars().collect();
    let note: String = note_for_line(&line, None, &options).into_iter().collect();
    assert_eq!(note, "# [genetic_options]\n");
    let line: Vec<char> = "  ".chars().collect();
    let note: String = note_for_line(&line, None, &options).into_iter().collect();
    assert_eq!(note, "  \n");
}

#[test]
fn the_written_configuration() {
    let layout_info = "name = \"FerrisSweep\"\nlayout = \"\"\"\n\n\tA_11\n\"\"\"\n";
    let options = "valid_keycodes = []\n\n[genetic_options]\npopulation_size = 5\nodd = a = b\n";
    let document = toml_document(layout_info, options).unwrap();
    let expected = String::from("[layout_info]\n")
        + "# See ending comments for option information.\n"
        + "name = \"FerrisSweep\"\nlayout = \"\"\"\nA_11\n\"\"\"\n"
        + "\n[layout_optimizer_config]\n"
        + options
        + "\n# Option info (note: some descriptions may not be totally accurate due to complexity, but the general idea should be there.)\n"
        + "# [layout_info]\n# name: Name of a preset. If left out, will use `num_rows` and `num_cols` instead. Available options: FerrisSweep\n"
        + "# num_rows: If preset is not used, specify the number of rows in the layout.\n"
        + &LAYOUT_NOTES_TAIL[78..]
        + "# [layout_optimizer_config]\n"
        + "# valid_keycodes: Recommended to leave empty, as these will be generated from keycode options. If keycodes are supplied here, they will override keycode options; however, you can simply use the options + `explicit_inclusions` to fine tune the set you want, rather than having to list everything out here.\n"
        + "\n"
        + "# [genetic_options]\n"
        + "# population_size: Number of layouts per generation.\n"
        + "# odd = a: \n";
    assert_eq!(document, expected);
    assert!(LAYOUT_NOTES_HEAD.ends_with("Available options: "));
    assert!(LAYOUT_NOTES_TAIL.ends_with("bottom right-most keys.\n\n"));
    assert!(OPTION_INFO.starts_with("\n# Option info"));
}

#[test]
fn the_default_layout_section() {
    let info = LayoutInfoToml::default();
    assert_eq!(info.num_rows, None);
    assert_eq!(info.num_cols, None);
    assert_eq!(info.name, Some(LayoutPreset::FerrisSweep));
    assert_eq!(
        info.effort_layer,
        "7  2  2  2  7  7  2  2  2  7\n3  1  1  1  3  3  1  1  1  3\n5  3  3  3  8  8  3  3  3  5\n10 7  4  2  1  1  2  4  7  10\n"
    );
    assert!(info.phalanx_layer.starts_with("L:P L:R L:M L:I L:I R:I R:I R:M R:R R:P\n"));
    assert_eq!(info.phalanx_layer.lines().count(), 4);
    assert!(info.layout.starts_with("___Layer 0___\n__10 __10 __10 __10   __10"));
    assert_eq!(info.layout.lines().count(), 20);
    assert!(!info.layout.contains('\t'));
}

#[test]
fn a_pattern_that_is_no_regular_expression_is_refused() {
    let entries = option_descriptions();
    let options: Vec<char> = "max_ngram_size = 4\n".chars().collect();
    assert_eq!(
        explain_options(&options, &entries, "(", "option_name"),
        Err(ConfigError::InvalidPattern)
    );
    let none: Vec<char> = vec![];
    assert_eq!(explain_options(&none, &entries, "(", "option_name"), Ok(vec![]));
}

#[test]
fn the_name_of_an_option_is_what_the_pattern_finds() {
    let entries = option_descriptions();
    let options: Vec<char> = "max_ngram_size = 4\nswap_weight=4.0\n".chars().collect();
    let notes: String =
        explain_options(&options, &entries, OPTION_LINE, OPTION_NAME).unwrap().into_iter().collect();
    assert_eq!(
        notes,
        "# max_ngram_size: Maximum length of ngrams to extract from text.\n# swap_weight=4.0\n"
    );
    let notes: String = explain_options(&options, &entries, "(?<key>[a-z_]+)=", "key")
        .unwrap()
        .into_iter()
        .collect();
    assert!(notes.starts_with("# max_ngram_size = 4\n# swap_weight: swap_weight:replace_weight"));
    let notes: String = explain_options(&options, &entries, OPTION_LINE, "no_such_group")
        .unwrap()
        .into_iter()
        .collect();
    assert_eq!(notes, "# max_ngram_size = 4\n# swap_weight=4.0\n");
}
