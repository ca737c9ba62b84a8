use qvtf_author::spelling::{
    dictionary_extension, dictionary_lists_word, is_forbidden, merge_custom_words,
    parse_spell_output, spell_config, suggest_arguments, suggestions_from_output,
};

fn strings(v: &[&str]) -> Vec<String> {
    v.iter().map(|s| s.to_string()).collect()
}

#[test]
fn forbidden_american_spellings_are_found_in_any_case() {
    assert!(is_forbidden("Color"));
    assert!(is_forbidden("ORGANIZATION"));
    assert!(is_forbidden("localization"));
    assert!(!is_forbidden("colour"));
    assert!(!is_forbidden("colorfulness"));
    assert!(!is_forbidden("col"));
}

#[test]
fn british_ise_spellings_are_never_forbidden() {
    assert!(!is_forbidden("synthesisation"));
    assert!(!is_forbidden("synthesisations"));
    assert!(!is_forbidden("synthesise"));
    assert!(is_forbidden("synthesization"));
    assert!(is_forbidden("Synthesizations"));
}

#[test]
fn dictionary_extension_follows_the_language() {
    assert_eq!(
        dictionary_extension("fr-FR"),
        Some("node_modules/@cspell/dict-fr-fr/cspell-ext.json".to_string())
    );
    assert_eq!(
        dictionary_extension("PT-br"),
        Some("node_modules/@cspell/dict-pt-br/cspell-ext.json".to_string())
    );
    assert_eq!(
        dictionary_extension("EN_GB"),
        Some("node_modules/@cspell/dict-en-gb/cspell-ext.json".to_string())
    );
    assert_eq!(dictionary_extension("en-US"), None);
    assert_eq!(dictionary_extension("en-GB-oxendict"), None);
}

#[test]
fn default_config_is_british_with_flag_words() {
    let c = spell_config(None, strings(&["qubit"]), None, None);
    assert_eq!(c.language, "en-GB");
    assert_eq!(c.locale, "en-GB");
    assert_eq!(c.words, strings(&["qubit"]));
    assert_eq!(c.import, None);
    assert!(c.dictionaries.is_empty());
    assert_eq!(c.flag_words.len(), 170);
    assert_eq!(c.flag_words[0], "color: colour");
    assert_eq!(c.ignore_patterns.len(), 14);
    assert_eq!(c.ignore_patterns[0], r"\\cite[a-zA-Z]*\{[^}]*\}");
    assert_eq!(c.ignore_patterns[13], r"\\[a-zA-Z]+");
}

#[test]
fn config_for_another_language_switches_dictionaries() {
    let c = spell_config(
        Some("fr-FR".to_string()),
        vec![],
        Some("/x/cspell-ext.json".to_string()),
        Some(true),
    );
    assert!(c.flag_words.is_empty());
    assert_eq!(c.import, Some("/x/cspell-ext.json".to_string()));
    assert_eq!(c.dictionaries, strings(&["!en_us", "!en-gb", "!en-gb-mit", "fr-fr"]));
    let b = spell_config(Some("en-GB".to_string()), vec![], None, Some(false));
    assert!(b.flag_words.is_empty());
    let g = spell_config(Some("en-GB".to_string()), vec![], Some("g.json".to_string()), None);
    assert!(g.dictionaries.is_empty());
    assert_eq!(g.flag_words.len(), 170);
}

#[test]
fn merged_words_keep_global_list_and_add_new_local_words() {
    let m = merge_custom_words(strings(&["a", "b", "a"]), &strings(&["b", "c", "c"]));
    assert_eq!(m, strings(&["a", "b", "a", "c"]));
}

#[test]
fn dictionary_word_lookup_ignores_case() {
    let existing = strings(&["Foo", "bar"]);
    assert!(dictionary_lists_word(&existing, "FOO"));
    assert!(!dictionary_lists_word(&existing, "baz"));
}

#[test]
fn suggestions_skip_the_word_and_forbidden_spellings() {
    let out = "- colour\n- Colour\n- color\n  - hue \nnot a suggestion\n";
    assert_eq!(suggestions_from_output(out, "Colour"), strings(&["hue"]));
}

#[test]
fn suggest_arguments_name_config_where_given() {
    assert_eq!(
        suggest_arguments("wrd", "en-gb", Some("cfg.json".to_string())),
        strings(&["suggest", "--locale", "en-gb", "--config", "cfg.json", "--num-suggestions", "15", "wrd"])
    );
    assert_eq!(
        suggest_arguments("wrd", "de", None),
        strings(&["suggest", "--locale", "de", "--num-suggestions", "15", "wrd"])
    );
}

#[test]
fn spell_reports_of_every_shape_are_read() {
    let content = "line one\n  second line  \nthird recieve line\n";
    let output = "stdin://dummy.md:3:7 - Unknown word (recieve) fix: (receive)\n\
file.tex:2:3 - Unknown word (secnd)\n\
f:1:1 - Unknown word: \"lne\"\n\
f:1:6 - Forbidden word: color\n\
f:9:1 - Info (x)\n\
f:1:2 - Info: nothing\n\
noise\n";
    let errs = parse_spell_output(output, content, &vec![]);
    assert_eq!(errs.len(), 5);
    assert_eq!((errs[0].line, errs[0].col), (3, 7));
    assert_eq!(errs[0].word, "recieve");
    assert_eq!(errs[0].context, "third recieve line");
    assert_eq!(errs[0].suggested, Some("receive".to_string()));
    assert_eq!((errs[1].line, errs[1].col), (2, 3));
    assert_eq!(errs[1].word, "secnd");
    assert_eq!(errs[1].context, "second line");
    assert_eq!(errs[1].suggested, None);
    assert_eq!(errs[2].word, "lne");
    assert_eq!(errs[2].context, "line one");
    assert_eq!(errs[3].word, "color");
    assert_eq!(errs[3].col, 6);
    assert_eq!(errs[4].word, "x");
    assert_eq!(errs[4].line, 9);
    assert_eq!(errs[4].context, "");
}

#[test]
fn ignored_words_are_not_reported() {
    let content = "third recieve line\n";
    let output = "stdin://dummy.md:1:7 - Unknown word (recieve) fix: (receive)\nf:1:1 - Unknown word (third)\n";
    let errs = parse_spell_output(output, content, &strings(&["RECIEVE"]));
    assert_eq!(errs.len(), 1);
    assert_eq!(errs[0].word, "third");
}

#[test]
fn unicode_digits_match_but_give_line_zero() {
    let errs = parse_spell_output("f:\u{663}:2 - Unknown word (abc)\n", "x\n", &vec![]);
    assert_eq!(errs.len(), 1);
    assert_eq!(errs[0].line, 0);
    assert_eq!(errs[0].col, 2);
    assert_eq!(errs[0].context, "");
}
