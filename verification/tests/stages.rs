use parser::annotator::{
    create_token, ends_with, guess_pos, pos_for_lowercase, token_from_lowercase,
};
use parser::normalizer::normalize_text;
use parser::segmenter::{is_terminal, split_sentences};
use parser::text::{chars_of, is_white_space};
use parser::tokenizer::tokenize;

#[test]
fn test_normalize() {
    let result = normalize_text("test");
    assert_eq!(result, "test");
}

#[test]
fn test_split_sentences() {
    let text = "Hei. Miten menee? Hyvää!";
    let sentences = split_sentences(text);
    assert_eq!(sentences.len(), 3);
}

#[test]
fn test_tokenize() {
    let sentence = "Hei miten menee";
    let tokens = tokenize(sentence);
    assert_eq!(tokens.len(), 3);
}

#[test]
fn normalize_composes_decomposed_characters() {
    assert_eq!(normalize_text("a\u{301}"), "\u{e1}");
    assert_eq!(normalize_text("Hyva\u{308}a\u{308}!"), "Hyvää!");
    assert_eq!(normalize_text("\u{2126}"), "\u{3a9}");
    assert_eq!(normalize_text("\u{1e0b}\u{323}"), "\u{1e0d}\u{307}");
}

#[test]
fn normalize_leaves_composed_text_alone() {
    assert_eq!(normalize_text(""), "");
    assert_eq!(normalize_text("Hei. Miten menee? Hyvää!"), "Hei. Miten menee? Hyvää!");
    assert_eq!(normalize_text("\u{301}a"), "\u{301}a");
}

#[test]
fn whitespace_agrees_with_the_standard_library() {
    let mut code: u32 = 0;
    while code <= 0x10FFFF {
        if let Some(c) = char::from_u32(code) {
            assert_eq!(is_white_space(c), c.is_whitespace(), "U+{:04X}", code);
        }
        code += 1;
    }
}

#[test]
fn whitespace_examples() {
    assert!(is_white_space(' '));
    assert!(is_white_space('\t'));
    assert!(is_white_space('\n'));
    assert!(is_white_space('\u{a0}'));
    assert!(is_white_space('\u{3000}'));
    assert!(!is_white_space('a'));
    assert!(!is_white_space('.'));
    assert!(!is_white_space('\u{200b}'));
    assert!(!is_white_space('\u{8}'));
    assert!(!is_white_space('\u{e}'));
}

#[test]
fn chars_in_order() {
    assert_eq!(chars_of("Hyvää!"), vec!['H', 'y', 'v', 'ä', 'ä', '!']);
    assert_eq!(chars_of("a\u{301}"), vec!['a', '\u{301}']);
    assert_eq!(chars_of(""), Vec::<char>::new());
}

#[test]
fn terminal_marks() {
    assert!(is_terminal('.'));
    assert!(is_terminal('!'));
    assert!(is_terminal('?'));
    assert!(!is_terminal(','));
    assert!(!is_terminal(';'));
    assert!(!is_terminal(' '));
    assert!(!is_terminal('\u{3002}'));
}

#[test]
fn split_keeps_terminal_marks() {
    assert_eq!(
        split_sentences("Hei. Miten menee? Hyvää!"),
        vec!["Hei.", "Miten menee?", "Hyvää!"]
    );
}

#[test]
fn split_empty_and_blank_text() {
    assert_eq!(split_sentences(""), Vec::<String>::new());
    assert_eq!(split_sentences("   "), Vec::<String>::new());
    assert_eq!(split_sentences(" \t\n\u{a0} "), Vec::<String>::new());
}

#[test]
fn split_without_terminal_mark() {
    assert_eq!(split_sentences("hello world"), vec!["hello world"]);
    assert_eq!(split_sentences("  hello world \n"), vec!["hello world"]);
}

#[test]
fn split_needs_whitespace_or_end_after_the_mark() {
    assert_eq!(split_sentences("a.b"), vec!["a.b"]);
    assert_eq!(split_sentences("3.14 is pi."), vec!["3.14 is pi."]);
    assert_eq!(split_sentences("Wait...what?"), vec!["Wait...what?"]);
    assert_eq!(split_sentences("Really?!"), vec!["Really?!"]);
    assert_eq!(split_sentences("Really?! Yes."), vec!["Really?!", "Yes."]);
}

#[test]
fn split_does_not_know_abbreviations() {
    assert_eq!(split_sentences("See e.g. this."), vec!["See e.g.", "this."]);
    assert_eq!(split_sentences("Dr. Who"), vec!["Dr.", "Who"]);
}

#[test]
fn split_punctuation_only() {
    assert_eq!(split_sentences("..."), vec!["..."]);
    assert_eq!(split_sentences("."), vec!["."]);
    assert_eq!(split_sentences(". ."), vec![".", "."]);
    assert_eq!(split_sentences(" ! "), vec!["!"]);
}

#[test]
fn split_trims_like_str_trim() {
    for text in ["a", "  a b  ", "\t\n x", "x \u{a0}", "a  ", "  a", "\u{2003}x\u{3000}"] {
        assert_eq!(split_sentences(text), vec![text.trim()], "{:?}", text);
    }
}

#[test]
fn split_trims_each_sentence() {
    assert_eq!(split_sentences("  One.   Two!\n\nThree?  "), vec!["One.", "Two!", "Three?"]);
    assert_eq!(split_sentences("One.\u{a0}Two"), vec!["One.", "Two"]);
    assert_eq!(split_sentences("One. Two. rest"), vec!["One.", "Two.", "rest"]);
}

#[test]
fn split_looks_at_the_character_that_follows_the_mark() {
    assert_eq!(split_sentences("A.  .y"), vec!["A.", ".y"]);
    assert_eq!(split_sentences("ää. öö.ää üü. x"), vec!["ää.", "öö.ää üü.", "x"]);
}

#[test]
fn tokenize_splits_on_any_whitespace() {
    assert_eq!(tokenize("Hei miten menee"), vec!["Hei", "miten", "menee"]);
    assert_eq!(tokenize("  a \t b\n\nc\u{a0}d\u{3000}e  "), vec!["a", "b", "c", "d", "e"]);
}

#[test]
fn tokenize_keeps_punctuation_attached() {
    assert_eq!(tokenize("Miten menee?"), vec!["Miten", "menee?"]);
    assert_eq!(tokenize("\"Well,\" she said..."), vec!["\"Well,\"", "she", "said..."]);
}

#[test]
fn tokenize_empty_and_blank() {
    assert_eq!(tokenize(""), Vec::<String>::new());
    assert_eq!(tokenize(" \t "), Vec::<String>::new());
    assert_eq!(tokenize("x"), vec!["x"]);
}

#[test]
fn tokenize_agrees_with_split_whitespace() {
    let texts = ["", "a", " a", "a ", "Hei. Miten  menee?", "\u{2003}em\u{2003}space", "a\u{200b}b c"];
    for text in texts {
        let expected: Vec<String> = text.split_whitespace().map(|s| s.to_string()).collect();
        assert_eq!(tokenize(text), expected, "{:?}", text);
    }
}

#[test]
fn ends_with_examples() {
    let text = chars_of("talossa");
    assert!(ends_with(&text, &['s', 's', 'a']));
    assert!(ends_with(&text, &['a']));
    assert!(ends_with(&text, &[]));
    assert!(ends_with(&text, &text));
    assert!(!ends_with(&text, &['s', 's']));
    assert!(!ends_with(&text, &['x', 't', 'a', 'l', 'o', 's', 's', 'a']));
    assert!(!ends_with(&[], &['a']));
    assert!(ends_with(&[], &[]));
}

#[test]
fn verb_endings() {
    for form in ["kirjoittaa", "syödää", "sanoi", "nukkui", "puhelin", "mennen"] {
        assert_eq!(pos_for_lowercase(form), "VERB", "{}", form);
    }
    assert_eq!(pos_for_lowercase("ää"), "VERB");
    assert_eq!(pos_for_lowercase("en"), "VERB");
}

#[test]
fn noun_endings() {
    for form in ["talossa", "metsässä", "pöydällä", "kadulla"] {
        assert_eq!(pos_for_lowercase(form), "NOUN", "{}", form);
    }
}

#[test]
fn default_is_noun() {
    for form in ["hello", "world", "", "a", "n", "talo", "hei.", "aa!", "aä", "äa"] {
        assert_eq!(pos_for_lowercase(form), "NOUN", "{:?}", form);
    }
}

#[test]
fn first_matching_ending_decides() {
    // `nen`, `iin` and `inen` all end like a verb, and the verb endings come first.
    assert_eq!(pos_for_lowercase("hevonen"), "VERB");
    assert_eq!(pos_for_lowercase("taloihiin"), "VERB");
    assert_eq!(pos_for_lowercase("punainen"), "VERB");
    assert_eq!(pos_for_lowercase("inen"), "VERB");
}

#[test]
fn guess_pos_lowers_the_form_first() {
    assert_eq!(guess_pos("KIRJOITTAA"), "VERB");
    assert_eq!(guess_pos("SyöDÄÄ"), "VERB");
    assert_eq!(guess_pos("TALOSSA"), "NOUN");
    assert_eq!(guess_pos("Metsässä"), "NOUN");
    assert_eq!(guess_pos("kirjoittaa"), "VERB");
    assert_eq!(guess_pos("hello"), "NOUN");
    assert_eq!(guess_pos(""), "NOUN");
}

#[test]
fn create_token_fills_every_field() {
    let token = create_token("Kirjoittaa");
    assert_eq!(token.form, "Kirjoittaa");
    assert_eq!(token.lemma, "kirjoittaa");
    assert_eq!(token.pos, "VERB");
    assert!(token.feats.is_empty());
    assert_eq!(token.grammar_label, "VERB (stub)");
    assert_eq!(token.mwe_id, None);
}

#[test]
fn create_token_default_tag() {
    let token = create_token("Hei.");
    assert_eq!(token.form, "Hei.");
    assert_eq!(token.lemma, "hei.");
    assert_eq!(token.pos, "NOUN");
    assert_eq!(token.grammar_label, "NOUN (stub)");
    assert!(token.feats.is_empty());
    assert_eq!(token.mwe_id, None);
}

#[test]
fn token_from_lowercase_uses_the_given_lemma() {
    let token = token_from_lowercase("Taloissa", "taloissa".to_string());
    assert_eq!(token.form, "Taloissa");
    assert_eq!(token.lemma, "taloissa");
    assert_eq!(token.pos, "NOUN");
    assert_eq!(token.grammar_label, "NOUN (stub)");
    let token = token_from_lowercase("X", "menen".to_string());
    assert_eq!(token.form, "X");
    assert_eq!(token.lemma, "menen");
    assert_eq!(token.pos, "VERB");
    assert_eq!(token.grammar_label, "VERB (stub)");
}
