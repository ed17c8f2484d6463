use parser::{
    analyze_text_internal, create_token, guess_pos, normalize_text, split_sentences, tokenize,
};

const SAMPLES: [&str; 14] = [
    "",
    " ",
    "Hei. Miten menee? Hyvää!",
    "hello world",
    "  leading and trailing  ",
    "One.  Two!\n\nThree?  four",
    "A.  .y",
    "...",
    "a.b c!d e?f",
    "See e.g. this. Dr. Who?! Yes.",
    "Hyva\u{308}a\u{308}! a\u{301}",
    "tabs\tand\u{a0}no-break\u{3000}spaces.",
    "\u{1e0b}\u{323} \u{2126}",
    " . ! ? ",
];

fn visible(text: &str) -> String {
    text.chars().filter(|c| !c.is_whitespace()).collect()
}

#[test]
fn normalization_is_idempotent() {
    for text in SAMPLES {
        let once = normalize_text(text);
        let twice = normalize_text(&once);
        assert_eq!(once, twice, "{:?}", text);
    }
}

#[test]
fn sentences_cover_the_trimmed_text() {
    for text in SAMPLES {
        let text = normalize_text(text);
        let sentences = split_sentences(&text);
        // Walk the trimmed text: the sentences occur in order, with nothing but
        // whitespace between them and nothing around them.
        let mut rest = text.trim();
        for sentence in &sentences {
            assert!(!sentence.is_empty());
            assert_eq!(sentence.trim(), sentence);
            let gap_free = rest.trim_start();
            assert!(gap_free.starts_with(sentence.as_str()), "{:?} in {:?}", sentence, text);
            rest = &gap_free[sentence.len()..];
        }
        assert_eq!(rest, "", "{:?}", text);
    }
}

#[test]
fn no_sentence_exactly_for_blank_text() {
    for text in SAMPLES {
        assert_eq!(split_sentences(text).is_empty(), text.trim().is_empty(), "{:?}", text);
    }
}

#[test]
fn token_count_is_the_number_of_runs() {
    for text in SAMPLES {
        let chars: Vec<char> = text.chars().collect();
        let mut runs = 0;
        for i in 0..chars.len() {
            if !chars[i].is_whitespace() && (i == 0 || chars[i - 1].is_whitespace()) {
                runs += 1;
            }
        }
        assert_eq!(tokenize(text).len(), runs, "{:?}", text);
    }
}

#[test]
fn tokens_hold_every_visible_character() {
    for text in SAMPLES {
        let tokens = tokenize(text);
        for token in &tokens {
            assert!(!token.is_empty());
            assert!(!token.chars().any(|c| c.is_whitespace()));
        }
        assert_eq!(tokens.concat(), visible(text), "{:?}", text);
    }
}

#[test]
fn tokens_over_all_sentences_are_the_words_of_the_text() {
    for text in SAMPLES {
        let result = analyze_text_internal("fi", text).unwrap();
        let normalized = normalize_text(text);
        let found: Vec<String> = result
            .sentences
            .iter()
            .flat_map(|sentence| sentence.tokens.iter().map(|token| token.form.clone()))
            .collect();
        assert_eq!(found, tokenize(&normalized), "{:?}", text);
        assert_eq!(found.len(), normalized.split_whitespace().count());
    }
}

#[test]
fn every_sentence_has_a_token() {
    for text in SAMPLES {
        let result = analyze_text_internal("fi", text).unwrap();
        for sentence in &result.sentences {
            assert!(!sentence.tokens.is_empty(), "{:?}", text);
        }
    }
}

#[test]
fn tag_depends_only_on_the_lowercased_ending() {
    assert_eq!(guess_pos("kirjoittaa"), guess_pos("KIRJOITTAA"));
    assert_eq!(guess_pos("xyzttaa"), guess_pos("kirjoittaa"));
    assert_eq!(guess_pos("ttaa"), guess_pos("kirjoittaa"));
    assert_eq!(guess_pos("ossa"), guess_pos("talossa"));
    assert_eq!(guess_pos("Ossa"), guess_pos("talossa"));
}

#[test]
fn annotation_is_repeatable() {
    for form in ["kirjoittaa", "Talossa", "hello", "", "Hyvää!"] {
        assert_eq!(guess_pos(form), guess_pos(form));
        assert_eq!(create_token(form), create_token(form));
    }
}

#[test]
fn every_sentence_but_the_last_ends_with_a_terminal_mark() {
    for text in SAMPLES {
        let sentences = split_sentences(text);
        for sentence in sentences.iter().rev().skip(1) {
            assert!(sentence.ends_with(['.', '!', '?']), "{:?} in {:?}", sentence, text);
        }
    }
}

#[test]
fn a_sentence_cannot_be_split_again() {
    for text in SAMPLES {
        for sentence in split_sentences(text) {
            assert_eq!(split_sentences(&sentence), vec![sentence.clone()], "{:?}", text);
        }
    }
}

#[test]
fn a_word_cannot_be_split_again() {
    for text in SAMPLES {
        for word in tokenize(text) {
            assert_eq!(tokenize(&word), vec![word.clone()], "{:?}", text);
        }
    }
}

#[test]
fn tag_is_always_verb_or_noun() {
    for text in SAMPLES {
        for word in tokenize(text) {
            let tag = guess_pos(&word);
            assert!(tag == "VERB" || tag == "NOUN", "{:?}", word);
        }
    }
    for form in ["punainen", "hevonen", "taloihiin", "inen", "nen", "iin"] {
        assert_eq!(guess_pos(form), "VERB");
    }
}
