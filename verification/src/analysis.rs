//! The pipeline: normalize, split into sentences, split each sentence into
//! words, annotate each word.
//!
//! The stages run one after the other, each on the whole output of the one
//! before, and nothing is kept between two analyses.

use vstd::prelude::*;
use crate::annotator::{create_token, token_of, Token, TokenView};
use crate::normalizer::normalize_text;
use crate::segmenter::{
    kept, lemma_no_sentence_iff_blank, lemma_piece_shape, lemma_sentences_are_scanned,
    lemma_sentences_are_tight, piece_end, scan, sentences, split_sentences,
};
use crate::text::{blank, trim};
use crate::tokenizer::{
    lemma_word_count, lemma_words_concat, lemma_words_of_tight, lemma_words_of_trimmed, run_count,
    tokenize, words,
};
use crate::trusted::nfc_form;

verus! {

/// The tokens of one sentence, in reading order.
#[derive(Debug, PartialEq, Eq)]
pub struct Sentence {
    pub tokens: Vec<Token>,
}

/// The sentences of one text, in order of appearance.
#[derive(Debug, PartialEq, Eq)]
pub struct AnalysisResult {
    pub sentences: Vec<Sentence>,
}

impl View for Sentence {
    type V = Seq<TokenView>;

    open spec fn view(&self) -> Seq<TokenView> {
        Seq::new(self.tokens@.len(), |i: int| self.tokens@[i]@)
    }
}

impl View for AnalysisResult {
    type V = Seq<Seq<TokenView>>;

    open spec fn view(&self) -> Seq<Seq<TokenView>> {
        Seq::new(self.sentences@.len(), |i: int| self.sentences@[i]@)
    }
}

/// One token for each of `forms`.
pub open spec fn tokens_of(forms: Seq<Seq<char>>) -> Seq<TokenView> {
    Seq::new(forms.len(), |i: int| token_of(forms[i]))
}

/// The tokens of `sentence`: one for each of its words.
pub open spec fn sentence_tokens(sentence: Seq<char>) -> Seq<TokenView> {
    tokens_of(words(sentence))
}

/// The tokens of each of `parts`.
pub open spec fn annotated(parts: Seq<Seq<char>>) -> Seq<Seq<TokenView>> {
    Seq::new(parts.len(), |i: int| sentence_tokens(parts[i]))
}

/// The analysis of a text that is already normalized: the tokens of each of
/// its sentences.
pub open spec fn analysis(normalized: Seq<char>) -> Seq<Seq<TokenView>> {
    annotated(sentences(normalized))
}

/// Tokenizes `sentence` and annotates each word.
pub fn annotate_sentence(sentence: &str) -> (out: Sentence)
    ensures
        out@ == sentence_tokens(sentence@),
{
    let forms = tokenize(sentence);
    let mut tokens: Vec<Token> = Vec::new();
    let mut i: usize = 0;
    while i < forms.len()
        invariant
            i <= forms.len(),
            forms.deep_view() == words(sentence@),
            tokens@.len() == i,
            forall|k: int| 0 <= k < i ==> (#[trigger] tokens@[k])@ == token_of(words(sentence@)[k]),
        decreases forms.len() - i,
    {
        let token = create_token(forms[i].as_str());
        tokens.push(token);
        i += 1;
    }
    Sentence { tokens }
}

/// Runs segmentation, tokenization and annotation over a text that is
/// already normalized.
///
/// There is no sentence exactly when the text is blank, and over all
/// sentences there are as many tokens as the text has maximal runs of
/// visible characters.
pub fn analyze_normalized(text: &str) -> (out: AnalysisResult)
    ensures
        out@ == analysis(text@),
        out@.len() == 0 <==> blank(text@),
        out@.flatten().len() == run_count(text@),
{
    let pieces = split_sentences(text);
    let mut found: Vec<Sentence> = Vec::new();
    let mut i: usize = 0;
    while i < pieces.len()
        invariant
            i <= pieces.len(),
            pieces.deep_view() == sentences(text@),
            found@.len() == i,
            forall|k: int|
                0 <= k < i ==> (#[trigger] found@[k])@ == sentence_tokens(sentences(text@)[k]),
        decreases pieces.len() - i,
    {
        let sentence = annotate_sentence(pieces[i].as_str());
        found.push(sentence);
        i += 1;
    }
    let out = AnalysisResult { sentences: found };
    proof {
        lemma_tokens_are_the_words(text@);
    }
    out
}

/// Analyzes `text`: normalizes it, then segments, tokenizes and annotates
/// the normalized text. The language tag `lang` is accepted and not yet used.
/// The analysis cannot fail.
#[allow(unused_variables)]
pub fn analyze_text_internal(lang: &str, text: &str) -> (out: Result<AnalysisResult, String>)
    ensures
        out is Ok,
        out matches Ok(result) ==> result@ == analysis(nfc_form(text@)),
        out matches Ok(result) ==> (result@.len() == 0 <==> blank(nfc_form(text@))),
        out matches Ok(result) ==> result@.flatten().len() == run_count(nfc_form(text@)),
{
    let normalized = normalize_text(text);
    Ok(analyze_normalized(normalized.as_str()))
}

/// Taken together, the tokens of the sentences found from `from` on are
/// those of the words of the text from there on.
proof fn lemma_scan_tokens(text: Seq<char>, from: int)
    requires
        0 <= from <= text.len(),
    ensures
        annotated(scan(text, from)).flatten() == tokens_of(words(text.skip(from))),
    decreases text.len() - from,
{
    if from < text.len() {
        let end: int = piece_end(text, from);
        lemma_piece_shape(text, from);
        let piece = text.subrange(from, end);
        let behind = text.skip(end);
        lemma_scan_tokens(text, end);
        assert(text.skip(from) =~= piece + behind);
        lemma_words_concat(piece, behind);
        lemma_words_of_trimmed(piece);
        let here = annotated(kept(piece));
        let there = annotated(scan(text, end));
        assert(annotated(scan(text, from)) =~= here + there);
        vstd::seq_lib::lemma_flatten_concat(here, there);
        if trim(piece).len() > 0 {
            here.lemma_flatten_one_element();
        }
    }
}

/// Segmentation neither splits nor loses a word: taken over all sentences,
/// in order, the tokens are those of the words of the whole text. So there are
/// as many tokens as the text has maximal runs of visible characters.
pub proof fn lemma_tokens_are_the_words(normalized: Seq<char>)
    ensures
        analysis(normalized).flatten() == tokens_of(words(normalized)),
        analysis(normalized).flatten().len() == run_count(normalized),
{
    lemma_sentences_are_scanned(normalized);
    lemma_scan_tokens(normalized, 0);
    assert(normalized.skip(0) =~= normalized);
    lemma_word_count(normalized);
}

/// There is a sentence exactly when the text is not blank, and every
/// sentence has at least one token.
pub proof fn lemma_sentences_have_tokens(normalized: Seq<char>)
    ensures
        analysis(normalized).len() == 0 <==> blank(normalized),
        forall|i: int|
            0 <= i < analysis(normalized).len() ==> (#[trigger] analysis(normalized)[i]).len() > 0,
{
    lemma_no_sentence_iff_blank(normalized);
    lemma_sentences_are_tight(normalized);
    assert forall|i: int| 0 <= i < analysis(normalized).len() implies (#[trigger] analysis(
        normalized,
    )[i]).len() > 0 by {
        lemma_words_of_tight(sentences(normalized)[i]);
    }
}

} // verus!
