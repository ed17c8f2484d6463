//! Sentence segmentation: the text is cut after every sentence-ending mark
//! that is followed by whitespace or by nothing.
//!
//! The rule knows no abbreviations, decimal numbers or quotations: a mark
//! before whitespace always ends a sentence.

use vstd::prelude::*;
use crate::cover::{
    interleave, lemma_interleave_first, lemma_interleave_last, lemma_interleave_widen_first,
    lemma_interleave_widen_last, spaced,
};
use crate::text::{
    blank, chars_of, is_white_space, leading, lemma_blank_concat, lemma_trim_padded,
    lemma_trim_shape, string_of, tight, trim, trim_bounds, white_space,
};

verus! {

/// The marks that can end a sentence.
pub open spec fn terminal(c: char) -> bool {
    c == '.' || c == '!' || c == '?'
}

/// A sentence ends at index `i`: the character there is a terminal mark and
/// the one after it is whitespace or missing.
pub open spec fn boundary_at(text: Seq<char>, i: int) -> bool {
    &&& 0 <= i < text.len()
    &&& terminal(text[i])
    &&& (i + 1 == text.len() || white_space(text[i + 1]))
}

/// Where the piece that starts at `from` ends: just past the first boundary
/// at or after `from`, or at the end of the text when there is none.
pub open spec fn piece_end(text: Seq<char>, from: int) -> int
    decreases text.len() - from,
{
    if from < 0 || from >= text.len() {
        text.len() as int
    } else if boundary_at(text, from) {
        from + 1
    } else {
        piece_end(text, from + 1)
    }
}

/// What a piece contributes: its trimmed text, unless that is empty.
pub open spec fn kept(piece: Seq<char>) -> Seq<Seq<char>> {
    if trim(piece).len() == 0 {
        Seq::empty()
    } else {
        seq![trim(piece)]
    }
}

/// The sentences found from index `from` on: the text is cut after every
/// boundary, each piece is trimmed, and empty pieces are dropped.
pub open spec fn scan(text: Seq<char>, from: int) -> Seq<Seq<char>>
    decreases text.len() - from,
    via scan_decreases
{
    if from < 0 || from >= text.len() {
        Seq::empty()
    } else {
        let end: int = piece_end(text, from);
        kept(text.subrange(from, end)) + scan(text, end)
    }
}

#[via_fn]
proof fn scan_decreases(text: Seq<char>, from: int) {
    if 0 <= from < text.len() {
        lemma_piece_shape(text, from);
    }
}

/// The sentences of `text`, in order of appearance. Should the scan find
/// none in a text that is not blank, the whole trimmed text counts as one
/// sentence.
pub open spec fn sentences(text: Seq<char>) -> Seq<Seq<char>> {
    let found = scan(text, 0);
    if found.len() == 0 && trim(text).len() > 0 {
        seq![trim(text)]
    } else {
        found
    }
}

/// `sentence` ends with a terminal mark.
pub open spec fn closed(sentence: Seq<char>) -> bool {
    sentence.len() > 0 && terminal(sentence.last())
}

/// `sentence` holds no boundary before its end, so it cannot be split.
pub open spec fn unbroken(sentence: Seq<char>) -> bool {
    forall|k: int| 0 <= k < sentence.len() - 1 ==> !boundary_at(sentence, k)
}

/// Decides whether `c` is a terminal mark.
pub fn is_terminal(c: char) -> (b: bool)
    ensures
        b == terminal(c),
{
    c == '.' || c == '!' || c == '?'
}

/// Appends to `out` what the piece `chars[from..to]` contributes.
fn push_piece(out: &mut Vec<String>, chars: &[char], from: usize, to: usize)
    requires
        from <= to <= chars@.len(),
    ensures
        final(out).deep_view() == old(out).deep_view() + kept(
            chars@.subrange(from as int, to as int),
        ),
{
    let (a, b): (usize, usize) = trim_bounds(chars, from, to);
    if a < b {
        let sentence = string_of(chars, a, b);
        out.push(sentence);
    }
}

/// Splits `text` into its sentences, in order of appearance. Each sentence
/// keeps its terminal mark. There is none exactly when the text is blank.
pub fn split_sentences(text: &str) -> (out: Vec<String>)
    ensures
        out.deep_view() == sentences(text@),
        out.len() == 0 <==> blank(text@),
{
    let chars = chars_of(text);
    let n: usize = chars.len();
    let mut out: Vec<String> = Vec::new();
    let mut from: usize = 0;
    let mut i: usize = 0;
    while i < n
        invariant
            from <= i <= n,
            n == chars@.len(),
            forall|k: int| from <= k < i ==> !boundary_at(chars@, k),
            out.deep_view() + scan(chars@, from as int) == scan(chars@, 0),
        decreases n - i,
    {
        let c = chars[i];
        i += 1;
        if is_terminal(c) && (i == n || is_white_space(chars[i])) {
            proof {
                lemma_piece_end_skip(chars@, from as int, i - 1);
            }
            push_piece(&mut out, chars.as_slice(), from, i);
            from = i;
        }
    }
    proof {
        lemma_piece_end_skip(chars@, from as int, n as int);
        assert(scan(chars@, n as int) =~= Seq::<Seq<char>>::empty());
    }
    push_piece(&mut out, chars.as_slice(), from, n);
    proof {
        lemma_sentences_are_scanned(chars@);
        lemma_no_sentence_iff_blank(chars@);
    }
    out
}

/// The shape of the piece that starts at `from`: it is not empty and stays
/// within the text; it holds no boundary before its last character; and it
/// ends with a boundary, right before whitespace, unless it runs to the end
/// of the text.
pub proof fn lemma_piece_shape(text: Seq<char>, from: int)
    requires
        0 <= from < text.len(),
    ensures
        from < piece_end(text, from) <= text.len(),
        forall|k: int| from <= k < piece_end(text, from) - 1 ==> !boundary_at(text, k),
        piece_end(text, from) < text.len() ==> boundary_at(text, piece_end(text, from) - 1),
        piece_end(text, from) < text.len() ==> white_space(text[piece_end(text, from)]),
    decreases text.len() - from,
{
    if !boundary_at(text, from) {
        if from + 1 < text.len() {
            lemma_piece_shape(text, from + 1);
        } else {
            assert(piece_end(text, from + 1) == text.len());
        }
    }
}

/// The piece that starts at `from` ends where the piece that starts at `at`
/// does, if no boundary lies between the two.
pub proof fn lemma_piece_end_skip(text: Seq<char>, from: int, at: int)
    requires
        0 <= from <= at <= text.len(),
        forall|k: int| from <= k < at ==> !boundary_at(text, k),
    ensures
        piece_end(text, from) == piece_end(text, at),
    decreases at - from,
{
    if from < at {
        lemma_piece_end_skip(text, from + 1, at);
    }
}

/// The scan finds no sentence from `from` on exactly when the rest of the
/// text is blank.
pub proof fn lemma_scan_empty_iff_blank(text: Seq<char>, from: int)
    requires
        0 <= from <= text.len(),
    ensures
        scan(text, from).len() == 0 <==> blank(text.skip(from)),
    decreases text.len() - from,
{
    if from < text.len() {
        let end: int = piece_end(text, from);
        lemma_piece_shape(text, from);
        let piece = text.subrange(from, end);
        lemma_trim_shape(piece);
        lemma_scan_empty_iff_blank(text, end);
        assert(text.skip(from) =~= piece + text.skip(end));
        lemma_blank_concat(piece, text.skip(end));
    }
}

/// The scan alone already finds a sentence in every text that is not blank,
/// so the sentences of a text are just what the scan finds.
pub proof fn lemma_sentences_are_scanned(text: Seq<char>)
    ensures
        sentences(text) == scan(text, 0),
{
    lemma_scan_empty_iff_blank(text, 0);
    lemma_trim_shape(text);
    assert(text.skip(0) =~= text);
}

/// A text has no sentence exactly when it is blank.
pub proof fn lemma_no_sentence_iff_blank(text: Seq<char>)
    ensures
        sentences(text).len() == 0 <==> blank(text),
{
    lemma_sentences_are_scanned(text);
    lemma_scan_empty_iff_blank(text, 0);
    assert(text.skip(0) =~= text);
}

/// Every sentence that the scan finds is tight.
proof fn lemma_scan_tight(text: Seq<char>, from: int)
    requires
        0 <= from <= text.len(),
    ensures
        forall|i: int| 0 <= i < scan(text, from).len() ==> tight(#[trigger] scan(text, from)[i]),
    decreases text.len() - from,
{
    if from < text.len() {
        let end: int = piece_end(text, from);
        lemma_piece_shape(text, from);
        let piece = text.subrange(from, end);
        lemma_scan_tight(text, end);
        lemma_trim_shape(piece);
        assert forall|i: int| 0 <= i < scan(text, from).len() implies tight(
            #[trigger] scan(text, from)[i],
        ) by {
            if i >= kept(piece).len() {
                assert(scan(text, from)[i] == scan(text, end)[i - kept(piece).len()]);
            }
        }
    }
}

/// No sentence is empty, and none begins or ends with whitespace.
pub proof fn lemma_sentences_are_tight(text: Seq<char>)
    ensures
        forall|i: int| 0 <= i < sentences(text).len() ==> tight(#[trigger] sentences(text)[i]),
{
    lemma_sentences_are_scanned(text);
    lemma_scan_tight(text, 0);
}

/// Every sentence that the scan finds is unbroken, and every one but the
/// last is closed.
proof fn lemma_scan_cuts_at_boundaries(text: Seq<char>, from: int)
    requires
        0 <= from <= text.len(),
    ensures
        forall|i: int|
            0 <= i < scan(text, from).len() ==> unbroken(#[trigger] scan(text, from)[i]),
        forall|i: int|
            0 <= i < scan(text, from).len() - 1 ==> closed(#[trigger] scan(text, from)[i]),
    decreases text.len() - from,
{
    if from < text.len() {
        let end: int = piece_end(text, from);
        lemma_piece_shape(text, from);
        lemma_scan_cuts_at_boundaries(text, end);
        let piece = text.subrange(from, end);
        let behind = scan(text, end);
        lemma_trim_shape(piece);
        let a: int = leading(piece);
        let b: int = a + trim(piece).len();
        if trim(piece).len() > 0 {
            let sentence = trim(piece);
            // A boundary inside the sentence would be one inside the piece.
            assert forall|k: int| 0 <= k < sentence.len() - 1 implies !boundary_at(sentence, k) by {
                assert(!boundary_at(text, from + a + k));
            }
            // A piece that is not the last ends with its mark, which trimming keeps.
            if behind.len() > 0 && b < piece.len() {
                assert(piece.skip(b)[piece.len() - 1 - b] == piece.last());
            }
        }
    }
}

/// The text is cut at its boundaries and nowhere else: no sentence holds a
/// boundary before its end, and every sentence but the last ends with a
/// terminal mark.
pub proof fn lemma_sentences_end_at_boundaries(text: Seq<char>)
    ensures
        forall|i: int| 0 <= i < sentences(text).len() ==> unbroken(#[trigger] sentences(text)[i]),
        forall|i: int|
            0 <= i < sentences(text).len() - 1 ==> closed(#[trigger] sentences(text)[i]),
{
    lemma_sentences_are_scanned(text);
    lemma_scan_cuts_at_boundaries(text, 0);
}

/// The whitespace before, between and after the sentences that the scan
/// finds from `from` on.
spec fn gaps(text: Seq<char>, from: int) -> Seq<Seq<char>>
    decreases text.len() - from,
    via gaps_decreases
{
    if from < 0 || from >= text.len() {
        seq![Seq::empty()]
    } else {
        let end: int = piece_end(text, from);
        let piece = text.subrange(from, end);
        let rest = gaps(text, end);
        if trim(piece).len() == 0 {
            rest.update(0, piece + rest[0])
        } else {
            let a: int = leading(piece);
            let b: int = a + trim(piece).len();
            seq![piece.take(a)] + rest.update(0, piece.skip(b) + rest[0])
        }
    }
}

#[via_fn]
proof fn gaps_decreases(text: Seq<char>, from: int) {
    if 0 <= from < text.len() {
        lemma_piece_shape(text, from);
    }
}

/// From `from` on, the text consists of the sentences found there and the
/// whitespace around them.
proof fn lemma_scan_spaced(text: Seq<char>, from: int)
    requires
        0 <= from <= text.len(),
    ensures
        spaced(text.skip(from), gaps(text, from), scan(text, from)),
    decreases text.len() - from,
{
    if from < text.len() {
        let end: int = piece_end(text, from);
        lemma_piece_shape(text, from);
        let piece = text.subrange(from, end);
        let rest = gaps(text, end);
        let found = scan(text, end);
        lemma_scan_spaced(text, end);
        lemma_trim_shape(piece);
        assert(text.skip(from) =~= piece + text.skip(end));
        if trim(piece).len() == 0 {
            lemma_interleave_widen_first(rest, found, piece);
        } else {
            let a: int = leading(piece);
            let b: int = a + trim(piece).len();
            let lead = piece.take(a);
            let trail = piece.skip(b);
            let behind = rest.update(0, trail + rest[0]);
            let all = seq![lead] + behind;
            let parts = seq![trim(piece)] + found;
            lemma_interleave_widen_first(rest, found, trail);
            assert(all.drop_first() =~= behind);
            assert(parts.drop_first() =~= found);
            assert(lead + trim(piece) + (trail + text.skip(end)) =~= piece + text.skip(end));
        }
    } else {
        assert(text.skip(from) =~= Seq::<char>::empty());
    }
}

/// Segmentation loses nothing but whitespace. The text consists of its
/// sentences, in order, with whitespace before, between and after them; and
/// the trimmed text consists of the sentences with whitespace between them
/// only.
pub proof fn lemma_sentences_cover_text(text: Seq<char>)
    ensures
        exists|around: Seq<Seq<char>>| #[trigger] spaced(text, around, sentences(text)),
        exists|between: Seq<Seq<char>>|
            #[trigger] spaced(trim(text), between, sentences(text)) && between.first().len() == 0
                && between.last().len() == 0,
{
    let parts = sentences(text);
    let around = gaps(text, 0);
    lemma_sentences_are_scanned(text);
    lemma_scan_spaced(text, 0);
    assert(text.skip(0) =~= text);
    let n: int = parts.len() as int;
    let none = Seq::<char>::empty();
    if n == 0 {
        let between = seq![none];
        assert(trim(text) =~= none);
        assert(spaced(trim(text), between, parts));
    } else {
        let headless = around.update(0, none);
        let between = headless.update(n, none);
        lemma_interleave_widen_first(headless, parts, around[0]);
        assert(headless.update(0, around[0] + headless[0]) =~= around);
        lemma_interleave_widen_last(between, parts, around[n]);
        assert(between.update(n, between.last() + around[n]) =~= headless);
        let core = interleave(between, parts);
        assert(text == around[0] + core + around[n]);
        lemma_sentences_are_tight(text);
        lemma_interleave_first(between, parts);
        lemma_interleave_last(between, parts);
        lemma_trim_padded(around[0], core, around[n]);
        assert(spaced(trim(text), between, parts));
    }
}

} // verus!
