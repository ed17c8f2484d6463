//! Tokenization: the words of a sentence are its maximal runs of characters
//! that are not whitespace. Punctuation is part of the word it touches.

use vstd::prelude::*;
use crate::cover::{lemma_interleave_widen_first, spaced};
use crate::text::{
    blank, chars_of, is_white_space, leading, lemma_trim_shape, string_of, tight, trim, white_space,
};

verus! {

/// The length of the longest prefix of `s` that holds no whitespace.
pub open spec fn word_len(s: Seq<char>) -> nat
    decreases s.len(),
{
    if s.len() > 0 && !white_space(s.first()) {
        1 + word_len(s.drop_first())
    } else {
        0
    }
}

/// The words of `s`, in reading order. Leading whitespace is skipped; then
/// the first word is the longest prefix without whitespace, and the other
/// words are those of what follows it.
pub open spec fn words(s: Seq<char>) -> Seq<Seq<char>>
    decreases s.len(),
    via words_decreases
{
    if s.len() == 0 {
        Seq::empty()
    } else if white_space(s.first()) {
        words(s.drop_first())
    } else {
        seq![s.take(word_len(s) as int)] + words(s.skip(word_len(s) as int))
    }
}

#[via_fn]
proof fn words_decreases(s: Seq<char>) {
    lemma_word_len(s);
}

/// A run of visible characters begins at index `i` of `s`: the character
/// there is not whitespace, and it is the first of the text or follows
/// whitespace.
pub open spec fn word_start(s: Seq<char>, i: int) -> bool {
    &&& 0 <= i < s.len()
    &&& !white_space(s[i])
    &&& (i == 0 || white_space(s[i - 1]))
}

/// The number of indices from `from` on at which a run begins.
pub open spec fn word_starts_from(s: Seq<char>, from: int) -> nat
    decreases s.len() - from,
{
    if from < 0 || from >= s.len() {
        0
    } else if word_start(s, from) {
        1 + word_starts_from(s, from + 1)
    } else {
        word_starts_from(s, from + 1)
    }
}

/// The number of maximal runs of visible characters in `s`.
pub open spec fn run_count(s: Seq<char>) -> nat {
    word_starts_from(s, 0)
}

/// `word` is not empty and holds no whitespace.
pub open spec fn solid(word: Seq<char>) -> bool {
    word.len() > 0 && forall|k: int| 0 <= k < word.len() ==> !white_space(#[trigger] word[k])
}

/// Splits `sentence` into its words, in reading order. Punctuation stays
/// attached to the word it touches. There are as many words as the sentence
/// has maximal runs of visible characters.
pub fn tokenize(sentence: &str) -> (out: Vec<String>)
    ensures
        out.deep_view() == words(sentence@),
        out.len() == run_count(sentence@),
{
    let chars = chars_of(sentence);
    let n: usize = chars.len();
    let mut out: Vec<String> = Vec::new();
    let mut i: usize = 0;
    assert(chars@.skip(0) =~= chars@);
    while i < n
        invariant
            i <= n,
            n == chars@.len(),
            out.deep_view() + words(chars@.skip(i as int)) == words(chars@),
        decreases n - i,
    {
        let ghost rest = chars@.skip(i as int);
        if is_white_space(chars[i]) {
            assert(rest.drop_first() =~= chars@.skip(i + 1));
            i += 1;
        } else {
            let start: usize = i;
            while i < n && !is_white_space(chars[i])
                invariant
                    start <= i <= n,
                    n == chars@.len(),
                    forall|k: int| start <= k < i ==> !white_space(#[trigger] chars@[k]),
                decreases n - i,
            {
                i += 1;
            }
            let word = string_of(chars.as_slice(), start, i);
            out.push(word);
            proof {
                lemma_word_len_is(rest, i - start);
                assert(rest.take(i - start) =~= chars@.subrange(start as int, i as int));
                assert(rest.skip(i - start) =~= chars@.skip(i as int));
            }
        }
    }
    proof {
        lemma_word_count(chars@);
    }
    out
}

/// The first word ends at the first whitespace character, or with the text.
pub proof fn lemma_word_len(s: Seq<char>)
    ensures
        word_len(s) <= s.len(),
        forall|k: int| 0 <= k < word_len(s) ==> !white_space(#[trigger] s[k]),
        word_len(s) < s.len() ==> white_space(s[word_len(s) as int]),
        s.len() > 0 && !white_space(s.first()) ==> word_len(s) > 0,
    decreases s.len(),
{
    if s.len() > 0 && !white_space(s.first()) {
        let rest = s.drop_first();
        lemma_word_len(rest);
        assert forall|k: int| 0 <= k < word_len(s) implies !white_space(#[trigger] s[k]) by {
            if k > 0 {
                assert(s[k] == rest[k - 1]);
            }
        }
    }
}

/// A prefix of `m` visible characters that is followed by whitespace, or by
/// nothing, is the first word.
pub proof fn lemma_word_len_is(s: Seq<char>, m: int)
    requires
        0 <= m <= s.len(),
        forall|k: int| 0 <= k < m ==> !white_space(#[trigger] s[k]),
        m == s.len() || white_space(s[m]),
    ensures
        word_len(s) == m,
    decreases m,
{
    if m > 0 {
        lemma_word_len_is(s.drop_first(), m - 1);
    }
}

/// Blank text has no words.
pub proof fn lemma_words_of_blank(s: Seq<char>)
    requires
        blank(s),
    ensures
        words(s).len() == 0,
    decreases s.len(),
{
    if s.len() > 0 {
        lemma_words_of_blank(s.drop_first());
    }
}

/// Tight text has at least one word.
pub proof fn lemma_words_of_tight(s: Seq<char>)
    requires
        tight(s),
    ensures
        words(s).len() > 0,
{
}

/// The words of `a + b` are those of `a` followed by those of `b`, unless a
/// word straddles the seam: it cannot where one side is empty, `a` ends with
/// whitespace or `b` begins with it.
pub proof fn lemma_words_concat(a: Seq<char>, b: Seq<char>)
    requires
        a.len() == 0 || b.len() == 0 || white_space(a.last()) || white_space(b.first()),
    ensures
        words(a + b) == words(a) + words(b),
    decreases a.len(),
{
    let whole = a + b;
    if a.len() == 0 {
        assert(whole =~= b);
    } else if white_space(a.first()) {
        assert(whole.drop_first() =~= a.drop_first() + b);
        lemma_words_concat(a.drop_first(), b);
    } else {
        // The first word of `a` is the first word of the whole: it ends
        // inside `a`, or at the seam, where a word cannot go on.
        lemma_word_len(a);
        let n: int = word_len(a) as int;
        lemma_word_len_is(whole, n);
        assert(whole.take(n) =~= a.take(n));
        assert(whole.skip(n) =~= a.skip(n) + b);
        lemma_words_concat(a.skip(n), b);
    }
}

/// Trimming a text neither adds nor removes a word.
pub proof fn lemma_words_of_trimmed(s: Seq<char>)
    ensures
        words(trim(s)) == words(s),
{
    lemma_trim_shape(s);
    let a: int = leading(s);
    let b: int = a + trim(s).len();
    let lead = s.take(a);
    let trail = s.skip(b);
    assert(s =~= lead + (trim(s) + trail));
    lemma_words_concat(lead, trim(s) + trail);
    lemma_words_concat(trim(s), trail);
    lemma_words_of_blank(lead);
    lemma_words_of_blank(trail);
}

/// No run begins in `[a, b)` if each character there follows a visible one.
proof fn lemma_no_start_inside(s: Seq<char>, a: int, b: int)
    requires
        0 < a <= b <= s.len(),
        forall|k: int| a <= k < b ==> !white_space(#[trigger] s[k - 1]),
    ensures
        word_starts_from(s, a) == word_starts_from(s, b),
    decreases b - a,
{
    if a < b {
        lemma_no_start_inside(s, a + 1, b);
    }
}

/// From an index that does not lie inside a run, there are as many words
/// ahead as there are run starts.
proof fn lemma_words_from_count(s: Seq<char>, from: int)
    requires
        0 <= from <= s.len(),
        from == 0 || white_space(s[from - 1]),
    ensures
        words(s.skip(from)).len() == word_starts_from(s, from),
    decreases s.len() - from,
{
    let rest = s.skip(from);
    if from == s.len() {
    } else if white_space(s[from]) {
        assert(rest.drop_first() =~= s.skip(from + 1));
        lemma_words_from_count(s, from + 1);
    } else {
        lemma_word_len(rest);
        let n: int = word_len(rest) as int;
        let end: int = from + n;
        assert(rest.skip(n) =~= s.skip(end));
        assert forall|k: int| from + 1 <= k < end implies !white_space(#[trigger] s[k - 1]) by {
            assert(s[k - 1] == rest[k - 1 - from]);
        }
        lemma_no_start_inside(s, from + 1, end);
        if end < s.len() {
            assert(s.skip(end).drop_first() =~= s.skip(end + 1));
            assert(words(s.skip(end)) == words(s.skip(end + 1)));
            lemma_words_from_count(s, end + 1);
        } else {
            assert(words(s.skip(end)).len() == 0);
        }
    }
}

/// There are as many words as maximal runs of visible characters.
pub proof fn lemma_word_count(s: Seq<char>)
    ensures
        words(s).len() == run_count(s),
{
    lemma_words_from_count(s, 0);
    assert(s.skip(0) =~= s);
}

/// The whitespace before, between and after the words of `s`.
spec fn word_gaps(s: Seq<char>) -> Seq<Seq<char>>
    decreases s.len(),
    via word_gaps_decreases
{
    if s.len() == 0 {
        seq![Seq::empty()]
    } else if white_space(s.first()) {
        let rest = word_gaps(s.drop_first());
        rest.update(0, seq![s.first()] + rest[0])
    } else {
        seq![Seq::empty()] + word_gaps(s.skip(word_len(s) as int))
    }
}

#[via_fn]
proof fn word_gaps_decreases(s: Seq<char>) {
    lemma_word_len(s);
}

/// The text consists of its words and the whitespace around them, and each
/// word is solid.
proof fn lemma_words_spaced(s: Seq<char>)
    ensures
        spaced(s, word_gaps(s), words(s)),
        forall|i: int| 0 <= i < words(s).len() ==> solid(#[trigger] words(s)[i]),
    decreases s.len(),
{
    if s.len() == 0 {
        assert(s =~= Seq::<char>::empty());
    } else if white_space(s.first()) {
        let rest = s.drop_first();
        lemma_words_spaced(rest);
        lemma_interleave_widen_first(word_gaps(rest), words(rest), seq![s.first()]);
        assert(seq![s.first()] + rest =~= s);
    } else {
        lemma_word_len(s);
        let n: int = word_len(s) as int;
        let word = s.take(n);
        let rest = s.skip(n);
        lemma_words_spaced(rest);
        assert(word_gaps(s).drop_first() =~= word_gaps(rest));
        assert(words(s).drop_first() =~= words(rest));
        assert(Seq::<char>::empty() + word + rest =~= s);
    }
}

/// Tokenization loses nothing but whitespace, and strips no punctuation: the
/// text consists of its words, in order, with whitespace before, between and
/// after them, and no word is empty or holds whitespace.
pub proof fn lemma_words_cover_text(s: Seq<char>)
    ensures
        exists|around: Seq<Seq<char>>| #[trigger] spaced(s, around, words(s)),
        forall|i: int| 0 <= i < words(s).len() ==> solid(#[trigger] words(s)[i]),
{
    lemma_words_spaced(s);
}

} // verus!
