//! Token annotation: a lemma and a part-of-speech guess for one word form.
//!
//! The guess looks only at how the lower-cased form ends. It stands in for a
//! morphological analyzer and must not be read as a grammatical analysis.

use vstd::prelude::*;
use crate::text::chars_of;
use crate::trusted::{lowercased, to_lowercase};

verus! {

/// One annotated word.
#[derive(Debug, PartialEq, Eq)]
pub struct Token {
    /// The word as it stands in the text.
    pub form: String,
    /// The lower-cased form.
    pub lemma: String,
    /// The part-of-speech tag.
    pub pos: String,
    /// Morphological features as key-value pairs. The heuristic records none.
    pub feats: Vec<(String, String)>,
    /// How the tag was arrived at. Diagnostic only.
    pub grammar_label: String,
    /// The multi-word expression this token belongs to. The heuristic never
    /// assigns one.
    pub mwe_id: Option<u32>,
}

/// What a `Token` holds, as mathematical values.
pub struct TokenView {
    pub form: Seq<char>,
    pub lemma: Seq<char>,
    pub pos: Seq<char>,
    pub feats: Seq<(Seq<char>, Seq<char>)>,
    pub grammar_label: Seq<char>,
    pub mwe_id: Option<u32>,
}

impl View for Token {
    type V = TokenView;

    open spec fn view(&self) -> TokenView {
        TokenView {
            form: self.form@,
            lemma: self.lemma@,
            pos: self.pos@,
            feats: Seq::new(self.feats@.len(), |i: int| (self.feats@[i].0@, self.feats@[i].1@)),
            grammar_label: self.grammar_label@,
            mwe_id: self.mwe_id,
        }
    }
}

/// The tag `VERB`.
pub open spec fn verb() -> Seq<char> {
    seq!['V', 'E', 'R', 'B']
}

/// The tag `NOUN`.
pub open spec fn noun() -> Seq<char> {
    seq!['N', 'O', 'U', 'N']
}

/// The tag `ADJ`.
pub open spec fn adjective() -> Seq<char> {
    seq!['A', 'D', 'J']
}

/// The marker ` (stub)` that every grammar label ends with.
pub open spec fn stub_marker() -> Seq<char> {
    seq![' ', '(', 's', 't', 'u', 'b', ')']
}

/// The form ends like a verb: in `aa`, `ää`, `oi`, `ui`, `in` or `en`.
pub open spec fn verb_ending(lower: Seq<char>) -> bool {
    ||| seq!['a', 'a'].is_suffix_of(lower)
    ||| seq!['\u{e4}', '\u{e4}'].is_suffix_of(lower)
    ||| seq!['o', 'i'].is_suffix_of(lower)
    ||| seq!['u', 'i'].is_suffix_of(lower)
    ||| seq!['i', 'n'].is_suffix_of(lower)
    ||| seq!['e', 'n'].is_suffix_of(lower)
}

/// The form ends like a noun: in `nen`, `ssa`, `ssä`, `lla`, `llä` or `iin`.
pub open spec fn noun_ending(lower: Seq<char>) -> bool {
    ||| seq!['n', 'e', 'n'].is_suffix_of(lower)
    ||| seq!['s', 's', 'a'].is_suffix_of(lower)
    ||| seq!['s', 's', '\u{e4}'].is_suffix_of(lower)
    ||| seq!['l', 'l', 'a'].is_suffix_of(lower)
    ||| seq!['l', 'l', '\u{e4}'].is_suffix_of(lower)
    ||| seq!['i', 'i', 'n'].is_suffix_of(lower)
}

/// The form ends like an adjective: in `inen`.
pub open spec fn adjective_ending(lower: Seq<char>) -> bool {
    seq!['i', 'n', 'e', 'n'].is_suffix_of(lower)
}

/// The tag for a lower-cased form. The endings are tried in the order verb,
/// noun, adjective, and the first that matches decides; a form that matches
/// none is taken for a noun.
pub open spec fn pos_tag(lower: Seq<char>) -> Seq<char> {
    if verb_ending(lower) {
        verb()
    } else if noun_ending(lower) {
        noun()
    } else if adjective_ending(lower) {
        adjective()
    } else {
        noun()
    }
}

/// The token that the heuristic builds for `form`, given its lower-cased
/// spelling `lower`: the lemma is `lower`, the tag is read off its ending, the
/// grammar label is the tag followed by the stub marker, and neither features
/// nor a multi-word expression are recorded.
pub open spec fn heuristic_token(form: Seq<char>, lower: Seq<char>) -> TokenView {
    TokenView {
        form,
        lemma: lower,
        pos: pos_tag(lower),
        feats: Seq::empty(),
        grammar_label: pos_tag(lower) + stub_marker(),
        mwe_id: None,
    }
}

/// The token for `form`.
pub open spec fn token_of(form: Seq<char>) -> TokenView {
    heuristic_token(form, lowercased(form))
}

/// The last `n` characters of `s`, or all of `s` if it has no more than `n`.
pub open spec fn ending(s: Seq<char>, n: nat) -> Seq<char> {
    if s.len() <= n {
        s
    } else {
        s.skip(s.len() - n)
    }
}

/// Decides whether `text` ends with `suffix`.
pub fn ends_with(text: &[char], suffix: &[char]) -> (b: bool)
    ensures
        b == suffix@.is_suffix_of(text@),
{
    let n: usize = text.len();
    let m: usize = suffix.len();
    if m > n {
        return false;
    }
    let mut k: usize = 0;
    while k < m
        invariant
            k <= m <= n,
            n == text@.len(),
            m == suffix@.len(),
            forall|j: int| 0 <= j < k ==> text@[n - m + j] == suffix@[j],
        decreases m - k,
    {
        if text[n - m + k] != suffix[k] {
            return false;
        }
        k += 1;
    }
    true
}

fn is_verb_ending(lower: &[char]) -> (b: bool)
    ensures
        b == verb_ending(lower@),
{
    ends_with(lower, ['a', 'a'].as_slice()) || ends_with(lower, ['\u{e4}', '\u{e4}'].as_slice())
        || ends_with(lower, ['o', 'i'].as_slice()) || ends_with(lower, ['u', 'i'].as_slice())
        || ends_with(lower, ['i', 'n'].as_slice()) || ends_with(lower, ['e', 'n'].as_slice())
}

fn is_noun_ending(lower: &[char]) -> (b: bool)
    ensures
        b == noun_ending(lower@),
{
    ends_with(lower, ['n', 'e', 'n'].as_slice()) || ends_with(lower, ['s', 's', 'a'].as_slice())
        || ends_with(lower, ['s', 's', '\u{e4}'].as_slice()) || ends_with(
        lower,
        ['l', 'l', 'a'].as_slice(),
    ) || ends_with(lower, ['l', 'l', '\u{e4}'].as_slice()) || ends_with(
        lower,
        ['i', 'i', 'n'].as_slice(),
    )
}

fn is_adjective_ending(lower: &[char]) -> (b: bool)
    ensures
        b == adjective_ending(lower@),
{
    ends_with(lower, ['i', 'n', 'e', 'n'].as_slice())
}

/// The part-of-speech tag for a form that is already lower-cased.
pub fn pos_for_lowercase(lower: &str) -> (tag: String)
    ensures
        tag@ == pos_tag(lower@),
{
    let chars = chars_of(lower);
    proof {
        reveal_strlit("VERB");
        reveal_strlit("NOUN");
        reveal_strlit("ADJ");
    }
    if is_verb_ending(chars.as_slice()) {
        "VERB".to_string()
    } else if is_noun_ending(chars.as_slice()) {
        "NOUN".to_string()
    } else if is_adjective_ending(chars.as_slice()) {
        "ADJ".to_string()
    } else {
        "NOUN".to_string()
    }
}

/// Guesses the part of speech of `form` from the ending of its lower-cased
/// spelling.
pub fn guess_pos(form: &str) -> (tag: String)
    ensures
        tag@ == pos_tag(lowercased(form@)),
{
    let lower = to_lowercase(form);
    pos_for_lowercase(lower.as_str())
}

/// Builds the token for `form` from its lower-cased spelling.
pub fn token_from_lowercase(form: &str, lower: String) -> (token: Token)
    ensures
        token@ == heuristic_token(form@, lower@),
{
    let pos = pos_for_lowercase(lower.as_str());
    let mut grammar_label = pos.clone();
    proof {
        reveal_strlit(" (stub)");
        assert(" (stub)"@ =~= stub_marker());
    }
    grammar_label.append(" (stub)");
    let token = Token {
        form: form.to_string(),
        lemma: lower,
        pos,
        feats: Vec::new(),
        grammar_label,
        mwe_id: None,
    };
    assert(token@.feats =~= Seq::empty());
    token
}

/// Annotates one word form.
pub fn create_token(form: &str) -> (token: Token)
    ensures
        token@ == token_of(form@),
{
    let lower = to_lowercase(form);
    token_from_lowercase(form, lower)
}

/// Whether `s` ends with `suffix` can be read off the last `n` characters of
/// `s`, for any `n` that `suffix` fits in.
proof fn lemma_suffix_of_ending(suffix: Seq<char>, s: Seq<char>, n: nat)
    requires
        suffix.len() <= n,
    ensures
        suffix.is_suffix_of(s) <==> suffix.is_suffix_of(ending(s, n)),
{
}

/// The tag is decided by the last four characters of the lower-cased form:
/// two forms that end alike are tagged alike.
pub proof fn lemma_tag_depends_on_ending(a: Seq<char>, b: Seq<char>)
    requires
        ending(a, 4) == ending(b, 4),
    ensures
        pos_tag(a) == pos_tag(b),
{
    assert forall|suffix: Seq<char>| suffix.len() <= 4 implies (suffix.is_suffix_of(a)
        <==> #[trigger] suffix.is_suffix_of(b)) by {
        lemma_suffix_of_ending(suffix, a, 4);
        lemma_suffix_of_ending(suffix, b, 4);
    }
}

/// The tag of a token, and with it the grammar label, is decided by the last
/// four characters of the lower-cased form.
pub proof fn lemma_token_tag_depends_on_ending(a: Seq<char>, b: Seq<char>)
    requires
        ending(lowercased(a), 4) == ending(lowercased(b), 4),
    ensures
        token_of(a).pos == token_of(b).pos,
        token_of(a).grammar_label == token_of(b).grammar_label,
{
    lemma_tag_depends_on_ending(lowercased(a), lowercased(b));
}

/// The endings `nen`, `iin` and `inen` are never reached: a form that ends in
/// one of them also ends in `en` or `in`, and the verb endings are tried
/// first. So the tag is always `VERB` or `NOUN`.
pub proof fn lemma_tag_is_verb_or_noun(lower: Seq<char>)
    ensures
        seq!['n', 'e', 'n'].is_suffix_of(lower) ==> verb_ending(lower),
        seq!['i', 'i', 'n'].is_suffix_of(lower) ==> verb_ending(lower),
        adjective_ending(lower) ==> verb_ending(lower),
        pos_tag(lower) == verb() || pos_tag(lower) == noun(),
{
}

} // verus!
