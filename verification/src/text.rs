//! Characters, whitespace and trimming: the vocabulary the stages share.
//!
//! Text is modelled as `Seq<char>`. A character that is not whitespace is
//! called visible. The executable helpers work on a slice of characters and
//! on index ranges into it.

use vstd::prelude::*;

verus! {

/// The characters with the Unicode `White_Space` property.
pub open spec fn white_space(c: char) -> bool {
    let u: u32 = c as u32;
    ||| 0x09 <= u <= 0x0D
    ||| u == 0x20
    ||| u == 0x85
    ||| u == 0xA0
    ||| u == 0x1680
    ||| 0x2000 <= u <= 0x200A
    ||| u == 0x2028
    ||| u == 0x2029
    ||| u == 0x202F
    ||| u == 0x205F
    ||| u == 0x3000
}

/// Every character of `s` is whitespace. The empty text is blank.
pub open spec fn blank(s: Seq<char>) -> bool {
    forall|i: int| 0 <= i < s.len() ==> white_space(#[trigger] s[i])
}

/// `s` is not empty and neither begins nor ends with whitespace.
pub open spec fn tight(s: Seq<char>) -> bool {
    s.len() > 0 && !white_space(s.first()) && !white_space(s.last())
}

/// `s` without its leading whitespace.
pub open spec fn trim_start(s: Seq<char>) -> Seq<char>
    decreases s.len(),
{
    if s.len() > 0 && white_space(s.first()) {
        trim_start(s.drop_first())
    } else {
        s
    }
}

/// `s` without its trailing whitespace.
pub open spec fn trim_end(s: Seq<char>) -> Seq<char>
    decreases s.len(),
{
    if s.len() > 0 && white_space(s.last()) {
        trim_end(s.drop_last())
    } else {
        s
    }
}

/// `s` without its leading and trailing whitespace.
pub open spec fn trim(s: Seq<char>) -> Seq<char> {
    trim_end(trim_start(s))
}

/// How many whitespace characters `s` begins with.
pub open spec fn leading(s: Seq<char>) -> int {
    s.len() - trim_start(s).len()
}

/// Decides whether `c` is a whitespace character.
pub fn is_white_space(c: char) -> (b: bool)
    ensures
        b == white_space(c),
{
    let u: u32 = c as u32;
    (0x09 <= u && u <= 0x0D) || u == 0x20 || u == 0x85 || u == 0xA0 || u == 0x1680 || (0x2000 <= u
        && u <= 0x200A) || u == 0x2028 || u == 0x2029 || u == 0x202F || u == 0x205F || u == 0x3000
}

/// The characters of `text`, in order.
pub fn chars_of(text: &str) -> (chars: Vec<char>)
    ensures
        chars@ == text@,
{
    let mut chars: Vec<char> = Vec::new();
    for c in it: text.chars()
        invariant
            it.seq() == text@,
            chars@ == it.seq().take(it.index()),
    {
        chars.push(c);
    }
    chars
}

/// The text made of the characters `chars[from..to]`.
pub(crate) fn string_of(chars: &[char], from: usize, to: usize) -> (out: String)
    requires
        from <= to <= chars@.len(),
    ensures
        out@ == chars@.subrange(from as int, to as int),
{
    let mut out = String::new();
    let mut i: usize = from;
    while i < to
        invariant
            from <= i <= to <= chars@.len(),
            out@ == chars@.subrange(from as int, i as int),
        decreases to - i,
    {
        out.push(chars[i]);
        i += 1;
    }
    out
}

/// The bounds of `chars[from..to]` once its leading and trailing whitespace
/// is removed. A blank range trims to the empty range at `to`.
pub(crate) fn trim_bounds(chars: &[char], from: usize, to: usize) -> (bounds: (usize, usize))
    requires
        from <= to <= chars@.len(),
    ensures
        from <= bounds.0 <= bounds.1 <= to,
        chars@.subrange(bounds.0 as int, bounds.1 as int) == trim(
            chars@.subrange(from as int, to as int),
        ),
{
    let mut a: usize = from;
    while a < to && is_white_space(chars[a])
        invariant
            from <= a <= to <= chars@.len(),
            forall|i: int| from <= i < a ==> white_space(#[trigger] chars@[i]),
        decreases to - a,
    {
        a += 1;
    }
    let mut b: usize = to;
    while a < b && is_white_space(chars[b - 1])
        invariant
            a <= b <= to <= chars@.len(),
            forall|i: int| b <= i < to ==> white_space(#[trigger] chars@[i]),
        decreases b,
    {
        b -= 1;
    }
    proof {
        lemma_trim_start_range(chars@, from as int, a as int, to as int);
        lemma_trim_end_range(chars@, a as int, b as int, to as int);
    }
    (a, b)
}

/// Skipping a whitespace prefix `[from, a)` of the range `[from, to)` that
/// ends at a visible character, or at `to`, is what `trim_start` does.
pub proof fn lemma_trim_start_range(s: Seq<char>, from: int, a: int, to: int)
    requires
        0 <= from <= a <= to <= s.len(),
        forall|i: int| from <= i < a ==> white_space(#[trigger] s[i]),
        a == to || !white_space(s[a]),
    ensures
        trim_start(s.subrange(from, to)) == s.subrange(a, to),
    decreases a - from,
{
    if from < a {
        assert(s.subrange(from, to).drop_first() == s.subrange(from + 1, to));
        lemma_trim_start_range(s, from + 1, a, to);
    }
}

/// Dropping a whitespace suffix `[b, to)` of the range `[a, to)` that begins
/// after a visible character, or at `a`, is what `trim_end` does.
pub proof fn lemma_trim_end_range(s: Seq<char>, a: int, b: int, to: int)
    requires
        0 <= a <= b <= to <= s.len(),
        forall|i: int| b <= i < to ==> white_space(#[trigger] s[i]),
        b == a || !white_space(s[b - 1]),
    ensures
        trim_end(s.subrange(a, to)) == s.subrange(a, b),
    decreases to - b,
{
    if b < to {
        assert(s.subrange(a, to).drop_last() == s.subrange(a, to - 1));
        lemma_trim_end_range(s, a, b, to - 1);
    }
}

/// What `trim_start` removes is whitespace, and what it leaves does not
/// begin with whitespace.
pub proof fn lemma_trim_start_shape(s: Seq<char>)
    ensures
        0 <= leading(s) <= s.len(),
        trim_start(s) == s.skip(leading(s)),
        blank(s.take(leading(s))),
        leading(s) < s.len() ==> !white_space(s[leading(s)]),
    decreases s.len(),
{
    if s.len() > 0 && white_space(s.first()) {
        let rest = s.drop_first();
        lemma_trim_start_shape(rest);
        let a: int = leading(rest);
        assert forall|i: int| 0 <= i < a + 1 implies white_space(#[trigger] s.take(a + 1)[i]) by {
            if i > 0 {
                assert(s.take(a + 1)[i] == rest.take(a)[i - 1]);
            }
        }
    }
}

/// What `trim_end` removes is whitespace, and what it leaves does not end
/// with whitespace.
pub proof fn lemma_trim_end_shape(s: Seq<char>)
    ensures
        trim_end(s).len() <= s.len(),
        trim_end(s) == s.take(trim_end(s).len() as int),
        blank(s.skip(trim_end(s).len() as int)),
        trim_end(s).len() > 0 ==> !white_space(s[trim_end(s).len() - 1]),
    decreases s.len(),
{
    if s.len() > 0 && white_space(s.last()) {
        let rest = s.drop_last();
        lemma_trim_end_shape(rest);
        let b: int = trim_end(rest).len() as int;
        assert forall|i: int| 0 <= i < s.len() - b implies white_space(#[trigger] s.skip(b)[i]) by {
            if i < rest.len() - b {
                assert(s.skip(b)[i] == rest.skip(b)[i]);
            }
        }
    }
}

/// Trimming keeps one contiguous range of the text. Everything before and
/// after that range is whitespace. The range is empty exactly when the text
/// is blank, and tight otherwise.
pub proof fn lemma_trim_shape(s: Seq<char>)
    ensures
        0 <= leading(s) <= leading(s) + trim(s).len() <= s.len(),
        trim(s) == s.subrange(leading(s), leading(s) + trim(s).len()),
        blank(s.take(leading(s))),
        blank(s.skip(leading(s) + trim(s).len())),
        trim(s).len() == 0 <==> blank(s),
        trim(s).len() > 0 ==> tight(trim(s)),
{
    let a: int = leading(s);
    let t = trim_start(s);
    lemma_trim_start_shape(s);
    lemma_trim_end_shape(t);
    let m: int = trim(s).len() as int;
    assert forall|i: int| 0 <= i < s.len() - (a + m) implies white_space(
        #[trigger] s.skip(a + m)[i],
    ) by {
        assert(s.skip(a + m)[i] == t.skip(m)[i]);
    }
    if m == 0 {
        assert forall|i: int| 0 <= i < s.len() implies white_space(#[trigger] s[i]) by {
            if i < a {
                assert(s[i] == s.take(a)[i]);
            } else {
                assert(s[i] == t.skip(0)[i - a]);
            }
        }
    }
}

/// Two texts are both blank exactly when the one followed by the other is.
pub proof fn lemma_blank_concat(a: Seq<char>, b: Seq<char>)
    ensures
        blank(a + b) <==> blank(a) && blank(b),
{
    if blank(a + b) {
        assert forall|i: int| 0 <= i < a.len() implies white_space(#[trigger] a[i]) by {
            assert(a[i] == (a + b)[i]);
        }
        assert forall|i: int| 0 <= i < b.len() implies white_space(#[trigger] b[i]) by {
            assert(b[i] == (a + b)[i + a.len()]);
        }
    }
}

/// Trimming `lead + core + trail` gives `core` if `lead` and `trail` are
/// blank and `core` is tight.
pub proof fn lemma_trim_padded(lead: Seq<char>, core: Seq<char>, trail: Seq<char>)
    requires
        blank(lead),
        blank(trail),
        tight(core),
    ensures
        trim(lead + core + trail) == core,
{
    let s = lead + core + trail;
    let a: int = lead.len() as int;
    let b: int = a + core.len();
    lemma_trim_start_range(s, 0, a, s.len() as int);
    assert(s.subrange(0, s.len() as int) =~= s);
    lemma_trim_end_range(s, a, b, s.len() as int);
}

} // verus!
