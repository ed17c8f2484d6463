//! What it means for parts cut out of a text to cover it: between them they
//! leave out nothing but whitespace.

use vstd::prelude::*;
use crate::text::blank;

verus! {

/// The text `gaps[0] + parts[0] + gaps[1] + ... + parts[n - 1] + gaps[n]`,
/// for `n` parts and `n + 1` gaps.
pub open spec fn interleave(gaps: Seq<Seq<char>>, parts: Seq<Seq<char>>) -> Seq<char>
    decreases parts.len(),
{
    if gaps.len() == 0 {
        Seq::empty()
    } else if parts.len() == 0 {
        gaps[0]
    } else {
        gaps[0] + parts[0] + interleave(gaps.drop_first(), parts.drop_first())
    }
}

/// `text` consists of `parts`, in order, with the whitespace `gaps` before,
/// between and after them, and of nothing else.
pub open spec fn spaced(text: Seq<char>, gaps: Seq<Seq<char>>, parts: Seq<Seq<char>>) -> bool {
    &&& gaps.len() == parts.len() + 1
    &&& forall|i: int| 0 <= i < gaps.len() ==> blank(#[trigger] gaps[i])
    &&& interleave(gaps, parts) == text
}

/// Text put in front of the first gap comes out in front of the whole.
pub proof fn lemma_interleave_widen_first(
    gaps: Seq<Seq<char>>,
    parts: Seq<Seq<char>>,
    lead: Seq<char>,
)
    requires
        gaps.len() > 0,
    ensures
        interleave(gaps.update(0, lead + gaps[0]), parts) == lead + interleave(gaps, parts),
{
    if parts.len() > 0 {
        assert(gaps.update(0, lead + gaps[0]).drop_first() =~= gaps.drop_first());
    }
}

/// Text put behind the last gap comes out behind the whole.
pub proof fn lemma_interleave_widen_last(
    gaps: Seq<Seq<char>>,
    parts: Seq<Seq<char>>,
    trail: Seq<char>,
)
    requires
        gaps.len() == parts.len() + 1,
    ensures
        interleave(gaps.update(gaps.len() - 1, gaps.last() + trail), parts) == interleave(
            gaps,
            parts,
        ) + trail,
    decreases parts.len(),
{
    let n: int = gaps.len() - 1;
    if parts.len() > 0 {
        let rest = gaps.drop_first();
        lemma_interleave_widen_last(rest, parts.drop_first(), trail);
        assert(gaps.update(n, gaps.last() + trail).drop_first() =~= rest.update(
            n - 1,
            rest.last() + trail,
        ));
    }
}

/// With an empty first gap, the whole begins as the first part does.
pub proof fn lemma_interleave_first(gaps: Seq<Seq<char>>, parts: Seq<Seq<char>>)
    requires
        gaps.len() == parts.len() + 1,
        parts.len() > 0,
        gaps.first().len() == 0,
        parts.first().len() > 0,
    ensures
        interleave(gaps, parts).len() > 0,
        interleave(gaps, parts).first() == parts.first().first(),
{
}

/// With an empty last gap, the whole ends as the last part does.
pub proof fn lemma_interleave_last(gaps: Seq<Seq<char>>, parts: Seq<Seq<char>>)
    requires
        gaps.len() == parts.len() + 1,
        parts.len() > 0,
        gaps.last().len() == 0,
        parts.last().len() > 0,
    ensures
        interleave(gaps, parts).len() > 0,
        interleave(gaps, parts).last() == parts.last().last(),
    decreases parts.len(),
{
    let tail = interleave(gaps.drop_first(), parts.drop_first());
    if parts.len() == 1 {
        assert(tail == gaps.last());
    } else {
        lemma_interleave_last(gaps.drop_first(), parts.drop_first());
        assert(tail.last() == parts.last().last());
    }
}

} // verus!
