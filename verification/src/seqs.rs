//! Facts about selecting from sequences, and membership tests on vectors of
//! strings.

use vstd::prelude::*;
use crate::text::strs;

verus! {

/// Selecting from the first `i + 1` elements is selecting from the first `i`,
/// followed by element `i` where the predicate holds of it.
pub proof fn lemma_filter_step<A>(s: Seq<A>, keep: spec_fn(A) -> bool, i: int)
    requires
        0 <= i < s.len(),
    ensures
        s.take(i + 1).filter(keep) == if keep(s[i]) {
            s.take(i).filter(keep).push(s[i])
        } else {
            s.take(i).filter(keep)
        },
{
    reveal(Seq::filter);
    assert(s.take(i + 1).drop_last() =~= s.take(i));
}

/// Nothing is selected from the empty prefix, and the whole sequence is its
/// own longest prefix.
pub proof fn lemma_filter_ends<A>(s: Seq<A>, keep: spec_fn(A) -> bool)
    ensures
        s.take(0).filter(keep) == Seq::<A>::empty(),
        s.take(s.len() as int) == s,
{
    reveal(Seq::filter);
    assert(s.take(0) =~= Seq::<A>::empty());
    assert(s.take(s.len() as int) =~= s);
}

/// An element is selected exactly if it occurs and the predicate holds of it.
pub proof fn lemma_filter_contains<A>(s: Seq<A>, keep: spec_fn(A) -> bool, x: A)
    ensures
        s.filter(keep).contains(x) <==> s.contains(x) && keep(x),
    decreases s.len(),
{
    reveal(Seq::filter);
    if s.len() > 0 {
        let front = s.drop_last();
        lemma_filter_contains(front, keep, x);
        if s.contains(x) {
            let i = s.index_of(x);
            if i < front.len() {
                assert(front[i] == x);
            }
        }
        if front.contains(x) {
            let i = front.index_of(x);
            assert(s[i] == x);
        }
        if keep(s.last()) {
            let picked = front.filter(keep);
            assert(s.filter(keep) == picked.push(s.last()));
            if picked.contains(x) {
                let i = picked.index_of(x);
                assert(picked.push(s.last())[i] == x);
            }
            if s.last() == x {
                assert(picked.push(s.last())[picked.len() as int] == x);
                assert(s[s.len() - 1] == x);
            }
        }
    }
}

/// Where the predicate holds of no element, nothing is selected.
pub proof fn lemma_filter_none<A>(s: Seq<A>, keep: spec_fn(A) -> bool)
    requires
        forall|i: int| 0 <= i < s.len() ==> !keep(#[trigger] s[i]),
    ensures
        s.filter(keep) == Seq::<A>::empty(),
    decreases s.len(),
{
    reveal(Seq::filter);
    if s.len() > 0 {
        let front = s.drop_last();
        assert forall|i: int| 0 <= i < front.len() implies !keep(#[trigger] front[i]) by {
            assert(front[i] == s[i]);
        }
        lemma_filter_none(front, keep);
    }
}

/// Whether `needle` is one of the strings in `items`.
pub fn contains_str(items: &Vec<String>, needle: &String) -> (found: bool)
    ensures
        found == strs(items@).contains(needle@),
{
    let mut i: usize = 0;
    while i < items.len()
        invariant
            i <= items.len(),
            forall|j: int| 0 <= j < i ==> strs(items@)[j] != needle@,
        decreases items.len() - i,
    {
        if items[i] == *needle {
            assert(strs(items@)[i as int] == needle@);
            return true;
        }
        i += 1;
    }
    false
}

} // verus!
