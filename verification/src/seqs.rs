//! First-match search over sequences.

use vstd::prelude::*;

verus! {

/// Index of the first element of `s` satisfying `p`, or `s.len()`.
pub open spec fn first_index<T>(s: Seq<T>, p: spec_fn(T) -> bool) -> int
    decreases s.len(),
{
    if s.len() == 0 {
        0
    } else {
        let r = first_index(s.drop_last(), p);
        if r < s.len() - 1 {
            r
        } else if p(s.last()) {
            s.len() - 1
        } else {
            s.len() as int
        }
    }
}

pub proof fn lemma_first_index<T>(s: Seq<T>, p: spec_fn(T) -> bool)
    ensures
        0 <= first_index(s, p) <= s.len(),
        first_index(s, p) < s.len() ==> p(s[first_index(s, p)]),
        forall|j: int| 0 <= j < first_index(s, p) ==> !p(#[trigger] s[j]),
    decreases s.len(),
{
    if s.len() > 0 {
        lemma_first_index(s.drop_last(), p);
        assert forall|j: int| 0 <= j < first_index(s, p) implies !p(#[trigger] s[j]) by {
            if j < s.len() - 1 {
                assert(s.drop_last()[j] == s[j]);
            }
        }
    }
}

pub proof fn lemma_first_index_prefix<T>(s: Seq<T>, j: int, p: spec_fn(T) -> bool)
    requires
        0 <= j <= s.len(),
        first_index(s.take(j), p) < j,
    ensures
        first_index(s, p) == first_index(s.take(j), p),
    decreases s.len() - j,
{
    if j < s.len() {
        assert(s.take(j + 1).drop_last() =~= s.take(j));
        lemma_first_index_prefix(s, j + 1, p);
    } else {
        assert(s.take(j) =~= s);
    }
}

/// Stepping a front-to-back search from `i` to `i + 1` past an element
/// that fails `p`.
pub proof fn lemma_first_index_step<T>(s: Seq<T>, i: int, p: spec_fn(T) -> bool)
    requires
        0 <= i < s.len(),
        first_index(s.take(i), p) == i,
    ensures
        first_index(s.take(i + 1), p) == (if p(s[i]) { i } else { i + 1 }),
        p(s[i]) ==> first_index(s, p) == i,
{
    assert(s.take(i + 1).drop_last() =~= s.take(i));
    if p(s[i]) {
        lemma_first_index_prefix(s, i + 1, p);
    }
}

/// Searching a sequence with one more element at its end.
pub proof fn lemma_first_index_push<T>(s: Seq<T>, x: T, p: spec_fn(T) -> bool)
    ensures
        first_index(s.push(x), p) == (if first_index(s, p) < s.len() {
            first_index(s, p)
        } else if p(x) {
            s.len() as int
        } else {
            s.len() + 1int
        }),
{
    assert(s.push(x).drop_last() =~= s);
    lemma_first_index(s, p);
}

/// At the end of a search that found nothing.
pub proof fn lemma_first_index_end<T>(s: Seq<T>, p: spec_fn(T) -> bool)
    requires
        first_index(s.take(s.len() as int), p) == s.len(),
    ensures
        first_index(s, p) == s.len(),
{
    assert(s.take(s.len() as int) =~= s);
}

} // verus!

verus! {

/// Replacing an element by one that satisfies `p` exactly when the old one
/// did leaves the first match where it was.
pub proof fn lemma_first_index_update<T>(s: Seq<T>, i: int, x: T, p: spec_fn(T) -> bool)
    requires
        0 <= i < s.len(),
        p(x) == p(s[i]),
    ensures
        first_index(s.update(i, x), p) == first_index(s, p),
    decreases s.len(),
{
    let u = s.update(i, x);
    if i < s.len() - 1 {
        assert(u.drop_last() =~= s.drop_last().update(i, x));
        lemma_first_index_update(s.drop_last(), i, x, p);
    } else {
        assert(u.drop_last() =~= s.drop_last());
    }
}

} // verus!
