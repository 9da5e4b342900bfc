//! The first element of a sequence that satisfies a predicate.

use vstd::prelude::*;

verus! {

/// The first index at or after `from` whose element satisfies `p`; `s.len()`
/// if there is none.
pub open spec fn first_from<T>(s: Seq<T>, p: spec_fn(T) -> bool, from: int) -> int
    decreases s.len() - from,
{
    if from < 0 || from >= s.len() {
        s.len() as int
    } else if p(s[from]) {
        from
    } else {
        first_from(s, p, from + 1)
    }
}

/// The first index whose element satisfies `p`; `s.len()` if there is none.
pub open spec fn first<T>(s: Seq<T>, p: spec_fn(T) -> bool) -> int {
    first_from(s, p, 0)
}

/// Whether some element satisfies `p`.
pub open spec fn any<T>(s: Seq<T>, p: spec_fn(T) -> bool) -> bool {
    first(s, p) < s.len()
}

/// What `first_from` returns: nothing before it satisfies `p`, and it does
/// unless it is the length.
pub proof fn lemma_first_from<T>(s: Seq<T>, p: spec_fn(T) -> bool, from: int)
    requires
        0 <= from <= s.len(),
    ensures
        from <= first_from(s, p, from) <= s.len(),
        forall|i: int| from <= i < first_from(s, p, from) ==> !p(#[trigger] s[i]),
        first_from(s, p, from) < s.len() ==> p(s[first_from(s, p, from)]),
    decreases s.len() - from,
{
    if from < s.len() && !p(s[from]) {
        lemma_first_from(s, p, from + 1);
    }
}

/// An index with the properties of `lemma_first_from` is the one that
/// `first_from` returns.
pub proof fn lemma_first_from_is<T>(s: Seq<T>, p: spec_fn(T) -> bool, from: int, k: int)
    requires
        0 <= from <= k <= s.len(),
        forall|i: int| from <= i < k ==> !p(#[trigger] s[i]),
        k < s.len() ==> p(s[k]),
    ensures
        first_from(s, p, from) == k,
    decreases k - from,
{
    if from < k {
        lemma_first_from_is(s, p, from + 1, k);
    }
}

/// `any` holds exactly if some element satisfies `p`.
pub proof fn lemma_any<T>(s: Seq<T>, p: spec_fn(T) -> bool)
    ensures
        any(s, p) <==> exists|i: int| 0 <= i < s.len() && p(#[trigger] s[i]),
        0 <= first(s, p) <= s.len(),
        forall|i: int| 0 <= i < first(s, p) ==> !p(#[trigger] s[i]),
        any(s, p) ==> p(s[first(s, p)]),
{
    lemma_first_from(s, p, 0);
}

/// Appending an element leaves an earlier match in place, and else makes
/// the new element the match if it satisfies `p`.
pub proof fn lemma_first_push<T>(s: Seq<T>, p: spec_fn(T) -> bool, x: T)
    ensures
        any(s, p) ==> first(s.push(x), p) == first(s, p),
        !any(s, p) && p(x) ==> first(s.push(x), p) == s.len(),
        !any(s, p) && !p(x) ==> first(s.push(x), p) == s.len() + 1,
{
    lemma_first_from(s, p, 0);
    let k = first(s, p);
    let t = s.push(x);
    assert forall|i: int| 0 <= i < k implies !p(#[trigger] t[i]) by {
        assert(t[i] == s[i]);
    }
    if k < s.len() {
        assert(t[k] == s[k]);
        lemma_first_from_is(t, p, 0, k);
    } else if p(x) {
        lemma_first_from_is(t, p, 0, k);
    } else {
        lemma_first_from_is(t, p, 0, k + 1);
    }
}

/// Replacing an element by one that satisfies `p` exactly if the old one
/// did leaves the first match where it was.
pub proof fn lemma_first_update<T>(s: Seq<T>, p: spec_fn(T) -> bool, k: int, x: T)
    requires
        0 <= k < s.len(),
        p(s[k]) == p(x),
    ensures
        first(s.update(k, x), p) == first(s, p),
{
    lemma_first_from(s, p, 0);
    let t = s.update(k, x);
    let f = first(s, p);
    assert forall|i: int| 0 <= i < f implies !p(#[trigger] t[i]) by {
        if i != k {
            assert(t[i] == s[i]);
        }
    }
    if f < s.len() && f != k {
        assert(t[f] == s[f]);
    }
    lemma_first_from_is(t, p, 0, f);
}

} // verus!
