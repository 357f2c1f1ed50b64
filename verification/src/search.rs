//! Positions in a sequence, by the first or the last element that has a property.
use vstd::prelude::*;

verus! {

/// The least index at or after `i` whose element satisfies `p`; the length if there is none.
pub open spec fn first_from<A>(s: Seq<A>, i: int, p: spec_fn(A) -> bool) -> int
    decreases s.len() - i,
{
    if i >= s.len() {
        s.len() as int
    } else if p(s[i]) {
        i
    } else {
        first_from(s, i + 1, p)
    }
}

/// One past the greatest index below `n` whose element satisfies `p`; zero if there is none.
pub open spec fn back_from<A>(s: Seq<A>, n: int, p: spec_fn(A) -> bool) -> int
    decreases n,
{
    if n <= 0 {
        0
    } else if p(s[n - 1]) {
        n
    } else {
        back_from(s, n - 1, p)
    }
}

pub proof fn lemma_first_from<A>(s: Seq<A>, i: int, p: spec_fn(A) -> bool)
    requires
        0 <= i <= s.len(),
    ensures
        i <= first_from(s, i, p) <= s.len(),
        first_from(s, i, p) < s.len() ==> p(s[first_from(s, i, p)]),
        forall|j: int| i <= j < first_from(s, i, p) ==> !p(#[trigger] s[j]),
    decreases s.len() - i,
{
    if i < s.len() && !p(s[i]) {
        lemma_first_from(s, i + 1, p);
    }
}

/// What characterises the result of `first_from`.
pub proof fn lemma_first_from_is<A>(s: Seq<A>, i: int, p: spec_fn(A) -> bool, r: int)
    requires
        0 <= i <= r <= s.len(),
        r < s.len() ==> p(s[r]),
        forall|j: int| i <= j < r ==> !p(#[trigger] s[j]),
    ensures
        first_from(s, i, p) == r,
    decreases s.len() - i,
{
    if i < r {
        assert(!p(s[i]));
        lemma_first_from_is(s, i + 1, p, r);
    }
}

pub proof fn lemma_back_from<A>(s: Seq<A>, n: int, p: spec_fn(A) -> bool)
    requires
        0 <= n <= s.len(),
    ensures
        0 <= back_from(s, n, p) <= n,
        back_from(s, n, p) > 0 ==> p(s[back_from(s, n, p) - 1]),
        forall|j: int| back_from(s, n, p) <= j < n ==> !p(#[trigger] s[j]),
    decreases n,
{
    if n > 0 && !p(s[n - 1]) {
        lemma_back_from(s, n - 1, p);
    }
}

/// What characterises the result of `back_from`.
pub proof fn lemma_back_from_is<A>(s: Seq<A>, n: int, p: spec_fn(A) -> bool, r: int)
    requires
        0 <= r <= n <= s.len(),
        r > 0 ==> p(s[r - 1]),
        forall|j: int| r <= j < n ==> !p(#[trigger] s[j]),
    ensures
        back_from(s, n, p) == r,
    decreases n,
{
    if r < n {
        assert(!p(s[n - 1]));
        lemma_back_from_is(s, n - 1, p, r);
    }
}

} // verus!
