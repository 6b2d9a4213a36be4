//! The first item of a sequence that satisfies a test.

use vstd::prelude::*;

verus! {

/// The position of the first item of `s` that satisfies `p`, or the length of
/// `s` where none does.
pub open spec fn first_position<T>(s: Seq<T>, p: spec_fn(T) -> bool) -> int
    decreases s.len(),
{
    if s.len() == 0 {
        0
    } else if p(s[0]) {
        0
    } else {
        1 + first_position(s.drop_first(), p)
    }
}

/// `first_position` is in range, nothing before it satisfies `p`, and the item
/// at it does.
pub proof fn lemma_first_position<T>(s: Seq<T>, p: spec_fn(T) -> bool)
    ensures
        0 <= first_position(s, p) <= s.len(),
        forall|j: int| 0 <= j < first_position(s, p) ==> !p(#[trigger] s[j]),
        first_position(s, p) < s.len() ==> p(s[first_position(s, p)]),
    decreases s.len(),
{
    if s.len() > 0 && !p(s[0]) {
        let rest = s.drop_first();
        lemma_first_position(rest, p);
        assert forall|j: int| 0 <= j < first_position(s, p) implies !p(#[trigger] s[j]) by {
            if j > 0 {
                assert(s[j] == rest[j - 1]);
            }
        }
    }
}

/// The position `i` is `first_position` where nothing before `i` satisfies `p`
/// and `i` is either the end or satisfies `p`.
pub proof fn lemma_first_position_is<T>(s: Seq<T>, p: spec_fn(T) -> bool, i: int)
    requires
        0 <= i <= s.len(),
        forall|j: int| 0 <= j < i ==> !p(#[trigger] s[j]),
        i < s.len() ==> p(s[i]),
    ensures
        first_position(s, p) == i,
{
    lemma_first_position(s, p);
    let q = first_position(s, p);
    if q < i {
        assert(!p(s[q]));
    } else if q > i {
        assert(!p(s[i]));
    }
}

} // verus!
