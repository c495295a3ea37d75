//! First-match search over sequences, the lookup rule that the domain uses
//! everywhere an item is found by its name or id.
use vstd::prelude::*;

verus! {

/// The index of the first element of `s` equal to `x`, if there is one.
pub open spec fn first_index<A>(s: Seq<A>, x: A) -> Option<int>
    decreases s.len(),
{
    if s.len() == 0 {
        None
    } else if s[0] == x {
        Some(0)
    } else {
        match first_index(s.drop_first(), x) {
            Some(i) => Some(i + 1),
            None => None,
        }
    }
}

/// `i` is the position of the first occurrence of `x` in `s`.
pub open spec fn is_first_index<A>(s: Seq<A>, x: A, i: int) -> bool {
    &&& 0 <= i < s.len()
    &&& s[i] == x
    &&& forall|j: int| 0 <= j < i ==> s[j] != x
}

/// `first_index` finds exactly the first occurrence, and nothing when there
/// is none.
pub proof fn lemma_first_index<A>(s: Seq<A>, x: A)
    ensures
        first_index(s, x) is None <==> !s.contains(x),
        first_index(s, x) matches Some(i) ==> is_first_index(s, x, i),
    decreases s.len(),
{
    if s.len() > 0 && s[0] != x {
        let t = s.drop_first();
        lemma_first_index(t, x);
        if s.contains(x) {
            let k = choose|k: int| 0 <= k < s.len() && s[k] == x;
            assert(t[k - 1] == x);
        }
        if t.contains(x) {
            let k = choose|k: int| 0 <= k < t.len() && t[k] == x;
            assert(s[k + 1] == x);
        }
        if let Some(i) = first_index(t, x) {
            assert forall|j: int| 0 <= j < i + 1 implies s[j] != x by {
                if j > 0 {
                    assert(s[j] == t[j - 1]);
                }
            }
        }
    } else if s.len() > 0 {
        assert(s.contains(x)) by {
            assert(s[0] == x);
        }
    }
}

/// A position that is the first occurrence is what `first_index` returns.
pub proof fn lemma_first_index_is<A>(s: Seq<A>, x: A, i: int)
    requires
        is_first_index(s, x, i),
    ensures
        first_index(s, x) == Some(i),
{
    lemma_first_index(s, x);
    assert(s.contains(x));
    let k = first_index(s, x)->0;
    assert(!(k < i));
    assert(!(i < k));
}

} // verus!
