//! Small facts about sequences used by the proofs.
use vstd::prelude::*;

verus! {

/// An element is in `s.push(x)` exactly when it is in `s` or is `x`.
pub proof fn lemma_push_contains<T>(s: Seq<T>, x: T, t: T)
    ensures
        s.push(x).contains(t) <==> (s.contains(t) || t == x),
{
    if s.contains(t) {
        let i = choose|i: int| 0 <= i < s.len() && s[i] == t;
        assert(s.push(x)[i] == t);
    }
    if t == x {
        assert(s.push(x)[s.len() as int] == x);
    }
    if s.push(x).contains(t) {
        let i = choose|i: int| 0 <= i < s.push(x).len() && s.push(x)[i] == t;
        if i < s.len() {
            assert(s[i] == t);
        }
    }
}

/// Pushing an element that is not there keeps a sequence free of duplicates.
pub proof fn lemma_push_no_duplicates<T>(s: Seq<T>, x: T)
    requires
        s.no_duplicates(),
        !s.contains(x),
    ensures
        s.push(x).no_duplicates(),
{
    assert forall|i: int, j: int| 0 <= i < s.push(x).len() && 0 <= j < s.push(x).len() && i != j
        implies s.push(x)[i] != s.push(x)[j] by {
        if i < s.len() && j < s.len() {
        } else if i < s.len() {
            assert(s[i] == s.push(x)[i]);
        } else {
            assert(s[j] == s.push(x)[j]);
        }
    }
}

} // verus!
