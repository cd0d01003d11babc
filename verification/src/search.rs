//! The first element of a sequence that meets a condition.

use vstd::prelude::*;

verus! {

/// The index of the first element of `s` that meets `p`, if there is one.
pub open spec fn find_first<T>(s: Seq<T>, p: spec_fn(T) -> bool) -> Option<int>
    decreases s.len(),
{
    if s.len() == 0 {
        None
    } else {
        match find_first(s.drop_last(), p) {
            Some(i) => Some(i),
            None => if p(s.last()) {
                Some(s.len() - 1)
            } else {
                None
            },
        }
    }
}

/// Whether some element of `s` meets `p`.
pub open spec fn any<T>(s: Seq<T>, p: spec_fn(T) -> bool) -> bool {
    find_first(s, p) is Some
}

/// What `find_first` finds is in range, meets the condition, and nothing
/// before it does; and where it finds nothing, nothing meets the condition.
pub proof fn lemma_find_first<T>(s: Seq<T>, p: spec_fn(T) -> bool)
    ensures
        match find_first(s, p) {
            Some(i) => 0 <= i < s.len() && p(s[i]) && forall|j: int| 0 <= j < i ==> !p(s[j]),
            None => forall|j: int| 0 <= j < s.len() ==> !p(s[j]),
        },
    decreases s.len(),
{
    if s.len() > 0 {
        let t = s.drop_last();
        lemma_find_first(t, p);
        assert(forall|j: int| 0 <= j < t.len() ==> t[j] == s[j]);
    }
}

/// An index that meets the condition, with none before it that does, is
/// the one that `find_first` finds.
pub proof fn lemma_found_first<T>(s: Seq<T>, p: spec_fn(T) -> bool, i: int)
    requires
        0 <= i < s.len(),
        p(s[i]),
        forall|j: int| 0 <= j < i ==> !p(s[j]),
    ensures
        find_first(s, p) == Some(i),
{
    lemma_find_first(s, p);
}

/// Where nothing meets the condition, `find_first` finds nothing.
pub proof fn lemma_found_none<T>(s: Seq<T>, p: spec_fn(T) -> bool)
    requires
        forall|j: int| 0 <= j < s.len() ==> !p(s[j]),
    ensures
        find_first(s, p) is None,
{
    lemma_find_first(s, p);
}

/// What `find_first` finds after one more element is appended.
pub proof fn lemma_find_first_push<T>(s: Seq<T>, x: T, p: spec_fn(T) -> bool)
    ensures
        find_first(s.push(x), p) == match find_first(s, p) {
            Some(i) => Some(i),
            None => if p(x) {
                Some(s.len() as int)
            } else {
                None
            },
        },
{
    assert(s.push(x).drop_last() =~= s);
}

/// Some element meets the condition exactly if `any` says so.
pub proof fn lemma_any<T>(s: Seq<T>, p: spec_fn(T) -> bool)
    ensures
        any(s, p) <==> exists|j: int| 0 <= j < s.len() && p(s[j]),
{
    lemma_find_first(s, p);
}

} // verus!
