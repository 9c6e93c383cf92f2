//! The first element of a sequence that has a property.
use vstd::prelude::*;

verus! {

/// Whether `i` is the index of the first element of `s` for which `p` holds.
pub open spec fn is_first<A>(s: Seq<A>, p: spec_fn(A) -> bool, i: int) -> bool {
    &&& 0 <= i < s.len()
    &&& p(s[i])
    &&& forall|j: int| 0 <= j < i ==> !p(#[trigger] s[j])
}

/// The index of the first element of `s` for which `p` holds, if any.
pub open spec fn first_index<A>(s: Seq<A>, p: spec_fn(A) -> bool) -> Option<int> {
    if exists|i: int| is_first(s, p, i) {
        Some(choose|i: int| is_first(s, p, i))
    } else {
        None
    }
}

/// A scan that met `p` first at `i` found the first index.
pub proof fn lemma_first_at<A>(s: Seq<A>, p: spec_fn(A) -> bool, i: int)
    requires
        0 <= i < s.len(),
        p(s[i]),
        forall|j: int| 0 <= j < i ==> !p(#[trigger] s[j]),
    ensures
        first_index(s, p) == Some(i),
{
    assert(is_first(s, p, i));
    let k = choose|k: int| is_first(s, p, k);
    assert(is_first(s, p, k));
    if k < i {
        assert(!p(s[k]));
    }
    if i < k {
        assert(!p(s[i]));
    }
}

/// A scan that never met `p` finds no index.
pub proof fn lemma_first_none<A>(s: Seq<A>, p: spec_fn(A) -> bool)
    requires
        forall|j: int| 0 <= j < s.len() ==> !p(#[trigger] s[j]),
    ensures
        first_index(s, p) is None,
{
    if exists|i: int| is_first(s, p, i) {
        let k = choose|k: int| is_first(s, p, k);
        assert(p(s[k]));
    }
}


/// An element with the property means there is a first one.
pub proof fn lemma_first_exists<A>(s: Seq<A>, p: spec_fn(A) -> bool, j: int)
    requires
        0 <= j < s.len(),
        p(s[j]),
    ensures
        exists|i: int| is_first(s, p, i),
    decreases j,
{
    if exists|k: int| 0 <= k < j && p(#[trigger] s[k]) {
        let k = choose|k: int| 0 <= k < j && p(#[trigger] s[k]);
        lemma_first_exists(s, p, k);
    } else {
        assert(is_first(s, p, j));
    }
}

/// No first index means no element has the property.
pub proof fn lemma_first_index_none<A>(s: Seq<A>, p: spec_fn(A) -> bool)
    requires
        first_index(s, p) is None,
    ensures
        forall|j: int| 0 <= j < s.len() ==> !p(#[trigger] s[j]),
{
    assert forall|j: int| 0 <= j < s.len() implies !p(#[trigger] s[j]) by {
        if p(s[j]) {
            lemma_first_exists(s, p, j);
        }
    }
}

} // verus!
