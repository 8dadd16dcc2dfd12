//! The first position in a sequence at which a predicate holds.

use vstd::prelude::*;

verus! {

/// `i` is a position of `s` where `pred` holds and it holds nowhere before.
pub open spec fn is_first<T>(s: Seq<T>, pred: spec_fn(T) -> bool, i: int) -> bool {
    &&& 0 <= i < s.len()
    &&& pred(s[i])
    &&& forall|j: int| 0 <= j < i ==> !pred(#[trigger] s[j])
}

/// The first position of `s` at which `pred` holds, if there is one.
pub open spec fn first_index<T>(s: Seq<T>, pred: spec_fn(T) -> bool) -> Option<int> {
    if exists|i: int| is_first(s, pred, i) {
        Some(choose|i: int| is_first(s, pred, i))
    } else {
        None
    }
}

/// A position that is first is the one `first_index` gives.
pub proof fn lemma_first_index_found<T>(s: Seq<T>, pred: spec_fn(T) -> bool, i: int)
    requires
        is_first(s, pred, i),
    ensures
        first_index(s, pred) == Some(i),
{
    let k = choose|k: int| is_first(s, pred, k);
    assert(is_first(s, pred, k));
    if k < i {
        assert(!pred(s[k]));
    } else if i < k {
        assert(!pred(s[i]));
    }
}

/// When `pred` holds nowhere, there is no first position.
pub proof fn lemma_first_index_none<T>(s: Seq<T>, pred: spec_fn(T) -> bool)
    requires
        forall|j: int| 0 <= j < s.len() ==> !pred(#[trigger] s[j]),
    ensures
        first_index(s, pred) is None,
{
    if exists|i: int| is_first(s, pred, i) {
        let k = choose|k: int| is_first(s, pred, k);
        assert(pred(s[k]));
    }
}

/// `i` is a position of `s` where `pred` holds and it holds nowhere after.
pub open spec fn is_last<T>(s: Seq<T>, pred: spec_fn(T) -> bool, i: int) -> bool {
    &&& 0 <= i < s.len()
    &&& pred(s[i])
    &&& forall|j: int| i < j < s.len() ==> !pred(#[trigger] s[j])
}

/// The last position of `s` at which `pred` holds, if there is one.
pub open spec fn last_index<T>(s: Seq<T>, pred: spec_fn(T) -> bool) -> Option<int> {
    if exists|i: int| is_last(s, pred, i) {
        Some(choose|i: int| is_last(s, pred, i))
    } else {
        None
    }
}

/// A position that is last is the one `last_index` gives.
pub proof fn lemma_last_index_found<T>(s: Seq<T>, pred: spec_fn(T) -> bool, i: int)
    requires
        is_last(s, pred, i),
    ensures
        last_index(s, pred) == Some(i),
{
    let k = choose|k: int| is_last(s, pred, k);
    assert(is_last(s, pred, k));
    if k < i {
        assert(!pred(s[i]));
    } else if i < k {
        assert(!pred(s[k]));
    }
}

/// When `pred` holds nowhere, there is no last position.
pub proof fn lemma_last_index_none<T>(s: Seq<T>, pred: spec_fn(T) -> bool)
    requires
        forall|j: int| 0 <= j < s.len() ==> !pred(#[trigger] s[j]),
    ensures
        last_index(s, pred) is None,
{
    if exists|i: int| is_last(s, pred, i) {
        let k = choose|k: int| is_last(s, pred, k);
        assert(pred(s[k]));
    }
}

/// The position `first_index` gives is first.
pub proof fn lemma_first_is_first<T>(s: Seq<T>, pred: spec_fn(T) -> bool)
    requires
        first_index(s, pred) is Some,
    ensures
        is_first(s, pred, first_index(s, pred)->0),
{
}

/// With no first position, `pred` holds nowhere.
pub proof fn lemma_first_none_means_none<T>(s: Seq<T>, pred: spec_fn(T) -> bool)
    requires
        first_index(s, pred) is None,
    ensures
        forall|j: int| 0 <= j < s.len() ==> !pred(#[trigger] s[j]),
{
    assert forall|j: int| 0 <= j < s.len() implies !pred(#[trigger] s[j]) by {
        if pred(s[j]) {
            lemma_first_exists(s, pred, j);
        }
    }
}

/// Where `pred` holds at `i`, some position is first.
proof fn lemma_first_exists<T>(s: Seq<T>, pred: spec_fn(T) -> bool, i: int)
    requires
        0 <= i < s.len(),
        pred(s[i]),
    ensures
        first_index(s, pred) is Some,
    decreases i,
{
    if forall|j: int| 0 <= j < i ==> !pred(#[trigger] s[j]) {
        assert(is_first(s, pred, i));
    } else {
        let j = choose|j: int| 0 <= j < i && #[trigger] pred(s[j]);
        lemma_first_exists(s, pred, j);
    }
}

/// Pushing onto a sequence adds the element to its set.
pub proof fn lemma_push_to_set<A>(s: Seq<A>, x: A)
    ensures
        s.push(x).to_set() == s.to_set().insert(x),
{
    let t = s.push(x);
    assert forall|a: A| t.contains(a) <==> (s.contains(a) || a == x) by {
        if s.contains(a) {
            let i = choose|i: int| 0 <= i < s.len() && s[i] == a;
            assert(t[i] == a);
        }
        if a == x {
            assert(t[s.len() as int] == x);
        }
        if t.contains(a) {
            let i = choose|i: int| 0 <= i < t.len() && t[i] == a;
            if i < s.len() {
                assert(s[i] == a);
            }
        }
    }
    assert(t.to_set() =~= s.to_set().insert(x));
}

} // verus!
