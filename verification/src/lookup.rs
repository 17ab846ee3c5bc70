//! Lookups in lists kept in insertion order: the first element that
//! satisfies a predicate, and the list without the elements that satisfy it.
use vstd::prelude::*;

verus! {

/// `i` is the index of the first element of `s` satisfying `p`.
pub open spec fn is_first_match<T>(s: Seq<T>, p: spec_fn(T) -> bool, i: int) -> bool {
    &&& 0 <= i < s.len()
    &&& p(s[i])
    &&& forall|j: int| 0 <= j < i ==> !p(#[trigger] s[j])
}

/// The index of the first element of `s` satisfying `p`, or -1 where there
/// is none.
pub open spec fn first_match<T>(s: Seq<T>, p: spec_fn(T) -> bool) -> int {
    if exists|i: int| is_first_match(s, p, i) {
        choose|i: int| is_first_match(s, p, i)
    } else {
        -1
    }
}

/// `i` is the index of the last element of `s` satisfying `p`.
pub open spec fn is_last_match<T>(s: Seq<T>, p: spec_fn(T) -> bool, i: int) -> bool {
    &&& 0 <= i < s.len()
    &&& p(s[i])
    &&& forall|j: int| i < j < s.len() ==> !p(#[trigger] s[j])
}

/// The index of the last element of `s` satisfying `p`, or -1 where there
/// is none.
pub open spec fn last_match<T>(s: Seq<T>, p: spec_fn(T) -> bool) -> int {
    if exists|i: int| is_last_match(s, p, i) {
        choose|i: int| is_last_match(s, p, i)
    } else {
        -1
    }
}

/// The elements of `s` that do not satisfy `p`, in order.
pub open spec fn without<T>(s: Seq<T>, p: spec_fn(T) -> bool) -> Seq<T>
    decreases s.len(),
{
    if s.len() == 0 {
        s
    } else if p(s[0]) {
        without(s.drop_first(), p)
    } else {
        seq![s[0]] + without(s.drop_first(), p)
    }
}

pub proof fn lemma_first_match_is<T>(s: Seq<T>, p: spec_fn(T) -> bool, i: int)
    requires
        is_first_match(s, p, i),
    ensures
        first_match(s, p) == i,
{
    let k = choose|k: int| is_first_match(s, p, k);
    assert(is_first_match(s, p, k));
    if k < i {
        assert(!p(s[k]));
    }
    if i < k {
        assert(!p(s[i]));
    }
}

pub proof fn lemma_first_match_none<T>(s: Seq<T>, p: spec_fn(T) -> bool)
    requires
        forall|j: int| 0 <= j < s.len() ==> !p(#[trigger] s[j]),
    ensures
        first_match(s, p) == -1,
{
    if exists|i: int| is_first_match(s, p, i) {
        let k = choose|k: int| is_first_match(s, p, k);
        assert(p(s[k]));
    }
}

pub proof fn lemma_first_match_range<T>(s: Seq<T>, p: spec_fn(T) -> bool)
    ensures
        first_match(s, p) == -1 || is_first_match(s, p, first_match(s, p)),
{
}

/// Where some element satisfies `p`, the first match exists.
pub proof fn lemma_first_match_exists<T>(s: Seq<T>, p: spec_fn(T) -> bool, k: int)
    requires
        0 <= k < s.len(),
        p(s[k]),
    ensures
        0 <= first_match(s, p) <= k,
        is_first_match(s, p, first_match(s, p)),
    decreases k,
{
    if exists|j: int| 0 <= j < k && p(#[trigger] s[j]) {
        let j = choose|j: int| 0 <= j < k && p(#[trigger] s[j]);
        lemma_first_match_exists(s, p, j);
    } else {
        lemma_first_match_is(s, p, k);
    }
}

pub proof fn lemma_last_match_is<T>(s: Seq<T>, p: spec_fn(T) -> bool, i: int)
    requires
        is_last_match(s, p, i),
    ensures
        last_match(s, p) == i,
{
    let k = choose|k: int| is_last_match(s, p, k);
    assert(is_last_match(s, p, k));
    if k < i {
        assert(!p(s[i]));
    }
    if i < k {
        assert(!p(s[k]));
    }
}

pub proof fn lemma_last_match_none<T>(s: Seq<T>, p: spec_fn(T) -> bool)
    requires
        forall|j: int| 0 <= j < s.len() ==> !p(#[trigger] s[j]),
    ensures
        last_match(s, p) == -1,
{
    if exists|i: int| is_last_match(s, p, i) {
        let k = choose|k: int| is_last_match(s, p, k);
        assert(p(s[k]));
    }
}

pub proof fn lemma_last_match_range<T>(s: Seq<T>, p: spec_fn(T) -> bool)
    ensures
        last_match(s, p) == -1 || is_last_match(s, p, last_match(s, p)),
{
}

/// Removing the elements that satisfy `p` from a list with one more element
/// at the back.
pub proof fn lemma_without_push<T>(s: Seq<T>, x: T, p: spec_fn(T) -> bool)
    ensures
        without(s.push(x), p) == if p(x) {
            without(s, p)
        } else {
            without(s, p).push(x)
        },
    decreases s.len(),
{
    if s.len() == 0 {
        assert(s.push(x).drop_first() =~= s);
        assert(without(s, p) =~= Seq::<T>::empty());
        if !p(x) {
            assert(seq![x] + Seq::<T>::empty() =~= Seq::<T>::empty().push(x));
        }
    } else {
        assert(s.push(x).drop_first() =~= s.drop_first().push(x));
        assert(s.push(x)[0] == s[0]);
        lemma_without_push(s.drop_first(), x, p);
        if !p(s[0]) {
            assert(seq![s[0]] + without(s.drop_first(), p).push(x) =~= (seq![s[0]] + without(
                s.drop_first(),
                p,
            )).push(x));
        }
    }
}

/// Nothing that `p` holds of is left.
pub proof fn lemma_without_excludes<T>(s: Seq<T>, p: spec_fn(T) -> bool)
    ensures
        forall|j: int| 0 <= j < without(s, p).len() ==> !p(#[trigger] without(s, p)[j]),
        without(s, p).len() <= s.len(),
    decreases s.len(),
{
    if s.len() > 0 {
        lemma_without_excludes(s.drop_first(), p);
        if !p(s[0]) {
            let w = without(s.drop_first(), p);
            assert forall|j: int| 0 <= j < (seq![s[0]] + w).len() implies !p(
                #[trigger] (seq![s[0]] + w)[j],
            ) by {
                if j > 0 {
                    assert((seq![s[0]] + w)[j] == w[j - 1]);
                }
            }
        }
    }
}

/// Where nothing satisfies `p`, nothing is removed.
pub proof fn lemma_without_none<T>(s: Seq<T>, p: spec_fn(T) -> bool)
    requires
        forall|j: int| 0 <= j < s.len() ==> !p(#[trigger] s[j]),
    ensures
        without(s, p) == s,
    decreases s.len(),
{
    if s.len() > 0 {
        assert forall|j: int| 0 <= j < s.drop_first().len() implies !p(#[trigger] s.drop_first()[j]) by {
            assert(s.drop_first()[j] == s[j + 1]);
        }
        lemma_without_none(s.drop_first(), p);
        assert(!p(s[0]));
        assert(seq![s[0]] + s.drop_first() =~= s);
    }
}

/// Where exactly the element at `i` satisfies `p`, removing it is removing
/// the matches.
pub proof fn lemma_without_single<T>(s: Seq<T>, p: spec_fn(T) -> bool, i: int)
    requires
        0 <= i < s.len(),
        p(s[i]),
        forall|j: int| 0 <= j < s.len() && j != i ==> !p(#[trigger] s[j]),
    ensures
        without(s, p) == s.remove(i),
    decreases s.len(),
{
    if i == 0 {
        assert forall|j: int| 0 <= j < s.drop_first().len() implies !p(#[trigger] s.drop_first()[j]) by {
            assert(s.drop_first()[j] == s[j + 1]);
        }
        lemma_without_none(s.drop_first(), p);
        assert(s.drop_first() =~= s.remove(0));
    } else {
        let t = s.drop_first();
        assert forall|j: int| 0 <= j < t.len() && j != i - 1 implies !p(#[trigger] t[j]) by {
            assert(t[j] == s[j + 1]);
        }
        lemma_without_single(t, p, i - 1);
        assert(!p(s[0]));
        assert(seq![s[0]] + t.remove(i - 1) =~= s.remove(i));
    }
}

} // verus!
