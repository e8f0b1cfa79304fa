//! Sequence selections used to state what a query returns: the rows that
//! satisfy a condition, in table order or newest first, and the first row
//! that satisfies it.
use vstd::prelude::*;

verus! {

/// The elements of `s` that satisfy `p`, in order.
pub open spec fn select_asc<T>(s: Seq<T>, p: spec_fn(T) -> bool) -> Seq<T>
    decreases s.len(),
{
    if s.len() == 0 {
        seq![]
    } else if p(s.last()) {
        select_asc(s.drop_last(), p).push(s.last())
    } else {
        select_asc(s.drop_last(), p)
    }
}

/// The elements of `s` that satisfy `p`, last first.
pub open spec fn select_desc<T>(s: Seq<T>, p: spec_fn(T) -> bool) -> Seq<T>
    decreases s.len(),
{
    if s.len() == 0 {
        seq![]
    } else if p(s.last()) {
        seq![s.last()] + select_desc(s.drop_last(), p)
    } else {
        select_desc(s.drop_last(), p)
    }
}

/// The index of the first element of `s` that satisfies `p`.
pub open spec fn first_index<T>(s: Seq<T>, p: spec_fn(T) -> bool) -> Option<int>
    decreases s.len(),
{
    if s.len() == 0 {
        None
    } else {
        match first_index(s.drop_last(), p) {
            Some(i) => Some(i),
            None => if p(s.last()) {
                Some(s.len() - 1)
            } else {
                None
            },
        }
    }
}

/// The first element of `s` that satisfies `p`.
pub open spec fn first_match<T>(s: Seq<T>, p: spec_fn(T) -> bool) -> Option<T> {
    match first_index(s, p) {
        Some(i) => Some(s[i]),
        None => None,
    }
}

/// The number of elements of `s` that satisfy `p`.
pub open spec fn count_where<T>(s: Seq<T>, p: spec_fn(T) -> bool) -> nat
    decreases s.len(),
{
    if s.len() == 0 {
        0
    } else {
        count_where(s.drop_last(), p) + if p(s.last()) {
            1nat
        } else {
            0nat
        }
    }
}

pub proof fn lemma_take_succ<T>(s: Seq<T>, i: int)
    requires
        0 <= i < s.len(),
    ensures
        s.take(i + 1).drop_last() == s.take(i),
        s.take(i + 1).last() == s[i],
{
    assert(s.take(i + 1).drop_last() =~= s.take(i));
}

pub proof fn lemma_take_all<T>(s: Seq<T>)
    ensures
        s.take(s.len() as int) == s,
{
    assert(s.take(s.len() as int) =~= s);
}

/// A first index found in a prefix is the first index of the whole.
pub proof fn lemma_first_index_prefix<T>(s: Seq<T>, p: spec_fn(T) -> bool, k: int)
    requires
        0 <= k <= s.len(),
        first_index(s.take(k), p) is Some,
    ensures
        first_index(s, p) == first_index(s.take(k), p),
        0 <= first_index(s, p)->0 < k,
    decreases s.len() - k,
{
    if k == s.len() {
        lemma_take_all(s);
        lemma_first_index_bounds(s, p);
    } else {
        lemma_take_succ(s, k);
        assert(first_index(s.take(k + 1), p) == first_index(s.take(k), p));
        lemma_first_index_prefix(s, p, k + 1);
        lemma_first_index_bounds(s.take(k), p);
    }
}

pub proof fn lemma_first_index_bounds<T>(s: Seq<T>, p: spec_fn(T) -> bool)
    ensures
        first_index(s, p) matches Some(i) ==> 0 <= i < s.len() && p(s[i]),
        first_index(s, p) is None ==> forall|j: int| 0 <= j < s.len() ==> !p(#[trigger] s[j]),
    decreases s.len(),
{
    if s.len() > 0 {
        lemma_first_index_bounds(s.drop_last(), p);
        assert forall|j: int| 0 <= j < s.len() - 1 implies s.drop_last()[j] == s[j] by {}
    }
}

/// Selecting after a mapping is mapping after selecting.
pub proof fn lemma_select_desc_len<T>(s: Seq<T>, p: spec_fn(T) -> bool)
    ensures
        select_desc(s, p).len() <= s.len(),
    decreases s.len(),
{
    if s.len() > 0 {
        lemma_select_desc_len(s.drop_last(), p);
    }
}

/// Every selected element satisfies the condition and comes from `s`.
pub proof fn lemma_select_desc_members<T>(s: Seq<T>, p: spec_fn(T) -> bool)
    ensures
        forall|k: int|
            0 <= k < select_desc(s, p).len() ==> p(#[trigger] select_desc(s, p)[k]) && s.contains(
                select_desc(s, p)[k],
            ),
    decreases s.len(),
{
    if s.len() > 0 {
        lemma_select_desc_members(s.drop_last(), p);
        let r = select_desc(s, p);
        let q = select_desc(s.drop_last(), p);
        assert forall|k: int| 0 <= k < r.len() implies p(#[trigger] r[k]) && s.contains(r[k]) by {
            if p(s.last()) {
                if k == 0 {
                    assert(s[s.len() - 1] == r[k]);
                } else {
                    assert(r[k] == q[k - 1]);
                    let j = choose|j: int| 0 <= j < s.drop_last().len() && s.drop_last()[j] == q[k - 1];
                    assert(s[j] == r[k]);
                }
            } else {
                assert(r[k] == q[k]);
                let j = choose|j: int| 0 <= j < s.drop_last().len() && s.drop_last()[j] == q[k];
                assert(s[j] == r[k]);
            }
        }
    }
}

/// Selecting the elements whose mapped value satisfies a condition.
pub proof fn lemma_select_asc_members<T>(s: Seq<T>, p: spec_fn(T) -> bool)
    ensures
        forall|k: int|
            0 <= k < select_asc(s, p).len() ==> p(#[trigger] select_asc(s, p)[k]) && s.contains(
                select_asc(s, p)[k],
            ),
        select_asc(s, p).len() <= s.len(),
    decreases s.len(),
{
    if s.len() > 0 {
        lemma_select_asc_members(s.drop_last(), p);
        let r = select_asc(s, p);
        let q = select_asc(s.drop_last(), p);
        assert forall|k: int| 0 <= k < r.len() implies p(#[trigger] r[k]) && s.contains(r[k]) by {
            if k < q.len() {
                assert(r[k] == q[k]);
                let j = choose|j: int| 0 <= j < s.drop_last().len() && s.drop_last()[j] == q[k];
                assert(s[j] == r[k]);
            } else {
                assert(r[k] == s[s.len() - 1]);
            }
        }
    }
}

} // verus!
