//! Counting over per-participant records: how many participants submitted
//! something with a given property, or how much weight their submissions carry.

use vstd::prelude::*;

verus! {

/// Sum of `w(x)` over the entries `Some(x)` of `s`.
pub open spec fn sum_some<T>(s: Seq<Option<T>>, w: spec_fn(T) -> nat) -> nat
    decreases s.len(),
{
    if s.len() == 0 {
        0
    } else {
        sum_some(s.drop_last(), w) + match s.last() {
            Some(x) => w(x),
            None => 0,
        }
    }
}

/// Number of entries `Some(x)` of `s` with `f(x)`.
pub open spec fn count_some<T>(s: Seq<Option<T>>, f: spec_fn(T) -> bool) -> nat {
    sum_some(s, |x: T| if f(x) { 1nat } else { 0nat })
}

pub proof fn lemma_sum_some_push<T>(s: Seq<Option<T>>, x: Option<T>, w: spec_fn(T) -> nat)
    ensures
        sum_some(s.push(x), w) == sum_some(s, w) + match x {
            Some(y) => w(y),
            None => 0,
        },
{
    assert(s.push(x).drop_last() =~= s);
}

pub proof fn lemma_sum_some_update_none<T>(s: Seq<Option<T>>, p: int, x: T, w: spec_fn(T) -> nat)
    requires
        0 <= p < s.len(),
        s[p] is None,
    ensures
        sum_some(s.update(p, Some(x)), w) == sum_some(s, w) + w(x),
    decreases s.len(),
{
    let t = s.update(p, Some(x));
    if p == s.len() - 1 {
        assert(t.drop_last() =~= s.drop_last());
    } else {
        assert(t.drop_last() =~= s.drop_last().update(p, Some(x)));
        lemma_sum_some_update_none(s.drop_last(), p, x, w);
    }
}

pub proof fn lemma_sum_some_bound<T>(s: Seq<Option<T>>, w: spec_fn(T) -> nat, b: nat)
    requires
        forall|i: int| 0 <= i < s.len() ==> (#[trigger] s[i] matches Some(x) ==> w(x) <= b),
    ensures
        sum_some(s, w) <= b * s.len(),
    decreases s.len(),
{
    if s.len() > 0 {
        let d = s.drop_last();
        assert forall|i: int| 0 <= i < d.len() implies (#[trigger] d[i] matches Some(x) ==> w(x) <= b) by {
            assert(d[i] == s[i]);
        }
        lemma_sum_some_bound(d, w, b);
        assert(s[s.len() - 1] == s.last());
        let l = (s.len() - 1) as nat;
        assert(b * l + b == b * s.len()) by (nonlinear_arith)
            requires l + 1 == s.len();
    }
}

pub proof fn lemma_count_some_bound<T>(s: Seq<Option<T>>, f: spec_fn(T) -> bool)
    ensures
        count_some(s, f) <= s.len(),
{
    lemma_sum_some_bound(s, |x: T| if f(x) { 1nat } else { 0nat }, 1);
}

/// Number of positions of `s` that hold the index `i`.
pub open spec fn occurrences(s: Seq<u8>, i: int) -> nat
    decreases s.len(),
{
    if s.len() == 0 {
        0
    } else {
        occurrences(s.drop_last(), i) + if s.last() as int == i { 1nat } else { 0nat }
    }
}

pub proof fn lemma_occurrences_bound(s: Seq<u8>, i: int)
    ensures
        occurrences(s, i) <= s.len(),
    decreases s.len(),
{
    if s.len() > 0 {
        lemma_occurrences_bound(s.drop_last(), i);
    }
}

/// Occurrences of `i` among the first `k + 1` elements, from those among the first `k`.
pub proof fn lemma_occurrences_take_step(s: Seq<u8>, k: int, i: int)
    requires
        0 <= k < s.len(),
    ensures
        occurrences(s.take(k + 1), i) == occurrences(s.take(k), i) + if s[k] as int == i { 1nat } else { 0nat },
{
    assert(s.take(k + 1).drop_last() =~= s.take(k));
}

pub proof fn lemma_occurrences_take_le(s: Seq<u8>, k: int, i: int)
    requires
        0 <= k <= s.len(),
    ensures
        occurrences(s.take(k), i) <= occurrences(s, i),
    decreases s.len(),
{
    if k < s.len() {
        assert(s.take(k) =~= s.drop_last().take(k));
        lemma_occurrences_take_le(s.drop_last(), k, i);
    } else {
        assert(s.take(k) =~= s);
    }
}

} // verus!

verus! {

/// Where nothing in `s` has the property, the count is 0.
pub proof fn lemma_count_some_zero<T>(s: Seq<Option<T>>, f: spec_fn(T) -> bool)
    requires
        forall|i: int| 0 <= i < s.len() ==> !(#[trigger] s[i] matches Some(x) && f(x)),
    ensures
        count_some(s, f) == 0,
    decreases s.len(),
{
    if s.len() > 0 {
        let d = s.drop_last();
        assert forall|i: int| 0 <= i < d.len() implies !(#[trigger] d[i] matches Some(x) && f(x)) by {
            assert(d[i] == s[i]);
        }
        lemma_count_some_zero(d, f);
        assert(s[s.len() - 1] == s.last());
    }
}

/// Adding a submission `x` where there was none adds 1 to the count exactly when `x` has the property.
pub proof fn lemma_count_some_update_none<T>(s: Seq<Option<T>>, p: int, x: T, f: spec_fn(T) -> bool)
    requires
        0 <= p < s.len(),
        s[p] is None,
    ensures
        count_some(s.update(p, Some(x)), f) == count_some(s, f) + if f(x) { 1nat } else { 0nat },
{
    lemma_sum_some_update_none(s, p, x, |y: T| if f(y) { 1nat } else { 0nat });
}

/// Adding an empty record leaves the count unchanged.
pub proof fn lemma_count_some_push_none<T>(s: Seq<Option<T>>, f: spec_fn(T) -> bool)
    ensures
        count_some(s.push(None), f) == count_some(s, f),
{
    lemma_sum_some_push(s, None, |y: T| if f(y) { 1nat } else { 0nat });
}

} // verus!
