//! The largest log length that a quorum of followers is known to hold.

use vstd::prelude::*;

verus! {

/// Number of elements of `s` that are at least `v`.
pub open spec fn count_at_least(s: Seq<u64>, v: u64) -> nat
    decreases s.len(),
{
    if s.len() == 0 {
        0
    } else {
        count_at_least(s.drop_last(), v) + if s.last() >= v { 1nat } else { 0nat }
    }
}

/// `v` is the `k`-th largest element of `s`: it occurs in `s`, at least `k`
/// elements are at least `v`, and it is the largest element of `s` with that
/// property.
pub open spec fn is_kth_largest(s: Seq<u64>, k: int, v: u64) -> bool {
    &&& exists|i: int| 0 <= i < s.len() && s[i] == v
    &&& count_at_least(s, v) >= k
    &&& forall|i: int| 0 <= i < s.len() && count_at_least(s, s[i]) >= k ==> s[i] <= v
}

/// The `k`-th largest element of `s` (see `is_kth_largest`).
pub open spec fn kth_largest_of(s: Seq<u64>, k: int) -> u64 {
    choose|v: u64| is_kth_largest(s, k, v)
}

/// Only one value is the `k`-th largest.
pub proof fn lemma_kth_largest_unique(s: Seq<u64>, k: int, v: u64)
    requires
        is_kth_largest(s, k, v),
    ensures
        kth_largest_of(s, k) == v,
{
    let w = kth_largest_of(s, k);
    assert(is_kth_largest(s, k, w));
    let i = choose|i: int| 0 <= i < s.len() && s[i] == v;
    let j = choose|j: int| 0 <= j < s.len() && s[j] == w;
    assert(s[i] <= w);
    assert(s[j] <= v);
}

/// When every element is at least `v`, all of them are counted.
pub proof fn lemma_count_all(s: Seq<u64>, v: u64)
    requires
        forall|j: int| 0 <= j < s.len() ==> s[j] >= v,
    ensures
        count_at_least(s, v) == s.len(),
    decreases s.len(),
{
    if s.len() > 0 {
        lemma_count_all(s.drop_last(), v);
    }
}

/// Position `i` holds a smallest element of `s`.
pub open spec fn is_min_position(s: Seq<u64>, i: int) -> bool {
    &&& 0 <= i < s.len()
    &&& forall|j: int| 0 <= j < s.len() ==> s[j] >= s[i]
}

/// A non-empty sequence has a smallest element.
pub proof fn lemma_has_minimum(s: Seq<u64>)
    requires
        s.len() > 0,
    ensures
        exists|i: int| is_min_position(s, i),
    decreases s.len(),
{
    if s.len() == 1 {
        assert(is_min_position(s, 0));
    } else {
        lemma_has_minimum(s.drop_last());
        let i = choose|i: int| is_min_position(s.drop_last(), i);
        let m = s.len() - 1;
        if s.last() < s[i] {
            assert forall|j: int| 0 <= j < s.len() implies s[j] >= s[m] by {
                if j < m {
                    assert(s.drop_last()[j] >= s.drop_last()[i]);
                }
            }
            assert(is_min_position(s, m));
        } else {
            assert forall|j: int| 0 <= j < s.len() implies s[j] >= s[i] by {
                if j < m {
                    assert(s.drop_last()[j] >= s.drop_last()[i]);
                }
            }
            assert(is_min_position(s, i));
        }
    }
}

/// Counts the elements of `s` that are at least `v`.
pub fn count_at_least_exec(s: &Vec<u64>, v: u64) -> (c: usize)
    ensures
        c == count_at_least(s@, v),
{
    let mut c: usize = 0;
    let mut j: usize = 0;
    while j < s.len()
        invariant
            j <= s@.len(),
            c <= j,
            c == count_at_least(s@.take(j as int), v),
        decreases s@.len() - j,
    {
        proof {
            assert(s@.take(j as int + 1).drop_last() =~= s@.take(j as int));
        }
        if s[j] >= v {
            c = c + 1;
        }
        j = j + 1;
    }
    proof {
        assert(s@.take(j as int) =~= s@);
    }
    c
}

/// The `k`-th largest element of `s`.
pub fn kth_largest(s: &Vec<u64>, k: usize) -> (v: u64)
    requires
        1 <= k <= s@.len(),
    ensures
        is_kth_largest(s@, k as int, v),
        v == kth_largest_of(s@, k as int),
{
    let mut best: u64 = 0;
    let mut found = false;
    let mut i: usize = 0;
    while i < s.len()
        invariant
            i <= s@.len(),
            1 <= k <= s@.len(),
            found ==> exists|j: int| 0 <= j < i && s@[j] == best,
            found ==> count_at_least(s@, best) >= k,
            forall|j: int| 0 <= j < i && count_at_least(s@, s@[j]) >= k ==> found && s@[j] <= best,
        decreases s@.len() - i,
    {
        let c = count_at_least_exec(s, s[i]);
        if c >= k && (!found || s[i] > best) {
            best = s[i];
            found = true;
        }
        i = i + 1;
    }
    proof {
        lemma_has_minimum(s@);
        let m = choose|m: int| is_min_position(s@, m);
        lemma_count_all(s@, s@[m]);
        assert(count_at_least(s@, s@[m]) >= k);
        lemma_kth_largest_unique(s@, k as int, best);
    }
    best
}

} // verus!
