use vstd::prelude::*;

verus! {

/// Sum of a sequence of naturals; the resident-byte accounting of the engine
/// is stated with it at two levels (chunks within an object, objects within
/// the core).
pub open spec fn sum_of(s: Seq<nat>) -> nat
    decreases s.len(),
{
    if s.len() == 0 {
        0
    } else {
        sum_of(s.drop_last()) + s.last()
    }
}

/// Updating one entry moves the sum by exactly the difference of the entries.
pub proof fn lemma_sum_update(s: Seq<nat>, i: int, v: nat)
    requires
        0 <= i < s.len(),
    ensures
        sum_of(s.update(i, v)) + s[i] == sum_of(s) + v,
    decreases s.len(),
{
    if i == s.len() - 1 {
        assert(s.update(i, v).drop_last() =~= s.drop_last());
    } else {
        assert(s.update(i, v).drop_last() =~= s.drop_last().update(i, v));
        lemma_sum_update(s.drop_last(), i, v);
    }
}

/// A sum of naturals dominates each of its entries.
pub proof fn lemma_sum_entry_bound(s: Seq<nat>, i: int)
    requires
        0 <= i < s.len(),
    ensures
        s[i] <= sum_of(s),
    decreases s.len(),
{
    if i < s.len() - 1 {
        lemma_sum_entry_bound(s.drop_last(), i);
    }
}

/// A sum whose entries are all bounded by `m` is at most `len * m`.
pub proof fn lemma_sum_uniform_bound(s: Seq<nat>, m: nat)
    requires
        forall|k: int| 0 <= k < s.len() ==> s[k] <= m,
    ensures
        sum_of(s) <= s.len() * m,
    decreases s.len(),
{
    if s.len() > 0 {
        lemma_sum_uniform_bound(s.drop_last(), m);
        assert(s.len() * m == (s.len() - 1) * m + m) by (nonlinear_arith);
    }
}

} // verus!
