//! Sums of sequences of quantities.

use vstd::prelude::*;

verus! {

/// The sum of `values`.
pub open spec fn sum(values: Seq<nat>) -> nat
    decreases values.len(),
{
    if values.len() == 0 {
        0
    } else {
        sum(values.drop_last()) + values.last()
    }
}

/// A value put behind the others adds itself to the sum.
pub proof fn lemma_sum_push(values: Seq<nat>, value: nat)
    ensures
        sum(values.push(value)) == sum(values) + value,
{
    assert(values.push(value).drop_last() =~= values);
}

/// The sum of two sequences put together is the sum of their sums.
pub proof fn lemma_sum_concat(a: Seq<nat>, b: Seq<nat>)
    ensures
        sum(a + b) == sum(a) + sum(b),
    decreases b.len(),
{
    if b.len() == 0 {
        assert(a + b =~= a);
    } else {
        lemma_sum_concat(a, b.drop_last());
        assert((a + b).drop_last() =~= a + b.drop_last());
    }
}

/// A value taken out takes itself off the sum.
pub proof fn lemma_sum_remove(values: Seq<nat>, i: int)
    requires
        0 <= i < values.len(),
    ensures
        sum(values.remove(i)) + values[i] == sum(values),
{
    assert(values =~= values.take(i).push(values[i]) + values.skip(i + 1));
    assert(values.remove(i) =~= values.take(i) + values.skip(i + 1));
    lemma_sum_concat(values.take(i).push(values[i]), values.skip(i + 1));
    lemma_sum_concat(values.take(i), values.skip(i + 1));
    lemma_sum_push(values.take(i), values[i]);
}

} // verus!
