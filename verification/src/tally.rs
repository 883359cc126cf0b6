//! Sums of weights, and the walk that a weighted draw takes through them.

use vstd::prelude::*;

verus! {

/// The sum of `weights`.
pub open spec fn sum(weights: Seq<nat>) -> nat
    decreases weights.len(),
{
    if weights.len() == 0 {
        0
    } else {
        sum(weights.drop_last()) + weights.last()
    }
}

/// The running sum reaches `draw` at place `i`: the first `i + 1` weights add
/// up to `draw` or more.
pub open spec fn reaches(weights: Seq<nat>, i: int, draw: nat) -> bool {
    0 <= i < weights.len() && sum(weights.take(i + 1)) >= draw
}

/// Place `i` is the first at which the running sum reaches `draw`.
pub open spec fn first_reaching(weights: Seq<nat>, i: int, draw: nat) -> bool {
    reaches(weights, i, draw) && forall|j: int| 0 <= j < i ==> !reaches(weights, j, draw)
}

/// Adding the weight at place `i` to the sum of those before it gives the sum
/// of the first `i + 1`.
pub proof fn lemma_sum_step(weights: Seq<nat>, i: int)
    requires
        0 <= i < weights.len(),
    ensures
        sum(weights.take(i + 1)) == sum(weights.take(i)) + weights[i],
{
    assert(weights.take(i + 1).drop_last() =~= weights.take(i));
}

/// The sum of all of `weights` is the running sum at the end.
pub proof fn lemma_sum_all(weights: Seq<nat>)
    ensures
        sum(weights.take(weights.len() as int)) == sum(weights),
{
    assert(weights.take(weights.len() as int) =~= weights);
}

/// Running sums do not decrease.
pub proof fn lemma_sum_monotone(weights: Seq<nat>, i: int, j: int)
    requires
        0 <= i <= j <= weights.len(),
    ensures
        sum(weights.take(i)) <= sum(weights.take(j)),
    decreases j - i,
{
    if i < j {
        lemma_sum_monotone(weights, i, j - 1);
        lemma_sum_step(weights, j - 1);
    }
}

/// No weight exceeds the sum.
pub proof fn lemma_sum_bounds_each(weights: Seq<nat>, i: int)
    requires
        0 <= i < weights.len(),
    ensures
        weights[i] <= sum(weights),
{
    lemma_sum_step(weights, i);
    lemma_sum_monotone(weights, i + 1, weights.len() as int);
    lemma_sum_all(weights);
}

/// Appending a weight adds it to the sum.
pub proof fn lemma_sum_push(weights: Seq<nat>, x: nat)
    ensures
        sum(weights.push(x)) == sum(weights) + x,
{
    assert(weights.push(x).drop_last() =~= weights);
}

/// Replacing a weight changes the sum by the difference.
pub proof fn lemma_sum_update(weights: Seq<nat>, i: int, x: nat)
    requires
        0 <= i < weights.len(),
    ensures
        sum(weights.update(i, x)) + weights[i] == sum(weights) + x,
    decreases weights.len(),
{
    let n = weights.len() as int;
    if i == n - 1 {
        assert(weights.update(i, x).drop_last() =~= weights.drop_last());
    } else {
        assert(weights.update(i, x).drop_last() =~= weights.drop_last().update(i, x));
        lemma_sum_update(weights.drop_last(), i, x);
    }
}

/// The sum is positive exactly where some weight is.
pub proof fn lemma_sum_positive(weights: Seq<nat>)
    ensures
        sum(weights) > 0 <==> exists|i: int| 0 <= i < weights.len() && weights[i] > 0,
    decreases weights.len(),
{
    if weights.len() > 0 {
        let front = weights.drop_last();
        lemma_sum_positive(front);
        if sum(weights) > 0 {
            if weights.last() > 0 {
                assert(weights[weights.len() - 1] > 0);
            } else {
                let i = choose|i: int| 0 <= i < front.len() && front[i] > 0;
                assert(weights[i] > 0);
            }
        }
        if exists|i: int| 0 <= i < weights.len() && weights[i] > 0 {
            let i = choose|i: int| 0 <= i < weights.len() && weights[i] > 0;
            if i < front.len() {
                assert(front[i] > 0);
            }
        }
    }
}

/// A draw that does not exceed the sum is reached at the last place at the
/// latest.
pub proof fn lemma_draw_is_reached(weights: Seq<nat>, draw: nat)
    requires
        weights.len() > 0,
        draw <= sum(weights),
    ensures
        reaches(weights, weights.len() - 1, draw),
{
    lemma_sum_all(weights);
}

} // verus!
