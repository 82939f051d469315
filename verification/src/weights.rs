//! Weighted random selection.
use vstd::prelude::*;

verus! {

/// The sum of a list of weights.
pub open spec fn total_weight(weights: Seq<u16>) -> nat
    decreases weights.len(),
{
    if weights.len() == 0 {
        0
    } else {
        total_weight(weights.drop_last()) + weights.last() as nat
    }
}

/// The entry that a number picks from a list of weights: the first one
/// whose weight, added to the weights before it, exceeds the number; the
/// first of all where the number is not below the sum of the weights.
pub open spec fn pick(weights: Seq<u16>, number: nat) -> nat
    decreases weights.len(),
{
    if weights.len() == 0 {
        0
    } else if number < weights[0] {
        0
    } else {
        let rest = pick(weights.drop_first(), (number - weights[0]) as nat);
        if number - weights[0] < total_weight(weights.drop_first()) {
            rest + 1
        } else {
            0
        }
    }
}

/// The sum of a list is the first weight and the sum of the others.
pub proof fn lemma_total_first(weights: Seq<u16>)
    requires
        weights.len() > 0,
    ensures
        total_weight(weights) == weights[0] as nat + total_weight(weights.drop_first()),
    decreases weights.len(),
{
    if weights.len() == 1 {
        assert(weights.drop_last() =~= Seq::<u16>::empty());
        assert(weights.drop_first() =~= Seq::<u16>::empty());
    } else {
        let front = weights.drop_last();
        lemma_total_first(front);
        assert(front.drop_first() =~= weights.drop_first().drop_last());
        assert(weights.drop_first().last() == weights.last());
    }
}

/// The sum of the first weights of a list is at most the sum of all.
pub proof fn lemma_total_prefix(weights: Seq<u16>, n: int)
    requires
        0 <= n <= weights.len(),
    ensures
        total_weight(weights.subrange(0, n)) <= total_weight(weights),
        total_weight(weights) <= weights.len() * 65535,
    decreases weights.len() - n,
{
    if n < weights.len() {
        lemma_total_prefix(weights, n + 1);
        assert(weights.subrange(0, n + 1).drop_last() =~= weights.subrange(0, n));
    } else {
        assert(weights.subrange(0, n) =~= weights);
        lemma_total_bound(weights);
    }
}

/// No weight is more than 65535, so the sum is at most that for each.
pub proof fn lemma_total_bound(weights: Seq<u16>)
    ensures
        total_weight(weights) <= weights.len() * 65535,
    decreases weights.len(),
{
    if weights.len() > 0 {
        lemma_total_bound(weights.drop_last());
    }
}

/// A number below the sum of the weights picks an entry of the list, one
/// with a weight above zero, and the weights before it sum to no more than
/// the number.
pub proof fn lemma_pick(weights: Seq<u16>, number: nat)
    requires
        number < total_weight(weights),
    ensures
        pick(weights, number) < weights.len(),
        weights[pick(weights, number) as int] > 0,
        total_weight(weights.subrange(0, pick(weights, number) as int)) <= number,
        number < total_weight(weights.subrange(0, pick(weights, number) as int + 1)),
    decreases weights.len(),
{
    if weights.len() > 0 {
        lemma_total_first(weights);
        if number < weights[0] {
            assert(weights.subrange(0, 0) =~= Seq::<u16>::empty());
            assert(weights.subrange(0, 1).drop_last() =~= Seq::<u16>::empty());
        } else {
            let rest = weights.drop_first();
            let less = (number - weights[0]) as nat;
            lemma_pick(rest, less);
            let p = pick(rest, less) as int;
            assert(weights.subrange(0, p + 1).drop_first() =~= rest.subrange(0, p));
            lemma_total_first(weights.subrange(0, p + 1));
            assert(weights.subrange(0, p + 2).drop_first() =~= rest.subrange(0, p + 1));
            lemma_total_first(weights.subrange(0, p + 2));
        }
    }
}

/// An entry whose weight is zero is never picked by a number below the sum
/// of the weights.
pub proof fn lemma_zero_weight_never_wins(weights: Seq<u16>, number: nat, i: int)
    requires
        0 <= i < weights.len(),
        weights[i] == 0,
        number < total_weight(weights),
    ensures
        pick(weights, number) != i,
{
    lemma_pick(weights, number);
}

/// The sum of a list of weights.
pub fn sum_weights(weights: &Vec<u16>) -> (total: u128)
    ensures
        total == total_weight(weights@),
{
    let mut total: u128 = 0;
    let mut i: usize = 0;
    assert(weights@.subrange(0, 0) =~= Seq::<u16>::empty());
    while i < weights.len()
        invariant
            i <= weights.len(),
            total == total_weight(weights@.subrange(0, i as int)),
            total <= i * 65535,
        decreases weights.len() - i,
    {
        assert(weights@.subrange(0, i + 1).drop_last() =~= weights@.subrange(0, i as int));
        total = total + weights[i] as u128;
        i += 1;
    }
    assert(weights@.subrange(0, weights@.len() as int) =~= weights@);
    total
}

/// The entry that a number picks: the first one at which the running sum of
/// the weights exceeds the number.
pub fn pick_weighted(weights: &Vec<u16>, number: u128) -> (winner: usize)
    requires
        number < total_weight(weights@),
    ensures
        winner == pick(weights@, number as nat),
        winner < weights@.len(),
        weights@[winner as int] > 0,
{
    proof {
        lemma_pick(weights@, number as nat);
    }
    let ghost goal = pick(weights@, number as nat) as int;
    let mut tally: u128 = 0;
    let mut i: usize = 0;
    assert(weights@.subrange(0, 0) =~= Seq::<u16>::empty());
    while i < weights.len()
        invariant
            i <= goal < weights@.len(),
            tally == total_weight(weights@.subrange(0, i as int)),
            tally <= i * 65535,
            tally <= number,
            goal == pick(weights@, number as nat),
            total_weight(weights@.subrange(0, goal)) <= number,
            number < total_weight(weights@.subrange(0, goal + 1)),
        decreases weights.len() - i,
    {
        assert(weights@.subrange(0, i + 1).drop_last() =~= weights@.subrange(0, i as int));
        tally = tally + weights[i] as u128;
        if tally > number {
            proof {
                if i < goal {
                    lemma_total_prefix(weights@.subrange(0, goal), i + 1);
                    assert(weights@.subrange(0, goal).subrange(0, i + 1) =~= weights@.subrange(
                        0,
                        i + 1,
                    ));
                }
            }
            return i;
        }
        proof {
            if i == goal {
                assert(false);
            }
        }
        i += 1;
    }
    proof {
        assert(false);
    }
    0
}

} // verus!
