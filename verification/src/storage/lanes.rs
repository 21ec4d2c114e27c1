//! Weighted fairness between the two lanes. A budget counts the high-lane
//! messages that may still go before the next normal-lane message. While the
//! budget lasts the high lane is asked first and each message from it uses the
//! budget up by one; when it is used up the normal lane is asked first and a
//! message from it fills the budget again. A lane that has nothing due lets
//! the other one go, and that leaves the budget as it is.

use vstd::prelude::*;

verus! {

/// The lane that is asked first.
pub open spec fn first_lane(budget: u8) -> u8 {
    if budget > 0 {
        0
    } else {
        1
    }
}

/// The budget after a message came from `lane`, the lane asked first or the
/// other one.
pub open spec fn budget_after(ratio: u8, budget: u8, lane: u8) -> u8 {
    if lane == first_lane(budget) {
        if lane == 0 {
            (budget - 1) as u8
        } else {
            ratio
        }
    } else {
        budget
    }
}

/// The lane to ask first.
pub fn choose_first_lane(budget: u8) -> (lane: u8)
    ensures
        lane == first_lane(budget),
{
    if budget > 0 {
        0
    } else {
        1
    }
}

/// The budget after a message came from `lane`.
pub fn spend(ratio: u8, budget: u8, lane: u8) -> (left: u8)
    ensures
        left == budget_after(ratio, budget, lane),
{
    if budget > 0 {
        if lane == 0 {
            budget - 1
        } else {
            budget
        }
    } else {
        if lane == 1 {
            ratio
        } else {
            budget
        }
    }
}

/// The budget after `n` messages in a row, while both lanes always have a
/// message due.
pub open spec fn budget_after_run(ratio: u8, budget: u8, n: nat) -> u8
    decreases n,
{
    if n == 0 {
        budget
    } else {
        budget_after_run(ratio, budget_after(ratio, budget, first_lane(budget)), (n - 1) as nat)
    }
}

/// How many of the next `n` messages come from the normal lane, while both
/// lanes always have a message due.
pub open spec fn normal_picks(ratio: u8, budget: u8, n: nat) -> nat
    decreases n,
{
    if n == 0 {
        0
    } else {
        (if first_lane(budget) == 1 {
            1nat
        } else {
            0nat
        }) + normal_picks(
            ratio,
            budget_after(ratio, budget, first_lane(budget)),
            (n - 1) as nat,
        )
    }
}

/// How many of the next `n` messages come from the high lane, while both lanes
/// always have a message due.
pub open spec fn high_picks(ratio: u8, budget: u8, n: nat) -> nat {
    (n - normal_picks(ratio, budget, n)) as nat
}

/// A run of `a + b` messages is a run of `a` and then a run of `b`.
pub proof fn lemma_run_split(ratio: u8, budget: u8, a: nat, b: nat)
    ensures
        normal_picks(ratio, budget, a + b) == normal_picks(ratio, budget, a) + normal_picks(
            ratio,
            budget_after_run(ratio, budget, a),
            b,
        ),
        budget_after_run(ratio, budget, a + b) == budget_after_run(
            ratio,
            budget_after_run(ratio, budget, a),
            b,
        ),
        normal_picks(ratio, budget, a) <= a,
    decreases a,
{
    if a > 0 {
        let next = budget_after(ratio, budget, first_lane(budget));
        lemma_run_split(ratio, next, (a - 1) as nat, b);
        assert((a - 1) as nat + b == (a + b - 1) as nat);
    }
}

/// While the budget lasts, every message comes from the high lane.
pub proof fn lemma_high_run(ratio: u8, budget: u8, n: nat)
    requires
        n <= budget,
    ensures
        normal_picks(ratio, budget, n) == 0,
        budget_after_run(ratio, budget, n) == budget - n,
    decreases n,
{
    if n > 0 {
        lemma_high_run(ratio, (budget - 1) as u8, (n - 1) as nat);
    }
}

/// While both lanes always have a message due, any `ratio + 1` messages in a
/// row are `ratio` from the high lane and one from the normal lane, wherever
/// in the cycle the run starts; and the budget is afterwards what it was.
pub proof fn lemma_fair_window(ratio: u8, budget: u8)
    requires
        budget <= ratio,
    ensures
        normal_picks(ratio, budget, (ratio + 1) as nat) == 1,
        high_picks(ratio, budget, (ratio + 1) as nat) == ratio,
        budget_after_run(ratio, budget, (ratio + 1) as nat) == budget,
{
    let b = budget as nat;
    let rest = (ratio - budget) as nat;
    // `budget` messages from the high lane use the budget up,
    lemma_high_run(ratio, budget, b);
    // one from the normal lane fills it again,
    assert(normal_picks(ratio, 0, 1) == 1 && budget_after_run(ratio, 0, 1) == ratio) by {
        reveal_with_fuel(normal_picks, 2);
        reveal_with_fuel(budget_after_run, 2);
    }
    lemma_run_split(ratio, budget, b, 1);
    // and `ratio - budget` more from the high lane bring it back to `budget`.
    lemma_high_run(ratio, ratio, rest);
    lemma_run_split(ratio, budget, b + 1, rest);
    assert(b + 1 + rest == (ratio + 1) as nat);
}

/// The budget never grows past the ratio.
pub proof fn lemma_budget_bounded(ratio: u8, budget: u8, lane: u8)
    requires
        budget <= ratio,
    ensures
        budget_after(ratio, budget, lane) <= ratio,
{
}

} // verus!
