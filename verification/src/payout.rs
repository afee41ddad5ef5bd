//! Payout tables: what an odds wager pays on each point, and how many base
//! stakes may be laid as odds under each staking policy.

use vstd::prelude::*;

verus! {

/// The numbers that can be established as a point.
pub open spec fn is_point(n: nat) -> bool {
    n == 4 || n == 5 || n == 6 || n == 8 || n == 9 || n == 10
}

/// True odds on a point, as (numerator, denominator): 2 to 1 on 4 and 10,
/// 3 to 2 on 5 and 9, 6 to 5 on 6 and 8.
pub open spec fn odds_ratio(target: nat) -> (nat, nat) {
    if target == 4 || target == 10 {
        (2, 1)
    } else if target == 5 || target == 9 {
        (3, 2)
    } else {
        (6, 5)
    }
}

/// Winnings of an odds wager of `amount` on `target`, the stake itself not
/// counted: the amount times the numerator, divided by the denominator with
/// the remainder dropped.
pub open spec fn payout(amount: nat, target: nat) -> nat {
    (amount * odds_ratio(target).0) / odds_ratio(target).1
}

/// Odds multiple under the 1-2-3 policy.
pub open spec fn multiplier_123(target: nat) -> nat {
    if target == 4 || target == 10 {
        1
    } else if target == 5 || target == 9 {
        2
    } else {
        3
    }
}

/// Odds multiple under the 3-4-5 policy.
pub open spec fn multiplier_345(target: nat) -> nat {
    if target == 4 || target == 10 {
        3
    } else if target == 5 || target == 9 {
        4
    } else {
        5
    }
}

/// Odds multiple under the adaptive policy. With `r` the bankroll divided by
/// the initial bankroll: the 1-2-3 table while `r < 4/5`, the 3-4-5 table
/// while `4/5 <= r < 7/5`, and ten from there on. The comparison is exact:
/// `r < 4/5` is `5 * bankroll < 4 * initial`.
pub open spec fn grow_multiplier(target: nat, initial_bankroll: nat, bankroll: nat) -> nat {
    if 5 * bankroll < 4 * initial_bankroll {
        multiplier_123(target)
    } else if 5 * bankroll < 7 * initial_bankroll {
        multiplier_345(target)
    } else {
        10
    }
}

/// Tells whether `n` can be a point.
pub fn is_point_number(n: usize) -> (r: bool)
    ensures
        r == is_point(n as nat),
{
    n == 4 || n == 5 || n == 6 || n == 8 || n == 9 || n == 10
}

/// Winnings of an odds wager of `amount` on the point `target`.
pub fn odds_payout(amount: usize, target: usize) -> (winnings: usize)
    requires
        is_point(target as nat),
        amount * odds_ratio(target as nat).0 <= usize::MAX,
    ensures
        winnings == payout(amount as nat, target as nat),
{
    let (numerator, denominator): (usize, usize) = match target {
        4 | 10 => (2, 1),
        5 | 9 => (3, 2),
        _ => (6, 5),
    };
    (amount * numerator) / denominator
}

/// The flat policy: ten base stakes on every point.
pub fn odds_multiplier_10(_target: usize) -> (m: usize)
    ensures
        m == 10,
{
    10
}

/// The 1-2-3 policy.
pub fn odds_multiplier_123(target: usize) -> (m: usize)
    requires
        is_point(target as nat),
    ensures
        m == multiplier_123(target as nat),
{
    match target {
        4 | 10 => 1,
        5 | 9 => 2,
        _ => 3,
    }
}

/// The 3-4-5 policy.
pub fn odds_multiplier_345(target: usize) -> (m: usize)
    requires
        is_point(target as nat),
    ensures
        m == multiplier_345(target as nat),
{
    match target {
        4 | 10 => 3,
        5 | 9 => 4,
        _ => 5,
    }
}

/// The adaptive policy: the table is chosen by how the bankroll stands
/// against the bankroll the trial began with.
pub fn grow_odds_multiplier(target: usize, initial_bankroll: usize, bankroll: usize) -> (m: usize)
    requires
        is_point(target as nat),
    ensures
        m == grow_multiplier(target as nat, initial_bankroll as nat, bankroll as nat),
{
    let current: u128 = bankroll as u128;
    let initial: u128 = initial_bankroll as u128;
    if 5 * current < 4 * initial {
        odds_multiplier_123(target)
    } else if 5 * current < 7 * initial {
        odds_multiplier_345(target)
    } else {
        odds_multiplier_10(target)
    }
}

} // verus!
