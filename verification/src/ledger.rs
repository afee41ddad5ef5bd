//! The books of a roll: what the house pays, what it takes, and the proof
//! that the player's money changes by nothing else.

use vstd::prelude::*;
use crate::config::Config;
use crate::payout::payout;
use crate::position::{
    after_roll, lemma_base_stake_covered, new_wager, number_of, odds_for, restake, settle_one,
    settled, Position,
};
use crate::dice::Roll;
use crate::trial::{sum_of, table_after};
use crate::wager::{lemma_staked_push, staked, Wager};

verus! {

/// What the house pays on the wager `w` on a roll of `sum`, over and above
/// the player's own money: the stake at even money for a win, and the true
/// odds on odds that were working.
pub open spec fn house_pays(cfg: Config, point: Option<nat>, sum: nat, w: Wager) -> nat {
    match number_of(point, w) {
        Some(n) => if sum != 7 && sum == n {
            w.stake() + match w {
                Wager::Line { odds: Some(o), .. } => payout(o, n),
                Wager::Come { odds: Some(o), .. } => if point is Some
                    || !cfg.odds_off_without_point {
                    payout(o, n)
                } else {
                    0
                },
                _ => 0,
            }
        } else {
            0
        },
        None => if sum == 7 || sum == 11 {
            w.stake()
        } else {
            0
        },
    }
}

/// What the house takes of the wager `w` on a roll of `sum`.
///
/// On a seven, a wager with a number loses all it holds, but for odds that
/// were off; a wager without one wins, and still loses odds that lie behind
/// it, but for the odds of a line wager that were off. On another roll, a
/// wager without a number loses all it holds to 2, 3 and 12, and gives up
/// earlier odds when it takes a number.
pub open spec fn house_takes(cfg: Config, point: Option<nat>, sum: nat, w: Wager) -> nat {
    if sum == 7 {
        match w {
            Wager::Line { .. } => if point is None {
                if cfg.odds_off_without_point {
                    0
                } else {
                    w.odds_laid()
                }
            } else {
                w.at_risk()
            },
            Wager::Come { target, .. } => if target is None {
                w.odds_laid()
            } else if point is None && cfg.odds_off_without_point {
                w.stake()
            } else {
                w.at_risk()
            },
        }
    } else {
        match number_of(point, w) {
            Some(_) => 0,
            None => if sum == 2 || sum == 3 || sum == 12 {
                w.at_risk()
            } else if sum == 11 {
                0
            } else {
                w.odds_laid()
            },
        }
    }
}

/// What the house pays on the first `k` wagers of `pos`.
pub open spec fn paid_out(cfg: Config, pos: Position, sum: nat, k: nat) -> nat
    decreases k,
{
    if k == 0 {
        0
    } else {
        paid_out(cfg, pos, sum, (k - 1) as nat) + house_pays(cfg, pos.point, sum, pos.wagers[k - 1])
    }
}

/// What the house takes of the first `k` wagers of `pos`.
pub open spec fn taken_in(cfg: Config, pos: Position, sum: nat, k: nat) -> nat
    decreases k,
{
    if k == 0 {
        0
    } else {
        taken_in(cfg, pos, sum, (k - 1) as nat) + house_takes(
            cfg,
            pos.point,
            sum,
            pos.wagers[k - 1],
        )
    }
}

/// Settling one wager changes the player's money, the wager's own included,
/// by what the house pays on it less what the house takes of it.
pub proof fn lemma_wager_conserved(
    cfg: Config,
    point: Option<nat>,
    sum: nat,
    acc: Position,
    w: Wager,
)
    ensures
        settle_one(cfg, point, sum, acc, w).holdings() + house_takes(cfg, point, sum, w)
            == acc.holdings() + w.at_risk() + house_pays(cfg, point, sum, w),
{
    lemma_staked_push(acc.wagers, w);
    if sum != 7 && number_of(point, w) is None && !(sum == 2 || sum == 3 || sum == 12 || sum
        == 11) {
        let odds = odds_for(cfg, acc.bankroll, w.stake(), sum);
        match w {
            Wager::Line { stake, .. } => {
                lemma_staked_push(acc.wagers, Wager::Line { stake, odds });
            },
            Wager::Come { stake, .. } => {
                lemma_staked_push(acc.wagers, Wager::Come { stake, target: Some(sum), odds });
            },
        }
    }
}

/// While the wagers are settled, the money on the table that is being built
/// is the bankroll and the settled wagers' money, with what the house paid
/// and without what it took.
pub proof fn lemma_settled_conserved(cfg: Config, pos: Position, sum: nat, k: nat)
    requires
        k <= pos.wagers.len(),
    ensures
        settled(cfg, pos, sum, k).holdings() + taken_in(cfg, pos, sum, k) == pos.bankroll
            + staked(pos.wagers.take(k as int)) + paid_out(cfg, pos, sum, k),
    decreases k,
{
    if k == 0 {
        assert(pos.wagers.take(0) =~= Seq::<Wager>::empty());
        assert(settled(cfg, pos, sum, 0).wagers =~= Seq::<Wager>::empty());
    } else {
        lemma_settled_conserved(cfg, pos, sum, (k - 1) as nat);
        lemma_wager_conserved(
            cfg,
            pos.point,
            sum,
            settled(cfg, pos, sum, (k - 1) as nat),
            pos.wagers[k - 1],
        );
        assert(pos.wagers.take(k as int).drop_last() =~= pos.wagers.take(k - 1));
    }
}

/// Money is conserved over a roll: the bankroll and the live wagers after
/// the roll hold what they held before it, with what the house paid on the
/// wagers and without what the house took of them. A new wager moves its
/// stake from the bankroll to the table and changes nothing.
pub proof fn lemma_money_conserved(cfg: Config, pos: Position, sum: nat)
    requires
        cfg.valid(),
    ensures
        after_roll(cfg, pos, sum).holdings() + taken_in(cfg, pos, sum, pos.wagers.len())
            == pos.holdings() + paid_out(cfg, pos, sum, pos.wagers.len()),
{
    let n = pos.wagers.len();
    let mid = settled(cfg, pos, sum, n);
    lemma_settled_conserved(cfg, pos, sum, n);
    assert(pos.wagers.take(n as int) =~= pos.wagers);
    match new_wager(cfg, mid) {
        Some(w) => {
            lemma_base_stake_covered(cfg, mid.bankroll);
            lemma_staked_push(mid.wagers, w);
        },
        None => {},
    }
}

/// What the house has paid over the first `k` rolls of a trial.
pub open spec fn paid_over(cfg: Config, dice: Seq<Roll>, k: nat) -> nat
    decreases k,
{
    if k == 0 {
        0
    } else {
        let before = table_after(cfg, dice, (k - 1) as nat);
        paid_over(cfg, dice, (k - 1) as nat) + paid_out(
            cfg,
            before,
            sum_of(dice[k - 1]),
            before.wagers.len(),
        )
    }
}

/// What the house has taken over the first `k` rolls of a trial.
pub open spec fn taken_over(cfg: Config, dice: Seq<Roll>, k: nat) -> nat
    decreases k,
{
    if k == 0 {
        0
    } else {
        let before = table_after(cfg, dice, (k - 1) as nat);
        taken_over(cfg, dice, (k - 1) as nat) + taken_in(
            cfg,
            before,
            sum_of(dice[k - 1]),
            before.wagers.len(),
        )
    }
}

/// Money is conserved over a trial: after any number of rolls the bankroll
/// and the live wagers hold the initial bankroll, with all that the house
/// has paid and without all that it has taken.
pub proof fn lemma_trial_conserved(cfg: Config, dice: Seq<Roll>, k: nat)
    requires
        cfg.valid(),
    ensures
        table_after(cfg, dice, k).holdings() + taken_over(cfg, dice, k) == cfg.initial_bankroll
            + paid_over(cfg, dice, k),
    decreases k,
{
    if k == 0 {
        let first = table_after(cfg, dice, 0).wagers;
        assert(first.drop_last() =~= Seq::<Wager>::empty());
        assert(staked(first.drop_last()) == 0);
    } else {
        lemma_trial_conserved(cfg, dice, (k - 1) as nat);
        lemma_money_conserved(cfg, table_after(cfg, dice, (k - 1) as nat), sum_of(dice[k - 1]));
    }
}

} // verus!
