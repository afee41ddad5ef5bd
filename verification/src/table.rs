//! The wager engine: the table as the machine holds it, and the roll
//! played on it.

use vstd::prelude::*;
use crate::config::{Config, MONEY_LIMIT};
use crate::dice::{valid_roll, Roll};
use crate::payout::{is_point, is_point_number, odds_payout};
use crate::position::{
    after_roll, base_stake, growth, lemma_base_stake_covered, lemma_growth_bound,
    lemma_payout_bound, lemma_restake, lemma_settled, odds_for, opening, restake, settle_one,
    settled, Position,
};
use crate::wager::{
    already_free_come, already_pass, lemma_staked_take, lemma_wagers_of_push, lift, staked,
    wagers_of, Bet, ComeAttrs, PassAttrs, Wager,
};

verus! {

/// Adds `amount` to the bankroll and lifts the highest bankroll seen to it
/// where the bankroll has passed it.
pub fn increase_bankroll(bankroll: &mut usize, max_bankroll: &mut usize, amount: usize)
    requires
        *old(bankroll) + amount <= usize::MAX,
    ensures
        *final(bankroll) == *old(bankroll) + amount,
        *final(max_bankroll) == if *old(bankroll) + amount > *old(max_bankroll) {
            *old(bankroll) + amount
        } else {
            *old(max_bankroll) as int
        },
{
    *bankroll += amount;
    if *bankroll > *max_bankroll {
        *max_bankroll = *bankroll;
    }
}

/// The stake of a new wager: the minimum unit, doubled under the growth
/// policy once for each time the bankroll can be halved and still cover the
/// initial bankroll.
pub fn base_bet(cfg: &Config, bankroll: usize) -> (bet_amount: usize)
    requires
        cfg.valid(),
        bankroll >= cfg.min_bet,
    ensures
        bet_amount == base_stake(*cfg, bankroll as nat),
        bet_amount <= bankroll,
{
    let mut bet_amount: usize = cfg.min_bet;
    if cfg.grow_bets {
        let mut big: usize = bankroll;
        let ghost initial = cfg.initial_bankroll as nat;
        let ghost total = base_stake(*cfg, bankroll as nat);
        proof {
            lemma_base_stake_covered(*cfg, bankroll as nat);
        }
        while big / 2 >= cfg.initial_bankroll
            invariant
                initial == cfg.initial_bankroll,
                initial > 0,
                bet_amount * growth(big as nat, initial) == total,
                total <= bankroll,
            decreases big,
        {
            proof {
                let g = growth((big / 2) as nat, initial);
                lemma_growth_bound((big / 2) as nat, initial);
                assert(bet_amount * (2 * g) == (bet_amount * 2) * g) by (nonlinear_arith);
                assert(bet_amount * 2 <= (bet_amount * 2) * g) by (nonlinear_arith)
                    requires
                        g >= 1,
                ;
            }
            big = big / 2;
            bet_amount = bet_amount * 2;
        }
        assert(bet_amount * 1 == bet_amount) by (nonlinear_arith);
    }
    bet_amount
}

/// The table: the point, the bankroll, the highest bankroll seen so far and
/// the live wagers.
#[derive(Clone, Debug, PartialEq, Eq)]
pub struct Table {
    pub point: Option<usize>,
    pub bankroll: usize,
    pub max_bankroll: usize,
    pub bets: Vec<Bet>,
}

impl View for Table {
    type V = Position;

    open spec fn view(&self) -> Position {
        Position {
            point: lift(self.point),
            bankroll: self.bankroll as nat,
            peak: self.max_bankroll as nat,
            wagers: wagers_of(self.bets@),
        }
    }
}

impl Table {
    /// The table at the start of a trial.
    pub fn open(cfg: &Config) -> (table: Table)
        requires
            cfg.valid(),
        ensures
            table@ == opening(*cfg),
    {
        let mut bets: Vec<Bet> = Vec::new();
        bets.push(Bet::Pass(PassAttrs::new(cfg.min_bet)));
        let table = Table {
            point: None,
            bankroll: cfg.initial_bankroll - cfg.min_bet,
            max_bankroll: cfg.initial_bankroll,
            bets,
        };
        assert(table@.wagers =~= opening(*cfg).wagers);
        table
    }

    /// Tells whether the table is sound: the point and the numbers of the
    /// come wagers can be points, and the highest bankroll seen is no lower
    /// than the bankroll.
    pub fn is_sound(&self) -> (ok: bool)
        ensures
            ok == self@.sound(),
    {
        if let Some(p) = self.point {
            if !is_point_number(p) {
                return false;
            }
        }
        if self.bankroll > self.max_bankroll {
            return false;
        }
        let mut i: usize = 0;
        while i < self.bets.len()
            invariant
                i <= self.bets.len(),
                forall|j: int|
                    0 <= j < i ==> ((#[trigger] self@.wagers[j]) matches Wager::Come {
                        target: Some(t),
                        ..
                    } ==> is_point(t)),
            decreases self.bets.len() - i,
        {
            match self.bets[i] {
                Bet::Come(ComeAttrs { target: Some(t), .. }) => {
                    if !is_point_number(t) {
                        assert(self@.wagers[i as int] matches Wager::Come { target: Some(n), .. }
                            && !is_point(n));
                        return false;
                    }
                },
                _ => {},
            }
            i += 1;
        }
        true
    }

    /// Tells whether the player is out of the game: the bankroll cannot pay
    /// for a wager and no wager is live.
    pub fn is_busted(&self, cfg: &Config) -> (busted: bool)
        ensures
            busted == self@.busted(*cfg),
    {
        self.bankroll < cfg.min_bet && self.bets.len() == 0
    }

    /// Tells whether the player's money is within the limit under which a
    /// roll can be played.
    pub fn within_limit(&self) -> (ok: bool)
        ensures
            ok == (self@.holdings() <= MONEY_LIMIT),
    {
        if self.bankroll > MONEY_LIMIT {
            return false;
        }
        let mut total: usize = self.bankroll;
        let mut i: usize = 0;
        while i < self.bets.len()
            invariant
                i <= self.bets.len(),
                total == self.bankroll + staked(self@.wagers.take(i as int)),
                total <= MONEY_LIMIT,
            decreases self.bets.len() - i,
        {
            let (amount, odds) = match self.bets[i] {
                Bet::Pass(PassAttrs { amount, odds }) => (amount, odds),
                Bet::Come(ComeAttrs { amount, odds, .. }) => (amount, odds),
            };
            let laid: usize = match odds {
                Some(o) => o,
                None => 0,
            };
            proof {
                let ws = self@.wagers;
                assert(ws.take(i + 1).drop_last() =~= ws.take(i as int));
                assert(ws[i as int].at_risk() == amount + laid);
                lemma_staked_take(ws, i + 1);
            }
            if amount > MONEY_LIMIT - total || laid > MONEY_LIMIT - total - amount {
                return false;
            }
            total = total + amount + laid;
            i += 1;
        }
        assert(self@.wagers.take(i as int) =~= self@.wagers);
        true
    }

    /// Pays `amount` into the bankroll.
    fn credit(&mut self, amount: usize)
        requires
            old(self).bankroll + amount <= usize::MAX,
        ensures
            final(self)@ == old(self)@.credit(amount as nat),
            final(self).bets == old(self).bets,
    {
        increase_bankroll(&mut self.bankroll, &mut self.max_bankroll, amount);
    }

    /// Keeps `bet` on the table.
    fn keep(&mut self, bet: Bet)
        ensures
            final(self)@ == old(self)@.keep(bet@),
            final(self).bankroll == old(self).bankroll,
    {
        proof {
            lemma_wagers_of_push(self.bets@, bet);
        }
        self.bets.push(bet);
    }

    /// Lays odds behind a wager of `amount` that has just taken `number`,
    /// where the bankroll can pay for them.
    fn lay_odds(&mut self, cfg: &Config, amount: usize, number: usize) -> (odds: Option<usize>)
        requires
            is_point(number as nat),
            10 * amount <= usize::MAX,
        ensures
            lift(odds) == odds_for(*cfg, old(self).bankroll as nat, amount as nat, number as nat),
            final(self).bankroll == old(self).bankroll - match odds {
                Some(o) => o as int,
                None => 0,
            },
            final(self).point == old(self).point,
            final(self).max_bankroll == old(self).max_bankroll,
            final(self).bets == old(self).bets,
    {
        let multiplier: usize = cfg.odds_multiplier(number, self.bankroll);
        assert(amount * multiplier <= 10 * amount) by (nonlinear_arith)
            requires
                multiplier <= 10,
        ;
        let odds_amount: usize = amount * multiplier;
        if self.bankroll >= odds_amount {
            self.bankroll -= odds_amount;
            Some(odds_amount)
        } else {
            None
        }
    }

    /// Settles `bet` on a roll of `sum` into this table, which is being
    /// built for the next roll. `point` is the point before the roll.
    fn settle(&mut self, cfg: &Config, point: Option<usize>, sum: usize, bet: Bet)
        requires
            2 <= sum <= 12,
            point matches Some(p) ==> is_point(p as nat),
            bet matches Bet::Come(ComeAttrs { target: Some(t), .. }) ==> is_point(t as nat),
            old(self).bankroll <= old(self).max_bankroll,
            old(self).bankroll + 3 * bet@.at_risk() <= usize::MAX,
            10 * bet@.at_risk() <= usize::MAX,
        ensures
            final(self)@ == settle_one(*cfg, lift(point), sum as nat, old(self)@, bet@),
    {
        if sum == 7 {
            match bet {
                Bet::Pass(PassAttrs { amount, odds }) => {
                    if point.is_none() {
                        self.credit(2 * amount);
                        if cfg.odds_off_without_point {
                            if let Some(o) = odds {
                                self.credit(o);
                            }
                        }
                    }
                },
                Bet::Come(ComeAttrs { amount, target, odds }) => {
                    if target.is_none() {
                        self.credit(2 * amount);
                    } else if point.is_none() && cfg.odds_off_without_point {
                        if let Some(o) = odds {
                            self.credit(o);
                        }
                    }
                },
            }
        } else {
            match bet {
                Bet::Pass(PassAttrs { amount, odds }) => {
                    if let Some(p) = point {
                        if sum == p {
                            let mut winnings: usize = 2 * amount;
                            if let Some(o) = odds {
                                proof {
                                    lemma_payout_bound(o as nat, p as nat);
                                }
                                winnings += o;
                                winnings += odds_payout(o, p);
                            }
                            self.credit(winnings);
                        } else {
                            self.keep(bet);
                            self.point = point;
                        }
                    } else {
                        match sum {
                            2 | 3 | 12 => (),
                            11 => {
                                self.credit(amount);
                                self.keep(bet);
                            },
                            _ => {
                                self.point = Some(sum);
                                let odds = self.lay_odds(cfg, amount, sum);
                                self.keep(Bet::Pass(PassAttrs { amount, odds }));
                            },
                        }
                    }
                },
                Bet::Come(ComeAttrs { amount, target, odds }) => {
                    if let Some(t) = target {
                        if t == sum {
                            let mut winnings: usize = 2 * amount;
                            if let Some(o) = odds {
                                proof {
                                    lemma_payout_bound(o as nat, t as nat);
                                }
                                if point.is_some() || !cfg.odds_off_without_point {
                                    winnings += odds_payout(o, t);
                                }
                                winnings += o;
                            }
                            self.credit(winnings);
                        } else {
                            self.keep(bet);
                        }
                    } else {
                        match sum {
                            2 | 3 | 12 => (),
                            11 => {
                                self.credit(amount);
                                self.keep(bet);
                            },
                            _ => {
                                let odds = self.lay_odds(cfg, amount, sum);
                                self.keep(Bet::Come(ComeAttrs { amount, target: Some(sum), odds }));
                            },
                        }
                    }
                },
            }
        }
    }

    /// Places the wager that follows the roll, if any.
    fn place(&mut self, cfg: &Config)
        requires
            cfg.valid(),
        ensures
            final(self)@ == restake(*cfg, old(self)@),
    {
        if self.bankroll >= cfg.min_bet {
            let bet_amount: usize = base_bet(cfg, self.bankroll);
            if self.point.is_none() && !already_pass(&self.bets) {
                self.keep(Bet::Pass(PassAttrs::new(bet_amount)));
                self.bankroll -= bet_amount;
            } else if !already_free_come(&self.bets) {
                self.keep(Bet::Come(ComeAttrs::new(bet_amount)));
                self.bankroll -= bet_amount;
            }
        }
    }

    /// Plays one roll: every live wager is settled in the order in which the
    /// wagers were placed, then at most one new wager is placed.
    pub fn play(&mut self, cfg: &Config, roll: Roll)
        requires
            cfg.valid(),
            valid_roll(roll),
            old(self)@.sound(),
            old(self)@.holdings() <= MONEY_LIMIT,
        ensures
            final(self)@ == after_roll(*cfg, old(self)@, (roll.0 + roll.1) as nat),
            final(self)@.sound(),
    {
        let sum: usize = roll.0 + roll.1;
        let mut next = Table {
            point: None,
            bankroll: self.bankroll,
            max_bankroll: self.max_bankroll,
            bets: Vec::new(),
        };
        let n: usize = self.bets.len();
        let mut i: usize = 0;
        assert(next@.wagers =~= Seq::<Wager>::empty());
        while i < n
            invariant
                i <= n,
                n == self.bets.len(),
                2 <= sum <= 12,
                *self == *old(self),
                self@.sound(),
                self@.holdings() <= MONEY_LIMIT,
                next@ == settled(*cfg, self@, sum as nat, i as nat),
            decreases n - i,
        {
            let bet: Bet = self.bets[i];
            proof {
                let ws = self@.wagers;
                lemma_settled(*cfg, self@, sum as nat, i as nat);
                lemma_staked_take(ws, i + 1);
                assert(ws.take(i + 1).drop_last() =~= ws.take(i as int));
                assert(ws[i as int] == bet@);
            }
            next.settle(cfg, self.point, sum, bet);
            i += 1;
        }
        proof {
            lemma_settled(*cfg, self@, sum as nat, n as nat);
            lemma_restake(*cfg, next@);
        }
        next.place(cfg);
        *self = next;
    }
}

} // verus!
