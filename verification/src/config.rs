//! What is fixed for a batch of trials: the bankroll, the unit, the staking
//! policy and the rule switches.

use vstd::prelude::*;
use crate::payout::{
    grow_multiplier, grow_odds_multiplier, is_point, multiplier_123, multiplier_345,
    odds_multiplier_10, odds_multiplier_123, odds_multiplier_345,
};

verus! {

/// The largest sum of bankroll and wagers that a table may hold when a roll
/// is played. No wager returns more than three times what it holds, and no
/// odds multiple is above ten, so below this limit no amount leaves the
/// machine's integers during a roll.
pub const MONEY_LIMIT: usize = usize::MAX / 10;

/// A fixed odds table, by the name the policy is known under.
#[derive(Clone, Copy, Debug, PartialEq, Eq)]
pub enum OddsTable {
    /// "123": one, two or three base stakes.
    OneTwoThree,
    /// "345": three, four or five base stakes.
    ThreeFourFive,
    /// "10": ten base stakes on every point.
    Ten,
}

impl OddsTable {
    /// The odds multiple that the table gives on `target`.
    pub open spec fn multiple(self, target: nat) -> nat {
        match self {
            OddsTable::OneTwoThree => multiplier_123(target),
            OddsTable::ThreeFourFive => multiplier_345(target),
            OddsTable::Ten => 10,
        }
    }

    /// The table of the given name: "123", "345" or "10". Any other name is
    /// no table.
    pub fn from_name(name: &str) -> (table: Option<OddsTable>)
        ensures
            name@ == seq!['1', '2', '3'] ==> table == Some(OddsTable::OneTwoThree),
            name@ == seq!['3', '4', '5'] ==> table == Some(OddsTable::ThreeFourFive),
            name@ == seq!['1', '0'] ==> table == Some(OddsTable::Ten),
            name@ != seq!['1', '2', '3'] && name@ != seq!['3', '4', '5'] && name@ != seq!['1', '0']
                ==> table is None,
    {
        let n: usize = name.unicode_len();
        if n == 3 {
            let a = name.get_char(0);
            let b = name.get_char(1);
            let c = name.get_char(2);
            if a == '1' && b == '2' && c == '3' {
                assert(name@ =~= seq!['1', '2', '3']);
                Some(OddsTable::OneTwoThree)
            } else if a == '3' && b == '4' && c == '5' {
                assert(name@ =~= seq!['3', '4', '5']);
                Some(OddsTable::ThreeFourFive)
            } else {
                None
            }
        } else if n == 2 {
            let a = name.get_char(0);
            let b = name.get_char(1);
            if a == '1' && b == '0' {
                assert(name@ =~= seq!['1', '0']);
                Some(OddsTable::Ten)
            } else {
                None
            }
        } else {
            None
        }
    }
}

/// The configuration of a trial.
#[derive(Clone, Copy, Debug, PartialEq, Eq)]
pub struct Config {
    /// The bankroll a trial begins with.
    pub initial_bankroll: usize,
    /// The minimum wager unit.
    pub min_bet: usize,
    /// The odds table in force while `grow_odds` is off.
    pub odds: OddsTable,
    /// Adaptive odds: the table follows the bankroll.
    pub grow_odds: bool,
    /// The base stake doubles as the bankroll doubles.
    pub grow_bets: bool,
    /// Odds do not work while no point stands.
    pub odds_off_without_point: bool,
    /// The roll after which a trial is cut off, if any.
    pub max_rolls: Option<usize>,
}

impl Config {
    /// A configuration that a trial can begin with: the first wager can be
    /// paid for, the bankroll is within the limit of the table, and where
    /// stakes grow there is a bankroll to measure growth against.
    pub open spec fn valid(self) -> bool {
        &&& self.min_bet <= self.initial_bankroll
        &&& self.initial_bankroll <= MONEY_LIMIT
        &&& self.grow_bets ==> self.initial_bankroll > 0
    }

    /// The odds multiple on `target` when the bankroll stands at `bankroll`.
    pub open spec fn multiple(self, target: nat, bankroll: nat) -> nat {
        if self.grow_odds {
            grow_multiplier(target, self.initial_bankroll as nat, bankroll)
        } else {
            self.odds.multiple(target)
        }
    }

    /// Tells whether a trial can begin with this configuration.
    pub fn is_valid(&self) -> (ok: bool)
        ensures
            ok == self.valid(),
    {
        self.min_bet <= self.initial_bankroll && self.initial_bankroll <= MONEY_LIMIT && (
        !self.grow_bets || self.initial_bankroll > 0)
    }

    /// The odds multiple on the point `target` when the bankroll stands at
    /// `bankroll`.
    pub fn odds_multiplier(&self, target: usize, bankroll: usize) -> (m: usize)
        requires
            is_point(target as nat),
        ensures
            m == self.multiple(target as nat, bankroll as nat),
            1 <= m <= 10,
    {
        if self.grow_odds {
            grow_odds_multiplier(target, self.initial_bankroll, bankroll)
        } else {
            match self.odds {
                OddsTable::ThreeFourFive => odds_multiplier_345(target),
                OddsTable::OneTwoThree => odds_multiplier_123(target),
                OddsTable::Ten => odds_multiplier_10(target),
            }
        }
    }
}

} // verus!
