//! A craps table for one player: the wager engine that settles pass-line and
//! come wagers roll by roll, the payout tables it draws on, the driver that
//! plays a trial to its end, and order statistics over many trials.
//!
//! Every amount of money is a whole number of units. The contracts are stated
//! over a mathematical model of the table in which amounts are unbounded
//! naturals.
//!
//! - [`payout`]: true odds and odds multiples.
//! - [`config`]: the staking policy and the rule switches.
//! - [`wager`]: the wagers and their model.
//! - [`position`]: the model of the table and of a roll.
//! - [`table`]: the table in machine integers, and the roll played on it.
//! - [`ledger`]: what the house pays and takes; money is conserved.
//! - [`dice`]: random and scripted rolls.
//! - [`trial`]: a trial from the opening to its end.
//! - [`stats`]: nearest-rank quantiles.
//! - [`decimal`], [`script`], [`report`]: the texts of roll scripts, roll
//!   logs and result rows.

pub mod config;
pub mod decimal;
pub mod dice;
pub mod ledger;
pub mod payout;
pub mod position;
pub mod report;
pub mod script;
pub mod stats;
pub mod table;
pub mod trial;
pub mod wager;
