//! The wagers a player can have on the table, and their mathematical model.

use vstd::prelude::*;
use crate::decimal::{decimal_digits, digits_of};

verus! {

/// An amount, or its absence, as the model holds it.
pub open spec fn lift(amount: Option<usize>) -> Option<nat> {
    match amount {
        Some(a) => Some(a as nat),
        None => None,
    }
}

/// A live wager in the model. Amounts are unbounded.
pub enum Wager {
    /// The pass-line wager. It plays against the table's point.
    Line { stake: nat, odds: Option<nat> },
    /// A come wager. It plays against a number of its own, `target`, which it
    /// takes from the first roll after it was placed.
    Come { stake: nat, target: Option<nat>, odds: Option<nat> },
}

impl Wager {
    /// The base stake.
    pub open spec fn stake(self) -> nat {
        match self {
            Wager::Line { stake, .. } => stake,
            Wager::Come { stake, .. } => stake,
        }
    }

    /// The odds stake laid behind the wager, zero where there is none.
    pub open spec fn odds_laid(self) -> nat {
        match self {
            Wager::Line { odds: Some(o), .. } => o,
            Wager::Come { odds: Some(o), .. } => o,
            _ => 0,
        }
    }

    /// All the money the wager holds: the stake and the odds behind it.
    pub open spec fn at_risk(self) -> nat {
        self.stake() + self.odds_laid()
    }

    /// A come wager that has not taken its number yet.
    pub open spec fn is_free_come(self) -> bool {
        self matches Wager::Come { target: None, .. }
    }

    /// The short form of what the wager holds: `a` and the stake, for a come
    /// wager `t` and its number, then `o` and the odds; a number or odds
    /// that are not there leave their place empty. A line wager of 5 with
    /// odds of 15 is `a5o15`, a come wager of 5 without a number is `a5to`.
    pub open spec fn attrs_text(self) -> Seq<u8> {
        match self {
            Wager::Line { stake, odds } => seq![97u8] + digits_of(stake) + seq![111u8]
                + amount_text(odds),
            Wager::Come { stake, target, odds } => seq![97u8] + digits_of(stake) + seq![116u8]
                + amount_text(target) + seq![111u8] + amount_text(odds),
        }
    }

    /// The short form of the wager: `Pass` or `Come`, and in brackets what
    /// it holds, as in `Pass(a5o15)`.
    pub open spec fn text(self) -> Seq<u8> {
        match self {
            Wager::Line { .. } => seq![80u8, 97u8, 115u8, 115u8, 40u8] + self.attrs_text() + seq![
                41u8,
            ],
            Wager::Come { .. } => seq![67u8, 111u8, 109u8, 101u8, 40u8] + self.attrs_text()
                + seq![41u8],
        }
    }
}

/// An amount in decimal digits, and nothing for an amount that is not there.
pub open spec fn amount_text(amount: Option<nat>) -> Seq<u8> {
    match amount {
        Some(a) => digits_of(a),
        None => Seq::empty(),
    }
}

/// The money held by all of `wagers` together.
pub open spec fn staked(wagers: Seq<Wager>) -> nat
    decreases wagers.len(),
{
    if wagers.len() == 0 {
        0
    } else {
        staked(wagers.drop_last()) + wagers.last().at_risk()
    }
}

/// Some wager among `wagers` is a line wager.
pub open spec fn has_line(wagers: Seq<Wager>) -> bool {
    exists|i: int| 0 <= i < wagers.len() && #[trigger] wagers[i] is Line
}

/// Some wager among `wagers` is a come wager without a number.
pub open spec fn has_free_come(wagers: Seq<Wager>) -> bool {
    exists|i: int| 0 <= i < wagers.len() && (#[trigger] wagers[i]).is_free_come()
}

/// The number of line wagers among `wagers`.
pub open spec fn lines(wagers: Seq<Wager>) -> nat
    decreases wagers.len(),
{
    if wagers.len() == 0 {
        0
    } else {
        lines(wagers.drop_last()) + if wagers.last() is Line {
            1nat
        } else {
            0nat
        }
    }
}

/// The number of come wagers without a number among `wagers`.
pub open spec fn free_comes(wagers: Seq<Wager>) -> nat
    decreases wagers.len(),
{
    if wagers.len() == 0 {
        0
    } else {
        free_comes(wagers.drop_last()) + if wagers.last().is_free_come() {
            1nat
        } else {
            0nat
        }
    }
}

/// A pass-line wager: the stake, and the odds laid once the point stands.
#[derive(Clone, Copy, Debug, PartialEq, Eq)]
pub struct PassAttrs {
    pub amount: usize,
    pub odds: Option<usize>,
}

impl PassAttrs {
    /// A fresh pass-line wager of `amount`, without odds.
    pub fn new(amount: usize) -> (attrs: Self)
        ensures
            attrs.amount == amount,
            attrs.odds is None,
    {
        Self { amount, odds: None }
    }
}

/// A come wager: the stake, the number it has taken, and the odds laid on
/// that number.
#[derive(Clone, Copy, Debug, PartialEq, Eq)]
pub struct ComeAttrs {
    pub amount: usize,
    pub target: Option<usize>,
    pub odds: Option<usize>,
}

impl ComeAttrs {
    /// A fresh come wager of `amount`, without a number and without odds.
    pub fn new(amount: usize) -> (attrs: Self)
        ensures
            attrs.amount == amount,
            attrs.target is None,
            attrs.odds is None,
    {
        Self { amount, target: None, odds: None }
    }
}

/// A wager on the table.
#[derive(Clone, Copy, Debug, PartialEq, Eq)]
pub enum Bet {
    Pass(PassAttrs),
    Come(ComeAttrs),
}

/// Writes an amount behind `text`, and nothing for an amount that is not
/// there.
fn write_amount(text: &mut Vec<u8>, amount: Option<usize>)
    ensures
        final(text)@ == old(text)@ + amount_text(lift(amount)),
{
    match amount {
        Some(a) => {
            let mut digits: Vec<u8> = decimal_digits(a);
            text.append(&mut digits);
        },
        None => {
            assert(text@ + Seq::<u8>::empty() =~= text@);
        },
    }
}

impl PassAttrs {
    /// The short form of the wager's stake and odds.
    pub fn text(&self) -> (text: Vec<u8>)
        ensures
            text@ == Bet::Pass(*self)@.attrs_text(),
    {
        let mut text: Vec<u8> = Vec::new();
        text.push(97);
        write_amount(&mut text, Some(self.amount));
        text.push(111);
        write_amount(&mut text, self.odds);
        assert(text@ =~= Bet::Pass(*self)@.attrs_text());
        text
    }
}

impl ComeAttrs {
    /// The short form of the wager's stake, number and odds.
    pub fn text(&self) -> (text: Vec<u8>)
        ensures
            text@ == Bet::Come(*self)@.attrs_text(),
    {
        let mut text: Vec<u8> = Vec::new();
        text.push(97);
        write_amount(&mut text, Some(self.amount));
        text.push(116);
        write_amount(&mut text, self.target);
        text.push(111);
        write_amount(&mut text, self.odds);
        assert(text@ =~= Bet::Come(*self)@.attrs_text());
        text
    }
}

impl Bet {
    /// The short form of the wager.
    pub fn text(&self) -> (text: Vec<u8>)
        ensures
            text@ == self@.text(),
    {
        let mut text: Vec<u8> = Vec::new();
        let mut attrs: Vec<u8> = match self {
            Bet::Pass(p) => {
                text.push(80);
                text.push(97);
                text.push(115);
                text.push(115);
                p.text()
            },
            Bet::Come(c) => {
                text.push(67);
                text.push(111);
                text.push(109);
                text.push(101);
                c.text()
            },
        };
        text.push(40);
        text.append(&mut attrs);
        text.push(41);
        assert(text@ =~= self@.text());
        text
    }
}

impl View for Bet {
    type V = Wager;

    open spec fn view(&self) -> Wager {
        match *self {
            Bet::Pass(p) => Wager::Line { stake: p.amount as nat, odds: lift(p.odds) },
            Bet::Come(c) => Wager::Come {
                stake: c.amount as nat,
                target: lift(c.target),
                odds: lift(c.odds),
            },
        }
    }
}

/// The model of a list of bets: the model of each, in the same order.
pub open spec fn wagers_of(bets: Seq<Bet>) -> Seq<Wager> {
    bets.map_values(|b: Bet| b@)
}

/// Tells whether a come wager without a number is among `bets`.
pub fn already_free_come(bets: &Vec<Bet>) -> (found: bool)
    ensures
        found == has_free_come(wagers_of(bets@)),
{
    let mut i: usize = 0;
    while i < bets.len()
        invariant
            i <= bets.len(),
            forall|j: int| 0 <= j < i ==> !(#[trigger] wagers_of(bets@)[j]).is_free_come(),
        decreases bets.len() - i,
    {
        match bets[i] {
            Bet::Come(ComeAttrs { target: None, .. }) => {
                assert(wagers_of(bets@)[i as int].is_free_come());
                return true;
            },
            _ => {},
        }
        i += 1;
    }
    false
}

/// Tells whether a pass-line wager is among `bets`.
pub fn already_pass(bets: &Vec<Bet>) -> (found: bool)
    ensures
        found == has_line(wagers_of(bets@)),
{
    let mut i: usize = 0;
    while i < bets.len()
        invariant
            i <= bets.len(),
            forall|j: int| 0 <= j < i ==> !(#[trigger] wagers_of(bets@)[j] is Line),
        decreases bets.len() - i,
    {
        match bets[i] {
            Bet::Pass(_) => {
                assert(wagers_of(bets@)[i as int] is Line);
                return true;
            },
            _ => {},
        }
        i += 1;
    }
    false
}

/// Putting a bet at the end of a list puts its model at the end of the
/// list's model.
pub proof fn lemma_wagers_of_push(bets: Seq<Bet>, bet: Bet)
    ensures
        wagers_of(bets.push(bet)) == wagers_of(bets).push(bet@),
{
    assert(wagers_of(bets.push(bet)) =~= wagers_of(bets).push(bet@));
}

/// The money held by a list grows by what a wager holds when the wager is
/// put at its end.
pub proof fn lemma_staked_push(wagers: Seq<Wager>, w: Wager)
    ensures
        staked(wagers.push(w)) == staked(wagers) + w.at_risk(),
{
    assert(wagers.push(w).drop_last() =~= wagers);
}

/// A wager put at the end of a list counts as a line wager where it is one.
pub proof fn lemma_lines_push(wagers: Seq<Wager>, w: Wager)
    ensures
        lines(wagers.push(w)) == lines(wagers) + if w is Line {
            1nat
        } else {
            0nat
        },
{
    assert(wagers.push(w).drop_last() =~= wagers);
}

/// A wager put at the end of a list counts as a come wager without a number
/// where it is one.
pub proof fn lemma_free_comes_push(wagers: Seq<Wager>, w: Wager)
    ensures
        free_comes(wagers.push(w)) == free_comes(wagers) + if w.is_free_come() {
            1nat
        } else {
            0nat
        },
{
    assert(wagers.push(w).drop_last() =~= wagers);
}

/// A list in which no line wager is found counts none.
pub proof fn lemma_no_line(wagers: Seq<Wager>)
    requires
        !has_line(wagers),
    ensures
        lines(wagers) == 0,
    decreases wagers.len(),
{
    if wagers.len() > 0 {
        assert(!(wagers[wagers.len() - 1] is Line));
        assert forall|i: int| 0 <= i < wagers.drop_last().len() implies !(
        #[trigger] wagers.drop_last()[i] is Line) by {
            assert(!(wagers[i] is Line));
        }
        lemma_no_line(wagers.drop_last());
    }
}

/// A list in which no come wager without a number is found counts none.
pub proof fn lemma_no_free_come(wagers: Seq<Wager>)
    requires
        !has_free_come(wagers),
    ensures
        free_comes(wagers) == 0,
    decreases wagers.len(),
{
    if wagers.len() > 0 {
        assert(!wagers[wagers.len() - 1].is_free_come());
        assert forall|i: int| 0 <= i < wagers.drop_last().len() implies !(
        #[trigger] wagers.drop_last()[i]).is_free_come() by {
            assert(!wagers[i].is_free_come());
        }
        lemma_no_free_come(wagers.drop_last());
    }
}

/// The first `k` wagers of a list hold no more than the whole list.
pub proof fn lemma_staked_take(wagers: Seq<Wager>, k: int)
    requires
        0 <= k <= wagers.len(),
    ensures
        staked(wagers.take(k)) <= staked(wagers),
    decreases wagers.len(),
{
    if k == wagers.len() {
        assert(wagers.take(k) =~= wagers);
    } else {
        lemma_staked_take(wagers.drop_last(), k);
        assert(wagers.drop_last().take(k) =~= wagers.take(k));
    }
}

} // verus!
