//! The model of the table, and what one roll does to it.
//!
//! [`Position`] is the table with unbounded amounts; [`after_roll`] is the
//! transition. A roll first settles every live wager in the order in which
//! the wagers were placed, then places at most one new wager.

use vstd::prelude::*;
use crate::config::Config;
use crate::payout::{is_point, odds_ratio, payout};
use crate::wager::{
    free_comes, has_free_come, has_line, lemma_free_comes_push, lemma_lines_push,
    lemma_no_free_come, lemma_no_line, lemma_staked_push, lemma_staked_take, lines, staked, Wager,
};

verus! {

/// The table in the model: the point, the bankroll, the highest bankroll
/// seen so far, and the live wagers in the order in which they were placed.
pub struct Position {
    pub point: Option<nat>,
    pub bankroll: nat,
    pub peak: nat,
    pub wagers: Seq<Wager>,
}

impl Position {
    /// All the player's money: the bankroll and what the wagers hold.
    pub open spec fn holdings(self) -> nat {
        self.bankroll + staked(self.wagers)
    }

    /// The point and every number taken by a come wager can be a point, and
    /// the peak is no lower than the bankroll.
    pub open spec fn sound(self) -> bool {
        &&& self.point matches Some(p) ==> is_point(p)
        &&& forall|i: int|
            0 <= i < self.wagers.len() ==> ((#[trigger] self.wagers[i]) matches Wager::Come {
                target: Some(t),
                ..
            } ==> is_point(t))
        &&& self.bankroll <= self.peak
    }

    /// The bankroll grows by `amount`, and the peak follows it.
    pub open spec fn credit(self, amount: nat) -> Position {
        Position {
            bankroll: self.bankroll + amount,
            peak: if self.bankroll + amount > self.peak {
                self.bankroll + amount
            } else {
                self.peak
            },
            ..self
        }
    }

    /// The wager `w` stays on the table.
    pub open spec fn keep(self, w: Wager) -> Position {
        Position { wagers: self.wagers.push(w), ..self }
    }

    /// At most one line wager is live, and at most one come wager that has
    /// not taken its number.
    pub open spec fn tidy(self) -> bool {
        lines(self.wagers) <= 1 && free_comes(self.wagers) <= 1
    }

    /// The bankroll cannot pay for a wager and none is live.
    pub open spec fn busted(self, cfg: Config) -> bool {
        self.bankroll < cfg.min_bet && self.wagers.len() == 0
    }
}

/// The table as a trial finds it: one line wager of the minimum unit, paid
/// out of the initial bankroll, and no point.
pub open spec fn opening(cfg: Config) -> Position {
    Position {
        point: None,
        bankroll: (cfg.initial_bankroll - cfg.min_bet) as nat,
        peak: cfg.initial_bankroll as nat,
        wagers: seq![Wager::Line { stake: cfg.min_bet as nat, odds: None }],
    }
}

/// What the wager `w` returns to the player when a seven is rolled.
///
/// A line wager wins on the come-out and a come wager wins while it has no
/// number: twice the stake comes back. Where odds are off without a point,
/// odds that were not working come back as they were laid. Everything else
/// is lost.
pub open spec fn seven_return(cfg: Config, point: Option<nat>, w: Wager) -> nat {
    match w {
        Wager::Line { stake, .. } => if point is None {
            2 * stake + if cfg.odds_off_without_point {
                w.odds_laid()
            } else {
                0
            }
        } else {
            0
        },
        Wager::Come { stake, target, .. } => if target is None {
            2 * stake
        } else if point is None && cfg.odds_off_without_point {
            w.odds_laid()
        } else {
            0
        },
    }
}

/// What the wager `w` returns to the player when its number `number` is
/// rolled: twice the stake and, where odds are laid, the odds and their
/// payout. The odds of a come wager pay nothing while odds are off without a
/// point and no point stands.
pub open spec fn hit_return(cfg: Config, point: Option<nat>, w: Wager, number: nat) -> nat {
    match w {
        Wager::Line { stake, odds } => 2 * stake + match odds {
            Some(o) => o + payout(o, number),
            None => 0,
        },
        Wager::Come { stake, odds, .. } => 2 * stake + match odds {
            Some(o) => o + if point is Some || !cfg.odds_off_without_point {
                payout(o, number)
            } else {
                0
            },
            None => 0,
        },
    }
}

/// The odds laid behind a wager of `stake` that has just taken `number`,
/// with the bankroll at `bankroll`: the stake times the policy's multiple
/// where the bankroll can pay for it, and none where it cannot.
pub open spec fn odds_for(cfg: Config, bankroll: nat, stake: nat, number: nat) -> Option<nat> {
    let wanted = stake * cfg.multiple(number, bankroll);
    if bankroll >= wanted {
        Some(wanted)
    } else {
        None
    }
}

/// The wager `w`, which had no number, takes `number`: odds are laid out of
/// the bankroll, and a line wager makes `number` the point.
pub open spec fn establish(cfg: Config, acc: Position, w: Wager, number: nat) -> Position {
    let odds = odds_for(cfg, acc.bankroll, w.stake(), number);
    let bankroll = match odds {
        Some(o) => (acc.bankroll - o) as nat,
        None => acc.bankroll,
    };
    match w {
        Wager::Line { stake, .. } => Position {
            point: Some(number),
            bankroll,
            peak: acc.peak,
            wagers: acc.wagers.push(Wager::Line { stake, odds }),
        },
        Wager::Come { stake, .. } => Position {
            point: acc.point,
            bankroll,
            peak: acc.peak,
            wagers: acc.wagers.push(Wager::Come { stake, target: Some(number), odds }),
        },
    }
}

/// The number that the wager plays against: the point for a line wager, its
/// own number for a come wager.
pub open spec fn number_of(point: Option<nat>, w: Wager) -> Option<nat> {
    match w {
        Wager::Line { .. } => point,
        Wager::Come { target, .. } => target,
    }
}

/// The wager `w` is settled on a roll of `sum` other than seven, into the
/// table `acc` that is being built for the next roll. `point` is the point
/// before the roll.
///
/// A wager with a number wins when the number is rolled and stays on the
/// table otherwise. A wager without one loses to 2, 3 and 12, takes any
/// other number but 11 as its own, and on 11 is paid its stake once and
/// stays on the table as it is.
pub open spec fn settle_number(
    cfg: Config,
    point: Option<nat>,
    sum: nat,
    acc: Position,
    w: Wager,
) -> Position {
    match number_of(point, w) {
        Some(n) => if n == sum {
            acc.credit(hit_return(cfg, point, w, n))
        } else if w is Line {
            Position { point, ..acc.keep(w) }
        } else {
            acc.keep(w)
        },
        None => if sum == 2 || sum == 3 || sum == 12 {
            acc
        } else if sum == 11 {
            acc.credit(w.stake()).keep(w)
        } else {
            establish(cfg, acc, w, sum)
        },
    }
}

/// The wager `w` is settled on a roll of `sum`.
pub open spec fn settle_one(
    cfg: Config,
    point: Option<nat>,
    sum: nat,
    acc: Position,
    w: Wager,
) -> Position {
    if sum == 7 {
        acc.credit(seven_return(cfg, point, w))
    } else {
        settle_number(cfg, point, sum, acc, w)
    }
}

/// The table that is being built for the next roll when the first `k`
/// wagers of `pos` have been settled on a roll of `sum`.
pub open spec fn settled(cfg: Config, pos: Position, sum: nat, k: nat) -> Position
    decreases k,
{
    if k == 0 {
        Position { point: None, bankroll: pos.bankroll, peak: pos.peak, wagers: Seq::empty() }
    } else {
        settle_one(
            cfg,
            pos.point,
            sum,
            settled(cfg, pos, sum, (k - 1) as nat),
            pos.wagers[k - 1],
        )
    }
}

/// How often the base stake has doubled: one, doubled as long as half of
/// `big` is still no less than `initial`.
pub open spec fn growth(big: nat, initial: nat) -> nat
    decreases big,
{
    if initial == 0 || big / 2 < initial {
        1
    } else {
        2 * growth(big / 2, initial)
    }
}

/// The stake of a new wager when the bankroll stands at `bankroll`.
pub open spec fn base_stake(cfg: Config, bankroll: nat) -> nat {
    if cfg.grow_bets {
        (cfg.min_bet as nat) * growth(bankroll, cfg.initial_bankroll as nat)
    } else {
        cfg.min_bet as nat
    }
}

/// The wager that is placed after the roll, if any: a line wager on the
/// come-out where none is live, else a come wager where none is waiting for
/// its number; none where the bankroll is below the minimum unit.
pub open spec fn new_wager(cfg: Config, pos: Position) -> Option<Wager> {
    if pos.bankroll < cfg.min_bet {
        None
    } else if pos.point is None && !has_line(pos.wagers) {
        Some(Wager::Line { stake: base_stake(cfg, pos.bankroll), odds: None })
    } else if !has_free_come(pos.wagers) {
        Some(Wager::Come { stake: base_stake(cfg, pos.bankroll), target: None, odds: None })
    } else {
        None
    }
}

/// The new wager, if any, is placed and paid for.
pub open spec fn restake(cfg: Config, pos: Position) -> Position {
    match new_wager(cfg, pos) {
        Some(w) => Position {
            bankroll: (pos.bankroll - w.stake()) as nat,
            wagers: pos.wagers.push(w),
            ..pos
        },
        None => pos,
    }
}

/// The table after a roll of `sum`.
pub open spec fn after_roll(cfg: Config, pos: Position, sum: nat) -> Position {
    restake(cfg, settled(cfg, pos, sum, pos.wagers.len()))
}

/// An odds wager never pays more than twice what was laid.
pub proof fn lemma_payout_bound(amount: nat, target: nat)
    ensures
        payout(amount, target) <= 2 * amount,
        amount * odds_ratio(target).0 <= 6 * amount,
{
    if target == 4 || target == 10 {
        assert(amount * odds_ratio(target).0 == amount * 2);
        assert(payout(amount, target) == (amount * 2) / 1);
    } else if target == 5 || target == 9 {
        assert(amount * odds_ratio(target).0 == amount * 3);
        assert(payout(amount, target) == (amount * 3) / 2);
    } else {
        assert(amount * odds_ratio(target).0 == amount * 6);
        assert(payout(amount, target) == (amount * 6) / 5);
    }
}

/// Settling one wager adds at most three times what the wager holds to the
/// player's money.
pub proof fn lemma_settle_one_bound(
    cfg: Config,
    point: Option<nat>,
    sum: nat,
    acc: Position,
    w: Wager,
)
    ensures
        settle_one(cfg, point, sum, acc, w).holdings() <= acc.holdings() + 3 * w.at_risk(),
{
    lemma_staked_push(acc.wagers, w);
    if sum != 7 {
        match number_of(point, w) {
            Some(n) => {
                lemma_payout_bound(w.odds_laid(), n);
            },
            None => {
                if !(sum == 2 || sum == 3 || sum == 12 || sum == 11) {
                    let odds = odds_for(cfg, acc.bankroll, w.stake(), sum);
                    match w {
                        Wager::Line { stake, .. } => {
                            lemma_staked_push(acc.wagers, Wager::Line { stake, odds });
                        },
                        Wager::Come { stake, .. } => {
                            lemma_staked_push(
                                acc.wagers,
                                Wager::Come { stake, target: Some(sum), odds },
                            );
                        },
                    }
                }
            },
        }
    }
}

/// Settling a wager keeps a sound table sound.
pub proof fn lemma_settle_one_sound(
    cfg: Config,
    point: Option<nat>,
    sum: nat,
    acc: Position,
    w: Wager,
)
    requires
        acc.sound(),
        2 <= sum <= 12,
        point matches Some(p) ==> is_point(p),
        w matches Wager::Come { target: Some(t), .. } ==> is_point(t),
    ensures
        settle_one(cfg, point, sum, acc, w).sound(),
{
    let next = settle_one(cfg, point, sum, acc, w);
    assert forall|i: int| 0 <= i < next.wagers.len() implies ((#[trigger] next.wagers[i]) matches Wager::Come {
        target: Some(t),
        ..
    } ==> is_point(t)) by {
        if i < acc.wagers.len() {
            assert(next.wagers[i] == acc.wagers[i]);
        }
    }
}

/// While the wagers of a sound table are settled, the table that is being
/// built is sound, and the player's money has grown by at most three times
/// what the settled wagers held.
pub proof fn lemma_settled(cfg: Config, pos: Position, sum: nat, k: nat)
    requires
        pos.sound(),
        2 <= sum <= 12,
        k <= pos.wagers.len(),
    ensures
        settled(cfg, pos, sum, k).sound(),
        settled(cfg, pos, sum, k).peak >= pos.peak,
        settled(cfg, pos, sum, k).holdings() <= pos.bankroll + 3 * staked(pos.wagers.take(k as int)),
        staked(pos.wagers.take(k as int)) <= staked(pos.wagers),
    decreases k,
{
    lemma_staked_take(pos.wagers, k as int);
    if k == 0 {
        assert(pos.wagers.take(0) =~= Seq::<Wager>::empty());
    } else {
        let acc = settled(cfg, pos, sum, (k - 1) as nat);
        let w = pos.wagers[k - 1];
        lemma_settled(cfg, pos, sum, (k - 1) as nat);
        lemma_settle_one_sound(cfg, pos.point, sum, acc, w);
        lemma_settle_one_bound(cfg, pos.point, sum, acc, w);
        assert(pos.wagers.take(k as int).drop_last() =~= pos.wagers.take(k - 1));
    }
}

/// The peak does not fall while the wagers are settled.
pub proof fn lemma_settled_peak(cfg: Config, pos: Position, sum: nat, j: nat, k: nat)
    requires
        j <= k,
    ensures
        settled(cfg, pos, sum, j).peak <= settled(cfg, pos, sum, k).peak,
    decreases k,
{
    if j < k {
        lemma_settled_peak(cfg, pos, sum, j, (k - 1) as nat);
    }
}

/// The peak covers a roll: it does not fall over the roll, and neither the
/// bankroll at any moment while the wagers are settled nor the bankroll
/// after the roll is above the peak after the roll.
pub proof fn lemma_peak_covers_roll(cfg: Config, pos: Position, sum: nat, j: nat)
    requires
        cfg.valid(),
        pos.sound(),
        2 <= sum <= 12,
        j <= pos.wagers.len(),
    ensures
        pos.peak <= after_roll(cfg, pos, sum).peak,
        settled(cfg, pos, sum, j).bankroll <= after_roll(cfg, pos, sum).peak,
        after_roll(cfg, pos, sum).bankroll <= after_roll(cfg, pos, sum).peak,
{
    let n = pos.wagers.len();
    lemma_settled(cfg, pos, sum, j);
    lemma_settled(cfg, pos, sum, n);
    lemma_settled_peak(cfg, pos, sum, j, n);
    lemma_restake(cfg, settled(cfg, pos, sum, n));
}

/// A roll keeps a sound table sound, the peak does not fall, and the
/// player's money at most triples.
pub proof fn lemma_after_roll(cfg: Config, pos: Position, sum: nat)
    requires
        cfg.valid(),
        pos.sound(),
        2 <= sum <= 12,
    ensures
        after_roll(cfg, pos, sum).sound(),
        after_roll(cfg, pos, sum).peak >= pos.peak,
        after_roll(cfg, pos, sum).holdings() <= 3 * pos.holdings(),
{
    lemma_settled(cfg, pos, sum, pos.wagers.len());
    lemma_restake(cfg, settled(cfg, pos, sum, pos.wagers.len()));
}

/// On a seven no wager is carried over.
pub proof fn lemma_seven_settles_all(cfg: Config, pos: Position, k: nat)
    ensures
        settled(cfg, pos, 7, k).point is None,
        settled(cfg, pos, 7, k).wagers.len() == 0,
    decreases k,
{
    if k > 0 {
        lemma_seven_settles_all(cfg, pos, (k - 1) as nat);
    }
}

/// A seven clears the table: after it no point stands, and no wager with a
/// number or with odds is live. The only wager that can be live is the new
/// line wager.
pub proof fn lemma_seven_clears(cfg: Config, pos: Position)
    ensures
        after_roll(cfg, pos, 7).point is None,
        after_roll(cfg, pos, 7).wagers.len() <= 1,
        forall|i: int|
            0 <= i < after_roll(cfg, pos, 7).wagers.len() ==> (#[trigger] after_roll(
                cfg,
                pos,
                7,
            ).wagers[i]) matches Wager::Line { odds: None, .. },
{
    lemma_seven_settles_all(cfg, pos, pos.wagers.len());
}

/// Settling a wager puts at most that wager back on the table: a line
/// wager at most where it was one, and a come wager without a number at
/// most where it was one.
pub proof fn lemma_settle_one_tidy(
    cfg: Config,
    point: Option<nat>,
    sum: nat,
    acc: Position,
    w: Wager,
)
    ensures
        lines(settle_one(cfg, point, sum, acc, w).wagers) <= lines(acc.wagers) + if w is Line {
            1nat
        } else {
            0nat
        },
        free_comes(settle_one(cfg, point, sum, acc, w).wagers) <= free_comes(acc.wagers)
            + if w.is_free_come() {
            1nat
        } else {
            0nat
        },
{
    let next = settle_one(cfg, point, sum, acc, w);
    if next.wagers.len() > acc.wagers.len() {
        let kept = next.wagers.last();
        assert(next.wagers =~= acc.wagers.push(kept));
        lemma_lines_push(acc.wagers, kept);
        lemma_free_comes_push(acc.wagers, kept);
    }
}

/// While the wagers are settled, no more line wagers and no more come
/// wagers without a number are on the table that is being built than were
/// among the wagers settled.
pub proof fn lemma_settled_tidy(cfg: Config, pos: Position, sum: nat, k: nat)
    requires
        k <= pos.wagers.len(),
    ensures
        lines(settled(cfg, pos, sum, k).wagers) <= lines(pos.wagers.take(k as int)),
        free_comes(settled(cfg, pos, sum, k).wagers) <= free_comes(pos.wagers.take(k as int)),
    decreases k,
{
    if k > 0 {
        let acc = settled(cfg, pos, sum, (k - 1) as nat);
        let w = pos.wagers[k - 1];
        lemma_settled_tidy(cfg, pos, sum, (k - 1) as nat);
        lemma_settle_one_tidy(cfg, pos.point, sum, acc, w);
        assert(pos.wagers.take(k as int) =~= pos.wagers.take(k - 1).push(w));
        lemma_lines_push(pos.wagers.take(k - 1), w);
        lemma_free_comes_push(pos.wagers.take(k - 1), w);
    }
}

/// A roll keeps the table tidy: after it, as before it, at most one line
/// wager is live and at most one come wager that has not taken its number.
pub proof fn lemma_after_roll_tidy(cfg: Config, pos: Position, sum: nat)
    requires
        pos.tidy(),
    ensures
        after_roll(cfg, pos, sum).tidy(),
        after_roll(cfg, pos, sum).wagers.len() <= pos.wagers.len() + 1,
{
    let n = pos.wagers.len();
    let mid = settled(cfg, pos, sum, n);
    lemma_settled_tidy(cfg, pos, sum, n);
    lemma_settled_len(cfg, pos, sum, n);
    assert(pos.wagers.take(n as int) =~= pos.wagers);
    match new_wager(cfg, mid) {
        Some(w) => {
            lemma_lines_push(mid.wagers, w);
            lemma_free_comes_push(mid.wagers, w);
            if w is Line {
                lemma_no_line(mid.wagers);
            } else {
                lemma_no_free_come(mid.wagers);
            }
        },
        None => {},
    }
}

/// Settling wagers puts no more wagers on the table than were settled.
pub proof fn lemma_settled_len(cfg: Config, pos: Position, sum: nat, k: nat)
    ensures
        settled(cfg, pos, sum, k).wagers.len() <= k,
    decreases k,
{
    if k > 0 {
        lemma_settled_len(cfg, pos, sum, (k - 1) as nat);
    }
}

/// One, or one doubled some number of times.
pub open spec fn is_doubling(g: nat) -> bool
    decreases g,
{
    g == 1 || (g >= 2 && g % 2 == 0 && is_doubling(g / 2))
}

/// The growth factor is the largest doubling of one that the bankroll
/// covers: one doubled some number of times, with the initial bankroll times
/// the factor covered by the bankroll once the bankroll has reached the
/// initial bankroll, and the initial bankroll times twice the factor above
/// the bankroll.
pub proof fn lemma_growth_bound(big: nat, initial: nat)
    requires
        initial > 0,
    ensures
        is_doubling(growth(big, initial)),
        big >= initial ==> growth(big, initial) * initial <= big,
        big < initial ==> growth(big, initial) == 1,
        big < 2 * growth(big, initial) * initial,
    decreases big,
{
    if big / 2 >= initial {
        lemma_growth_bound(big / 2, initial);
        let g = growth(big / 2, initial);
        assert((2 * g) * initial == 2 * (g * initial)) by (nonlinear_arith);
        assert(2 * (2 * g) * initial == 4 * (g * initial)) by (nonlinear_arith);
        assert(2 * g * initial == 2 * (g * initial)) by (nonlinear_arith);
        assert((2 * g) / 2 == g);
    } else {
        assert(2 * 1 * initial == 2 * initial);
    }
}

/// Under a valid configuration a bankroll that can pay for the minimum unit
/// can pay for the base stake.
pub proof fn lemma_base_stake_covered(cfg: Config, bankroll: nat)
    requires
        cfg.valid(),
        bankroll >= cfg.min_bet,
    ensures
        base_stake(cfg, bankroll) <= bankroll,
{
    if cfg.grow_bets {
        let initial = cfg.initial_bankroll as nat;
        let g = growth(bankroll, initial);
        let m = cfg.min_bet as nat;
        lemma_growth_bound(bankroll, initial);
        if bankroll >= initial {
            assert(m * g <= initial * g) by (nonlinear_arith)
                requires
                    m <= initial,
            ;
            assert(initial * g == g * initial) by (nonlinear_arith);
        } else {
            assert(m * g == m) by (nonlinear_arith)
                requires
                    g == 1,
            ;
        }
    }
}

/// Placing the new wager keeps a sound table sound and moves no money in or
/// out of the player's hands.
pub proof fn lemma_restake(cfg: Config, pos: Position)
    requires
        cfg.valid(),
        pos.sound(),
    ensures
        restake(cfg, pos).sound(),
        restake(cfg, pos).holdings() == pos.holdings(),
        restake(cfg, pos).peak == pos.peak,
        restake(cfg, pos).point == pos.point,
{
    match new_wager(cfg, pos) {
        Some(w) => {
            lemma_base_stake_covered(cfg, pos.bankroll);
            lemma_staked_push(pos.wagers, w);
            let next = restake(cfg, pos);
            assert forall|i: int| 0 <= i < next.wagers.len() implies ((#[trigger] next.wagers[i]) matches Wager::Come {
                target: Some(t),
                ..
            } ==> is_point(t)) by {
                if i < pos.wagers.len() {
                    assert(next.wagers[i] == pos.wagers[i]);
                }
            }
        },
        None => {},
    }
}

} // verus!
