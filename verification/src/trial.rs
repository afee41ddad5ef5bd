//! The trial driver: one player at one table, roll after roll, until the
//! player is out of the game or the trial is cut off.
//!
//! [`Game`] plays a trial one roll at a time, for a caller that has work of
//! its own between the rolls; [`one_scenario`] plays a trial to its end.

use vstd::prelude::*;
use vstd::arithmetic::div_mod::lemma_small_mod;
use crate::config::{Config, MONEY_LIMIT};
use crate::dice::{lemma_place_step, replayed, valid_roll, Roll, Shooter};
use crate::wager::{free_comes, lines, staked, Wager};
use crate::position::{after_roll, lemma_after_roll, lemma_after_roll_tidy, opening, Position};
use crate::table::Table;

verus! {

/// Why a trial ended.
#[derive(Clone, Copy, Debug, PartialEq, Eq)]
pub enum End {
    /// The bankroll could pay for no wager and none was live.
    Busted,
    /// The configured number of rolls was reached.
    MaxRolls,
    /// The player's money went over the limit of the table, or the count of
    /// rolls reached the largest number the machine can hold.
    OutOfRange,
}

/// What a trial came to.
#[derive(Clone, Copy, Debug, PartialEq, Eq)]
pub struct Trial {
    /// The number of rolls made.
    pub rolls: usize,
    /// The highest bankroll seen.
    pub max_bankroll: usize,
    /// Why the trial ended.
    pub end: End,
}

/// The sum of the two faces.
pub open spec fn sum_of(roll: Roll) -> nat {
    (roll.0 + roll.1) as nat
}

/// The table after the first `k` rolls of `dice`, played from the opening
/// of a trial.
pub open spec fn table_after(cfg: Config, dice: Seq<Roll>, k: nat) -> Position
    decreases k,
{
    if k == 0 {
        opening(cfg)
    } else {
        after_roll(cfg, table_after(cfg, dice, (k - 1) as nat), sum_of(dice[k - 1]))
    }
}

/// Why a trial that ends after `k` rolls at the table `pos` ends there.
pub open spec fn end_of(cfg: Config, pos: Position, k: nat) -> End {
    if pos.busted(cfg) {
        End::Busted
    } else if cfg.max_rolls == Some(k as usize) {
        End::MaxRolls
    } else {
        End::OutOfRange
    }
}

/// A trial does not go on after roll `k` at the table `pos`.
pub open spec fn ends_at(cfg: Config, pos: Position, k: nat) -> bool {
    ||| pos.busted(cfg)
    ||| (k <= usize::MAX && cfg.max_rolls == Some(k as usize))
    ||| pos.holdings() > MONEY_LIMIT
    ||| k >= usize::MAX
}

/// `trial` is what the trial comes to when the dice fall as `dice`: at least
/// one roll is made, no roll before the last ends the trial, the last does.
pub open spec fn is_trial(cfg: Config, dice: Seq<Roll>, trial: Trial) -> bool {
    &&& dice.len() >= 1
    &&& trial.rolls == dice.len()
    &&& forall|k: nat| 1 <= k < dice.len() ==> !ends_at(cfg, #[trigger] table_after(cfg, dice, k), k)
    &&& ends_at(cfg, table_after(cfg, dice, dice.len()), dice.len())
    &&& trial.max_bankroll == table_after(cfg, dice, dice.len()).peak
    &&& trial.end == end_of(cfg, table_after(cfg, dice, dice.len()), dice.len())
}

/// The shooter `before` made the rolls `dice` and was left as `after`: every
/// roll is a roll of two dice; a script was replayed from the shooter's
/// place in it, in a cycle; the rolls went on record where one is kept.
pub open spec fn made_by(before: Shooter, dice: Seq<Roll>, after: Shooter) -> bool {
    &&& forall|k: int| 0 <= k < dice.len() ==> valid_roll(#[trigger] dice[k])
    &&& after.values == before.values
    &&& before.script() matches Some(s) ==> {
        &&& forall|k: nat| k < dice.len() ==> #[trigger] dice[k as int] == replayed(s, before.i as nat, k)
        &&& after.i == (before.i + dice.len()) % (s.len() as int)
    }
    &&& before.script() is None ==> after.i == before.i
    &&& before.record() matches Some(r) ==> after.record() == Some(r + dice)
    &&& before.record() is None ==> after.record() is None
}

/// The table after `k` rolls depends on the first `k` rolls only.
pub proof fn lemma_table_after_agrees(cfg: Config, a: Seq<Roll>, b: Seq<Roll>, k: nat)
    requires
        forall|j: int| 0 <= j < k ==> a[j] == b[j],
    ensures
        table_after(cfg, a, k) == table_after(cfg, b, k),
    decreases k,
{
    if k > 0 {
        lemma_table_after_agrees(cfg, a, b, (k - 1) as nat);
    }
}

/// Every roll of `dice` is a roll of two dice.
pub open spec fn valid_dice(dice: Seq<Roll>) -> bool {
    forall|k: int| 0 <= k < dice.len() ==> valid_roll(#[trigger] dice[k])
}

/// The table of a trial is sound after every roll.
pub proof fn lemma_table_after_sound(cfg: Config, dice: Seq<Roll>, k: nat)
    requires
        cfg.valid(),
        valid_dice(dice),
        k <= dice.len(),
    ensures
        table_after(cfg, dice, k).sound(),
    decreases k,
{
    if k > 0 {
        lemma_table_after_sound(cfg, dice, (k - 1) as nat);
        assert(valid_roll(dice[k - 1]));
        lemma_after_roll(cfg, table_after(cfg, dice, (k - 1) as nat), sum_of(dice[k - 1]));
    }
}

/// The table of a trial is tidy after every roll: at most one line wager
/// is live, and at most one come wager that has not taken its number.
pub proof fn lemma_table_after_tidy(cfg: Config, dice: Seq<Roll>, k: nat)
    ensures
        table_after(cfg, dice, k).tidy(),
    decreases k,
{
    if k == 0 {
        let first = opening(cfg).wagers;
        assert(first.drop_last() =~= Seq::<Wager>::empty());
        assert(lines(first.drop_last()) == 0);
        assert(free_comes(first.drop_last()) == 0);
    } else {
        lemma_table_after_tidy(cfg, dice, (k - 1) as nat);
        lemma_after_roll_tidy(cfg, table_after(cfg, dice, (k - 1) as nat), sum_of(dice[k - 1]));
    }
}

/// Across a trial the peak never falls, and it is no lower than any
/// bankroll that the trial has left behind a roll: for `j <= k`, neither the
/// peak nor the bankroll after `j` rolls is above the peak after `k` rolls.
pub proof fn lemma_peak_never_falls(cfg: Config, dice: Seq<Roll>, j: nat, k: nat)
    requires
        cfg.valid(),
        valid_dice(dice),
        j <= k <= dice.len(),
    ensures
        table_after(cfg, dice, j).peak <= table_after(cfg, dice, k).peak,
        table_after(cfg, dice, j).bankroll <= table_after(cfg, dice, k).peak,
        cfg.initial_bankroll <= table_after(cfg, dice, k).peak,
    decreases k,
{
    lemma_table_after_sound(cfg, dice, j);
    if j < k {
        lemma_peak_never_falls(cfg, dice, j, (k - 1) as nat);
        lemma_table_after_sound(cfg, dice, (k - 1) as nat);
        assert(valid_roll(dice[k - 1]));
        lemma_after_roll(cfg, table_after(cfg, dice, (k - 1) as nat), sum_of(dice[k - 1]));
    } else if k > 0 {
        lemma_peak_never_falls(cfg, dice, 0, (k - 1) as nat);
        lemma_table_after_sound(cfg, dice, (k - 1) as nat);
        assert(valid_roll(dice[k - 1]));
        lemma_after_roll(cfg, table_after(cfg, dice, (k - 1) as nat), sum_of(dice[k - 1]));
    }
}

/// `dice` is what the script hands out from the place `start` on.
pub open spec fn replays(script: Seq<Roll>, start: nat, dice: Seq<Roll>) -> bool {
    forall|k: nat| k < dice.len() ==> #[trigger] dice[k as int] == replayed(script, start, k)
}

/// Trials on a script are determined: two trials under one configuration,
/// on dice replayed from the same place of the same script, make the same
/// rolls and come to the same end.
pub proof fn lemma_scripted_trials_agree(
    cfg: Config,
    script: Seq<Roll>,
    start: nat,
    dice1: Seq<Roll>,
    trial1: Trial,
    dice2: Seq<Roll>,
    trial2: Trial,
)
    requires
        replays(script, start, dice1),
        replays(script, start, dice2),
        is_trial(cfg, dice1, trial1),
        is_trial(cfg, dice2, trial2),
    ensures
        dice1 == dice2,
        trial1 == trial2,
{
    let n1 = dice1.len();
    let n2 = dice2.len();
    let n = if n1 <= n2 {
        n1
    } else {
        n2
    };
    assert forall|j: int| 0 <= j < n implies dice1[j] == dice2[j] by {
        assert(dice1[j as nat as int] == replayed(script, start, j as nat));
        assert(dice2[j as nat as int] == replayed(script, start, j as nat));
    }
    lemma_table_after_agrees(cfg, dice1, dice2, n);
    if n1 < n2 {
        assert(!ends_at(cfg, table_after(cfg, dice2, n1), n1));
    } else if n2 < n1 {
        assert(!ends_at(cfg, table_after(cfg, dice1, n2), n2));
    }
    assert(dice1 =~= dice2);
}

/// A trial in progress: the table, and the number of rolls played on it.
#[derive(Clone, Debug, PartialEq, Eq)]
pub struct Game {
    pub table: Table,
    pub rolls: usize,
}

impl Game {
    /// Another roll can be played: the table is sound, the player's money
    /// is within the limit of the table, and the rolls can still be counted.
    pub open spec fn can_go_on(&self) -> bool {
        &&& self.table@.sound()
        &&& self.table@.holdings() <= MONEY_LIMIT
        &&& self.rolls < usize::MAX
    }

    /// Opens the table for a trial.
    pub fn begin(cfg: &Config) -> (game: Game)
        requires
            cfg.valid(),
        ensures
            game.table@ == opening(*cfg),
            game.rolls == 0,
            game.can_go_on(),
    {
        proof {
            assert(opening(*cfg).wagers.drop_last() =~= Seq::empty());
            assert(staked(opening(*cfg).wagers) == cfg.min_bet) by {
                reveal_with_fuel(staked, 2);
            }
        }
        Game { table: Table::open(cfg), rolls: 0 }
    }

    /// Tells whether another roll can be played.
    pub fn is_ready(&self) -> (ok: bool)
        ensures
            ok == self.can_go_on(),
    {
        self.rolls < usize::MAX && self.table.is_sound() && self.table.within_limit()
    }

    /// Plays `roll` and counts it. Returns what the trial came to where the
    /// roll ends it: the player is out of the game, the configured number of
    /// rolls is reached, or the amounts leave the range of the table. Where
    /// it returns nothing, another roll can be played.
    pub fn advance(&mut self, cfg: &Config, roll: Roll) -> (ended: Option<Trial>)
        requires
            cfg.valid(),
            valid_roll(roll),
            old(self).can_go_on(),
        ensures
            final(self).rolls == old(self).rolls + 1,
            final(self).table@ == after_roll(*cfg, old(self).table@, sum_of(roll)),
            final(self).table@.sound(),
            ended is Some <==> ends_at(*cfg, final(self).table@, final(self).rolls as nat),
            ended matches Some(trial) ==> trial == (Trial {
                rolls: final(self).rolls,
                max_bankroll: final(self).table.max_bankroll,
                end: end_of(*cfg, final(self).table@, final(self).rolls as nat),
            }),
            ended is None ==> final(self).can_go_on(),
    {
        self.rolls += 1;
        self.table.play(cfg, roll);
        let cut_off: bool = match cfg.max_rolls {
            Some(m) => self.rolls == m,
            None => false,
        };
        let end = if self.table.is_busted(cfg) {
            End::Busted
        } else if cut_off {
            End::MaxRolls
        } else if self.rolls == usize::MAX || !self.table.within_limit() {
            End::OutOfRange
        } else {
            return None;
        };
        Some(Trial { rolls: self.rolls, max_bankroll: self.table.max_bankroll, end })
    }
}

/// Plays one trial: the table is opened, and rolls are made and played
/// until one ends the trial. Returns what the trial came to, and the rolls
/// as they fell.
pub fn one_scenario(cfg: &Config, shooter: &mut Shooter) -> (played: (Trial, Ghost<Seq<Roll>>))
    requires
        cfg.valid(),
        old(shooter).wf(),
    ensures
        final(shooter).wf(),
        made_by(*old(shooter), played.1@, *final(shooter)),
        is_trial(*cfg, played.1@, played.0),
        played.0.max_bankroll >= cfg.initial_bankroll,
{
    let mut game = Game::begin(cfg);
    let mut trial = Trial { rolls: 0, max_bankroll: cfg.initial_bankroll, end: End::OutOfRange };
    let ghost mut dice: Seq<Roll> = Seq::empty();
    proof {
        if old(shooter).record() is Some {
            assert(old(shooter).record()->0 + dice =~= old(shooter).record()->0);
        }
        if old(shooter).script() is Some {
            lemma_small_mod(old(shooter).i as nat, old(shooter).script()->0.len());
        }
    }
    loop
        invariant_except_break
            game.can_go_on(),
            forall|k: nat|
                1 <= k <= game.rolls ==> !ends_at(*cfg, #[trigger] table_after(*cfg, dice, k), k),
        invariant
            cfg.valid(),
            game.rolls == dice.len(),
            game.table@ == table_after(*cfg, dice, game.rolls as nat),
            game.table.max_bankroll >= cfg.initial_bankroll,
            shooter.wf(),
            made_by(*old(shooter), dice, *shooter),
        ensures
            is_trial(*cfg, dice, trial),
            trial.max_bankroll >= cfg.initial_bankroll,
        decreases usize::MAX - game.rolls,
    {
        let ghost before = dice;
        let ghost record = shooter.record();
        let roll: Roll = shooter.roll();
        proof {
            dice = before.push(roll);
            assert forall|k: nat| k <= before.len() implies table_after(*cfg, dice, k)
                == table_after(*cfg, before, k) by {
                lemma_table_after_agrees(*cfg, dice, before, k);
            }
            lemma_after_roll(*cfg, game.table@, sum_of(roll));
            if old(shooter).script() is Some {
                let s = old(shooter).script()->0;
                lemma_place_step((old(shooter).i + before.len()) as nat, s.len());
            }
            if old(shooter).record() is Some {
                assert(old(shooter).record()->0 + dice =~= record->0.push(roll));
            }
        }
        match game.advance(cfg, roll) {
            Some(ended) => {
                trial = ended;
                break;
            },
            None => {},
        }
    }
    (trial, Ghost(dice))
}

} // verus!
