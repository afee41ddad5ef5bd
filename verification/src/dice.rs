//! The dice: rolls drawn at random or replayed from a script, and the record
//! of the rolls that were made.

use vstd::prelude::*;
use vstd::arithmetic::div_mod::{lemma_fundamental_div_mod, lemma_fundamental_div_mod_converse};
use rand::Rng;

verus! {

/// A roll of two dice.
pub type Roll = (usize, usize);

/// Both faces of the roll are faces of a die.
pub open spec fn valid_roll(roll: Roll) -> bool {
    1 <= roll.0 <= 6 && 1 <= roll.1 <= 6
}

/// A number drawn from the thread's random generator, no lower than `low`
/// and no higher than `high`.
///
/// Calls `rand::thread_rng()` and `Rng::gen_range` on the range from `low`
/// to `high`, both ends included. `gen_range` refuses an empty range, which
/// `requires` leaves out. The contract claims only that the number lies in
/// the range, which is what `gen_range` returns for every state of the
/// generator. The draw fails where the system gives the generator no seed.
#[verifier::external_body]
fn random_between(low: usize, high: usize) -> (drawn: usize)
    requires
        low <= high,
    ensures
        low <= drawn <= high,
{
    rand::thread_rng().gen_range(low..=high)
}

/// The record of the rolls that were made, kept where one was asked for.
pub struct RollLogger {
    pub lines: Option<Vec<Roll>>,
}

impl RollLogger {
    /// A record that keeps rolls if `enabled`, and none otherwise.
    pub fn new(enabled: bool) -> (logger: Self)
        ensures
            enabled ==> (logger.lines matches Some(v) && v@.len() == 0),
            !enabled ==> logger.lines is None,
    {
        if enabled {
            Self { lines: Some(Vec::new()) }
        } else {
            Self { lines: None }
        }
    }

    /// Puts `roll` at the end of the record, where one is kept.
    pub fn log(&mut self, roll: Roll)
        ensures
            old(self).lines matches Some(before) ==> (final(self).lines matches Some(after)
                && after@ == before@.push(roll)),
            old(self).lines is None ==> final(self).lines is None,
    {
        let lines = self.lines.take();
        match lines {
            Some(mut v) => {
                v.push(roll);
                self.lines = Some(v);
            },
            None => {},
        }
    }
}

/// Why a script of rolls was refused.
#[derive(Clone, Copy, Debug, PartialEq, Eq)]
pub enum ScriptError {
    /// The script holds no roll.
    Empty,
    /// The roll at this place, counted from zero, has a face that no die
    /// has; every roll before it is a roll of two dice.
    BadRoll(usize),
}

/// Every roll of the script is a roll of two dice.
pub open spec fn valid_script(script: Seq<Roll>) -> bool {
    forall|k: int| 0 <= k < script.len() ==> valid_roll(#[trigger] script[k])
}

/// The roll that a script hands out `k` rolls after the one at `start`: the
/// script is replayed from its beginning whenever its end is reached.
pub open spec fn replayed(script: Seq<Roll>, start: nat, k: nat) -> Roll {
    script[((start + k) % script.len()) as int]
}

/// The place after `x` in a cycle of `n` is the place at `x + 1`.
pub proof fn lemma_next_place(x: nat, n: nat)
    requires
        n > 0,
    ensures
        (x + 1) % n == if x % n + 1 == n {
            0
        } else {
            x % n + 1
        },
{
    let q = x as int / n as int;
    let r = x as int % n as int;
    lemma_fundamental_div_mod(x as int, n as int);
    assert(n * q == q * n) by (nonlinear_arith);
    if r + 1 == n {
        assert((q + 1) * n == q * n + n) by (nonlinear_arith);
        lemma_fundamental_div_mod_converse(x as int + 1, n as int, q + 1, 0);
    } else {
        lemma_fundamental_div_mod_converse(x as int + 1, n as int, q, r + 1);
    }
}

/// Stepping from the place of `x` in a cycle of `n` leads to the place of
/// `x + 1`.
pub proof fn lemma_place_step(x: nat, n: nat)
    requires
        n > 0,
    ensures
        ((x % n) + 1) % n == (x + 1) % n,
{
    lemma_next_place(x, n);
    lemma_next_place(x % n, n);
    lemma_fundamental_div_mod_converse((x % n) as int, n as int, 0, (x % n) as int);
}

/// The source of rolls.
pub struct Shooter {
    /// The script that is replayed; without one the dice are random.
    pub values: Option<Vec<Roll>>,
    /// The place in the script of the next roll.
    pub i: usize,
    /// The record of the rolls made.
    pub roll_logger: RollLogger,
}

impl Shooter {
    /// A script is not empty, holds rolls of two dice only, and the next
    /// place lies in it.
    pub open spec fn wf(&self) -> bool {
        self.values matches Some(v) ==> (v@.len() > 0 && valid_script(v@) && self.i < v@.len())
    }

    /// The script, where the dice are not random.
    pub open spec fn script(&self) -> Option<Seq<Roll>> {
        match self.values {
            Some(v) => Some(v@),
            None => None,
        }
    }

    /// The rolls on record, where a record is kept.
    pub open spec fn record(&self) -> Option<Seq<Roll>> {
        match self.roll_logger.lines {
            Some(v) => Some(v@),
            None => None,
        }
    }

    /// A shooter that replays `script` from its beginning, or throws random
    /// dice where there is none. A script must hold at least one roll, and
    /// rolls of two dice only. The rolls are kept on record if `keep_log`.
    pub fn new(script: Option<Vec<Roll>>, keep_log: bool) -> (made: Result<Shooter, ScriptError>)
        ensures
            match made {
                Ok(shooter) => {
                    &&& shooter.wf()
                    &&& shooter.values == script
                    &&& shooter.i == 0
                    &&& keep_log ==> shooter.record() == Some(Seq::<Roll>::empty())
                    &&& !keep_log ==> shooter.record() is None
                },
                Err(ScriptError::Empty) => (script matches Some(v) && v@.len() == 0),
                Err(ScriptError::BadRoll(k)) => (script matches Some(v) && k < v@.len()
                    && !valid_roll(v@[k as int]) && valid_script(v@.take(k as int))),
            },
            script is None ==> made is Ok,
            script matches Some(v) ==> (made is Ok <==> v@.len() > 0 && valid_script(v@)),
    {
        if let Some(v) = &script {
            if v.len() == 0 {
                return Err(ScriptError::Empty);
            }
            let mut k: usize = 0;
            while k < v.len()
                invariant
                    script == Some(*v),
                    k <= v.len(),
                    forall|j: int| 0 <= j < k ==> valid_roll(#[trigger] v@[j]),
                decreases v.len() - k,
            {
                let roll: Roll = v[k];
                if !(1 <= roll.0 && roll.0 <= 6 && 1 <= roll.1 && roll.1 <= 6) {
                    return Err(ScriptError::BadRoll(k));
                }
                k += 1;
            }
        }
        let roll_logger = RollLogger::new(keep_log);
        assert(keep_log ==> roll_logger.lines->0@ =~= Seq::<Roll>::empty());
        Ok(Shooter { values: script, i: 0, roll_logger })
    }

    /// Makes the next roll: the next of the script, which begins again when
    /// its end is reached, or two random faces. The roll goes on record.
    pub fn roll(&mut self) -> (roll: Roll)
        requires
            old(self).wf(),
        ensures
            final(self).wf(),
            valid_roll(roll),
            final(self).values == old(self).values,
            old(self).script() matches Some(s) ==> (roll == s[old(self).i as int] && final(self).i
                == (old(self).i + 1) % (s.len() as int)),
            old(self).script() is None ==> final(self).i == old(self).i,
            old(self).record() matches Some(r) ==> final(self).record() == Some(r.push(roll)),
            old(self).record() is None ==> final(self).record() is None,
    {
        let roll: Roll = if let Some(values) = &self.values {
            assert(self.values == Some(*values));
            let roll: Roll = values[self.i];
            proof {
                lemma_next_place(self.i as nat, values@.len());
                lemma_fundamental_div_mod_converse(self.i as int, values@.len() as int, 0, self.i as int);
            }
            let n: usize = values.len();
            if self.i + 1 == n {
                self.i = 0;
            } else {
                self.i += 1;
            }
            roll
        } else {
            (random_between(1, 6), random_between(1, 6))
        };
        self.roll_logger.log(roll);
        roll
    }
}

} // verus!
