use vstd::prelude::*;
use crate::time::{tick_down, spec_tick_down, MICROS_PER_SECOND};

verus! {

/// Time between two attacks of the enemy: thirty seconds.
pub const COOLDOWN: i64 = 30 * MICROS_PER_SECOND;

/// Time that each step of a player's chain pushes the enemy's next attack
/// back: two seconds.
pub const DELAY_PER_CHAIN_STEP: i64 = 2 * MICROS_PER_SECOND;

/// The opponent: it attacks each time its countdown runs out.
pub struct Enemy {
    /// Microseconds left before the next attack.
    pub countdown: i64,
}

/// `countdown` pushed back by `chain` steps, held at `i64::MAX`.
pub open spec fn spec_delayed(countdown: i64, chain: u32) -> i64 {
    if countdown + chain * DELAY_PER_CHAIN_STEP > i64::MAX {
        i64::MAX
    } else {
        (countdown + chain * DELAY_PER_CHAIN_STEP) as i64
    }
}

impl Enemy {
    /// An enemy whose first attack is one cooldown away.
    pub fn new() -> (e: Enemy)
        ensures
            e.countdown == COOLDOWN,
    {
        Enemy { countdown: COOLDOWN }
    }

    /// Lets `dt` microseconds pass; returns whether the enemy attacks now.
    /// Where it attacks, its countdown starts again from the cooldown.
    pub fn update(&mut self, dt: u32) -> (attacks: bool)
        ensures
            attacks == (spec_tick_down(old(self).countdown, dt as int) < 0),
            attacks ==> final(self).countdown == COOLDOWN,
            !attacks ==> final(self).countdown == spec_tick_down(old(self).countdown, dt as int),
    {
        self.countdown = tick_down(self.countdown, dt);
        if self.countdown < 0 {
            self.countdown = COOLDOWN;
            return true;
        }
        return false;
    }

    /// The player's chain of `chain` steps pushes the next attack back by
    /// two seconds a step.
    pub fn attack(&mut self, chain: u32)
        ensures
            final(self).countdown == spec_delayed(old(self).countdown, chain),
    {
        let delay: i64 = chain as i64 * DELAY_PER_CHAIN_STEP;
        if self.countdown <= i64::MAX - delay {
            self.countdown = self.countdown + delay;
        } else {
            self.countdown = i64::MAX;
        }
    }
}

} // verus!
