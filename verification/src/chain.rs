use vstd::prelude::*;
use crate::time::{tick_down, spec_tick_down, MICROS_PER_SECOND};

verus! {

/// How long a chain stays open after its last link: five seconds.
pub const CHAIN_WINDOW: i64 = 5 * MICROS_PER_SECOND;

/// A running chain of matches: its multiplier, and the time left before it
/// closes.
#[derive(Debug, Copy, Clone)]
pub struct Chain {
    value: Option<u32>,
    countdown: i64,
}

impl Chain {
    /// The multiplier of the chain, `None` where no chain runs.
    pub closed spec fn spec_value(self) -> Option<u32> {
        self.value
    }

    /// Microseconds left before the chain closes.
    pub closed spec fn spec_countdown(self) -> i64 {
        self.countdown
    }

    /// Whether one more link can be added without the multiplier leaving `u32`.
    pub open spec fn can_inc(self) -> bool {
        self.spec_value() != Some(u32::MAX)
    }

    /// Adds a link to the chain: a new chain starts at two, a running one
    /// counts one more; either way the chain stays open for five seconds.
    pub fn inc(&mut self)
        requires
            old(self).can_inc(),
        ensures
            final(self).spec_value() == Some(
                (match old(self).spec_value() {
                    Some(v) => v + 1,
                    None => 2,
                }) as u32,
            ),
            final(self).spec_countdown() == CHAIN_WINDOW,
    {
        let v: u32 = match self.value {
            Some(v) => v + 1,
            None => 2,
        };
        self.value = Some(v);
        self.countdown = CHAIN_WINDOW;
    }

    /// Ends the chain.
    pub fn clear(&mut self)
        ensures
            final(self).spec_value() == None::<u32>,
            final(self).spec_countdown() == 0,
    {
        self.value = None;
        self.countdown = 0;
    }

    /// The multiplier of the chain, if one runs.
    pub fn get_value(&self) -> (v: Option<u32>)
        ensures
            v == self.spec_value(),
    {
        self.value
    }

    /// `c2` is `c1` after `dt` microseconds, and `r` what `update` returned
    /// (see `update`).
    pub open spec fn update_rel(c1: Chain, c2: Chain, dt: int, r: Option<u32>) -> bool {
        let expired = c1.spec_countdown() > 0 && spec_tick_down(c1.spec_countdown(), dt) <= 0;
        &&& c1.spec_countdown() > 0 ==> c2.spec_countdown() == spec_tick_down(
            c1.spec_countdown(),
            dt,
        )
        &&& c1.spec_countdown() <= 0 ==> c2.spec_countdown() == c1.spec_countdown()
        &&& expired ==> r == c1.spec_value() && c2.spec_value() == None::<u32>
        &&& !expired ==> r == None::<u32> && c2.spec_value() == c1.spec_value()
    }

    /// Lets `dt` microseconds pass. Where the countdown runs out in this
    /// step, the chain closes and its multiplier is returned; otherwise
    /// `None` is returned.
    pub fn update(&mut self, dt: u32) -> (r: Option<u32>)
        ensures
            Self::update_rel(*old(self), *final(self), dt as int, r),
    {
        if self.countdown > 0 {
            self.countdown = tick_down(self.countdown, dt);
            if self.countdown <= 0 {
                let v = self.value;
                self.value = None;
                return v;
            }
        }
        None
    }
}

impl Default for Chain {
    fn default() -> (c: Chain)
        ensures
            c.spec_value() == None::<u32>,
            c.spec_countdown() == 0,
    {
        Chain { value: None, countdown: 0 }
    }
}

} // verus!
