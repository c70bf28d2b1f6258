use vstd::prelude::*;
use crate::board::{Board, NUM_COLS};
use crate::chain::Chain;
use crate::matches::dirs_fit;

verus! {

/// One whole row of the board's scroll: the scroll counts sixteen-millionths
/// of a row, so that it moves by a whole number of units each microsecond.
pub const SCROLL_UNIT: u64 = 16_000_000;

/// Scroll units per microsecond while the player boosts: five rows a
/// second.
pub const BOOST_SPEED: u64 = 80;

/// Scroll units per microsecond without a boost: one row every sixteen
/// seconds.
pub const SCROLL_SPEED: u64 = 1;

/// How far the board scrolls in `dt` microseconds, in scroll units.
pub open spec fn spec_scroll(dt: int, boost: bool) -> int {
    if boost {
        BOOST_SPEED * dt
    } else {
        SCROLL_SPEED * dt
    }
}

/// `d + inc`, held at `u64::MAX`.
pub open spec fn spec_sat_add(d: int, inc: int) -> u64 {
    if d + inc > u64::MAX {
        u64::MAX
    } else {
        (d + inc) as u64
    }
}

/// The scroll `delta` after `dt` microseconds reaches a whole row.
pub open spec fn spec_reaches_row(delta: u64, dt: int, boost: bool) -> bool {
    spec_sat_add(delta as int, spec_scroll(dt, boost)) >= SCROLL_UNIT
}

/// The scroll after `dt` microseconds from `delta`: where it reaches a whole
/// row, what it ran past the last whole row.
pub open spec fn spec_scrolled(delta: u64, dt: int, boost: bool) -> u64 {
    let d = spec_sat_add(delta as int, spec_scroll(dt, boost));
    if d >= SCROLL_UNIT {
        (d % SCROLL_UNIT) as u64
    } else {
        d
    }
}

impl Board {
    /// `b2` is `b1` after it scrolls for `dt` microseconds. Where the scroll
    /// reaches a whole row, the rows move up a row, the new bottom row is
    /// filled with resting blocks of colours `values`, the cursor moves up
    /// with the rows, and the scroll keeps only what it ran past the last
    /// whole row (one row comes in per frame at most).
    pub open spec fn scroll_pass(b1: Board, b2: Board, dt: int, boost: bool, values: Seq<u32>) -> bool {
        let scrolled = spec_reaches_row(b1.delta, dt, boost);
        &&& b2.wf()
        &&& b2.delta == spec_scrolled(b1.delta, dt, boost)
        &&& scrolled ==> {
            &&& b2.bottom == Self::spec_pushed_bottom(b1.bottom as int)
            &&& b2.cells@ == Self::spec_row_filled(b1.cells@, b2.bottom as int, values)
            &&& b2.user_row == b1.user_row + 1
        }
        &&& !scrolled ==> {
            &&& b2.bottom == b1.bottom
            &&& b2.cells@ == b1.cells@
            &&& b2.user_row == b1.user_row
        }
        &&& b2.just_touched@ == b1.just_touched@
        &&& b2.chain == b1.chain
        &&& b2.chains_valid == b1.chains_valid
        &&& b2.next_garbage_id == b1.next_garbage_id
        &&& b2.user_col == b1.user_col
    }

    /// `b2` and the returned `r` are what one frame of `dt` microseconds
    /// makes of `b1`: queued deletes and death animations count down, the
    /// board scrolls, blocks fall, matches are found, the frame ends, and
    /// the chain counts down, returning its multiplier where it closes.
    pub open spec fn update_rel(
        b1: Board,
        b2: Board,
        dt: int,
        boost: bool,
        values: Seq<u32>,
        dirs: Seq<u32>,
        r: Option<u32>,
    ) -> bool {
        exists|q: Board, d: Board, sc: Board, g: Board, m: Board, e: Board|
            {
                &&& #[trigger] Self::queued_pass(b1, q, dt)
                &&& #[trigger] Self::death_pass(q, d, dt)
                &&& #[trigger] Self::scroll_pass(d, sc, dt, boost, values)
                &&& #[trigger] Self::gravity_pass(sc, g, dt)
                &&& #[trigger] Self::matches_pass(g, m, dirs)
                &&& #[trigger] Self::end_frame_pass(m, e)
                &&& Chain::update_rel(e.chain, b2.chain, dt, r)
                &&& b2.wf()
                &&& b2.cells@ == e.cells@
                &&& b2.just_touched@ == e.just_touched@
                &&& b2.delta == e.delta
                &&& b2.chains_valid == e.chains_valid
                &&& b2.next_garbage_id == e.next_garbage_id
                &&& b2.user_row == e.user_row
                &&& b2.user_col == e.user_col
                &&& b2.bottom == e.bottom
            }
    }

    /// One frame of `dt` microseconds of the board, boosted or not; `values`
    /// are the colours of the bottom row that comes in if the board scrolls a
    /// whole row, and `dirs` the directions of the captchas that garbage may
    /// turn into (by storage index). Returns the multiplier of a chain that
    /// closes in this frame.
    #[verifier::spinoff_prover]
    pub fn update(&mut self, dt: u32, boost: bool, values: &[u32], dirs: &[u32]) -> (r: Option<u32>)
        requires
            old(self).wf(),
            values@.len() == NUM_COLS,
            dirs_fit(dirs@),
            old(self).chain.can_inc(),
            spec_reaches_row(old(self).delta, dt as int, boost) ==> old(self).user_row < usize::MAX,
        ensures
            Self::update_rel(*old(self), *final(self), dt as int, boost, values@, dirs@, r),
            final(self).wf(),
            final(self).next_garbage_id == old(self).next_garbage_id,
            final(self).user_col == old(self).user_col,
            final(self).delta < SCROLL_UNIT,
    {
        self.check_queued_deletes(dt);
        let ghost q = *self;
        self.check_death_anims(dt);
        let ghost d = *self;
        let inc: u64 = if boost {
            BOOST_SPEED * dt as u64
        } else {
            SCROLL_SPEED * dt as u64
        };
        self.delta = self.delta.saturating_add(inc);
        if self.delta >= SCROLL_UNIT {
            self.delta = self.delta % SCROLL_UNIT;
            self.push_bottom_row_up();
            self.new_bottom_row(values);
            self.user_row = self.user_row + 1;
        }
        let ghost sc = *self;
        self.do_gravity(dt);
        let ghost g = *self;
        self.check_matches(dirs);
        let ghost m = *self;
        self.end_frame();
        let ghost e = *self;
        let c = self.chain.update(dt);
        assert(Self::queued_pass(*old(self), q, dt as int));
        assert(Self::death_pass(q, d, dt as int));
        assert(Self::scroll_pass(d, sc, dt as int, boost, values@));
        assert(Self::gravity_pass(sc, g, dt as int));
        assert(Self::matches_pass(g, m, dirs@));
        assert(Self::end_frame_pass(m, e));
        if c.is_some() {
            return Some(c.unwrap());
        }
        return None;
    }
}

} // verus!
