use vstd::prelude::*;
use crate::board::{Board, NUM_CELLS, NUM_ROWS, scan_index, lemma_scan_injective};
use crate::cell::Cell;
use crate::time::{tick_down, spec_tick_down};

verus! {

/// How long a matched block waits before its death animation: half a second.
pub const DELETE_DELAY: i64 = 500_000;

/// The stagger between the death animations of blocks that expire in the
/// same frame, and the length of one death animation: a tenth of a second.
pub const DEATH_STEP: i64 = 100_000;

/// A countdown of a queued delete or death animation after `dt`: a countdown
/// that has already run out stays where it is.
pub open spec fn spec_run_down(cd: i64, dt: int) -> i64 {
    if cd > 0 {
        spec_tick_down(cd, dt)
    } else {
        cd
    }
}

/// The queued delete `c` runs out in a step of `dt`.
pub open spec fn spec_delete_expires(c: Cell, dt: int) -> bool {
    c matches Cell::QueuedDelete(_, _, _, cd, _) && spec_run_down(cd, dt) <= 0
}

/// A queued delete whose countdown is still running.
pub open spec fn spec_delete_pending(c: Cell) -> bool {
    c matches Cell::QueuedDelete(_, _, _, cd, _) && cd > 0
}

/// What a step of `dt` makes of the queued delete `c`, where it is the
/// `rank`-th to run out in this frame: it counts down, and once run out
/// starts its death animation after `rank` staggers.
pub open spec fn spec_queued_step(c: Cell, dt: int, rank: int) -> Cell {
    match c {
        Cell::QueuedDelete(v, idx, o, cd, ch) => {
            let cd2 = spec_run_down(cd, dt);
            if cd2 <= 0 {
                Cell::DeathAnim(v, o, (DEATH_STEP * rank) as i64, 0)
            } else {
                Cell::QueuedDelete(v, idx, o, cd2, ch)
            }
        },
        _ => c,
    }
}

/// What a step of `dt` makes of the death animation `c`: a running
/// animation counts down and leaves an empty square when done; otherwise the
/// wait before it counts down, and once over the animation starts.
pub open spec fn spec_death_step(c: Cell, dt: int) -> Cell {
    match c {
        Cell::DeathAnim(v, o, b, a) => if a > 0 {
            let a2 = spec_tick_down(a, dt);
            if a2 <= 0 {
                Cell::Empty
            } else {
                Cell::DeathAnim(v, o, b, a2)
            }
        } else {
            let b2 = spec_run_down(b, dt);
            if b2 <= 0 {
                Cell::DeathAnim(v, o, 0, DEATH_STEP)
            } else {
                Cell::DeathAnim(v, o, b2, a)
            }
        },
        _ => c,
    }
}

/// A death animation, or the wait before one, still running.
pub open spec fn spec_death_running(c: Cell) -> bool {
    c matches Cell::DeathAnim(_, _, b, a) && (a > 0 || b > 0)
}

impl Board {
    /// How many of the first `s` squares of the scan are queued deletes that
    /// run out in a step of `dt`.
    pub open spec fn expiring_before(self, dt: int, s: int) -> int
        decreases s,
    {
        if s <= 0 {
            0
        } else {
            self.expiring_before(dt, s - 1) + if spec_delete_expires(self.scan_cell(s - 1), dt) {
                1int
            } else {
                0int
            }
        }
    }

    /// `b2` is `b1` after the queued deletes count down for `dt`
    /// microseconds (see `check_queued_deletes`).
    pub open spec fn queued_pass(b1: Board, b2: Board, dt: int) -> bool {
        &&& b2.wf()
        &&& forall|s: int|
            0 <= s < NUM_CELLS ==> #[trigger] b2.cells@[scan_index(b1.bottom as int, s)]
                == spec_queued_step(b1.scan_cell(s), dt, b1.expiring_before(dt, s) + 1)
        &&& b2.chains_valid == (b1.chains_valid || exists|s: int|
            0 <= s < NUM_CELLS && spec_delete_pending(#[trigger] b1.scan_cell(s)))
        &&& b2.same_but_cells_and_flag(b1)
    }

    /// `b2` is `b1` after the death animations advance for `dt`
    /// microseconds (see `check_death_anims`).
    pub open spec fn death_pass(b1: Board, b2: Board, dt: int) -> bool {
        &&& b2.wf()
        &&& forall|s: int|
            0 <= s < NUM_CELLS ==> #[trigger] b2.cells@[scan_index(b1.bottom as int, s)]
                == spec_death_step(b1.scan_cell(s), dt)
        &&& b2.chains_valid == (b1.chains_valid || exists|s: int|
            0 <= s < NUM_CELLS && spec_death_running(#[trigger] b1.scan_cell(s)))
        &&& b2.same_but_cells_and_flag(b1)
    }

    proof fn lemma_expiring_before_bounds(self, dt: int, s: int)
        requires
            0 <= s,
        ensures
            0 <= self.expiring_before(dt, s) <= s,
        decreases s,
    {
        if s > 0 {
            self.lemma_expiring_before_bounds(dt, s - 1);
        }
    }

    /// Counts down the queued deletes. Those that run out start their death
    /// animations one stagger apart, in the order of the column-by-column
    /// scan. Where a queued delete was still counting, the chain may go on.
    #[verifier::spinoff_prover]
    pub fn check_queued_deletes(&mut self, dt: u32)
        requires
            old(self).wf(),
        ensures
            Self::queued_pass(*old(self), *final(self), dt as int),
    {
        let ghost b = self.bottom as int;
        let ghost start = *self;
        let mut count: i64 = 1;
        let mut chains_valid = false;
        let mut s: usize = 0;
        while s < NUM_CELLS
            invariant
                s <= NUM_CELLS,
                0 <= b < NUM_ROWS,
                start == *old(self),
                self.wf(),
                self.bottom == b,
                start.wf(),
                start.bottom == b,
                count == start.expiring_before(dt as int, s as int) + 1,
                count <= s + 1,
                chains_valid == exists|t: int|
                    0 <= t < s && spec_delete_pending(#[trigger] start.scan_cell(t)),
                forall|t: int|
                    0 <= t < NUM_CELLS ==> #[trigger] self.cells@[scan_index(b, t)] == if t < s {
                        spec_queued_step(
                            start.scan_cell(t),
                            dt as int,
                            start.expiring_before(dt as int, t) + 1,
                        )
                    } else {
                        start.scan_cell(t)
                    },
                self.same_but_cells(start),
            decreases NUM_CELLS - s,
        {
            let c = self.get_scan_cell(s);
            proof {
                start.lemma_expiring_before_bounds(dt as int, s as int);
            }
            if delete_pending(&c) {
                chains_valid = true;
                assert(spec_delete_pending(start.scan_cell(s as int)));
            }
            let expires = delete_expires(&c, dt);
            self.set_scan_cell(s, queued_step(c, dt, count));
            if expires {
                count = count + 1;
            }
            proof {
                assert forall|t: int| 0 <= t < NUM_CELLS implies #[trigger] self.cells@[scan_index(
                    b,
                    t,
                )] == if t < s + 1 {
                    spec_queued_step(
                        start.scan_cell(t),
                        dt as int,
                        start.expiring_before(dt as int, t) + 1,
                    )
                } else {
                    start.scan_cell(t)
                } by {
                    if t != s {
                        lemma_scan_injective(b, s as int, t);
                    }
                }
            }
            s = s + 1;
        }
        if chains_valid {
            self.chains_valid = true;
        }
    }

    /// Advances every death animation; a finished one leaves an empty square.
    /// Where an animation or the wait before one was still running, the chain
    /// may go on.
    #[verifier::spinoff_prover]
    pub fn check_death_anims(&mut self, dt: u32)
        requires
            old(self).wf(),
        ensures
            Self::death_pass(*old(self), *final(self), dt as int),
    {
        let ghost b = self.bottom as int;
        let ghost start = *self;
        let mut chains_valid = false;
        let mut s: usize = 0;
        while s < NUM_CELLS
            invariant
                s <= NUM_CELLS,
                0 <= b < NUM_ROWS,
                start == *old(self),
                self.wf(),
                self.bottom == b,
                start.wf(),
                start.bottom == b,
                chains_valid == exists|t: int|
                    0 <= t < s && spec_death_running(#[trigger] start.scan_cell(t)),
                forall|t: int|
                    0 <= t < NUM_CELLS ==> #[trigger] self.cells@[scan_index(b, t)] == if t < s {
                        spec_death_step(start.scan_cell(t), dt as int)
                    } else {
                        start.scan_cell(t)
                    },
                self.same_but_cells(start),
            decreases NUM_CELLS - s,
        {
            let c = self.get_scan_cell(s);
            if death_running(&c) {
                chains_valid = true;
                assert(spec_death_running(start.scan_cell(s as int)));
            }
            self.set_scan_cell(s, death_step(c, dt));
            proof {
                assert forall|t: int| 0 <= t < NUM_CELLS implies #[trigger] self.cells@[scan_index(
                    b,
                    t,
                )] == if t < s + 1 {
                    spec_death_step(start.scan_cell(t), dt as int)
                } else {
                    start.scan_cell(t)
                } by {
                    if t != s {
                        lemma_scan_injective(b, s as int, t);
                    }
                }
            }
            s = s + 1;
        }
        if chains_valid {
            self.chains_valid = true;
        }
    }
}

/// Whether `c` is a queued delete still counting.
fn delete_pending(c: &Cell) -> (r: bool)
    ensures
        r == spec_delete_pending(*c),
{
    match c {
        Cell::QueuedDelete(_, _, _, cd, _) => *cd > 0,
        _ => false,
    }
}

/// Whether the queued delete `c` runs out in a step of `dt`.
fn delete_expires(c: &Cell, dt: u32) -> (r: bool)
    ensures
        r == spec_delete_expires(*c, dt as int),
{
    match c {
        Cell::QueuedDelete(_, _, _, cd, _) => {
            let mut cd2 = *cd;
            if cd2 > 0 {
                cd2 = tick_down(cd2, dt);
            }
            cd2 <= 0
        },
        _ => false,
    }
}

/// One step of `dt` of the queued delete `c`, the `rank`-th to run out.
fn queued_step(c: Cell, dt: u32, rank: i64) -> (r: Cell)
    requires
        1 <= rank <= NUM_CELLS + 1,
    ensures
        r == spec_queued_step(c, dt as int, rank as int),
{
    match c {
        Cell::QueuedDelete(v, idx, o, cd, ch) => {
            let mut cd2 = cd;
            if cd2 > 0 {
                cd2 = tick_down(cd2, dt);
            }
            if cd2 <= 0 {
                Cell::DeathAnim(v, o, DEATH_STEP * rank, 0)
            } else {
                Cell::QueuedDelete(v, idx, o, cd2, ch)
            }
        },
        _ => c,
    }
}

/// Whether `c` is a death animation, or the wait before one, still running.
fn death_running(c: &Cell) -> (r: bool)
    ensures
        r == spec_death_running(*c),
{
    match c {
        Cell::DeathAnim(_, _, b, a) => *a > 0 || *b > 0,
        _ => false,
    }
}

/// One step of `dt` of the death animation `c`.
fn death_step(c: Cell, dt: u32) -> (r: Cell)
    ensures
        r == spec_death_step(c, dt as int),
{
    match c {
        Cell::DeathAnim(v, o, b, a) => {
            if a > 0 {
                let a2 = tick_down(a, dt);
                if a2 <= 0 {
                    Cell::Empty
                } else {
                    Cell::DeathAnim(v, o, b, a2)
                }
            } else {
                let mut b2 = b;
                if b2 > 0 {
                    b2 = tick_down(b2, dt);
                }
                if b2 <= 0 {
                    Cell::DeathAnim(v, o, 0, DEATH_STEP)
                } else {
                    Cell::DeathAnim(v, o, b2, a)
                }
            }
        },
        _ => c,
    }
}

} // verus!
