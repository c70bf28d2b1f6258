use vstd::prelude::*;

verus! {

/// Microseconds in one second: every duration of the library is counted in
/// microseconds.
pub const MICROS_PER_SECOND: i64 = 1_000_000;

/// One whole cell in the fixed-point unit of fall offsets: millionths of a
/// cell.
pub const CELL_UNIT: u64 = 1_000_000;

/// `t - dt`, held at `i64::MIN` where the difference would leave `i64`.
pub open spec fn spec_tick_down(t: i64, dt: int) -> i64 {
    if t - dt < i64::MIN {
        i64::MIN
    } else {
        (t - dt) as i64
    }
}

/// `t + dt`, held at `i64::MAX` where the sum would leave `i64`.
pub open spec fn spec_tick_up(t: i64, dt: int) -> i64 {
    if t + dt > i64::MAX {
        i64::MAX
    } else {
        (t + dt) as i64
    }
}

/// Counts a countdown down by `dt` microseconds.
pub fn tick_down(t: i64, dt: u32) -> (r: i64)
    ensures
        r == spec_tick_down(t, dt as int),
{
    if t >= i64::MIN + dt as i64 {
        t - dt as i64
    } else {
        i64::MIN
    }
}

/// Counts a timer up by `dt` microseconds (`dt` not negative).
pub fn tick_up(t: i64, dt: i64) -> (r: i64)
    requires
        dt >= 0,
    ensures
        r == spec_tick_up(t, dt as int),
{
    if t <= i64::MAX - dt {
        t + dt
    } else {
        i64::MAX
    }
}

} // verus!
