use vstd::prelude::*;
use crate::chain::Chain;

verus! {

/// Sprite shown for a garbage block, and the value a garbage block reports.
pub const GARBAGE_SPRITE: u32 = 99;

/// One square of the board. Fall offsets are in millionths of a cell and
/// countdowns in microseconds; a fall offset of `None` marks a block at rest.
#[derive(Clone, Copy, Debug)]
pub enum Cell {
    Empty,
    /// A coloured block: colour, fall offset.
    Single(u32, Option<u64>),
    /// A matched block waiting to go: colour, match index, fall offset,
    /// countdown to its death animation, chain it belongs to.
    QueuedDelete(u32, u32, u64, i64, Chain),
    /// A block in its death animation: colour, fall offset, wait before the
    /// animation, time left in the animation.
    DeathAnim(u32, u64, i64, i64),
    /// A garbage block: garbage id, fall offset.
    Garbage(u32, Option<u64>),
    /// A captcha block: garbage id, sprite of the direction asked for, fall
    /// offset, whether it has been answered.
    Captcha(u32, u32, Option<u64>, bool),
}

/// What `get_val` reports of a cell.
pub open spec fn spec_val(c: Cell) -> u32 {
    match c {
        Cell::Empty => 0,
        Cell::Single(v, _) => v,
        Cell::QueuedDelete(v, _, _, _, _) => v,
        Cell::DeathAnim(v, _, _, _) => v,
        Cell::Garbage(_, _) => GARBAGE_SPRITE,
        Cell::Captcha(v, _, _, _) => v,
    }
}

/// What `get_fall_offset` reports of a cell: a block at rest and a cell that
/// cannot fall report 0.
pub open spec fn spec_fall_offset(c: Cell) -> u64 {
    match c {
        Cell::Single(_, o) => match o {
            Some(v) => v,
            None => 0,
        },
        Cell::QueuedDelete(_, _, o, _, _) => o,
        Cell::DeathAnim(_, o, _, _) => o,
        Cell::Garbage(_, o) => match o {
            Some(v) => v,
            None => 0,
        },
        _ => 0,
    }
}

/// Two cells match when both are coloured blocks at rest of the same colour.
/// A falling block never matches, and no other cell matches anything.
pub open spec fn spec_matches(a: Cell, b: Cell) -> bool {
    match (a, b) {
        (Cell::Single(v, f), Cell::Single(v2, f2)) => v == v2 && f is None && f2 is None,
        _ => false,
    }
}

impl Cell {
    /// An empty cell.
    pub fn new() -> (c: Cell)
        ensures
            c == Cell::Empty,
    {
        Cell::Empty
    }

    /// The colour (sprite) of the cell: 0 for an empty cell, the garbage
    /// sprite for garbage, the garbage id for a captcha.
    pub fn get_val(&self) -> (v: u32)
        ensures
            v == spec_val(*self),
    {
        match self {
            Cell::Empty => 0,
            Cell::Single(v, _) => *v,
            Cell::QueuedDelete(v, _, _, _, _) => *v,
            Cell::DeathAnim(v, _, _, _) => *v,
            Cell::Garbage(_, _) => GARBAGE_SPRITE,
            Cell::Captcha(v, _, _, _) => *v,
        }
    }

    /// How far the cell has fallen towards the row below, in millionths of a
    /// cell.
    pub fn get_fall_offset(&self) -> (o: u64)
        ensures
            o == spec_fall_offset(*self),
    {
        match self {
            Cell::Single(_, o) => match o {
                Some(v) => *v,
                None => 0,
            },
            Cell::QueuedDelete(_, _, o, _, _) => *o,
            Cell::DeathAnim(_, o, _, _) => *o,
            Cell::Garbage(_, o) => match o {
                Some(v) => *v,
                None => 0,
            },
            _ => 0,
        }
    }
}

impl PartialEq for Cell {
    fn eq(&self, other: &Self) -> (r: bool) {
        match (self, other) {
            (Cell::Single(v, f), Cell::Single(v2, f2)) => *v == *v2 && f.is_none() && f2.is_none(),
            _ => false,
        }
    }
}

impl vstd::std_specs::cmp::PartialEqSpecImpl for Cell {
    open spec fn obeys_eq_spec() -> bool {
        true
    }

    open spec fn eq_spec(&self, other: &Cell) -> bool {
        spec_matches(*self, *other)
    }
}

/// Matching is symmetric: `a == b` exactly when `b == a`.
pub proof fn lemma_matches_symmetric(a: Cell, b: Cell)
    ensures
        spec_matches(a, b) == spec_matches(b, a),
{
}

/// No cell that is not a coloured block at rest matches any cell, itself
/// included.
pub proof fn lemma_only_resting_blocks_match(a: Cell, b: Cell)
    requires
        !(a matches Cell::Single(_, None)),
    ensures
        !spec_matches(a, b),
        !spec_matches(b, a),
{
}

} // verus!
