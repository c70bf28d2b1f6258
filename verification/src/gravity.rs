use vstd::prelude::*;
use crate::board::{Board, NUM_CELLS, NUM_COLS, NUM_ROWS, phys_index, cell_in, below_empty_in};
use crate::cell::Cell;
use crate::time::CELL_UNIT;

verus! {

/// Squares that a falling block moves per second.
pub const FALL_SPEED: u64 = 4;

/// One step of the board's gravity pass found, for a garbage or captcha
/// square: (garbage id, column, logical row, whether it can fall).
pub type GravityEntry = (u32, int, int, bool);

/// A block with fall offset `o` falls for `dt` microseconds: where it has
/// fallen a whole square it starts over at 0 and moves down a square
/// (`true`).
pub open spec fn spec_fall(o: Option<u64>, dt: int) -> (Option<u64>, bool) {
    let prev: int = match o {
        Some(v) => v as int,
        None => 0,
    };
    let n = prev + FALL_SPEED * dt;
    if n >= CELL_UNIT {
        (Some(0), true)
    } else {
        (Some(n as u64), false)
    }
}

/// The block at `(x, y)` moves down into `(x, y - 1)` unless the swap is
/// refused.
pub open spec fn swap_down_in(cells: Seq<Cell>, bottom: int, x: int, y: int) -> Seq<Cell> {
    let i0 = phys_index(bottom, x, y);
    let i1 = phys_index(bottom, x, y - 1);
    if Board::swap_refused(cells[i0], cells[i1], false) {
        cells
    } else {
        Board::swapped(cells, i0, i1)
    }
}

/// What the gravity pass does at `(x, y)`: a coloured block that can fall
/// falls, one that cannot comes to rest; a garbage or captcha square is
/// noted for its block. Returns the squares, whether something could fall,
/// and what was noted.
pub open spec fn settle_step(cells: Seq<Cell>, bottom: int, x: int, y: int, dt: int) -> (
    Seq<Cell>,
    bool,
    Seq<GravityEntry>,
) {
    let i = phys_index(bottom, x, y);
    if below_empty_in(cells, bottom, x, y) {
        match cells[i] {
            Cell::Single(v, o) => {
                let (o2, moves) = spec_fall(o, dt);
                let cs = cells.update(i, Cell::Single(v, o2));
                (
                    if moves {
                        swap_down_in(cs, bottom, x, y)
                    } else {
                        cs
                    },
                    true,
                    Seq::empty(),
                )
            },
            Cell::Garbage(id, _) => (cells, true, seq![(id, x, y, true)]),
            Cell::Captcha(id, _, _, _) => (cells, true, seq![(id, x, y, true)]),
            _ => (cells, true, Seq::empty()),
        }
    } else {
        match cells[i] {
            Cell::Single(v, _) => (cells.update(i, Cell::Single(v, None)), false, Seq::empty()),
            Cell::Garbage(id, _) => (cells, false, seq![(id, x, y, false)]),
            Cell::Captcha(id, _, _, _) => (cells, false, seq![(id, x, y, false)]),
            _ => (cells, false, Seq::empty()),
        }
    }
}

/// The first pass of gravity over its first `g` steps: rows from the second
/// up, each left to right.
pub open spec fn settle_scan(cells: Seq<Cell>, bottom: int, dt: int, g: int) -> (
    Seq<Cell>,
    bool,
    Seq<GravityEntry>,
)
    decreases g,
{
    if g <= 0 {
        (cells, false, Seq::empty())
    } else {
        let prev = settle_scan(cells, bottom, dt, g - 1);
        let x = (g - 1) % (NUM_COLS as int);
        let y = (g - 1) / (NUM_COLS as int) + 1;
        let st = settle_step(prev.0, bottom, x, y, dt);
        (st.0, prev.1 || st.1, prev.2 + st.2)
    }
}

/// Steps of the first gravity pass: every square above the bottom row.
pub const SETTLE_STEPS: usize = 66;

/// The garbage ids of the first `n` notes, each once, in the order first
/// noted.
pub open spec fn group_ids(entries: Seq<GravityEntry>, n: int) -> Seq<u32>
    decreases n,
{
    if n <= 0 {
        Seq::empty()
    } else {
        let ids = group_ids(entries, n - 1);
        if ids.contains(entries[n - 1].0) {
            ids
        } else {
            ids.push(entries[n - 1].0)
        }
    }
}

/// A garbage block falls only where every one of its squares can fall.
pub open spec fn group_falling(entries: Seq<GravityEntry>, id: u32) -> bool {
    forall|j: int| 0 <= j < entries.len() && entries[j].0 == id ==> entries[j].3
}

/// The moves for the squares of block `id` among the first `n` notes:
/// (column, logical row, whether the whole block falls).
pub open spec fn group_moves(entries: Seq<GravityEntry>, id: u32, n: int) -> Seq<(int, int, bool)>
    decreases n,
{
    if n <= 0 {
        Seq::empty()
    } else {
        group_moves(entries, id, n - 1) + if entries[n - 1].0 == id {
            seq![(entries[n - 1].1, entries[n - 1].2, group_falling(entries, id))]
        } else {
            Seq::empty()
        }
    }
}

/// The moves of the first `k` garbage blocks, block after block.
pub open spec fn all_moves(entries: Seq<GravityEntry>, ids: Seq<u32>, k: int) -> Seq<(int, int, bool)>
    decreases k,
{
    if k <= 0 {
        Seq::empty()
    } else {
        all_moves(entries, ids, k - 1) + group_moves(entries, ids[k - 1], entries.len() as int)
    }
}

/// A garbage or captcha square of a falling block falls; of a block that
/// cannot fall, comes to rest. Any other square is left as it is.
pub open spec fn apply_move(cells: Seq<Cell>, bottom: int, mv: (int, int, bool), dt: int) -> Seq<
    Cell,
> {
    let (x, y, falling) = mv;
    let i = phys_index(bottom, x, y);
    match cells[i] {
        Cell::Garbage(id, o) => if falling {
            let (o2, moves) = spec_fall(o, dt);
            let cs = cells.update(i, Cell::Garbage(id, o2));
            if moves {
                swap_down_in(cs, bottom, x, y)
            } else {
                cs
            }
        } else {
            cells.update(i, Cell::Garbage(id, None))
        },
        Cell::Captcha(id, s, o, m) => if falling {
            let (o2, moves) = spec_fall(o, dt);
            let cs = cells.update(i, Cell::Captcha(id, s, o2, m));
            if moves {
                swap_down_in(cs, bottom, x, y)
            } else {
                cs
            }
        } else {
            cells.update(i, Cell::Captcha(id, s, None, m))
        },
        _ => cells,
    }
}

/// The first `k` moves applied in order.
pub open spec fn apply_moves(
    cells: Seq<Cell>,
    bottom: int,
    moves: Seq<(int, int, bool)>,
    dt: int,
    k: int,
) -> Seq<Cell>
    decreases k,
{
    if k <= 0 {
        cells
    } else {
        apply_move(apply_moves(cells, bottom, moves, dt, k - 1), bottom, moves[k - 1], dt)
    }
}

/// The squares after gravity: the first pass over the coloured blocks, then
/// every garbage block as a whole, blocks in the order first met.
pub open spec fn spec_gravity(cells: Seq<Cell>, bottom: int, dt: int) -> Seq<Cell> {
    let first = settle_scan(cells, bottom, dt, SETTLE_STEPS as int);
    let ids = group_ids(first.2, first.2.len() as int);
    let moves = all_moves(first.2, ids, ids.len() as int);
    apply_moves(first.0, bottom, moves, dt, moves.len() as int)
}

/// Whether anything could fall in the gravity pass.
pub open spec fn spec_gravity_moved(cells: Seq<Cell>, bottom: int, dt: int) -> bool {
    settle_scan(cells, bottom, dt, SETTLE_STEPS as int).1
}

/// The notes of the gravity pass as plain values.
pub open spec fn entries_view(v: Seq<(u32, usize, usize, bool)>) -> Seq<GravityEntry> {
    v.map_values(|e: (u32, usize, usize, bool)| (e.0, e.1 as int, e.2 as int, e.3))
}

/// The moves of the gravity pass as plain values.
pub open spec fn moves_view(v: Seq<(usize, usize, bool)>) -> Seq<(int, int, bool)> {
    v.map_values(|m: (usize, usize, bool)| (m.0 as int, m.1 as int, m.2))
}

/// A block with fall offset `o` falls for `dt` microseconds.
fn fall(o: Option<u64>, dt: u32) -> (r: (Option<u64>, bool))
    ensures
        r == spec_fall(o, dt as int),
{
    let prev: u64 = match o {
        Some(v) => v,
        None => 0,
    };
    let n = prev.saturating_add(FALL_SPEED * dt as u64);
    if n >= CELL_UNIT {
        (Some(0), true)
    } else {
        (Some(n), false)
    }
}

fn contains_u32(v: &Vec<u32>, id: u32) -> (r: bool)
    ensures
        r == v@.contains(id),
{
    let mut i: usize = 0;
    while i < v.len()
        invariant
            i <= v@.len(),
            forall|j: int| 0 <= j < i ==> v@[j] != id,
        decreases v@.len() - i,
    {
        if v[i] == id {
            return true;
        }
        i = i + 1;
    }
    false
}

impl Board {
    /// Moves the block at `(x, y)` down a square unless the swap is refused.
    fn swap_down(&mut self, x: usize, y: usize)
        requires
            old(self).wf(),
            x < NUM_COLS,
            1 <= y < NUM_ROWS,
        ensures
            final(self).wf(),
            final(self).cells@ == swap_down_in(old(self).cells@, old(self).bottom as int, x as int, y as int),
            final(self).same_but_cells(*old(self)),
    {
        self.swap_cells(x, y, x, y - 1, false);
    }

    /// One step of the first gravity pass, at `(x, y)`.
    #[verifier::spinoff_prover]
    fn settle_at(&mut self, x: usize, y: usize, dt: u32) -> (r: (bool, Option<(u32, usize, usize, bool)>))
        requires
            old(self).wf(),
            x < NUM_COLS,
            1 <= y < NUM_ROWS,
        ensures
            final(self).wf(),
            ({
                let st = settle_step(old(self).cells@, old(self).bottom as int, x as int, y as int, dt as int);
                &&& final(self).cells@ == st.0
                &&& r.0 == st.1
                &&& entries_view(match r.1 {
                    Some(e) => seq![e],
                    None => Seq::empty(),
                }) == st.2
            }),
            r.1 matches Some(e) ==> e.1 == x && e.2 == y,
            final(self).same_but_cells(*old(self)),
    {
        let ghost b = self.bottom as int;
        let c = *self.get_cell(x, y);
        let r: (bool, Option<(u32, usize, usize, bool)>);
        if self.below_is_empty(x, y) {
            match c {
                Cell::Single(v, o) => {
                    let (o2, moves) = fall(o, dt);
                    *self.get_cell_mut(x, y) = Cell::Single(v, o2);
                    if moves {
                        self.swap_down(x, y);
                    }
                    r = (true, None);
                },
                Cell::Garbage(id, _) => {
                    r = (true, Some((id, x, y, true)));
                },
                Cell::Captcha(id, _, _, _) => {
                    r = (true, Some((id, x, y, true)));
                },
                _ => {
                    r = (true, None);
                },
            }
        } else {
            match c {
                Cell::Single(v, _) => {
                    *self.get_cell_mut(x, y) = Cell::Single(v, None);
                    r = (false, None);
                },
                Cell::Garbage(id, _) => {
                    r = (false, Some((id, x, y, false)));
                },
                Cell::Captcha(id, _, _, _) => {
                    r = (false, Some((id, x, y, false)));
                },
                _ => {
                    r = (false, None);
                },
            }
        }
        proof {
            assert(entries_view(seq![(0u32, x, y, true)]) =~= seq![(0u32, x as int, y as int, true)]);
            let st = settle_step(old(self).cells@, b, x as int, y as int, dt as int);
            assert(entries_view(match r.1 {
                Some(e) => seq![e],
                None => Seq::empty(),
            }) =~= st.2);
        }
        r
    }

    /// One garbage move, at `(x, y)`.
    fn apply_move_at(&mut self, x: usize, y: usize, falling: bool, dt: u32)
        requires
            old(self).wf(),
            x < NUM_COLS,
            1 <= y < NUM_ROWS,
        ensures
            final(self).wf(),
            final(self).cells@ == apply_move(
                old(self).cells@,
                old(self).bottom as int,
                (x as int, y as int, falling),
                dt as int,
            ),
            final(self).same_but_cells(*old(self)),
    {
        let c = *self.get_cell(x, y);
        match c {
            Cell::Garbage(id, o) => {
                if falling {
                    let (o2, moves) = fall(o, dt);
                    *self.get_cell_mut(x, y) = Cell::Garbage(id, o2);
                    if moves {
                        self.swap_down(x, y);
                    }
                } else {
                    *self.get_cell_mut(x, y) = Cell::Garbage(id, None);
                }
            },
            Cell::Captcha(id, s, o, m) => {
                if falling {
                    let (o2, moves) = fall(o, dt);
                    *self.get_cell_mut(x, y) = Cell::Captcha(id, s, o2, m);
                    if moves {
                        self.swap_down(x, y);
                    }
                } else {
                    *self.get_cell_mut(x, y) = Cell::Captcha(id, s, None, m);
                }
            },
            _ => {},
        }
    }

    /// `b2` is `b1` after blocks fall for `dt` microseconds (see
    /// `do_gravity`).
    pub open spec fn gravity_pass(b1: Board, b2: Board, dt: int) -> bool {
        &&& b2.wf()
        &&& b2.cells@ == spec_gravity(b1.cells@, b1.bottom as int, dt)
        &&& b2.chains_valid == (b1.chains_valid || spec_gravity_moved(
            b1.cells@,
            b1.bottom as int,
            dt,
        ))
        &&& b2.same_but_cells_and_flag(b1)
    }

    /// Lets blocks fall for `dt` microseconds. Coloured blocks fall on their
    /// own; a garbage block (with the captchas it turned into) falls only as
    /// a whole, and comes to rest as a whole. A block that has fallen a whole
    /// square moves down into it. Where anything could fall, the chain may go
    /// on.
    #[verifier::spinoff_prover]
    pub fn do_gravity(&mut self, dt: u32)
        requires
            old(self).wf(),
        ensures
            Self::gravity_pass(*old(self), *final(self), dt as int),
    {
        let ghost b = self.bottom as int;
        let ghost init = self.cells@;
        let ghost start = *self;
        let mut entries: Vec<(u32, usize, usize, bool)> = Vec::new();
        let mut g: usize = 0;
        while g < SETTLE_STEPS
            invariant
                g <= SETTLE_STEPS,
                self.wf(),
                self.bottom == b,
                ({
                    let sc = settle_scan(init, b, dt as int, g as int);
                    &&& self.cells@ == sc.0
                    &&& self.chains_valid == (start.chains_valid || sc.1)
                    &&& entries_view(entries@) == sc.2
                }),
                forall|j: int|
                    0 <= j < entries@.len() ==> #[trigger] entries@[j].1 < NUM_COLS && 1
                        <= entries@[j].2 < NUM_ROWS,
                self.just_touched@ == start.just_touched@,
                self.delta == start.delta,
                self.chain == start.chain,
                self.next_garbage_id == start.next_garbage_id,
                self.user_row == start.user_row,
                self.user_col == start.user_col,
            decreases SETTLE_STEPS - g,
        {
            let x = g % NUM_COLS;
            let y = g / NUM_COLS + 1;
            let ghost ev0 = entries_view(entries@);
            let (fell, e) = self.settle_at(x, y, dt);
            if fell {
                self.chains_valid = true;
            }
            assert(x < NUM_COLS && 1 <= y < NUM_ROWS);
            let ghost old_entries = entries@;
            if let Some(e) = e {
                entries.push(e);
                assert forall|j: int| 0 <= j < entries@.len() implies #[trigger] entries@[j].1
                    < NUM_COLS && 1 <= entries@[j].2 < NUM_ROWS by {
                    if j < old_entries.len() {
                        assert(entries@[j] == old_entries[j]);
                    }
                }
                assert(entries_view(entries@) =~= ev0 + seq![(e.0, e.1 as int, e.2 as int, e.3)]);
            } else {
                assert(entries_view(entries@) =~= ev0 + Seq::<GravityEntry>::empty());
            }
            g = g + 1;
        }
        let ghost ev = entries_view(entries@);
        let ghost first = settle_scan(init, b, dt as int, SETTLE_STEPS as int);
        assert(ev == first.2);
        let mut ids: Vec<u32> = Vec::new();
        let mut n: usize = 0;
        while n < entries.len()
            invariant
                n <= entries@.len(),
                ev == entries_view(entries@),
                ids@ == group_ids(ev, n as int),
            decreases entries@.len() - n,
        {
            let id = entries[n].0;
            if !contains_u32(&ids, id) {
                ids.push(id);
            }
            n = n + 1;
        }
        let ghost gids = ids@;
        let mut moves: Vec<(usize, usize, bool)> = Vec::new();
        let mut k: usize = 0;
        while k < ids.len()
            invariant
                k <= ids@.len(),
                ev == entries_view(entries@),
                ids@ == gids,
                moves_view(moves@) == all_moves(ev, gids, k as int),
                forall|j: int|
                    0 <= j < entries@.len() ==> #[trigger] entries@[j].1 < NUM_COLS && 1
                        <= entries@[j].2 < NUM_ROWS,
                forall|j: int|
                    0 <= j < moves@.len() ==> #[trigger] moves@[j].0 < NUM_COLS && 1 <= moves@[j].1
                        < NUM_ROWS,
            decreases ids@.len() - k,
        {
            let id = ids[k];
            let mut falling = true;
            let mut j: usize = 0;
            while j < entries.len()
                invariant
                    j <= entries@.len(),
                    ev == entries_view(entries@),
                    falling == forall|i: int| 0 <= i < j && ev[i].0 == id ==> ev[i].3,
                decreases entries@.len() - j,
            {
                assert(ev[j as int].0 == entries@[j as int].0 && ev[j as int].3 == entries@[j as int].3);
                if entries[j].0 == id && !entries[j].3 {
                    falling = false;
                }
                j = j + 1;
            }
            assert(falling == group_falling(ev, id));
            let ghost base = moves_view(moves@);
            let mut j: usize = 0;
            while j < entries.len()
                invariant
                    j <= entries@.len(),
                    ev == entries_view(entries@),
                    falling == group_falling(ev, id),
                    moves_view(moves@) == base + group_moves(ev, id, j as int),
                    forall|i: int|
                        0 <= i < entries@.len() ==> #[trigger] entries@[i].1 < NUM_COLS && 1
                            <= entries@[i].2 < NUM_ROWS,
                    forall|i: int|
                        0 <= i < moves@.len() ==> #[trigger] moves@[i].0 < NUM_COLS && 1
                            <= moves@[i].1 < NUM_ROWS,
                decreases entries@.len() - j,
            {
                let e = entries[j];
                let ghost mv0 = moves_view(moves@);
                if e.0 == id {
                    moves.push((e.1, e.2, falling));
                    assert(moves_view(moves@) =~= mv0 + seq![(e.1 as int, e.2 as int, falling)]);
                }
                assert(moves_view(moves@) =~= base + group_moves(ev, id, j as int + 1));
                j = j + 1;
            }
            assert(all_moves(ev, gids, k as int + 1) =~= all_moves(ev, gids, k as int)
                + group_moves(ev, id, ev.len() as int));
            k = k + 1;
        }
        let ghost mv = moves_view(moves@);
        let ghost mid = self.cells@;
        let mut k: usize = 0;
        while k < moves.len()
            invariant
                k <= moves@.len(),
                self.wf(),
                self.bottom == b,
                mv == moves_view(moves@),
                self.cells@ == apply_moves(mid, b, mv, dt as int, k as int),
                forall|j: int|
                    0 <= j < moves@.len() ==> #[trigger] moves@[j].0 < NUM_COLS && 1 <= moves@[j].1
                        < NUM_ROWS,
                self.just_touched@ == start.just_touched@,
                self.delta == start.delta,
                self.chain == start.chain,
                self.chains_valid == (start.chains_valid || first.1),
                self.next_garbage_id == start.next_garbage_id,
                self.user_row == start.user_row,
                self.user_col == start.user_col,
            decreases moves@.len() - k,
        {
            let (x, y, falling) = moves[k];
            self.apply_move_at(x, y, falling, dt);
            k = k + 1;
        }
    }
}

} // verus!
