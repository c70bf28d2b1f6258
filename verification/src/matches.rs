use vstd::prelude::*;
use crate::board::{
    Board, NUM_CELLS, NUM_COLS, NUM_ROWS, START_GARBAGE_ID, CAPTCHA_SPRITE_BASE, phys_index,
    scan_index, scan_step_of, lemma_scan_injective, lemma_scan_bijective,
};
use crate::cell::{Cell, spec_val, spec_fall_offset, spec_matches};
use crate::chain::Chain;
use crate::anims::DELETE_DELAY;

verus! {

/// The garbage id held in `state` at column `x` of logical row `y`, as a
/// set: empty where that square is off the board (`on` is false) or holds
/// no garbage.
pub open spec fn garbage_at(state: Seq<u32>, bottom: int, on: bool, x: int, y: int) -> Set<u32> {
    if on && state[phys_index(bottom, x, y)] >= START_GARBAGE_ID {
        set![state[phys_index(bottom, x, y)]]
    } else {
        Set::empty()
    }
}

/// The garbage ids found next to the matched square in column `x` of logical
/// row `y`, in the per-square `state` of a match pass (which holds the
/// garbage id of each garbage square): those of its left, right, lower and
/// upper neighbours on the board.
pub open spec fn spec_neighbour_ids(state: Seq<u32>, bottom: int, x: int, y: int) -> Set<u32> {
    garbage_at(state, bottom, x > 0, x - 1, y) + garbage_at(
        state,
        bottom,
        x < NUM_COLS - 1,
        x + 1,
        y,
    ) + garbage_at(state, bottom, y > 0, x, y - 1) + garbage_at(
        state,
        bottom,
        y < NUM_ROWS - 1,
        x,
        y + 1,
    )
}

/// A garbage square whose id is in `ids` turns into an unanswered captcha
/// asking for direction `dir`; every other square stays as it is.
pub open spec fn spec_captcha_of(c: Cell, ids: Set<u32>, dir: u32) -> Cell {
    match c {
        Cell::Garbage(id, o) => if ids.contains(id) {
            Cell::Captcha(id, (CAPTCHA_SPRITE_BASE + dir) as u32, o, false)
        } else {
            c
        },
        _ => c,
    }
}

/// The squares `cells` after every garbage block with an id in `ids` turned
/// into captchas; the square at storage index `i` asks for `dirs[i]`.
pub open spec fn spec_captchas(cells: Seq<Cell>, ids: Set<u32>, dirs: Seq<u32>) -> Seq<Cell> {
    Seq::new(cells.len(), |i: int| spec_captcha_of(cells[i], ids, dirs[i]))
}

/// The random directions fit a captcha sprite.
pub open spec fn dirs_fit(dirs: Seq<u32>) -> bool {
    &&& dirs.len() == NUM_CELLS
    &&& forall|i: int| 0 <= i < NUM_CELLS ==> dirs[i] <= u32::MAX - CAPTCHA_SPRITE_BASE
}

/// A matched square queued for deletion under match index `idx`, keeping
/// its colour and fall offset, and the chain it was matched in.
pub open spec fn spec_queued(c: Cell, idx: u32, chain: Chain) -> Cell {
    Cell::QueuedDelete(spec_val(c), idx, spec_fall_offset(c), DELETE_DELAY, chain)
}

/// The storage index of the `k`-th square of run `m`.
pub open spec fn run_square_index(bottom: int, m: (bool, int, int, int), k: int) -> int {
    if m.0 {
        phys_index(bottom, m.1 + k, m.2)
    } else {
        phys_index(bottom, m.1, m.2 + k)
    }
}

/// Run `m` covers the square at column `x` of logical row `y`.
pub open spec fn run_covers(m: (bool, int, int, int), x: int, y: int) -> bool {
    if m.0 {
        y == m.2 && m.1 <= x <= m.1 + m.3
    } else {
        x == m.1 && m.2 <= y <= m.2 + m.3
    }
}

/// The 1-based index in `ms` of the last run covering `(x, y)`; 0 where no
/// run covers it.
pub open spec fn last_cover(ms: Seq<(bool, int, int, int)>, x: int, y: int) -> int
    decreases ms.len(),
{
    if ms.len() == 0 {
        0
    } else if run_covers(ms.last(), x, y) {
        ms.len() as int
    } else {
        last_cover(ms.drop_last(), x, y)
    }
}

/// `last_cover` stays within the runs it looks at.
pub proof fn lemma_last_cover_bound(ms: Seq<(bool, int, int, int)>, x: int, y: int)
    ensures
        0 <= last_cover(ms, x, y) <= ms.len(),
    decreases ms.len(),
{
    if ms.len() > 0 {
        lemma_last_cover_bound(ms.drop_last(), x, y);
    }
}

proof fn lemma_last_cover_push(
    ms: Seq<(bool, int, int, int)>,
    m: (bool, int, int, int),
    x: int,
    y: int,
)
    ensures
        last_cover(ms.push(m), x, y) == if run_covers(m, x, y) {
            ms.len() + 1int
        } else {
            last_cover(ms, x, y)
        },
{
    assert(ms.push(m).drop_last() =~= ms);
}

/// The square at column `x` of logical row `y` is the one that the scan
/// visits at step `x * NUM_ROWS + y`.
pub proof fn lemma_pos_step(bottom: int, x: int, y: int)
    requires
        0 <= bottom < NUM_ROWS,
        0 <= x < NUM_COLS,
        0 <= y < NUM_ROWS,
    ensures
        scan_index(bottom, x * NUM_ROWS + y) == phys_index(bottom, x, y),
        scan_step_of(bottom, phys_index(bottom, x, y)) == x * NUM_ROWS + y,
        0 <= phys_index(bottom, x, y) < NUM_CELLS,
{
    lemma_scan_bijective(bottom);
    let s = x * 12 + y;
    assert(s / 12 == x);
    assert(s % 12 == y);
    assert(0 <= s < NUM_CELLS);
}

fn contains_id(ids: &Vec<u32>, id: u32) -> (r: bool)
    ensures
        r == ids@.contains(id),
{
    let mut i: usize = 0;
    while i < ids.len()
        invariant
            i <= ids@.len(),
            forall|j: int| 0 <= j < i ==> ids@[j] != id,
        decreases ids@.len() - i,
    {
        if ids[i] == id {
            return true;
        }
        i = i + 1;
    }
    false
}

fn add_id(ids: &mut Vec<u32>, id: u32)
    ensures
        final(ids)@.to_set() == old(ids)@.to_set().insert(id),
{
    let ghost before = ids@;
    if !contains_id(ids, id) {
        ids.push(id);
        proof {
            assert forall|a: u32| ids@.contains(a) <==> before.contains(a) || a == id by {
                if a == id {
                    assert(ids@[before.len() as int] == id);
                }
                if before.contains(a) {
                    let j = choose|j: int| 0 <= j < before.len() && before[j] == a;
                    assert(ids@[j] == a);
                }
            }
        }
    }
    proof {
        assert(ids@.to_set() =~= before.to_set().insert(id));
    }
}

impl Board {
    /// Turns into captchas the garbage blocks whose ids neighbour the matched
    /// square in column `x` of logical row `y`; the square at storage index
    /// `i` asks for direction `dirs[i]`.
    pub fn trigger_garbage(&mut self, state: &Vec<u32>, x: usize, y: usize, dirs: &[u32])
        requires
            old(self).wf(),
            state@.len() == NUM_CELLS,
            x < NUM_COLS,
            y < NUM_ROWS,
            dirs_fit(dirs@),
        ensures
            final(self).wf(),
            final(self).cells@ == spec_captchas(
                old(self).cells@,
                spec_neighbour_ids(state@, old(self).bottom as int, x as int, y as int),
                dirs@,
            ),
            final(self).same_but_cells(*old(self)),
    {
        let row = self.row_of(y);
        let mut ids: Vec<u32> = Vec::new();
        if x > 0 && state[row * NUM_COLS + x - 1] >= START_GARBAGE_ID {
            add_id(&mut ids, state[row * NUM_COLS + x - 1]);
        }
        if x < NUM_COLS - 1 && state[row * NUM_COLS + x + 1] >= START_GARBAGE_ID {
            add_id(&mut ids, state[row * NUM_COLS + x + 1]);
        }
        if y > 0 {
            let below = self.row_of(y - 1) * NUM_COLS + x;
            if state[below] >= START_GARBAGE_ID {
                add_id(&mut ids, state[below]);
            }
        }
        if y < NUM_ROWS - 1 {
            let above = self.row_of(y + 1) * NUM_COLS + x;
            if state[above] >= START_GARBAGE_ID {
                add_id(&mut ids, state[above]);
            }
        }
        let ghost wanted = spec_neighbour_ids(state@, self.bottom as int, x as int, y as int);
        assert(ids@.to_set() =~= wanted);
        let ghost start = *self;
        let mut i: usize = 0;
        while i < NUM_CELLS
            invariant
                i <= NUM_CELLS,
                start == *old(self),
                self.wf(),
                dirs_fit(dirs@),
                ids@.to_set() == wanted,
                forall|j: int|
                    0 <= j < NUM_CELLS ==> #[trigger] self.cells@[j] == if j < i {
                        spec_captcha_of(start.cells@[j], wanted, dirs@[j])
                    } else {
                        start.cells@[j]
                    },
                self.same_but_cells(start),
            decreases NUM_CELLS - i,
        {
            if let Cell::Garbage(id, o) = self.cells[i] {
                if contains_id(&ids, id) {
                    assert(wanted.contains(id));
                    self.cells.set(i, Cell::Captcha(id, CAPTCHA_SPRITE_BASE + dirs[i], o, false));
                } else {
                    assert(!ids@.contains(id));
                    assert(!wanted.contains(id));
                }
            }
            i = i + 1;
        }
        assert(self.cells@ =~= spec_captchas(start.cells@, wanted, dirs@));
    }

    /// Queues the square at column `x` of logical row `y` for deletion under
    /// match index `idx` in chain `chain`.
    fn delete_block(&mut self, x: usize, y: usize, idx: u32, chain: Chain)
        requires
            old(self).wf(),
            old(self).valid_pos(x as int, y as int),
        ensures
            final(self).wf(),
            final(self).cells@ == old(self).cells@.update(
                phys_index(old(self).bottom as int, x as int, y as int),
                spec_queued(old(self).cell(x as int, y as int), idx, chain),
            ),
            final(self).same_but_cells(*old(self)),
    {
        let cell = self.get_cell_mut(x, y);
        let val = cell.get_val();
        let offset = cell.get_fall_offset();
        *cell = Cell::QueuedDelete(val, idx, offset, DELETE_DELAY, chain);
    }

    /// How many squares to the right of `(x, y)` (from the `k`-th on) match
    /// it, one after another.
    pub open spec fn hrun_from(self, x: int, y: int, k: int) -> int
        decreases NUM_COLS - x - k,
    {
        if x + k + 1 < NUM_COLS && spec_matches(self.cell(x + k + 1, y), self.cell(x, y)) {
            self.hrun_from(x, y, k + 1)
        } else {
            k
        }
    }

    /// How many squares above `(x, y)` (from the `k`-th on) match it, one
    /// after another; the top row never takes part in a vertical run.
    pub open spec fn vrun_from(self, x: int, y: int, k: int) -> int
        decreases NUM_ROWS - y - k,
    {
        if y + k + 1 < NUM_ROWS - 1 && spec_matches(self.cell(x, y + k + 1), self.cell(x, y)) {
            self.vrun_from(x, y, k + 1)
        } else {
            k
        }
    }

    /// The runs that start at step `s` of the column-by-column scan: a
    /// coloured block with at least two matching squares to its right starts
    /// a horizontal run, and one with at least two above it a vertical run.
    /// A run is (horizontal, column, row, squares after the first).
    pub open spec fn runs_at(self, s: int) -> Seq<(bool, int, int, int)> {
        let x = s / (NUM_ROWS as int);
        let y = s % (NUM_ROWS as int);
        if self.cell(x, y) is Single {
            let h = self.hrun_from(x, y, 0);
            let v = self.vrun_from(x, y, 0);
            (if h >= 2 {
                seq![(true, x, y, h)]
            } else {
                Seq::empty()
            }) + (if v >= 2 {
                seq![(false, x, y, v)]
            } else {
                Seq::empty()
            })
        } else {
            Seq::empty()
        }
    }

    /// The runs found in the first `s` steps of the scan, in the order found.
    pub open spec fn runs_upto(self, s: int) -> Seq<(bool, int, int, int)>
        decreases s,
    {
        if s <= 0 {
            Seq::empty()
        } else {
            self.runs_upto(s - 1) + self.runs_at(s - 1)
        }
    }

    /// Every run of the board, in the order that the scan finds them.
    pub open spec fn all_runs(self) -> Seq<(bool, int, int, int)> {
        self.runs_upto(NUM_CELLS as int)
    }

    /// Whether one of the squares of run `m` was swapped by the player in
    /// this frame.
    pub open spec fn run_touched(self, m: (bool, int, int, int)) -> bool {
        exists|k: int|
            0 <= k <= m.3 && #[trigger] self.just_touched@[run_square_index(
                self.bottom as int,
                m,
                k,
            )]
    }

    /// Whether the match pass over the runs `ms` found a clean match
    /// (`Some(true)`), a match on squares the player just swapped
    /// (`Some(false)`), or nothing (`None`). A horizontal run decides anew;
    /// a vertical run only sets the result where none was found before; a
    /// run with a swapped square makes it `Some(false)`.
    pub open spec fn match_flag(self, ms: Seq<(bool, int, int, int)>) -> Option<bool>
        decreases ms.len(),
    {
        if ms.len() == 0 {
            None
        } else {
            let prev = self.match_flag(ms.drop_last());
            let m = ms.last();
            if self.run_touched(m) {
                Some(false)
            } else if m.0 || prev is None {
                Some(true)
            } else {
                prev
            }
        }
    }

    /// The per-square result of the match pass, in storage order: a garbage
    /// square holds its garbage id, a square in a run the (1-based) index of
    /// the last run that covers it, any other square 0.
    pub open spec fn match_state(self) -> Seq<u32> {
        Seq::new(
            NUM_CELLS as nat,
            |p: int|
                match self.cells@[p] {
                    Cell::Garbage(id, _) => id,
                    _ => {
                        let t = scan_step_of(self.bottom as int, p);
                        last_cover(
                            self.all_runs(),
                            t / (NUM_ROWS as int),
                            t % (NUM_ROWS as int),
                        ) as u32
                    },
                },
        )
    }

    /// The match pass's result after the runs `ms`, where the garbage squares
    /// of the first `s` steps of the scan already hold their ids.
    pub open spec fn state_with(self, ms: Seq<(bool, int, int, int)>, s: int) -> Seq<u32> {
        Seq::new(
            NUM_CELLS as nat,
            |p: int|
                {
                    let t = scan_step_of(self.bottom as int, p);
                    match self.cells@[p] {
                        Cell::Garbage(id, _) => if t < s {
                            id
                        } else {
                            last_cover(ms, t / (NUM_ROWS as int), t % (NUM_ROWS as int)) as u32
                        },
                        _ => last_cover(ms, t / (NUM_ROWS as int), t % (NUM_ROWS as int)) as u32,
                    }
                },
        )
    }

    /// A match pass finds at most two runs per square.
    pub proof fn lemma_all_runs_len(self)
        ensures
            self.all_runs().len() <= 2 * NUM_CELLS,
    {
        self.lemma_runs_upto_len(NUM_CELLS as int);
    }

    proof fn lemma_runs_upto_len(self, s: int)
        requires
            0 <= s,
        ensures
            self.runs_upto(s).len() <= 2 * s,
        decreases s,
    {
        if s > 0 {
            self.lemma_runs_upto_len(s - 1);
        }
    }

    /// How many squares to the right of `(x, y)` match the block `c` there.
    fn run_right(&self, x: usize, y: usize, c: Cell) -> (r: usize)
        requires
            self.wf(),
            x < NUM_COLS,
            y < NUM_ROWS,
            c == self.cell(x as int, y as int),
        ensures
            r == self.hrun_from(x as int, y as int, 0),
            x + r < NUM_COLS,
    {
        let mut xi: usize = 0;
        while x + xi + 1 < NUM_COLS && *self.get_cell(x + xi + 1, y) == c
            invariant
                self.wf(),
                x < NUM_COLS,
                y < NUM_ROWS,
                c == self.cell(x as int, y as int),
                x + xi < NUM_COLS,
                self.hrun_from(x as int, y as int, 0) == self.hrun_from(
                    x as int,
                    y as int,
                    xi as int,
                ),
            decreases NUM_COLS - x - xi,
        {
            xi = xi + 1;
        }
        xi
    }

    /// How many squares above `(x, y)` match the block `c` there, below the
    /// top row.
    fn run_up(&self, x: usize, y: usize, c: Cell) -> (r: usize)
        requires
            self.wf(),
            x < NUM_COLS,
            y < NUM_ROWS,
            c == self.cell(x as int, y as int),
        ensures
            r == self.vrun_from(x as int, y as int, 0),
            y + r < NUM_ROWS,
    {
        let mut yi: usize = 0;
        while y + yi + 1 < NUM_ROWS - 1 && *self.get_cell(x, y + yi + 1) == c
            invariant
                self.wf(),
                x < NUM_COLS,
                y < NUM_ROWS,
                c == self.cell(x as int, y as int),
                y + yi < NUM_ROWS,
                self.vrun_from(x as int, y as int, 0) == self.vrun_from(
                    x as int,
                    y as int,
                    yi as int,
                ),
            decreases NUM_ROWS - y - yi,
        {
            yi = yi + 1;
        }
        yi
    }

    /// Writes match index `idx` into `state` for every square of run `m`,
    /// and tells whether one of them was swapped by the player in this frame.
    #[verifier::spinoff_prover]
    #[verifier::rlimit(40)]
    fn mark_run(&self, state: &mut Vec<u32>, horizontal: bool, x: usize, y: usize, len: usize, idx: u32) -> (touched: bool)
        requires
            self.wf(),
            old(state)@.len() == NUM_CELLS,
            x < NUM_COLS,
            y < NUM_ROWS,
            horizontal ==> x + len < NUM_COLS,
            !horizontal ==> y + len < NUM_ROWS,
        ensures
            final(state)@ == Seq::new(
                NUM_CELLS as nat,
                |p: int|
                    {
                        let t = scan_step_of(self.bottom as int, p);
                        if run_covers(
                            (horizontal, x as int, y as int, len as int),
                            t / (NUM_ROWS as int),
                            t % (NUM_ROWS as int),
                        ) {
                            idx
                        } else {
                            old(state)@[p]
                        }
                    },
            ),
            touched == self.run_touched((horizontal, x as int, y as int, len as int)),
    {
        let ghost b = self.bottom as int;
        let ghost m = (horizontal, x as int, y as int, len as int);
        let ghost st0 = state@;
        proof {
            lemma_scan_bijective(b);
        }
        let mut touched = false;
        let mut k: usize = 0;
        while k <= len
            invariant
                self.wf(),
                b == self.bottom,
                st0 == old(state)@,
                k <= len + 1,
                x < NUM_COLS,
                y < NUM_ROWS,
                horizontal ==> x + len < NUM_COLS,
                !horizontal ==> y + len < NUM_ROWS,
                m == (horizontal, x as int, y as int, len as int),
                state@.len() == NUM_CELLS,
                forall|p: int|
                    #![trigger state@[p]]
                    0 <= p < NUM_CELLS ==> state@[p] == {
                        let t = scan_step_of(b, p);
                        if run_covers(
                            (horizontal, x as int, y as int, k - 1),
                            t / (NUM_ROWS as int),
                            t % (NUM_ROWS as int),
                        ) {
                            idx
                        } else {
                            st0[p]
                        }
                    },
                touched == exists|j: int|
                    0 <= j < k && #[trigger] self.just_touched@[run_square_index(b, m, j)],
                forall|i: int|
                    0 <= i < NUM_CELLS ==> 0 <= #[trigger] scan_step_of(b, i) < NUM_CELLS
                        && scan_index(b, scan_step_of(b, i)) == i,
            decreases len + 1 - k,
        {
            let (cx, cy) = if horizontal {
                (x + k, y)
            } else {
                (x, y + k)
            };
            let p = self.row_of(cy) * NUM_COLS + cx;
            proof {
                lemma_pos_step(b, cx as int, cy as int);
                assert(p == run_square_index(b, m, k as int));
            }
            if self.just_touched[p] {
                touched = true;
            }
            let ghost before = state@;
            state.set(p, idx);
            proof {
                assert forall|q: int| #![trigger state@[q]] 0 <= q < NUM_CELLS implies state@[q] == {
                    let t = scan_step_of(b, q);
                    if run_covers(
                        (horizontal, x as int, y as int, k as int),
                        t / (NUM_ROWS as int),
                        t % (NUM_ROWS as int),
                    ) {
                        idx
                    } else {
                        st0[q]
                    }
                } by {
                    let t = scan_step_of(b, q);
                    if q != p {
                        assert(scan_index(b, t) == q);
                        assert(t != cx * 12 + cy);
                    }
                }
            }
            k = k + 1;
        }
        proof {
            assert(state@ =~= Seq::new(
                NUM_CELLS as nat,
                |p: int|
                    {
                        let t = scan_step_of(b, p);
                        if run_covers(m, t / (NUM_ROWS as int), t % (NUM_ROWS as int)) {
                            idx
                        } else {
                            st0[p]
                        }
                    },
            ));
        }
        touched
    }

    /// The match pass: finds every run of the board in scan order, numbers
    /// them from 1, and returns the per-square result with the flag of the
    /// pass.
    #[verifier::spinoff_prover]
    fn match_pass(&self) -> (res: (Vec<u32>, Option<bool>))
        requires
            self.wf(),
        ensures
            res.0@ == self.match_state(),
            res.1 == self.match_flag(self.all_runs()),
    {
        let ghost b = self.bottom as int;
        proof {
            lemma_scan_bijective(b);
        }
        let mut state: Vec<u32> = Vec::new();
        let mut i: usize = 0;
        while i < NUM_CELLS
            invariant
                i <= NUM_CELLS,
                state@.len() == i,
                forall|j: int| 0 <= j < i ==> state@[j] == 0,
            decreases NUM_CELLS - i,
        {
            state.push(0);
            i = i + 1;
        }
        assert(state@ =~= self.state_with(self.runs_upto(0), 0));
        let mut made: Option<bool> = None;
        let mut idx: u32 = 1;
        let mut s: usize = 0;
        while s < NUM_CELLS
            invariant
                self.wf(),
                b == self.bottom,
                s <= NUM_CELLS,
                state@ == self.state_with(self.runs_upto(s as int), s as int),
                made == self.match_flag(self.runs_upto(s as int)),
                idx == self.runs_upto(s as int).len() + 1,
                self.runs_upto(s as int).len() <= 2 * s,
                forall|i: int|
                    0 <= i < NUM_CELLS ==> 0 <= #[trigger] scan_step_of(b, i) < NUM_CELLS
                        && scan_index(b, scan_step_of(b, i)) == i,
                forall|t: int|
                    0 <= t < NUM_CELLS ==> 0 <= #[trigger] scan_index(b, t) < NUM_CELLS
                        && scan_step_of(b, scan_index(b, t)) == t,
            decreases NUM_CELLS - s,
        {
            let x = s / NUM_ROWS;
            let y = s % NUM_ROWS;
            let c = *self.get_cell(x, y);
            let ghost ms0 = self.runs_upto(s as int);
            let ghost mut ms = ms0;
            proof {
                self.lemma_runs_upto_len(s as int + 1);
                lemma_pos_step(b, x as int, y as int);
            }
            if let Cell::Single(_, _) = c {
                let xi = self.run_right(x, y, c);
                if xi >= 2 {
                    let ghost m = (true, x as int, y as int, xi as int);
                    let ghost st = state@;
                    let touched = self.mark_run(&mut state, true, x, y, xi, idx);
                    made = if touched {
                        Some(false)
                    } else {
                        Some(true)
                    };
                    idx = idx + 1;
                    proof {
                        assert forall|q: int| 0 <= q < NUM_CELLS implies #[trigger] state@[q]
                            == self.state_with(ms.push(m), s as int)[q] by {
                            let t = scan_step_of(b, q);
                            lemma_last_cover_push(ms, m, t / 12, t % 12);
                            lemma_last_cover_bound(ms, t / 12, t % 12);
                            if run_covers(m, t / 12, t % 12) {
                                assert(t >= s);
                            }
                        }
                        assert(state@ =~= self.state_with(ms.push(m), s as int));
                        assert(ms.push(m).drop_last() =~= ms);
                        assert(ms.push(m).last() == m);
                        assert(made == self.match_flag(ms.push(m)));
                        ms = ms.push(m);
                    }
                }
                let yi = self.run_up(x, y, c);
                if yi >= 2 {
                    let ghost m = (false, x as int, y as int, yi as int);
                    let ghost st = state@;
                    let touched = self.mark_run(&mut state, false, x, y, yi, idx);
                    if touched {
                        made = Some(false);
                    } else if made.is_none() {
                        made = Some(true);
                    }
                    idx = idx + 1;
                    proof {
                        assert forall|q: int| 0 <= q < NUM_CELLS implies #[trigger] state@[q]
                            == self.state_with(ms.push(m), s as int)[q] by {
                            let t = scan_step_of(b, q);
                            lemma_last_cover_push(ms, m, t / 12, t % 12);
                            lemma_last_cover_bound(ms, t / 12, t % 12);
                            if run_covers(m, t / 12, t % 12) {
                                assert(t >= s);
                            }
                        }
                        assert(state@ =~= self.state_with(ms.push(m), s as int));
                        assert(ms.push(m).drop_last() =~= ms);
                        assert(ms.push(m).last() == m);
                        assert(made == self.match_flag(ms.push(m)));
                        ms = ms.push(m);
                    }
                }
            }
            proof {
                assert(ms =~= ms0 + self.runs_at(s as int));
                assert(ms =~= self.runs_upto(s as int + 1));
            }
            let p = self.row_of(y) * NUM_COLS + x;
            if let Cell::Garbage(id, _) = c {
                state.set(p, id);
            }
            proof {
                assert forall|q: int| 0 <= q < NUM_CELLS implies #[trigger] state@[q]
                    == self.state_with(ms, s as int + 1)[q] by {
                    if q != p {
                        assert(scan_step_of(b, q) != s);
                    }
                }
                assert(state@ =~= self.state_with(ms, s as int + 1));
            }
            s = s + 1;
        }
        proof {
            assert(state@ =~= self.match_state());
        }
        (state, made)
    }

    /// The square at storage index `p` is deleted by the match pass with
    /// per-square result `state`: it holds a match index.
    pub open spec fn spec_deleted(state: Seq<u32>, p: int) -> bool {
        0 < state[p] < START_GARBAGE_ID
    }

    /// The garbage ids that the deletions of the first `s` steps of the scan
    /// set off.
    pub open spec fn trigger_ids_upto(self, state: Seq<u32>, s: int) -> Set<u32>
        decreases s,
    {
        if s <= 0 {
            Set::empty()
        } else {
            let t = s - 1;
            let p = scan_index(self.bottom as int, t);
            self.trigger_ids_upto(state, t) + if Self::spec_deleted(state, p) {
                spec_neighbour_ids(
                    state,
                    self.bottom as int,
                    t / (NUM_ROWS as int),
                    t % (NUM_ROWS as int),
                )
            } else {
                Set::empty()
            }
        }
    }

    /// The squares after the deletions of a match pass with result `state`,
    /// in storage order: walking the scan, each square with a match index sets
    /// off the garbage next to it (which turns into captchas, the one at
    /// storage index `i` asking for `dirs[i]`) and is then queued for
    /// deletion in chain `chain`.
    pub open spec fn spec_after_deletes(
        self,
        state: Seq<u32>,
        dirs: Seq<u32>,
        chain: Chain,
    ) -> Seq<Cell> {
        Seq::new(
            NUM_CELLS as nat,
            |p: int|
                {
                    let s = scan_step_of(self.bottom as int, p);
                    if Self::spec_deleted(state, p) {
                        spec_queued(
                            spec_captcha_of(
                                self.cells@[p],
                                self.trigger_ids_upto(state, s + 1),
                                dirs[p],
                            ),
                            state[p],
                            chain,
                        )
                    } else {
                        spec_captcha_of(
                            self.cells@[p],
                            self.trigger_ids_upto(state, NUM_CELLS as int),
                            dirs[p],
                        )
                    }
                },
        )
    }

    /// What a match pass with flag `flag` makes of the chain `old_chain`,
    /// giving `new_chain`: a clean match continues the chain where something
    /// moved or died in this frame and ends it otherwise; a match on just
    /// swapped squares ends it; no match leaves it.
    pub open spec fn spec_chain_after(
        old_chain: Chain,
        flag: Option<bool>,
        chains_valid: bool,
        new_chain: Chain,
    ) -> bool {
        match flag {
            Some(true) => if chains_valid {
                &&& new_chain.spec_value() == Some(
                    (match old_chain.spec_value() {
                        Some(v) => v + 1,
                        None => 2,
                    }) as u32,
                )
                &&& new_chain.spec_countdown() == crate::chain::CHAIN_WINDOW
            } else {
                new_chain.spec_value() == None::<u32> && new_chain.spec_countdown() == 0
            },
            Some(false) => new_chain.spec_value() == None::<u32> && new_chain.spec_countdown()
                == 0,
            None => new_chain == old_chain,
        }
    }

    /// `b2` is `b1` after its match pass, with captcha directions `dirs`
    /// (see `check_matches`).
    pub open spec fn matches_pass(b1: Board, b2: Board, dirs: Seq<u32>) -> bool {
        &&& b2.wf()
        &&& Self::spec_chain_after(
            b1.chain,
            b1.match_flag(b1.all_runs()),
            b1.chains_valid,
            b2.chain,
        )
        &&& b2.cells@ == b1.spec_after_deletes(b1.match_state(), dirs, b2.chain)
        &&& b2.just_touched@ == b1.just_touched@
        &&& b2.delta == b1.delta
        &&& b2.chains_valid == b1.chains_valid
        &&& b2.next_garbage_id == b1.next_garbage_id
        &&& b2.user_row == b1.user_row
        &&& b2.user_col == b1.user_col
        &&& b2.bottom == b1.bottom
    }

    /// Finds the matches of the board, updates the chain, and queues every
    /// matched square for deletion; garbage next to a matched square turns
    /// into captchas asking for the directions `dirs` (by storage index).
    #[verifier::spinoff_prover]
    #[verifier::rlimit(60)]
    pub fn check_matches(&mut self, dirs: &[u32])
        requires
            old(self).wf(),
            dirs_fit(dirs@),
            old(self).chain.can_inc(),
        ensures
            Self::matches_pass(*old(self), *final(self), dirs@),
    {
        let ghost start = *self;
        let (state, made) = self.match_pass();
        match made {
            Some(true) => {
                if self.chains_valid {
                    self.chain.inc();
                } else {
                    self.chain.clear();
                }
            },
            Some(false) => {
                self.chain.clear();
            },
            None => {},
        }
        let ghost b = self.bottom as int;
        let ghost new_chain = self.chain;
        proof {
            lemma_scan_bijective(b);
        }
        let mut s: usize = 0;
        while s < NUM_CELLS
            invariant
                s <= NUM_CELLS,
                self.wf(),
                start.wf(),
                b == self.bottom,
                b == start.bottom,
                state@ == start.match_state(),
                dirs_fit(dirs@),
                self.chain == new_chain,
                forall|t: int|
                    0 <= t < NUM_CELLS ==> #[trigger] self.cells@[scan_index(b, t)] == if t < s
                        && Self::spec_deleted(state@, scan_index(b, t)) {
                        spec_queued(
                            spec_captcha_of(
                                start.cells@[scan_index(b, t)],
                                start.trigger_ids_upto(state@, t + 1),
                                dirs@[scan_index(b, t)],
                            ),
                            state@[scan_index(b, t)],
                            new_chain,
                        )
                    } else {
                        spec_captcha_of(
                            start.cells@[scan_index(b, t)],
                            start.trigger_ids_upto(state@, s as int),
                            dirs@[scan_index(b, t)],
                        )
                    },
                forall|i: int|
                    0 <= i < NUM_CELLS ==> 0 <= #[trigger] scan_step_of(b, i) < NUM_CELLS
                        && scan_index(b, scan_step_of(b, i)) == i,
                forall|t: int|
                    0 <= t < NUM_CELLS ==> 0 <= #[trigger] scan_index(b, t) < NUM_CELLS
                        && scan_step_of(b, scan_index(b, t)) == t,
                self.just_touched@ == start.just_touched@,
                self.delta == start.delta,
                self.chains_valid == start.chains_valid,
                self.next_garbage_id == start.next_garbage_id,
                self.user_row == start.user_row,
                self.user_col == start.user_col,
            decreases NUM_CELLS - s,
        {
            let x = s / NUM_ROWS;
            let y = s % NUM_ROWS;
            let row = self.row_of(y);
            let p = row * NUM_COLS + x;
            proof {
                lemma_pos_step(b, x as int, y as int);
            }
            let ghost ids_before = start.trigger_ids_upto(state@, s as int);
            if state[p] > 0 && state[p] < START_GARBAGE_ID {
                let ghost before = self.cells@;
                self.trigger_garbage(&state, x, y, dirs);
                let ghost n = spec_neighbour_ids(state@, b, x as int, y as int);
                let chain = self.chain;
                self.delete_block(x, y, state[p], chain);
                proof {
                    assert(start.trigger_ids_upto(state@, s as int + 1) == ids_before + n);
                    assert forall|t: int| 0 <= t < NUM_CELLS implies #[trigger] self.cells@[scan_index(
                        b,
                        t,
                    )] == if t < s + 1 && Self::spec_deleted(state@, scan_index(b, t)) {
                        spec_queued(
                            spec_captcha_of(
                                start.cells@[scan_index(b, t)],
                                start.trigger_ids_upto(state@, t + 1),
                                dirs@[scan_index(b, t)],
                            ),
                            state@[scan_index(b, t)],
                            new_chain,
                        )
                    } else {
                        spec_captcha_of(
                            start.cells@[scan_index(b, t)],
                            start.trigger_ids_upto(state@, s as int + 1),
                            dirs@[scan_index(b, t)],
                        )
                    } by {
                        let q = scan_index(b, t);
                        if t != s {
                            assert(q != p);
                        }
                    }
                }
            } else {
                proof {
                    assert(start.trigger_ids_upto(state@, s as int + 1) =~= ids_before);
                }
            }
            s = s + 1;
        }
        proof {
            assert(self.cells@ =~= start.spec_after_deletes(state@, dirs@, new_chain)) by {
                assert forall|p: int| 0 <= p < NUM_CELLS implies self.cells@[p]
                    == start.spec_after_deletes(state@, dirs@, new_chain)[p] by {
                    let t = scan_step_of(b, p);
                    assert(scan_index(b, t) == p);
                }
            }
        }
    }
}

} // verus!
